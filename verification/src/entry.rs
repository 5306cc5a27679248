//! The rows of a listing: folders and files below a prefix.
use vstd::prelude::*;

use crate::order::{is_stable_sort, rank_order, stable_sort, Ranked};
use crate::order::{law_stable_sort_keeps_items, lemma_stable_sort_through};
use crate::path::relative_name;
use crate::path::{law_without_prefix_undoes_adding, without_prefix, without_trailing};
use crate::text::{at_most, same_text};
use crate::text::{law_text_order_total, law_text_order_transitive, text_le};

verus! {

/// One row in the object list: a "folder" (common prefix) or a file.
pub struct Entry {
    pub key: String,
    pub size: i64,
    pub is_prefix: bool,
}

/// What an `Entry` holds.
pub struct EntryView {
    pub key: Seq<char>,
    pub size: i64,
    pub is_prefix: bool,
}

impl View for Entry {
    type V = EntryView;

    open spec fn view(&self) -> EntryView {
        EntryView { key: self.key@, size: self.size, is_prefix: self.is_prefix }
    }
}

impl DeepView for Entry {
    type V = EntryView;

    open spec fn deep_view(&self) -> EntryView {
        self@
    }
}

impl Clone for Entry {
    fn clone(&self) -> (res: Self)
        ensures
            res@ == self@,
    {
        Entry { key: self.key.clone(), size: self.size, is_prefix: self.is_prefix }
    }
}

impl EntryView {
    /// The name shown for the entry in a listing of `prefix`.
    pub open spec fn name(self, prefix: Seq<char>) -> Seq<char> {
        without_trailing(without_prefix(self.key, prefix), '/')
    }
}

impl Entry {
    /// Display name relative to the current prefix.
    pub fn name(&self, prefix: &str) -> (res: &str)
        ensures
            res@ == self@.name(prefix@),
    {
        relative_name(self.key.as_str(), prefix)
    }
}

/// An object of a listing: its key and its size, as far as the reply gives them.
pub struct ObjectSummary {
    pub key: Option<String>,
    pub size: Option<i64>,
}

/// What an `ObjectSummary` holds.
pub struct ObjectSummaryView {
    pub key: Option<Seq<char>>,
    pub size: Option<i64>,
}

impl View for ObjectSummary {
    type V = ObjectSummaryView;

    open spec fn view(&self) -> ObjectSummaryView {
        ObjectSummaryView { key: self.key.deep_view(), size: self.size }
    }
}

impl DeepView for ObjectSummary {
    type V = ObjectSummaryView;

    open spec fn deep_view(&self) -> ObjectSummaryView {
        self@
    }
}

/// The reply to a listing: the prefixes up to the next delimiter, and the objects.
pub struct ObjectPage {
    pub common_prefixes: Vec<Option<String>>,
    pub contents: Vec<ObjectSummary>,
}

/// What an `ObjectPage` holds.
pub struct ObjectPageView {
    pub common_prefixes: Seq<Option<Seq<char>>>,
    pub contents: Seq<ObjectSummaryView>,
}

impl View for ObjectPage {
    type V = ObjectPageView;

    open spec fn view(&self) -> ObjectPageView {
        ObjectPageView {
            common_prefixes: self.common_prefixes.deep_view(),
            contents: self.contents.deep_view(),
        }
    }
}

impl DeepView for ObjectPage {
    type V = ObjectPageView;

    open spec fn deep_view(&self) -> ObjectPageView {
        self@
    }
}

/// A text that may be missing; nothing in its place.
pub open spec fn text_or_empty(text: Option<Seq<char>>) -> Seq<char> {
    match text {
        Some(s) => s,
        None => Seq::<char>::empty(),
    }
}

/// A text that may be missing; nothing in its place.
pub fn owned_or_empty(text: &Option<String>) -> (res: String)
    ensures
        res@ == text_or_empty(text.deep_view()),
{
    match text {
        Some(s) => s.clone(),
        None => String::new(),
    }
}

/// The row of a common prefix.
pub open spec fn folder_entry(prefix: Option<Seq<char>>) -> EntryView {
    EntryView { key: text_or_empty(prefix), size: 0, is_prefix: true }
}

/// The row of an object.
pub open spec fn file_entry(object: ObjectSummaryView) -> EntryView {
    EntryView {
        key: text_or_empty(object.key),
        size: match object.size {
            Some(size) => size,
            None => 0,
        },
        is_prefix: false,
    }
}

/// The row of an object in a listing of `prefix`, if it has one: the object whose key is the
/// prefix itself marks the folder and has none.
pub open spec fn listed_file(prefix: Seq<char>) -> spec_fn(ObjectSummaryView) -> Option<EntryView> {
    |object: ObjectSummaryView|
        if object.key == Some(prefix) {
            None
        } else {
            Some(file_entry(object))
        }
}

/// The rows of a listing of `prefix` in the order in which the reply gives them.
pub open spec fn listed_entries(page: ObjectPageView, prefix: Seq<char>) -> Seq<EntryView> {
    page.common_prefixes.map_values(|p: Option<Seq<char>>| folder_entry(p))
        + page.contents.filter_map(listed_file(prefix))
}

/// Folders stand before files, and either by their keys.
pub open spec fn entry_le(a: EntryView, b: EntryView) -> bool {
    if a.is_prefix != b.is_prefix {
        a.is_prefix
    } else {
        text_le(a.key, b.key)
    }
}

/// The order of the rows of a listing.
pub open spec fn entry_order() -> spec_fn(EntryView, EntryView) -> bool {
    |a: EntryView, b: EntryView| entry_le(a, b)
}

impl Ranked for Entry {
    open spec fn rank_le(self, other: Self) -> bool {
        entry_le(self@, other@)
    }

    proof fn rank_total(a: Self, b: Self) {
        law_text_order_total(a@.key, b@.key);
    }

    proof fn rank_transitive(a: Self, b: Self, c: Self) {
        if a.is_prefix == b.is_prefix && b.is_prefix == c.is_prefix {
            law_text_order_transitive(a@.key, b@.key, c@.key);
        }
    }

    fn may_precede(&self, other: &Self) -> (res: bool) {
        if self.is_prefix != other.is_prefix {
            self.is_prefix
        } else {
            at_most(self.key.as_str(), other.key.as_str())
        }
    }
}

/// The rows of a listing of `prefix`, in their order.
pub fn entries_of(page: &ObjectPage, prefix: &str) -> (res: Vec<Entry>)
    ensures
        is_stable_sort(entry_order(), listed_entries(page@, prefix@), res.deep_view()),
{
    let mut rows: Vec<Entry> = Vec::new();
    let ghost folder = |p: Option<Seq<char>>| folder_entry(p);
    let ghost all_folders = page@.common_prefixes.map_values(folder);
    let mut i: usize = 0;
    while i < page.common_prefixes.len()
        invariant
            i <= page.common_prefixes.len(),
            all_folders == page@.common_prefixes.map_values(folder),
            folder == (|p: Option<Seq<char>>| folder_entry(p)),
            rows.deep_view() == all_folders.take(i as int),
        decreases page.common_prefixes.len() - i,
    {
        let ghost before = rows.deep_view();
        let key = owned_or_empty(&page.common_prefixes[i]);
        rows.push(Entry { key, size: 0, is_prefix: true });
        proof {
            assert(rows.deep_view() =~= before.push(folder_entry(page@.common_prefixes[i as int])));
            assert(rows.deep_view() =~= all_folders.take(i + 1));
        }
        i = i + 1;
    }
    proof {
        assert(all_folders.take(i as int) =~= all_folders);
        assert(page@.contents.take(0) =~= Seq::<ObjectSummaryView>::empty());
        assert(page@.contents.take(0).filter_map(listed_file(prefix@)) =~= Seq::<
            EntryView,
        >::empty()) by {
            reveal(Seq::filter_map);
        }
        assert(rows.deep_view() =~= all_folders + page@.contents.take(0).filter_map(
            listed_file(prefix@),
        ));
    }
    let mut j: usize = 0;
    while j < page.contents.len()
        invariant
            j <= page.contents.len(),
            rows.deep_view() == all_folders + page@.contents.take(j as int).filter_map(
                listed_file(prefix@),
            ),
        decreases page.contents.len() - j,
    {
        let object = &page.contents[j];
        proof {
            reveal(Seq::filter_map);
            assert(page@.contents.take(j + 1).drop_last() =~= page@.contents.take(j as int));
            assert(page@.contents.take(j + 1).last() == object@);
        }
        let marker = match &object.key {
            Some(key) => same_text(key.as_str(), prefix),
            None => false,
        };
        if !marker {
            let ghost before = rows.deep_view();
            let size: i64 = match object.size {
                Some(size) => size,
                None => 0,
            };
            rows.push(Entry { key: owned_or_empty(&object.key), size, is_prefix: false });
            proof {
                assert(rows.deep_view() =~= before.push(file_entry(object@)));
            }
        }
        proof {
            assert(rows.deep_view() =~= all_folders + page@.contents.take(j + 1).filter_map(
                listed_file(prefix@),
            ));
        }
        j = j + 1;
    }
    proof {
        assert(page@.contents.take(j as int) =~= page@.contents);
    }
    let ghost before = rows@;
    let sorted = stable_sort(rows);
    proof {
        let shown = |e: Entry| e@;
        lemma_stable_sort_through(rank_order::<Entry>(), entry_order(), shown, before, sorted@);
        assert(before.map_values(shown) =~= listed_entries(page@, prefix@));
        assert(sorted@.map_values(shown) =~= sorted.deep_view());
    }
    sorted
}

/// Every folder of a listing stands before every file, and the keys of either are in order.
pub proof fn law_folders_stand_first(page: ObjectPageView, prefix: Seq<char>, rows: Seq<EntryView>)
    requires
        is_stable_sort(entry_order(), listed_entries(page, prefix), rows),
    ensures
        forall|i: int, j: int|
            0 <= i < j < rows.len() && (#[trigger] rows[j]).is_prefix ==> (
            #[trigger] rows[i]).is_prefix,
        forall|i: int, j: int|
            0 <= i < j < rows.len() && (#[trigger] rows[i]).is_prefix == (
            #[trigger] rows[j]).is_prefix ==> text_le(rows[i].key, rows[j].key),
{
    law_stable_sort_keeps_items(entry_order(), listed_entries(page, prefix), rows);
    assert forall|i: int, j: int| 0 <= i < j < rows.len() implies entry_le(
        #[trigger] rows[i],
        #[trigger] rows[j],
    ) by {
        assert(entry_order()(rows[i], rows[j]));
    }
}

/// A listing shows every common prefix as a folder and every object but the folder's own marker
/// as a file, and nothing else.
pub proof fn law_listing_is_complete(page: ObjectPageView, prefix: Seq<char>, rows: Seq<EntryView>)
    requires
        is_stable_sort(entry_order(), listed_entries(page, prefix), rows),
    ensures
        forall|p: Option<Seq<char>>|
            page.common_prefixes.contains(p) ==> rows.contains(#[trigger] folder_entry(p)),
        forall|object: ObjectSummaryView|
            page.contents.contains(object) && object.key != Some(prefix) ==> rows.contains(
                #[trigger] file_entry(object),
            ),
        forall|row: EntryView| #[trigger]
            rows.contains(row) ==> if row.is_prefix {
                exists|p: Option<Seq<char>>|
                    page.common_prefixes.contains(p) && row == #[trigger] folder_entry(p)
            } else {
                exists|object: ObjectSummaryView|
                    page.contents.contains(object) && object.key != Some(prefix) && row
                        == #[trigger] file_entry(object)
            },
{
    let folder = |p: Option<Seq<char>>| folder_entry(p);
    let folders = page.common_prefixes.map_values(folder);
    let files = page.contents.filter_map(listed_file(prefix));
    let listed = listed_entries(page, prefix);
    law_stable_sort_keeps_items(entry_order(), listed, rows);
    assert forall|p: Option<Seq<char>>| page.common_prefixes.contains(p) implies rows.contains(
        #[trigger] folder_entry(p),
    ) by {
        let k = choose|k: int|
            0 <= k < page.common_prefixes.len() && page.common_prefixes[k] == p;
        assert(folders[k] == folder_entry(p));
        assert(listed[k] == folders[k]);
        assert(listed.contains(folder_entry(p)));
    }
    assert forall|object: ObjectSummaryView|
        page.contents.contains(object) && object.key != Some(prefix) implies rows.contains(
        #[trigger] file_entry(object),
    ) by {
        lemma_filter_map_finds(page.contents, listed_file(prefix), object, file_entry(object));
        let k = choose|k: int| 0 <= k < files.len() && files[k] == file_entry(object);
        assert(listed[folders.len() + k] == files[k]);
        assert(listed.contains(file_entry(object)));
    }
    assert forall|row: EntryView| #[trigger] rows.contains(row) implies if row.is_prefix {
        exists|p: Option<Seq<char>>|
            page.common_prefixes.contains(p) && row == #[trigger] folder_entry(p)
    } else {
        exists|object: ObjectSummaryView|
            page.contents.contains(object) && object.key != Some(prefix) && row
                == #[trigger] file_entry(object)
    } by {
        assert(listed.contains(row));
        let k = choose|k: int| 0 <= k < listed.len() && listed[k] == row;
        if k < folders.len() {
            assert(row == folder_entry(page.common_prefixes[k]));
            assert(page.common_prefixes.contains(page.common_prefixes[k]));
        } else {
            assert(files[k - folders.len()] == row);
            assert(files.contains(row));
            page.contents.lemma_filter_map_contains(listed_file(prefix), row);
            let object = choose|object: ObjectSummaryView| #[trigger]
                page.contents.contains(object) && listed_file(prefix)(object) == Some(row);
            assert(row == file_entry(object));
        }
    }
}

/// The folder that is shown is not among its own files: no file of a listing has the prefix for
/// its key. (An object without a key, in a listing of everything, is the exception.)
pub proof fn law_folder_marker_is_hidden(
    page: ObjectPageView,
    prefix: Seq<char>,
    rows: Seq<EntryView>,
)
    requires
        is_stable_sort(entry_order(), listed_entries(page, prefix), rows),
        prefix.len() > 0 || forall|object: ObjectSummaryView| #[trigger]
            page.contents.contains(object) ==> object.key is Some,
    ensures
        forall|i: int| 0 <= i < rows.len() && !(#[trigger] rows[i]).is_prefix ==> rows[i].key != prefix,
{
    law_listing_is_complete(page, prefix, rows);
    assert forall|i: int| 0 <= i < rows.len() && !(#[trigger] rows[i]).is_prefix implies rows[i].key
        != prefix by {
        assert(rows.contains(rows[i]));
        let object = choose|object: ObjectSummaryView|
            page.contents.contains(object) && object.key != Some(prefix) && rows[i]
                == #[trigger] file_entry(object);
        assert(page.contents.contains(object));
    }
}

/// A file put below a prefix is shown there under its own name.
pub proof fn law_file_keeps_its_name(prefix: Seq<char>, name: Seq<char>, row: EntryView)
    requires
        name.len() == 0 || name.last() != '/',
        row.key == prefix + name,
    ensures
        row.name(prefix) == name,
{
    law_without_prefix_undoes_adding(prefix, name);
}

proof fn lemma_filter_map_finds<A, B>(items: Seq<A>, f: spec_fn(A) -> Option<B>, item: A, found: B)
    requires
        items.contains(item),
        f(item) == Some(found),
    ensures
        items.filter_map(f).contains(found),
    decreases items.len(),
{
    reveal(Seq::filter_map);
    let k = choose|k: int| 0 <= k < items.len() && items[k] == item;
    let front = items.drop_last();
    if k == items.len() - 1 {
        let all = items.filter_map(f);
        assert(all[all.len() - 1] == found);
    } else {
        assert(front[k] == item);
        lemma_filter_map_finds(front, f, item, found);
        let m = choose|m: int| 0 <= m < front.filter_map(f).len() && front.filter_map(f)[m] == found;
        assert(items.filter_map(f)[m] == found);
    }
}

} // verus!
