//! What the operations are for, said of their inputs and results alone.
use vstd::arithmetic::div_mod::lemma_div_denominator;
use vstd::arithmetic::power::pow;
use vstd::arithmetic::power::{lemma_pow0, lemma_pow1, lemma_pow_adds, lemma_pow_positive};
use vstd::arithmetic::power2::pow2;
use vstd::prelude::*;

use crate::browser::{bucket_names, text_order, BrowserView};
use crate::entry::{
    entry_order, folder_entry, file_entry, listed_entries, listed_file, text_or_empty, Entry,
    EntryView, ObjectPage, ObjectPageView, ObjectSummary, ObjectSummaryView,
};
use crate::number::{decimal, signed_decimal};
use crate::order::{
    is_stable_sort, law_stable_sort_keeps_items, rank_order, sorts_by_origin, Ranked,
};
use crate::path::{
    base_name, law_base_name_ends_key, law_base_name_has_no_slash, law_pieces_of_one,
    law_pieces_of_two, law_without_trailing, pieces, segments, trail,
};
use crate::request::{
    listing_request, object_request, reply_view, GetObject, GetObjectView, ListObjects,
    ListObjectsView, PutObject, PutObjectView,
};
use crate::screen::{
    segment_crumb, BucketRow, Crumb, CrumbTarget, CrumbTargetView, DownloadDialog, EntryAction, EntryActionView,
    EntryList, EntryRow, Screen, StatusBar,
};
use crate::size::{
    law_nearest, law_shown_size_is_near, shown_tenths, size_text, spacing, to_53_bits,
};
use crate::text::text_le;

verus! {

/// One text comes no later than another if it is its beginning, or if it has the smaller
/// character where the two first differ.
pub proof fn law_text_order_goes_by_first_difference(a: Seq<char>, b: Seq<char>)
    ensures
        text_le(a, b) <==> (a.is_prefix_of(b) || exists|k: int|
            #![trigger a[k]]
            0 <= k < a.len() && k < b.len() && a.take(k) == b.take(k) && a[k] < b[k]),
    decreases a.len(),
{
    if a.len() == 0 {
        assert(a =~= b.subrange(0, 0));
    } else if b.len() > 0 {
        let x = a.drop_first();
        let y = b.drop_first();
        if a[0] != b[0] {
            assert(a.take(0) =~= b.take(0));
            if a.is_prefix_of(b) {
                assert(b.subrange(0, a.len() as int)[0] == b[0]);
            }
            assert forall|k: int|
                #![trigger a[k]]
                0 <= k < a.len() && k < b.len() && a.take(k) == b.take(k) implies k == 0 by {
                if k > 0 {
                    assert(a.take(k)[0] == b.take(k)[0]);
                }
            }
        } else {
            law_text_order_goes_by_first_difference(x, y);
            if x.is_prefix_of(y) {
                assert(a =~= b.subrange(0, a.len() as int)) by {
                    assert forall|i: int| 0 <= i < a.len() implies a[i] == b[i] by {
                        if i > 0 {
                            assert(x[i - 1] == y.subrange(0, x.len() as int)[i - 1]);
                        }
                    }
                }
            }
            if a.is_prefix_of(b) {
                assert(x =~= y.subrange(0, x.len() as int)) by {
                    assert forall|i: int| 0 <= i < x.len() implies x[i] == y[i] by {
                        assert(a[i + 1] == b.subrange(0, a.len() as int)[i + 1]);
                    }
                }
            }
            assert forall|k: int|
                #![trigger x[k]]
                0 <= k < x.len() && k < y.len() && x.take(k) == y.take(k) && x[k]
                    < y[k] implies a.take(k + 1) == b.take(k + 1) && a[k + 1] < b[k + 1] by {
                assert forall|i: int| 0 <= i < k + 1 implies a[i] == b[i] by {
                    if i > 0 {
                        assert(x.take(k)[i - 1] == y.take(k)[i - 1]);
                    }
                }
                assert(a.take(k + 1) =~= b.take(k + 1));
            }
            assert forall|k: int|
                #![trigger a[k]]
                0 <= k < a.len() && k < b.len() && a.take(k) == b.take(k) && a[k]
                    < b[k] implies k > 0 && x.take(k - 1) == y.take(k - 1) && x[k - 1] < y[k - 1] by {
                assert forall|i: int| 0 <= i < k - 1 implies x[i] == y[i] by {
                    assert(a.take(k)[i + 1] == b.take(k)[i + 1]);
                }
                assert(x.take(k - 1) =~= y.take(k - 1));
            }
        }
    }
}

/// Bucket names are ordered as texts.
pub proof fn law_buckets_are_ordered_as_texts(a: String, b: String)
    ensures
        text_order()(a@, b@) == text_le(a@, b@),
        rank_order::<String>()(a, b) == text_le(a@, b@),
        a.rank_le(b) == text_le(a@, b@),
{
}

/// A folder may stand before a file and never behind it; of two folders or two files the one
/// whose key comes first may.
pub proof fn law_folders_precede_files(a: Entry, b: Entry)
    ensures
        a.is_prefix && !b.is_prefix ==> a.rank_le(b) && !b.rank_le(a),
        a.is_prefix == b.is_prefix ==> a.rank_le(b) == text_le(a.key@, b.key@),
        rank_order::<Entry>()(a, b) == a.rank_le(b),
        entry_order()(a@, b@) == a.rank_le(b),
{
}

/// Items are sorted by what they say of each other.
pub proof fn law_rank_order_is_that_of_the_items<T: Ranked>(a: T, b: T)
    ensures
        rank_order::<T>()(a, b) == a.rank_le(b),
{
}

/// Sorting moves every item to one new place: no item is lost, doubled or changed, each stands
/// before those that it may precede, and of two that may each precede the other the one that
/// stood first still does. Gives the place that each item came from.
pub proof fn law_stable_sort_only_moves_items<T>(
    le: spec_fn(T, T) -> bool,
    before: Seq<T>,
    after: Seq<T>,
) -> (origin: Seq<int>)
    requires
        is_stable_sort(le, before, after),
    ensures
        after.len() == before.len(),
        origin.len() == before.len(),
        after.to_multiset() == before.to_multiset(),
        forall|i: int|
            0 <= i < after.len() ==> 0 <= #[trigger] origin[i] < before.len() && after[i]
                == before[origin[i]],
        forall|i: int, j: int|
            0 <= i < j < after.len() ==> #[trigger] origin[i] != #[trigger] origin[j],
        forall|i: int, j: int|
            0 <= i < j < after.len() ==> le(#[trigger] after[i], #[trigger] after[j]),
        forall|i: int, j: int|
            0 <= i < j < after.len() && le(#[trigger] after[j], #[trigger] after[i]) ==> origin[i]
                < origin[j],
{
    law_stable_sort_keeps_items(le, before, after);
    let origin = choose|origin: Seq<int>| sorts_by_origin(le, before, after, origin);
    assert forall|i: int| 0 <= i < after.len() implies 0 <= #[trigger] origin[i] < before.len()
        && after[i] == before[origin[i]] by {
        assert(after[i] == before[origin[i]]);
    }
    origin
}

/// Each digit of a number in decimal is the one of its place, and there are as many as the
/// number takes.
pub proof fn law_decimal_digits(n: nat)
    ensures
        forall|i: int|
            #![trigger pow(10, i as nat)]
            0 <= i < decimal(n).len() ==> decimal(n)[decimal(n).len() - 1 - i] as int == '0' as int
                + (n as int / pow(10, i as nat)) % 10,
        decimal(n).len() > 0,
        n < pow(10, decimal(n).len()),
        decimal(n).len() > 1 ==> pow(10, (decimal(n).len() - 1) as nat) <= n,
    decreases n,
{
    let text = decimal(n);
    lemma_pow0(10);
    lemma_pow1(10);
    if n >= 10 {
        law_decimal_digits(n / 10);
        let front = decimal(n / 10);
        assert forall|i: int|
            #![trigger pow(10, i as nat)]
            0 <= i < text.len() implies text[text.len() - 1 - i] as int == '0' as int + (n as int
            / pow(10, i as nat)) % 10 by {
            if i > 0 {
                let p = pow(10, (i - 1) as nat);
                lemma_pow_positive(10, (i - 1) as nat);
                lemma_pow_adds(10, 1, (i - 1) as nat);
                assert(pow(10, i as nat) == 10 * p);
                lemma_div_denominator(n as int, 10, p);
                assert(text[text.len() - 1 - i] == front[front.len() - 1 - (i - 1)]);
            }
        }
        lemma_pow_adds(10, 1, front.len());
        assert(pow(10, text.len()) == 10 * pow(10, front.len()));
        lemma_pow_adds(10, 1, (front.len() - 1) as nat);
        assert(pow(10, front.len()) == 10 * pow(10, (front.len() - 1) as nat));
    } else {
        assert(text.len() == 1);
        assert forall|i: int|
            #![trigger pow(10, i as nat)]
            0 <= i < text.len() implies text[text.len() - 1 - i] as int == '0' as int + (n as int
            / pow(10, i as nat)) % 10 by {
            assert(i as nat == 0);
        }
    }
}

/// A negative number is a minus sign and the number without it.
pub proof fn law_signed_decimal(n: nat)
    ensures
        signed_decimal(n as int) == decimal(n),
        n > 0 ==> signed_decimal(-n) == seq!['-'] + decimal(n),
{
}

/// Below a kilobyte every byte is counted. From there on a size shows the tenths of its unit
/// that are nearest, the even number of them where two are, in the largest unit that it
/// reaches; here of sizes below two to the 53rd. Gives the tenths.
pub proof fn law_size_shows_nearest_tenths(size: int) -> (tenths: nat)
    requires
        size < 0x20_0000_0000_0000,
    ensures
        size < 1024 ==> size_text(size) == signed_decimal(size) + " B"@,
        1024 <= size < 1_048_576 ==> {
            &&& size_text(size) == decimal(tenths / 10) + seq!['.'] + decimal(tenths % 10) + " KB"@
            &&& -1024 <= 2 * (1024 * tenths - 10 * size) <= 1024
            &&& 2 * (1024 * tenths - 10 * size) == 1024 || 2 * (1024 * tenths - 10 * size) == -1024
                ==> tenths % 2 == 0
        },
        1_048_576 <= size < 1_073_741_824 ==> {
            &&& size_text(size) == decimal(tenths / 10) + seq!['.'] + decimal(tenths % 10) + " MB"@
            &&& -1_048_576 <= 2 * (1_048_576 * tenths - 10 * size) <= 1_048_576
            &&& 2 * (1_048_576 * tenths - 10 * size) == 1_048_576 || 2 * (1_048_576 * tenths - 10
                * size) == -1_048_576 ==> tenths % 2 == 0
        },
        1_073_741_824 <= size ==> {
            &&& size_text(size) == decimal(tenths / 10) + seq!['.'] + decimal(tenths % 10) + " GB"@
            &&& -1_073_741_824 <= 2 * (1_073_741_824 * tenths - 10 * size) <= 1_073_741_824
            &&& 2 * (1_073_741_824 * tenths - 10 * size) == 1_073_741_824 || 2 * (1_073_741_824
                * tenths - 10 * size) == -1_073_741_824 ==> tenths % 2 == 0
        },
{
    if size < 1024 {
        0
    } else {
        let unit: nat = if size >= 1_073_741_824 {
            1_073_741_824
        } else if size >= 1_048_576 {
            1_048_576
        } else {
            1024
        };
        law_shown_size_is_near(size as nat, unit);
        law_nearest((10 * size) as nat, unit);
        shown_tenths(size as nat, unit)
    }
}

/// From two to the 53rd on a size is first rounded to a whole number of 53 significant bits, the
/// one that is nearest, and that is shown to the nearest tenth of a gigabyte; where two are
/// equally near, to the even one. Gives the exponent of the step between such numbers, the
/// rounded size and the tenths.
pub proof fn law_huge_size_is_rounded_to_53_bits(size: int) -> (res: (nat, nat, nat))
    requires
        size >= 0x20_0000_0000_0000,
    ensures
        ({
            let step = pow2(res.0);
            let rounded = res.1 * step;
            let tenths = res.2;
            &&& 0x10_0000_0000_0000 * step <= size < 0x20_0000_0000_0000 * step
            &&& -step <= 2 * (rounded - size) <= step
            &&& 2 * (rounded - size) == step || 2 * (rounded - size) == -step ==> res.1 % 2 == 0
            &&& -1_073_741_824 <= 2 * (1_073_741_824 * tenths - 10 * rounded) <= 1_073_741_824
            &&& 2 * (1_073_741_824 * tenths - 10 * rounded) == 1_073_741_824 || 2 * (1_073_741_824
                * tenths - 10 * rounded) == -1_073_741_824 ==> tenths % 2 == 0
            &&& size_text(size) == decimal(tenths / 10) + seq!['.'] + decimal(tenths % 10) + " GB"@
        }),
{
    let n = size as nat;
    let e = lemma_spacing_is_power(n);
    law_nearest(n, spacing(n));
    law_nearest(10 * to_53_bits(n), 1_073_741_824);
    (e, crate::size::nearest(n, spacing(n)), shown_tenths(n, 1_073_741_824))
}

proof fn lemma_spacing_is_power(n: nat) -> (e: nat)
    ensures
        spacing(n) == pow2(e),
        n < 0x20_0000_0000_0000 * pow2(e),
        e > 0 ==> 0x10_0000_0000_0000 * pow2(e) <= n,
        n >= 0x20_0000_0000_0000 ==> e > 0,
    decreases n,
{
    vstd::arithmetic::power2::lemma2_to64();
    if n < 0x20_0000_0000_0000 {
        0
    } else {
        let e = lemma_spacing_is_power(n / 2);
        vstd::arithmetic::power2::lemma_pow2_unfold(e + 1);
        e + 1
    }
}

/// The name of an entry is its key without the prefix in front, if it starts with it, and
/// without the slashes at the end, and nothing else is taken off.
pub proof fn law_name_is_key_without_prefix_and_slashes(entry: EntryView, prefix: Seq<char>)
    ensures
        ({
            let start = if prefix.is_prefix_of(entry.key) {
                prefix.len() as int
            } else {
                0
            };
            let name = entry.name(prefix);
            let end = start + name.len();
            &&& end <= entry.key.len()
            &&& name == entry.key.subrange(start, end)
            &&& forall|i: int| end <= i < entry.key.len() ==> #[trigger] entry.key[i] == '/'
            &&& name.len() > 0 ==> name.last() != '/'
        }),
{
    let start = if prefix.is_prefix_of(entry.key) {
        prefix.len() as int
    } else {
        0
    };
    let rest = entry.key.subrange(start, entry.key.len() as int);
    assert(crate::path::without_prefix(entry.key, prefix) =~= rest);
    law_without_trailing(rest, '/');
    let name = entry.name(prefix);
    let end = start + name.len();
    assert(name =~= entry.key.subrange(start, end)) by {
        assert(name =~= rest.subrange(0, name.len() as int));
    }
    assert forall|i: int| end <= i < entry.key.len() implies #[trigger] entry.key[i] == '/' by {
        assert(rest[i - start] == entry.key[i]);
    }
}

/// A folder or a file below a prefix is shown there under its own name.
pub proof fn law_names_below_a_prefix(
    prefix: Seq<char>,
    name: Seq<char>,
    folder: EntryView,
    file: EntryView,
)
    requires
        name.len() > 0,
        name.last() != '/',
        folder.key == prefix + name + seq!['/'],
        file.key == prefix + name,
    ensures
        folder.name(prefix) == name,
        file.name(prefix) == name,
{
    lemma_name_below(prefix, name, folder, seq!['/']);
    assert(file.key =~= prefix + name + Seq::<char>::empty());
    lemma_name_below(prefix, name, file, Seq::<char>::empty());
}

proof fn lemma_name_below(prefix: Seq<char>, name: Seq<char>, entry: EntryView, tail: Seq<char>)
    requires
        name.len() > 0,
        name.last() != '/',
        entry.key == prefix + name + tail,
        forall|i: int| 0 <= i < tail.len() ==> tail[i] == '/',
    ensures
        entry.name(prefix) == name,
{
    law_name_is_key_without_prefix_and_slashes(entry, prefix);
    let key = entry.key;
    let shown = entry.name(prefix);
    assert(key.subrange(0, prefix.len() as int) =~= prefix);
    let end = prefix.len() + shown.len();
    let last = prefix.len() + name.len() - 1;
    assert(key[last] == name[name.len() - 1]);
    if end <= last {
        assert(key[last] == '/');
    }
    if end > last + 1 {
        assert(shown[shown.len() - 1] == key[end - 1]);
        assert(key[end - 1] == tail[end - 1 - (last + 1)]);
    }
    assert(shown =~= name);
}

/// The segments of two paths put behind each other, with a slash between, are the segments of
/// the one and then those of the other; a name is its only segment, and nothing has none.
pub proof fn law_segments_of_two_paths(a: Seq<char>, b: Seq<char>, name: Seq<char>)
    requires
        name.len() > 0,
        !name.contains('/'),
    ensures
        segments(a.push('/') + b) == segments(a) + segments(b),
        segments(name) == seq![name],
        segments(Seq::empty()) == Seq::<Seq<char>>::empty(),
{
    let keep = |piece: Seq<char>| piece.len() > 0;
    law_pieces_of_two(a, b, '/');
    Seq::filter_distributes_over_add(pieces(a, '/'), pieces(b, '/'), keep);
    law_pieces_of_one(name, '/');
    let none = Seq::<char>::empty();
    law_pieces_of_one(none, '/');
    reveal(Seq::filter);
    assert(seq![name].drop_last() =~= Seq::<Seq<char>>::empty());
    assert(Seq::<Seq<char>>::empty().filter(keep) =~= Seq::<Seq<char>>::empty());
    assert(seq![name].filter(keep) =~= seq![name]);
    assert(seq![none].drop_last() =~= Seq::<Seq<char>>::empty());
    assert(seq![none].filter(keep) =~= Seq::<Seq<char>>::empty());
}

/// A path through names goes through the first ones and then through the rest; one name is
/// followed by a slash, and no names make no path.
pub proof fn law_trail_of_two_lists(a: Seq<Seq<char>>, b: Seq<Seq<char>>, name: Seq<char>)
    ensures
        trail(a + b) == trail(a) + trail(b),
        trail(seq![name]) == name.push('/'),
        trail(Seq::empty()) == Seq::<char>::empty(),
    decreases b.len(),
{
    assert(seq![name].drop_last() =~= Seq::<Seq<char>>::empty());
    assert(trail(Seq::<Seq<char>>::empty()) == Seq::<char>::empty());
    assert(trail(seq![name]) =~= name.push('/'));
    if b.len() == 0 {
        assert(a + b =~= a);
        assert(trail(a) + trail(b) =~= trail(a));
    } else {
        law_trail_of_two_lists(a, b.drop_last(), name);
        assert((a + b).drop_last() =~= a + b.drop_last());
        assert(trail(a + b) =~= trail(a) + trail(b));
    }
}

/// The last piece of a key is all that stands behind its last slash.
pub proof fn law_base_name_stands_behind_the_last_slash(key: Seq<char>)
    ensures
        base_name(key).len() <= key.len(),
        base_name(key) == key.skip(key.len() - base_name(key).len()),
        forall|i: int|
            key.len() - base_name(key).len() <= i < key.len() ==> #[trigger] key[i] != '/',
        base_name(key).len() < key.len() ==> key[key.len() - base_name(key).len() - 1] == '/',
{
    law_base_name_has_no_slash(key);
    law_base_name_ends_key(key);
    let name = base_name(key);
    let start = key.len() - name.len();
    assert(key.skip(start) =~= key.subrange(start, key.len() as int));
    assert forall|i: int| start <= i < key.len() implies #[trigger] key[i] != '/' by {
        assert(name[i - start] == key[i]);
    }
}

/// What is missing in a reply is empty, what is there is taken as it is.
pub proof fn law_missing_text_is_empty(text: Seq<char>)
    ensures
        text_or_empty(Some(text)) == text,
        text_or_empty(None) == Seq::<char>::empty(),
{
}

/// The rows of a listing are those of its reply, each as often as the reply gives it: a folder
/// of size zero for each common prefix, and for each object but the one whose key is the prefix
/// itself a file of its key and its size. They stand folders first, and by their keys.
pub proof fn law_rows_are_those_of_the_reply(
    page: ObjectPageView,
    prefix: Seq<char>,
    rows: Seq<EntryView>,
)
    requires
        is_stable_sort(entry_order(), listed_entries(page, prefix), rows),
    ensures
        rows.to_multiset() == (page.common_prefixes.map_values(
            |p: Option<Seq<char>>|
                EntryView {
                    key: match p {
                        Some(key) => key,
                        None => Seq::empty(),
                    },
                    size: 0,
                    is_prefix: true,
                },
        ) + page.contents.filter(|o: ObjectSummaryView| o.key != Some(prefix)).map_values(
            |o: ObjectSummaryView|
                EntryView {
                    key: match o.key {
                        Some(key) => key,
                        None => Seq::empty(),
                    },
                    size: match o.size {
                        Some(size) => size,
                        None => 0,
                    },
                    is_prefix: false,
                },
        )).to_multiset(),
        forall|i: int, j: int|
            0 <= i < j < rows.len() && (#[trigger] rows[j]).is_prefix ==> (
            #[trigger] rows[i]).is_prefix,
        forall|i: int, j: int|
            0 <= i < j < rows.len() && (#[trigger] rows[i]).is_prefix == (
            #[trigger] rows[j]).is_prefix ==> text_le(rows[i].key, rows[j].key),
{
    let folders = page.common_prefixes.map_values(
        |p: Option<Seq<char>>|
            EntryView {
                key: match p {
                    Some(key) => key,
                    None => Seq::empty(),
                },
                size: 0,
                is_prefix: true,
            },
    );
    let shown = |o: ObjectSummaryView| o.key != Some(prefix);
    let row = |o: ObjectSummaryView|
        EntryView {
            key: match o.key {
                Some(key) => key,
                None => Seq::empty(),
            },
            size: match o.size {
                Some(size) => size,
                None => 0,
            },
            is_prefix: false,
        };
    law_stable_sort_keeps_items(entry_order(), listed_entries(page, prefix), rows);
    lemma_filter_map_is_filter_then_map(page.contents, listed_file(prefix), shown, row);
    assert(page.common_prefixes.map_values(|p: Option<Seq<char>>| folder_entry(p)) =~= folders);
    assert(listed_entries(page, prefix) =~= folders + page.contents.filter(shown).map_values(row));
    assert forall|i: int, j: int| 0 <= i < j < rows.len() implies entry_order()(
        #[trigger] rows[i],
        #[trigger] rows[j],
    ) by {}
}

proof fn lemma_filter_map_is_filter_then_map<A, B>(
    items: Seq<A>,
    f: spec_fn(A) -> Option<B>,
    keep: spec_fn(A) -> bool,
    g: spec_fn(A) -> B,
)
    requires
        forall|item: A|
            #[trigger] f(item) == if keep(item) {
                Some(g(item))
            } else {
                None
            },
    ensures
        items.filter_map(f) == items.filter(keep).map_values(g),
    decreases items.len(),
{
    reveal(Seq::filter);
    reveal(Seq::filter_map);
    if items.len() > 0 {
        lemma_filter_map_is_filter_then_map(items.drop_last(), f, keep, g);
        assert(f(items.last()) == if keep(items.last()) {
            Some(g(items.last()))
        } else {
            None
        });
        let kept = items.drop_last().filter(keep);
        assert(kept.push(items.last()).map_values(g) =~= kept.map_values(g).push(g(items.last())));
    }
    assert(items.filter_map(f) =~= items.filter(keep).map_values(g));
}

/// Every object of a reply that has a key, other than the prefix, and a size is a row of that
/// key and that size; every file that is shown has the key and the size of an object of the
/// reply, so far as that has them.
pub proof fn law_files_have_the_size_of_their_object(
    page: ObjectPageView,
    prefix: Seq<char>,
    rows: Seq<EntryView>,
    k: int,
)
    requires
        is_stable_sort(entry_order(), listed_entries(page, prefix), rows),
        0 <= k < page.contents.len(),
    ensures
        page.contents[k].key is Some && page.contents[k].key->0 != prefix && page.contents[k].size
            is Some ==> rows.contains(
            (EntryView {
                key: page.contents[k].key->0,
                size: page.contents[k].size->0,
                is_prefix: false,
            }),
        ),
        forall|i: int|
            #![trigger rows[i]]
            0 <= i < rows.len() && !rows[i].is_prefix ==> exists|m: int|
                #![trigger page.contents[m]]
                0 <= m < page.contents.len() && page.contents[m].key != Some(prefix) && (
                page.contents[m].key is Some ==> page.contents[m].key->0 == rows[i].key) && (
                page.contents[m].key is None ==> rows[i].key.len() == 0) && (page.contents[m].size
                    is Some ==> page.contents[m].size->0 == rows[i].size) && (page.contents[m].size
                    is None ==> rows[i].size == 0),
{
    crate::entry::law_listing_is_complete(page, prefix, rows);
    let object = page.contents[k];
    assert(page.contents.contains(object));
    if object.key is Some && object.key->0 != prefix && object.size is Some {
        assert(rows.contains(file_entry(object)));
        assert(file_entry(object) == EntryView {
            key: object.key->0,
            size: object.size->0,
            is_prefix: false,
        });
    }
    assert forall|i: int|
        #![trigger rows[i]]
        0 <= i < rows.len() && !rows[i].is_prefix implies exists|m: int|
        #![trigger page.contents[m]]
        0 <= m < page.contents.len() && page.contents[m].key != Some(prefix) && (
        page.contents[m].key is Some ==> page.contents[m].key->0 == rows[i].key) && (
        page.contents[m].key is None ==> rows[i].key.len() == 0) && (page.contents[m].size is Some
            ==> page.contents[m].size->0 == rows[i].size) && (page.contents[m].size is None
            ==> rows[i].size == 0) by {
        assert(rows.contains(rows[i]));
        let o = choose|o: ObjectSummaryView|
            page.contents.contains(o) && o.key != Some(prefix) && rows[i] == #[trigger] file_entry(
                o,
            );
        let m = choose|m: int| 0 <= m < page.contents.len() && page.contents[m] == o;
        assert(page.contents[m] == o);
    }
}

/// Every common prefix of a reply is a folder of that key, and every folder that is shown is
/// one.
pub proof fn law_folders_are_the_common_prefixes(
    page: ObjectPageView,
    prefix: Seq<char>,
    rows: Seq<EntryView>,
    k: int,
)
    requires
        is_stable_sort(entry_order(), listed_entries(page, prefix), rows),
        0 <= k < page.common_prefixes.len(),
    ensures
        page.common_prefixes[k] is Some ==> rows.contains(
            (EntryView { key: page.common_prefixes[k]->0, size: 0, is_prefix: true }),
        ),
        forall|i: int|
            #![trigger rows[i]]
            0 <= i < rows.len() && rows[i].is_prefix ==> rows[i].size == 0 && (
            page.common_prefixes.contains(Some(rows[i].key)) || rows[i].key.len() == 0
                && page.common_prefixes.contains(None)),
{
    crate::entry::law_listing_is_complete(page, prefix, rows);
    let p = page.common_prefixes[k];
    assert(page.common_prefixes.contains(p));
    assert(rows.contains(folder_entry(p)));
    assert forall|i: int|
        #![trigger rows[i]]
        0 <= i < rows.len() && rows[i].is_prefix implies rows[i].size == 0 && (
    page.common_prefixes.contains(Some(rows[i].key)) || rows[i].key.len() == 0
        && page.common_prefixes.contains(None)) by {
        assert(rows.contains(rows[i]));
        let q = choose|q: Option<Seq<char>>|
            page.common_prefixes.contains(q) && rows[i] == #[trigger] folder_entry(q);
        assert(q is Some || q == None::<Seq<char>>);
    }
}

/// Once the buckets have been listed, the names shown are those of the reply, character for
/// character and each as often, in order; a name that is missing is shown empty. Nothing else of
/// the window changes but its status.
pub proof fn law_buckets_shown_are_the_names_of_the_reply(
    before: BrowserView,
    names: Seq<Option<Seq<char>>>,
    after: BrowserView,
    k: int,
)
    requires
        before.on_buckets(Ok(names), after),
    ensures
        after.buckets.to_multiset() == names.map_values(
            |name: Option<Seq<char>>|
                match name {
                    Some(text) => text,
                    None => Seq::<char>::empty(),
                },
        ).to_multiset(),
        0 <= k < names.len() && names[k] is Some ==> after.buckets.contains(names[k]->0),
        forall|i: int|
            #![trigger after.buckets[i]]
            0 <= i < after.buckets.len() && after.buckets[i].len() > 0 ==> names.contains(
                Some(after.buckets[i]),
            ),
        forall|i: int, j: int|
            0 <= i < j < after.buckets.len() ==> text_le(
                #[trigger] after.buckets[i],
                #[trigger] after.buckets[j],
            ),
        after.buckets.len() == names.len(),
        after.bucket == before.bucket,
        after.prefix == before.prefix,
        after.entries == before.entries,
        !after.loading,
        after.status == decimal(names.len()) + " buckets"@,
{
    let wanted = names.map_values(
        |name: Option<Seq<char>>|
            match name {
                Some(text) => text,
                None => Seq::<char>::empty(),
            },
    );
    law_stable_sort_keeps_items(text_order(), bucket_names(names), after.buckets);
    assert(bucket_names(names) =~= wanted);
    if 0 <= k < names.len() && names[k] is Some {
        assert(wanted[k] == names[k]->0);
        assert(wanted.contains(names[k]->0));
    }
    assert forall|i: int|
        #![trigger after.buckets[i]]
        0 <= i < after.buckets.len() && after.buckets[i].len() > 0 implies names.contains(
        Some(after.buckets[i]),
    ) by {
        assert(after.buckets.contains(after.buckets[i]));
        let m = choose|m: int| 0 <= m < wanted.len() && wanted[m] == after.buckets[i];
        assert(names[m] == Some(after.buckets[i]));
    }
    assert forall|i: int, j: int| 0 <= i < j < after.buckets.len() implies text_le(
        #[trigger] after.buckets[i],
        #[trigger] after.buckets[j],
    ) by {
        assert(text_order()(after.buckets[i], after.buckets[j]));
    }
}

/// Once a listing has come, the bucket and the prefix that were asked for are open, with the rows
/// of the reply and as many as the status says; the buckets stay.
pub proof fn law_listing_opens_what_was_asked_for(
    before: BrowserView,
    request: ListObjectsView,
    page: ObjectPageView,
    after: BrowserView,
)
    requires
        before.on_objects(request, Ok(page), after),
    ensures
        after.bucket == Some(request.bucket),
        after.prefix == request.prefix,
        is_stable_sort(entry_order(), listed_entries(page, request.prefix), after.entries),
        after.buckets == before.buckets,
        !after.loading,
        after.status == decimal(after.entries.len()) + " entries"@,
{
}

/// A reply that failed shows its message and ends the loading; all else stays.
pub proof fn law_failed_reply_keeps_the_window(
    before: BrowserView,
    listing: ListObjectsView,
    get: GetObjectView,
    put: PutObjectView,
    message: Seq<char>,
    after: BrowserView,
)
    requires
        before.on_buckets(Err(message), after) || before.on_objects(listing, Err(message), after)
            || after == before.on_download(get, Err(message)) || after == before.on_upload(
            put,
            Err(message),
        ),
    ensures
        after.status == message,
        !after.loading,
        after.buckets == before.buckets,
        after.bucket == before.bucket,
        after.prefix == before.prefix,
        after.entries == before.entries,
{
}

/// Asking for something sets the status line and the loading mark, and leaves all that is shown.
pub proof fn law_requests_only_set_the_status(
    before: BrowserView,
    bucket: Seq<char>,
    prefix: Seq<char>,
    name: Seq<char>,
)
    ensures
        before.listing_buckets() == (BrowserView {
            buckets: before.buckets,
            bucket: before.bucket,
            prefix: before.prefix,
            entries: before.entries,
            loading: true,
            status: "Listing buckets…"@,
        }),
        before.listing_objects(bucket, prefix) == (BrowserView {
            buckets: before.buckets,
            bucket: before.bucket,
            prefix: before.prefix,
            entries: before.entries,
            loading: true,
            status: "Listing s3://"@ + bucket + "/"@ + prefix,
        }),
        before.downloading(name) == (BrowserView {
            buckets: before.buckets,
            bucket: before.bucket,
            prefix: before.prefix,
            entries: before.entries,
            loading: true,
            status: "Downloading "@ + name + "…"@,
        }),
        before.uploading(name) == (BrowserView {
            buckets: before.buckets,
            bucket: before.bucket,
            prefix: before.prefix,
            entries: before.entries,
            loading: true,
            status: "Uploading "@ + name + "…"@,
        }),
{
}

/// A download or an upload that succeeded names its file or its key in the status line, unless
/// the upload is followed by a listing; what is shown stays.
pub proof fn law_outcomes_are_reported(
    before: BrowserView,
    get: GetObjectView,
    put: PutObjectView,
)
    ensures
        before.on_download(get, Ok(())) == (BrowserView {
            buckets: before.buckets,
            bucket: before.bucket,
            prefix: before.prefix,
            entries: before.entries,
            loading: false,
            status: "Downloaded "@ + get.file_name,
        }),
        before.bucket is None ==> before.on_upload(put, Ok(())) == (BrowserView {
            buckets: before.buckets,
            bucket: before.bucket,
            prefix: before.prefix,
            entries: before.entries,
            loading: false,
            status: "Uploaded "@ + put.key,
        }),
        before.bucket is Some && before.bucket->0 == put.bucket ==> before.on_upload(put, Ok(()))
            == before.listing_objects(put.bucket, put.prefix),
        before.bucket is Some && before.bucket->0 != put.bucket ==> before.on_upload(put, Ok(()))
            == before.listing_objects(before.bucket->0, before.prefix),
{
}

/// After an upload that succeeded the place that it went to is listed, if its bucket is still
/// open; otherwise what is shown, and nothing if no bucket is open.
pub proof fn law_refresh_after_upload(window: BrowserView, put: PutObjectView)
    ensures
        window.bucket is None ==> window.refresh_request(put) is None,
        window.bucket is Some ==> {
            &&& window.refresh_request(put) is Some
            &&& window.refresh_request(put)->0.bucket == window.bucket->0
            &&& window.refresh_request(put)->0.delimiter == "/"@
            &&& window.bucket->0 == put.bucket ==> window.refresh_request(put)->0.prefix
                == put.prefix
            &&& window.bucket->0 != put.bucket ==> window.refresh_request(put)->0.prefix
                == window.prefix
        },
{
}

/// A window starts with nothing in it.
pub proof fn law_window_starts_empty()
    ensures
        BrowserView::empty().buckets.len() == 0,
        BrowserView::empty().bucket is None,
        BrowserView::empty().prefix.len() == 0,
        BrowserView::empty().entries.len() == 0,
        !BrowserView::empty().loading,
        BrowserView::empty().status.len() == 0,
{
}

/// A listing asks for the very bucket and prefix that it is of, cut at the next slash.
pub proof fn law_listing_names_its_place(bucket: Seq<char>, prefix: Seq<char>)
    ensures
        listing_request(bucket, prefix).bucket == bucket,
        listing_request(bucket, prefix).prefix == prefix,
        listing_request(bucket, prefix).delimiter == seq!['/'],
{
    reveal_strlit("/");
    assert("/"@ =~= seq!['/']);
}

/// A download asks for the very bucket and key that it is of, and its file is named by what
/// stands behind the last slash of the key.
pub proof fn law_download_names_its_object(bucket: Seq<char>, key: Seq<char>)
    ensures
        object_request(bucket, key).bucket == bucket,
        object_request(bucket, key).key == key,
        object_request(bucket, key).file_name.len() <= key.len(),
        object_request(bucket, key).file_name == key.skip(
            key.len() - object_request(bucket, key).file_name.len(),
        ),
        !object_request(bucket, key).file_name.contains('/'),
        object_request(bucket, key).file_name.len() < key.len() ==> key[key.len() - object_request(
            bucket,
            key,
        ).file_name.len() - 1] == '/',
{
    law_base_name_has_no_slash(key);
    law_base_name_stands_behind_the_last_slash(key);
}

/// An upload goes to the open bucket, to a key that is the prefix that is shown followed by the
/// name of the file, and nothing else.
pub proof fn law_upload_key_is_prefix_and_name(window: BrowserView, name: Seq<char>)
    ensures
        window.put_request(name).key.len() == window.prefix.len() + name.len(),
        window.prefix.is_prefix_of(window.put_request(name).key),
        window.put_request(name).key.skip(window.prefix.len() as int) == name,
        window.put_request(name).prefix == window.prefix,
        window.bucket is Some ==> window.put_request(name).bucket == window.bucket->0,
{
    let key = window.put_request(name).key;
    assert(key.subrange(0, window.prefix.len() as int) =~= window.prefix);
    assert(key.skip(window.prefix.len() as int) =~= name);
}

/// In a well-formed window buckets and entries are in order, folders before files, and without
/// an open bucket there is nothing to show.
pub proof fn law_well_formed_window_is_in_order(window: BrowserView)
    requires
        window.well_formed(),
    ensures
        forall|i: int, j: int|
            0 <= i < j < window.buckets.len() ==> text_le(
                #[trigger] window.buckets[i],
                #[trigger] window.buckets[j],
            ),
        forall|i: int, j: int|
            0 <= i < j < window.entries.len() && (#[trigger] window.entries[j]).is_prefix ==> (
            #[trigger] window.entries[i]).is_prefix,
        forall|i: int, j: int|
            0 <= i < j < window.entries.len() && (#[trigger] window.entries[i]).is_prefix == (
            #[trigger] window.entries[j]).is_prefix ==> text_le(
                window.entries[i].key,
                window.entries[j].key,
            ),
        window.bucket is None ==> window.prefix.len() == 0 && window.entries.len() == 0,
        window.prefix.len() > 0 ==> forall|i: int|
            0 <= i < window.entries.len() && !(#[trigger] window.entries[i]).is_prefix
                ==> window.entries[i].key != window.prefix,
{
    assert forall|i: int, j: int| 0 <= i < j < window.buckets.len() implies text_le(
        #[trigger] window.buckets[i],
        #[trigger] window.buckets[j],
    ) by {
        assert(text_order()(window.buckets[i], window.buckets[j]));
    }
    assert forall|i: int, j: int| 0 <= i < j < window.entries.len() implies entry_order()(
        #[trigger] window.entries[i],
        #[trigger] window.entries[j],
    ) by {}
}

/// Each bucket has one row, in the same order, with its name; that of the open bucket, and no
/// other, is selected.
pub proof fn law_bucket_rows(window: BrowserView, i: int)
    ensures
        window.bucket_rows().len() == window.buckets.len(),
        0 <= i < window.buckets.len() ==> {
            &&& window.bucket_rows()[i].label == window.buckets[i]
            &&& window.bucket_rows()[i].id == "bucket-"@ + window.buckets[i]
            &&& window.bucket_rows()[i].selected <==> window.bucket is Some && window.bucket->0
                == window.buckets[i]
        },
{
}

/// The breadcrumb starts at the open bucket; each further step is labelled with a segment of the
/// prefix and leads to where the step before it leads, one segment further.
pub proof fn law_breadcrumb_steps(window: BrowserView, k: int)
    ensures
        window.bucket is None ==> window.breadcrumb().len() == 0,
        window.bucket is Some ==> {
            &&& window.breadcrumb().len() == segments(window.prefix).len() + 1
            &&& window.breadcrumb()[0].label == window.bucket->0
            &&& window.breadcrumb()[0].id == "crumb-bucket"@
            &&& window.breadcrumb()[0].target == CrumbTargetView::Bucket(window.bucket->0)
        },
        window.bucket is Some && 1 <= k < window.breadcrumb().len() ==> {
            let step = window.breadcrumb()[k];
            let before = match window.breadcrumb()[k - 1].target {
                CrumbTargetView::Bucket(_) => Seq::<char>::empty(),
                CrumbTargetView::Prefix(prefix) => prefix,
            };
            &&& step.label == segments(window.prefix)[k - 1]
            &&& step.target == CrumbTargetView::Prefix((before + step.label).push('/'))
            &&& step.id == "crumb-"@ + (before + step.label).push('/')
        },
{
    if window.bucket is Some && 1 <= k < window.breadcrumb().len() {
        let names = segments(window.prefix);
        assert(names.take(k).drop_last() =~= names.take(k - 1));
        assert(names.take(k).last() == names[k - 1]);
        assert(names.take(0) =~= Seq::<Seq<char>>::empty());
        let crumbs = window.breadcrumb();
        assert(crumbs[k] == segment_crumb(names, k - 1));
        assert(trail(names.take(k)) == (trail(names.take(k - 1)) + names[k - 1]).push('/'));
        if k > 1 {
            assert(crumbs[k - 1] == segment_crumb(names, k - 2));
        } else {
            assert(trail(names.take(0)) == Seq::<char>::empty());
        }
    }
}

/// Each entry has one row, in the same order, with its name below the prefix; a file shows its
/// size, a folder none.
pub proof fn law_entry_rows(window: BrowserView, i: int)
    ensures
        window.entry_rows().len() == window.entries.len(),
        0 <= i < window.entries.len() ==> {
            let row = window.entry_rows()[i];
            let entry = window.entries[i];
            &&& row.entry == entry
            &&& row.name == entry.name(window.prefix)
            &&& row.id == "entry-"@ + entry.key
            &&& row.icon is Folder <==> entry.is_prefix
            &&& entry.is_prefix ==> row.size is None
            &&& !entry.is_prefix ==> row.size == Some(size_text(entry.size as int))
        },
{
}

/// The entry list asks for a bucket while none is open, and says that a prefix is empty once
/// nothing is loading any more.
pub proof fn law_entry_message(window: BrowserView)
    ensures
        window.bucket is None ==> window.entry_message() == Some(
            "Pick a bucket on the left to browse its objects."@,
        ),
        window.bucket is Some && window.entries.len() == 0 && !window.loading
            ==> window.entry_message() == Some("This prefix is empty."@),
        window.bucket is Some && (window.entries.len() > 0 || window.loading)
            ==> window.entry_message() is None,
{
}

/// The question before a download is about the very object that was clicked.
pub proof fn law_dialog_names_its_object(window: BrowserView, bucket: Seq<char>, entry: EntryView)
    ensures
        window.download_dialog(bucket, entry).bucket == bucket,
        window.download_dialog(bucket, entry).key == entry.key,
        window.download_dialog(bucket, entry).title == "Download "@ + entry.name(window.prefix),
        window.download_dialog(bucket, entry).question == "Save s3://"@ + bucket + "/"@ + entry.key
            + " to the current directory?"@,
{
}

/// A screen shows the parts of its window, and enables what takes an open bucket just when one
/// is open.
pub proof fn law_screen_shows_its_window(
    screen: Screen,
    list: EntryList,
    bar: StatusBar,
    window: BrowserView,
)
    ensures
        screen.shows(window) ==> {
            &&& screen.bucket_list.deep_view() == window.bucket_rows()
            &&& screen.breadcrumb.deep_view() == window.breadcrumb()
            &&& screen.refresh_enabled <==> window.bucket is Some
            &&& screen.upload_enabled <==> window.bucket is Some
            &&& screen.entry_list.message.deep_view() == window.entry_message()
            &&& screen.entry_list.rows.deep_view() == window.entry_rows()
            &&& screen.status_bar.spinner == window.loading
            &&& screen.status_bar.text@ == window.status
        },
        list.shows(window) ==> list.message.deep_view() == window.entry_message()
            && list.rows.deep_view() == window.entry_rows(),
        bar.shows(window) ==> bar.spinner == window.loading && bar.text@ == window.status,
{
}

/// Entries, objects and pages are seen with all that they hold.
pub proof fn law_listing_views(entry: Entry, object: ObjectSummary, page: ObjectPage)
    ensures
        entry@.key == entry.key@,
        entry@.size == entry.size,
        entry@.is_prefix == entry.is_prefix,
        entry.deep_view() == entry@,
        object@.key == object.key.deep_view(),
        object@.size == object.size,
        object.deep_view() == object@,
        page@.common_prefixes == page.common_prefixes.deep_view(),
        page@.contents == page.contents.deep_view(),
        page.deep_view() == page@,
{
}

/// Requests are seen with all that they hold.
pub proof fn law_request_views(list: ListObjects, get: GetObject, put: PutObject)
    ensures
        list@.bucket == list.bucket@,
        list@.prefix == list.prefix@,
        list@.delimiter == list.delimiter@,
        get@.bucket == get.bucket@,
        get@.key == get.key@,
        get@.file_name == get.file_name@,
        put@.bucket == put.bucket@,
        put@.key == put.key@,
        put@.prefix == put.prefix@,
{
}

/// Replies are seen as what they hold.
pub proof fn law_reply_views<T: DeepView>(value: T, message: String)
    ensures
        reply_view(Ok::<T, String>(value)) == Ok::<T::V, Seq<char>>(value.deep_view()),
        reply_view(Err::<T, String>(message)) == Err::<T::V, Seq<char>>(message@),
{
}

/// Rows, steps, questions and actions are seen with all that they hold.
pub proof fn law_screen_views(
    bucket: BucketRow,
    crumb: Crumb,
    row: EntryRow,
    dialog: DownloadDialog,
    text: String,
    request: ListObjects,
)
    ensures
        bucket.deep_view().id == bucket.id@,
        bucket.deep_view().label == bucket.label@,
        bucket.deep_view().selected == bucket.selected,
        crumb.deep_view().id == crumb.id@,
        crumb.deep_view().label == crumb.label@,
        crumb.deep_view().target == crumb.target@,
        CrumbTarget::Bucket(text)@ == CrumbTargetView::Bucket(text@),
        CrumbTarget::Prefix(text)@ == CrumbTargetView::Prefix(text@),
        row.deep_view().id == row.id@,
        row.deep_view().name == row.name@,
        row.deep_view().icon == row.icon,
        row.deep_view().size == row.size.deep_view(),
        row.deep_view().entry == row.entry@,
        dialog@.title == dialog.title@,
        dialog@.question == dialog.question@,
        dialog@.bucket == dialog.bucket@,
        dialog@.key == dialog.key@,
        EntryAction::Nothing@ == EntryActionView::Nothing,
        EntryAction::List(request)@ == EntryActionView::List(request@),
        EntryAction::Confirm(dialog)@ == EntryActionView::Confirm(dialog@),
{
}

} // verus!
