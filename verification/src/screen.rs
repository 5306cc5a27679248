//! What the window shows of its state, as plain values to be drawn, and what clicks do.
use vstd::prelude::*;
use vstd::string::StringExecFns;

use crate::browser::{BrowserView, S3Browser};
use crate::entry::{Entry, EntryView};
use crate::path::{
    base_name, is_folder_path, law_segments_of_shorter_trail, law_trail_of_segments, segments, trail,
};
use crate::path::split_segments;
use crate::request::{listing_request, object_request, ListObjectsView};
use crate::request::{GetObject, ListObjects};
use crate::size::{format_size, size_text};
use crate::text::{same_text, two_texts};

verus! {

/// One row of the bucket list.
pub struct BucketRow {
    pub id: String,
    pub label: String,
    pub selected: bool,
}

/// What a `BucketRow` holds.
pub struct BucketRowView {
    pub id: Seq<char>,
    pub label: Seq<char>,
    pub selected: bool,
}

impl DeepView for BucketRow {
    type V = BucketRowView;

    open spec fn deep_view(&self) -> BucketRowView {
        BucketRowView { id: self.id@, label: self.label@, selected: self.selected }
    }
}

/// Where a breadcrumb leads: to the top of a bucket, or to a prefix of the open bucket.
pub enum CrumbTarget {
    Bucket(String),
    Prefix(String),
}

/// What a `CrumbTarget` holds.
pub enum CrumbTargetView {
    Bucket(Seq<char>),
    Prefix(Seq<char>),
}

impl View for CrumbTarget {
    type V = CrumbTargetView;

    open spec fn view(&self) -> CrumbTargetView {
        match self {
            CrumbTarget::Bucket(bucket) => CrumbTargetView::Bucket(bucket@),
            CrumbTarget::Prefix(prefix) => CrumbTargetView::Prefix(prefix@),
        }
    }
}

/// One step of the breadcrumb.
pub struct Crumb {
    pub id: String,
    pub label: String,
    pub target: CrumbTarget,
}

/// What a `Crumb` holds.
pub struct CrumbView {
    pub id: Seq<char>,
    pub label: Seq<char>,
    pub target: CrumbTargetView,
}

impl DeepView for Crumb {
    type V = CrumbView;

    open spec fn deep_view(&self) -> CrumbView {
        CrumbView { id: self.id@, label: self.label@, target: self.target@ }
    }
}

/// The icon of a row of the entry list.
pub enum RowIcon {
    Folder,
    File,
}

/// One row of the entry list; files show their size.
pub struct EntryRow {
    pub id: String,
    pub name: String,
    pub icon: RowIcon,
    pub size: Option<String>,
    pub entry: Entry,
}

/// What an `EntryRow` holds.
pub struct EntryRowView {
    pub id: Seq<char>,
    pub name: Seq<char>,
    pub icon: RowIcon,
    pub size: Option<Seq<char>>,
    pub entry: EntryView,
}

impl DeepView for EntryRow {
    type V = EntryRowView;

    open spec fn deep_view(&self) -> EntryRowView {
        EntryRowView {
            id: self.id@,
            name: self.name@,
            icon: self.icon,
            size: self.size.deep_view(),
            entry: self.entry@,
        }
    }
}

/// The entry list: a message in place of rows that are missing, and the rows.
pub struct EntryList {
    pub message: Option<String>,
    pub rows: Vec<EntryRow>,
}

/// The status bar: whether it shows that something is loading, and its text.
pub struct StatusBar {
    pub spinner: bool,
    pub text: String,
}

/// All that the window shows.
pub struct Screen {
    pub bucket_list: Vec<BucketRow>,
    pub breadcrumb: Vec<Crumb>,
    pub refresh_enabled: bool,
    pub upload_enabled: bool,
    pub entry_list: EntryList,
    pub status_bar: StatusBar,
}

/// The question to be answered before a download, and the object that it asks about.
pub struct DownloadDialog {
    pub title: String,
    pub question: String,
    pub bucket: String,
    pub key: String,
}

/// What a `DownloadDialog` holds.
pub struct DownloadDialogView {
    pub title: Seq<char>,
    pub question: Seq<char>,
    pub bucket: Seq<char>,
    pub key: Seq<char>,
}

impl View for DownloadDialog {
    type V = DownloadDialogView;

    open spec fn view(&self) -> DownloadDialogView {
        DownloadDialogView {
            title: self.title@,
            question: self.question@,
            bucket: self.bucket@,
            key: self.key@,
        }
    }
}

/// What a click on an entry leads to.
pub enum EntryAction {
    Nothing,
    List(ListObjects),
    Confirm(DownloadDialog),
}

/// What an `EntryAction` holds.
pub enum EntryActionView {
    Nothing,
    List(ListObjectsView),
    Confirm(DownloadDialogView),
}

impl View for EntryAction {
    type V = EntryActionView;

    open spec fn view(&self) -> EntryActionView {
        match self {
            EntryAction::Nothing => EntryActionView::Nothing,
            EntryAction::List(request) => EntryActionView::List(request@),
            EntryAction::Confirm(dialog) => EntryActionView::Confirm(dialog@),
        }
    }
}

/// The row of a bucket; that of the open bucket is selected.
pub open spec fn bucket_row(name: Seq<char>, open: Option<Seq<char>>) -> BucketRowView {
    BucketRowView { id: "bucket-"@ + name, label: name, selected: open == Some(name) }
}

/// The step of the breadcrumb to the top of the bucket.
pub open spec fn bucket_crumb(bucket: Seq<char>) -> CrumbView {
    CrumbView {
        id: "crumb-bucket"@,
        label: bucket,
        target: CrumbTargetView::Bucket(bucket),
    }
}

/// The step of the breadcrumb to the segment at `k`: it leads through all segments up to it.
pub open spec fn segment_crumb(names: Seq<Seq<char>>, k: int) -> CrumbView {
    let target = trail(names.take(k + 1));
    CrumbView {
        id: "crumb-"@ + target,
        label: names[k],
        target: CrumbTargetView::Prefix(target),
    }
}

/// The row of an entry in a listing of `prefix`.
pub open spec fn entry_row(entry: EntryView, prefix: Seq<char>) -> EntryRowView {
    EntryRowView {
        id: "entry-"@ + entry.key,
        name: entry.name(prefix),
        icon: if entry.is_prefix {
            RowIcon::Folder
        } else {
            RowIcon::File
        },
        size: if entry.is_prefix {
            None
        } else {
            Some(size_text(entry.size as int))
        },
        entry,
    }
}

impl BrowserView {
    /// The rows of the bucket list.
    pub open spec fn bucket_rows(self) -> Seq<BucketRowView> {
        self.buckets.map_values(|name: Seq<char>| bucket_row(name, self.bucket))
    }

    /// The breadcrumb: a step to the open bucket, and one to each segment of the prefix.
    pub open spec fn breadcrumb(self) -> Seq<CrumbView> {
        match self.bucket {
            Some(bucket) => {
                let names = segments(self.prefix);
                seq![bucket_crumb(bucket)] + Seq::new(
                    names.len(),
                    |k: int| segment_crumb(names, k),
                )
            },
            None => Seq::empty(),
        }
    }

    /// The message in the entry list.
    pub open spec fn entry_message(self) -> Option<Seq<char>> {
        if self.bucket is None {
            Some("Pick a bucket on the left to browse its objects."@)
        } else if self.entries.len() == 0 && !self.loading {
            Some("This prefix is empty."@)
        } else {
            None
        }
    }

    /// The rows of the entry list.
    pub open spec fn entry_rows(self) -> Seq<EntryRowView> {
        self.entries.map_values(|entry: EntryView| entry_row(entry, self.prefix))
    }

    /// The question asked before an entry of `bucket` is downloaded.
    pub open spec fn download_dialog(self, bucket: Seq<char>, entry: EntryView) -> DownloadDialogView {
        DownloadDialogView {
            title: "Download "@ + entry.name(self.prefix),
            question: "Save s3://"@ + bucket + "/"@ + entry.key + " to the current directory?"@,
            bucket,
            key: entry.key,
        }
    }
}

impl EntryList {
    /// The list shows what the window holds.
    pub open spec fn shows(self, window: BrowserView) -> bool {
        &&& self.message.deep_view() == window.entry_message()
        &&& self.rows.deep_view() == window.entry_rows()
    }
}

impl StatusBar {
    /// The bar shows what the window holds.
    pub open spec fn shows(self, window: BrowserView) -> bool {
        &&& self.spinner == window.loading
        &&& self.text@ == window.status
    }
}

impl Screen {
    /// The screen shows what the window holds; refreshing and uploading take an open bucket.
    pub open spec fn shows(self, window: BrowserView) -> bool {
        &&& self.bucket_list.deep_view() == window.bucket_rows()
        &&& self.breadcrumb.deep_view() == window.breadcrumb()
        &&& self.refresh_enabled == (window.bucket is Some)
        &&& self.upload_enabled == (window.bucket is Some)
        &&& self.entry_list.shows(window)
        &&& self.status_bar.shows(window)
    }
}

impl S3Browser {
    /// The rows of the bucket list.
    pub fn render_bucket_list(&self) -> (res: Vec<BucketRow>)
        ensures
            res.deep_view() == self@.bucket_rows(),
    {
        let buckets = self.buckets();
        let open = self.bucket();
        let mut rows: Vec<BucketRow> = Vec::new();
        let mut i: usize = 0;
        while i < buckets.len()
            invariant
                i <= buckets.len(),
                buckets.deep_view() == self@.buckets,
                open.deep_view() == self@.bucket,
                rows.deep_view() == self@.bucket_rows().take(i as int),
            decreases buckets.len() - i,
        {
            let ghost before = rows.deep_view();
            let name = &buckets[i];
            let selected = match open {
                Some(bucket) => same_text(bucket.as_str(), name.as_str()),
                None => false,
            };
            rows.push(
                BucketRow {
                    id: two_texts("bucket-", name.as_str()),
                    label: name.clone(),
                    selected,
                },
            );
            proof {
                assert(self@.buckets[i as int] == name@);
                assert(rows.deep_view() =~= before.push(bucket_row(name@, self@.bucket)));
                assert(rows.deep_view() =~= self@.bucket_rows().take(i + 1));
            }
            i = i + 1;
        }
        proof {
            assert(self@.bucket_rows().take(i as int) =~= self@.bucket_rows());
        }
        rows
    }

    /// The breadcrumb. Prefix segments accumulate: `a/b/c/` leads to `a/`, `a/b/` and `a/b/c/`.
    pub fn render_breadcrumb(&self) -> (res: Vec<Crumb>)
        ensures
            res.deep_view() == self@.breadcrumb(),
    {
        let mut bar: Vec<Crumb> = Vec::new();
        if let Some(bucket) = self.bucket() {
            bar.push(
                Crumb {
                    id: "crumb-bucket".to_owned(),
                    label: bucket.clone(),
                    target: CrumbTarget::Bucket(bucket.clone()),
                },
            );
            let names = split_segments(self.prefix());
            let ghost all = segments(self@.prefix);
            let mut accumulated = String::new();
            let mut i: usize = 0;
            proof {
                assert(bar.deep_view() =~= self@.breadcrumb().take(1));
                assert(all.take(0) =~= Seq::<Seq<char>>::empty());
            }
            while i < names.len()
                invariant
                    i <= names.len(),
                    names.deep_view() == all,
                    all == segments(self@.prefix),
                    self@.bucket is Some,
                    accumulated@ == trail(all.take(i as int)),
                    bar.deep_view() == self@.breadcrumb().take(i + 1),
                decreases names.len() - i,
            {
                let ghost before = bar.deep_view();
                accumulated.append(names[i].as_str());
                accumulated.append("/");
                proof {
                    reveal_strlit("/");
                    assert("/"@ =~= seq!['/']);
                    assert(names.deep_view()[i as int] == names@[i as int]@);
                    assert(all.take(i + 1).drop_last() =~= all.take(i as int));
                    assert(accumulated@ =~= trail(all.take(i + 1)));
                }
                bar.push(
                    Crumb {
                        id: two_texts("crumb-", accumulated.as_str()),
                        label: names[i].clone(),
                        target: CrumbTarget::Prefix(accumulated.clone()),
                    },
                );
                proof {
                    assert(bar.deep_view() =~= before.push(segment_crumb(all, i as int)));
                    assert(bar.deep_view() =~= self@.breadcrumb().take(i + 2));
                }
                i = i + 1;
            }
            proof {
                assert(self@.breadcrumb().take(i + 1) =~= self@.breadcrumb());
            }
        } else {
            proof {
                assert(bar.deep_view() =~= self@.breadcrumb());
            }
        }
        bar
    }

    /// The entry list.
    pub fn render_entry_list(&self) -> (res: EntryList)
        ensures
            res.shows(self@),
    {
        let entries = self.entries();
        let message = if self.bucket().is_none() {
            Some("Pick a bucket on the left to browse its objects.".to_owned())
        } else if entries.len() == 0 && !self.loading() {
            Some("This prefix is empty.".to_owned())
        } else {
            None
        };
        let prefix = self.prefix();
        let mut rows: Vec<EntryRow> = Vec::new();
        let mut i: usize = 0;
        while i < entries.len()
            invariant
                i <= entries.len(),
                entries.deep_view() == self@.entries,
                prefix@ == self@.prefix,
                rows.deep_view() == self@.entry_rows().take(i as int),
            decreases entries.len() - i,
        {
            let ghost before = rows.deep_view();
            let entry = &entries[i];
            let (icon, size) = if entry.is_prefix {
                (RowIcon::Folder, None)
            } else {
                (RowIcon::File, Some(format_size(entry.size)))
            };
            rows.push(
                EntryRow {
                    id: two_texts("entry-", entry.key.as_str()),
                    name: entry.name(prefix).to_owned(),
                    icon,
                    size,
                    entry: entry.clone(),
                },
            );
            proof {
                assert(self@.entries[i as int] == entry@);
                assert(rows.deep_view() =~= before.push(entry_row(entry@, self@.prefix)));
                assert(rows.deep_view() =~= self@.entry_rows().take(i + 1));
            }
            i = i + 1;
        }
        proof {
            assert(self@.entry_rows().take(i as int) =~= self@.entry_rows());
        }
        EntryList { message, rows }
    }

    /// The status bar.
    pub fn render_status_bar(&self) -> (res: StatusBar)
        ensures
            res.shows(self@),
    {
        StatusBar { spinner: self.loading(), text: self.status().to_owned() }
    }

    /// All that the window shows.
    pub fn render(&self) -> (res: Screen)
        ensures
            res.shows(self@),
    {
        let connected = self.bucket().is_some();
        Screen {
            bucket_list: self.render_bucket_list(),
            breadcrumb: self.render_breadcrumb(),
            refresh_enabled: connected,
            upload_enabled: connected,
            entry_list: self.render_entry_list(),
            status_bar: self.render_status_bar(),
        }
    }

    /// The question to be answered before an entry is downloaded; without an open bucket there
    /// is nothing to download.
    pub fn confirm_download(&self, entry: &Entry) -> (res: Option<DownloadDialog>)
        ensures
            self@.well_formed(),
            match self@.bucket {
                Some(bucket) => res matches Some(dialog) && dialog@ == self@.download_dialog(
                    bucket,
                    entry@,
                ),
                None => res is None,
            },
    {
        match self.bucket() {
            Some(bucket) => {
                let mut question = two_texts("Save s3://", bucket.as_str());
                question.append("/");
                question.append(entry.key.as_str());
                question.append(" to the current directory?");
                Some(
                    DownloadDialog {
                        title: two_texts("Download ", entry.name(self.prefix())),
                        question,
                        bucket: bucket.clone(),
                        key: entry.key.clone(),
                    },
                )
            },
            None => None,
        }
    }

    /// The question was answered with yes: starts downloading the object that it asked about,
    /// whatever is open by now.
    pub fn download_confirmed(&mut self, dialog: &DownloadDialog) -> (res: GetObject)
        ensures
            res@ == object_request(dialog.bucket@, dialog.key@),
            final(self)@ == old(self)@.downloading(base_name(dialog.key@)),
            final(self)@.well_formed(),
    {
        self.download_from(dialog.bucket.clone(), dialog.key.clone())
    }

    /// A click on an entry: a folder is listed, and for a file the download is to be confirmed;
    /// without an open bucket nothing happens.
    pub fn open_entry(&mut self, entry: &Entry) -> (res: EntryAction)
        ensures
            final(self)@.well_formed(),
            match old(self)@.bucket {
                Some(bucket) => if entry.is_prefix {
                    &&& res@ == EntryActionView::List(listing_request(bucket, entry.key@))
                    &&& final(self)@ == old(self)@.listing_objects(bucket, entry.key@)
                } else {
                    &&& res@ == EntryActionView::Confirm(
                        old(self)@.download_dialog(bucket, entry@),
                    )
                    &&& final(self)@ == old(self)@
                },
                None => res@ == EntryActionView::Nothing && final(self)@ == old(self)@,
            },
    {
        if entry.is_prefix {
            match self.open_prefix(entry.key.clone()) {
                Some(request) => EntryAction::List(request),
                None => EntryAction::Nothing,
            }
        } else {
            match self.confirm_download(entry) {
                Some(dialog) => EntryAction::Confirm(dialog),
                None => EntryAction::Nothing,
            }
        }
    }

    /// A click on a step of the breadcrumb: a bucket is listed from its top, a prefix in the
    /// open bucket; without an open bucket there is no prefix to list.
    pub fn follow_crumb(&mut self, target: &CrumbTarget) -> (res: Option<ListObjects>)
        ensures
            final(self)@.well_formed(),
            match (target@, old(self)@.bucket) {
                (CrumbTargetView::Bucket(bucket), _) => {
                    &&& res matches Some(request) && request@ == listing_request(
                        bucket,
                        Seq::empty(),
                    )
                    &&& final(self)@ == old(self)@.listing_objects(bucket, Seq::empty())
                },
                (CrumbTargetView::Prefix(prefix), Some(bucket)) => {
                    &&& res matches Some(request) && request@ == listing_request(bucket, prefix)
                    &&& final(self)@ == old(self)@.listing_objects(bucket, prefix)
                },
                (CrumbTargetView::Prefix(_), None) => res is None && final(self)@ == old(self)@,
            },
    {
        match target {
            CrumbTarget::Bucket(bucket) => Some(self.open_bucket(bucket.clone())),
            CrumbTarget::Prefix(prefix) => self.open_prefix(prefix.clone()),
        }
    }
}

/// The steps of the breadcrumb accumulate: each leads one segment further than the one before.
pub proof fn law_crumbs_accumulate(names: Seq<Seq<char>>, k: int)
    requires
        0 <= k < names.len(),
    ensures
        segment_crumb(names, k).target == CrumbTargetView::Prefix(
            (trail(names.take(k)) + names[k]).push('/'),
        ),
        k > 0 ==> segment_crumb(names, k - 1).target == CrumbTargetView::Prefix(
            trail(names.take(k)),
        ),
{
    assert(names.take(k + 1).drop_last() =~= names.take(k));
}

/// The last step of the breadcrumb leads to the prefix that is shown, if that is a path of
/// folders.
pub proof fn law_last_crumb_leads_here(window: BrowserView)
    requires
        window.bucket is Some,
        is_folder_path(window.prefix),
    ensures
        window.prefix.len() > 0 ==> window.breadcrumb().last().target == CrumbTargetView::Prefix(
            window.prefix,
        ),
        window.prefix.len() == 0 ==> window.breadcrumb() == seq![bucket_crumb(window.bucket->0)],
{
    let names = segments(window.prefix);
    law_trail_of_segments(window.prefix);
    if window.prefix.len() > 0 {
        assert(names.len() > 0);
        assert(names.take(names.len() as int) =~= names);
    } else {
        if names.len() > 0 {
            assert(trail(names).len() > 0);
        }
        assert(window.breadcrumb() =~= seq![bucket_crumb(window.bucket->0)]);
    }
}

/// A window that a step of the breadcrumb led to shows the breadcrumb up to that step.
pub proof fn law_crumb_shortens_breadcrumb(
    before: BrowserView,
    after: BrowserView,
    k: int,
    target: Seq<char>,
)
    requires
        0 <= k < before.breadcrumb().len(),
        before.breadcrumb()[k].target == CrumbTargetView::Prefix(target),
        after.bucket == before.bucket,
        after.prefix == target,
    ensures
        after.breadcrumb() == before.breadcrumb().take(k + 1),
{
    let names = segments(before.prefix);
    assert(k > 0);
    assert(target == trail(names.take(k)));
    law_segments_of_shorter_trail(before.prefix, k - 1);
    let fewer = names.take(k);
    assert(segments(after.prefix) == fewer);
    assert forall|i: int| 0 <= i < k implies segment_crumb(fewer, i) == segment_crumb(names, i) by {
        assert(fewer.take(i + 1) =~= names.take(i + 1));
    }
    assert(after.breadcrumb() =~= before.breadcrumb().take(k + 1));
}

} // verus!
