//! What holds of a browser window over all that can happen to it.
use vstd::prelude::*;
use vstd::relations::{sorted_by, total_ordering};
use vstd::seq_lib::lemma_sorted_unique;

use crate::browser::{bucket_names, text_order, BrowserView};
use crate::entry::{
    entry_le, entry_order, file_entry, law_file_keeps_its_name, law_folder_marker_is_hidden,
    law_listing_is_complete, listed_entries, EntryView, ObjectPageView, ObjectSummaryView,
};
use crate::order::{is_sorted, is_stable_sort, law_stable_sort_is_unique, law_stable_sort_keeps_items};
use crate::path::{base_name, law_base_name_has_no_slash, law_base_name_in_folder};
use crate::request::{
    listing_request, object_request, GetObjectView, ListObjectsView, PutObjectView,
};
use crate::screen::DownloadDialogView;
use crate::text::{
    law_text_order_antisymmetric, law_text_order_total, law_text_order_transitive,
};

verus! {

/// What can happen to a browser window.
pub enum Event {
    /// Buckets are asked for.
    LoadBuckets,
    /// The reply to a listing of buckets comes.
    BucketsLoaded(Result<Seq<Option<Seq<char>>>, Seq<char>>),
    /// What lies in a bucket below a prefix is asked for.
    LoadObjects(Seq<char>, Seq<char>),
    /// The reply to a listing of objects comes.
    ObjectsLoaded(ListObjectsView, Result<ObjectPageView, Seq<char>>),
    /// An object, by its bucket and its key, is asked for.
    Download(Seq<char>, Seq<char>),
    /// The question before a download is answered with yes.
    DownloadConfirmed(DownloadDialogView),
    /// A download ends.
    DownloadFinished(GetObjectView, Result<(), Seq<char>>),
    /// A local file of the given name is to be stored.
    Upload(Seq<char>),
    /// An upload ends.
    UploadFinished(PutObjectView, Result<(), Seq<char>>),
}

/// `event` can take the window from `before` to `after`.
pub open spec fn happens(before: BrowserView, event: Event, after: BrowserView) -> bool {
    match event {
        Event::LoadBuckets => after == before.listing_buckets(),
        Event::BucketsLoaded(reply) => before.on_buckets(reply, after),
        Event::LoadObjects(bucket, prefix) => after == before.listing_objects(bucket, prefix),
        Event::ObjectsLoaded(request, reply) => before.on_objects(request, reply, after),
        Event::Download(_, key) => after == before.downloading(base_name(key)),
        Event::DownloadConfirmed(dialog) => after == before.downloading(base_name(dialog.key)),
        Event::DownloadFinished(request, outcome) => after == before.on_download(
            request,
            outcome,
        ),
        Event::Upload(file_name) => before.bucket is Some && after == before.uploading(file_name),
        Event::UploadFinished(request, outcome) => after == before.on_upload(request, outcome),
    }
}

/// What can be asked of the store.
pub enum Request {
    /// The names of all buckets.
    Buckets,
    /// What lies in a bucket below a prefix.
    Objects(ListObjectsView),
    /// The contents of an object.
    Object(GetObjectView),
    /// To store a local file.
    Store(PutObjectView),
}

/// The request that is sent when `event` happens to the window `before`, if it sends one.
pub open spec fn sends(before: BrowserView, event: Event) -> Option<Request> {
    match event {
        Event::LoadBuckets => Some(Request::Buckets),
        Event::LoadObjects(bucket, prefix) => Some(
            Request::Objects(listing_request(bucket, prefix)),
        ),
        Event::Download(bucket, key) => Some(Request::Object(object_request(bucket, key))),
        Event::DownloadConfirmed(dialog) => Some(
            Request::Object(object_request(dialog.bucket, dialog.key)),
        ),
        Event::Upload(file_name) => Some(Request::Store(before.put_request(file_name))),
        Event::UploadFinished(request, Ok(_)) => match before.refresh_request(request) {
            Some(next) => Some(Request::Objects(next)),
            None => None,
        },
        _ => None,
    }
}

/// The windows that a browser goes through, from its start on, while `events` happen to it.
pub open spec fn is_history(windows: Seq<BrowserView>, events: Seq<Event>) -> bool {
    &&& windows.len() == events.len() + 1
    &&& windows[0] == BrowserView::empty().listing_buckets()
    &&& forall|i: int| #![trigger events[i]]
        0 <= i < events.len() ==> happens(windows[i], events[i], windows[i + 1])
}

/// Whatever happens to a well-formed window leaves it well-formed.
pub proof fn law_events_keep_window_well_formed(
    before: BrowserView,
    event: Event,
    after: BrowserView,
)
    requires
        before.well_formed(),
        happens(before, event, after),
    ensures
        after.well_formed(),
{
    match event {
        Event::BucketsLoaded(Ok(names)) => {
            law_stable_sort_keeps_items(text_order(), bucket_names(names), after.buckets);
        },
        Event::ObjectsLoaded(request, Ok(page)) => {
            law_stable_sort_keeps_items(
                entry_order(),
                listed_entries(page, request.prefix),
                after.entries,
            );
            if request.prefix.len() > 0 {
                law_folder_marker_is_hidden(page, request.prefix, after.entries);
            }
        },
        _ => {},
    }
}

/// Every window of every history is well-formed.
pub proof fn law_every_window_is_well_formed(
    windows: Seq<BrowserView>,
    events: Seq<Event>,
    i: int,
)
    requires
        is_history(windows, events),
        0 <= i < windows.len(),
    ensures
        windows[i].well_formed(),
    decreases i,
{
    if i > 0 {
        law_every_window_is_well_formed(windows, events, i - 1);
        assert(happens(windows[i - 1], events[i - 1], windows[i]));
        law_events_keep_window_well_formed(windows[i - 1], events[i - 1], windows[i]);
    }
}

/// Once a bucket is open, one stays open.
pub proof fn law_bucket_stays_open(
    windows: Seq<BrowserView>,
    events: Seq<Event>,
    i: int,
    j: int,
)
    requires
        is_history(windows, events),
        0 <= i <= j < windows.len(),
        windows[i].bucket is Some,
    ensures
        windows[j].bucket is Some,
    decreases j,
{
    if i < j {
        law_bucket_stays_open(windows, events, i, j - 1);
        assert(happens(windows[j - 1], events[j - 1], windows[j]));
    }
}

/// Only a listing that succeeded changes what is shown, and only the part that it lists.
pub proof fn law_only_listings_change_what_is_shown(
    before: BrowserView,
    event: Event,
    after: BrowserView,
)
    requires
        happens(before, event, after),
    ensures
        !(event matches Event::BucketsLoaded(Ok(_))) ==> after.buckets == before.buckets,
        !(event matches Event::ObjectsLoaded(_, Ok(_))) ==> after.bucket == before.bucket
            && after.prefix == before.prefix && after.entries == before.entries,
{
}

/// A request or an upload or a download that failed shows the message of the error, and changes
/// nothing else.
pub proof fn law_failure_only_shows_its_message(
    before: BrowserView,
    event: Event,
    after: BrowserView,
    message: Seq<char>,
)
    requires
        happens(before, event, after),
        match event {
            Event::BucketsLoaded(reply) => reply == Err::<Seq<Option<Seq<char>>>, Seq<char>>(
                message,
            ),
            Event::ObjectsLoaded(_, reply) => reply == Err::<ObjectPageView, Seq<char>>(message),
            Event::DownloadFinished(_, outcome) => outcome == Err::<(), Seq<char>>(message),
            Event::UploadFinished(_, outcome) => outcome == Err::<(), Seq<char>>(message),
            _ => false,
        },
    ensures
        after == before.idle(message),
{
}

/// What is shown once a listing has come depends on the request and its reply alone, not on
/// what was shown before.
pub proof fn law_listing_forgets_the_past(
    request: ListObjectsView,
    page: ObjectPageView,
    before_one: BrowserView,
    before_two: BrowserView,
    after_one: BrowserView,
    after_two: BrowserView,
)
    requires
        before_one.on_objects(request, Ok(page), after_one),
        before_two.on_objects(request, Ok(page), after_two),
    ensures
        after_two == (BrowserView { buckets: before_two.buckets, ..after_one }),
{
    law_stable_sort_is_unique(
        entry_order(),
        listed_entries(page, request.prefix),
        after_one.entries,
        after_two.entries,
    );
}

/// The buckets that are shown once they have been listed depend on the reply alone.
pub proof fn law_buckets_forget_the_past(
    names: Seq<Option<Seq<char>>>,
    before_one: BrowserView,
    before_two: BrowserView,
    after_one: BrowserView,
    after_two: BrowserView,
)
    requires
        before_one.on_buckets(Ok(names), after_one),
        before_two.on_buckets(Ok(names), after_two),
    ensures
        after_one.buckets == after_two.buckets,
        after_one.status == after_two.status,
{
    law_stable_sort_is_unique(
        text_order(),
        bucket_names(names),
        after_one.buckets,
        after_two.buckets,
    );
}

/// The buckets are shown alike in whatever order the reply names them.
pub proof fn law_order_of_buckets_does_not_matter(
    names_one: Seq<Option<Seq<char>>>,
    names_two: Seq<Option<Seq<char>>>,
    before: BrowserView,
    after_one: BrowserView,
    after_two: BrowserView,
)
    requires
        bucket_names(names_one).to_multiset() == bucket_names(names_two).to_multiset(),
        before.on_buckets(Ok(names_one), after_one),
        before.on_buckets(Ok(names_two), after_two),
    ensures
        after_one == after_two,
{
    let one = bucket_names(names_one);
    let two = bucket_names(names_two);
    law_stable_sort_keeps_items(text_order(), one, after_one.buckets);
    law_stable_sort_keeps_items(text_order(), two, after_two.buckets);
    let le = text_order();
    assert(total_ordering(le)) by {
        assert forall|x: Seq<char>| #[trigger] le(x, x) by {
            law_text_order_total(x, x);
        }
        assert forall|x: Seq<char>, y: Seq<char>| #[trigger] le(x, y) && #[trigger] le(
            y,
            x,
        ) implies x == y by {
            law_text_order_antisymmetric(x, y);
        }
        assert forall|x: Seq<char>, y: Seq<char>, z: Seq<char>| #[trigger] le(x, y) && #[trigger] le(
            y,
            z,
        ) implies le(x, z) by {
            law_text_order_transitive(x, y, z);
        }
        assert forall|x: Seq<char>, y: Seq<char>| #[trigger] le(x, y) || #[trigger] le(y, x) by {
            law_text_order_total(x, y);
        }
    }
    lemma_sorted_unique(after_one.buckets, after_two.buckets, le);
    one.to_multiset_ensures();
    two.to_multiset_ensures();
}

/// Rows of the same kind with the same key are the same row.
pub open spec fn keys_tell_rows_apart(rows: Seq<EntryView>) -> bool {
    forall|i: int, j: int|
        0 <= i < j < rows.len() && (#[trigger] rows[i]).is_prefix == (
        #[trigger] rows[j]).is_prefix && rows[i].key == rows[j].key ==> rows[i] == rows[j]
}

/// A listing is shown alike in whatever order the reply gives its folders and its files, where
/// files of the same key have the same size.
pub proof fn law_order_of_reply_does_not_matter(
    request: ListObjectsView,
    page_one: ObjectPageView,
    page_two: ObjectPageView,
    before: BrowserView,
    after_one: BrowserView,
    after_two: BrowserView,
)
    requires
        listed_entries(page_one, request.prefix).to_multiset() == listed_entries(
            page_two,
            request.prefix,
        ).to_multiset(),
        keys_tell_rows_apart(listed_entries(page_one, request.prefix)),
        before.on_objects(request, Ok(page_one), after_one),
        before.on_objects(request, Ok(page_two), after_two),
    ensures
        after_one == after_two,
{
    let one = listed_entries(page_one, request.prefix);
    let two = listed_entries(page_two, request.prefix);
    law_stable_sort_keeps_items(entry_order(), one, after_one.entries);
    law_stable_sort_keeps_items(entry_order(), two, after_two.entries);
    let le = |a: EntryView, b: EntryView|
        entry_le(a, b) && (entry_le(b, a) ==> a.size <= b.size);
    assert(total_ordering(le)) by {
        assert forall|x: EntryView| #[trigger] le(x, x) by {
            law_text_order_total(x.key, x.key);
        }
        assert forall|x: EntryView, y: EntryView| #[trigger] le(x, y) && #[trigger] le(
            y,
            x,
        ) implies x == y by {
            law_text_order_antisymmetric(x.key, y.key);
        }
        assert forall|x: EntryView, y: EntryView, z: EntryView| #[trigger] le(x, y)
            && #[trigger] le(y, z) implies le(x, z) by {
            if x.is_prefix == y.is_prefix && y.is_prefix == z.is_prefix {
                law_text_order_transitive(x.key, y.key, z.key);
                if entry_le(z, x) {
                    law_text_order_transitive(z.key, x.key, y.key);
                    law_text_order_transitive(y.key, z.key, x.key);
                }
            }
        }
        assert forall|x: EntryView, y: EntryView| #[trigger] le(x, y) || #[trigger] le(y, x) by {
            law_text_order_total(x.key, y.key);
        }
    }
    one.to_multiset_ensures();
    two.to_multiset_ensures();
    assert forall|x: EntryView| two.contains(x) <==> one.contains(x) by {
        assert(one.to_multiset().count(x) == two.to_multiset().count(x));
    }
    lemma_sorted_with_sizes(one, after_one.entries, le);
    lemma_sorted_with_sizes(one, after_two.entries, le);
    lemma_sorted_unique(after_one.entries, after_two.entries, le);
}

proof fn lemma_sorted_with_sizes(
    listed: Seq<EntryView>,
    rows: Seq<EntryView>,
    le: spec_fn(EntryView, EntryView) -> bool,
)
    requires
        le == (|a: EntryView, b: EntryView|
            entry_le(a, b) && (entry_le(b, a) ==> a.size <= b.size)),
        keys_tell_rows_apart(listed),
        is_sorted(entry_order(), rows),
        forall|row: EntryView| rows.contains(row) ==> listed.contains(row),
    ensures
        sorted_by(rows, le),
{
    assert forall|i: int, j: int| 0 <= i < j < rows.len() implies #[trigger] le(
        rows[i],
        rows[j],
    ) by {
        assert(entry_order()(rows[i], rows[j]));
        if entry_le(rows[j], rows[i]) {
            law_text_order_antisymmetric(rows[i].key, rows[j].key);
            assert(rows.contains(rows[i]));
            assert(rows.contains(rows[j]));
            let m = choose|m: int| 0 <= m < listed.len() && listed[m] == rows[i];
            let n = choose|n: int| 0 <= n < listed.len() && listed[n] == rows[j];
            if m < n {
                assert(listed[m] == listed[n]);
            } else if n < m {
                assert(listed[n] == listed[m]);
            }
        }
    }
}

/// A download is saved in the working directory: whatever the key, the name of its file holds
/// no slash.
pub proof fn law_download_stays_in_directory(bucket: Seq<char>, key: Seq<char>)
    ensures
        !object_request(bucket, key).file_name.contains('/'),
{
    law_base_name_has_no_slash(key);
}

/// A file uploaded to a folder and downloaded from there has its name again.
pub proof fn law_download_undoes_upload_name(
    at_upload: BrowserView,
    bucket: Seq<char>,
    name: Seq<char>,
)
    requires
        !name.contains('/'),
        at_upload.prefix.len() == 0 || at_upload.prefix.last() == '/',
    ensures
        object_request(bucket, at_upload.put_request(name).key).file_name == name,
{
    law_base_name_in_folder(at_upload.prefix, name);
}

/// A confirmed download fetches the object that was asked about: whatever window there was when
/// the question was asked and whatever window there is when it is answered, the request names
/// the bucket and the key of the question.
pub proof fn law_confirmed_download_is_the_one_asked_about(
    asked: BrowserView,
    bucket: Seq<char>,
    entry: EntryView,
    answered: BrowserView,
    after: BrowserView,
)
    requires
        happens(
            answered,
            Event::DownloadConfirmed(asked.download_dialog(bucket, entry)),
            after,
        ),
    ensures
        sends(answered, Event::DownloadConfirmed(asked.download_dialog(bucket, entry))) == Some(
            Request::Object(object_request(bucket, entry.key)),
        ),
        asked.download_dialog(bucket, entry).question == "Save s3://"@ + object_request(
            bucket,
            entry.key,
        ).bucket + "/"@ + object_request(bucket, entry.key).key + " to the current directory?"@,
        after == answered.downloading(object_request(bucket, entry.key).file_name),
{
}

/// An upload that succeeded lists a place that was open: the place of the upload or what is
/// shown when it ends, never the bucket of one with the prefix of the other.
pub proof fn law_upload_refreshes_a_place_that_was_open(
    at_upload: BrowserView,
    name: Seq<char>,
    at_end: BrowserView,
)
    requires
        at_upload.bucket is Some,
        at_end.bucket is Some,
    ensures
        ({
            let sent = sends(
                at_end,
                Event::UploadFinished(at_upload.put_request(name), Ok(())),
            );
            if at_end.bucket == at_upload.bucket {
                sent == Some(
                    Request::Objects(listing_request(at_upload.bucket->0, at_upload.prefix)),
                )
            } else {
                sent == Some(Request::Objects(listing_request(at_end.bucket->0, at_end.prefix)))
            }
        }),
{
}

/// An uploaded file keeps its name under the prefix that was shown: where the upload ends with
/// its bucket still open, the listing that is then sent for, once it comes and holds the new
/// object, shows a file of that name in the place that it went to.
pub proof fn law_uploaded_file_is_shown(
    at_upload: BrowserView,
    name: Seq<char>,
    at_end: BrowserView,
    request: ListObjectsView,
    before: BrowserView,
    object: ObjectSummaryView,
    page: ObjectPageView,
    after: BrowserView,
)
    requires
        name.len() > 0,
        name.last() != '/',
        at_upload.bucket is Some,
        at_end.bucket == at_upload.bucket,
        sends(at_end, Event::UploadFinished(at_upload.put_request(name), Ok(()))) == Some(
            Request::Objects(request),
        ),
        object.key == Some(at_upload.put_request(name).key),
        page.contents.contains(object),
        before.on_objects(request, Ok(page), after),
    ensures
        after.bucket == at_upload.bucket,
        after.prefix == at_upload.prefix,
        after.entries.contains(file_entry(object)),
        file_entry(object).name(after.prefix) == name,
{
    let prefix = at_upload.prefix;
    law_listing_is_complete(page, prefix, after.entries);
    assert((prefix + name).len() != prefix.len());
    law_file_keeps_its_name(prefix, name, file_entry(object));
}

/// What is shown of a bucket comes from one reply: some listing that succeeded named the bucket
/// and the prefix, and its rows are the entries.
pub proof fn law_what_is_shown_comes_from_one_reply(
    windows: Seq<BrowserView>,
    events: Seq<Event>,
    i: int,
)
    requires
        is_history(windows, events),
        0 <= i < windows.len(),
        windows[i].bucket is Some,
    ensures
        exists|k: int| 0 <= k < i && #[trigger] shows_reply(windows[i], events[k]),
    decreases i,
{
    assert(i > 0);
    assert(happens(windows[i - 1], events[i - 1], windows[i]));
    if events[i - 1] matches Event::ObjectsLoaded(_, Ok(_)) {
        assert(shows_reply(windows[i], events[i - 1]));
    } else {
        law_what_is_shown_comes_from_one_reply(windows, events, i - 1);
        let k = choose|k: int| 0 <= k < i - 1 && #[trigger] shows_reply(windows[i - 1], events[k]);
        assert(shows_reply(windows[i], events[k]));
    }
}

/// `event` is a listing that succeeded, and the window shows it.
pub open spec fn shows_reply(window: BrowserView, event: Event) -> bool {
    match event {
        Event::ObjectsLoaded(request, Ok(page)) => {
            &&& window.bucket == Some(request.bucket)
            &&& window.prefix == request.prefix
            &&& is_stable_sort(
                entry_order(),
                listed_entries(page, request.prefix),
                window.entries,
            )
        },
        _ => false,
    }
}

} // verus!
