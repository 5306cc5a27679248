//! The state of the browser window, and how requests and replies change it.
use vstd::prelude::*;
use vstd::string::StringExecFns;

use crate::entry::{entries_of, owned_or_empty, Entry, ObjectPage};
use crate::entry::{
    entry_order, law_folder_marker_is_hidden, listed_entries, text_or_empty, EntryView,
    ObjectPageView,
};
use crate::number::{decimal, decimal_text};
use crate::order::{
    is_sorted, is_stable_sort, law_stable_sort_keeps_items, lemma_stable_sort_through, rank_order,
    stable_sort,
};
use crate::path::{base_name, last_segment};
use crate::request::{
    listing_request, object_request, reply_view, GetObjectView, ListObjectsView, PutObjectView,
};
use crate::request::{GetObject, ListBuckets, ListObjects, PutObject};
use crate::text::text_le;
use crate::text::{same_text, three_texts, two_texts};

verus! {

/// What is shown of the bucket that was opened.
struct Listing {
    bucket: String,
    prefix: String,
    entries: Vec<Entry>,
}

/// The state of the browser window. The listing is missing until the first one has come.
pub struct S3Browser {
    buckets: Vec<String>,
    listing: Option<Listing>,
    loading: bool,
    status: String,
}

/// What the browser window holds: the buckets, the bucket that is open (if any) with the prefix
/// and the entries that are shown of it, whether a request is on its way, and the status line.
#[verifier::ext_equal]
pub struct BrowserView {
    pub buckets: Seq<Seq<char>>,
    pub bucket: Option<Seq<char>>,
    pub prefix: Seq<char>,
    pub entries: Seq<EntryView>,
    pub loading: bool,
    pub status: Seq<char>,
}

/// The order of bucket names.
pub open spec fn text_order() -> spec_fn(Seq<char>, Seq<char>) -> bool {
    |a: Seq<char>, b: Seq<char>| text_le(a, b)
}

/// The names in a reply, nothing for those that are missing.
pub open spec fn bucket_names(names: Seq<Option<Seq<char>>>) -> Seq<Seq<char>> {
    names.map_values(|name: Option<Seq<char>>| text_or_empty(name))
}

impl BrowserView {
    /// Holds of every browser window: buckets and entries are in order, nothing is shown while
    /// no bucket is open, and the open folder is not among its own files.
    pub open spec fn well_formed(self) -> bool {
        &&& is_sorted(text_order(), self.buckets)
        &&& is_sorted(entry_order(), self.entries)
        &&& self.bucket is None ==> self.prefix.len() == 0 && self.entries.len() == 0
        &&& self.prefix.len() > 0 ==> forall|i: int|
            0 <= i < self.entries.len() && !(#[trigger] self.entries[i]).is_prefix
                ==> self.entries[i].key != self.prefix
    }

    /// The window before anything was listed.
    pub open spec fn empty() -> Self {
        BrowserView {
            buckets: Seq::empty(),
            bucket: None,
            prefix: Seq::empty(),
            entries: Seq::empty(),
            loading: false,
            status: Seq::empty(),
        }
    }

    /// The same window with a request on its way.
    pub open spec fn busy(self, status: Seq<char>) -> Self {
        BrowserView { loading: true, status, ..self }
    }

    /// The same window with a reply come in.
    pub open spec fn idle(self, status: Seq<char>) -> Self {
        BrowserView { loading: false, status, ..self }
    }

    /// Buckets are being listed.
    pub open spec fn listing_buckets(self) -> Self {
        self.busy("Listing buckets…"@)
    }

    /// Objects are being listed.
    pub open spec fn listing_objects(self, bucket: Seq<char>, prefix: Seq<char>) -> Self {
        self.busy("Listing s3://"@ + bucket + "/"@ + prefix)
    }

    /// An object is being downloaded.
    pub open spec fn downloading(self, file_name: Seq<char>) -> Self {
        self.busy("Downloading "@ + file_name + "…"@)
    }

    /// A file is being uploaded.
    pub open spec fn uploading(self, file_name: Seq<char>) -> Self {
        self.busy("Uploading "@ + file_name + "…"@)
    }

    /// The request to store a file below the prefix that is shown.
    pub open spec fn put_request(self, file_name: Seq<char>) -> PutObjectView {
        PutObjectView {
            bucket: text_or_empty(self.bucket),
            key: self.prefix + file_name,
            prefix: self.prefix,
        }
    }

    /// `after` is the window once the reply to a listing of buckets has come: the names in
    /// order, or the message of the error and nothing else changed.
    pub open spec fn on_buckets(
        self,
        reply: Result<Seq<Option<Seq<char>>>, Seq<char>>,
        after: Self,
    ) -> bool {
        match reply {
            Ok(names) => {
                &&& is_stable_sort(text_order(), bucket_names(names), after.buckets)
                &&& after == BrowserView { buckets: after.buckets, ..self }.idle(
                    decimal(names.len()) + " buckets"@,
                )
            },
            Err(message) => after == self.idle(message),
        }
    }

    /// `after` is the window once the reply to a listing of objects has come: what was asked
    /// for is open and its rows are shown in order, or the message of the error and nothing
    /// else changed.
    pub open spec fn on_objects(
        self,
        request: ListObjectsView,
        reply: Result<ObjectPageView, Seq<char>>,
        after: Self,
    ) -> bool {
        match reply {
            Ok(page) => {
                &&& is_stable_sort(
                    entry_order(),
                    listed_entries(page, request.prefix),
                    after.entries,
                )
                &&& after == BrowserView {
                    bucket: Some(request.bucket),
                    prefix: request.prefix,
                    entries: after.entries,
                    ..self
                }.idle(decimal(after.entries.len()) + " entries"@)
            },
            Err(message) => after == self.idle(message),
        }
    }

    /// The window once a download has ended.
    pub open spec fn on_download(
        self,
        request: GetObjectView,
        outcome: Result<(), Seq<char>>,
    ) -> Self {
        match outcome {
            Ok(_) => self.idle("Downloaded "@ + request.file_name),
            Err(message) => self.idle(message),
        }
    }

    /// The listing asked for once an upload has succeeded: of the place that it went to, if its
    /// bucket is still open, and otherwise of what is shown.
    pub open spec fn refresh_request(self, request: PutObjectView) -> Option<ListObjectsView> {
        match self.bucket {
            Some(bucket) => Some(
                listing_request(
                    bucket,
                    if bucket == request.bucket {
                        request.prefix
                    } else {
                        self.prefix
                    },
                ),
            ),
            None => None,
        }
    }

    /// The window once an upload has ended: if it succeeded, a listing is asked for again.
    pub open spec fn on_upload(
        self,
        request: PutObjectView,
        outcome: Result<(), Seq<char>>,
    ) -> Self {
        match outcome {
            Ok(_) => match self.refresh_request(request) {
                Some(next) => self.listing_objects(next.bucket, next.prefix),
                None => self.idle("Uploaded "@ + request.key),
            },
            Err(message) => self.idle(message),
        }
    }
}

impl View for S3Browser {
    type V = BrowserView;

    closed spec fn view(&self) -> BrowserView {
        BrowserView {
            buckets: self.buckets.deep_view(),
            bucket: match self.listing {
                Some(listing) => Some(listing.bucket@),
                None => None,
            },
            prefix: match self.listing {
                Some(listing) => listing.prefix@,
                None => Seq::empty(),
            },
            entries: match self.listing {
                Some(listing) => listing.entries.deep_view(),
                None => Seq::empty(),
            },
            loading: self.loading,
            status: self.status@,
        }
    }
}

/// The names of a reply in order.
fn sorted_names(names: &Vec<Option<String>>) -> (res: Vec<String>)
    ensures
        is_stable_sort(text_order(), bucket_names(names.deep_view()), res.deep_view()),
{
    let mut found: Vec<String> = Vec::new();
    let ghost wanted = bucket_names(names.deep_view());
    let mut i: usize = 0;
    while i < names.len()
        invariant
            i <= names.len(),
            wanted == bucket_names(names.deep_view()),
            found.deep_view() == wanted.take(i as int),
        decreases names.len() - i,
    {
        let ghost before = found.deep_view();
        found.push(owned_or_empty(&names[i]));
        proof {
            assert(found.deep_view() =~= before.push(text_or_empty(names.deep_view()[i as int])));
            assert(found.deep_view() =~= wanted.take(i + 1));
        }
        i = i + 1;
    }
    proof {
        assert(wanted.take(i as int) =~= wanted);
    }
    let ghost before = found@;
    let sorted = stable_sort(found);
    proof {
        let shown = |name: String| name@;
        lemma_stable_sort_through(rank_order::<String>(), text_order(), shown, before, sorted@);
        assert forall|k: int| 0 <= k < before.len() implies before[k]@ == #[trigger] wanted[k] by {
            assert(before[k].deep_view() == wanted[k]);
        }
        assert(before.map_values(shown) =~= wanted);
        assert(sorted@.map_values(shown) =~= sorted.deep_view());
    }
    sorted
}

impl S3Browser {
    #[verifier::type_invariant]
    spec fn invariant_holds(self) -> bool {
        self@.well_formed()
    }

    /// A window with nothing in it yet, and the request for the buckets.
    pub fn new() -> (res: (Self, ListBuckets))
        ensures
            res.0@ == BrowserView::empty().listing_buckets(),
            res.0@.well_formed(),
    {
        let buckets: Vec<String> = Vec::new();
        proof {
            assert(buckets.deep_view() =~= Seq::<Seq<char>>::empty());
        }
        let mut browser = S3Browser {
            buckets,
            listing: None,
            loading: false,
            status: String::new(),
        };
        let request = browser.load_buckets();
        (browser, request)
    }

    /// Starts listing the buckets.
    pub fn load_buckets(&mut self) -> (res: ListBuckets)
        ensures
            final(self)@ == old(self)@.listing_buckets(),
            final(self)@.well_formed(),
    {
        proof {
            use_type_invariant(&*self);
        }
        self.loading = true;
        self.status = "Listing buckets…".to_owned();
        ListBuckets {  }
    }

    /// Takes the reply to a listing of buckets.
    pub fn buckets_loaded(&mut self, reply: Result<Vec<Option<String>>, String>)
        ensures
            old(self)@.on_buckets(reply_view(reply), final(self)@),
            final(self)@.well_formed(),
    {
        proof {
            use_type_invariant(&*self);
        }
        self.loading = false;
        match reply {
            Ok(names) => {
                let sorted = sorted_names(&names);
                proof {
                    law_stable_sort_keeps_items(
                        text_order(),
                        bucket_names(names.deep_view()),
                        sorted.deep_view(),
                    );
                }
                let count = decimal_text(sorted.len() as u64);
                self.buckets = sorted;
                self.status = two_texts(count.as_str(), " buckets");
            },
            Err(message) => {
                self.status = message;
            },
        }
    }

    /// Starts listing what lies in a bucket below a prefix.
    pub fn load_objects(&mut self, bucket: String, prefix: String) -> (res: ListObjects)
        ensures
            res@ == listing_request(bucket@, prefix@),
            final(self)@ == old(self)@.listing_objects(bucket@, prefix@),
            final(self)@.well_formed(),
    {
        proof {
            use_type_invariant(&*self);
        }
        let mut status = three_texts("Listing s3://", bucket.as_str(), "/");
        status.append(prefix.as_str());
        self.loading = true;
        self.status = status;
        ListObjects { bucket, prefix, delimiter: "/".to_owned() }
    }

    /// Takes the reply to a listing of objects.
    pub fn objects_loaded(&mut self, request: ListObjects, reply: Result<ObjectPage, String>)
        ensures
            old(self)@.on_objects(request@, reply_view(reply), final(self)@),
            final(self)@.well_formed(),
    {
        proof {
            use_type_invariant(&*self);
        }
        self.loading = false;
        match reply {
            Ok(page) => {
                let entries = entries_of(&page, request.prefix.as_str());
                proof {
                    law_stable_sort_keeps_items(
                        entry_order(),
                        listed_entries(page@, request.prefix@),
                        entries.deep_view(),
                    );
                    if request.prefix@.len() > 0 {
                        law_folder_marker_is_hidden(
                            page@,
                            request.prefix@,
                            entries.deep_view(),
                        );
                    }
                }
                let count = decimal_text(entries.len() as u64);
                self.status = two_texts(count.as_str(), " entries");
                self.listing = Some(
                    Listing { bucket: request.bucket, prefix: request.prefix, entries },
                );
            },
            Err(message) => {
                self.status = message;
            },
        }
    }

    /// Starts listing a bucket from its top.
    pub fn open_bucket(&mut self, bucket: String) -> (res: ListObjects)
        ensures
            res@ == listing_request(bucket@, Seq::empty()),
            final(self)@ == old(self)@.listing_objects(bucket@, Seq::empty()),
            final(self)@.well_formed(),
    {
        self.load_objects(bucket, String::new())
    }

    /// Starts listing `prefix` in the open bucket; without one nothing happens.
    pub fn open_prefix(&mut self, prefix: String) -> (res: Option<ListObjects>)
        ensures
            final(self)@.well_formed(),
            match old(self)@.bucket {
                Some(bucket) => {
                    &&& res matches Some(request) && request@ == listing_request(bucket, prefix@)
                    &&& final(self)@ == old(self)@.listing_objects(bucket, prefix@)
                },
                None => res is None && final(self)@ == old(self)@,
            },
    {
        proof {
            use_type_invariant(&*self);
        }
        let bucket = match &self.listing {
            Some(listing) => listing.bucket.clone(),
            None => {
                return None;
            },
        };
        Some(self.load_objects(bucket, prefix))
    }

    /// Starts listing once more what is shown; without an open bucket nothing happens.
    pub fn refresh_objects(&mut self) -> (res: Option<ListObjects>)
        ensures
            final(self)@.well_formed(),
            match old(self)@.bucket {
                Some(bucket) => {
                    &&& res matches Some(request) && request@ == listing_request(
                        bucket,
                        old(self)@.prefix,
                    )
                    &&& final(self)@ == old(self)@.listing_objects(bucket, old(self)@.prefix)
                },
                None => res is None && final(self)@ == old(self)@,
            },
    {
        let prefix = self.prefix().to_owned();
        self.open_prefix(prefix)
    }

    /// Starts downloading an object of the open bucket to a file of its name; without an open
    /// bucket nothing happens.
    pub fn download(&mut self, key: String) -> (res: Option<GetObject>)
        ensures
            final(self)@.well_formed(),
            match old(self)@.bucket {
                Some(bucket) => {
                    &&& res matches Some(request) && request@ == object_request(bucket, key@)
                    &&& final(self)@ == old(self)@.downloading(base_name(key@))
                },
                None => res is None && final(self)@ == old(self)@,
            },
    {
        proof {
            use_type_invariant(&*self);
        }
        let bucket = match &self.listing {
            Some(listing) => listing.bucket.clone(),
            None => {
                return None;
            },
        };
        Some(self.download_from(bucket, key))
    }

    /// Starts downloading an object of `bucket`, whichever is open, to a file of its name.
    pub fn download_from(&mut self, bucket: String, key: String) -> (res: GetObject)
        ensures
            res@ == object_request(bucket@, key@),
            final(self)@ == old(self)@.downloading(base_name(key@)),
            final(self)@.well_formed(),
    {
        proof {
            use_type_invariant(&*self);
        }
        let file_name = last_segment(key.as_str()).to_owned();
        self.loading = true;
        self.status = three_texts("Downloading ", file_name.as_str(), "…");
        GetObject { bucket, key, file_name }
    }

    /// Takes the outcome of a download.
    pub fn download_finished(&mut self, request: &GetObject, outcome: Result<(), String>)
        ensures
            final(self)@ == old(self)@.on_download(request@, reply_view(outcome)),
            final(self)@.well_formed(),
    {
        proof {
            use_type_invariant(&*self);
        }
        self.loading = false;
        self.status = match outcome {
            Ok(_) => two_texts("Downloaded ", request.file_name.as_str()),
            Err(message) => message,
        };
    }

    /// Starts uploading a local file of the given name below the prefix that is shown; without
    /// an open bucket, or for a path that has no file name, nothing happens.
    pub fn upload(&mut self, file_name: Option<String>) -> (res: Option<PutObject>)
        ensures
            final(self)@.well_formed(),
            match (old(self)@.bucket, file_name) {
                (Some(_), Some(name)) => {
                    &&& res matches Some(request) && request@ == old(self)@.put_request(name@)
                    &&& final(self)@ == old(self)@.uploading(name@)
                },
                _ => res is None && final(self)@ == old(self)@,
            },
    {
        proof {
            use_type_invariant(&*self);
        }
        let (bucket, prefix) = match &self.listing {
            Some(listing) => (listing.bucket.clone(), listing.prefix.clone()),
            None => {
                return None;
            },
        };
        let name = match file_name {
            Some(name) => name,
            None => {
                return None;
            },
        };
        let key = two_texts(prefix.as_str(), name.as_str());
        self.loading = true;
        self.status = three_texts("Uploading ", name.as_str(), "…");
        Some(PutObject { bucket, key, prefix })
    }

    /// Takes the outcome of an upload. After a success the place that the file went to is listed
    /// again; if another bucket has been opened meanwhile, what is shown of that one.
    pub fn upload_finished(&mut self, request: PutObject, outcome: Result<(), String>) -> (res:
        Option<ListObjects>)
        ensures
            final(self)@ == old(self)@.on_upload(request@, reply_view(outcome)),
            final(self)@.well_formed(),
            match (outcome, old(self)@.refresh_request(request@)) {
                (Ok(_), Some(next)) => res matches Some(listing) && listing@ == next,
                _ => res is None,
            },
    {
        proof {
            use_type_invariant(&*self);
        }
        self.loading = false;
        match outcome {
            Ok(_) => {
                self.status = two_texts("Uploaded ", request.key.as_str());
                let still_open = match &self.listing {
                    Some(listing) => same_text(listing.bucket.as_str(), request.bucket.as_str()),
                    None => false,
                };
                if still_open {
                    self.open_prefix(request.prefix)
                } else {
                    self.refresh_objects()
                }
            },
            Err(message) => {
                self.status = message;
                None
            },
        }
    }

    /// The buckets, in order.
    pub fn buckets(&self) -> (res: &Vec<String>)
        ensures
            res.deep_view() == self@.buckets,
            self@.well_formed(),
    {
        proof {
            use_type_invariant(self);
        }
        &self.buckets
    }

    /// The bucket that is open.
    pub fn bucket(&self) -> (res: Option<&String>)
        ensures
            res.deep_view() == self@.bucket,
            self@.well_formed(),
    {
        proof {
            use_type_invariant(self);
        }
        match &self.listing {
            Some(listing) => Some(&listing.bucket),
            None => None,
        }
    }

    /// The prefix that is shown of the open bucket.
    pub fn prefix(&self) -> (res: &str)
        ensures
            res@ == self@.prefix,
    {
        proof {
            reveal_strlit("");
            assert(""@ =~= Seq::<char>::empty());
        }
        match &self.listing {
            Some(listing) => listing.prefix.as_str(),
            None => "",
        }
    }

    /// Whether the last thing that happened is a request whose reply has not come yet.
    pub fn loading(&self) -> (res: bool)
        ensures
            res == self@.loading,
    {
        self.loading
    }

    /// The status line.
    pub fn status(&self) -> (res: &str)
        ensures
            res@ == self@.status,
    {
        self.status.as_str()
    }

    /// The entries that are shown, folders first, and either by their keys.
    pub fn entries(&self) -> (res: &[Entry])
        ensures
            res.deep_view() == self@.entries,
            self@.well_formed(),
    {
        proof {
            use_type_invariant(self);
        }
        match &self.listing {
            Some(listing) => {
                let entries = listing.entries.as_slice();
                proof {
                    assert(entries.deep_view() =~= listing.entries.deep_view());
                }
                entries
            },
            None => {
                let entries: &[Entry] = &[];
                proof {
                    assert(entries.deep_view() =~= Seq::<EntryView>::empty());
                }
                entries
            },
        }
    }
}

} // verus!
