//! What the browser asks of the store, and what comes back.
use vstd::prelude::*;

use crate::path::base_name;

verus! {

/// A request for the names of all buckets.
pub struct ListBuckets {}

/// A request for what lies in a bucket below a prefix, up to the next delimiter.
pub struct ListObjects {
    pub bucket: String,
    pub prefix: String,
    pub delimiter: String,
}

/// What a `ListObjects` holds.
pub struct ListObjectsView {
    pub bucket: Seq<char>,
    pub prefix: Seq<char>,
    pub delimiter: Seq<char>,
}

impl View for ListObjects {
    type V = ListObjectsView;

    open spec fn view(&self) -> ListObjectsView {
        ListObjectsView {
            bucket: self.bucket@,
            prefix: self.prefix@,
            delimiter: self.delimiter@,
        }
    }
}

/// The request for a listing of a bucket below a prefix: folders end at the next slash.
pub open spec fn listing_request(bucket: Seq<char>, prefix: Seq<char>) -> ListObjectsView {
    ListObjectsView { bucket, prefix, delimiter: "/"@ }
}

/// A request for the contents of an object, to be saved as `file_name` in the working
/// directory.
pub struct GetObject {
    pub bucket: String,
    pub key: String,
    pub file_name: String,
}

/// What a `GetObject` holds.
pub struct GetObjectView {
    pub bucket: Seq<char>,
    pub key: Seq<char>,
    pub file_name: Seq<char>,
}

impl View for GetObject {
    type V = GetObjectView;

    open spec fn view(&self) -> GetObjectView {
        GetObjectView { bucket: self.bucket@, key: self.key@, file_name: self.file_name@ }
    }
}

/// The request for an object: its file is named after the last piece of its key.
pub open spec fn object_request(bucket: Seq<char>, key: Seq<char>) -> GetObjectView {
    GetObjectView { bucket, key, file_name: base_name(key) }
}

/// A request to store a local file as an object; `prefix` is what was shown when it was made.
pub struct PutObject {
    pub bucket: String,
    pub key: String,
    pub prefix: String,
}

/// What a `PutObject` holds.
pub struct PutObjectView {
    pub bucket: Seq<char>,
    pub key: Seq<char>,
    pub prefix: Seq<char>,
}

impl View for PutObject {
    type V = PutObjectView;

    open spec fn view(&self) -> PutObjectView {
        PutObjectView { bucket: self.bucket@, key: self.key@, prefix: self.prefix@ }
    }
}

/// What a reply holds: what was asked for, or the message of the error.
pub open spec fn reply_view<T: DeepView>(reply: Result<T, String>) -> Result<T::V, Seq<char>> {
    match reply {
        Ok(value) => Ok(value.deep_view()),
        Err(message) => Err(message@),
    }
}

} // verus!
