//! Choosing the local file that is to be uploaded.
use vstd::prelude::*;

verus! {

/// What the file picker is asked for.
pub struct PickOptions {
    pub files: bool,
    pub directories: bool,
    pub multiple: bool,
    pub prompt: String,
}

/// One file is to be chosen for an upload.
pub fn upload_prompt() -> (res: PickOptions)
    ensures
        res.files,
        !res.directories,
        !res.multiple,
        res.prompt@ == "Choose a file to upload"@,
{
    PickOptions {
        files: true,
        directories: false,
        multiple: false,
        prompt: "Choose a file to upload".to_owned(),
    }
}

/// The file that was picked, the first one if there are more; none if the picker went away,
/// failed or was cancelled.
pub fn picked_file<T, E, F>(reply: Result<Result<Option<Vec<T>>, E>, F>) -> (res: Option<T>)
    ensures
        match reply {
            Ok(Ok(Some(paths))) => if paths@.len() > 0 {
                res == Some(paths@[0])
            } else {
                res is None
            },
            _ => res is None,
        },
{
    match reply {
        Ok(Ok(Some(paths))) => {
            let mut paths = paths;
            if paths.len() > 0 {
                Some(paths.swap_remove(0))
            } else {
                None
            }
        },
        _ => None,
    }
}

} // verus!
