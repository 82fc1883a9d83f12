use vstd::prelude::*;
use vstd::string::*;
use crate::error::BucketListError;

verus! {

/// The directory that holds the list: `.bucketlist` under the home directory.
///
/// Fails with `HomeDir` exactly where no home directory is given.
pub fn get_bucketlist_dir(home: Option<String>) -> (res: Result<String, BucketListError>)
    ensures
        match home {
            Some(h) => res is Ok && res->Ok_0@ == h@ + "/.bucketlist"@,
            None => res == Err::<String, BucketListError>(BucketListError::HomeDir),
        },
{
    match home {
        Some(h) => Ok(h.concat("/.bucketlist")),
        None => Err(BucketListError::HomeDir),
    }
}

/// The data file inside the directory `dir`.
pub fn data_file_path(dir: &String) -> (path: String)
    ensures
        path@ == dir@ + "/data.json"@,
{
    dir.clone().concat("/data.json")
}

} // verus!
