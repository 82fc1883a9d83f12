use vstd::prelude::*;

verus! {

/// What can go wrong while the list is loaded, changed or saved.
#[derive(Debug)]
pub enum BucketListError {
    /// No item of that name is on the list.
    NotFound(String),
    /// The home directory is unknown.
    HomeDir,
    /// The file system refused something.
    Io,
    /// The clock stands before the epoch.
    Time,
    /// The data file does not hold a list.
    Serde,
}

} // verus!
