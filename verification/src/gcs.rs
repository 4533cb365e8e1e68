//! The cloud storage bucket that G-code files are downloaded from; a
//! download is read back through a `VecReader`.
use vstd::prelude::*;

verus! {

/// Access to the files of the bucket; listing and downloading are the
/// program's I/O.
pub struct Storage;

} // verus!
