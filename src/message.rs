//! The messages that pass between the stages.
use vstd::prelude::*;

verus! {

/// Tells the arbiter where its next unit of work comes from: one
/// `CopyToDestRequest` (`Copy`), or one element of every hash-result
/// stream (`Merge`).
#[derive(PartialEq, Eq, Structural, Clone, Copy, Debug)]
pub enum TransferRequest {
    Copy,
    Merge,
}

/// Request to hash the contents of one source file.
#[derive(Clone, Debug, PartialEq, Eq)]
pub struct HashRequest {
    pub sub_path: String,
    pub src_path: String,
}

/// The hash of one source file's contents, as lower-case hex.
#[derive(Clone, Debug, PartialEq, Eq)]
pub struct HashResult {
    pub sub_path: String,
    pub src_path: String,
    pub hash: String,
}

impl HashResult {
    /// A copy of this result.
    pub fn duplicate(&self) -> (r: HashResult)
        ensures
            r == *self,
    {
        HashResult {
            sub_path: self.sub_path.clone(),
            src_path: self.src_path.clone(),
            hash: self.hash.clone(),
        }
    }
}

/// Copy one source file, found alone at its sub-path, to every destination.
#[derive(Clone, Debug, PartialEq, Eq)]
pub struct CopyToDestRequest {
    pub sub_path: String,
    pub src_path: String,
}

/// Copy one source file to one destination file.
#[derive(Clone, Debug, PartialEq, Eq)]
pub struct CopyFileRequest {
    pub src_path: String,
    pub dest_path: String,
}

} // verus!
