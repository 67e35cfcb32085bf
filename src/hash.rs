//! Content hashes: SHA-256, written as lower-case hex.
use crate::common::ThreadRunContext;
use crate::message::HashRequest;
use crate::message::HashResult;
use sha2::Digest;
use vstd::prelude::*;

verus! {

/// The SHA-256 digest of `data`, as 64 lower-case hex digits.
pub uninterp spec fn sha256_hex(data: Seq<u8>) -> Seq<char>;

/// Every character is a lower-case hex digit.
pub open spec fn is_lower_hex(s: Seq<char>) -> bool {
    forall|i: int| 0 <= i < s.len() ==> ('0' <= #[trigger] s[i] <= '9' || 'a' <= s[i] <= 'f')
}

/// Relies on `sha2::Sha256::digest` for the 32-byte digest, and on
/// generic-array's `LowerHex`, which writes each byte as two lower-case
/// hex digits.
#[verifier::external_body]
fn sha256_lower_hex(data: &[u8]) -> (r: String)
    ensures
        r@ == sha256_hex(data@),
        r@.len() == 64,
        is_lower_hex(r@),
{
    format!("{:x}", sha2::Sha256::digest(data))
}

/// The content hash of `data`.
pub fn hash_bytes(data: &[u8]) -> (r: String)
    ensures
        r@ == sha256_hex(data@),
        r@.len() == 64,
        is_lower_hex(r@),
{
    sha256_lower_hex(data)
}

/// Answers one element of a hash-request stream. A placeholder (`None`)
/// is answered by a placeholder. A request is answered by its file's hash,
/// given the file's `contents`; where they could not be read (`None`), the
/// run is shut down uncleanly and nothing is answered.
pub fn handle_hash_req(
    thread_run_ctx: &ThreadRunContext,
    option_hash_req: Option<HashRequest>,
    contents: Option<&[u8]>,
) -> (r: Option<HashResult>)
    ensures
        match option_hash_req {
            Some(req) => match contents {
                Some(c) => r == Some(
                    HashResult { sub_path: req.sub_path, src_path: req.src_path, hash: r->0.hash },
                ) && r->0.hash@ == sha256_hex(c@),
                None => r is None,
            },
            None => r is None,
        },
{
    match option_hash_req {
        Some(req) => match contents {
            Some(c) => {
                let hash = hash_bytes(c);
                Some(HashResult { sub_path: req.sub_path, src_path: req.src_path, hash })
            },
            None => {
                thread_run_ctx.unclean_shutdown();
                None
            },
        },
        None => None,
    }
}

} // verus!
