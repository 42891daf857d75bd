use vstd::prelude::*;

verus! {

/// The MD5 digest of a byte sequence, written as 32 lowercase hexadecimal digits.
pub uninterp spec fn md5_hex(data: Seq<u8>) -> Seq<char>;

/// Calls `md5::compute` and renders the digest with its lower-hex formatter.
///
/// The digest is a function of the bytes alone; its hex rendering is sixteen
/// bytes at two digits each, so it is never empty.
#[verifier::external_body]
pub(crate) fn content_hash(data: &[u8]) -> (hash: String)
    ensures
        hash@ == md5_hex(data@),
        hash@.len() == 32,
{
    format!("{:x}", md5::compute(data))
}

} // verus!
