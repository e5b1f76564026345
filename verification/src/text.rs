//! Bytes as text.

use vstd::prelude::*;
use vstd::string::StringSliceAdditionalSpecFns;
use vstd::utf8::{encode_utf8, valid_utf8};

verus! {

/// `core::str::Utf8Error`: what `core::str::from_utf8` says of bytes that
/// are no text. It is only ever dropped.
#[verifier::external_type_specification]
#[verifier::external_body]
pub struct ExUtf8Error(core::str::Utf8Error);

/// `core::str::from_utf8` succeeds exactly on valid UTF-8, and the text it
/// hands back is made of the very bytes it was given.
pub assume_specification[ core::str::from_utf8 ](v: &[u8]) -> (r: Result<
    &str,
    core::str::Utf8Error,
>)
    ensures
        r is Ok <==> valid_utf8(v@),
        r matches Ok(s) ==> s.spec_bytes() == v@,
;

/// The bytes that `text` takes on the wire: its UTF-8 encoding.
pub open spec fn wire(text: Seq<char>) -> Seq<u8> {
    encode_utf8(text)
}

/// Appends the bytes of `text` to `buf`.
pub fn push_text(buf: &mut Vec<u8>, text: &str)
    ensures
        final(buf)@ == old(buf)@ + wire(text@),
{
    let ghost before = buf@;
    buf.extend_from_slice(text.as_bytes());
    assert(buf@ =~= before + wire(text@));
}

/// Whether two runs of bytes are the same.
pub fn same_bytes(a: &[u8], b: &[u8]) -> (same: bool)
    ensures
        same == (a@ == b@),
{
    if a.len() != b.len() {
        return false;
    }
    let mut i: usize = 0;
    while i < a.len()
        invariant
            i <= a@.len(),
            a@.len() == b@.len(),
            forall|j: int| 0 <= j < i ==> a@[j] == b@[j],
        decreases a@.len() - i,
    {
        if a[i] != b[i] {
            return false;
        }
        i = i + 1;
    }
    assert(a@ =~= b@);
    true
}

/// Whether `bytes` are exactly the bytes of `text`.
pub fn spells(bytes: &[u8], text: &str) -> (same: bool)
    ensures
        same == (bytes@ == wire(text@)),
{
    same_bytes(bytes, text.as_bytes())
}

} // verus!
