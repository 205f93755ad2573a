//! Media types read off the first bytes of a file, by the `infer` crate.

use vstd::prelude::*;

verus! {

/// The media type that `infer::get` finds for `content`, if it finds one.
pub uninterp spec fn sniffed_mime(content: Seq<u8>) -> Option<Seq<char>>;

/// Calls `infer::get` and takes the media type of what it found. The contract
/// only names the result: it is a function of `content` alone.
#[verifier::external_body]
pub(crate) fn sniff_mime(content: &[u8]) -> (r: Option<&'static str>)
    ensures
        match r {
            Some(m) => sniffed_mime(content@) == Some(m@),
            None => sniffed_mime(content@) is None,
        },
{
    match infer::get(content) {
        Some(kind) => Some(kind.mime_type()),
        None => None,
    }
}

} // verus!
