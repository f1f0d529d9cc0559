use vstd::prelude::*;

use crate::errors::ScelError;

verus! {

/// What decoding a byte sequence as strict UTF-16LE yields: the decoded text,
/// or nothing when the bytes are not well-formed UTF-16LE. The result depends
/// on the bytes alone.
pub uninterp spec fn utf16le_decode(b: Seq<u8>) -> Option<Seq<char>>;

/// Relies on the `encoding` crate's `UTF_16LE.decode` with the strict trap:
/// it returns the decoded text exactly when the bytes are well-formed
/// UTF-16LE, fails otherwise, and substitutes nothing.
#[verifier::external_body]
pub(crate) fn decode_utf16le(b: &[u8]) -> (r: Result<String, ScelError>)
    ensures
        match r {
            Ok(s) => utf16le_decode(b@) == Some(s@),
            Err(e) => e == ScelError::EncodingError && utf16le_decode(b@) is None,
        },
{
    match encoding::Encoding::decode(
        encoding::all::UTF_16LE,
        b,
        encoding::DecoderTrap::Strict,
    ) {
        Ok(s) => Ok(s),
        Err(_) => Err(ScelError::EncodingError),
    }
}

/// What `str::trim` leaves of a character sequence. The result depends on the
/// characters alone.
pub uninterp spec fn trim_of(s: Seq<char>) -> Seq<char>;

/// Relies on `str::trim`: it removes leading and trailing whitespace and
/// nothing else.
#[verifier::external_body]
pub(crate) fn trim_ends(s: &str) -> (r: &str)
    ensures
        r@ == trim_of(s@),
{
    s.trim()
}

} // verus!
