//! Reading bytes from `std::io` readers: the calls that the frame and asset readers make.
use vstd::prelude::*;

verus! {

#[verifier::external_type_specification]
#[verifier::external_body]
pub struct ExIoError(std::io::Error);

/// `std::io::Read::read`: fills a prefix of `buf` and reports how many bytes it filled, never
/// more than `buf.len()`; zero means the end of the input. Which bytes arrive is not stated.
#[verifier::external_body]
pub(crate) fn read_some<R: std::io::Read>(reader: &mut R, buf: &mut Vec<u8>) -> (read: Result<
    usize,
    std::io::Error,
>)
    ensures
        final(buf)@.len() == old(buf)@.len(),
        read matches Ok(n) ==> n <= old(buf)@.len(),
{
    reader.read(buf.as_mut_slice())
}

/// `std::io::Read::read_exact`: fills all of `buf` or fails; the buffer keeps its length.
/// Which bytes arrive is not stated.
#[verifier::external_body]
pub(crate) fn read_exactly<R: std::io::Read>(reader: &mut R, buf: &mut Vec<u8>) -> (read: Result<
    (),
    std::io::Error,
>)
    ensures
        final(buf)@.len() == old(buf)@.len(),
{
    reader.read_exact(buf.as_mut_slice())
}

/// `std::io::Error::kind`, told apart for `UnexpectedEof`: the input ended before the buffer
/// was full. Nothing is stated of which errors have that kind.
#[verifier::external_body]
pub(crate) fn ended_early(error: &std::io::Error) -> (early: bool) {
    matches!(error.kind(), std::io::ErrorKind::UnexpectedEof)
}

/// The `Display` text of an I/O error. Its contents come from the platform and are not stated.
#[verifier::external_body]
pub(crate) fn error_text(error: &std::io::Error) -> (text: String) {
    format!("{error}")
}

} // verus!
