//! Decompression of the gzip archives in which MNIST is distributed.

use vstd::prelude::*;

verus! {

/// The bytes that decoding the first gzip member of `data` yields, or `None`
/// where `data` does not start with a whole, valid gzip member.
pub uninterp spec fn gzip_member(data: Seq<u8>) -> Option<Seq<u8>>;

/// The little-endian 32-bit word in the four bytes of `bytes` from `offset`.
pub open spec fn le_word(bytes: Seq<u8>, offset: int) -> int {
    bytes[offset] + bytes[offset + 1] * 0x100 + bytes[offset + 2] * 0x1_0000 + bytes[offset + 3]
        * 0x100_0000
}

/// Whether `data` starts with the identification bytes of a gzip member
/// (0x1f, 0x8b) and the deflate method (8), and is long enough to hold the
/// 10-byte header and the 8-byte trailer.
pub open spec fn starts_gzip_member(data: Seq<u8>) -> bool {
    &&& data.len() >= 18
    &&& data[0] == 0x1f
    &&& data[1] == 0x8b
    &&& data[2] == 8
}

/// Whether the first member of `data` ends at some `end` (after its header,
/// within `data`) whose trailer's size field, ISIZE, is `n` modulo 2^32: the
/// member unpacks to `n` bytes, as RFC 1952 has it. For an archive of one
/// member and nothing after it, `end` is the length of `data`.
pub open spec fn trailer_size_matches(data: Seq<u8>, n: nat) -> bool {
    exists|end: int|
        18 <= end <= data.len() && #[trigger] le_word(data, end - 4) == n % 0x1_0000_0000
}

/// Runs `flate2::read::GzDecoder` over `data` to the end of its first gzip
/// member. The contract claims only that the outcome is a function of the
/// input bytes: the decoded bytes, or `None` where the decoder reports an
/// error (bad header, corrupt deflate data, checksum or size mismatch).
/// Where it succeeds, the decoder has checked the header's identification
/// and method bytes, and compared the number of bytes it produced, modulo
/// 2^32, with the size field of the member's trailer (`GzState::Finished` in
/// flate2's `gz/bufread.rs`, `GzHeaderParser::parse` in `gz/mod.rs`); the
/// contract states those two checks. It leaves the CRC-32 comparison unsaid.
#[verifier::external_body]
fn decode_first_member(data: &[u8]) -> (res: Option<Vec<u8>>)
    ensures
        match res {
            Some(out) => gzip_member(data@) == Some(out@) && starts_gzip_member(data@)
                && trailer_size_matches(data@, out@.len()),
            None => gzip_member(data@) is None,
        },
{
    let mut out = Vec::new();
    let mut decoder = flate2::read::GzDecoder::new(data);
    match std::io::Read::read_to_end(&mut decoder, &mut out) {
        Ok(_) => Some(out),
        Err(_) => None,
    }
}

/// Why a compressed archive could not be unpacked.
#[derive(Debug, Clone, Copy, PartialEq, Eq, Structural)]
pub enum GzipError {
    /// The bytes are not a valid gzip member.
    Corrupt,
}

/// Unpacks a gzip archive of one member, as the MNIST downloads are: on
/// success the archive starts with a gzip header and the unpacked bytes are
/// as many as its trailer announces.
pub fn gunzip(data: &[u8]) -> (res: Result<Vec<u8>, GzipError>)
    ensures
        match res {
            Ok(out) => gzip_member(data@) == Some(out@) && starts_gzip_member(data@)
                && trailer_size_matches(data@, out@.len()),
            Err(e) => e == GzipError::Corrupt && gzip_member(data@) is None,
        },
{
    match decode_first_member(data) {
        Some(out) => Ok(out),
        None => Err(GzipError::Corrupt),
    }
}

} // verus!
