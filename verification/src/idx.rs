//! Decoding of the IDX files in which MNIST ships its images and labels.
//!
//! An IDX file starts with big-endian 32-bit header words: a magic number,
//! the item count and, for images, the row and column counts. The payload
//! follows the header, one byte per pixel or label.

use vstd::prelude::*;

use crate::{IMAGE_COLS, IMAGE_PIXELS, IMAGE_ROWS};

verus! {

/// Magic number of an IDX file of unsigned-byte images (three dimensions).
pub const IMAGE_MAGIC: u32 = 2051;

/// Magic number of an IDX file of unsigned-byte labels (one dimension).
pub const LABEL_MAGIC: u32 = 2049;

/// Bytes in the header of an image file.
pub const IMAGE_HEADER_LEN: usize = 16;

/// Bytes in the header of a label file.
pub const LABEL_HEADER_LEN: usize = 8;

/// Why bytes were refused as an IDX file.
#[derive(Debug, Clone, Copy, PartialEq, Eq, Structural)]
pub enum IdxError {
    /// The header word at `offset` runs past the end of the bytes.
    TruncatedHeader { offset: usize },
    /// The magic number is not that of an image file.
    NotImageFile,
    /// The magic number is not that of a label file.
    NotLabelFile,
    /// The images are not 28 by 28 pixels.
    ImageShape { rows: u32, cols: u32 },
    /// The byte count disagrees with the count that the header announces.
    WrongLength { actual: usize, expected: u64 },
}

/// The big-endian 32-bit word in the four bytes of `bytes` from `offset`.
pub open spec fn be_word(bytes: Seq<u8>, offset: int) -> int {
    bytes[offset] * 0x100_0000 + bytes[offset + 1] * 0x1_0000 + bytes[offset + 2] * 0x100
        + bytes[offset + 3]
}

/// What reading the header word at `offset` gives.
pub open spec fn spec_read_u32(bytes: Seq<u8>, offset: int) -> Result<u32, IdxError> {
    if offset + 4 <= bytes.len() {
        Ok(be_word(bytes, offset) as u32)
    } else {
        Err(IdxError::TruncatedHeader { offset: offset as usize })
    }
}

/// What decoding `bytes` as an image file gives: the pixels of all images,
/// one byte each, image after image in row-major order.
pub open spec fn spec_read_images(bytes: Seq<u8>) -> Result<Seq<u8>, IdxError> {
    if bytes.len() < 4 {
        Err(IdxError::TruncatedHeader { offset: 0 })
    } else if be_word(bytes, 0) != IMAGE_MAGIC {
        Err(IdxError::NotImageFile)
    } else if bytes.len() < 8 {
        Err(IdxError::TruncatedHeader { offset: 4 })
    } else if bytes.len() < 12 {
        Err(IdxError::TruncatedHeader { offset: 8 })
    } else if bytes.len() < 16 {
        Err(IdxError::TruncatedHeader { offset: 12 })
    } else if be_word(bytes, 8) != IMAGE_ROWS || be_word(bytes, 12) != IMAGE_COLS {
        Err(
            IdxError::ImageShape {
                rows: be_word(bytes, 8) as u32,
                cols: be_word(bytes, 12) as u32,
            },
        )
    } else if bytes.len() != IMAGE_HEADER_LEN + be_word(bytes, 4) * IMAGE_PIXELS {
        Err(
            IdxError::WrongLength {
                actual: bytes.len() as usize,
                expected: (IMAGE_HEADER_LEN + be_word(bytes, 4) * IMAGE_PIXELS) as u64,
            },
        )
    } else {
        Ok(bytes.subrange(IMAGE_HEADER_LEN as int, bytes.len() as int))
    }
}

/// What decoding `bytes` as a label file gives: one byte per label.
pub open spec fn spec_read_labels(bytes: Seq<u8>) -> Result<Seq<u8>, IdxError> {
    if bytes.len() < 4 {
        Err(IdxError::TruncatedHeader { offset: 0 })
    } else if be_word(bytes, 0) != LABEL_MAGIC {
        Err(IdxError::NotLabelFile)
    } else if bytes.len() < 8 {
        Err(IdxError::TruncatedHeader { offset: 4 })
    } else if bytes.len() != LABEL_HEADER_LEN + be_word(bytes, 4) {
        Err(
            IdxError::WrongLength {
                actual: bytes.len() as usize,
                expected: (LABEL_HEADER_LEN + be_word(bytes, 4)) as u64,
            },
        )
    } else {
        Ok(bytes.subrange(LABEL_HEADER_LEN as int, bytes.len() as int))
    }
}

/// A decoded image file holds as many whole images as its header announces.
pub proof fn lemma_images_are_whole(bytes: Seq<u8>)
    ensures
        spec_read_images(bytes) matches Ok(pixels) ==> pixels.len() == be_word(bytes, 4)
            * IMAGE_PIXELS && pixels.len() % (IMAGE_PIXELS as nat) == 0,
{
}

/// A decoded label file holds as many labels as its header announces.
pub proof fn lemma_labels_counted(bytes: Seq<u8>)
    ensures
        spec_read_labels(bytes) matches Ok(labels) ==> labels.len() == be_word(bytes, 4),
{
}

/// Reads the big-endian header word at `offset`, or reports the header as
/// truncated there.
pub fn read_u32(bytes: &[u8], offset: usize) -> (res: Result<u32, IdxError>)
    requires
        offset + 4 <= usize::MAX,
    ensures
        res == spec_read_u32(bytes@, offset as int),
{
    let end = offset + 4;
    if end > bytes.len() {
        return Err(IdxError::TruncatedHeader { offset });
    }
    let b0 = bytes[offset] as u32;
    let b1 = bytes[offset + 1] as u32;
    let b2 = bytes[offset + 2] as u32;
    let b3 = bytes[offset + 3] as u32;
    Ok(b0 * 0x100_0000 + b1 * 0x1_0000 + b2 * 0x100 + b3)
}

/// Copies `bytes[start..]`.
fn tail_bytes(bytes: &[u8], start: usize) -> (res: Vec<u8>)
    requires
        start <= bytes@.len(),
    ensures
        res@ == bytes@.subrange(start as int, bytes@.len() as int),
{
    let mut out: Vec<u8> = Vec::with_capacity(bytes.len() - start);
    let mut i: usize = start;
    while i < bytes.len()
        invariant
            start <= i <= bytes@.len(),
            out@ == bytes@.subrange(start as int, i as int),
        decreases bytes@.len() - i,
    {
        out.push(bytes[i]);
        i = i + 1;
        assert(out@ =~= bytes@.subrange(start as int, i as int));
    }
    out
}

/// Decodes an IDX image file of 28-by-28 images into its pixel bytes.
pub fn read_images(bytes: &[u8]) -> (res: Result<Vec<u8>, IdxError>)
    ensures
        match res {
            Ok(pixels) => spec_read_images(bytes@) == Ok::<Seq<u8>, IdxError>(pixels@),
            Err(e) => spec_read_images(bytes@) == Err::<Seq<u8>, IdxError>(e),
        },
{
    let magic = match read_u32(bytes, 0) {
        Ok(v) => v,
        Err(e) => return Err(e),
    };
    if magic != IMAGE_MAGIC {
        return Err(IdxError::NotImageFile);
    }
    let count = match read_u32(bytes, 4) {
        Ok(v) => v,
        Err(e) => return Err(e),
    };
    let rows = match read_u32(bytes, 8) {
        Ok(v) => v,
        Err(e) => return Err(e),
    };
    let cols = match read_u32(bytes, 12) {
        Ok(v) => v,
        Err(e) => return Err(e),
    };
    if rows as usize != IMAGE_ROWS || cols as usize != IMAGE_COLS {
        return Err(IdxError::ImageShape { rows, cols });
    }
    let expected: u64 = IMAGE_HEADER_LEN as u64 + count as u64 * IMAGE_PIXELS as u64;
    if bytes.len() as u64 != expected {
        return Err(IdxError::WrongLength { actual: bytes.len(), expected });
    }
    Ok(tail_bytes(bytes, IMAGE_HEADER_LEN))
}

/// Decodes an IDX label file into its label bytes.
pub fn read_labels(bytes: &[u8]) -> (res: Result<Vec<u8>, IdxError>)
    ensures
        match res {
            Ok(labels) => spec_read_labels(bytes@) == Ok::<Seq<u8>, IdxError>(labels@),
            Err(e) => spec_read_labels(bytes@) == Err::<Seq<u8>, IdxError>(e),
        },
{
    let magic = match read_u32(bytes, 0) {
        Ok(v) => v,
        Err(e) => return Err(e),
    };
    if magic != LABEL_MAGIC {
        return Err(IdxError::NotLabelFile);
    }
    let count = match read_u32(bytes, 4) {
        Ok(v) => v,
        Err(e) => return Err(e),
    };
    let expected: u64 = LABEL_HEADER_LEN as u64 + count as u64;
    if bytes.len() as u64 != expected {
        return Err(IdxError::WrongLength { actual: bytes.len(), expected });
    }
    Ok(tail_bytes(bytes, LABEL_HEADER_LEN))
}

} // verus!
