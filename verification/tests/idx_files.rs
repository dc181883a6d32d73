use std::io::Write;

use mnist_training::data::Mnist;
use mnist_training::gzip::{gunzip, GzipError};
use mnist_training::idx::{read_images, read_labels, read_u32, IdxError};
use mnist_training::IMAGE_PIXELS;

fn header(words: &[u32]) -> Vec<u8> {
    let mut out = Vec::new();
    for w in words {
        out.extend_from_slice(&w.to_be_bytes());
    }
    out
}

fn image_file(count: u32, rows: u32, cols: u32, payload: &[u8]) -> Vec<u8> {
    let mut out = header(&[2051, count, rows, cols]);
    out.extend_from_slice(payload);
    out
}

fn label_file(count: u32, payload: &[u8]) -> Vec<u8> {
    let mut out = header(&[2049, count]);
    out.extend_from_slice(payload);
    out
}

#[test]
fn read_u32_is_big_endian() {
    assert_eq!(read_u32(&[0x00, 0x00, 0x08, 0x03], 0), Ok(2051));
    assert_eq!(read_u32(&[0xff, 0x12, 0x34, 0x56, 0x78], 1), Ok(0x1234_5678));
    assert_eq!(read_u32(&[0xde, 0xad, 0xbe, 0xef], 0), Ok(0xdead_beef));
}

#[test]
fn read_u32_reports_truncation_offset() {
    assert_eq!(read_u32(&[1, 2, 3], 0), Err(IdxError::TruncatedHeader { offset: 0 }));
    assert_eq!(read_u32(&[1, 2, 3, 4, 5, 6, 7], 4), Err(IdxError::TruncatedHeader { offset: 4 }));
    assert_eq!(read_u32(&[], 12), Err(IdxError::TruncatedHeader { offset: 12 }));
}

#[test]
fn read_images_returns_pixels() {
    let payload: Vec<u8> = (0..2 * IMAGE_PIXELS).map(|i| (i % 256) as u8).collect();
    let file = image_file(2, 28, 28, &payload);
    assert_eq!(read_images(&file), Ok(payload));
    assert_eq!(read_images(&image_file(0, 28, 28, &[])), Ok(vec![]));
}

#[test]
fn read_images_rejects_wrong_magic() {
    let file = label_file(1, &[3]);
    assert_eq!(read_images(&file), Err(IdxError::NotImageFile));
}

#[test]
fn read_images_rejects_other_shapes() {
    let file = image_file(1, 28, 27, &[0; 756]);
    assert_eq!(read_images(&file), Err(IdxError::ImageShape { rows: 28, cols: 27 }));
}

#[test]
fn read_images_rejects_wrong_length() {
    let file = image_file(2, 28, 28, &[0; 784]);
    assert_eq!(
        read_images(&file),
        Err(IdxError::WrongLength { actual: 800, expected: 16 + 2 * 784 })
    );
}

#[test]
fn read_images_reports_truncated_headers_in_order() {
    assert_eq!(read_images(&[0, 0]), Err(IdxError::TruncatedHeader { offset: 0 }));
    assert_eq!(read_images(&header(&[2051])), Err(IdxError::TruncatedHeader { offset: 4 }));
    assert_eq!(read_images(&header(&[2051, 1])), Err(IdxError::TruncatedHeader { offset: 8 }));
    assert_eq!(
        read_images(&header(&[2051, 1, 28])),
        Err(IdxError::TruncatedHeader { offset: 12 })
    );
    // The magic number is checked before the rest of the header is read.
    assert_eq!(read_images(&header(&[7])), Err(IdxError::NotImageFile));
}

#[test]
fn read_labels_returns_labels() {
    let file = label_file(3, &[7, 2, 1]);
    assert_eq!(read_labels(&file), Ok(vec![7, 2, 1]));
}

#[test]
fn read_labels_errors() {
    assert_eq!(read_labels(&[1]), Err(IdxError::TruncatedHeader { offset: 0 }));
    assert_eq!(read_labels(&header(&[2051, 1])), Err(IdxError::NotLabelFile));
    assert_eq!(read_labels(&header(&[2049])), Err(IdxError::TruncatedHeader { offset: 4 }));
    assert_eq!(
        read_labels(&label_file(4, &[1, 2])),
        Err(IdxError::WrongLength { actual: 10, expected: 12 })
    );
}

#[test]
fn mnist_from_decoded_files() {
    let payload: Vec<u8> = (0..2 * IMAGE_PIXELS).map(|i| (i / 7 % 256) as u8).collect();
    let images = read_images(&image_file(2, 28, 28, &payload)).unwrap();
    let labels = read_labels(&label_file(2, &[5, 9])).unwrap();
    let d = Mnist::new(images, labels);
    assert_eq!(d.len(), 2);
    assert_eq!(d.image_count(), 2);
    assert_eq!(d.image(1), &payload[IMAGE_PIXELS..]);
    assert_eq!(d.image(0), &payload[..IMAGE_PIXELS]);
    assert_eq!(d.label(0), 5);
    assert_eq!(d.label(1), 9);
}

#[test]
fn gunzip_unpacks_a_member() {
    let original = label_file(3, &[1, 2, 3]);
    let mut encoder = flate2::write::GzEncoder::new(Vec::new(), flate2::Compression::default());
    encoder.write_all(&original).unwrap();
    let packed = encoder.finish().unwrap();
    assert_ne!(packed, original);
    assert_eq!(gunzip(&packed), Ok(original));
}

#[test]
fn gunzip_rejects_corrupt_data() {
    assert_eq!(gunzip(b"not a gzip stream"), Err(GzipError::Corrupt));
    assert_eq!(gunzip(&[]), Err(GzipError::Corrupt));
}
