use mnist_training::batch::{batch_images, batch_with_labels};
use mnist_training::data::Mnist;
use mnist_training::scores::{argmax, ensure_finite_slice, Evaluation, NonFinite};
use mnist_training::{BATCH, CLASSES, IMAGE_PIXELS};

fn dataset(images: usize) -> Mnist {
    let pixels: Vec<u8> = (0..images * IMAGE_PIXELS).map(|i| (i / IMAGE_PIXELS) as u8).collect();
    let labels: Vec<u8> = (0..images).map(|i| (i % 10) as u8).collect();
    Mnist::new(pixels, labels)
}

fn bits(values: &[f32]) -> Vec<u32> {
    values.iter().map(|v| v.to_bits()).collect()
}

#[test]
fn batch_with_labels_follows_indices() {
    let d = dataset(5);
    let (images, labels) = batch_with_labels(&d, &[3, 0, 3]);
    assert_eq!(images.len(), 3 * IMAGE_PIXELS);
    assert!(images[..IMAGE_PIXELS].iter().all(|p| *p == 3));
    assert!(images[IMAGE_PIXELS..2 * IMAGE_PIXELS].iter().all(|p| *p == 0));
    assert!(images[2 * IMAGE_PIXELS..].iter().all(|p| *p == 3));
    assert_eq!(labels, vec![3i64, 0, 3]);
    let (empty_images, empty_labels) = batch_with_labels(&d, &[]);
    assert!(empty_images.is_empty() && empty_labels.is_empty());
}

#[test]
fn batch_images_takes_consecutive_images() {
    let d = dataset(BATCH + 3);
    let images = batch_images(&d, 2);
    assert_eq!(images.len(), BATCH * IMAGE_PIXELS);
    assert_eq!(images[0], 2);
    assert_eq!(images[BATCH * IMAGE_PIXELS - 1], (BATCH + 1) as u8);
}

#[test]
fn batch_images_equals_consecutive_batch_with_labels() {
    let d = dataset(BATCH + 5);
    let indices: Vec<usize> = (4..4 + BATCH).collect();
    assert_eq!(batch_images(&d, 4), batch_with_labels(&d, &indices).0);
}

#[test]
fn argmax_picks_greatest() {
    assert_eq!(argmax(&bits(&[0.1, 0.7, 0.2])), 1);
    assert_eq!(argmax(&bits(&[-3.0, -1.0, -2.0])), 1);
    assert_eq!(argmax(&bits(&[5.0])), 0);
}

#[test]
fn argmax_prefers_last_of_equal_values() {
    assert_eq!(argmax(&bits(&[1.0, 3.0, 3.0, 2.0])), 2);
}

#[test]
fn argmax_uses_total_order() {
    // -0.0 is below +0.0, and a positive NaN above infinity.
    assert_eq!(argmax(&bits(&[0.0, -0.0])), 0);
    assert_eq!(argmax(&bits(&[f32::INFINITY, f32::NAN, 1.0])), 1);
    assert_eq!(argmax(&bits(&[f32::NEG_INFINITY, -1.0e30])), 1);
}

#[test]
fn argmax_wraps_past_255() {
    let mut values = vec![0.0f32; 300];
    values[290] = 1.0;
    assert_eq!(argmax(&bits(&values)), (290 % 256) as u8);
}

#[test]
fn ensure_finite_slice_reports_first_bad_value() {
    assert_eq!(ensure_finite_slice(&bits(&[0.0, -2.5, f32::MAX])), Ok(()));
    assert_eq!(
        ensure_finite_slice(&bits(&[1.0, f32::INFINITY, f32::NAN])),
        Err(NonFinite { index: 1, bits: f32::INFINITY.to_bits() })
    );
    let nan = f32::NAN.to_bits();
    assert_eq!(ensure_finite_slice(&[nan]), Err(NonFinite { index: 0, bits: nan }));
    assert_eq!(ensure_finite_slice(&[]), Ok(()));
}

fn logits_for(predictions: &[usize]) -> Vec<u32> {
    let mut out = vec![0.0f32; BATCH * CLASSES];
    for (row, class) in predictions.iter().enumerate() {
        out[row * CLASSES + class] = 1.0;
    }
    bits(&out)
}

#[test]
fn evaluation_counts_right_predictions() {
    let d = dataset(2 * BATCH + 10);
    let mut eval = Evaluation::new(5, d.len());
    assert_eq!(eval.next_batch(), Some(0));
    // Predict the right class for every example of the first batch.
    let right: Vec<usize> = (0..BATCH).map(|i| i % 10).collect();
    eval.record_batch(&logits_for(&right), &d);
    assert_eq!((eval.correct(), eval.total()), (BATCH, BATCH));
    assert_eq!(eval.next_batch(), Some(BATCH));
    // Predict class 0 throughout the second batch: right where the label is 0.
    eval.record_batch(&logits_for(&vec![0; BATCH]), &d);
    let zeros = (BATCH..2 * BATCH).filter(|i| i % 10 == 0).count();
    assert_eq!(eval.correct(), BATCH + zeros);
    assert_eq!(eval.total(), 2 * BATCH);
    // The last partial batch is skipped.
    assert_eq!(eval.next_batch(), None);
}

#[test]
fn evaluation_batch_count_is_capped() {
    let eval = Evaluation::new(1, 10 * BATCH);
    assert_eq!(eval.next_batch(), Some(0));
    let empty = Evaluation::new(3, BATCH - 1);
    assert_eq!(empty.next_batch(), None);
    assert_eq!(empty.total(), 0);
}
