//! Verified data handling for training a fixed-shape MNIST classifier:
//! IDX file decoding, dataset access and batching, prediction scoring,
//! the training loop's schedule and the shuffling random source.

use vstd::prelude::*;

pub mod batch;
pub mod data;
pub mod gzip;
pub mod idx;
pub mod schedule;
pub mod scores;
pub mod sgd;

pub use batch::{batch_images, batch_with_labels};
pub use scores::{argmax, ensure_finite_slice};

verus! {

/// Examples in one training or evaluation batch.
pub const BATCH: usize = 64;

/// Rows of one MNIST image.
pub const IMAGE_ROWS: usize = 28;

/// Columns of one MNIST image.
pub const IMAGE_COLS: usize = 28;

/// Pixels of one MNIST image: `IMAGE_ROWS` times `IMAGE_COLS`.
pub const IMAGE_PIXELS: usize = 784;

/// Width of each hidden layer of the classifier.
pub const HIDDEN: usize = 256;

/// Number of digit classes.
pub const CLASSES: usize = 10;

} // verus!
