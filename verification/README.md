# mnist_training

Trains a fixed-shape MNIST classifier (784 -> 256 -> 256 -> 10) whose
forward and gradient graphs run in `knok`'s engine.

- `src/` is the verified library: IDX decoding (`idx`), gzip unpacking
  (`gzip`, through `flate2`), the dataset and its batches (`data`, `batch`),
  scoring of logits given as `f32` bit patterns (`scores`), the training
  loop's schedule (`schedule`) and the SplitMix64 shuffler (`sgd`).
- `app/` holds the command-line trainer and, with the argument `gui`, the
  egui drawing app: file and network access, the `f32` model and its graph
  runs.
- `tests/` runs the library on concrete inputs.
