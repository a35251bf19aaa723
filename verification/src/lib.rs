//! A verified join-fetch-crop pipeline for building a labeled image dataset.
//!
//! Four comma-separated annotation sources — a label vocabulary, per-image
//! category assignments, per-image bounding boxes, and image URLs — are
//! joined by image identifier; the qualifying images are fetched under a
//! bounded concurrency window, decoded, and each sufficiently confident
//! bounding-box region is cropped out for writing under a per-label
//! directory.

pub mod boxes;
pub mod categories;
pub mod codec;
pub mod crop;
pub mod fetch;
pub mod fixed;
pub mod labels;
pub mod rows;
pub mod urls;
pub mod window;

use vstd::prelude::*;

verus! {

} // verus!
