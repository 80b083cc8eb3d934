//! Image compression decision engine: pixel kernels, feature extraction,
//! format and quality policy, and a bounded target-size search.

pub mod error;
pub mod kernels;
pub mod raster;
pub mod features;
pub mod colors;
pub mod constraints;
pub mod policy;
pub mod search;
pub mod pool;
pub mod batch;
pub mod formats;
pub mod metadata;
pub mod codec;
