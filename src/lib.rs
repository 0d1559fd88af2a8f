//! Univariate linear regression by batch gradient descent: the verified core.
//!
//! The numeric work on floating-point values lives with the caller; this crate
//! holds the parts whose behaviour can be stated exactly: the text formats of
//! the dataset and of the stored model, the seeded train/test split, the
//! stopping rule of the fitting loop, and the lossless bit decomposition of a
//! double into a hashable key.
pub mod dataset;
pub mod error;
pub mod fit;
pub mod keyf64;
pub mod model;
pub mod ratio;
pub mod split;
pub mod text;
