//! Configuration model and its normalization.
pub mod model;
pub mod normalize;
pub mod paths;
