//! Feature-vector encoding engine for a content-based media recommender.
//!
//! The library turns a sequence of media records, each carrying five
//! multi-valued categorical fields (genres, people, influences, countries,
//! languages), into a dense multi-hot feature matrix: one row per record, one
//! column per distinct label, the five categories occupying contiguous,
//! non-overlapping column slices in a fixed order. Alongside the matrix it
//! yields the record identifiers in input order and the genre vocabulary.

pub mod encoder;
pub mod matrix;
pub mod media;
pub mod service;
pub mod vocab;

pub use encoder::generate_feature_vectors;
pub use encoder::try_generate_feature_vectors;
pub use matrix::FeatureMatrix;
pub use media::Media;
pub use service::LibRateRecSvc;
