//! Probing and merging of media-playlist manifests: the decisions that turn
//! probe results into quality samples, and the reduction that keeps the best
//! sample per stream URL in one synthetic master playlist.
pub mod error;
pub mod sample;
pub mod merge;
pub mod manifest;
pub mod pipeline;
