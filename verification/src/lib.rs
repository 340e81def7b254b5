//! Verified core of a face detection and recognition service.
//!
//! Every quantity that the service measures is held as an integer count of
//! ten-thousandths: a coordinate of `10_000` is one pixel, a score of
//! `5_000` is one half, a time of `10_000` is one second. What the library
//! works out from such counts it works out exactly: the overlap of two
//! boxes is held as the two areas and compared by cross-multiplication, and
//! a similarity is the cosine itself, cut off or rounded up to the
//! ten-thousandth only at the end.
//!
//! The way of a face through the library: the detector's tensors are
//! decoded into candidates ([`anchors`], [`decoder`]), ordered by score
//! ([`ranking`]), thinned by non-maximum suppression ([`suppression`]) and
//! brought back to the pixels of the original image ([`rescale`]); the whole
//! is [`post_processing`]. A face is cut out and aligned by [`transforms`]
//! on a [`raster`], embeddings are compared by [`utils`] and read out of
//! tensors by [`search`], and [`video`] finds the spans of a video in which
//! a face is present, one video at a time ([`slot`]). What these spans tell
//! is proved in [`runs`].
pub mod anchors;
pub mod config;
pub mod decoder;
pub mod errors;
pub mod facial_processing;
pub mod fixed;
pub mod models;
pub mod post_processing;
pub mod ranking;
pub mod raster;
pub mod rescale;
pub mod runs;
pub mod schemas;
pub mod search;
pub mod slot;
pub mod suppression;
pub mod transforms;
pub mod utils;
pub mod video;
