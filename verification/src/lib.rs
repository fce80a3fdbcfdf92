//! Merging of pixel-shift captures into one full-colour image.
//!
//! A pixel-shift series is a set of 4 or 16 raw captures of one scene, taken
//! with the sensor moved between the shots so that every point of the scene
//! is seen through every filter colour. The merge adds the samples up per
//! colour and needs no interpolation.

pub mod cfa;
pub mod error;
pub mod exif;
pub mod frame;
pub mod frame_set;
pub mod grid;
pub mod merge;
pub mod sequence;
