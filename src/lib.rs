//! Metadata extraction from EBML containers (WebM, Matroska) over buffers
//! that may hold only a prefix of the file.
pub mod error;
pub mod element;
pub mod ids;
pub mod info;
pub mod partial_vec;
pub mod prefix;
pub mod seek;
pub mod timestamp;
pub mod tracks;
pub mod webm;
