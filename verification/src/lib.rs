//! Core logic of a self-hosted picture browser: path sandboxing, file
//! sniffing, listings and image scans, tag and star filters with their
//! metadata index, ratings and tags in image metadata, rotation and export
//! of images, the explorer's selection state, and the decisions of the
//! viewer and the file operations.

pub mod text;
pub mod path;
pub mod sniff;
pub mod filter;
pub mod sandbox;
pub mod structure;
pub mod explorer;
pub mod laws;
pub mod batch;
pub mod export;
pub mod rating;
pub mod index;
pub mod media;
pub mod list;
pub mod viewer;
pub mod ops;
pub mod textfile;
pub mod exif;
pub mod imaging;
pub mod actions;
pub mod downloads;
pub mod editor;
pub mod filter_bar;
pub mod tag_laws;
