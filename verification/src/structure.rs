//! Entries of a directory listing and image lists.

use vstd::prelude::*;
use crate::path::{last_segment, last_segment_chars};
use crate::text::{chars_of, string_from_chars};

verus! {

/// One entry of a directory listing.
#[derive(Debug, PartialEq, Eq)]
pub struct FsEntry {
    pub name: String,
    pub path: String,
    pub is_dir: bool,
    pub is_image: bool,
    pub is_text: bool,
}

/// The image paths of a gallery, and whether the list was cut short.
#[derive(Debug, PartialEq, Eq)]
pub struct ImageList {
    pub truncated: bool,
    pub paths: Vec<String>,
}

impl FsEntry {
    /// The entry of an image file at a relative path: its name is the last
    /// path segment.
    pub fn image_from_path(path: String) -> (r: FsEntry)
        ensures
            r.name@ == last_segment(path@),
            r.path@ == path@,
            !r.is_dir,
            r.is_image,
            !r.is_text,
    {
        let n = last_segment_chars(chars_of(path.as_str()).as_slice());
        FsEntry {
            name: string_from_chars(n.as_slice()),
            path,
            is_dir: false,
            is_image: true,
            is_text: false,
        }
    }
}

} // verus!
