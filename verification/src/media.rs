//! Media variant bookkeeping for video files.
//!
//! Videos are served in one variant, under the file's own content type; the
//! actual transcoding runs outside this crate, and no processing options
//! exist yet, so asking for them is an error by contract.

use vstd::prelude::*;

verus! {

/// The variants a stored file can be served in.
#[derive(Clone, Copy, PartialEq, Eq, Structural)]
pub enum FileVariant {
    Main,
}

/// The stored metadata of one uploaded file.
pub struct FileDetails {
    pub id: String,
    pub name: String,
    pub content_type: String,
    pub size: u64,
}

impl Default for FileDetails {
    fn default() -> (r: Self)
        ensures
            r.id@.len() == 0,
            r.name@.len() == 0,
            r.content_type@.len() == 0,
            r.size == 0,
    {
        FileDetails { id: String::new(), name: String::new(), content_type: String::new(), size: 0 }
    }
}

/// Processing options of one video variant.
pub struct VideoOptions {
    pub width: String,
    pub format: String,
    pub content_type: String,
}

impl VideoOptions {
    /// The content type the processed variant is served under.
    pub fn content_type(&self) -> (r: String)
        ensures
            r@ == self.content_type@,
    {
        self.content_type.clone()
    }
}

/// The video pipeline's variant bookkeeping; the transcoding itself runs
/// outside this crate.
pub struct VideoProcessor;

impl VideoProcessor {
    /// Videos are kept in their main variant only.
    pub fn get_valid_variants_for_content_type(content_type: &str) -> (r: Vec<FileVariant>)
        ensures
            r@.len() == 1,
            r@[0] == FileVariant::Main,
    {
        let mut v: Vec<FileVariant> = Vec::new();
        v.push(FileVariant::Main);
        v
    }

    /// A video variant is served under the file's own content type.
    pub fn get_content_type_for_variant(file: &FileDetails, variant: &FileVariant) -> (r: String)
        ensures
            r@ == file.content_type@,
    {
        file.content_type.clone()
    }

    /// No video processing options exist yet: asking for them always fails.
    pub fn get_options_for_variant(file: &FileDetails, variant: &FileVariant) -> (r: Result<
        VideoOptions,
        String,
    >)
        ensures
            r is Err,
    {
        Err("video processing options are not available yet".to_owned())
    }
}

} // verus!
