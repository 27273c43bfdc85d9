//! Uploads of files. Neither type can be printed: one holds the content of a file, the other an
//! address that opens it.
use vstd::prelude::*;

verus! {

#[derive(Clone, PartialEq, Eq)]
pub struct FileUploadRequest {
    pub file_name: String,
    pub file_size_bytes: u64,
    pub mime_type: Option<String>,
    pub contents: Vec<u8>,
}

#[derive(Clone, PartialEq, Eq)]
pub struct UploadedFile {
    pub file_id: String,
    pub uri: String,
    pub download_url: String,
    pub file_name: String,
    pub file_size_bytes: u64,
    pub mime_type: Option<String>,
}

} // verus!
