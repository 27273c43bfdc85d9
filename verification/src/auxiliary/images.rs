//! Generation and edits of images. What holds a prompt, an image or its address cannot be printed.
use crate::provider_extension::ProviderExtension;
use vstd::prelude::*;

verus! {

#[derive(Clone, PartialEq, Eq)]
pub struct ImageGenerationRequest {
    pub prompt: String,
    pub background: Option<ImageBackground>,
    pub model: String,
    pub n: Option<u64>,
    pub quality: Option<ImageQuality>,
    pub size: Option<String>,
    pub output_format: Option<String>,
}

#[derive(Clone, PartialEq, Eq)]
pub struct ImageEditRequest {
    pub images: Vec<ImageUrl>,
    pub mask: Option<ImageUrl>,
    pub prompt: String,
    pub background: Option<ImageBackground>,
    pub model: String,
    pub n: Option<u64>,
    pub quality: Option<ImageQuality>,
    pub size: Option<String>,
    pub output_format: Option<String>,
}

#[derive(Clone, PartialEq, Eq)]
pub struct ImageUrl {
    pub image_url: String,
}

#[derive(Debug, Clone, Copy, PartialEq, Eq, Structural)]
pub enum ImageBackground {
    Transparent,
    Opaque,
    Auto,
}

#[derive(Debug, Clone, Copy, PartialEq, Eq, Structural)]
pub enum ImageQuality {
    Low,
    Medium,
    High,
    Auto,
}

#[derive(Clone, PartialEq, Eq)]
pub struct ImageData {
    pub b64_json: Option<String>,
    pub url: Option<String>,
    pub revised_prompt: Option<String>,
}

#[derive(Clone, PartialEq, Eq)]
pub struct ImageResponse {
    pub created: u64,
    pub data: Vec<ImageData>,
    pub background: Option<ImageBackground>,
    pub quality: Option<ImageQuality>,
    pub size: Option<String>,
    pub output_format: Option<String>,
    pub metadata: ProviderExtension,
}

} // verus!
