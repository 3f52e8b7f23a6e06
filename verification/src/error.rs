//! Renderer errors.
use vstd::prelude::*;
use crate::gpu::{GpuError, gpu_error_text};
use crate::text::{push_str, string_from_chars};

verus! {

#[derive(Debug)]
pub enum RendererError {
    NotInitialized,
    GpuError(GpuError),
    TextureLoad(String),
}

pub open spec fn renderer_error_text(e: RendererError) -> Seq<char> {
    match e {
        RendererError::NotInitialized => "GPU pipeline not initialized"@,
        RendererError::GpuError(g) => "GPU error: "@ + gpu_error_text(g),
        RendererError::TextureLoad(s) => "Texture load failed: "@ + s@,
    }
}

impl RendererError {
    /// The error's message.
    pub fn message(&self) -> (m: String)
        ensures
            m@ == renderer_error_text(*self),
    {
        match self {
            RendererError::NotInitialized => String::from_str("GPU pipeline not initialized"),
            RendererError::GpuError(e) => {
                let inner = e.message();
                let mut out: Vec<char> = Vec::new();
                push_str(&mut out, "GPU error: ");
                push_str(&mut out, inner.as_str());
                string_from_chars(&out)
            },
            RendererError::TextureLoad(s) => {
                let mut out: Vec<char> = Vec::new();
                push_str(&mut out, "Texture load failed: ");
                push_str(&mut out, s.as_str());
                string_from_chars(&out)
            },
        }
    }
}

impl From<GpuError> for RendererError {
    fn from(e: GpuError) -> (r: Self) {
        RendererError::GpuError(e)
    }
}

impl vstd::std_specs::convert::FromSpecImpl<GpuError> for RendererError {
    open spec fn obeys_from_spec() -> bool {
        true
    }

    open spec fn from_spec(e: GpuError) -> Self {
        RendererError::GpuError(e)
    }
}

} // verus!
