//! The bodies of the runtime API's requests.

use vstd::prelude::*;
use crate::model::LoadOptions;
use crate::text::string_from;

verus! {

/// Load a registered model into a backend.
pub struct LoadModelRequest {
    pub model_id: String,
    pub backend: String,
    pub context_length: Option<u32>,
    pub gpu_layers: Option<i32>,
}

/// The backend a load uses when the request names none.
pub fn default_backend() -> (r: String)
    ensures
        r@ == "mock"@,
{
    string_from("mock")
}

impl LoadModelRequest {
    /// The options the model is loaded with.
    pub fn load_options(&self) -> (r: LoadOptions)
        ensures
            r.context_length == self.context_length,
            r.gpu_layers == self.gpu_layers,
    {
        LoadOptions { context_length: self.context_length, gpu_layers: self.gpu_layers }
    }
}

/// Unload a loaded model.
pub struct UnloadModelRequest {
    pub model_id: String,
}

/// Forget a registered model, and with `delete_file` remove its file too.
pub struct DeleteModelRequest {
    pub model_id: String,
    pub delete_file: bool,
}

/// Search Hugging Face for GGUF models.
pub struct HuggingFaceSearchQuery {
    pub query: String,
    pub limit: Option<usize>,
}

/// Download one file of a Hugging Face repository.
pub struct HuggingFaceDownloadRequest {
    pub repo: String,
    pub filename: String,
    pub model_id: Option<String>,
    pub size_bytes: Option<u64>,
    pub token: Option<String>,
    pub use_env_token: bool,
}

/// Check a Hugging Face token, and optionally its access to one file.
pub struct HuggingFaceAuthCheckRequest {
    pub token: Option<String>,
    pub repo: Option<String>,
    pub filename: Option<String>,
    pub use_env_token: bool,
}

/// Select a download by its id, or by repository and file name.
pub struct CancelDownloadRequest {
    pub job_id: Option<String>,
    pub repo: Option<String>,
    pub filename: Option<String>,
}

/// Show a model file in the system's file manager.
pub struct RevealModelPathRequest {
    pub path: String,
}

/// A chat message in the OpenAI format.
pub struct OpenAiMessage {
    pub role: String,
    pub content: String,
}

/// A required text field: its trimmed value, or `None` when that is empty.
pub fn required_trimmed(value: &str) -> (r: Option<String>)
    ensures
        crate::text::space_trim(value@).len() > 0 ==> crate::model::opt_view(r) == Some(
            crate::text::space_trim(value@),
        ),
        crate::text::space_trim(value@).len() == 0 ==> r is None,
{
    let t = crate::text::trim_string(value, &crate::text::Strip::Space);
    if t.as_str().is_empty() {
        None
    } else {
        Some(t)
    }
}

} // verus!
