//! Model descriptors and the runtime's view of backends and loaded models.

use vstd::prelude::*;
use crate::stamps::{utc_now, Timestamp};
use crate::text::string_from;

verus! {

/// The file format of a model.
#[derive(Debug, Clone, Copy, PartialEq, Eq, Structural)]
pub enum ModelFormat {
    Gguf,
    Safetensors,
    Unknown,
}

/// What a model can be used for.
#[derive(Debug, Clone, Copy, PartialEq, Eq, Structural)]
pub enum ModelCapability {
    Chat,
    Completion,
    Embeddings,
    Tools,
}

pub open spec fn opt_view(s: Option<String>) -> Option<Seq<char>> {
    match s {
        Some(x) => Some(x@),
        None => None,
    }
}

/// The content of a `ModelFile`.
pub struct ModelFileView {
    pub filename: Seq<char>,
    pub path: Option<Seq<char>>,
    pub size_bytes: Option<u64>,
    pub sha256: Option<Seq<char>>,
}

/// One file belonging to a model.
pub struct ModelFile {
    pub filename: String,
    pub path: Option<String>,
    pub size_bytes: Option<u64>,
    pub sha256: Option<String>,
}

impl View for ModelFile {
    type V = ModelFileView;

    open spec fn view(&self) -> ModelFileView {
        ModelFileView {
            filename: self.filename@,
            path: opt_view(self.path),
            size_bytes: self.size_bytes,
            sha256: opt_view(self.sha256),
        }
    }
}

impl Clone for ModelFile {
    fn clone(&self) -> (r: Self)
        ensures
            r == *self,
    {
        ModelFile {
            filename: self.filename.clone(),
            path: clone_opt_string(&self.path),
            size_bytes: self.size_bytes,
            sha256: clone_opt_string(&self.sha256),
        }
    }
}

pub fn clone_opt_string(s: &Option<String>) -> (r: Option<String>)
    ensures
        r == *s,
{
    match s {
        Some(x) => Some(x.clone()),
        None => None,
    }
}

/// The content of a `ModelDescriptor`.
pub struct ModelDescriptorView {
    pub id: Seq<char>,
    pub name: Seq<char>,
    pub family: Option<Seq<char>>,
    pub source: Seq<char>,
    pub repo: Option<Seq<char>>,
    pub revision: Option<Seq<char>>,
    pub format: ModelFormat,
    pub quantization: Option<Seq<char>>,
    pub size_bytes: Option<u64>,
    pub context_length: Option<u32>,
    pub capabilities: Seq<ModelCapability>,
    pub files: Seq<ModelFileView>,
    pub local_path: Option<Seq<char>>,
    pub created_at: Timestamp,
    pub updated_at: Timestamp,
}

/// Everything the runtime knows about a model.
pub struct ModelDescriptor {
    pub id: String,
    pub name: String,
    pub family: Option<String>,
    pub source: String,
    pub repo: Option<String>,
    pub revision: Option<String>,
    pub format: ModelFormat,
    pub quantization: Option<String>,
    pub size_bytes: Option<u64>,
    pub context_length: Option<u32>,
    pub capabilities: Vec<ModelCapability>,
    pub files: Vec<ModelFile>,
    pub local_path: Option<String>,
    pub created_at: Timestamp,
    pub updated_at: Timestamp,
}

pub fn clone_files(v: &Vec<ModelFile>) -> (r: Vec<ModelFile>)
    ensures
        r@ == v@,
{
    let mut r: Vec<ModelFile> = Vec::new();
    let mut i: usize = 0;
    while i < v.len()
        invariant
            i <= v@.len(),
            r@ == v@.take(i as int),
        decreases v@.len() - i,
    {
        r.push(v[i].clone());
        assert(r@ =~= v@.take(i + 1));
        i += 1;
    }
    assert(v@.take(v@.len() as int) =~= v@);
    r
}

pub fn clone_capabilities(v: &Vec<ModelCapability>) -> (r: Vec<ModelCapability>)
    ensures
        r@ == v@,
{
    let mut r: Vec<ModelCapability> = Vec::new();
    let mut i: usize = 0;
    while i < v.len()
        invariant
            i <= v@.len(),
            r@ == v@.take(i as int),
        decreases v@.len() - i,
    {
        r.push(v[i]);
        assert(r@ =~= v@.take(i + 1));
        i += 1;
    }
    assert(v@.take(v@.len() as int) =~= v@);
    r
}

impl View for ModelDescriptor {
    type V = ModelDescriptorView;

    open spec fn view(&self) -> ModelDescriptorView {
        ModelDescriptorView {
            id: self.id@,
            name: self.name@,
            family: opt_view(self.family),
            source: self.source@,
            repo: opt_view(self.repo),
            revision: opt_view(self.revision),
            format: self.format,
            quantization: opt_view(self.quantization),
            size_bytes: self.size_bytes,
            context_length: self.context_length,
            capabilities: self.capabilities@,
            files: self.files@.map_values(|f: ModelFile| f@),
            local_path: opt_view(self.local_path),
            created_at: self.created_at,
            updated_at: self.updated_at,
        }
    }
}

impl Clone for ModelDescriptor {
    fn clone(&self) -> (r: Self)
        ensures
            r@ == self@,
    {
        ModelDescriptor {
            id: self.id.clone(),
            name: self.name.clone(),
            family: clone_opt_string(&self.family),
            source: self.source.clone(),
            repo: clone_opt_string(&self.repo),
            revision: clone_opt_string(&self.revision),
            format: self.format,
            quantization: clone_opt_string(&self.quantization),
            size_bytes: self.size_bytes,
            context_length: self.context_length,
            capabilities: clone_capabilities(&self.capabilities),
            files: clone_files(&self.files),
            local_path: clone_opt_string(&self.local_path),
            created_at: self.created_at,
            updated_at: self.updated_at,
        }
    }
}

/// The shape of a descriptor made by `local_gguf` for `id` and `path`.
pub open spec fn is_local_gguf(m: ModelDescriptorView, id: Seq<char>, path: Seq<char>) -> bool {
    &&& m.id == id
    &&& m.name == id
    &&& m.family is None
    &&& m.source == seq!['l', 'o', 'c', 'a', 'l']
    &&& m.repo is None
    &&& m.revision is None
    &&& m.format == ModelFormat::Gguf
    &&& m.quantization is None
    &&& m.size_bytes is None
    &&& m.context_length is None
    &&& m.capabilities == seq![ModelCapability::Chat, ModelCapability::Completion]
    &&& m.files == seq![
        ModelFileView { filename: path, path: Some(path), size_bytes: None, sha256: None },
    ]
    &&& m.local_path == Some(path)
    &&& m.created_at == m.updated_at
}

impl ModelDescriptor {
    /// A chat- and completion-capable GGUF model stored at `path`, named by
    /// its id and stamped with the current time.
    pub fn local_gguf(id: &str, path: &str) -> (m: ModelDescriptor)
        ensures
            is_local_gguf(m@, id@, path@),
    {
        let now = utc_now();
        let source_chars: Vec<char> = vec!['l', 'o', 'c', 'a', 'l'];
        assert(source_chars@ =~= seq!['l', 'o', 'c', 'a', 'l']);
        let mut capabilities: Vec<ModelCapability> = Vec::new();
        capabilities.push(ModelCapability::Chat);
        capabilities.push(ModelCapability::Completion);
        let mut files: Vec<ModelFile> = Vec::new();
        files.push(
            ModelFile {
                filename: string_from(path),
                path: Some(string_from(path)),
                size_bytes: None,
                sha256: None,
            },
        );
        let m = ModelDescriptor {
            id: string_from(id),
            name: string_from(id),
            family: None,
            source: crate::text::string_of(source_chars.as_slice()),
            repo: None,
            revision: None,
            format: ModelFormat::Gguf,
            quantization: None,
            size_bytes: None,
            context_length: None,
            capabilities,
            files,
            local_path: Some(string_from(path)),
            created_at: now,
            updated_at: now,
        };
        assert(m.capabilities@ =~= seq![ModelCapability::Chat, ModelCapability::Completion]);
        assert(m@.files =~= seq![
            ModelFileView { filename: path@, path: Some(path@), size_bytes: None, sha256: None },
        ]);
        m
    }
}

/// The progress of a download.
#[derive(Debug, Clone, Copy, PartialEq, Eq, Structural)]
pub enum DownloadState {
    Queued,
    Downloading,
    Paused,
    Downloaded,
    Error,
}

/// Options for loading a model into a backend.
#[derive(Debug, Clone, Copy, PartialEq, Eq, Structural)]
pub struct LoadOptions {
    pub context_length: Option<u32>,
    pub gpu_layers: Option<i32>,
}

/// The state of a model in a backend.
#[derive(Debug, Clone, Copy, PartialEq, Eq, Structural)]
pub enum LoadedModelStatus {
    Loading,
    Loaded,
    Unloading,
    Error,
}

/// A model held by a backend.
pub struct ModelHandle {
    pub id: String,
    pub backend: String,
    pub status: LoadedModelStatus,
}

/// The content of a `ModelHandle`.
pub struct ModelHandleView {
    pub id: Seq<char>,
    pub backend: Seq<char>,
    pub status: LoadedModelStatus,
}

impl View for ModelHandle {
    type V = ModelHandleView;

    open spec fn view(&self) -> ModelHandleView {
        ModelHandleView { id: self.id@, backend: self.backend@, status: self.status }
    }
}

impl Clone for ModelHandle {
    fn clone(&self) -> (r: Self)
        ensures
            r == *self,
    {
        ModelHandle { id: self.id.clone(), backend: self.backend.clone(), status: self.status }
    }
}

/// Whether a backend can be used, and why not.
pub struct BackendStatus {
    pub id: String,
    pub available: bool,
    pub binary_path: Option<String>,
    pub error: Option<String>,
}

/// The content of a `BackendStatus`.
pub struct BackendStatusView {
    pub id: Seq<char>,
    pub available: bool,
    pub binary_path: Option<Seq<char>>,
    pub error: Option<Seq<char>>,
}

impl View for BackendStatus {
    type V = BackendStatusView;

    open spec fn view(&self) -> BackendStatusView {
        BackendStatusView {
            id: self.id@,
            available: self.available,
            binary_path: opt_view(self.binary_path),
            error: opt_view(self.error),
        }
    }
}

impl Clone for BackendStatus {
    fn clone(&self) -> (r: Self)
        ensures
            r == *self,
    {
        BackendStatus {
            id: self.id.clone(),
            available: self.available,
            binary_path: clone_opt_string(&self.binary_path),
            error: clone_opt_string(&self.error),
        }
    }
}

} // verus!
