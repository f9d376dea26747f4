//! Managing registered models: registering a descriptor, finding the model of
//! a file, deleting a model, checking an imported file, and discovering the
//! GGUF files of the models directory.

use vstd::prelude::*;
use crate::keyed::views_of;
use crate::model::{
    clone_opt_string, opt_view, ModelDescriptor, ModelDescriptorView, ModelFile, ModelFileView,
};
use crate::paths::{absolute, absolute_path, is_gguf, is_gguf_path, path_starts_with, is_inside_models_root};
use crate::registry::{is_model_listing, ModelRegistry};
use crate::requests::DeleteModelRequest;
use crate::text::{lex_lt, push_str, str_eq, string_from};

verus! {

broadcast use vstd::string::group_string_axioms;

// ---------------------------------------------------------------------------
// The model of a file
// ---------------------------------------------------------------------------

/// The model's file is `path` (both made absolute against `cwd`).
pub open spec fn registered_at(m: ModelDescriptorView, cwd: Seq<char>, path: Seq<char>) -> bool {
    m.local_path matches Some(p) && absolute(cwd, p) == absolute(cwd, path)
}

/// The registered model whose file is `local_path`; of several, the one with
/// the smallest id.
pub fn find_model_by_local_path(registry: &ModelRegistry, local_path: &str, cwd: &str) -> (r:
    Option<ModelDescriptor>)
    requires
        registry.wf(),
    ensures
        r matches Some(m) ==> registry.models().contains_key(m@.id) && registry.models()[m@.id]
            == m@ && registered_at(m@, cwd@, local_path@) && forall|k: Seq<char>|
            #[trigger] registry.models().contains_key(k) && registered_at(
                registry.models()[k],
                cwd@,
                local_path@,
            ) ==> !lex_lt(k, m@.id),
        r is None ==> forall|k: Seq<char>| #[trigger]
            registry.models().contains_key(k) ==> !registered_at(
                registry.models()[k],
                cwd@,
                local_path@,
            ),
{
    let target = absolute_path(cwd, local_path);
    let list = registry.list_models();
    let ghost l = views_of(list@);
    let mut i: usize = 0;
    while i < list.len()
        invariant
            i <= list@.len(),
            l == views_of(list@),
            target@ == absolute(cwd@, local_path@),
            is_model_listing(l, registry.models()),
            forall|j: int| 0 <= j < i ==> !registered_at(l[j], cwd@, local_path@),
        decreases list@.len() - i,
    {
        let m = &list[i];
        assert(l[i as int] == m@);
        let found = match &m.local_path {
            Some(p) => {
                let a = absolute_path(cwd, p.as_str());
                str_eq(a.as_str(), target.as_str())
            },
            None => false,
        };
        if found {
            assert(registered_at(l[i as int], cwd@, local_path@));
            assert(registry.models().contains_key(l[i as int].id));
            proof {
                assert forall|k: Seq<char>|
                    #[trigger] registry.models().contains_key(k) && registered_at(
                        registry.models()[k],
                        cwd@,
                        local_path@,
                    ) implies !lex_lt(k, m@.id) by {
                    let j = choose|j: int| 0 <= j < l.len() && l[j].id == k;
                    if lex_lt(k, m@.id) {
                        if j > i {
                            assert(lex_lt(l[i as int].id, l[j].id));
                            crate::text::lemma_lex_asymmetric(k, m@.id);
                        } else if j == i {
                            crate::text::lemma_lex_irreflexive(k);
                        }
                    }
                }
            }
            return Some(m.clone());
        }
        i += 1;
    }
    proof {
        assert forall|k: Seq<char>| #[trigger] registry.models().contains_key(k) implies !registered_at(
            registry.models()[k],
            cwd@,
            local_path@,
        ) by {
            let j = choose|j: int| 0 <= j < l.len() && l[j].id == k;
        }
    }
    None
}

// ---------------------------------------------------------------------------
// Registering a descriptor
// ---------------------------------------------------------------------------

pub open spec fn absolute_opt(cwd: Seq<char>, p: Option<Seq<char>>) -> Option<Seq<char>> {
    match p {
        Some(x) => Some(absolute(cwd, x)),
        None => None,
    }
}

/// The descriptor with its model path and file paths made absolute.
pub open spec fn with_absolute_paths(m: ModelDescriptorView, cwd: Seq<char>) -> ModelDescriptorView {
    ModelDescriptorView {
        local_path: absolute_opt(cwd, m.local_path),
        files: Seq::new(
            m.files.len(),
            |i: int| ModelFileView { path: absolute_opt(cwd, m.files[i].path), ..m.files[i] },
        ),
        ..m
    }
}

fn absolute_opt_string(cwd: &str, p: &Option<String>) -> (r: Option<String>)
    ensures
        opt_view(r) == absolute_opt(cwd@, opt_view(*p)),
{
    match p {
        Some(x) => Some(absolute_path(cwd, x.as_str())),
        None => None,
    }
}

/// Makes the paths of a descriptor absolute against `cwd`.
pub fn absolutize_model_paths(model: ModelDescriptor, cwd: &str) -> (r: ModelDescriptor)
    ensures
        r@ == with_absolute_paths(model@, cwd@),
{
    let mut m = model;
    let ghost m0 = m@;
    m.local_path = absolute_opt_string(cwd, &m.local_path);
    let mut files: Vec<ModelFile> = Vec::new();
    let mut i: usize = 0;
    while i < m.files.len()
        invariant
            i <= m.files@.len(),
            m0.files == m@.files,
            views_of(files@) == with_absolute_paths(m0, cwd@).files.take(i as int),
        decreases m.files@.len() - i,
    {
        let f = &m.files[i];
        assert(m0.files[i as int] == f@);
        let nf = ModelFile {
            filename: f.filename.clone(),
            path: absolute_opt_string(cwd, &f.path),
            size_bytes: f.size_bytes,
            sha256: clone_opt_string(&f.sha256),
        };
        let ghost before = views_of(files@);
        assert(nf@ == with_absolute_paths(m0, cwd@).files[i as int]);
        files.push(nf);
        assert(views_of(files@) =~= before.push(with_absolute_paths(m0, cwd@).files[i as int]));
        assert(views_of(files@) =~= with_absolute_paths(m0, cwd@).files.take(i + 1));
        i += 1;
    }
    assert(with_absolute_paths(m0, cwd@).files.take(i as int) =~= with_absolute_paths(
        m0,
        cwd@,
    ).files);
    m.files = files;
    assert(m@.files =~= views_of(m.files@));
    m
}

/// The descriptor with missing sizes read from disk: each file without a
/// size takes `file_sizes[i]` (the size of its file, if it has a path and
/// could be read), and a model without a size takes `local_size` (the size
/// of its model file), else the first file size known.
pub open spec fn with_local_sizes(
    m: ModelDescriptorView,
    file_sizes: Seq<Option<u64>>,
    local_size: Option<u64>,
) -> ModelDescriptorView {
    let files = Seq::new(
        m.files.len(),
        |i: int|
            if m.files[i].size_bytes is Some {
                m.files[i]
            } else {
                ModelFileView { size_bytes: file_sizes[i], ..m.files[i] }
            },
    );
    ModelDescriptorView {
        files: files,
        size_bytes: if m.size_bytes is Some {
            m.size_bytes
        } else if local_size is Some {
            local_size
        } else {
            first_file_size(files)
        },
        ..m
    }
}

/// The size of the first file whose size is known.
pub open spec fn first_file_size(files: Seq<ModelFileView>) -> Option<u64>
    decreases files.len(),
{
    if files.len() == 0 {
        None
    } else if files[0].size_bytes is Some {
        files[0].size_bytes
    } else {
        first_file_size(files.drop_first())
    }
}

fn first_known_size(files: &Vec<ModelFile>) -> (r: Option<u64>)
    ensures
        r == first_file_size(views_of(files@)),
{
    let ghost fs = views_of(files@);
    let mut k: usize = 0;
    assert(fs.skip(0) =~= fs);
    while k < files.len()
        invariant
            k <= files@.len(),
            fs == views_of(files@),
            first_file_size(fs) == first_file_size(fs.skip(k as int)),
        decreases files@.len() - k,
    {
        assert(fs.skip(k as int)[0] == files@[k as int]@);
        if files[k].size_bytes.is_some() {
            return files[k].size_bytes;
        }
        assert(fs.skip(k as int).drop_first() =~= fs.skip(k + 1));
        k += 1;
    }
    assert(fs.skip(k as int) =~= Seq::<ModelFileView>::empty());
    None
}

pub fn model_with_local_size(
    model: ModelDescriptor,
    file_sizes: &Vec<Option<u64>>,
    local_size: Option<u64>,
) -> (r: ModelDescriptor)
    requires
        file_sizes@.len() == model@.files.len(),
    ensures
        r@ == with_local_sizes(model@, file_sizes@, local_size),
{
    let mut m = model;
    let ghost m0 = m@;
    let ghost target = with_local_sizes(m0, file_sizes@, local_size);
    let mut files: Vec<ModelFile> = Vec::new();
    let mut i: usize = 0;
    while i < m.files.len()
        invariant
            i <= m.files@.len(),
            m0.files == m@.files,
            file_sizes@.len() == m0.files.len(),
            target == with_local_sizes(m0, file_sizes@, local_size),
            views_of(files@) == target.files.take(i as int),
        decreases m.files@.len() - i,
    {
        let f = &m.files[i];
        assert(m0.files[i as int] == f@);
        let size = match f.size_bytes {
            Some(s) => Some(s),
            None => file_sizes[i],
        };
        let nf = ModelFile {
            filename: f.filename.clone(),
            path: clone_opt_string(&f.path),
            size_bytes: size,
            sha256: clone_opt_string(&f.sha256),
        };
        let ghost before = views_of(files@);
        assert(nf@ == target.files[i as int]);
        files.push(nf);
        assert(views_of(files@) =~= before.push(target.files[i as int]));
        assert(views_of(files@) =~= target.files.take(i + 1));
        i += 1;
    }
    assert(target.files.take(i as int) =~= target.files);
    m.files = files;
    assert(m@.files =~= target.files);
    if m.size_bytes.is_none() {
        if local_size.is_some() {
            m.size_bytes = local_size;
        } else {
            let found = first_known_size(&m.files);
            m.size_bytes = found;
        }
    }
    m
}

/// Why a descriptor was not registered.
pub enum RegisterModelError {
    /// A model with this id is registered.
    IdTaken(String),
    /// The model's file is registered for the model with this id.
    FileTaken(String),
}

impl RegisterModelError {
    pub fn message(&self) -> (m: String)
        ensures
            self matches RegisterModelError::IdTaken(id) ==> m@ == "Model id already exists: "@
                + id@,
            self matches RegisterModelError::FileTaken(id) ==> m@
                == "Model file is already registered as: "@ + id@,
    {
        match self {
            RegisterModelError::IdTaken(id) => {
                let mut m = string_from("Model id already exists: ");
                push_str(&mut m, id.as_str());
                m
            },
            RegisterModelError::FileTaken(id) => {
                let mut m = string_from("Model file is already registered as: ");
                push_str(&mut m, id.as_str());
                m
            },
        }
    }
}

/// Registers `model` unless its id is taken or its file is already
/// registered (under the model with the smallest id, which is reported).
pub fn register_model_descriptor(registry: &mut ModelRegistry, model: ModelDescriptor, cwd: &str) -> (r:
    Result<ModelDescriptor, RegisterModelError>)
    requires
        old(registry).wf(),
    ensures
        final(registry).wf(),
        final(registry).loaded() == old(registry).loaded(),
        old(registry).models().contains_key(model@.id) ==> (r matches Err(
            RegisterModelError::IdTaken(id),
        ) && id@ == model@.id) && final(registry).models() == old(registry).models(),
        !old(registry).models().contains_key(model@.id) && (model@.local_path matches Some(p)
            && exists|k: Seq<char>|
            #[trigger] old(registry).models().contains_key(k) && registered_at(
                old(registry).models()[k],
                cwd@,
                p,
            )) ==> (r matches Err(RegisterModelError::FileTaken(id)) && old(
            registry,
        ).models().contains_key(id@) && registered_at(
            old(registry).models()[id@],
            cwd@,
            model@.local_path->0,
        )) && final(registry).models() == old(registry).models(),
        !old(registry).models().contains_key(model@.id) && !(model@.local_path matches Some(p)
            && exists|k: Seq<char>|
            #[trigger] old(registry).models().contains_key(k) && registered_at(
                old(registry).models()[k],
                cwd@,
                p,
            )) ==> (r matches Ok(m) && m@ == model@) && final(registry).models() == old(
            registry,
        ).models().insert(model@.id, model@),
{
    if registry.get_model(model.id.as_str()).is_some() {
        return Err(RegisterModelError::IdTaken(model.id.clone()));
    }
    match &model.local_path {
        Some(p) => match find_model_by_local_path(registry, p.as_str(), cwd) {
            Some(existing) => {
                return Err(RegisterModelError::FileTaken(existing.id));
            },
            None => {},
        },
        None => {},
    }
    let copy = model.clone();
    registry.register_model(model);
    Ok(copy)
}

// ---------------------------------------------------------------------------
// Deleting a model
// ---------------------------------------------------------------------------

/// Why a model was not deleted.
pub enum DeleteModelError {
    /// The model is loaded.
    Loaded,
    /// No model has this id.
    NotFound,
    /// The model's file lies outside the models directory.
    OutsideModelsDirectory,
    /// The file was to be deleted, but the model has none.
    NoLocalFile,
}

impl DeleteModelError {
    pub fn message(&self) -> (m: String)
        ensures
            self is Loaded ==> m@ == "Unload the model before deleting it."@,
            self is NotFound ==> m@ == "model not found"@,
            self is OutsideModelsDirectory ==> m@
                == "Refusing to delete a file outside the models directory."@,
            self is NoLocalFile ==> m@ == "No local file is registered for this model."@,
    {
        match self {
            DeleteModelError::Loaded => string_from("Unload the model before deleting it."),
            DeleteModelError::NotFound => string_from("model not found"),
            DeleteModelError::OutsideModelsDirectory => string_from(
                "Refusing to delete a file outside the models directory.",
            ),
            DeleteModelError::NoLocalFile => string_from(
                "No local file is registered for this model.",
            ),
        }
    }
}

/// Whether the file at `path` may be deleted: it lies inside the models
/// directory `models_root`.
pub open spec fn deletable(cwd: Seq<char>, path: Seq<char>, models_root: Seq<char>) -> bool {
    path_starts_with(absolute(cwd, path), models_root)
}

/// Forgets the model of a delete request, after the checks of the request:
/// the model must not be loaded, must be registered, and when its file is to
/// be deleted, must have one inside the models directory. Returns the model,
/// whose file the caller then removes if asked.
pub fn delete_model_entry(
    registry: &mut ModelRegistry,
    request: &DeleteModelRequest,
    models_root: &str,
    cwd: &str,
) -> (r: Result<ModelDescriptor, DeleteModelError>)
    requires
        old(registry).wf(),
    ensures
        final(registry).wf(),
        final(registry).loaded() == old(registry).loaded(),
        ({
            let id = request.model_id@;
            let models = old(registry).models();
            if old(registry).loaded().contains_key(id) {
                r matches Err(DeleteModelError::Loaded) && final(registry).models() == models
            } else if !models.contains_key(id) {
                r matches Err(DeleteModelError::NotFound) && final(registry).models() == models
            } else if request.delete_file && models[id].local_path is None {
                r matches Err(DeleteModelError::NoLocalFile) && final(registry).models() == models
            } else if request.delete_file && !deletable(
                cwd@,
                models[id].local_path->0,
                models_root@,
            ) {
                r matches Err(DeleteModelError::OutsideModelsDirectory) && final(registry).models()
                    == models
            } else {
                r matches Ok(m) && m@ == models[id] && final(registry).models() == models.remove(
                    id,
                )
            }
        }),
{
    if registry.is_model_loaded(request.model_id.as_str()) {
        return Err(DeleteModelError::Loaded);
    }
    let model = match registry.get_model(request.model_id.as_str()) {
        Some(m) => m,
        None => {
            return Err(DeleteModelError::NotFound);
        },
    };
    if request.delete_file {
        match &model.local_path {
            Some(p) => {
                if !is_inside_models_root(cwd, p.as_str(), models_root) {
                    return Err(DeleteModelError::OutsideModelsDirectory);
                }
            },
            None => {
                return Err(DeleteModelError::NoLocalFile);
            },
        }
    }
    match registry.remove_model(request.model_id.as_str()) {
        Some(m) => Ok(m),
        None => Err(DeleteModelError::NotFound),
    }
}

// ---------------------------------------------------------------------------
// Importing a file
// ---------------------------------------------------------------------------

/// Why a file could not be imported.
pub open spec fn import_metadata_error(
    path: Seq<char>,
    metadata: Option<(bool, u64)>,
) -> Option<Seq<char>> {
    if !is_gguf(path) {
        Some("Choose a file with the .gguf extension."@)
    } else {
        match metadata {
            None => Some("The selected GGUF file could not be accessed."@),
            Some((is_file, len)) => if !is_file {
                Some("The selected path is not a file."@)
            } else if len < 4 {
                Some("The selected file is empty or too small to be a GGUF model."@)
            } else {
                None
            },
        }
    }
}

/// The checks of an imported file before its header is read: a `.gguf`
/// name, and a readable file (`metadata`: whether it is a file, and its
/// length) of at least four bytes.
pub fn check_import_metadata(path: &str, metadata: Option<(bool, u64)>) -> (r: Result<(), String>)
    ensures
        match import_metadata_error(path@, metadata) {
            Some(e) => r matches Err(m) && m@ == e,
            None => r is Ok,
        },
{
    if !is_gguf_path(path) {
        return Err(string_from("Choose a file with the .gguf extension."));
    }
    match metadata {
        None => Err(string_from("The selected GGUF file could not be accessed.")),
        Some((is_file, len)) => if !is_file {
            Err(string_from("The selected path is not a file."))
        } else if len < 4 {
            Err(string_from("The selected file is empty or too small to be a GGUF model."))
        } else {
            Ok(())
        },
    }
}

/// The header check of an imported file (`None`: it could not be read).
pub fn check_import_header(header: Option<[u8; 4]>) -> (r: Result<(), String>)
    ensures
        match header {
            None => r matches Err(m) && m@ == "The selected GGUF file could not be read."@,
            Some(h) => if h@ == crate::downloads::gguf_magic() {
                r is Ok
            } else {
                r matches Err(m) && m@ == "The selected file does not have a valid GGUF header."@
            },
        },
{
    match header {
        None => Err(string_from("The selected GGUF file could not be read.")),
        Some(h) => if crate::downloads::is_gguf_header(&h) {
            Ok(())
        } else {
            Err(string_from("The selected file does not have a valid GGUF header."))
        },
    }
}

/// The id an imported model is registered under: the requested id, trimmed;
/// an empty one is refused.
pub fn import_model_id(model_id: &str) -> (r: Result<String, String>)
    ensures
        crate::text::space_trim(model_id@).len() > 0 ==> (r matches Ok(id) && id@
            == crate::text::space_trim(model_id@)),
        crate::text::space_trim(model_id@).len() == 0 ==> (r matches Err(m) && m@
            == "Model ID cannot be empty."@),
{
    let id = crate::text::trim_string(model_id, &crate::text::Strip::Space);
    if id.as_str().is_empty() {
        Err(string_from("Model ID cannot be empty."))
    } else {
        Ok(id)
    }
}

// ---------------------------------------------------------------------------
// Discovering files in the models directory
// ---------------------------------------------------------------------------

/// A directory entry found by a rescan: its path, whether it is a file, and
/// its size (`None` when it could not be read).
pub struct FoundModelFile {
    pub path: String,
    pub is_file: bool,
    pub size: Option<u64>,
}

/// The content of a `FoundModelFile`.
pub struct FoundView {
    pub path: Seq<char>,
    pub is_file: bool,
    pub size: Option<u64>,
}

impl View for FoundModelFile {
    type V = FoundView;

    open spec fn view(&self) -> FoundView {
        FoundView { path: self.path@, is_file: self.is_file, size: self.size }
    }
}

/// A GGUF file of the models directory that no model is registered for, with
/// the id suggested for it.
pub struct DiscoveredModelFile {
    pub filename: String,
    pub path: String,
    pub size_bytes: u64,
    pub suggested_model_id: String,
}

/// The content of a `DiscoveredModelFile`.
pub struct DiscoveredView {
    pub filename: Seq<char>,
    pub path: Seq<char>,
    pub size_bytes: u64,
    pub suggested_model_id: Seq<char>,
}

impl View for DiscoveredModelFile {
    type V = DiscoveredView;

    open spec fn view(&self) -> DiscoveredView {
        DiscoveredView {
            filename: self.filename@,
            path: self.path@,
            size_bytes: self.size_bytes,
            suggested_model_id: self.suggested_model_id@,
        }
    }
}

impl crate::keyed::Keyed for DiscoveredModelFile {
    open spec fn key_of(v: DiscoveredView) -> Seq<char> {
        v.filename
    }

    fn key(&self) -> (k: &str) {
        self.filename.as_str()
    }

    fn duplicate(&self) -> (r: Self) {
        DiscoveredModelFile {
            filename: self.filename.clone(),
            path: self.path.clone(),
            size_bytes: self.size_bytes,
            suggested_model_id: self.suggested_model_id.clone(),
        }
    }
}

/// The absolute paths of the registered models' files.
pub open spec fn registered_paths(models: Seq<ModelDescriptorView>, cwd: Seq<char>) -> Seq<Seq<char>>
    decreases models.len(),
{
    if models.len() == 0 {
        Seq::empty()
    } else {
        let r = registered_paths(models.drop_last(), cwd);
        match models.last().local_path {
            Some(p) => r.push(absolute(cwd, p)),
            None => r,
        }
    }
}

pub open spec fn model_ids_of(models: Seq<ModelDescriptorView>) -> Seq<Seq<char>> {
    Seq::new(models.len(), |i: int| models[i].id)
}

/// The name a discovered file is listed under.
pub open spec fn discovered_name(path: Seq<char>) -> Seq<char> {
    match crate::paths::file_name(path) {
        Some(n) => n,
        None => "model.gguf"@,
    }
}

/// The files discovered among the first `k` entries, and the ids in use
/// after them (the registered ids, then each suggested id).
pub open spec fn discover_upto(
    models: Seq<ModelDescriptorView>,
    found: Seq<FoundView>,
    cwd: Seq<char>,
    k: int,
) -> (Seq<DiscoveredView>, Seq<Seq<char>>)
    decreases k,
{
    if k <= 0 {
        (Seq::empty(), model_ids_of(models))
    } else {
        let (rs, used) = discover_upto(models, found, cwd, k - 1);
        let e = found[k - 1];
        let abs = absolute(cwd, e.path);
        if !e.is_file || !is_gguf(e.path) || registered_paths(models, cwd).contains(abs)
            || e.size is None {
            (rs, used)
        } else {
            let name = discovered_name(abs);
            let id = crate::model_ids::unique_id_for(crate::model_ids::model_id_for(name), used);
            (
                rs.push(
                    DiscoveredView {
                        filename: name,
                        path: abs,
                        size_bytes: e.size->0,
                        suggested_model_id: id,
                    },
                ),
                used.push(id),
            )
        }
    }
}

/// The answer of a rescan: the GGUF files not yet registered, sorted by
/// name.
pub open spec fn discovered_files(
    models: Seq<ModelDescriptorView>,
    found: Seq<FoundView>,
    cwd: Seq<char>,
) -> Seq<DiscoveredView> {
    stable_sort_discovered(discover_upto(models, found, cwd, found.len() as int).0)
}

pub open spec fn stable_sort_discovered(s: Seq<DiscoveredView>) -> Seq<DiscoveredView> {
    crate::sorting::stable_sort::<DiscoveredModelFile>(s)
}

proof fn lemma_discover_used_len(
    models: Seq<ModelDescriptorView>,
    found: Seq<FoundView>,
    cwd: Seq<char>,
    k: int,
)
    requires
        0 <= k <= found.len(),
    ensures
        discover_upto(models, found, cwd, k).1.len() <= models.len() + k,
    decreases k,
{
    if k > 0 {
        lemma_discover_used_len(models, found, cwd, k - 1);
    }
}

/// The files of a rescan: each entry that is a `.gguf` file, whose absolute
/// path no registered model has and whose size could be read, listed by
/// name with a suggested id that is not in use.
pub fn discover_model_files(
    registered: &Vec<ModelDescriptor>,
    found: &Vec<FoundModelFile>,
    cwd: &str,
) -> (r: Vec<DiscoveredModelFile>)
    requires
        registered@.len() + found@.len() < usize::MAX,
    ensures
        views_of(r@) == discovered_files(views_of(registered@), views_of(found@), cwd@),
{
    let ghost ms = views_of(registered@);
    let ghost fs = views_of(found@);
    let mut paths: Vec<String> = Vec::new();
    let mut used: Vec<String> = Vec::new();
    let mut i: usize = 0;
    while i < registered.len()
        invariant
            i <= registered@.len(),
            ms == views_of(registered@),
            crate::model_ids::views(paths@) == registered_paths(ms.take(i as int), cwd@),
            crate::model_ids::views(used@) == model_ids_of(ms).take(i as int),
        decreases registered@.len() - i,
    {
        let m = &registered[i];
        assert(ms[i as int] == m@);
        assert(ms.take(i + 1).drop_last() =~= ms.take(i as int));
        match &m.local_path {
            Some(p) => {
                let ghost before = crate::model_ids::views(paths@);
                let a = absolute_path(cwd, p.as_str());
                let ghost av = a@;
                paths.push(a);
                assert(crate::model_ids::views(paths@) =~= before.push(av));
            },
            None => {},
        }
        let ghost ub = crate::model_ids::views(used@);
        used.push(m.id.clone());
        assert(crate::model_ids::views(used@) =~= ub.push(m@.id));
        assert(model_ids_of(ms).take(i + 1) =~= model_ids_of(ms).take(i as int).push(m@.id));
        i += 1;
    }
    assert(ms.take(i as int) =~= ms);
    assert(model_ids_of(ms).take(i as int) =~= model_ids_of(ms));
    let mut rs: Vec<DiscoveredModelFile> = Vec::new();
    let mut k: usize = 0;
    while k < found.len()
        invariant
            k <= found@.len(),
            ms == views_of(registered@),
            fs == views_of(found@),
            registered@.len() + found@.len() < usize::MAX,
            crate::model_ids::views(paths@) == registered_paths(ms, cwd@),
            views_of(rs@) == discover_upto(ms, fs, cwd@, k as int).0,
            crate::model_ids::views(used@) == discover_upto(ms, fs, cwd@, k as int).1,
        decreases found@.len() - k,
    {
        let e = &found[k];
        assert(fs[k as int] == e@);
        proof {
            lemma_discover_used_len(ms, fs, cwd@, k as int);
        }
        let abs = absolute_path(cwd, e.path.as_str());
        if e.is_file && is_gguf_path(e.path.as_str()) && !crate::model_ids::contains_string(
            &paths,
            abs.as_str(),
        ) && e.size.is_some() {
            let av = crate::text::chars_of(abs.as_str());
            let name = match crate::paths::file_name_of(av.as_slice()) {
                Some(n) => crate::text::string_of(n.as_slice()),
                None => string_from("model.gguf"),
            };
            let base = crate::model_ids::model_id_from_filename(name.as_str());
            let id = crate::model_ids::unique_model_id(base.as_str(), &mut used);
            let size = match e.size {
                Some(n) => n,
                None => 0,
            };
            let d = DiscoveredModelFile {
                filename: name,
                path: abs,
                size_bytes: size,
                suggested_model_id: id,
            };
            let ghost before = views_of(rs@);
            let ghost dv = d@;
            rs.push(d);
            assert(views_of(rs@) =~= before.push(dv));
        }
        k += 1;
    }
    assert(fs.len() == k);
    crate::sorting::sort_by_key(rs)
}

// ---------------------------------------------------------------------------
// The GGUF files under a directory
// ---------------------------------------------------------------------------

/// A model file found under the models directory, with the id it is
/// registered under at start-up.
pub struct LocalModelFile {
    pub path: String,
    pub id: String,
}

/// The content of a `LocalModelFile`.
pub struct LocalModelFileView {
    pub path: Seq<char>,
    pub id: Seq<char>,
}

impl View for LocalModelFile {
    type V = LocalModelFileView;

    open spec fn view(&self) -> LocalModelFileView {
        LocalModelFileView { path: self.path@, id: self.id@ }
    }
}

/// `dir` joined with each name in turn.
pub open spec fn joined_under(dir: Seq<char>, names: Seq<Seq<char>>) -> Seq<char>
    decreases names.len(),
{
    if names.len() == 0 {
        dir
    } else {
        crate::paths::join(joined_under(dir, names.drop_last()), names.last())
    }
}

/// The names with `:` between them.
pub open spec fn joined_by_colon(names: Seq<Seq<char>>) -> Seq<char>
    decreases names.len(),
{
    if names.len() == 0 {
        Seq::empty()
    } else if names.len() == 1 {
        names[0]
    } else {
        joined_by_colon(names.drop_last()) + seq![':'] + names.last()
    }
}

pub open spec fn names_of(v: Seq<Vec<String>>) -> Seq<Seq<Seq<char>>> {
    Seq::new(v.len(), |i: int| crate::model_ids::views(v[i]@))
}

/// The GGUF files among `files` (each given by the names leading to it from
/// `dir`), in their order: the path, and the id made of the names joined
/// with `:`.
pub open spec fn gguf_files(dir: Seq<char>, files: Seq<Seq<Seq<char>>>) -> Seq<LocalModelFileView>
    decreases files.len(),
{
    if files.len() == 0 {
        Seq::empty()
    } else {
        let r = gguf_files(dir, files.drop_last());
        let path = joined_under(dir, files.last());
        if is_gguf(path) {
            r.push(LocalModelFileView { path, id: joined_by_colon(files.last()) })
        } else {
            r
        }
    }
}

/// The GGUF files under `directory`, from the files found by walking it
/// (each given by the names of the directories leading to it and its own).
pub fn collect_gguf_files(directory: &str, files: &Vec<Vec<String>>) -> (r: Vec<LocalModelFile>)
    ensures
        views_of(r@) == gguf_files(directory@, names_of(files@)),
{
    let ghost all = names_of(files@);
    let mut r: Vec<LocalModelFile> = Vec::new();
    let mut i: usize = 0;
    while i < files.len()
        invariant
            i <= files@.len(),
            all == names_of(files@),
            views_of(r@) == gguf_files(directory@, all.take(i as int)),
        decreases files@.len() - i,
    {
        let names = &files[i];
        let ghost ns = all[i as int];
        assert(ns == crate::model_ids::views(names@));
        let mut path = string_from(directory);
        let mut id = String::new();
        let mut k: usize = 0;
        while k < names.len()
            invariant
                k <= names@.len(),
                ns == crate::model_ids::views(names@),
                path@ == joined_under(directory@, ns.take(k as int)),
                id@ == joined_by_colon(ns.take(k as int)),
            decreases names@.len() - k,
        {
            assert(ns.take(k + 1).drop_last() =~= ns.take(k as int));
            assert(ns[k as int] == names@[k as int]@);
            path = crate::paths::join_path(path.as_str(), names[k].as_str());
            if k > 0 {
                crate::text::push_char(&mut id, ':');
            }
            push_str(&mut id, names[k].as_str());
            proof {
                if k == 0 {
                    assert(id@ =~= ns.take(1)[0]);
                } else {
                    assert(id@ =~= joined_by_colon(ns.take(k as int)) + seq![':'] + ns[k as int]);
                }
            }
            k += 1;
        }
        assert(ns.take(k as int) =~= ns);
        assert(all.take(i + 1).drop_last() =~= all.take(i as int));
        if is_gguf_path(path.as_str()) {
            let ghost before = views_of(r@);
            let f = LocalModelFile { path, id };
            let ghost fv = f@;
            r.push(f);
            assert(views_of(r@) =~= before.push(fv));
        }
        i += 1;
    }
    assert(all.take(i as int) =~= all);
    r
}

/// What is shown for a model path: the path itself (made absolute) when it
/// exists, else its parent, else the models directory.
pub fn reveal_target(cwd: &str, path: &str, exists: bool, models_directory: &str) -> (r: String)
    ensures
        exists ==> r@ == absolute(cwd@, path@),
        !exists ==> r@ == match crate::paths::parent(absolute(cwd@, path@)) {
            Some(p) => p,
            None => models_directory@,
        },
{
    let a = absolute_path(cwd, path);
    if exists {
        return a;
    }
    let av = crate::text::chars_of(a.as_str());
    match crate::paths::parent_of(av.as_slice()) {
        Some(p) => p,
        None => string_from(models_directory),
    }
}

} // verus!
