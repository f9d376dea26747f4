//! The decisions of the inference backends: the mock backend's answers, and
//! for `llama-server` its status, command line, replies and start-up errors.

use vstd::prelude::*;
use vstd::utf8::{decode_utf8, valid_utf8};
use crate::chat::{ChatMessage, ChatRole, GeneratedToken};
use crate::documents::{byte_len, is_char_offset, offset_of};
use crate::keyed::views_of;
use crate::model::{
    clone_opt_string, BackendStatus, LoadOptions, LoadedModelStatus, ModelDescriptor,
    ModelDescriptorView, ModelFormat, ModelHandle, ModelHandleView, opt_view,
};
use crate::paths::{components, is_absolute, join, join_path};
use crate::text::{
    chars_of, contains, decimal, decimal_string, is_space, push_char, push_str, space_trim,
    str_contains, string_from, string_of, string_of_range, trim_bounds_in,
};

verus! {

broadcast use vstd::string::group_string_axioms;

/// The content of a `GeneratedToken`.
pub struct GeneratedTokenView {
    pub text: Seq<char>,
    pub index: usize,
    pub done: bool,
}

impl View for GeneratedToken {
    type V = GeneratedTokenView;

    open spec fn view(&self) -> GeneratedTokenView {
        GeneratedTokenView { text: self.text@, index: self.index, done: self.done }
    }
}

// ---------------------------------------------------------------------------
// Words
// ---------------------------------------------------------------------------

/// The finished words of `s` and the word still being read.
pub open spec fn scan_words(s: Seq<char>) -> (Seq<Seq<char>>, Seq<char>)
    decreases s.len(),
{
    if s.len() == 0 {
        (Seq::empty(), Seq::empty())
    } else {
        let (ws, cur) = scan_words(s.drop_last());
        if is_space(s.last()) {
            if cur.len() > 0 {
                (ws.push(cur), Seq::empty())
            } else {
                (ws, Seq::empty())
            }
        } else {
            (ws, cur.push(s.last()))
        }
    }
}

/// `str::split_whitespace`: the maximal runs of non-whitespace characters.
pub open spec fn words(s: Seq<char>) -> Seq<Seq<char>> {
    let (ws, cur) = scan_words(s);
    if cur.len() > 0 {
        ws.push(cur)
    } else {
        ws
    }
}

pub fn split_whitespace(s: &str) -> (r: Vec<String>)
    ensures
        views_of(r@) == words(s@),
{
    let v = chars_of(s);
    let mut ws: Vec<String> = Vec::new();
    let mut cur = String::new();
    let mut i: usize = 0;
    while i < v.len()
        invariant
            i <= v@.len(),
            v@ == s@,
            (views_of(ws@), cur@) == scan_words(v@.take(i as int)),
        decreases v@.len() - i,
    {
        let c = v[i];
        assert(v@.take(i + 1).drop_last() =~= v@.take(i as int));
        if crate::text::is_space_exec(c) {
            if !cur.as_str().is_empty() {
                let ghost before = views_of(ws@);
                let done = cur;
                cur = String::new();
                let ghost dv = done@;
                ws.push(done);
                assert(views_of(ws@) =~= before.push(dv));
            } else {
                cur = String::new();
            }
        } else {
            push_char(&mut cur, c);
        }
        i += 1;
    }
    assert(v@.take(v@.len() as int) =~= v@);
    if !cur.as_str().is_empty() {
        let ghost before = views_of(ws@);
        let ghost cv = cur@;
        ws.push(cur);
        assert(views_of(ws@) =~= before.push(cv));
    }
    ws
}

// ---------------------------------------------------------------------------
// The mock backend
// ---------------------------------------------------------------------------

/// A backend that answers without a model, for trying the runtime out.
pub struct MockBackend;

/// The mock backend's reply to a chat whose last message is `prompt`.
pub open spec fn mock_reply(prompt: Seq<char>) -> Seq<char> {
    "deepLocal mock response: "@ + prompt
}

/// The tokens the mock backend streams for `reply`: every word followed by a
/// space, then an empty final token.
pub open spec fn reply_tokens(reply: Seq<char>) -> Seq<GeneratedTokenView> {
    let ws = words(reply);
    Seq::new(
        ws.len() + 1,
        |i: int|
            if i < ws.len() {
                GeneratedTokenView { text: ws[i] + " "@, index: i as usize, done: false }
            } else {
                GeneratedTokenView { text: Seq::empty(), index: ws.len() as usize, done: true }
            },
    )
}

/// The prompt the mock backend answers: the last message's text, or nothing.
pub open spec fn last_content(messages: Seq<ChatMessage>) -> Seq<char> {
    if messages.len() > 0 {
        messages.last().content@
    } else {
        Seq::empty()
    }
}

impl MockBackend {
    pub fn id(&self) -> (r: &'static str)
        ensures
            r@ == "mock"@,
    {
        "mock"
    }

    pub fn supported_formats(&self) -> (r: Vec<ModelFormat>)
        ensures
            r@ == seq![ModelFormat::Gguf],
    {
        let mut v: Vec<ModelFormat> = Vec::new();
        v.push(ModelFormat::Gguf);
        assert(v@ =~= seq![ModelFormat::Gguf]);
        v
    }

    /// Always available.
    pub fn status(&self) -> (r: BackendStatus)
        ensures
            r@.id == "mock"@,
            r@.available,
            r@.binary_path is None,
            r@.error is None,
    {
        BackendStatus { id: string_from("mock"), available: true, binary_path: None, error: None }
    }

    /// Loading always succeeds and yields a loaded handle for the model.
    pub fn load(&self, model: &ModelDescriptor, options: LoadOptions) -> (r: ModelHandle)
        ensures
            r@ == (ModelHandleView {
                id: model@.id,
                backend: "mock"@,
                status: LoadedModelStatus::Loaded,
            }),
    {
        ModelHandle {
            id: model.id.clone(),
            backend: string_from("mock"),
            status: LoadedModelStatus::Loaded,
        }
    }

    /// The tokens streamed for a chat: the words of
    /// `deepLocal mock response: <last message>`.
    pub fn generate(&self, messages: &[ChatMessage]) -> (r: Vec<GeneratedToken>)
        requires
            words(mock_reply(last_content(messages@))).len() < usize::MAX,
        ensures
            views_of(r@) == reply_tokens(mock_reply(last_content(messages@))),
    {
        let mut text = string_from("deepLocal mock response: ");
        if messages.len() > 0 {
            push_str(&mut text, messages[messages.len() - 1].content.as_str());
        }
        tokens_for_words(text.as_str())
    }
}

/// Every word of `reply` followed by a space, then the final empty token.
pub fn tokens_for_words(reply: &str) -> (r: Vec<GeneratedToken>)
    requires
        words(reply@).len() < usize::MAX,
    ensures
        views_of(r@) == reply_tokens(reply@),
{
    let ws = split_whitespace(reply);
    let mut r: Vec<GeneratedToken> = Vec::new();
    let mut i: usize = 0;
    while i < ws.len()
        invariant
            i <= ws@.len(),
            views_of(ws@) == words(reply@),
            ws@.len() < usize::MAX,
            views_of(r@) == reply_tokens(reply@).take(i as int),
        decreases ws@.len() - i,
    {
        let mut t = ws[i].clone();
        push_char(&mut t, ' ');
        let tok = GeneratedToken { text: t, index: i, done: false };
        let ghost before = views_of(r@);
        let ghost tv = tok@;
        r.push(tok);
        proof {
            reveal_strlit(" ");
            assert(views_of(ws@)[i as int] == ws@[i as int]@);
            assert(" "@ =~= seq![' ']);
            assert(tv.text =~= words(reply@)[i as int] + " "@);
            assert(tv == reply_tokens(reply@)[i as int]);
            assert(views_of(r@) =~= before.push(tv));
            assert(reply_tokens(reply@).take(i + 1) =~= reply_tokens(reply@).take(i as int).push(
                reply_tokens(reply@)[i as int],
            ));
        }
        i += 1;
    }
    let n = ws.len();
    let ghost before = views_of(r@);
    let last = GeneratedToken { text: String::new(), index: n, done: true };
    let ghost lv = last@;
    r.push(last);
    proof {
        assert(lv == reply_tokens(reply@)[n as int]);
        assert(views_of(r@) =~= before.push(lv));
        assert(reply_tokens(reply@) =~= reply_tokens(reply@).take(n as int).push(
            reply_tokens(reply@)[n as int],
        ));
    }
    r
}

// ---------------------------------------------------------------------------
// llama-server
// ---------------------------------------------------------------------------

pub open spec fn llama_not_found_message() -> Seq<char> {
    "llama-server was not found. Install llama.cpp or set LLAMA_SERVER / DEEPLOCAL_LLAMA_SERVER to the llama-server binary."@
}

/// The status of the `llama-server` backend configured with `binary`, given
/// where (if anywhere) that binary was found.
pub fn llama_status(binary: &str, resolved: Option<String>) -> (r: BackendStatus)
    ensures
        r@.id == "llama.cpp"@,
        r@.available == resolved is Some,
        resolved matches Some(p) ==> r@.binary_path == Some(p@) && r@.error is None,
        resolved is None ==> r@.binary_path == Some(binary@) && r@.error == Some(
            llama_not_found_message(),
        ),
{
    match resolved {
        Some(path) => BackendStatus {
            id: string_from("llama.cpp"),
            available: true,
            binary_path: Some(path),
            error: None,
        },
        None => BackendStatus {
            id: string_from("llama.cpp"),
            available: false,
            binary_path: Some(string_from(binary)),
            error: Some(
                string_from(
                    "llama-server was not found. Install llama.cpp or set LLAMA_SERVER / DEEPLOCAL_LLAMA_SERVER to the llama-server binary.",
                ),
            ),
        },
    }
}

/// A binary given by a bare name is searched along `PATH`; one with a
/// directory part, or an absolute one, is used as it is.
pub open spec fn is_bare_command(binary: Seq<char>) -> bool {
    !is_absolute(binary) && components(binary).len() <= 1
}

pub fn is_bare_command_exec(binary: &str) -> (r: bool)
    ensures
        r == is_bare_command(binary@),
{
    let v = chars_of(binary);
    !crate::paths::is_absolute_chars(v.as_slice()) && crate::paths::components_of(
        v.as_slice(),
    ).len() <= 1
}

/// The entries of a `PATH` value (`std::env::split_paths` on Unix: split at
/// `:`).
pub open spec fn path_entries(path_var: Seq<char>) -> Seq<Seq<char>>
    decreases path_var.len(),
{
    if path_var.len() == 0 {
        seq![Seq::empty()]
    } else {
        let p = path_entries(path_var.drop_last());
        if path_var.last() == ':' {
            p.push(Seq::empty())
        } else {
            p.update(p.len() - 1, p.last().push(path_var.last()))
        }
    }
}

proof fn lemma_path_entries_nonempty(s: Seq<char>)
    ensures
        path_entries(s).len() >= 1,
    decreases s.len(),
{
    if s.len() > 0 {
        lemma_path_entries_nonempty(s.drop_last());
    }
}

/// Each of `dirs` joined with `name`.
pub open spec fn joined_each(dirs: Seq<Seq<char>>, name: Seq<char>) -> Seq<Seq<char>> {
    Seq::new(dirs.len(), |i: int| join(dirs[i], name))
}

/// Where a bare `binary` may be found, in search order: each `PATH` entry
/// joined with the name. The first that exists is used.
pub fn binary_candidates(path_var: &str, binary: &str) -> (r: Vec<String>)
    ensures
        views_of(r@) == joined_each(path_entries(path_var@), binary@),
{
    let v = chars_of(path_var);
    let mut entries: Vec<Vec<char>> = Vec::new();
    let mut cur: Vec<char> = Vec::new();
    let mut i: usize = 0;
    while i < v.len()
        invariant
            i <= v@.len(),
            v@ == path_var@,
            entries.deep_view().push(cur@) == path_entries(v@.take(i as int)),
        decreases v@.len() - i,
    {
        proof {
            assert(v@.take(i + 1).drop_last() =~= v@.take(i as int));
            lemma_path_entries_nonempty(v@.take(i as int));
            crate::text::lemma_char_vec_deep_view(cur);
        }
        let ghost before = entries.deep_view().push(cur@);
        if v[i] == ':' {
            let ghost old_e = entries.deep_view();
            let ghost old_c = cur@;
            entries.push(cur);
            assert(entries.deep_view() =~= old_e.push(old_c));
            cur = Vec::new();
            assert(entries.deep_view().push(cur@) =~= before.push(Seq::empty()));
        } else {
            cur.push(v[i]);
            assert(entries.deep_view().push(cur@) =~= before.update(
                before.len() - 1,
                before.last().push(v@[i as int]),
            ));
        }
        i += 1;
    }
    assert(v@.take(v@.len() as int) =~= v@);
    proof {
        crate::text::lemma_char_vec_deep_view(cur);
    }
    let ghost old_e = entries.deep_view();
    let ghost old_c = cur@;
    entries.push(cur);
    assert(entries.deep_view() =~= old_e.push(old_c));
    let ghost es = entries.deep_view();
    let mut r: Vec<String> = Vec::new();
    let mut k: usize = 0;
    while k < entries.len()
        invariant
            k <= entries@.len(),
            es == entries.deep_view(),
            es == path_entries(path_var@),
            views_of(r@) == joined_each(es.take(k as int), binary@),
        decreases entries@.len() - k,
    {
        let e = string_of(entries[k].as_slice());
        proof {
            crate::text::lemma_char_vec_deep_view(entries@[k as int]);
        }
        let c = join_path(e.as_str(), binary);
        let ghost before = views_of(r@);
        r.push(c);
        assert(views_of(r@) =~= before.push(join(es[k as int], binary@)));
        assert(joined_each(es.take(k + 1), binary@) =~= joined_each(es.take(k as int), binary@).push(
            join(es[k as int], binary@),
        ));
        k += 1;
    }
    assert(es.take(k as int) =~= es);
    r
}

/// Why a model cannot be started in `llama-server`.
pub enum LlamaLoadError {
    /// The model has no file on disk.
    NoLocalPath,
}

/// The file `llama-server` is started with: the model's local path, else the
/// first of its files that has a path.
pub open spec fn first_file_path(files: Seq<crate::model::ModelFileView>) -> Option<Seq<char>>
    decreases files.len(),
{
    if files.len() == 0 {
        None
    } else if files[0].path is Some {
        files[0].path
    } else {
        first_file_path(files.drop_first())
    }
}

pub open spec fn model_file_path(m: ModelDescriptorView) -> Option<Seq<char>> {
    if m.local_path is Some {
        m.local_path
    } else {
        first_file_path(m.files)
    }
}

pub fn llama_model_path(model: &ModelDescriptor) -> (r: Result<String, LlamaLoadError>)
    ensures
        model_file_path(model@) matches Some(p) ==> r matches Ok(s) && s@ == p,
        model_file_path(model@) is None ==> r is Err,
{
    if let Some(p) = &model.local_path {
        return Ok(p.clone());
    }
    let mut i: usize = 0;
    let ghost fs = model@.files;
    assert(fs.skip(0) =~= fs);
    while i < model.files.len()
        invariant
            i <= model.files@.len(),
            fs == model@.files,
            model.local_path is None,
            first_file_path(fs) == first_file_path(fs.skip(i as int)),
        decreases model.files@.len() - i,
    {
        assert(fs.skip(i as int)[0] == model.files@[i as int]@);
        if let Some(p) = &model.files[i].path {
            return Ok(p.clone());
        }
        assert(fs.skip(i as int).drop_first() =~= fs.skip(i + 1));
        i += 1;
    }
    assert(fs.skip(i as int) =~= Seq::<crate::model::ModelFileView>::empty());
    Err(LlamaLoadError::NoLocalPath)
}

/// The message for a load error.
pub fn llama_load_error_message(e: &LlamaLoadError) -> (m: String)
    ensures
        m@ == "The selected model does not have a local file path."@,
{
    string_from("The selected model does not have a local file path.")
}

/// The arguments `llama-server` is started with.
pub open spec fn server_args(model_path: Seq<char>, port: u16, options: LoadOptions) -> Seq<
    Seq<char>,
> {
    let base = seq![
        "--model"@,
        model_path,
        "--host"@,
        "127.0.0.1"@,
        "--port"@,
        decimal(port as nat),
    ];
    let with_ctx = match options.context_length {
        Some(c) => base + seq!["--ctx-size"@, decimal(c as nat)],
        None => base,
    };
    match options.gpu_layers {
        Some(g) => with_ctx + seq!["--n-gpu-layers"@, signed_decimal(g as int)],
        None => with_ctx,
    }
}

/// The decimal text of a signed integer.
pub open spec fn signed_decimal(v: int) -> Seq<char> {
    if v < 0 {
        seq!['-'] + decimal((-v) as nat)
    } else {
        decimal(v as nat)
    }
}

pub fn i32_string(v: i32) -> (s: String)
    ensures
        s@ == signed_decimal(v as int),
{
    if v < 0 {
        let m: u64 = (-(v as i64)) as u64;
        let mut s = String::new();
        push_char(&mut s, '-');
        let d = decimal_string(m);
        push_str(&mut s, d.as_str());
        s
    } else {
        decimal_string(v as u64)
    }
}

pub fn llama_server_args(model_path: &str, port: u16, options: LoadOptions) -> (r: Vec<String>)
    ensures
        views_of(r@) == server_args(model_path@, port, options),
{
    let mut r: Vec<String> = Vec::new();
    r.push(string_from("--model"));
    r.push(string_from(model_path));
    r.push(string_from("--host"));
    r.push(string_from("127.0.0.1"));
    r.push(string_from("--port"));
    r.push(decimal_string(port as u64));
    let ghost base = views_of(r@);
    if let Some(c) = options.context_length {
        r.push(string_from("--ctx-size"));
        r.push(decimal_string(c as u64));
    }
    if let Some(g) = options.gpu_layers {
        r.push(string_from("--n-gpu-layers"));
        r.push(i32_string(g));
    }
    assert(views_of(r@) =~= server_args(model_path@, port, options));
    r
}

/// `llama-server` is started on the model, on the loopback address and the
/// given port; `--ctx-size` follows exactly when a context length is given,
/// and `--n-gpu-layers` comes last exactly when a number of GPU layers is
/// given, whatever the context length.
pub proof fn law_server_args_follow_options(model_path: Seq<char>, port: u16, options: LoadOptions)
    ensures
        ({
            let a = server_args(model_path, port, options);
            &&& a.len() == 6 + (if options.context_length is Some { 2int } else { 0 }) + (
            if options.gpu_layers is Some {
                2int
            } else {
                0
            })
            &&& a[0] == "--model"@ && a[1] == model_path && a[2] == "--host"@
            &&& a[3] == "127.0.0.1"@ && a[4] == "--port"@ && a[5] == decimal(port as nat)
            &&& options.context_length matches Some(c) ==> a[6] == "--ctx-size"@ && a[7]
                == decimal(c as nat)
            &&& options.gpu_layers matches Some(g) ==> a[a.len() - 2] == "--n-gpu-layers"@
                && a[a.len() - 1] == signed_decimal(g as int)
        }),
{
}

/// The role names of the OpenAI chat format.
pub open spec fn role_name(role: ChatRole) -> Seq<char> {
    match role {
        ChatRole::System => "system"@,
        ChatRole::User => "user"@,
        ChatRole::Assistant => "assistant"@,
        ChatRole::Tool => "tool"@,
    }
}

pub fn role_name_of(role: ChatRole) -> (r: &'static str)
    ensures
        r@ == role_name(role),
{
    match role {
        ChatRole::System => "system",
        ChatRole::User => "user",
        ChatRole::Assistant => "assistant",
        ChatRole::Tool => "tool",
    }
}

/// The tokens streamed for a `llama-server` reply: the whole text, then the
/// final empty token.
pub fn llama_reply_tokens(text: String) -> (r: Vec<GeneratedToken>)
    ensures
        views_of(r@) == seq![
            GeneratedTokenView { text: text@, index: 0, done: false },
            GeneratedTokenView { text: Seq::empty(), index: 1, done: true },
        ],
{
    let ghost t = text@;
    let mut r: Vec<GeneratedToken> = Vec::new();
    r.push(GeneratedToken { text, index: 0, done: false });
    r.push(GeneratedToken { text: String::new(), index: 1, done: true });
    assert(views_of(r@) =~= seq![
        GeneratedTokenView { text: t, index: 0, done: false },
        GeneratedTokenView { text: Seq::empty(), index: 1, done: true },
    ]);
    r
}

// ---------------------------------------------------------------------------
// Start-up errors
// ---------------------------------------------------------------------------

/// `str::to_lowercase`: Unicode lower-casing.
pub uninterp spec fn unicode_lowercase(s: Seq<char>) -> Seq<char>;

/// `str::to_lowercase`; the result is named, not spelled out, since it
/// follows the Unicode case tables.
#[verifier::external_body]
fn to_lowercase(s: &str) -> (r: String)
    ensures
        r@ == unicode_lowercase(s@),
{
    s.to_lowercase()
}

/// `std::str::from_utf8`: the text of `bytes` when they are valid UTF-8.
#[verifier::external_body]
fn utf8_text(bytes: &[u8]) -> (r: Option<&str>)
    ensures
        r is Some == valid_utf8(bytes@),
        r matches Some(s) ==> s@ == decode_utf8(bytes@),
{
    std::str::from_utf8(bytes).ok()
}

/// `truncate_error` can cut `message` without splitting a character.
pub open spec fn truncatable(message: Seq<char>, max_len: int) -> bool {
    byte_len(message) <= max_len || is_char_offset(
        message,
        if max_len >= 3 { max_len - 3 } else { 0 },
    )
}

/// `truncate_error`: the message itself when it has at most `max_len` bytes,
/// otherwise its first `max_len - 3` bytes followed by `...`.
pub open spec fn truncated_error(message: Seq<char>, max_len: int) -> Seq<char> {
    if byte_len(message) <= max_len {
        message
    } else {
        message.take(
            choose|k: int|
                0 <= k <= message.len() && offset_of(message, k) == (if max_len >= 3 {
                    max_len - 3
                } else {
                    0
                }),
        ) + "..."@
    }
}

pub fn truncate_error(message: &str, max_len: usize) -> (r: String)
    requires
        truncatable(message@, max_len as int),
    ensures
        r@ == truncated_error(message@, max_len as int),
{
    let cs = chars_of(message);
    let total = crate::documents::byte_len_wide(cs.as_slice());
    if total <= max_len as u128 {
        return string_from(message);
    }
    let cut = if max_len >= 3 {
        max_len - 3
    } else {
        0
    };
    let k = crate::documents::char_index_at(cs.as_slice(), cut);
    let ghost chosen = choose|k: int|
        0 <= k <= message@.len() && offset_of(message@, k) == cut as int;
    proof {
        crate::documents::lemma_offset_unique(message@, k as int, chosen);
    }
    let mut r = string_of_range(cs.as_slice(), 0, k);
    assert(cs@.subrange(0, k as int) =~= cs@.take(k as int));
    push_str(&mut r, "...");
    r
}

pub open spec fn first_line(s: Seq<char>) -> Seq<char> {
    if exists|i: int| 0 <= i < s.len() && s[i] == '\n' {
        let i = choose|i: int|
            0 <= i < s.len() && s[i] == '\n' && forall|j: int| 0 <= j < i ==> s[j] != '\n';
        let line = s.take(i);
        if line.len() > 0 && line.last() == '\r' {
            line.drop_last()
        } else {
            line
        }
    } else {
        s
    }
}

/// The readable text of the server's error output: the trimmed UTF-8 text,
/// or nothing when the output is missing or not UTF-8.
pub open spec fn stderr_text(stderr: Option<Seq<u8>>) -> Seq<char> {
    match stderr {
        Some(b) => if valid_utf8(b) {
            space_trim(decode_utf8(b))
        } else {
            Seq::empty()
        },
        None => Seq::empty(),
    }
}

pub open spec fn mentions_context(details: Seq<char>) -> bool {
    contains(details, "context"@) || contains(details, "ctx"@) || contains(details, "n_ctx"@)
}

pub open spec fn mentions_open_failure(details: Seq<char>) -> bool {
    contains(details, "no such file"@) || contains(details, "cannot open"@) || contains(
        details,
        "failed to open"@,
    ) || contains(details, "model"@)
}

pub open spec fn mentions_memory(details: Seq<char>) -> bool {
    contains(details, "memory"@) || contains(details, "alloc"@) || contains(details, "out of memory"@)
}

/// `llama_startup_error_message`: a hint chosen from the lower-cased error
/// output, else its first line, else the readiness error.
pub open spec fn startup_error(wait_error: Seq<char>, stderr: Option<Seq<u8>>) -> Seq<char> {
    let text = stderr_text(stderr);
    let details = unicode_lowercase(text);
    if mentions_context(details) {
        "llama-server could not start. Try a smaller context size."@
    } else if mentions_open_failure(details) {
        "llama-server could not open the model file. Check the model path and file."@
    } else if mentions_memory(details) {
        "llama-server ran out of memory. Try fewer GPU layers or a smaller model."@
    } else if text.len() > 0 {
        "llama-server could not start: "@ + truncated_error(space_trim(first_line(text)), 140)
    } else {
        "llama-server could not start: "@ + truncated_error(wait_error, 140)
    }
}

/// The inputs on which `llama_startup_error_message` does not cut a message
/// inside a character.
pub open spec fn startup_error_defined(wait_error: Seq<char>, stderr: Option<Seq<u8>>) -> bool {
    let text = stderr_text(stderr);
    let details = unicode_lowercase(text);
    if mentions_context(details) || mentions_open_failure(details) || mentions_memory(details) {
        true
    } else if text.len() > 0 {
        truncatable(space_trim(first_line(text)), 140)
    } else {
        truncatable(wait_error, 140)
    }
}

pub open spec fn opt_bytes(b: Option<&[u8]>) -> Option<Seq<u8>> {
    match b {
        Some(x) => Some(x@),
        None => None,
    }
}

fn first_line_of(s: &str) -> (r: String)
    ensures
        r@ == first_line(s@),
{
    let v = chars_of(s);
    let mut i: usize = 0;
    while i < v.len() && v[i] != '\n'
        invariant
            i <= v@.len(),
            forall|j: int| 0 <= j < i ==> v@[j] != '\n',
        decreases v@.len() - i,
    {
        i += 1;
    }
    if i == v.len() {
        assert(!exists|j: int| 0 <= j < v@.len() && v@[j] == '\n');
        return string_of(v.as_slice());
    }
    let ghost chosen = choose|j: int|
        0 <= j < v@.len() && v@[j] == '\n' && forall|k: int| 0 <= k < j ==> v@[k] != '\n';
    assert(chosen == i) by {
        if chosen < i {
        } else if chosen > i {
        }
    }
    let end = if i > 0 && v[i - 1] == '\r' {
        i - 1
    } else {
        i
    };
    assert(v@.subrange(0, end as int) =~= (if i > 0 && v@[i - 1] == '\r' {
        v@.take(i as int).drop_last()
    } else {
        v@.take(i as int)
    }));
    string_of_range(v.as_slice(), 0, end)
}

/// The trimmed UTF-8 text of the error output.
fn stderr_string(stderr: Option<&[u8]>) -> (r: String)
    ensures
        r@ == stderr_text(opt_bytes(stderr)),
{
    let raw: &str = match stderr {
        Some(bytes) => match utf8_text(bytes) {
            Some(s) => s,
            None => "",
        },
        None => "",
    };
    let text = crate::text::trim_string(raw, &crate::text::Strip::Space);
    proof {
        reveal_strlit("");
    }
    text
}

/// Whether the lower-cased error output names a cause with a hint of its own.
fn has_hint(d: &str) -> (r: bool)
    ensures
        r == (mentions_context(d@) || mentions_open_failure(d@) || mentions_memory(d@)),
{
    str_contains(d, "context") || str_contains(d, "ctx") || str_contains(d, "n_ctx")
        || str_contains(d, "no such file") || str_contains(d, "cannot open") || str_contains(
        d,
        "failed to open",
    ) || str_contains(d, "model") || str_contains(d, "memory") || str_contains(d, "alloc")
        || str_contains(d, "out of memory")
}

/// Whether `truncate_error` can cut `message` to `max_len` bytes.
pub fn can_truncate(message: &str, max_len: usize) -> (r: bool)
    ensures
        r == truncatable(message@, max_len as int),
{
    let cs = chars_of(message);
    let total = crate::documents::byte_len_wide(cs.as_slice());
    if total <= max_len as u128 {
        return true;
    }
    let cut = if max_len >= 3 {
        max_len - 3
    } else {
        0
    };
    crate::documents::is_boundary(cs.as_slice(), cut)
}

/// `llama_startup_error_message` for every input: `None` exactly where that
/// message would have to be cut inside a character.
pub fn startup_error_message_checked(wait_error: &str, stderr: Option<&[u8]>) -> (r: Option<
    String,
>)
    ensures
        r is Some == startup_error_defined(wait_error@, opt_bytes(stderr)),
        r matches Some(m) ==> m@ == startup_error(wait_error@, opt_bytes(stderr)),
{
    let text = stderr_string(stderr);
    let details = to_lowercase(text.as_str());
    let ok = if has_hint(details.as_str()) {
        true
    } else if !text.as_str().is_empty() {
        let line = first_line_of(text.as_str());
        let trimmed = crate::text::trim_string(line.as_str(), &crate::text::Strip::Space);
        can_truncate(trimmed.as_str(), 140)
    } else {
        can_truncate(wait_error, 140)
    };
    if ok {
        Some(llama_startup_error_message(wait_error, stderr))
    } else {
        None
    }
}

/// The message shown when `llama-server` did not start, chosen from its
/// error output (`stderr`) and from why waiting for it failed (`wait_error`).
pub fn llama_startup_error_message(wait_error: &str, stderr: Option<&[u8]>) -> (r: String)
    requires
        startup_error_defined(wait_error@, opt_bytes(stderr)),
    ensures
        r@ == startup_error(wait_error@, opt_bytes(stderr)),
{
    let text = stderr_string(stderr);
    let details = to_lowercase(text.as_str());
    let d = details.as_str();
    if str_contains(d, "context") || str_contains(d, "ctx") || str_contains(d, "n_ctx") {
        return string_from("llama-server could not start. Try a smaller context size.");
    }
    if str_contains(d, "no such file") || str_contains(d, "cannot open") || str_contains(
        d,
        "failed to open",
    ) || str_contains(d, "model") {
        return string_from(
            "llama-server could not open the model file. Check the model path and file.",
        );
    }
    if str_contains(d, "memory") || str_contains(d, "alloc") || str_contains(d, "out of memory") {
        return string_from(
            "llama-server ran out of memory. Try fewer GPU layers or a smaller model.",
        );
    }
    let mut r = string_from("llama-server could not start: ");
    if !text.as_str().is_empty() {
        let line = first_line_of(text.as_str());
        let trimmed = crate::text::trim_string(line.as_str(), &crate::text::Strip::Space);
        let cut = truncate_error(trimmed.as_str(), 140);
        push_str(&mut r, cut.as_str());
    } else {
        let cut = truncate_error(wait_error, 140);
        push_str(&mut r, cut.as_str());
    }
    r
}

// ---------------------------------------------------------------------------
// Finding and starting llama-server
// ---------------------------------------------------------------------------

/// The `llama-server` binary configured by the environment: the first of
/// `DEELOCAL_LLAMA_SERVER`, `DEEPLOCAL_LLAMA_SERVER` and `LLAMA_SERVER` that
/// is set, else `llama-server` on the `PATH`.
pub fn llama_binary_from_env(
    deelocal: Option<String>,
    deeplocal: Option<String>,
    llama: Option<String>,
) -> (r: String)
    ensures
        r@ == match (opt_view(deelocal), opt_view(deeplocal), opt_view(llama)) {
            (Some(a), _, _) => a,
            (None, Some(b), _) => b,
            (None, None, Some(c)) => c,
            (None, None, None) => "llama-server"@,
        },
{
    match deelocal {
        Some(a) => a,
        None => match deeplocal {
            Some(b) => b,
            None => match llama {
                Some(c) => c,
                None => string_from("llama-server"),
            },
        },
    }
}

/// Where the desktop application looks for `llama-server`, in order: the
/// bundled runtime, `DEEPLOCAL_LLAMA_SERVER`, `LLAMA_SERVER`, then the usual
/// Homebrew and `/usr/local` locations. The first that exists is used.
pub fn llama_server_candidates(
    resource_dir: &str,
    deeplocal: Option<String>,
    llama: Option<String>,
) -> (r: Vec<String>)
    ensures
        views_of(r@) == seq![join(join(resource_dir@, "llama-runtime"@), "llama-server"@)] + (
        match opt_view(deeplocal) {
            Some(a) => seq![a],
            None => Seq::empty(),
        }) + (match opt_view(llama) {
            Some(b) => seq![b],
            None => Seq::empty(),
        }) + seq!["/opt/homebrew/bin/llama-server"@, "/usr/local/bin/llama-server"@],
{
    let mut r: Vec<String> = Vec::new();
    let runtime = join_path(resource_dir, "llama-runtime");
    r.push(join_path(runtime.as_str(), "llama-server"));
    let ghost first = views_of(r@);
    match deeplocal {
        Some(a) => r.push(a),
        None => {},
    }
    match llama {
        Some(b) => r.push(b),
        None => {},
    }
    r.push(string_from("/opt/homebrew/bin/llama-server"));
    r.push(string_from("/usr/local/bin/llama-server"));
    assert(views_of(r@) =~= seq![join(join(resource_dir@, "llama-runtime"@), "llama-server"@)] + (
    match opt_view(deeplocal) {
        Some(a) => seq![a],
        None => Seq::empty(),
    }) + (match opt_view(llama) {
        Some(b) => seq![b],
        None => Seq::empty(),
    }) + seq!["/opt/homebrew/bin/llama-server"@, "/usr/local/bin/llama-server"@]);
    r
}

/// The error when the model's file is not on disk.
pub fn llama_missing_model_message() -> (m: String)
    ensures
        m@ == "The model file could not be found. Check the file path and try again."@,
{
    string_from("The model file could not be found. Check the file path and try again.")
}

/// The error when `llama-server` cannot be started.
pub fn llama_spawn_error_message(binary: &str, error: &str) -> (m: String)
    ensures
        m@ == "llama-server could not start at '"@ + binary@ + "': "@ + error@
            + ". Install llama.cpp or set LLAMA_SERVER / DEEPLOCAL_LLAMA_SERVER."@,
{
    let mut m = string_from("llama-server could not start at '");
    push_str(&mut m, binary);
    push_str(&mut m, "': ");
    push_str(&mut m, error);
    push_str(&mut m, ". Install llama.cpp or set LLAMA_SERVER / DEEPLOCAL_LLAMA_SERVER.");
    m
}

/// What follows a probe of a starting server's health endpoint.
#[derive(Debug, Clone, Copy, PartialEq, Eq, Structural)]
pub enum ReadinessStep {
    /// The server answered: it is ready.
    Ready,
    /// Wait, then probe again.
    Retry,
    /// Wait, then report that the server never became ready.
    GiveUp,
}

/// The step after probe number `made` (counting from one) of at most
/// `attempts`, which answered `healthy`.
pub fn readiness_step(made: usize, attempts: usize, healthy: bool) -> (r: ReadinessStep)
    ensures
        healthy ==> r == ReadinessStep::Ready,
        !healthy && made < attempts ==> r == ReadinessStep::Retry,
        !healthy && made >= attempts ==> r == ReadinessStep::GiveUp,
{
    if healthy {
        ReadinessStep::Ready
    } else if made < attempts {
        ReadinessStep::Retry
    } else {
        ReadinessStep::GiveUp
    }
}

/// The error when the server never answered its health check.
pub fn llama_not_ready_message(port: u16) -> (m: String)
    ensures
        m@ == "llama-server did not become ready on port "@ + decimal(port as nat),
{
    let mut m = string_from("llama-server did not become ready on port ");
    push_str(&mut m, decimal_string(port as u64).as_str());
    m
}

/// The error when a generation names a model `llama-server` does not hold.
pub fn llama_not_loaded_message(model: &str) -> (m: String)
    ensures
        m@ == "llama.cpp model is not loaded: "@ + model@,
{
    let mut m = string_from("llama.cpp model is not loaded: ");
    push_str(&mut m, model);
    m
}

} // verus!
