//! Hugging Face search results: which models and files are offered, the
//! keywords that hide them, and the file sizes filled in from the repository
//! listings.

use vstd::prelude::*;
use crate::keyed::{views_of, Keyed, KeyedList};
use crate::model::opt_view;
use crate::sorting::{sort_by_key, stable_sort};
use crate::text::{
    chars_of, contains, ends_with, ends_with_chars, lower, lower_string, str_contains, string_from,
    trim, trim_string, Strip,
};

verus! {

broadcast use vstd::string::group_string_axioms;

// ---------------------------------------------------------------------------
// Search results
// ---------------------------------------------------------------------------

/// The content of a `HuggingFaceFileResult`.
pub struct FileResultView {
    pub filename: Seq<char>,
    pub size_bytes: Option<u64>,
}

/// A GGUF file offered by a repository.
pub struct HuggingFaceFileResult {
    pub filename: String,
    pub size_bytes: Option<u64>,
}

impl View for HuggingFaceFileResult {
    type V = FileResultView;

    open spec fn view(&self) -> FileResultView {
        FileResultView { filename: self.filename@, size_bytes: self.size_bytes }
    }
}

impl Clone for HuggingFaceFileResult {
    fn clone(&self) -> (r: Self)
        ensures
            r@ == self@,
    {
        HuggingFaceFileResult { filename: self.filename.clone(), size_bytes: self.size_bytes }
    }
}

/// The content of a `HuggingFaceModelResult`.
pub struct ModelResultView {
    pub repo: Seq<char>,
    pub downloads: Option<u64>,
    pub likes: Option<u64>,
    pub files: Seq<FileResultView>,
}

/// A repository found by a search, with the GGUF files it offers.
pub struct HuggingFaceModelResult {
    pub repo: String,
    pub downloads: Option<u64>,
    pub likes: Option<u64>,
    pub files: Vec<HuggingFaceFileResult>,
}

impl View for HuggingFaceModelResult {
    type V = ModelResultView;

    open spec fn view(&self) -> ModelResultView {
        ModelResultView {
            repo: self.repo@,
            downloads: self.downloads,
            likes: self.likes,
            files: views_of(self.files@),
        }
    }
}

/// Copies a list of file results.
pub fn clone_file_results(v: &Vec<HuggingFaceFileResult>) -> (r: Vec<HuggingFaceFileResult>)
    ensures
        views_of(r@) == views_of(v@),
{
    let mut r: Vec<HuggingFaceFileResult> = Vec::new();
    let mut i: usize = 0;
    while i < v.len()
        invariant
            i <= v@.len(),
            views_of(r@) == views_of(v@).take(i as int),
        decreases v@.len() - i,
    {
        let ghost before = views_of(r@);
        let f = v[i].clone();
        r.push(f);
        assert(views_of(r@) =~= before.push(v@[i as int]@));
        assert(views_of(v@).take(i + 1) =~= views_of(v@).take(i as int).push(v@[i as int]@));
        i += 1;
    }
    assert(views_of(v@).take(i as int) =~= views_of(v@));
    r
}

impl Clone for HuggingFaceModelResult {
    fn clone(&self) -> (r: Self)
        ensures
            r@ == self@,
    {
        HuggingFaceModelResult {
            repo: self.repo.clone(),
            downloads: self.downloads,
            likes: self.likes,
            files: clone_file_results(&self.files),
        }
    }
}

/// A size is known when it is present and not zero.
pub open spec fn known_size(size: Option<u64>) -> bool {
    size matches Some(s) && s > 0
}

pub fn has_known_size(size: Option<u64>) -> (r: bool)
    ensures
        r == known_size(size),
{
    match size {
        Some(s) => s > 0,
        None => false,
    }
}

// ---------------------------------------------------------------------------
// File sizes from a repository listing
// ---------------------------------------------------------------------------

/// The content of a `FileSize`.
pub struct FileSizeView {
    pub path: Seq<char>,
    pub size: u64,
}

/// The size of one file of a repository.
pub struct FileSize {
    pub path: String,
    pub size: u64,
}

impl View for FileSize {
    type V = FileSizeView;

    open spec fn view(&self) -> FileSizeView {
        FileSizeView { path: self.path@, size: self.size }
    }
}

impl Keyed for FileSize {
    open spec fn key_of(v: FileSizeView) -> Seq<char> {
        v.path
    }

    fn key(&self) -> (k: &str) {
        self.path.as_str()
    }

    fn duplicate(&self) -> (r: Self) {
        FileSize { path: self.path.clone(), size: self.size }
    }
}

/// The sizes of a repository's files, by path.
pub type SizeTable = KeyedList<FileSize>;

/// The size recorded for `name`, if any.
pub open spec fn size_of(sizes: Map<Seq<char>, FileSizeView>, name: Seq<char>) -> Option<u64> {
    if sizes.contains_key(name) {
        Some(sizes[name].size)
    } else {
        None
    }
}

/// A file keeps a known size; any other takes the size the table gives
/// its name, or none.
pub open spec fn with_table_size(
    f: FileResultView,
    sizes: Map<Seq<char>, FileSizeView>,
) -> FileResultView {
    if known_size(f.size_bytes) {
        f
    } else {
        FileResultView { filename: f.filename, size_bytes: size_of(sizes, f.filename) }
    }
}

pub open spec fn files_with_sizes(
    files: Seq<FileResultView>,
    sizes: Map<Seq<char>, FileSizeView>,
) -> Seq<FileResultView> {
    Seq::new(files.len(), |i: int| with_table_size(files[i], sizes))
}

/// Fills the files of `result` whose size is unknown from `sizes`; the
/// sizes the search itself reported are kept.
pub fn apply_huggingface_sizes(result: &mut HuggingFaceModelResult, sizes: &SizeTable)
    requires
        sizes.wf(),
    ensures
        final(result)@ == (ModelResultView {
            files: files_with_sizes(old(result)@.files, sizes.map()),
            ..old(result)@
        }),
{
    let ghost start = views_of(result.files@);
    let mut files: Vec<HuggingFaceFileResult> = Vec::new();
    let mut i: usize = 0;
    while i < result.files.len()
        invariant
            sizes.wf(),
            i <= result.files@.len(),
            start == views_of(result.files@),
            views_of(files@) == files_with_sizes(start, sizes.map()).take(i as int),
        decreases result.files@.len() - i,
    {
        let f = &result.files[i];
        let size = if has_known_size(f.size_bytes) {
            f.size_bytes
        } else {
            match sizes.get(f.filename.as_str()) {
                Some(entry) => Some(entry.size),
                None => None,
            }
        };
        let ghost before = views_of(files@);
        files.push(HuggingFaceFileResult { filename: f.filename.clone(), size_bytes: size });
        assert(views_of(files@) =~= before.push(with_table_size(start[i as int], sizes.map())));
        assert(files_with_sizes(start, sizes.map()).take(i + 1) =~= files_with_sizes(
            start,
            sizes.map(),
        ).take(i as int).push(with_table_size(start[i as int], sizes.map())));
        i += 1;
    }
    assert(files_with_sizes(start, sizes.map()).take(i as int) =~= files_with_sizes(
        start,
        sizes.map(),
    ));
    result.files = files;
}

// ---------------------------------------------------------------------------
// Blocked keywords
// ---------------------------------------------------------------------------

/// A keyword as it is matched: trimmed and ASCII lower-cased.
pub open spec fn keyword_form(k: Seq<char>) -> Seq<char> {
    lower(trim(k, Strip::Space))
}

/// `text` holds a non-empty blocked keyword, ignoring ASCII case.
pub open spec fn is_blocked(text: Seq<char>, keywords: Seq<Seq<char>>) -> bool {
    exists|i: int|
        0 <= i < keywords.len() && keyword_form(keywords[i]).len() > 0 && contains(
            lower(text),
            #[trigger] keyword_form(keywords[i]),
        )
}

pub fn is_blocked_model_text(text: &str, blocked_keywords: &[String]) -> (r: bool)
    ensures
        r == is_blocked(text@, views_of(blocked_keywords@)),
{
    let low = lower_string(text);
    let mut i: usize = 0;
    while i < blocked_keywords.len()
        invariant
            i <= blocked_keywords@.len(),
            low@ == lower(text@),
            forall|j: int|
                0 <= j < i ==> !(keyword_form(blocked_keywords@[j]@).len() > 0 && contains(
                    lower(text@),
                    keyword_form(blocked_keywords@[j]@),
                )),
        decreases blocked_keywords@.len() - i,
    {
        let t = trim_string(blocked_keywords[i].as_str(), &Strip::Space);
        let k = lower_string(t.as_str());
        if !k.as_str().is_empty() && str_contains(low.as_str(), k.as_str()) {
            assert(views_of(blocked_keywords@)[i as int] == blocked_keywords@[i as int]@);
            assert(contains(lower(text@), keyword_form(views_of(blocked_keywords@)[i as int])));
            return true;
        }
        i += 1;
    }
    proof {
        assert forall|j: int| 0 <= j < views_of(blocked_keywords@).len() implies !(keyword_form(
            views_of(blocked_keywords@)[j],
        ).len() > 0 && contains(lower(text@), keyword_form(views_of(blocked_keywords@)[j]))) by {
            assert(views_of(blocked_keywords@)[j] == blocked_keywords@[j]@);
        }
    }
    false
}

// ---------------------------------------------------------------------------
// From the Hub's answer to the offered results
// ---------------------------------------------------------------------------

/// The content of a `HubSibling`.
pub struct HubSiblingView {
    pub filename: Seq<char>,
    pub size: Option<u64>,
}

/// A file of a repository as the Hub's search lists it.
pub struct HubSibling {
    pub filename: String,
    pub size: Option<u64>,
}

impl View for HubSibling {
    type V = HubSiblingView;

    open spec fn view(&self) -> HubSiblingView {
        HubSiblingView { filename: self.filename@, size: self.size }
    }
}

/// The content of a `HubModel`.
pub struct HubModelView {
    pub model_id: Seq<char>,
    pub downloads: Option<u64>,
    pub likes: Option<u64>,
    pub siblings: Option<Seq<HubSiblingView>>,
}

/// A repository as the Hub's search lists it.
pub struct HubModel {
    pub model_id: String,
    pub downloads: Option<u64>,
    pub likes: Option<u64>,
    pub siblings: Option<Vec<HubSibling>>,
}

impl View for HubModel {
    type V = HubModelView;

    open spec fn view(&self) -> HubModelView {
        HubModelView {
            model_id: self.model_id@,
            downloads: self.downloads,
            likes: self.likes,
            siblings: match self.siblings {
                Some(v) => Some(views_of(v@)),
                None => None,
            },
        }
    }
}

pub open spec fn gguf_suffix() -> Seq<char> {
    ".gguf"@
}

/// A file is offered when its name ends in `.gguf` (any ASCII case) and
/// holds no blocked keyword.
pub open spec fn is_offered_file(f: HubSiblingView, keywords: Seq<Seq<char>>) -> bool {
    ends_with(lower(f.filename), gguf_suffix()) && !is_blocked(f.filename, keywords)
}

pub open spec fn offered_files(files: Seq<HubSiblingView>, keywords: Seq<Seq<char>>) -> Seq<
    FileResultView,
>
    decreases files.len(),
{
    if files.len() == 0 {
        Seq::empty()
    } else {
        let r = offered_files(files.drop_last(), keywords);
        let f = files.last();
        if is_offered_file(f, keywords) {
            r.push(FileResultView { filename: f.filename, size_bytes: f.size })
        } else {
            r
        }
    }
}

pub open spec fn siblings_of(m: HubModelView) -> Seq<HubSiblingView> {
    match m.siblings {
        Some(s) => s,
        None => Seq::empty(),
    }
}

/// The results of a search: every repository whose name holds no blocked
/// keyword and that offers at least one file, in the Hub's order.
pub open spec fn search_results(models: Seq<HubModelView>, keywords: Seq<Seq<char>>) -> Seq<
    ModelResultView,
>
    decreases models.len(),
{
    if models.len() == 0 {
        Seq::empty()
    } else {
        let r = search_results(models.drop_last(), keywords);
        let m = models.last();
        let files = offered_files(siblings_of(m), keywords);
        if !is_blocked(m.model_id, keywords) && files.len() > 0 {
            r.push(
                ModelResultView {
                    repo: m.model_id,
                    downloads: m.downloads,
                    likes: m.likes,
                    files: files,
                },
            )
        } else {
            r
        }
    }
}

/// A file of the Hub's listing that the search offers: its lower-cased name
/// ends in `.gguf` and holds no blocked keyword.
pub open spec fn offers(keywords: Seq<Seq<char>>) -> spec_fn(HubSiblingView) -> bool {
    |f: HubSiblingView| ends_with(lower(f.filename), ".gguf"@) && !is_blocked(f.filename, keywords)
}

pub open spec fn as_file_result(f: HubSiblingView) -> FileResultView {
    FileResultView { filename: f.filename, size_bytes: f.size }
}

/// Every offered file of a repository is in its result, in the Hub's order,
/// with its name and size, and no other file is.
pub proof fn law_offered_files_are_all_kept(files: Seq<HubSiblingView>, keywords: Seq<Seq<char>>)
    ensures
        offered_files(files, keywords) == files.filter(offers(keywords)).map_values(
            |f: HubSiblingView| as_file_result(f),
        ),
        offered_files(files, keywords).len() == files.filter(offers(keywords)).len(),
    decreases files.len(),
{
    reveal_strlit(".gguf");
    let p = offers(keywords);
    let g = |f: HubSiblingView| as_file_result(f);
    if files.len() == 0 {
        reveal_with_fuel(vstd::seq::Seq::filter, 1);
        assert(files.filter(p).map_values(g) =~= Seq::<FileResultView>::empty());
    } else {
        let d = files.drop_last();
        law_offered_files_are_all_kept(d, keywords);
        reveal_with_fuel(vstd::seq::Seq::filter, 1);
        let f = files.last();
        assert(p(f) == is_offered_file(f, keywords));
        if p(f) {
            assert(files.filter(p) == d.filter(p).push(f));
            assert(d.filter(p).push(f).map_values(g) =~= d.filter(p).map_values(g).push(g(f)));
        } else {
            assert(files.filter(p) == d.filter(p));
        }
    }
}

/// The results of a search are the repositories, in the Hub's order, whose
/// name holds no blocked keyword and that offer some file, each with its
/// counts and all its offered files.
pub proof fn law_search_results_keep_offering_repositories(
    models: Seq<HubModelView>,
    keywords: Seq<Seq<char>>,
)
    ensures
        search_results(models, keywords) == models.filter(
            |m: HubModelView|
                !is_blocked(m.model_id, keywords) && siblings_of(m).filter(offers(keywords)).len()
                    > 0,
        ).map_values(
            |m: HubModelView|
                ModelResultView {
                    repo: m.model_id,
                    downloads: m.downloads,
                    likes: m.likes,
                    files: siblings_of(m).filter(offers(keywords)).map_values(
                        |f: HubSiblingView| as_file_result(f),
                    ),
                },
        ),
    decreases models.len(),
{
    let p = |m: HubModelView|
        !is_blocked(m.model_id, keywords) && siblings_of(m).filter(offers(keywords)).len() > 0;
    let g = |m: HubModelView|
        ModelResultView {
            repo: m.model_id,
            downloads: m.downloads,
            likes: m.likes,
            files: siblings_of(m).filter(offers(keywords)).map_values(
                |f: HubSiblingView| as_file_result(f),
            ),
        };
    if models.len() == 0 {
        reveal_with_fuel(vstd::seq::Seq::filter, 1);
        assert(models.filter(p).map_values(g) =~= Seq::<ModelResultView>::empty());
    } else {
        let d = models.drop_last();
        law_search_results_keep_offering_repositories(d, keywords);
        reveal_with_fuel(vstd::seq::Seq::filter, 1);
        let m = models.last();
        law_offered_files_are_all_kept(siblings_of(m), keywords);
        if p(m) {
            assert(models.filter(p) == d.filter(p).push(m));
            assert(d.filter(p).push(m).map_values(g) =~= d.filter(p).map_values(g).push(g(m)));
        } else {
            assert(models.filter(p) == d.filter(p));
        }
    }
}

fn offered_file_results(files: &Vec<HubSibling>, blocked_keywords: &[String]) -> (r: Vec<
    HuggingFaceFileResult,
>)
    ensures
        views_of(r@) == offered_files(views_of(files@), views_of(blocked_keywords@)),
{
    let suffix = chars_of(".gguf");
    proof {
        reveal_strlit(".gguf");
    }
    let mut r: Vec<HuggingFaceFileResult> = Vec::new();
    let mut i: usize = 0;
    while i < files.len()
        invariant
            i <= files@.len(),
            suffix@ == gguf_suffix(),
            views_of(r@) == offered_files(
                views_of(files@).take(i as int),
                views_of(blocked_keywords@),
            ),
        decreases files@.len() - i,
    {
        let f = &files[i];
        let low = chars_of(lower_string(f.filename.as_str()).as_str());
        let ghost before = views_of(r@);
        assert(views_of(files@).take(i + 1).drop_last() =~= views_of(files@).take(i as int));
        assert(views_of(files@).take(i + 1).last() == f@);
        if ends_with_chars(low.as_slice(), suffix.as_slice()) && !is_blocked_model_text(
            f.filename.as_str(),
            blocked_keywords,
        ) {
            r.push(HuggingFaceFileResult { filename: f.filename.clone(), size_bytes: f.size });
            assert(views_of(r@) =~= before.push(
                FileResultView { filename: f.filename@, size_bytes: f.size },
            ));
        }
        i += 1;
    }
    assert(views_of(files@).take(i as int) =~= views_of(files@));
    r
}

/// Turns the Hub's answer into the offered results.
pub fn huggingface_search_results(models: &Vec<HubModel>, blocked_keywords: &[String]) -> (r: Vec<
    HuggingFaceModelResult,
>)
    ensures
        views_of(r@) == search_results(views_of(models@), views_of(blocked_keywords@)),
{
    let mut r: Vec<HuggingFaceModelResult> = Vec::new();
    let mut i: usize = 0;
    while i < models.len()
        invariant
            i <= models@.len(),
            views_of(r@) == search_results(
                views_of(models@).take(i as int),
                views_of(blocked_keywords@),
            ),
        decreases models@.len() - i,
    {
        let m = &models[i];
        let ghost before = views_of(r@);
        assert(views_of(models@).take(i + 1).drop_last() =~= views_of(models@).take(i as int));
        assert(views_of(models@).take(i + 1).last() == m@);
        let files = match &m.siblings {
            Some(s) => offered_file_results(s, blocked_keywords),
            None => {
                let empty: Vec<HubSibling> = Vec::new();
                assert(views_of(empty@) =~= Seq::<HubSiblingView>::empty());
                offered_file_results(&empty, blocked_keywords)
            },
        };
        assert(siblings_of(m@) == (match m.siblings {
            Some(s) => views_of(s@),
            None => Seq::<HubSiblingView>::empty(),
        }));
        if !is_blocked_model_text(m.model_id.as_str(), blocked_keywords) && files.len() > 0 {
            let ghost fv = views_of(files@);
            r.push(
                HuggingFaceModelResult {
                    repo: m.model_id.clone(),
                    downloads: m.downloads,
                    likes: m.likes,
                    files: files,
                },
            );
            assert(views_of(r@) =~= before.push(
                ModelResultView {
                    repo: m.model_id@,
                    downloads: m.downloads,
                    likes: m.likes,
                    files: fv,
                },
            ));
        }
        i += 1;
    }
    assert(views_of(models@).take(i as int) =~= views_of(models@));
    r
}

/// How many results a search asks for: the requested number, 12 by
/// default, kept between 1 and 25.
pub open spec fn search_limit_for(limit: Option<usize>) -> usize {
    let n = match limit {
        Some(n) => n,
        None => 12,
    };
    if n < 1 {
        1
    } else if n > 25 {
        25
    } else {
        n
    }
}

pub fn search_limit(limit: Option<usize>) -> (r: usize)
    ensures
        r == search_limit_for(limit),
{
    let n = match limit {
        Some(n) => n,
        None => 12,
    };
    if n < 1 {
        1
    } else if n > 25 {
        25
    } else {
        n
    }
}

// ---------------------------------------------------------------------------
// Repository listings and the cache of sizes
// ---------------------------------------------------------------------------

/// The large-file part of a listed file.
pub struct HubTreeLfs {
    pub size: Option<u64>,
}

/// The content of a `HubTreeFile`.
pub struct HubTreeFileView {
    pub path: Seq<char>,
    pub size: Option<u64>,
    pub lfs_size: Option<Option<u64>>,
}

/// A file of a repository's listing.
pub struct HubTreeFile {
    pub path: String,
    pub size: Option<u64>,
    pub lfs: Option<HubTreeLfs>,
}

impl View for HubTreeFile {
    type V = HubTreeFileView;

    open spec fn view(&self) -> HubTreeFileView {
        HubTreeFileView {
            path: self.path@,
            size: self.size,
            lfs_size: match self.lfs {
                Some(l) => Some(l.size),
                None => None,
            },
        }
    }
}

/// The size of a listed file: its large-file size, else its size; a zero
/// size counts as none.
pub open spec fn listed_size(f: HubTreeFileView) -> Option<u64> {
    let s = match f.lfs_size {
        Some(Some(n)) => Some(n),
        _ => f.size,
    };
    match s {
        Some(n) => if n > 0 {
            Some(n)
        } else {
            None
        },
        None => None,
    }
}

/// The sizes of a listing by path; a later entry for a path wins.
pub open spec fn listing_sizes(files: Seq<HubTreeFileView>) -> Map<Seq<char>, FileSizeView>
    decreases files.len(),
{
    if files.len() == 0 {
        Map::empty()
    } else {
        let m = listing_sizes(files.drop_last());
        let f = files.last();
        match listed_size(f) {
            Some(n) => m.insert(f.path, FileSizeView { path: f.path, size: n }),
            None => m,
        }
    }
}

/// The table of sizes read from a repository listing.
pub fn huggingface_file_sizes(files: &Vec<HubTreeFile>) -> (r: SizeTable)
    ensures
        r.wf(),
        r.map() == listing_sizes(views_of(files@)),
{
    let mut r: SizeTable = KeyedList::new();
    let mut i: usize = 0;
    while i < files.len()
        invariant
            i <= files@.len(),
            r.wf(),
            r.map() == listing_sizes(views_of(files@).take(i as int)),
        decreases files@.len() - i,
    {
        let f = &files[i];
        assert(views_of(files@).take(i + 1).drop_last() =~= views_of(files@).take(i as int));
        assert(views_of(files@).take(i + 1).last() == f@);
        let lfs_size = match &f.lfs {
            Some(l) => l.size,
            None => None,
        };
        let size = match lfs_size {
            Some(n) => Some(n),
            None => f.size,
        };
        match size {
            Some(n) => {
                if n > 0 {
                    r.insert(FileSize { path: f.path.clone(), size: n });
                }
            },
            None => {},
        }
        i += 1;
    }
    assert(views_of(files@).take(i as int) =~= views_of(files@));
    r
}

/// The content of a `RepoSizes`.
pub struct RepoSizesView {
    pub repo: Seq<char>,
    pub sizes: Map<Seq<char>, FileSizeView>,
}

/// The file sizes known for one repository.
pub struct RepoSizes {
    repo: String,
    sizes: SizeTable,
}

impl View for RepoSizes {
    type V = RepoSizesView;

    closed spec fn view(&self) -> RepoSizesView {
        RepoSizesView { repo: self.repo@, sizes: self.sizes.map() }
    }
}

impl RepoSizes {
    #[verifier::type_invariant]
    closed spec fn inv(self) -> bool {
        self.sizes.wf()
    }

    pub fn new(repo: String, sizes: SizeTable) -> (r: Self)
        requires
            sizes.wf(),
        ensures
            r@ == (RepoSizesView { repo: repo@, sizes: sizes.map() }),
    {
        RepoSizes { repo, sizes }
    }

    pub fn repo(&self) -> (r: &str)
        ensures
            r@ == self@.repo,
    {
        self.repo.as_str()
    }

    pub fn sizes(&self) -> (r: &SizeTable)
        ensures
            r.wf(),
            r.map() == self@.sizes,
    {
        proof {
            use_type_invariant(self);
        }
        &self.sizes
    }
}

impl Keyed for RepoSizes {
    open spec fn key_of(v: RepoSizesView) -> Seq<char> {
        v.repo
    }

    fn key(&self) -> (k: &str) {
        self.repo()
    }

    fn duplicate(&self) -> (r: Self) {
        let sizes = self.sizes().duplicate();
        RepoSizes::new(string_from(self.repo()), sizes)
    }
}

/// The sizes already fetched, by repository.
pub type SizeCache = KeyedList<RepoSizes>;

/// Some file of the result has no known size.
pub open spec fn needs_sizes(r: ModelResultView) -> bool {
    exists|i: int| 0 <= i < r.files.len() && !known_size(#[trigger] r.files[i].size_bytes)
}

pub fn result_needs_sizes(result: &HuggingFaceModelResult) -> (r: bool)
    ensures
        r == needs_sizes(result@),
{
    let mut i: usize = 0;
    while i < result.files.len()
        invariant
            i <= result.files@.len(),
            forall|j: int| 0 <= j < i ==> known_size(result@.files[j].size_bytes),
        decreases result.files@.len() - i,
    {
        assert(result@.files[i as int] == result.files@[i as int]@);
        if !has_known_size(result.files[i].size_bytes) {
            return true;
        }
        i += 1;
    }
    false
}

/// A result with the sizes of `entries[repo]` applied, when there are any.
pub open spec fn with_repo_sizes(r: ModelResultView, entries: Map<Seq<char>, RepoSizesView>) -> ModelResultView {
    if entries.contains_key(r.repo) {
        ModelResultView { files: files_with_sizes(r.files, entries[r.repo].sizes), ..r }
    } else {
        r
    }
}

pub open spec fn results_with_sizes(
    rs: Seq<ModelResultView>,
    entries: Map<Seq<char>, RepoSizesView>,
) -> Seq<ModelResultView> {
    Seq::new(rs.len(), |i: int| with_repo_sizes(rs[i], entries))
}

/// A repository whose sizes still have to be fetched: one of its files has
/// no known size and the cache has nothing for it.
pub open spec fn is_missing_repo(
    rs: Seq<ModelResultView>,
    cache: Map<Seq<char>, RepoSizesView>,
    repo: Seq<char>,
) -> bool {
    exists|i: int|
        0 <= i < rs.len() && #[trigger] rs[i].repo == repo && needs_sizes(rs[i])
            && !cache.contains_key(repo)
}

/// Applies the cached sizes to `results`, and lists, sorted and each once,
/// the repositories whose sizes are still missing.
pub fn apply_cached_huggingface_sizes(
    results: &mut Vec<HuggingFaceModelResult>,
    cache: &SizeCache,
) -> (missing: Vec<String>)
    requires
        cache.wf(),
    ensures
        views_of(final(results)@) == results_with_sizes(views_of(old(results)@), cache.map()),
        crate::keyed::keys_sorted::<String>(views_of(missing@)),
        forall|repo: Seq<char>|
            views_of(missing@).contains(repo) <==> is_missing_repo(
                views_of(old(results)@),
                cache.map(),
                repo,
            ),
{
    let ghost start = views_of(results@);
    let mut found: KeyedList<String> = KeyedList::new();
    let mut out: Vec<HuggingFaceModelResult> = Vec::new();
    let mut i: usize = 0;
    while i < results.len()
        invariant
            cache.wf(),
            found.wf(),
            i <= results@.len(),
            start == views_of(results@),
            views_of(out@) == results_with_sizes(start, cache.map()).take(i as int),
            forall|repo: Seq<char>|
                found.map().contains_key(repo) <==> is_missing_repo(
                    start.take(i as int),
                    cache.map(),
                    repo,
                ),
        decreases results@.len() - i,
    {
        let r = &results[i];
        let needs = result_needs_sizes(r);
        let mut copy = r.clone();
        match cache.get(r.repo.as_str()) {
            Some(entry) => {
                apply_huggingface_sizes(&mut copy, entry.sizes());
            },
            None => {
                if needs {
                    found.insert(r.repo.clone());
                }
            },
        }
        let ghost before = views_of(out@);
        out.push(copy);
        proof {
            assert(views_of(out@) =~= before.push(with_repo_sizes(start[i as int], cache.map())));
            assert(results_with_sizes(start, cache.map()).take(i + 1) =~= results_with_sizes(
                start,
                cache.map(),
            ).take(i as int).push(with_repo_sizes(start[i as int], cache.map())));
            assert forall|repo: Seq<char>|
                found.map().contains_key(repo) <==> is_missing_repo(
                    start.take(i + 1),
                    cache.map(),
                    repo,
                ) by {
                if is_missing_repo(start.take(i + 1), cache.map(), repo) {
                    let j = choose|j: int|
                        0 <= j < start.take(i + 1).len() && #[trigger] start.take(i + 1)[j].repo
                            == repo && needs_sizes(start.take(i + 1)[j]) && !cache.map().contains_key(
                            repo,
                        );
                    if j < i {
                        assert(start.take(i as int)[j] == start.take(i + 1)[j]);
                    }
                }
                if is_missing_repo(start.take(i as int), cache.map(), repo) {
                    let j = choose|j: int|
                        0 <= j < start.take(i as int).len() && #[trigger] start.take(
                            i as int,
                        )[j].repo == repo && needs_sizes(start.take(i as int)[j])
                            && !cache.map().contains_key(repo);
                    assert(start.take(i + 1)[j] == start.take(i as int)[j]);
                }
                if needs && !cache.map().contains_key(r@.repo) && repo == r@.repo {
                    assert(start.take(i + 1)[i as int] == r@);
                }
            }
        }
        i += 1;
    }
    proof {
        assert(results_with_sizes(start, cache.map()).take(i as int) =~= results_with_sizes(
            start,
            cache.map(),
        ));
        assert(start.take(i as int) =~= start);
        found.lemma_listing();
    }
    *results = out;
    let missing = found.values();
    proof {
        assert forall|repo: Seq<char>| views_of(missing@).contains(repo) <==> is_missing_repo(
            start,
            cache.map(),
            repo,
        ) by {
            if views_of(missing@).contains(repo) {
                let k = choose|k: int| 0 <= k < views_of(missing@).len() && views_of(missing@)[k] == repo;
                assert(found.map().contains_key(String::key_of(views_of(missing@)[k])));
            }
            if found.map().contains_key(repo) {
                let k = choose|k: int|
                    0 <= k < views_of(missing@).len() && String::key_of(views_of(missing@)[k])
                        == repo;
                assert(views_of(missing@)[k] == repo);
            }
        }
    }
    missing
}

/// The fetched sizes that are kept: those of repositories with at least one
/// sized file, a later answer for a repository winning.
pub open spec fn fetched_map(fetched: Seq<RepoSizesView>) -> Map<Seq<char>, RepoSizesView>
    decreases fetched.len(),
{
    if fetched.len() == 0 {
        Map::empty()
    } else {
        let m = fetched_map(fetched.drop_last());
        let e = fetched.last();
        if e.sizes.dom().len() > 0 {
            m.insert(e.repo, e)
        } else {
            m
        }
    }
}

/// Records the sizes fetched for the missing repositories: they join the
/// cache and fill the results of those repositories.
pub fn record_fetched_huggingface_sizes(
    results: &mut Vec<HuggingFaceModelResult>,
    cache: &mut SizeCache,
    fetched: Vec<RepoSizes>,
)
    requires
        old(cache).wf(),
    ensures
        final(cache).wf(),
        final(cache).map() == old(cache).map().union_prefer_right(fetched_map(views_of(fetched@))),
        views_of(final(results)@) == results_with_sizes(
            views_of(old(results)@),
            fetched_map(views_of(fetched@)),
        ),
{
    let ghost c0 = cache.map();
    let ghost fs = views_of(fetched@);
    let mut table: SizeCache = KeyedList::new();
    let mut i: usize = 0;
    proof {
        assert(c0.union_prefer_right(Map::empty()) =~= c0);
    }
    while i < fetched.len()
        invariant
            i <= fetched@.len(),
            fs == views_of(fetched@),
            cache.wf(),
            table.wf(),
            table.map() == fetched_map(fs.take(i as int)),
            cache.map() == c0.union_prefer_right(fetched_map(fs.take(i as int))),
        decreases fetched@.len() - i,
    {
        let e = &fetched[i];
        assert(fs.take(i + 1).drop_last() =~= fs.take(i as int));
        assert(fs.take(i + 1).last() == e@);
        if e.sizes().len() > 0 {
            let ghost m = fetched_map(fs.take(i as int));
            table.insert(e.duplicate());
            cache.insert(e.duplicate());
            assert(c0.union_prefer_right(m.insert(e@.repo, e@)) =~= c0.union_prefer_right(m).insert(
                e@.repo,
                e@,
            ));
        }
        i += 1;
    }
    assert(fs.take(i as int) =~= fs);
    let ghost start = views_of(results@);
    let mut out: Vec<HuggingFaceModelResult> = Vec::new();
    let mut k: usize = 0;
    while k < results.len()
        invariant
            k <= results@.len(),
            start == views_of(results@),
            table.wf(),
            table.map() == fetched_map(fs),
            views_of(out@) == results_with_sizes(start, fetched_map(fs)).take(k as int),
        decreases results@.len() - k,
    {
        let mut copy = results[k].clone();
        match table.get(results[k].repo.as_str()) {
            Some(entry) => {
                apply_huggingface_sizes(&mut copy, entry.sizes());
            },
            None => {},
        }
        let ghost before = views_of(out@);
        out.push(copy);
        assert(views_of(out@) =~= before.push(with_repo_sizes(start[k as int], fetched_map(fs))));
        assert(results_with_sizes(start, fetched_map(fs)).take(k + 1) =~= results_with_sizes(
            start,
            fetched_map(fs),
        ).take(k as int).push(with_repo_sizes(start[k as int], fetched_map(fs))));
        k += 1;
    }
    assert(results_with_sizes(start, fetched_map(fs)).take(k as int) =~= results_with_sizes(
        start,
        fetched_map(fs),
    ));
    *results = out;
}

// ---------------------------------------------------------------------------
// Search filters
// ---------------------------------------------------------------------------

/// The keywords that hide search results.
pub struct SearchFiltersConfig {
    pub blocked_keywords: Vec<String>,
}

/// The safe default policy: results naming `nsfw` or `uncensored` are hidden.
pub open spec fn default_blocked_keywords() -> Seq<Seq<char>> {
    seq!["nsfw"@, "uncensored"@]
}

impl Default for SearchFiltersConfig {
    fn default() -> (r: Self)
        ensures
            views_of(r.blocked_keywords@) == default_blocked_keywords(),
    {
        let v = vec![string_from("nsfw"), string_from("uncensored")];
        assert(views_of(v@) =~= default_blocked_keywords());
        SearchFiltersConfig { blocked_keywords: v }
    }
}

impl Clone for SearchFiltersConfig {
    fn clone(&self) -> (r: Self)
        ensures
            views_of(r.blocked_keywords@) == views_of(self.blocked_keywords@),
    {
        let mut v: Vec<String> = Vec::new();
        let mut i: usize = 0;
        while i < self.blocked_keywords.len()
            invariant
                i <= self.blocked_keywords@.len(),
                views_of(v@) == views_of(self.blocked_keywords@).take(i as int),
            decreases self.blocked_keywords@.len() - i,
        {
            let ghost before = views_of(v@);
            let c = self.blocked_keywords[i].clone();
            assert(c@ == self.blocked_keywords@[i as int]@);
            v.push(c);
            assert(views_of(v@) =~= before.push(self.blocked_keywords@[i as int]@));
            assert(views_of(self.blocked_keywords@).take(i + 1) =~= views_of(
                self.blocked_keywords@,
            ).take(i as int).push(self.blocked_keywords@[i as int]@));
            i += 1;
        }
        assert(views_of(self.blocked_keywords@).take(i as int) =~= views_of(
            self.blocked_keywords@,
        ));
        SearchFiltersConfig { blocked_keywords: v }
    }
}

/// Why a keyword was not added.
pub enum BlockedKeywordError {
    /// The keyword is empty once trimmed.
    Required,
}

impl BlockedKeywordError {
    pub fn message(&self) -> (m: String)
        ensures
            m@ == "keyword is required"@,
    {
        string_from("keyword is required")
    }
}

/// `str::eq_ignore_ascii_case`.
pub open spec fn eq_ignore_case(a: Seq<char>, b: Seq<char>) -> bool {
    lower(a) == lower(b)
}

pub open spec fn has_keyword(keywords: Seq<Seq<char>>, k: Seq<char>) -> bool {
    exists|i: int| 0 <= i < keywords.len() && eq_ignore_case(#[trigger] keywords[i], k)
}

/// Adds a keyword, trimmed and lower-cased, unless an equal one (ignoring
/// ASCII case) is already there; the list is then sorted.
pub fn add_blocked_keyword(filters: &mut SearchFiltersConfig, keyword: &str) -> (r: Result<
    (),
    BlockedKeywordError,
>)
    ensures
        r is Err <==> keyword_form(keyword@).len() == 0,
        r is Err ==> views_of(final(filters).blocked_keywords@) == views_of(
            old(filters).blocked_keywords@,
        ),
        r is Ok && has_keyword(views_of(old(filters).blocked_keywords@), keyword_form(keyword@))
            ==> views_of(final(filters).blocked_keywords@) == views_of(
            old(filters).blocked_keywords@,
        ),
        r is Ok && !has_keyword(views_of(old(filters).blocked_keywords@), keyword_form(keyword@))
            ==> views_of(final(filters).blocked_keywords@) == stable_sort::<String>(
            views_of(old(filters).blocked_keywords@).push(keyword_form(keyword@)),
        ),
{
    let t = trim_string(keyword, &Strip::Space);
    let k = lower_string(t.as_str());
    if k.as_str().is_empty() {
        return Err(BlockedKeywordError::Required);
    }
    let kl = lower_string(k.as_str());
    let ghost ks = views_of(filters.blocked_keywords@);
    let mut i: usize = 0;
    while i < filters.blocked_keywords.len()
        invariant
            i <= filters.blocked_keywords@.len(),
            ks == views_of(filters.blocked_keywords@),
            k@ == keyword_form(keyword@),
            k@.len() > 0,
            kl@ == lower(k@),
            forall|j: int| 0 <= j < i ==> !eq_ignore_case(ks[j], k@),
        decreases filters.blocked_keywords@.len() - i,
    {
        let el = lower_string(filters.blocked_keywords[i].as_str());
        assert(ks[i as int] == filters.blocked_keywords@[i as int]@);
        if crate::text::str_eq(el.as_str(), kl.as_str()) {
            assert(eq_ignore_case(ks[i as int], k@));
            return Ok(());
        }
        i += 1;
    }
    let mut v: Vec<String> = Vec::new();
    std::mem::swap(&mut v, &mut filters.blocked_keywords);
    let ghost kv = k@;
    v.push(k);
    assert(views_of(v@) =~= ks.push(kv));
    filters.blocked_keywords = sort_by_key(v);
    Ok(())
}

/// An added keyword is in the list afterwards, which stays sorted and keeps
/// every keyword it had.
pub proof fn law_added_keyword_is_kept(keywords: Seq<Seq<char>>, k: Seq<char>)
    ensures
        stable_sort::<String>(keywords.push(k)).contains(k),
        crate::sorting::keys_ordered::<String>(stable_sort::<String>(keywords.push(k))),
        forall|i: int|
            0 <= i < keywords.len() ==> stable_sort::<String>(keywords.push(k)).contains(
                #[trigger] keywords[i],
            ),
{
    let all = keywords.push(k);
    crate::sorting::law_stable_sort_orders::<String>(all);
    let sorted = stable_sort::<String>(all);
    vstd::seq_lib::to_multiset_contains(all, k);
    assert(all[all.len() - 1] == k);
    assert(all.contains(k));
    vstd::seq_lib::to_multiset_contains(sorted, k);
    assert forall|i: int| 0 <= i < keywords.len() implies sorted.contains(#[trigger] keywords[i]) by {
        assert(all[i] == keywords[i]);
        vstd::seq_lib::to_multiset_contains(all, keywords[i]);
        vstd::seq_lib::to_multiset_contains(sorted, keywords[i]);
    }
}

} // verus!
