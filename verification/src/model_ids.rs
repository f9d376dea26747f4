//! Model identifiers: deriving an id from a GGUF file name, keeping
//! suggested ids unique, and naming the copy of an imported model file.

use vstd::prelude::*;
use crate::paths::{extension, extension_of, join, join_path};
use crate::text::{
    chars_of, decimal, decimal_string, ends_with, is_ascii_alphanumeric, lemma_decimal_injective,
    lemma_decimal_shape, push_char, push_str, slice_eq, str_eq, string_from, string_of, trim,
    trim_bounds, Strip,
};

verus! {

broadcast use vstd::string::group_string_axioms;

pub open spec fn local_model() -> Seq<char> {
    seq!['l', 'o', 'c', 'a', 'l', '-', 'm', 'o', 'd', 'e', 'l']
}

pub open spec fn gguf_suffix_lower() -> Seq<char> {
    seq!['.', 'g', 'g', 'u', 'f']
}

pub open spec fn gguf_suffix_upper() -> Seq<char> {
    seq!['.', 'G', 'G', 'U', 'F']
}

/// The file name without a `.gguf` (or `.GGUF`) suffix.
pub open spec fn gguf_stem(f: Seq<char>) -> Seq<char> {
    if ends_with(f, gguf_suffix_lower()) || ends_with(f, gguf_suffix_upper()) {
        f.subrange(0, f.len() - 5)
    } else {
        f
    }
}

/// Characters allowed in a derived model id; every other becomes `-`.
pub open spec fn id_char(c: char) -> char {
    if is_ascii_alphanumeric(c) || c == '-' || c == '_' || c == '.' {
        c
    } else {
        '-'
    }
}

/// `model_id_from_filename`.
pub open spec fn model_id_for(filename: Seq<char>) -> Seq<char> {
    let id = trim(gguf_stem(filename).map_values(|c: char| id_char(c)), Strip::Char('-'));
    if id.len() == 0 {
        local_model()
    } else {
        id
    }
}

/// A derived model id is never empty.
pub proof fn law_model_id_nonempty(filename: Seq<char>)
    ensures
        model_id_for(filename).len() > 0,
{
}

fn local_model_string() -> (s: String)
    ensures
        s@ == local_model(),
{
    let v: Vec<char> = vec!['l', 'o', 'c', 'a', 'l', '-', 'm', 'o', 'd', 'e', 'l'];
    assert(v@ =~= local_model());
    string_of(v.as_slice())
}

/// The model id suggested for a GGUF file: the name without its `.gguf`
/// suffix, with characters other than ASCII letters, digits, `-`, `_` and `.`
/// replaced by `-` and outer dashes removed; `local-model` when nothing is left.
pub fn model_id_from_filename(filename: &str) -> (id: String)
    ensures
        id@ == model_id_for(filename@),
{
    let f = chars_of(filename);
    let lo: Vec<char> = vec!['.', 'g', 'g', 'u', 'f'];
    let up: Vec<char> = vec!['.', 'G', 'G', 'U', 'F'];
    assert(lo@ =~= gguf_suffix_lower());
    assert(up@ =~= gguf_suffix_upper());
    let n = f.len();
    let stem_len = if crate::text::ends_with_chars(f.as_slice(), lo.as_slice())
        || crate::text::ends_with_chars(f.as_slice(), up.as_slice()) {
        n - 5
    } else {
        n
    };
    let ghost stem = gguf_stem(f@);
    assert(stem =~= f@.subrange(0, stem_len as int));
    let mut mapped: Vec<char> = Vec::new();
    let mut i: usize = 0;
    while i < stem_len
        invariant
            stem_len <= f@.len(),
            i <= stem_len,
            stem == f@.subrange(0, stem_len as int),
            mapped@ == stem.take(i as int).map_values(|c: char| id_char(c)),
        decreases stem_len - i,
    {
        let c = f[i];
        let m = if crate::text::is_ascii_alphanumeric_exec(c) || c == '-' || c == '_' || c == '.' {
            c
        } else {
            '-'
        };
        mapped.push(m);
        assert(stem.take(i + 1).map_values(|c: char| id_char(c)) =~= stem.take(
            i as int,
        ).map_values(|c: char| id_char(c)).push(id_char(c)));
        i += 1;
    }
    assert(stem.take(stem_len as int) =~= stem);
    let (a, b) = trim_bounds(mapped.as_slice(), &Strip::Char('-'));
    if a == b {
        local_model_string()
    } else {
        crate::text::string_of_range(mapped.as_slice(), a, b)
    }
}

// ---------------------------------------------------------------------------
// Unique ids
// ---------------------------------------------------------------------------

/// The views of a list of strings.
pub open spec fn views(v: Seq<String>) -> Seq<Seq<char>> {
    v.map_values(|s: String| s@)
}

/// The `k`-th alternative to `base`: `base-k`.
pub open spec fn numbered(base: Seq<char>, k: nat) -> Seq<char> {
    base + seq!['-'] + decimal(k)
}

/// `unique_model_id`'s answer for `base` given the ids already in use.
pub open spec fn is_unique_choice(base: Seq<char>, used: Seq<Seq<char>>, id: Seq<char>) -> bool {
    if !used.contains(base) {
        id == base
    } else {
        exists|k: nat|
            k >= 2 && id == numbered(base, k) && !used.contains(id) && forall|j: nat|
                2 <= j < k ==> used.contains(#[trigger] numbered(base, j))
    }
}

/// The first `k >= start` for which `base-k` is unused (looking no further
/// than one past the number of used ids, beyond which one is always free).
pub open spec fn free_suffix(base: Seq<char>, used: Seq<Seq<char>>, k: nat) -> nat
    decreases used.len() + 2 - k,
{
    if k > used.len() + 1 || !used.contains(numbered(base, k)) {
        k
    } else {
        free_suffix(base, used, k + 1)
    }
}

/// The id `unique_model_id` picks for `base` given the ids in use.
pub open spec fn unique_id_for(base: Seq<char>, used: Seq<Seq<char>>) -> Seq<char> {
    if !used.contains(base) {
        base
    } else {
        numbered(base, free_suffix(base, used, 2))
    }
}

proof fn lemma_free_suffix(base: Seq<char>, used: Seq<Seq<char>>, j: nat, k: nat)
    requires
        2 <= j <= k <= used.len() + 1,
        forall|i: nat| j <= i < k ==> used.contains(#[trigger] numbered(base, i)),
        !used.contains(numbered(base, k)),
    ensures
        free_suffix(base, used, j) == k,
    decreases k - j,
{
    if j < k {
        assert(used.contains(numbered(base, j)));
        lemma_free_suffix(base, used, j + 1, k);
    }
}

proof fn lemma_numbered_injective(base: Seq<char>, j: nat, k: nat)
    requires
        numbered(base, j) == numbered(base, k),
    ensures
        j == k,
{
    let nj = numbered(base, j);
    let nk = numbered(base, k);
    assert(nj.subrange(base.len() + 1int, nj.len() as int) =~= decimal(j));
    assert(nk.subrange(base.len() + 1int, nk.len() as int) =~= decimal(k));
    lemma_decimal_injective(j, k);
}

proof fn lemma_numbered_differs_from_base(base: Seq<char>, k: nat)
    ensures
        numbered(base, k) != base,
{
    lemma_decimal_shape(k);
    assert(numbered(base, k).len() > base.len());
}

/// Whether `s` is among `used`.
pub fn contains_string(used: &Vec<String>, s: &str) -> (r: bool)
    ensures
        r == views(used@).contains(s@),
{
    let mut i: usize = 0;
    while i < used.len()
        invariant
            i <= used@.len(),
            forall|j: int| 0 <= j < i ==> used@[j]@ != s@,
        decreases used@.len() - i,
    {
        if str_eq(used[i].as_str(), s) {
            assert(views(used@)[i as int] == s@);
            return true;
        }
        i += 1;
    }
    assert forall|j: int| 0 <= j < views(used@).len() implies views(used@)[j] != s@ by {
        assert(views(used@)[j] == used@[j]@);
    }
    false
}

fn numbered_string(base: &str, k: usize) -> (s: String)
    ensures
        s@ == numbered(base@, k as nat),
{
    let mut s = string_from(base);
    push_char(&mut s, '-');
    let d = decimal_string(k as u64);
    push_str(&mut s, d.as_str());
    s
}

/// `unique_model_id`: `base` if unused, otherwise the first free `base-k` with
/// `k >= 2`. The chosen id is recorded in `used`.
pub fn unique_model_id(base: &str, used: &mut Vec<String>) -> (id: String)
    requires
        old(used)@.len() < usize::MAX,
    ensures
        is_unique_choice(base@, views(old(used)@), id@),
        id@ == unique_id_for(base@, views(old(used)@)),
        views(final(used)@) == views(old(used)@).push(id@),
{
    let ghost u = views(used@);
    if !contains_string(used, base) {
        let id = string_from(base);
        used.push(string_from(base));
        assert(views(used@) =~= u.push(id@));
        return id;
    }
    let n = used.len();
    let ghost mut seen: Set<Seq<char>> = set![base@];
    proof {
        u.lemma_cardinality_of_set();
        vstd::set_lib::lemma_len_subset(seen, u.to_set());
    }
    let mut k: usize = 2;
    loop
        invariant
            n == used@.len() == u.len(),
            n < usize::MAX,
            u == views(used@),
            u == views(old(used)@),
            u.contains(base@),
            2 <= k <= n + 1,
            seen.finite(),
            seen.len() == k - 1,
            seen.subset_of(u.to_set()),
            forall|j: nat| 2 <= j < k ==> u.contains(#[trigger] numbered(base@, j)),
            forall|x: Seq<char>| #[trigger]
                seen.contains(x) ==> x == base@ || exists|j: nat|
                    2 <= j < k && x == numbered(base@, j),
        decreases n + 1 - k,
    {
        let candidate = numbered_string(base, k);
        if !contains_string(used, candidate.as_str()) {
            let id = string_from(candidate.as_str());
            used.push(candidate);
            assert(views(used@) =~= u.push(id@));
            assert(is_unique_choice(base@, u, id@)) by {
                assert(id@ == numbered(base@, k as nat));
            }
            proof {
                lemma_free_suffix(base@, u, 2, k as nat);
            }
            return id;
        }
        proof {
            let c = numbered(base@, k as nat);
            assert(!seen.contains(c)) by {
                if seen.contains(c) {
                    if c == base@ {
                        lemma_numbered_differs_from_base(base@, k as nat);
                    } else {
                        let j = choose|j: nat| 2 <= j < k && c == numbered(base@, j);
                        lemma_numbered_injective(base@, j, k as nat);
                    }
                }
            }
            seen = seen.insert(c);
            u.lemma_cardinality_of_set();
            vstd::set_lib::lemma_len_subset(seen, u.to_set());
        }
        k += 1;
    }
}

// ---------------------------------------------------------------------------
// Imported model files
// ---------------------------------------------------------------------------

/// Characters kept in the file name of an imported copy; others become `-`.
pub open spec fn file_id_char(c: char) -> char {
    if is_ascii_alphanumeric(c) || c == '-' || c == '_' {
        c
    } else {
        '-'
    }
}

/// The base name of an imported copy.
pub open spec fn import_base(model_id: Seq<char>) -> Seq<char> {
    let safe = model_id.map_values(|c: char| file_id_char(c));
    if trim(safe, Strip::Char('-')).len() == 0 {
        local_model()
    } else {
        safe
    }
}

/// The extension of an imported copy: the source's, or `gguf`.
pub open spec fn import_extension(source: Seq<char>) -> Seq<char> {
    match extension(source) {
        Some(e) => e,
        None => crate::paths::gguf(),
    }
}

/// The `index`-th candidate file name for an imported copy.
pub open spec fn import_file_name(model_id: Seq<char>, source: Seq<char>, index: nat) -> Seq<
    char,
> {
    if index == 0 {
        import_base(model_id) + seq!['.'] + import_extension(source)
    } else {
        import_base(model_id) + seq!['-'] + decimal(index) + seq!['.'] + import_extension(source)
    }
}

fn import_base_string(model_id: &str) -> (r: String)
    ensures
        r@ == import_base(model_id@),
{
    let id = chars_of(model_id);
    let mut safe: Vec<char> = Vec::new();
    let mut i: usize = 0;
    while i < id.len()
        invariant
            i <= id@.len(),
            safe@ == id@.take(i as int).map_values(|c: char| file_id_char(c)),
        decreases id@.len() - i,
    {
        let c = id[i];
        let m = if crate::text::is_ascii_alphanumeric_exec(c) || c == '-' || c == '_' {
            c
        } else {
            '-'
        };
        safe.push(m);
        assert(id@.take(i + 1).map_values(|c: char| file_id_char(c)) =~= id@.take(
            i as int,
        ).map_values(|c: char| file_id_char(c)).push(file_id_char(c)));
        i += 1;
    }
    assert(id@.take(id@.len() as int) =~= id@);
    let (a, b) = trim_bounds(safe.as_slice(), &Strip::Char('-'));
    if a == b {
        local_model_string()
    } else {
        string_of(safe.as_slice())
    }
}

fn import_extension_string(source: &str) -> (r: String)
    ensures
        r@ == import_extension(source@),
{
    let sv = chars_of(source);
    match extension_of(sv.as_slice()) {
        Some(e) => string_of(e.as_slice()),
        None => {
            let gv: Vec<char> = vec!['g', 'g', 'u', 'f'];
            assert(gv@ =~= crate::paths::gguf());
            string_of(gv.as_slice())
        },
    }
}

/// `import_destination`'s `index`-th candidate: the models directory joined
/// with the candidate file name. The first candidate that does not exist yet
/// is where the copy goes.
pub fn import_destination_candidate(
    models_directory: &str,
    model_id: &str,
    source: &str,
    index: usize,
) -> (r: String)
    ensures
        r@ == join(models_directory@, import_file_name(model_id@, source@, index as nat)),
{
    let mut name = import_base_string(model_id);
    if index > 0 {
        push_char(&mut name, '-');
        let d = decimal_string(index as u64);
        push_str(&mut name, d.as_str());
    }
    push_char(&mut name, '.');
    let ext = import_extension_string(source);
    push_str(&mut name, ext.as_str());
    join_path(models_directory, name.as_str())
}

} // verus!
