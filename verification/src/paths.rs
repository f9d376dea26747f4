//! Unix file-system paths as text: joining, component parsing, lexical
//! normalisation, containment in the models directory, file names and
//! extensions. These follow `std::path` on Unix (separator `/`), so the
//! library decides path questions without touching the disk.

use vstd::prelude::*;
use crate::text::{chars_of, lower, lower_string, push_char, slice_eq, string_from, string_of};

verus! {

broadcast use {vstd::string::group_string_axioms, crate::text::lemma_char_vec_deep_view};

pub open spec fn dot() -> Seq<char> {
    seq!['.']
}

pub open spec fn dot_dot() -> Seq<char> {
    seq!['.', '.']
}

/// The path is absolute (it starts at the root directory).
pub open spec fn is_absolute(s: Seq<char>) -> bool {
    s.len() > 0 && s[0] == '/'
}

/// `PathBuf::join` / `PathBuf::push`: an absolute `p` replaces `base`,
/// otherwise a separator is added unless `base` is empty or already ends in one.
pub open spec fn join(base: Seq<char>, p: Seq<char>) -> Seq<char> {
    if is_absolute(p) {
        p
    } else if base.len() == 0 {
        p
    } else if base.last() == '/' {
        base + p
    } else {
        base + seq!['/'] + p
    }
}

/// The texts between separators, empty ones included.
pub open spec fn pieces(s: Seq<char>) -> Seq<Seq<char>>
    decreases s.len(),
{
    if s.len() == 0 {
        seq![Seq::empty()]
    } else {
        let p = pieces(s.drop_last());
        if s.last() == '/' {
            p.push(Seq::empty())
        } else {
            p.update(p.len() - 1, p.last().push(s.last()))
        }
    }
}

pub proof fn lemma_pieces_nonempty(s: Seq<char>)
    ensures
        pieces(s).len() >= 1,
    decreases s.len(),
{
    if s.len() > 0 {
        lemma_pieces_nonempty(s.drop_last());
    }
}

/// Whether piece number `i` is a component (`Path::components`): empty pieces
/// never are, and `.` only as the very first piece of a relative path.
pub open spec fn keeps_piece(piece: Seq<char>, i: int, rooted: bool) -> bool {
    piece.len() > 0 && (piece != dot() || (i == 0 && !rooted))
}

/// The components among the first `k` pieces (`.` standing for the current
/// directory and `..` for the parent; the root is reported by `is_absolute`).
pub open spec fn components_upto(ps: Seq<Seq<char>>, k: int, rooted: bool) -> Seq<Seq<char>>
    decreases k,
{
    if k <= 0 {
        Seq::empty()
    } else {
        let before = components_upto(ps, k - 1, rooted);
        if keeps_piece(ps[k - 1], k - 1, rooted) {
            before.push(ps[k - 1])
        } else {
            before
        }
    }
}

/// `Path::components`, apart from the root directory.
pub open spec fn components(s: Seq<char>) -> Seq<Seq<char>> {
    components_upto(pieces(s), pieces(s).len() as int, is_absolute(s))
}

/// One step of lexical normalisation: `.` and empty pieces vanish, `..` removes
/// the last kept component (or is kept when there is none), others are kept.
pub open spec fn norm_step(stack: Seq<Seq<char>>, piece: Seq<char>) -> Seq<Seq<char>> {
    if piece.len() == 0 || piece == dot() {
        stack
    } else if piece == dot_dot() {
        if stack.len() > 0 {
            stack.drop_last()
        } else {
            stack.push(piece)
        }
    } else {
        stack.push(piece)
    }
}

pub open spec fn normalize_pieces(ps: Seq<Seq<char>>) -> Seq<Seq<char>>
    decreases ps.len(),
{
    if ps.len() == 0 {
        Seq::empty()
    } else {
        norm_step(normalize_pieces(ps.drop_last()), ps.last())
    }
}

/// The normalised components of `s`.
pub open spec fn normal_components(s: Seq<char>) -> Seq<Seq<char>> {
    normalize_pieces(pieces(s))
}

/// `a/b/c` from `[a, b, c]`.
pub open spec fn join_components(cs: Seq<Seq<char>>) -> Seq<char>
    decreases cs.len(),
{
    if cs.len() == 0 {
        Seq::empty()
    } else if cs.len() == 1 {
        cs[0]
    } else {
        join_components(cs.drop_last()) + seq!['/'] + cs.last()
    }
}

/// The text of a path given by its root flag and components.
pub open spec fn render(rooted: bool, cs: Seq<Seq<char>>) -> Seq<char> {
    if rooted {
        seq!['/'] + join_components(cs)
    } else {
        join_components(cs)
    }
}

/// `normalize_path`: the path with `.` removed and `..` resolved lexically.
pub open spec fn normalize(s: Seq<char>) -> Seq<char> {
    render(is_absolute(s), normal_components(s))
}

/// `absolute_path` with `cwd` as the current directory.
pub open spec fn absolute(cwd: Seq<char>, p: Seq<char>) -> Seq<char> {
    normalize(join(cwd, p))
}

/// `Path::starts_with`: same root, and the components of `prefix` begin those of `s`.
pub open spec fn path_starts_with(s: Seq<char>, prefix: Seq<char>) -> bool {
    &&& is_absolute(s) == is_absolute(prefix)
    &&& components(prefix).len() <= components(s).len()
    &&& components(s).subrange(0, components(prefix).len() as int) == components(prefix)
}

/// Two paths are equal as `Path`s (same root and components).
pub open spec fn path_eq(a: Seq<char>, b: Seq<char>) -> bool {
    is_absolute(a) == is_absolute(b) && components(a) == components(b)
}

/// `Path::file_name`: the last component when it is a name.
pub open spec fn file_name(s: Seq<char>) -> Option<Seq<char>> {
    let cs = components(s);
    if cs.len() > 0 && cs.last() != dot() && cs.last() != dot_dot() {
        Some(cs.last())
    } else {
        None
    }
}

/// The position of the last `.` in `name`, if any.
pub open spec fn last_dot(name: Seq<char>) -> Option<int>
    decreases name.len(),
{
    if name.len() == 0 {
        None
    } else if name.last() == '.' {
        Some(name.len() - 1)
    } else {
        last_dot(name.drop_last())
    }
}

/// `Path::extension`: the text after the last `.` of the file name, unless that
/// dot is the first character of the name.
pub open spec fn extension(s: Seq<char>) -> Option<Seq<char>> {
    match file_name(s) {
        Some(name) => match last_dot(name) {
            Some(i) => if i > 0 {
                Some(name.subrange(i + 1, name.len() as int))
            } else {
                None
            },
            None => None,
        },
        None => None,
    }
}

/// `Path::parent`: the path without its last component; none for the root or
/// an empty path.
pub open spec fn parent(s: Seq<char>) -> Option<Seq<char>> {
    let cs = components(s);
    if cs.len() == 0 {
        None
    } else {
        Some(render(is_absolute(s), cs.drop_last()))
    }
}

// ---------------------------------------------------------------------------
// Normal forms
// ---------------------------------------------------------------------------

/// The text holds no separator.
pub open spec fn no_separator(p: Seq<char>) -> bool {
    forall|j: int| 0 <= j < p.len() ==> p[j] != '/'
}

/// A stack that lexical normalisation leaves as it is: every component is
/// a non-empty name without separators, never `.`, and `..` only first.
pub open spec fn normal_stack(cs: Seq<Seq<char>>) -> bool {
    forall|i: int|
        0 <= i < cs.len() ==> {
            &&& (#[trigger] cs[i]).len() > 0
            &&& no_separator(cs[i])
            &&& cs[i] != dot()
            &&& (cs[i] == dot_dot() ==> i == 0)
        }
}

proof fn lemma_pieces_concat(x: Seq<char>, y: Seq<char>)
    ensures
        pieces(x + seq!['/'] + y) == pieces(x) + pieces(y),
    decreases y.len(),
{
    let s = x + seq!['/'] + y;
    if y.len() == 0 {
        assert(s.drop_last() =~= x);
        assert(s.last() == '/');
        assert(pieces(y) == seq![Seq::<char>::empty()]);
        assert(pieces(x).push(Seq::empty()) =~= pieces(x) + pieces(y));
    } else {
        assert(s.drop_last() =~= x + seq!['/'] + y.drop_last());
        assert(s.last() == y.last());
        lemma_pieces_concat(x, y.drop_last());
        lemma_pieces_nonempty(y.drop_last());
        let p = pieces(y.drop_last());
        if y.last() == '/' {
            assert((pieces(x) + p).push(Seq::empty()) =~= pieces(x) + p.push(Seq::empty()));
        } else {
            let q = pieces(x) + p;
            assert(q.update(q.len() - 1, q.last().push(y.last())) =~= pieces(x) + p.update(
                p.len() - 1,
                p.last().push(y.last()),
            ));
        }
    }
}

proof fn lemma_pieces_plain(s: Seq<char>)
    requires
        no_separator(s),
    ensures
        pieces(s) == seq![s],
    decreases s.len(),
{
    if s.len() == 0 {
        assert(s =~= Seq::<char>::empty());
    } else {
        assert(s[s.len() - 1] != '/');
        lemma_pieces_plain(s.drop_last());
        assert(s.drop_last().push(s.last()) =~= s);
        assert(seq![s.drop_last()].update(0, s.drop_last().push(s.last())) =~= seq![s]);
    }
}

proof fn lemma_pieces_have_no_separator(s: Seq<char>)
    ensures
        forall|i: int| 0 <= i < pieces(s).len() ==> no_separator(#[trigger] pieces(s)[i]),
    decreases s.len(),
{
    if s.len() > 0 {
        lemma_pieces_have_no_separator(s.drop_last());
        lemma_pieces_nonempty(s.drop_last());
        let p = pieces(s.drop_last());
        if s.last() != '/' {
            let q = p.update(p.len() - 1, p.last().push(s.last()));
            assert forall|i: int| 0 <= i < q.len() implies no_separator(#[trigger] q[i]) by {
                if i == p.len() - 1 {
                    assert(no_separator(p[i]));
                } else {
                    assert(q[i] == p[i]);
                }
            }
        } else {
            let q = p.push(Seq::empty());
            assert forall|i: int| 0 <= i < q.len() implies no_separator(#[trigger] q[i]) by {
                if i < p.len() {
                    assert(q[i] == p[i]);
                }
            }
        }
    }
}

proof fn lemma_join_components_pieces(cs: Seq<Seq<char>>)
    requires
        cs.len() >= 1,
        forall|i: int| 0 <= i < cs.len() ==> no_separator(#[trigger] cs[i]),
    ensures
        pieces(join_components(cs)) == cs,
    decreases cs.len(),
{
    if cs.len() == 1 {
        lemma_pieces_plain(cs[0]);
        assert(seq![cs[0]] =~= cs);
    } else {
        let d = cs.drop_last();
        assert forall|i: int| 0 <= i < d.len() implies no_separator(#[trigger] d[i]) by {
            assert(d[i] == cs[i]);
        }
        lemma_join_components_pieces(d);
        lemma_pieces_concat(join_components(d), cs.last());
        lemma_pieces_plain(cs.last());
        assert(d + seq![cs.last()] =~= cs);
    }
}

proof fn lemma_join_components_start(cs: Seq<Seq<char>>)
    requires
        cs.len() >= 1,
        cs[0].len() > 0,
    ensures
        join_components(cs).len() > 0,
        join_components(cs)[0] == cs[0][0],
    decreases cs.len(),
{
    if cs.len() > 1 {
        lemma_join_components_start(cs.drop_last());
    }
}

proof fn lemma_normalize_pieces_normal(ps: Seq<Seq<char>>)
    requires
        forall|i: int| 0 <= i < ps.len() ==> no_separator(#[trigger] ps[i]),
    ensures
        normal_stack(normalize_pieces(ps)),
    decreases ps.len(),
{
    if ps.len() > 0 {
        let d = ps.drop_last();
        assert forall|i: int| 0 <= i < d.len() implies no_separator(#[trigger] d[i]) by {
            assert(d[i] == ps[i]);
        }
        lemma_normalize_pieces_normal(d);
        let st = normalize_pieces(d);
        let piece = ps.last();
        assert(no_separator(ps[ps.len() - 1]));
        let r = norm_step(st, piece);
        assert forall|i: int| 0 <= i < r.len() implies {
            &&& (#[trigger] r[i]).len() > 0
            &&& no_separator(r[i])
            &&& r[i] != dot()
            &&& (r[i] == dot_dot() ==> i == 0)
        } by {
            if i < st.len() {
                assert(r[i] == st[i]);
            }
        }
    }
}

proof fn lemma_normal_stack_fixed(cs: Seq<Seq<char>>)
    requires
        normal_stack(cs),
    ensures
        normalize_pieces(cs) == cs,
    decreases cs.len(),
{
    if cs.len() > 0 {
        let d = cs.drop_last();
        assert forall|i: int| 0 <= i < d.len() implies {
            &&& (#[trigger] d[i]).len() > 0
            &&& no_separator(d[i])
            &&& d[i] != dot()
            &&& (d[i] == dot_dot() ==> i == 0)
        } by {
            assert(d[i] == cs[i]);
        }
        lemma_normal_stack_fixed(d);
        assert(cs[cs.len() - 1].len() > 0);
        assert(d.push(cs.last()) =~= cs);
    }
}

proof fn lemma_normalize_skips_empty_first(cs: Seq<Seq<char>>)
    ensures
        normalize_pieces(seq![Seq::<char>::empty()] + cs) == normalize_pieces(cs),
    decreases cs.len(),
{
    let e = seq![Seq::<char>::empty()];
    if cs.len() == 0 {
        assert(e + cs =~= e);
        lemma_normalize_single_empty();
    } else {
        assert((e + cs).drop_last() =~= e + cs.drop_last());
        assert((e + cs).last() == cs.last());
        lemma_normalize_skips_empty_first(cs.drop_last());
    }
}

proof fn lemma_normalize_single_empty()
    ensures
        normalize_pieces(seq![Seq::<char>::empty()]) == Seq::<Seq<char>>::empty(),
{
    let e = seq![Seq::<char>::empty()];
    assert(e.drop_last() =~= Seq::<Seq<char>>::empty());
    assert(normalize_pieces(Seq::<Seq<char>>::empty()) == Seq::<Seq<char>>::empty());
    assert(e.last().len() == 0);
}

/// Normalising a path twice gives the path normalised once: the result of
/// normalisation is already in normal form.
pub proof fn law_normalize_idempotent(s: Seq<char>)
    ensures
        normalize(normalize(s)) == normalize(s),
{
    let r = is_absolute(s);
    let cs = normal_components(s);
    let n = normalize(s);
    lemma_pieces_have_no_separator(s);
    lemma_normalize_pieces_normal(pieces(s));
    assert(normal_stack(cs));
    assert forall|i: int| 0 <= i < cs.len() implies no_separator(#[trigger] cs[i]) by {}
    let j = join_components(cs);
    if cs.len() > 0 {
        lemma_join_components_pieces(cs);
        lemma_join_components_start(cs);
    }
    lemma_normal_stack_fixed(cs);
    if r {
        assert(n =~= Seq::<char>::empty() + seq!['/'] + j);
        lemma_pieces_concat(Seq::<char>::empty(), j);
        assert(is_absolute(n));
        if cs.len() == 0 {
            assert(j =~= Seq::<char>::empty());
            lemma_normalize_skips_empty_first(seq![Seq::<char>::empty()]);
            lemma_normalize_single_empty();
        } else {
            lemma_normalize_skips_empty_first(cs);
        }
        assert(normal_components(n) == cs);
    } else {
        assert(n == j);
        if cs.len() == 0 {
            assert(n =~= Seq::<char>::empty());
            lemma_normalize_single_empty();
        } else {
            assert(cs[0][0] != '/');
        }
        assert(!is_absolute(n));
        assert(normal_components(n) == cs);
    }
}

/// The names minus the `..` parts among `ps` (`.` and empty parts count for
/// nothing).
pub open spec fn name_balance(ps: Seq<Seq<char>>) -> int
    decreases ps.len(),
{
    if ps.len() == 0 {
        0
    } else {
        let b = name_balance(ps.drop_last());
        let p = ps.last();
        if p.len() == 0 || p == dot() {
            b
        } else if p == dot_dot() {
            b - 1
        } else {
            b + 1
        }
    }
}

/// Scanning left to right, the `..` parts never outnumber the names before
/// them.
pub open spec fn parents_never_outnumber(ps: Seq<Seq<char>>) -> bool {
    forall|k: int| 0 <= k <= ps.len() ==> name_balance(#[trigger] ps.take(k)) >= 0
}

/// Lexical resolution: `.` and empty parts vanish, each `..` drops the name
/// before it, other names are kept.
pub open spec fn resolve_names(ps: Seq<Seq<char>>) -> Seq<Seq<char>>
    decreases ps.len(),
{
    if ps.len() == 0 {
        Seq::empty()
    } else {
        let st = resolve_names(ps.drop_last());
        let p = ps.last();
        if p.len() == 0 || p == dot() {
            st
        } else if p == dot_dot() {
            st.drop_last()
        } else {
            st.push(p)
        }
    }
}

proof fn lemma_balanced_normalize(ps: Seq<Seq<char>>)
    requires
        parents_never_outnumber(ps),
    ensures
        normalize_pieces(ps) == resolve_names(ps),
        normalize_pieces(ps).len() == name_balance(ps),
        forall|i: int|
            0 <= i < normalize_pieces(ps).len() ==> #[trigger] normalize_pieces(ps)[i]
                != dot_dot(),
    decreases ps.len(),
{
    if ps.len() > 0 {
        let d = ps.drop_last();
        assert forall|k: int| 0 <= k <= d.len() implies name_balance(#[trigger] d.take(k)) >= 0 by {
            assert(d.take(k) =~= ps.take(k));
        }
        lemma_balanced_normalize(d);
        assert(ps.take(ps.len() as int) =~= ps);
        assert(name_balance(ps.take(ps.len() as int)) >= 0);
        let st = normalize_pieces(d);
        let p = ps.last();
        if p.len() == 0 || p == dot() {
        } else if p == dot_dot() {
            assert(st.len() > 0);
            assert forall|i: int|
                0 <= i < st.drop_last().len() implies #[trigger] st.drop_last()[i]
                    != dot_dot() by {
                assert(st.drop_last()[i] == st[i]);
            }
        } else {
            assert forall|i: int| 0 <= i < st.push(p).len() implies #[trigger] st.push(p)[i]
                != dot_dot() by {
                if i < st.len() {
                    assert(st.push(p)[i] == st[i]);
                }
            }
        }
    }
}

proof fn lemma_rooted_components(cs: Seq<Seq<char>>, k: int)
    requires
        0 <= k <= cs.len(),
        forall|i: int| 0 <= i < cs.len() ==> (#[trigger] cs[i]).len() > 0 && cs[i] != dot(),
    ensures
        components_upto(seq![Seq::<char>::empty()] + cs, k + 1, true) == cs.take(k),
    decreases k,
{
    let ps = seq![Seq::<char>::empty()] + cs;
    if k == 0 {
        assert(components_upto(ps, 0, true) == Seq::<Seq<char>>::empty());
        assert(!keeps_piece(ps[0], 0, true));
        assert(cs.take(0) =~= Seq::<Seq<char>>::empty());
    } else {
        lemma_rooted_components(cs, k - 1);
        assert(ps[k] == cs[k - 1]);
        assert(keeps_piece(ps[k], k, true));
        assert(cs.take(k - 1).push(cs[k - 1]) =~= cs.take(k));
    }
}

/// An absolute path whose `..` parts never outnumber the names before them
/// normalises to its lexical resolution: an absolute path with no `.` or `..`
/// component, which normalisation leaves unchanged.
pub proof fn law_normalize_resolves(s: Seq<char>)
    requires
        is_absolute(s),
        parents_never_outnumber(pieces(s)),
    ensures
        is_absolute(normalize(s)),
        normal_components(s) == resolve_names(pieces(s)),
        components(normalize(s)) == normal_components(s),
        forall|i: int|
            0 <= i < components(normalize(s)).len() ==> #[trigger] components(normalize(s))[i]
                != dot() && components(normalize(s))[i] != dot_dot(),
        normalize(normalize(s)) == normalize(s),
{
    let cs = normal_components(s);
    let n = normalize(s);
    lemma_balanced_normalize(pieces(s));
    lemma_pieces_have_no_separator(s);
    lemma_normalize_pieces_normal(pieces(s));
    assert forall|i: int| 0 <= i < cs.len() implies no_separator(#[trigger] cs[i]) by {}
    let j = join_components(cs);
    assert(n =~= Seq::<char>::empty() + seq!['/'] + j);
    lemma_pieces_concat(Seq::<char>::empty(), j);
    assert(is_absolute(n));
    let e = seq![Seq::<char>::empty()];
    if cs.len() == 0 {
        assert(j =~= Seq::<char>::empty());
        assert(pieces(n) == e + e);
        let ee = e + e;
        assert(components_upto(ee, 0, true) == Seq::<Seq<char>>::empty());
        assert(!keeps_piece(ee[0], 0, true));
        assert(components_upto(ee, 1, true) == Seq::<Seq<char>>::empty());
        assert(!keeps_piece(ee[1], 1, true));
        assert(components_upto(ee, 2, true) == Seq::<Seq<char>>::empty());
        assert(components(n) =~= cs);
    } else {
        lemma_join_components_pieces(cs);
        assert(pieces(n) == e + cs);
        lemma_rooted_components(cs, cs.len() as int);
        assert(cs.take(cs.len() as int) =~= cs);
        assert(components(n) == cs);
    }
    law_normalize_idempotent(s);
}

/// Taking a path's absolute form twice, against an absolute working directory,
/// gives the absolute form once.
pub proof fn law_absolute_idempotent(cwd: Seq<char>, p: Seq<char>)
    requires
        is_absolute(cwd),
    ensures
        absolute(cwd, absolute(cwd, p)) == absolute(cwd, p),
{
    let j = join(cwd, p);
    assert(is_absolute(j));
    let a = normalize(j);
    assert(a == seq!['/'] + join_components(normal_components(j)));
    assert(is_absolute(a));
    assert(join(cwd, a) == a);
    law_normalize_idempotent(j);
}

// ---------------------------------------------------------------------------
// Executable parts
// ---------------------------------------------------------------------------

fn is_dot(p: &[char]) -> (r: bool)
    ensures
        r == (p@ == dot()),
{
    let r = p.len() == 1 && p[0] == '.';
    proof {
        if r {
            assert(p@ =~= dot());
        }
    }
    r
}

fn is_dot_dot(p: &[char]) -> (r: bool)
    ensures
        r == (p@ == dot_dot()),
{
    let r = p.len() == 2 && p[0] == '.' && p[1] == '.';
    proof {
        if r {
            assert(p@ =~= dot_dot());
        }
    }
    r
}

pub fn is_absolute_chars(v: &[char]) -> (r: bool)
    ensures
        r == is_absolute(v@),
{
    v.len() > 0 && v[0] == '/'
}

/// The pieces of `v` between separators.
pub fn split_pieces(v: &[char]) -> (ps: Vec<Vec<char>>)
    ensures
        ps.deep_view() == pieces(v@),
{
    let mut ps: Vec<Vec<char>> = Vec::new();
    let mut cur: Vec<char> = Vec::new();
    let mut i: usize = 0;
    while i < v.len()
        invariant
            i <= v@.len(),
            ps.deep_view().push(cur@) == pieces(v@.take(i as int)),
        decreases v@.len() - i,
    {
        let c = v[i];
        let ghost before = ps.deep_view().push(cur@);
        proof {
            assert(v@.take(i + 1).drop_last() =~= v@.take(i as int));
            lemma_pieces_nonempty(v@.take(i as int));
        }
        if c == '/' {
            let ghost old_ps = ps.deep_view();
            let ghost old_cur = cur@;
            ps.push(cur);
            assert(ps.deep_view() =~= old_ps.push(old_cur));
            cur = Vec::new();
            assert(ps.deep_view().push(cur@) =~= before.push(Seq::empty()));
        } else {
            cur.push(c);
            assert(ps.deep_view().push(cur@) =~= before.update(
                before.len() - 1,
                before.last().push(c),
            ));
        }
        i += 1;
    }
    assert(v@.take(v@.len() as int) =~= v@);
    let ghost old_ps = ps.deep_view();
    let ghost old_cur = cur@;
    ps.push(cur);
    assert(ps.deep_view() =~= old_ps.push(old_cur));
    ps
}

/// The components of `v` (see `components`).
pub fn components_of(v: &[char]) -> (cs: Vec<Vec<char>>)
    ensures
        cs.deep_view() == components(v@),
{
    let ps = split_pieces(v);
    let rooted = is_absolute_chars(v);
    let mut cs: Vec<Vec<char>> = Vec::new();
    let mut k: usize = 0;
    while k < ps.len()
        invariant
            k <= ps@.len(),
            ps.deep_view() == pieces(v@),
            rooted == is_absolute(v@),
            cs.deep_view() == components_upto(ps.deep_view(), k as int, rooted),
        decreases ps@.len() - k,
    {
        let p = &ps[k];
        assert(p@ == ps.deep_view()[k as int]);
        if p.len() > 0 && (!is_dot(p.as_slice()) || (k == 0 && !rooted)) {
            cs.push(p.clone());
            assert(cs.deep_view() =~= components_upto(ps.deep_view(), k as int, rooted).push(
                p@,
            ));
        }
        k += 1;
    }
    cs
}

/// The normalised components of `v`.
pub fn normal_components_of(v: &[char]) -> (cs: Vec<Vec<char>>)
    ensures
        cs.deep_view() == normal_components(v@),
{
    let ps = split_pieces(v);
    let mut stack: Vec<Vec<char>> = Vec::new();
    let mut k: usize = 0;
    while k < ps.len()
        invariant
            k <= ps@.len(),
            ps.deep_view() == pieces(v@),
            stack.deep_view() == normalize_pieces(ps.deep_view().take(k as int)),
        decreases ps@.len() - k,
    {
        let p = &ps[k];
        let ghost pv = ps.deep_view()[k as int];
        assert(p@ == pv);
        assert(ps.deep_view().take(k + 1).drop_last() =~= ps.deep_view().take(k as int));
        let ghost before = stack.deep_view();
        if p.len() == 0 || is_dot(p.as_slice()) {
        } else if is_dot_dot(p.as_slice()) {
            if stack.len() > 0 {
                stack.pop();
                assert(stack.deep_view() =~= before.drop_last());
            } else {
                stack.push(p.clone());
                assert(stack.deep_view() =~= before.push(pv));
            }
        } else {
            stack.push(p.clone());
            assert(stack.deep_view() =~= before.push(pv));
        }
        k += 1;
    }
    assert(ps.deep_view().take(ps@.len() as int) =~= ps.deep_view());
    stack
}

/// The text of a path from its root flag and components.
pub fn render_path(rooted: bool, cs: &Vec<Vec<char>>) -> (s: String)
    ensures
        s@ == render(rooted, cs.deep_view()),
{
    let mut s = String::new();
    if rooted {
        push_char(&mut s, '/');
    }
    let ghost start = s@;
    let mut k: usize = 0;
    while k < cs.len()
        invariant
            k <= cs@.len(),
            start == (if rooted { seq!['/'] } else { Seq::<char>::empty() }),
            s@ == start + join_components(cs.deep_view().take(k as int)),
        decreases cs@.len() - k,
    {
        let ghost prev = cs.deep_view().take(k as int);
        let ghost next = cs.deep_view().take(k + 1);
        assert(next.drop_last() =~= prev);
        assert(next.last() == cs@[k as int]@);
        if k > 0 {
            push_char(&mut s, '/');
        }
        let piece = &cs[k];
        let ghost before = s@;
        let mut j: usize = 0;
        while j < piece.len()
            invariant
                j <= piece@.len(),
                s@ == before + piece@.take(j as int),
            decreases piece@.len() - j,
        {
            push_char(&mut s, piece[j]);
            assert(before + piece@.take(j as int) + seq![piece@[j as int]] =~= before
                + piece@.take(j + 1));
            j += 1;
        }
        assert(piece@.take(piece@.len() as int) =~= piece@);
        if k == 0 {
            assert(next =~= seq![piece@]);
            assert(s@ =~= start + join_components(next));
        } else {
            assert(s@ =~= start + (join_components(prev) + seq!['/'] + piece@));
        }
        k += 1;
    }
    assert(cs.deep_view().take(cs@.len() as int) =~= cs.deep_view());
    s
}

/// `base.join(p)` as text.
pub fn join_chars(base: &[char], p: &[char]) -> (r: Vec<char>)
    ensures
        r@ == join(base@, p@),
{
    let mut r: Vec<char> = Vec::new();
    if is_absolute_chars(p) || base.len() == 0 {
        append_chars(&mut r, p);
        assert(r@ =~= p@);
        return r;
    }
    append_chars(&mut r, base);
    if base[base.len() - 1] != '/' {
        r.push('/');
    }
    append_chars(&mut r, p);
    r
}

pub fn append_chars(r: &mut Vec<char>, p: &[char])
    ensures
        final(r)@ == old(r)@ + p@,
{
    let mut i: usize = 0;
    while i < p.len()
        invariant
            i <= p@.len(),
            r@ == old(r)@ + p@.take(i as int),
        decreases p@.len() - i,
    {
        r.push(p[i]);
        assert(old(r)@ + p@.take(i as int) + seq![p@[i as int]] =~= old(r)@ + p@.take(i + 1));
        i += 1;
    }
    assert(p@.take(p@.len() as int) =~= p@);
}

/// `normalize_path` as text.
pub fn normalize_path(path: &str) -> (r: String)
    ensures
        r@ == normalize(path@),
{
    let v = chars_of(path);
    let cs = normal_components_of(v.as_slice());
    render_path(is_absolute_chars(v.as_slice()), &cs)
}

/// `absolute_path` with `cwd` standing for the process's current directory
/// (an empty `cwd` leaves relative paths relative).
pub fn absolute_path(cwd: &str, path: &str) -> (r: String)
    ensures
        r@ == absolute(cwd@, path@),
{
    let c = chars_of(cwd);
    let p = chars_of(path);
    let j = join_chars(c.as_slice(), p.as_slice());
    let cs = normal_components_of(j.as_slice());
    render_path(is_absolute_chars(j.as_slice()), &cs)
}

/// `absolute_path_string`: the absolute form of a path given as text.
pub fn absolute_path_string(cwd: &str, path: &str) -> (r: String)
    ensures
        r@ == absolute(cwd@, path@),
{
    absolute_path(cwd, path)
}

fn components_prefix(cs: &Vec<Vec<char>>, prefix: &Vec<Vec<char>>) -> (r: bool)
    ensures
        r == (prefix.deep_view().len() <= cs.deep_view().len() && cs.deep_view().subrange(
            0,
            prefix.deep_view().len() as int,
        ) == prefix.deep_view()),
{
    if prefix.len() > cs.len() {
        return false;
    }
    let mut k: usize = 0;
    while k < prefix.len()
        invariant
            prefix@.len() <= cs@.len(),
            k <= prefix@.len(),
            forall|j: int| 0 <= j < k ==> cs.deep_view()[j] == prefix.deep_view()[j],
        decreases prefix@.len() - k,
    {
        if !slice_eq(cs[k].as_slice(), prefix[k].as_slice()) {
            assert(cs.deep_view().subrange(0, prefix.deep_view().len() as int)[k as int]
                != prefix.deep_view()[k as int]);
            return false;
        }
        k += 1;
    }
    assert(cs.deep_view().subrange(0, prefix.deep_view().len() as int) =~= prefix.deep_view());
    true
}

fn components_equal(a: &Vec<Vec<char>>, b: &Vec<Vec<char>>) -> (r: bool)
    ensures
        r == (a.deep_view() == b.deep_view()),
{
    if a.len() != b.len() {
        assert(a.deep_view().len() != b.deep_view().len());
        return false;
    }
    let r = components_prefix(a, b);
    proof {
        if r {
            assert(a.deep_view() =~= a.deep_view().subrange(0, b.deep_view().len() as int));
        } else {
            assert(a.deep_view().subrange(0, b.deep_view().len() as int) =~= a.deep_view());
        }
    }
    r
}

/// `path.starts_with(prefix)` for paths given as text.
pub fn path_starts_with_chars(s: &[char], prefix: &[char]) -> (r: bool)
    ensures
        r == path_starts_with(s@, prefix@),
{
    if is_absolute_chars(s) != is_absolute_chars(prefix) {
        return false;
    }
    let a = components_of(s);
    let b = components_of(prefix);
    components_prefix(&a, &b)
}

/// Paths `a` and `b` are equal as `Path`s.
pub fn path_eq_chars(a: &[char], b: &[char]) -> (r: bool)
    ensures
        r == path_eq(a@, b@),
{
    if is_absolute_chars(a) != is_absolute_chars(b) {
        return false;
    }
    let x = components_of(a);
    let y = components_of(b);
    components_equal(&x, &y)
}

/// The file is inside the models directory: `absolute_path(path)` starts with
/// `models_root` (which callers pass already absolute).
pub fn is_inside_models_root(cwd: &str, path: &str, models_root: &str) -> (r: bool)
    ensures
        r == path_starts_with(absolute(cwd@, path@), models_root@),
{
    let a = absolute_path(cwd, path);
    let av = chars_of(a.as_str());
    let rv = chars_of(models_root);
    path_starts_with_chars(av.as_slice(), rv.as_slice())
}

/// The parent of a path, as text (`Path::parent`).
pub fn parent_of(v: &[char]) -> (r: Option<String>)
    ensures
        r matches Some(p) ==> parent(v@) == Some(p@),
        r is None ==> parent(v@) is None,
{
    let mut cs = components_of(v);
    if cs.len() == 0 {
        return None;
    }
    let ghost all = cs.deep_view();
    cs.pop();
    assert(cs.deep_view() =~= all.drop_last());
    Some(render_path(is_absolute_chars(v), &cs))
}

/// The directory that deleting a model file may leave empty: the parent of the
/// absolute file path, when that parent lies strictly inside the models
/// directory. `None` means there is nothing to remove.
pub fn empty_subdirectory_candidate(cwd: &str, path: &str, models_root: &str) -> (r: Option<
    String,
>)
    ensures
        r matches Some(d) ==> parent(absolute(cwd@, path@)) == Some(d@) && !path_eq(
            d@,
            models_root@,
        ) && path_starts_with(d@, models_root@),
        r is None ==> match parent(absolute(cwd@, path@)) {
            Some(d) => path_eq(d, models_root@) || !path_starts_with(d, models_root@),
            None => true,
        },
{
    let a = absolute_path(cwd, path);
    let av = chars_of(a.as_str());
    match parent_of(av.as_slice()) {
        None => None,
        Some(d) => {
            let dv = chars_of(d.as_str());
            let rv = chars_of(models_root);
            if path_eq_chars(dv.as_slice(), rv.as_slice()) || !path_starts_with_chars(
                dv.as_slice(),
                rv.as_slice(),
            ) {
                None
            } else {
                Some(d)
            }
        },
    }
}

/// The directory a discarded download may leave empty: the absolute form of
/// the parent of `local_path`, when it lies strictly inside the models
/// directory.
pub fn discard_directory_candidate(cwd: &str, local_path: &str, models_root: &str) -> (r: Option<
    String,
>)
    ensures
        r matches Some(d) ==> parent(local_path@) matches Some(p) && d@ == absolute(cwd@, p)
            && !path_eq(d@, models_root@) && path_starts_with(d@, models_root@),
        r is None ==> match parent(local_path@) {
            Some(p) => path_eq(absolute(cwd@, p), models_root@) || !path_starts_with(
                absolute(cwd@, p),
                models_root@,
            ),
            None => true,
        },
{
    let lv = chars_of(local_path);
    match parent_of(lv.as_slice()) {
        None => None,
        Some(p) => {
            let d = absolute_path(cwd, p.as_str());
            let dv = chars_of(d.as_str());
            let rv = chars_of(models_root);
            if path_eq_chars(dv.as_slice(), rv.as_slice()) || !path_starts_with_chars(
                dv.as_slice(),
                rv.as_slice(),
            ) {
                None
            } else {
                Some(d)
            }
        },
    }
}

/// The file name of a path (`Path::file_name`).
pub fn file_name_of(v: &[char]) -> (r: Option<Vec<char>>)
    ensures
        r matches Some(n) ==> file_name(v@) == Some(n@),
        r is None ==> file_name(v@) is None,
{
    let cs = components_of(v);
    if cs.len() == 0 {
        return None;
    }
    let last = &cs[cs.len() - 1];
    assert(last@ == cs.deep_view().last());
    if is_dot(last.as_slice()) || is_dot_dot(last.as_slice()) {
        None
    } else {
        Some(last.clone())
    }
}

/// The extension of a path (`Path::extension`).
pub fn extension_of(v: &[char]) -> (r: Option<Vec<char>>)
    ensures
        r matches Some(e) ==> extension(v@) == Some(e@),
        r is None ==> extension(v@) is None,
{
    let name = match file_name_of(v) {
        Some(n) => n,
        None => return None,
    };
    let mut i: usize = name.len();
    assert(name@.take(i as int) =~= name@);
    while i > 0 && name[i - 1] != '.'
        invariant
            i <= name@.len(),
            last_dot(name@) == last_dot(name@.take(i as int)),
        decreases i,
    {
        assert(name@.take(i as int).drop_last() =~= name@.take(i - 1));
        i -= 1;
    }
    if i == 0 {
        assert(name@.take(0) =~= Seq::<char>::empty());
        return None;
    }
    assert(name@.take(i as int).last() == '.');
    assert(last_dot(name@.take(i as int)) == Some(i - 1));
    if i == 1 {
        return None;
    }
    let mut e: Vec<char> = Vec::new();
    let mut k: usize = i;
    while k < name.len()
        invariant
            i <= k <= name@.len(),
            e@ == name@.subrange(i as int, k as int),
        decreases name@.len() - k,
    {
        e.push(name[k]);
        assert(name@.subrange(i as int, k as int).push(name@[k as int]) =~= name@.subrange(
            i as int,
            k + 1,
        ));
        k += 1;
    }
    Some(e)
}

pub open spec fn gguf() -> Seq<char> {
    seq!['g', 'g', 'u', 'f']
}

/// `is_gguf_path`: the extension is `gguf`, ignoring ASCII case.
pub open spec fn is_gguf(s: Seq<char>) -> bool {
    extension(s) matches Some(e) && lower(e) == gguf()
}

pub fn is_gguf_path(path: &str) -> (r: bool)
    ensures
        r == is_gguf(path@),
{
    let v = chars_of(path);
    match extension_of(v.as_slice()) {
        Some(e) => {
            let l = lower_string(string_of(e.as_slice()).as_str());
            let lv = chars_of(l.as_str());
            let g: Vec<char> = vec!['g', 'g', 'u', 'f'];
            assert(g@ =~= gguf());
            slice_eq(lv.as_slice(), g.as_slice())
        },
        None => false,
    }
}

/// `partial_download_path`: the download's temporary file, `<path>.partial`.
pub fn partial_download_path(local_path: &str) -> (r: String)
    ensures
        r@ == local_path@ + seq!['.', 'p', 'a', 'r', 't', 'i', 'a', 'l'],
{
    let mut r = string_from(local_path);
    push_char(&mut r, '.');
    push_char(&mut r, 'p');
    push_char(&mut r, 'a');
    push_char(&mut r, 'r');
    push_char(&mut r, 't');
    push_char(&mut r, 'i');
    push_char(&mut r, 'a');
    push_char(&mut r, 'l');
    r
}

/// `base.join(p)` for text paths.
pub fn join_path(base: &str, p: &str) -> (r: String)
    ensures
        r@ == join(base@, p@),
{
    let b = chars_of(base);
    let q = chars_of(p);
    let j = join_chars(b.as_slice(), q.as_slice());
    string_of(j.as_slice())
}

} // verus!
