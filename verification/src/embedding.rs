//! The local embedding of a text, up to its scaling: the features a text is
//! made of and how many of them fall, with which sign, in each of the 256
//! dimensions. (Scaling the counts to unit length is floating-point work and
//! is done by the caller.)

use vstd::prelude::*;
use vstd::utf8::encode_utf8;
use crate::documents::{fnv1a, fnv_offset_basis, is_embedding_stopword, stable_feature_hash, stopwords};
use crate::keyed::views_of;
use crate::text::{chars_of, push_char, push_str, string_of};

verus! {

broadcast use vstd::string::group_string_axioms;

/// The number of dimensions of an embedding.
pub const LOCAL_EMBEDDING_DIMENSIONS: usize = 256;

/// `char::is_alphanumeric` (the Unicode `Alphabetic` and `Numeric`
/// properties).
pub uninterp spec fn unicode_alphanumeric(c: char) -> bool;

/// `char::to_lowercase` (the Unicode lower-case mapping of a character).
pub uninterp spec fn unicode_lower_char(c: char) -> Seq<char>;

/// `char::is_alphanumeric`; its result is named, as it follows the Unicode
/// tables.
#[verifier::external_body]
fn is_alphanumeric(c: char) -> (r: bool)
    ensures
        r == unicode_alphanumeric(c),
{
    c.is_alphanumeric()
}

/// `char::to_lowercase`, collected into a string; its result is named, as
/// it follows the Unicode tables.
#[verifier::external_body]
fn char_lowercase(c: char) -> (r: String)
    ensures
        r@ == unicode_lower_char(c),
{
    c.to_lowercase().collect()
}

/// The finished tokens of `s` and the token still being read: runs of
/// alphanumeric characters, lower-cased; every other character ends a token
/// (possibly an empty one).
pub open spec fn scan_tokens(s: Seq<char>) -> (Seq<Seq<char>>, Seq<char>)
    decreases s.len(),
{
    if s.len() == 0 {
        (Seq::empty(), Seq::empty())
    } else {
        let (ts, cur) = scan_tokens(s.drop_last());
        let c = s.last();
        if unicode_alphanumeric(c) {
            (ts, cur + unicode_lower_char(c))
        } else {
            (ts.push(cur), Seq::empty())
        }
    }
}

pub open spec fn embedding_tokens(s: Seq<char>) -> Seq<Seq<char>> {
    scan_tokens(s).0.push(scan_tokens(s).1)
}

pub open spec fn has_non_ascii(t: Seq<char>) -> bool {
    exists|i: int| 0 <= i < t.len() && (t[i] as u32) >= 128
}

/// The features of a token: none for an empty token or a stopword; else the
/// token, and for a token with a non-ASCII character also each character
/// and each pair of neighbouring characters.
pub open spec fn token_features(t: Seq<char>) -> Seq<Seq<char>> {
    if t.len() == 0 || stopwords().contains(t) {
        Seq::empty()
    } else if has_non_ascii(t) {
        seq![t] + Seq::new(t.len(), |i: int| seq![t[i]]) + Seq::new(
            (t.len() - 1) as nat,
            |i: int| seq![t[i], t[i + 1]],
        )
    } else {
        seq![t]
    }
}

pub open spec fn features_of(tokens: Seq<Seq<char>>) -> Seq<Seq<char>>
    decreases tokens.len(),
{
    if tokens.len() == 0 {
        Seq::empty()
    } else {
        features_of(tokens.drop_last()) + token_features(tokens.last())
    }
}

pub open spec fn text_features(text: Seq<char>) -> Seq<Seq<char>> {
    features_of(embedding_tokens(text))
}

/// The features of a token: none for an empty token or a stopword; for a
/// token with a non-ASCII character anywhere, the token, then each of its
/// characters, then each pair of neighbouring characters; for an ASCII
/// token, the token alone.
pub proof fn law_token_features(t: Seq<char>)
    ensures
        t.len() == 0 || stopwords().contains(t) ==> token_features(t).len() == 0,
        t.len() > 0 && !stopwords().contains(t) && (exists|i: int|
            0 <= i < t.len() && (#[trigger] t[i] as u32) >= 128) ==> {
            let f = token_features(t);
            &&& f.len() == 2 * t.len()
            &&& f[0] == t
            &&& forall|i: int| 0 <= i < t.len() ==> #[trigger] f[1 + i] == seq![t[i]]
            &&& forall|i: int|
                0 <= i < t.len() - 1 ==> #[trigger] f[1 + t.len() + i] == seq![t[i], t[i + 1]]
        },
        t.len() > 0 && !stopwords().contains(t) && (forall|i: int|
            0 <= i < t.len() ==> (#[trigger] t[i] as u32) < 128) ==> token_features(t) == seq![t],
{
    if t.len() > 0 && !stopwords().contains(t) {
        if exists|i: int| 0 <= i < t.len() && (#[trigger] t[i] as u32) >= 128 {
            assert(has_non_ascii(t));
            let f = token_features(t);
            let a = seq![t];
            let b = Seq::new(t.len(), |i: int| seq![t[i]]);
            let c = Seq::new((t.len() - 1) as nat, |i: int| seq![t[i], t[i + 1]]);
            assert(f == a + b + c);
            assert forall|i: int| 0 <= i < t.len() implies #[trigger] f[1 + i] == seq![t[i]] by {
                assert(f[1 + i] == b[i]);
            }
            assert forall|i: int| 0 <= i < t.len() - 1 implies #[trigger] f[1 + t.len() + i]
                == seq![t[i], t[i + 1]] by {
                assert(f[1 + t.len() + i] == c[i]);
            }
        }
        if forall|i: int| 0 <= i < t.len() ==> (#[trigger] t[i] as u32) < 128 {
            assert(!has_non_ascii(t));
        }
    }
}

fn add_token_features(out: &mut Vec<String>, token: &str)
    ensures
        views_of(final(out)@) == views_of(old(out)@) + token_features(token@),
{
    let ghost start = views_of(out@);
    if token.is_empty() || is_embedding_stopword(token) {
        assert(views_of(out@) =~= start + token_features(token@));
        return;
    }
    let cs = chars_of(token);
    out.push(string_of(cs.as_slice()));
    assert(views_of(out@) =~= start.push(token@));
    let mut non_ascii = false;
    let mut i: usize = 0;
    while i < cs.len()
        invariant
            i <= cs@.len(),
            cs@ == token@,
            non_ascii == exists|j: int| 0 <= j < i && (cs@[j] as u32) >= 128,
        decreases cs@.len() - i,
    {
        if (cs[i] as u32) >= 128 {
            non_ascii = true;
        }
        i += 1;
    }
    if !non_ascii {
        assert(!has_non_ascii(token@));
        assert(views_of(out@) =~= start + token_features(token@));
        return;
    }
    assert(has_non_ascii(token@));
    let ghost mid = views_of(out@);
    let mut k: usize = 0;
    while k < cs.len()
        invariant
            k <= cs@.len(),
            cs@ == token@,
            views_of(out@) == mid + Seq::new(k as nat, |j: int| seq![cs@[j]]),
        decreases cs@.len() - k,
    {
        let mut one = String::new();
        push_char(&mut one, cs[k]);
        assert(one@ =~= seq![cs@[k as int]]);
        let ghost before = views_of(out@);
        out.push(one);
        assert(views_of(out@) =~= before.push(seq![cs@[k as int]]));
        assert(views_of(out@) =~= mid + Seq::new((k + 1) as nat, |j: int| seq![cs@[j]]));
        k += 1;
    }
    let ghost mid2 = views_of(out@);
    let last = cs.len() - 1;
    let mut p: usize = 0;
    while p < last
        invariant
            p <= last,
            last == cs@.len() - 1,
            cs@ == token@,
            views_of(out@) == mid2 + Seq::new(p as nat, |j: int| seq![cs@[j], cs@[j + 1]]),
        decreases last - p,
    {
        let mut two = String::new();
        push_char(&mut two, cs[p]);
        push_char(&mut two, cs[p + 1]);
        assert(two@ =~= seq![cs@[p as int], cs@[p + 1]]);
        let ghost before = views_of(out@);
        out.push(two);
        assert(views_of(out@) =~= before.push(seq![cs@[p as int], cs@[p + 1]]));
        assert(views_of(out@) =~= mid2 + Seq::new(
            (p + 1) as nat,
            |j: int| seq![cs@[j], cs@[j + 1]],
        ));
        p += 1;
    }
    proof {
        let t = token@;
        assert(has_non_ascii(t));
        assert(mid == start.push(t));
        assert(mid2 == start.push(t) + Seq::new(t.len(), |j: int| seq![t[j]]));
        assert(views_of(out@) =~= start + token_features(token@));
    }
}

/// The features of `text`, in order.
pub fn embedding_features(text: &str) -> (r: Vec<String>)
    ensures
        views_of(r@) == text_features(text@),
{
    let cs = chars_of(text);
    let mut out: Vec<String> = Vec::new();
    let mut token = String::new();
    let mut i: usize = 0;
    while i < cs.len()
        invariant
            i <= cs@.len(),
            cs@ == text@,
            views_of(out@) == features_of(scan_tokens(cs@.take(i as int)).0),
            token@ == scan_tokens(cs@.take(i as int)).1,
        decreases cs@.len() - i,
    {
        assert(cs@.take(i + 1).drop_last() =~= cs@.take(i as int));
        let c = cs[i];
        if is_alphanumeric(c) {
            let low = char_lowercase(c);
            push_str(&mut token, low.as_str());
        } else {
            let ghost ts = scan_tokens(cs@.take(i as int)).0;
            add_token_features(&mut out, token.as_str());
            assert(ts.push(token@).drop_last() =~= ts);
            token = String::new();
        }
        i += 1;
    }
    assert(cs@.take(i as int) =~= cs@);
    let ghost ts = scan_tokens(cs@).0;
    add_token_features(&mut out, token.as_str());
    assert(ts.push(token@).drop_last() =~= ts);
    out
}

/// The dimension a feature counts in.
pub open spec fn slot_of(f: Seq<char>) -> int {
    (fnv1a(fnv_offset_basis(), encode_utf8(f)) % 256) as int
}

/// The sign a feature counts with: `+1` for an even hash, `-1` for an odd one.
pub open spec fn sign_of(f: Seq<char>) -> int {
    if fnv1a(fnv_offset_basis(), encode_utf8(f)) % 2 == 0 {
        1
    } else {
        -1
    }
}

/// The signed count of `features` in dimension `d`.
pub open spec fn slot_total(features: Seq<Seq<char>>, d: int) -> int
    decreases features.len(),
{
    if features.len() == 0 {
        0
    } else {
        slot_total(features.drop_last(), d) + if slot_of(features.last()) == d {
            sign_of(features.last())
        } else {
            0
        }
    }
}

proof fn lemma_slot_total_bound(features: Seq<Seq<char>>, d: int)
    ensures
        -features.len() <= slot_total(features, d) <= features.len(),
    decreases features.len(),
{
    if features.len() > 0 {
        lemma_slot_total_bound(features.drop_last(), d);
    }
}

/// The unscaled embedding of `text`: for each dimension, the signed count of
/// the text's features that fall in it.
pub fn embedding_counts(text: &str) -> (r: Vec<i128>)
    ensures
        r@.len() == LOCAL_EMBEDDING_DIMENSIONS,
        forall|d: int|
            0 <= d < LOCAL_EMBEDDING_DIMENSIONS ==> #[trigger] r@[d] == slot_total(
                text_features(text@),
                d,
            ),
{
    let features = embedding_features(text);
    let ghost fs = views_of(features@);
    let mut counts: Vec<i128> = Vec::new();
    let mut z: usize = 0;
    while z < LOCAL_EMBEDDING_DIMENSIONS
        invariant
            z <= LOCAL_EMBEDDING_DIMENSIONS,
            counts@.len() == z,
            forall|d: int| 0 <= d < z ==> counts@[d] == 0,
        decreases LOCAL_EMBEDDING_DIMENSIONS - z,
    {
        counts.push(0);
        z += 1;
    }
    let mut i: usize = 0;
    while i < features.len()
        invariant
            i <= features@.len(),
            fs == views_of(features@),
            counts@.len() == LOCAL_EMBEDDING_DIMENSIONS,
            forall|d: int|
                0 <= d < LOCAL_EMBEDDING_DIMENSIONS ==> #[trigger] counts@[d] == slot_total(
                    fs.take(i as int),
                    d,
                ),
        decreases features@.len() - i,
    {
        let h = stable_feature_hash(features[i].as_str());
        assert(fs[i as int] == features@[i as int]@);
        assert(fs.take(i + 1).drop_last() =~= fs.take(i as int));
        let slot = (h % 256) as usize;
        proof {
            lemma_slot_total_bound(fs.take(i as int), slot as int);
        }
        let ghost before = counts@;
        if h % 2 == 0 {
            counts.set(slot, counts[slot] + 1);
        } else {
            counts.set(slot, counts[slot] - 1);
        }
        proof {
            assert forall|d: int| 0 <= d < LOCAL_EMBEDDING_DIMENSIONS implies #[trigger] counts@[d]
                == slot_total(fs.take(i + 1), d) by {
                assert(before[d] == slot_total(fs.take(i as int), d));
            }
        }
        i += 1;
    }
    assert(fs.take(i as int) =~= fs);
    counts
}

} // verus!
