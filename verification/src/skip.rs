//! Walking a boundary left or right across a run of chars that satisfy a
//! predicate.
use vstd::prelude::*;
use crate::encoding::{
    byte_len, char_at, char_before, char_index, is_boundary, lemma_boundary_index,
    lemma_char_index, lemma_prefix_le, lemma_prefix_step, text_len, utf8_width,
};

verus! {

/// Start of the run of chars satisfying `p` that ends at char index `k`:
/// step left from `k` while the char before satisfies `p`.
pub open spec fn run_start(s: Seq<char>, k: int, p: spec_fn(char) -> bool) -> int
    decreases k,
{
    if k <= 0 || k > s.len() || !p(s[k - 1]) {
        k
    } else {
        run_start(s, k - 1, p)
    }
}

/// End of the run of chars satisfying `p` that starts at char index `k`:
/// step right from `k` while the char there satisfies `p`.
pub open spec fn run_end(s: Seq<char>, k: int, p: spec_fn(char) -> bool) -> int
    decreases s.len() - k,
{
    if k < 0 || k >= s.len() || !p(s[k]) {
        k
    } else {
        run_end(s, k + 1, p)
    }
}

/// `run_start` stays within `0..=k`, every char it skips satisfies `p`, and
/// the char before it does not.
pub proof fn lemma_run_start(s: Seq<char>, k: int, p: spec_fn(char) -> bool)
    requires
        0 <= k <= s.len(),
    ensures
        0 <= run_start(s, k, p) <= k,
        forall|i: int| run_start(s, k, p) <= i < k ==> p(#[trigger] s[i]),
        run_start(s, k, p) > 0 ==> !p(s[run_start(s, k, p) - 1]),
    decreases k,
{
    if k > 0 && p(s[k - 1]) {
        lemma_run_start(s, k - 1, p);
    }
}

/// An index with exactly the properties of `lemma_run_start` is `run_start`.
pub proof fn lemma_run_start_unique(s: Seq<char>, k: int, j: int, p: spec_fn(char) -> bool)
    requires
        0 <= j <= k <= s.len(),
        forall|i: int| j <= i < k ==> p(#[trigger] s[i]),
        j > 0 ==> !p(s[j - 1]),
    ensures
        run_start(s, k, p) == j,
    decreases k,
{
    if k > j {
        assert(p(s[k - 1]));
        lemma_run_start_unique(s, k - 1, j, p);
    }
}

/// `run_end` stays within `k..=len`, every char it skips satisfies `p`, and
/// the char at it does not.
pub proof fn lemma_run_end(s: Seq<char>, k: int, p: spec_fn(char) -> bool)
    requires
        0 <= k <= s.len(),
    ensures
        k <= run_end(s, k, p) <= s.len(),
        forall|i: int| k <= i < run_end(s, k, p) ==> p(#[trigger] s[i]),
        run_end(s, k, p) < s.len() ==> !p(s[run_end(s, k, p)]),
    decreases s.len() - k,
{
    if k < s.len() && p(s[k]) {
        lemma_run_end(s, k + 1, p);
    }
}

/// An index with exactly the properties of `lemma_run_end` is `run_end`.
pub proof fn lemma_run_end_unique(s: Seq<char>, k: int, j: int, p: spec_fn(char) -> bool)
    requires
        0 <= k <= j <= s.len(),
        forall|i: int| k <= i < j ==> p(#[trigger] s[i]),
        j < s.len() ==> !p(s[j]),
    ensures
        run_end(s, k, p) == j,
    decreases j - k,
{
    if k < j {
        assert(p(s[k]));
        lemma_run_end_unique(s, k + 1, j, p);
    }
}

/// Walks the boundary `at` left past the chars for which `pred` holds, and
/// returns the first boundary whose preceding char fails `pred` (or 0).
pub fn skip_left<F: Fn(char) -> bool>(text: &str, at: usize, pred: F) -> (r: usize)
    requires
        is_boundary(text@, at as int),
        forall|c: char| call_requires(pred, (c,)),
    ensures
        is_boundary(text@, r as int),
        char_index(text@, r as int) <= char_index(text@, at as int),
        forall|i: int|
            char_index(text@, r as int) <= i < char_index(text@, at as int) ==> call_ensures(
                pred,
                (text@[i],),
                true,
            ),
        char_index(text@, r as int) > 0 ==> call_ensures(
            pred,
            (text@[char_index(text@, r as int) - 1],),
            false,
        ),
{
    let ghost s = text@;
    let ghost k0 = char_index(s, at as int);
    let mut pos = at;
    loop
        invariant
            s == text@,
            k0 == char_index(s, at as int),
            forall|c: char| call_requires(pred, (c,)),
            is_boundary(s, pos as int),
            char_index(s, pos as int) <= k0,
            forall|i: int|
                char_index(s, pos as int) <= i < k0 ==> call_ensures(pred, (s[i],), true),
        decreases char_index(s, pos as int),
    {
        let ghost k = char_index(s, pos as int);
        proof {
            lemma_boundary_index(s, pos as int);
        }
        match char_before(text, pos) {
            None => {
                return pos;
            },
            Some(ch) => {
                if !pred(ch) {
                    return pos;
                }
                proof {
                    lemma_prefix_step(s, k - 1);
                    lemma_char_index(s, k - 1);
                }
                pos = pos - utf8_width(ch);
            },
        }
    }
}


/// Walks the boundary `at` right past the chars for which `pred` holds, and
/// returns the first boundary whose following char fails `pred` (or the end).
pub fn skip_right<F: Fn(char) -> bool>(text: &str, at: usize, pred: F) -> (r: usize)
    requires
        is_boundary(text@, at as int),
        forall|c: char| call_requires(pred, (c,)),
    ensures
        is_boundary(text@, r as int),
        char_index(text@, at as int) <= char_index(text@, r as int),
        forall|i: int|
            char_index(text@, at as int) <= i < char_index(text@, r as int) ==> call_ensures(
                pred,
                (text@[i],),
                true,
            ),
        char_index(text@, r as int) < text@.len() ==> call_ensures(
            pred,
            (text@[char_index(text@, r as int)],),
            false,
        ),
{
    let ghost s = text@;
    let ghost k0 = char_index(s, at as int);
    let n = text_len(text);
    let mut pos = at;
    loop
        invariant
            s == text@,
            k0 == char_index(s, at as int),
            n == byte_len(s),
            forall|c: char| call_requires(pred, (c,)),
            is_boundary(s, pos as int),
            k0 <= char_index(s, pos as int),
            forall|i: int|
                k0 <= i < char_index(s, pos as int) ==> call_ensures(pred, (s[i],), true),
        decreases s.len() - char_index(s, pos as int),
    {
        let ghost k = char_index(s, pos as int);
        proof {
            lemma_boundary_index(s, pos as int);
        }
        match char_at(text, pos) {
            None => {
                return pos;
            },
            Some(ch) => {
                if !pred(ch) {
                    return pos;
                }
                proof {
                    lemma_prefix_step(s, k);
                    lemma_prefix_le(s, k + 1);
                    lemma_char_index(s, k + 1);
                }
                pos = pos + utf8_width(ch);
            },
        }
    }
}

} // verus!
