//! Text matching semantics of the query engine's model.
//!
//! Stored text is matched token-wise: a token is a maximal run of ASCII
//! alphanumeric characters, and letters are compared case-insensitively
//! (ASCII case folding). A free-text query matches a text when any token
//! of the query equals any token of the text; an exact term matches when
//! the whole term equals some token of the text.

use vstd::prelude::*;

verus! {

/// Characters a token is made of: ASCII letters and digits.
pub open spec fn is_token_char(c: char) -> bool {
    (97 <= c as u32 <= 122) || (65 <= c as u32 <= 90) || (48 <= c as u32 <= 57)
}

/// ASCII case folding: upper-case letters fold to lower case, everything
/// else stands.
pub open spec fn norm_char(c: char) -> char {
    if 65 <= c as u32 <= 90 {
        (((c as u32) + 32) as u8) as char
    } else {
        c
    }
}

/// A token starts at `i`: a token character whose predecessor, if any, is
/// none.
pub open spec fn token_at(s: Seq<char>, i: int) -> bool {
    &&& 0 <= i < s.len()
    &&& is_token_char(s[i])
    &&& (i == 0 || !is_token_char(s[i - 1]))
}

/// Where the run of token characters beginning at `i` ends: the first
/// position at or after `i` that is past the end or holds no token
/// character.
pub open spec fn run_end(s: Seq<char>, i: int) -> int
    decreases s.len() - i,
{
    if i < 0 || i >= s.len() || !is_token_char(s[i]) {
        i
    } else {
        run_end(s, i + 1)
    }
}

/// The token starting at `qi` in `q` equals the token starting at `ti` in
/// `t`, after case folding.
pub open spec fn tokens_equal(q: Seq<char>, qi: int, t: Seq<char>, ti: int) -> bool {
    &&& run_end(q, qi) - qi == run_end(t, ti) - ti
    &&& forall|m: int|
        0 <= m < run_end(q, qi) - qi ==> #[trigger] norm_char(q[qi + m]) == norm_char(t[ti + m])
}

/// Free-text match: some token of the query equals some token of the
/// text, case-folded. A query without any token matches nothing.
pub open spec fn text_matches(q: Seq<char>, t: Seq<char>) -> bool {
    exists|qi: int, ti: int|
        #[trigger] token_at(q, qi) && #[trigger] token_at(t, ti) && tokens_equal(q, qi, t, ti)
}

/// Exact-term match: the term, letter for letter, equals some case-folded
/// token of the text. A term that is not itself a single token matches
/// nothing.
pub open spec fn term_matches(term: Seq<char>, t: Seq<char>) -> bool {
    exists|ti: int|
        #[trigger] token_at(t, ti) && run_end(t, ti) - ti == term.len() && (forall|m: int|
            0 <= m < term.len() ==> term[m] == #[trigger] norm_char(t[ti + m]))
}

/// Relies on str::chars, which yields exactly the characters of the
/// string — the string's view — in order, collected into a vector.
#[verifier::external_body]
pub fn char_vec(s: &str) -> (v: Vec<char>)
    ensures
        v@ == s@,
{
    s.chars().collect()
}

/// Relies on String: FromIterator<char>, which builds the string holding
/// exactly the given characters in order.
#[verifier::external_body]
pub fn string_of(v: &Vec<char>) -> (s: String)
    ensures
        s@ == v@,
{
    v.iter().collect()
}

/// Runtime form of [`is_token_char`].
pub fn token_char(c: char) -> (b: bool)
    ensures
        b == is_token_char(c),
{
    let u = c as u32;
    (97 <= u && u <= 122) || (65 <= u && u <= 90) || (48 <= u && u <= 57)
}

/// Runtime form of [`norm_char`].
pub fn fold_char(c: char) -> (r: char)
    ensures
        r == norm_char(c),
{
    let u = c as u32;
    if 65 <= u && u <= 90 {
        ((u + 32) as u8) as char
    } else {
        c
    }
}

/// Runtime form of [`token_at`].
fn token_starts_at(s: &Vec<char>, i: usize) -> (b: bool)
    requires
        i < s@.len(),
    ensures
        b == token_at(s@, i as int),
{
    if !token_char(s[i]) {
        return false;
    }
    if i == 0 {
        return true;
    }
    !token_char(s[i - 1])
}

/// Whether the tokens beginning at `qi` and `ti` are equal after case
/// folding, walked character by character.
fn tokens_equal_at(q: &Vec<char>, qi: usize, t: &Vec<char>, ti: usize) -> (b: bool)
    requires
        qi < q@.len(),
        ti < t@.len(),
    ensures
        b == tokens_equal(q@, qi as int, t@, ti as int),
{
    proof {
        lemma_run_end_bounds(q@, qi as int);
        lemma_run_end_bounds(t@, ti as int);
    }
    let mut m: usize = 0;
    loop
        invariant
            qi < q@.len(),
            ti < t@.len(),
            qi + m <= q@.len(),
            ti + m <= t@.len(),
            run_end(q@, qi as int) == run_end(q@, qi + m),
            run_end(t@, ti as int) == run_end(t@, ti + m),
            qi + m <= run_end(q@, qi as int) <= q@.len(),
            ti + m <= run_end(t@, ti as int) <= t@.len(),
            forall|k: int| 0 <= k < m ==> #[trigger] norm_char(q@[qi + k]) == norm_char(t@[ti + k]),
        decreases q@.len() - m,
    {
        let q_in = m < q.len() - qi && token_char(q[qi + m]);
        let t_in = m < t.len() - ti && token_char(t[ti + m]);
        if q_in && t_in {
            if fold_char(q[qi + m]) != fold_char(t[ti + m]) {
                // The runs differ at offset m, or differ in length; either
                // way the tokens differ.
                proof {
                    let qe = run_end(q@, qi as int);
                    let te = run_end(t@, ti as int);
                    assert(run_end(q@, qi + m) == run_end(q@, qi + m + 1));
                    assert(run_end(t@, ti + m) == run_end(t@, ti + m + 1));
                    lemma_run_end_bounds(q@, qi + m + 1);
                    lemma_run_end_bounds(t@, ti + m + 1);
                    if qe - qi == te - ti {
                        assert(!tokens_equal(q@, qi as int, t@, ti as int)) by {
                            assert(0 <= m < qe - qi);
                        }
                    }
                }
                return false;
            }
            proof {
                assert(run_end(q@, qi + m) == run_end(q@, qi + m + 1));
                assert(run_end(t@, ti + m) == run_end(t@, ti + m + 1));
                lemma_run_end_bounds(q@, qi + m + 1);
                lemma_run_end_bounds(t@, ti + m + 1);
            }
            m = m + 1;
        } else if !q_in && !t_in {
            proof {
                assert(run_end(q@, qi + m) == qi + m);
                assert(run_end(t@, ti + m) == ti + m);
            }
            return true;
        } else {
            // One token ends before the other: different lengths.
            proof {
                if q_in {
                    assert(run_end(t@, ti + m) == ti + m);
                    assert(run_end(q@, qi + m) == run_end(q@, qi + m + 1));
                    lemma_run_end_bounds(q@, qi + m + 1);
                } else {
                    assert(run_end(q@, qi + m) == qi + m);
                    assert(run_end(t@, ti + m) == run_end(t@, ti + m + 1));
                    lemma_run_end_bounds(t@, ti + m + 1);
                }
            }
            return false;
        }
    }
}

/// The run end never lies before its start, nor past the end of the text.
proof fn lemma_run_end_bounds(s: Seq<char>, i: int)
    requires
        0 <= i <= s.len(),
    ensures
        i <= run_end(s, i) <= s.len(),
    decreases s.len() - i,
{
    if i < s.len() && is_token_char(s[i]) {
        lemma_run_end_bounds(s, i + 1);
    }
}

/// Free-text match of a query against a stored text, runtime form of
/// [`text_matches`]: every pair of token start positions is considered.
pub fn text_match(q: &Vec<char>, t: &Vec<char>) -> (b: bool)
    ensures
        b == text_matches(q@, t@),
{
    let mut qi: usize = 0;
    while qi < q.len()
        invariant
            qi <= q@.len(),
            forall|a: int, tb: int|
                #[trigger] token_at(q@, a) && #[trigger] token_at(t@, tb) && tokens_equal(
                    q@,
                    a,
                    t@,
                    tb,
                ) ==> a >= qi,
        decreases q@.len() - qi,
    {
        if token_starts_at(q, qi) {
            let mut ti: usize = 0;
            while ti < t.len()
                invariant
                    qi < q@.len(),
                    ti <= t@.len(),
                    token_at(q@, qi as int),
                    forall|tb: int|
                        #[trigger] token_at(t@, tb) && tokens_equal(q@, qi as int, t@, tb) ==> tb
                            >= ti,
                decreases t@.len() - ti,
            {
                if token_starts_at(t, ti) {
                    if tokens_equal_at(q, qi, t, ti) {
                        return true;
                    }
                }
                ti = ti + 1;
            }
            proof {
                assert(forall|tb: int|
                    !(#[trigger] token_at(t@, tb) && tokens_equal(q@, qi as int, t@, tb)));
            }
        }
        qi = qi + 1;
    }
    false
}

/// Exact-term match of a term against a stored text, runtime form of
/// [`term_matches`].
pub fn term_match(term: &Vec<char>, t: &Vec<char>) -> (b: bool)
    ensures
        b == term_matches(term@, t@),
{
    let mut ti: usize = 0;
    while ti < t.len()
        invariant
            ti <= t@.len(),
            forall|tb: int|
                #[trigger] token_at(t@, tb) && run_end(t@, tb) - tb == term@.len() && (forall|
                    m: int,
                |
                    0 <= m < term@.len() ==> term@[m] == #[trigger] norm_char(t@[tb + m])) ==> tb >= ti,
        decreases t@.len() - ti,
    {
        if token_starts_at(t, ti) {
            if term_equal_at(term, t, ti) {
                return true;
            }
        }
        ti = ti + 1;
    }
    false
}

/// Whether the token beginning at `ti` equals the whole term.
fn term_equal_at(term: &Vec<char>, t: &Vec<char>, ti: usize) -> (b: bool)
    requires
        ti < t@.len(),
    ensures
        b == (run_end(t@, ti as int) - ti == term@.len() && (forall|m: int|
            0 <= m < term@.len() ==> term@[m] == #[trigger] norm_char(t@[ti + m]))),
{
    proof {
        lemma_run_end_bounds(t@, ti as int);
    }
    let mut m: usize = 0;
    loop
        invariant
            ti < t@.len(),
            m <= term@.len(),
            ti + m <= t@.len(),
            run_end(t@, ti as int) == run_end(t@, ti + m),
            ti + m <= run_end(t@, ti as int) <= t@.len(),
            forall|k: int| 0 <= k < m ==> term@[k] == #[trigger] norm_char(t@[ti + k]),
        decreases t@.len() - m,
    {
        let t_in = m < t.len() - ti && token_char(t[ti + m]);
        let term_left = m < term.len();
        if t_in && term_left {
            if term[m] != fold_char(t[ti + m]) {
                proof {
                    assert(run_end(t@, ti + m) == run_end(t@, ti + m + 1));
                    lemma_run_end_bounds(t@, ti + m + 1);
                    if run_end(t@, ti as int) - ti == term@.len() {
                        assert(0 <= m < term@.len());
                    }
                }
                return false;
            }
            proof {
                assert(run_end(t@, ti + m) == run_end(t@, ti + m + 1));
                lemma_run_end_bounds(t@, ti + m + 1);
            }
            m = m + 1;
        } else if !t_in && !term_left {
            proof {
                assert(run_end(t@, ti + m) == ti + m);
            }
            return true;
        } else {
            proof {
                if t_in {
                    assert(run_end(t@, ti + m) == run_end(t@, ti + m + 1));
                    lemma_run_end_bounds(t@, ti + m + 1);
                } else {
                    assert(run_end(t@, ti + m) == ti + m);
                }
            }
            return false;
        }
    }
}

/// Free-text match on strings.
pub fn text_match_str(q: &str, t: &str) -> (b: bool)
    ensures
        b == text_matches(q@, t@),
{
    let qv = char_vec(q);
    let tv = char_vec(t);
    text_match(&qv, &tv)
}

/// Exact-term match on strings.
pub fn term_match_str(term: &str, t: &str) -> (b: bool)
    ensures
        b == term_matches(term@, t@),
{
    let mv = char_vec(term);
    let tv = char_vec(t);
    term_match(&mv, &tv)
}

} // verus!
