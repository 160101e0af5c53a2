//! Conversion of filesystem paths to facet paths.

use vstd::prelude::*;
use crate::text::{char_vec, string_of};

verus! {

/// The path with every backslash replaced by a forward slash.
pub open spec fn slashes_of(s: Seq<char>) -> Seq<char> {
    s.map(|i: int, c: char| if c == '\\' {
        '/'
    } else {
        c
    })
}

/// The facet form of a path: backslashes become forward slashes, and a
/// leading slash is prepended unless one is already there, so the facet
/// starts at the root.
pub open spec fn facet_of(s: Seq<char>) -> Seq<char> {
    let m = slashes_of(s);
    if m.len() > 0 && m[0] == '/' {
        m
    } else {
        seq!['/'] + m
    }
}

/// Turn a filesystem path — Windows separators included — into a facet
/// path rooted at `/`.
pub fn windows_path_to_facet(file_path: &str) -> (r: String)
    ensures
        r@ == facet_of(file_path@),
{
    let v = char_vec(file_path);
    let mut m: Vec<char> = Vec::new();
    let mut i: usize = 0;
    while i < v.len()
        invariant
            i <= v@.len(),
            m@.len() == i,
            forall|k: int|
                0 <= k < i ==> m@[k] == (if v@[k] == '\\' {
                    '/'
                } else {
                    v@[k]
                }),
        decreases v@.len() - i,
    {
        let c = v[i];
        if c == '\\' {
            m.push('/');
        } else {
            m.push(c);
        }
        i = i + 1;
    }
    assert(m@ =~= slashes_of(v@));
    if m.len() > 0 && m[0] == '/' {
        string_of(&m)
    } else {
        m.insert(0, '/');
        assert(m@ =~= seq!['/'] + slashes_of(v@));
        string_of(&m)
    }
}

} // verus!
