//! Lexical constructs shared by both grammars: the localization-note
//! annotation and the rest-of-line scan.

use crate::text::{
    find_line_end, key_end, line_end, match_at, range_string, skip_key, skip_ws, starts_with_at,
    str_chars, ws_end,
};
use vstd::prelude::*;

verus! {

/// Where a `LOCALIZATION NOTE (key)` annotation stands at `i`: the position
/// after it (an optional trailing colon is consumed too) and the key between
/// the parentheses.
pub open spec fn loc_note_at(s: Seq<char>, i: int) -> Option<(int, Seq<char>)> {
    let pat = "LOCALIZATION NOTE"@;
    if starts_with_at(s, i, pat) {
        let a = ws_end(s, i + pat.len());
        if a < s.len() && s[a] == '(' {
            let k = key_end(s, a + 1);
            if k < s.len() && s[k] == ')' {
                let b = ws_end(s, k + 1);
                let e: int = if b < s.len() && s[b] == ':' {
                    b + 1
                } else {
                    b
                };
                Some((e, s.subrange(a + 1, k)))
            } else {
                None
            }
        } else {
            None
        }
    } else {
        None
    }
}

pub proof fn lemma_loc_note_bounds(s: Seq<char>, i: int)
    requires
        0 <= i <= s.len(),
    ensures
        match loc_note_at(s, i) {
            Some((e, _)) => i < e <= s.len(),
            None => true,
        },
{
    let pat = "LOCALIZATION NOTE"@;
    if starts_with_at(s, i, pat) {
        crate::text::lemma_ws_end_bounds(s, i + pat.len() as int);
        let a = ws_end(s, i + pat.len());
        if a < s.len() && s[a] == '(' {
            crate::text::lemma_key_end_bounds(s, a + 1);
            let k = key_end(s, a + 1);
            if k < s.len() && s[k] == ')' {
                crate::text::lemma_ws_end_bounds(s, k + 1);
            }
        }
    }
}

/// Recognize a `LOCALIZATION NOTE (key)` annotation at `i`; on success the
/// position after it and the key text.
pub fn localization_note(s: &Vec<char>, i: usize) -> (r: Option<(usize, String)>)
    requires
        i <= s@.len(),
    ensures
        match r {
            Some((e, k)) => loc_note_at(s@, i as int) == Some((e as int, k@)) && i < e <= s@.len(),
            None => loc_note_at(s@, i as int) is None,
        },
{
    proof {
        lemma_loc_note_bounds(s@, i as int);
    }
    let pat = str_chars("LOCALIZATION NOTE");
    if !match_at(s, i, &pat) {
        return None;
    }
    let n: usize = s.len();
    proof {
        assert(i + pat@.len() <= n);
    }
    let a = skip_ws(s, i + pat.len());
    if !(a < s.len() && s[a] == '(') {
        return None;
    }
    let k = skip_key(s, a + 1);
    if !(k < s.len() && s[k] == ')') {
        return None;
    }
    let b = skip_ws(s, k + 1);
    let e: usize = if b < s.len() && s[b] == ':' {
        b + 1
    } else {
        b
    };
    let key = range_string(s, a + 1, k);
    Some((e, key))
}

/// The physical line starting at `i`: the position after the line (past the
/// terminating newline, if any) and the end of the line's content.
pub fn rest_of_line(s: &Vec<char>, i: usize) -> (r: (usize, usize))
    requires
        i <= s@.len(),
    ensures
        r.1 == line_end(s@, i as int),
        i <= r.1 <= s@.len(),
        r.0 == if r.1 < s@.len() {
            r.1 + 1
        } else {
            r.1 as int
        },
{
    let j = find_line_end(s, i);
    if j < s.len() {
        (j + 1, j)
    } else {
        (j, j)
    }
}

} // verus!
