//! The key normalizer: canonicalizes a dotted identifier into the target
//! syntax's kebab-case convention.  Every `.` or `-` is a delimiter; a word
//! also starts at a lowercase-to-uppercase transition and at a letter/digit
//! class change.  Segments are lowercased and rejoined with single dashes;
//! empty segments vanish.  Normalization is idempotent.

use crate::text::{
    is_ascii_digit_char, is_ascii_letter_char, is_ascii_lower_char, is_ascii_upper_char,
};
use vstd::prelude::*;

verus! {

/// A delimiter in a source key: a dot or an existing dash.
pub open spec fn is_norm_delim(c: char) -> bool {
    c == '.' || c == '-'
}

/// ASCII lowercasing of one character.
pub open spec fn lower_char(c: char) -> char {
    if is_ascii_upper_char(c) {
        (((c as u8) + 32) as u8) as char
    } else {
        c
    }
}

/// A transition inside a key that starts a new word: a lowercase letter
/// followed by an uppercase one, or a letter/digit class change.
pub open spec fn is_norm_boundary(prev: char, c: char) -> bool {
    (is_ascii_lower_char(prev) && is_ascii_upper_char(c)) || (is_ascii_letter_char(prev)
        && is_ascii_digit_char(c)) || (is_ascii_digit_char(prev) && is_ascii_letter_char(c))
}

/// Normalization of the rest of a key, given the previous significant
/// character (if any) and whether a delimiter has been seen since it.  A
/// dash is emitted before the next significant character where a delimiter
/// or a word boundary calls for one — never at the start, never at the end,
/// and never doubled.
pub open spec fn norm_rec(s: Seq<char>, prev: Option<char>, pending: bool) -> Seq<char>
    decreases s.len(),
{
    if s.len() == 0 {
        Seq::empty()
    } else {
        let c = s[0];
        if is_norm_delim(c) {
            norm_rec(s.drop_first(), prev, true)
        } else {
            let sep = match prev {
                Some(p) => pending || is_norm_boundary(p, c),
                None => false,
            };
            (if sep {
                seq!['-']
            } else {
                Seq::empty()
            }) + seq![lower_char(c)] + norm_rec(s.drop_first(), Some(c), false)
        }
    }
}

/// The normalized (kebab-case) form of a key.
pub open spec fn norm_key(k: Seq<char>) -> Seq<char> {
    norm_rec(k, None, false)
}

fn lower_char_of(c: char) -> (r: char)
    ensures
        r == lower_char(c),
{
    if 'A' <= c && c <= 'Z' {
        ((c as u8) + 32) as char
    } else {
        c
    }
}

fn norm_delim(c: char) -> (r: bool)
    ensures
        r == is_norm_delim(c),
{
    c == '.' || c == '-'
}

fn norm_boundary(prev: char, c: char) -> (r: bool)
    ensures
        r == is_norm_boundary(prev, c),
{
    let prev_lower = 'a' <= prev && prev <= 'z';
    let prev_letter = prev_lower || ('A' <= prev && prev <= 'Z');
    let prev_digit = '0' <= prev && prev <= '9';
    let c_upper = 'A' <= c && c <= 'Z';
    let c_letter = c_upper || ('a' <= c && c <= 'z');
    let c_digit = '0' <= c && c <= '9';
    (prev_lower && c_upper) || (prev_letter && c_digit) || (prev_digit && c_letter)
}

/// Normalize the characters of a key into kebab case.
pub fn normalize_chars(s: &Vec<char>) -> (r: Vec<char>)
    ensures
        r@ == norm_key(s@),
{
    let mut out: Vec<char> = Vec::new();
    let mut prev: Option<char> = None;
    let mut pending = false;
    let mut i: usize = 0;
    proof {
        assert(s@.skip(0) =~= s@);
        assert(Seq::<char>::empty() + norm_rec(s@, None, false) =~= norm_rec(s@, None, false));
    }
    while i < s.len()
        invariant
            i <= s@.len(),
            out@ + norm_rec(s@.skip(i as int), prev, pending) == norm_key(s@),
        decreases s@.len() - i,
    {
        let c = s[i];
        proof {
            assert(s@.skip(i as int)[0] == s@[i as int]);
            assert(s@.skip(i as int).drop_first() =~= s@.skip(i + 1));
        }
        if norm_delim(c) {
            pending = true;
        } else {
            let sep = match prev {
                Some(p) => pending || norm_boundary(p, c),
                None => false,
            };
            let ghost target = norm_rec(s@.skip(i as int), prev, pending);
            if sep {
                out.push('-');
            }
            out.push(lower_char_of(c));
            proof {
                if sep {
                    assert(out@ =~= (out@.subrange(0, out@.len() - 2) + seq!['-'] + seq![
                        lower_char(c),
                    ]));
                }
                assert(out@ + norm_rec(s@.skip(i + 1), Some(c), false) =~= out@.subrange(
                    0,
                    out@.len() - (if sep {
                        2int
                    } else {
                        1int
                    }),
                ) + target);
            }
            prev = Some(c);
            pending = false;
        }
        i = i + 1;
    }
    proof {
        assert(s@.skip(s@.len() as int) =~= Seq::<char>::empty());
        assert(out@ + Seq::<char>::empty() =~= out@);
    }
    out
}

/// Normalize a dotted identifier into the target syntax's kebab-case
/// convention.
pub fn normalize_key(key: &str) -> (r: String)
    ensures
        r@ == norm_key(key@),
{
    let s = crate::text::str_chars(key);
    let out = normalize_chars(&s);
    crate::text::chars_string(&out)
}

// ---------------------------------------------------------------------------
// Idempotence
// ---------------------------------------------------------------------------

proof fn lemma_lower_idem(c: char)
    ensures
        lower_char(lower_char(c)) == lower_char(c),
        is_norm_delim(lower_char(c)) == is_norm_delim(c),
{
}

proof fn lemma_boundary_lower(p: char, c: char)
    requires
        !is_norm_boundary(p, c),
    ensures
        !is_norm_boundary(lower_char(p), lower_char(c)),
{
}

/// Re-normalizing the tail of a normalized key changes nothing: the
/// generalized induction behind idempotence.
proof fn lemma_norm_rec_idem(s: Seq<char>, c: char, pending: bool)
    requires
        !is_norm_delim(c),
    ensures
        norm_rec(norm_rec(s, Some(c), pending), Some(lower_char(c)), false) == norm_rec(
            s,
            Some(c),
            pending,
        ),
    decreases s.len(),
{
    let t = norm_rec(s, Some(c), pending);
    if s.len() == 0 {
    } else {
        let e = s[0];
        if is_norm_delim(e) {
            lemma_norm_rec_idem(s.drop_first(), c, true);
        } else {
            let sep = pending || is_norm_boundary(c, e);
            let t2 = norm_rec(s.drop_first(), Some(e), false);
            lemma_norm_rec_idem(s.drop_first(), e, false);
            lemma_lower_idem(e);
            if sep {
                assert(t =~= seq!['-'] + (seq![lower_char(e)] + t2));
                assert(t[0] == '-');
                assert(t.drop_first() =~= seq![lower_char(e)] + t2);
                assert((seq![lower_char(e)] + t2).drop_first() =~= t2);
                assert(norm_rec(t, Some(lower_char(c)), false) == norm_rec(
                    t.drop_first(),
                    Some(lower_char(c)),
                    true,
                ));
                assert(norm_rec(t.drop_first(), Some(lower_char(c)), true) =~= seq!['-'] + seq![
                    lower_char(lower_char(e)),
                ] + norm_rec(t2, Some(lower_char(e)), false));
                assert(norm_rec(t, Some(lower_char(c)), false) =~= t);
            } else {
                lemma_boundary_lower(c, e);
                assert(t =~= seq![lower_char(e)] + t2);
                assert(t[0] == lower_char(e));
                assert(t.drop_first() =~= t2);
                assert(norm_rec(t, Some(lower_char(c)), false) =~= seq![
                    lower_char(lower_char(e)),
                ] + norm_rec(t2, Some(lower_char(e)), false));
                assert(norm_rec(t, Some(lower_char(c)), false) =~= t);
            }
        }
    }
}

proof fn lemma_norm_rec_idem_start(s: Seq<char>, pending: bool)
    ensures
        norm_rec(norm_rec(s, None, pending), None, false) == norm_rec(s, None, pending),
    decreases s.len(),
{
    let t = norm_rec(s, None, pending);
    if s.len() == 0 {
    } else {
        let e = s[0];
        if is_norm_delim(e) {
            lemma_norm_rec_idem_start(s.drop_first(), true);
        } else {
            let t2 = norm_rec(s.drop_first(), Some(e), false);
            lemma_norm_rec_idem(s.drop_first(), e, false);
            lemma_lower_idem(e);
            assert(t =~= seq![lower_char(e)] + t2);
            assert(t[0] == lower_char(e));
            assert(t.drop_first() =~= t2);
            assert(norm_rec(t, None, false) =~= seq![lower_char(lower_char(e))] + norm_rec(
                t2,
                Some(lower_char(e)),
                false,
            ));
            assert(norm_rec(t, None, false) =~= t);
        }
    }
}

/// Idempotence of key normalization: normalizing an already-normalized key
/// returns it unchanged.
pub proof fn lemma_normalize_idempotent(k: Seq<char>)
    ensures
        norm_key(norm_key(k)) == norm_key(k),
{
    lemma_norm_rec_idem_start(k, false);
}

} // verus!
