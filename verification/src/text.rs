//! Character-level scanning primitives shared by both grammars: character
//! classes, whitespace and token scans, literal matching and searching, and
//! trimming, all specified over `Seq<char>`.

use vstd::prelude::*;

verus! {

// ---------------------------------------------------------------------------
// Character classes
// ---------------------------------------------------------------------------

/// Whitespace as the block-level grammar rules count it:
/// space, tab, carriage return, newline.
pub open spec fn is_block_ws(c: char) -> bool {
    c == ' ' || c == '\t' || c == '\r' || c == '\n'
}

/// Whitespace inside a single physical line: space or tab.
pub open spec fn is_line_ws(c: char) -> bool {
    c == ' ' || c == '\t'
}

pub open spec fn is_ascii_digit_char(c: char) -> bool {
    '0' <= c && c <= '9'
}

pub open spec fn is_ascii_lower_char(c: char) -> bool {
    'a' <= c && c <= 'z'
}

pub open spec fn is_ascii_upper_char(c: char) -> bool {
    'A' <= c && c <= 'Z'
}

pub open spec fn is_ascii_letter_char(c: char) -> bool {
    is_ascii_lower_char(c) || is_ascii_upper_char(c)
}

pub open spec fn is_alnum_char(c: char) -> bool {
    is_ascii_letter_char(c) || is_ascii_digit_char(c)
}

/// Characters allowed in a declaration key: ASCII alphanumerics, `.` and `-`.
pub open spec fn is_key_char(c: char) -> bool {
    is_alnum_char(c) || c == '.' || c == '-'
}

/// The White_Space characters, exactly as `char::is_whitespace` counts them;
/// used for the trimming of free text.
pub open spec fn is_uni_ws(c: char) -> bool {
    ('\u{0009}' <= c && c <= '\u{000D}') || c == ' ' || c == '\u{0085}' || c == '\u{00A0}'
        || c == '\u{1680}' || ('\u{2000}' <= c && c <= '\u{200A}') || c == '\u{2028}' || c
        == '\u{2029}' || c == '\u{202F}' || c == '\u{205F}' || c == '\u{3000}'
}

pub fn block_ws(c: char) -> (r: bool)
    ensures
        r == is_block_ws(c),
{
    c == ' ' || c == '\t' || c == '\r' || c == '\n'
}

pub fn line_ws(c: char) -> (r: bool)
    ensures
        r == is_line_ws(c),
{
    c == ' ' || c == '\t'
}

pub fn alnum_char(c: char) -> (r: bool)
    ensures
        r == is_alnum_char(c),
{
    ('a' <= c && c <= 'z') || ('A' <= c && c <= 'Z') || ('0' <= c && c <= '9')
}

pub fn key_char(c: char) -> (r: bool)
    ensures
        r == is_key_char(c),
{
    alnum_char(c) || c == '.' || c == '-'
}

pub fn uni_ws(c: char) -> (r: bool)
    ensures
        r == is_uni_ws(c),
{
    ('\u{0009}' <= c && c <= '\u{000D}') || c == ' ' || c == '\u{0085}' || c == '\u{00A0}'
        || c == '\u{1680}' || ('\u{2000}' <= c && c <= '\u{200A}') || c == '\u{2028}' || c
        == '\u{2029}' || c == '\u{202F}' || c == '\u{205F}' || c == '\u{3000}'
}

// ---------------------------------------------------------------------------
// Scans: longest run of a character class from a position
// ---------------------------------------------------------------------------

/// First index at or after `i` holding no block whitespace (or the end).
pub open spec fn ws_end(s: Seq<char>, i: int) -> int
    decreases s.len() - i,
{
    if i < s.len() && is_block_ws(s[i]) {
        ws_end(s, i + 1)
    } else {
        i
    }
}

/// First index at or after `i` holding no line whitespace (or the end).
pub open spec fn line_ws_end(s: Seq<char>, i: int) -> int
    decreases s.len() - i,
{
    if i < s.len() && is_line_ws(s[i]) {
        line_ws_end(s, i + 1)
    } else {
        i
    }
}

/// First index at or after `i` holding no key character (or the end).
pub open spec fn key_end(s: Seq<char>, i: int) -> int
    decreases s.len() - i,
{
    if i < s.len() && is_key_char(s[i]) {
        key_end(s, i + 1)
    } else {
        i
    }
}

/// First index at or after `i` holding no ASCII alphanumeric (or the end).
pub open spec fn alnum_end(s: Seq<char>, i: int) -> int
    decreases s.len() - i,
{
    if i < s.len() && is_alnum_char(s[i]) {
        alnum_end(s, i + 1)
    } else {
        i
    }
}

/// First index at or after `i` holding a newline (or the end).
pub open spec fn line_end(s: Seq<char>, i: int) -> int
    decreases s.len() - i,
{
    if i < s.len() && s[i] != '\n' {
        line_end(s, i + 1)
    } else {
        i
    }
}

pub proof fn lemma_ws_end_bounds(s: Seq<char>, i: int)
    requires
        0 <= i <= s.len(),
    ensures
        i <= ws_end(s, i) <= s.len(),
    decreases s.len() - i,
{
    if i < s.len() && is_block_ws(s[i]) {
        lemma_ws_end_bounds(s, i + 1);
    }
}

pub proof fn lemma_line_ws_end_bounds(s: Seq<char>, i: int)
    requires
        0 <= i <= s.len(),
    ensures
        i <= line_ws_end(s, i) <= s.len(),
    decreases s.len() - i,
{
    if i < s.len() && is_line_ws(s[i]) {
        lemma_line_ws_end_bounds(s, i + 1);
    }
}

pub proof fn lemma_key_end_bounds(s: Seq<char>, i: int)
    requires
        0 <= i <= s.len(),
    ensures
        i <= key_end(s, i) <= s.len(),
    decreases s.len() - i,
{
    if i < s.len() && is_key_char(s[i]) {
        lemma_key_end_bounds(s, i + 1);
    }
}

pub proof fn lemma_alnum_end_bounds(s: Seq<char>, i: int)
    requires
        0 <= i <= s.len(),
    ensures
        i <= alnum_end(s, i) <= s.len(),
    decreases s.len() - i,
{
    if i < s.len() && is_alnum_char(s[i]) {
        lemma_alnum_end_bounds(s, i + 1);
    }
}

pub proof fn lemma_line_end_bounds(s: Seq<char>, i: int)
    requires
        0 <= i <= s.len(),
    ensures
        i <= line_end(s, i) <= s.len(),
        line_end(s, i) < s.len() ==> s[line_end(s, i)] == '\n',
        forall|k: int| i <= k < line_end(s, i) ==> s[k] != '\n',
    decreases s.len() - i,
{
    if i < s.len() && s[i] != '\n' {
        lemma_line_end_bounds(s, i + 1);
    }
}

pub fn skip_ws(s: &Vec<char>, i: usize) -> (j: usize)
    requires
        i <= s@.len(),
    ensures
        j == ws_end(s@, i as int),
        i <= j <= s@.len(),
{
    let mut j: usize = i;
    while j < s.len() && block_ws(s[j])
        invariant
            i <= j <= s@.len(),
            ws_end(s@, i as int) == ws_end(s@, j as int),
        decreases s@.len() - j,
    {
        j = j + 1;
    }
    j
}

pub fn skip_line_ws(s: &Vec<char>, i: usize) -> (j: usize)
    requires
        i <= s@.len(),
    ensures
        j == line_ws_end(s@, i as int),
        i <= j <= s@.len(),
{
    let mut j: usize = i;
    while j < s.len() && line_ws(s[j])
        invariant
            i <= j <= s@.len(),
            line_ws_end(s@, i as int) == line_ws_end(s@, j as int),
        decreases s@.len() - j,
    {
        j = j + 1;
    }
    j
}

pub fn skip_key(s: &Vec<char>, i: usize) -> (j: usize)
    requires
        i <= s@.len(),
    ensures
        j == key_end(s@, i as int),
        i <= j <= s@.len(),
{
    let mut j: usize = i;
    while j < s.len() && key_char(s[j])
        invariant
            i <= j <= s@.len(),
            key_end(s@, i as int) == key_end(s@, j as int),
        decreases s@.len() - j,
    {
        j = j + 1;
    }
    j
}

pub fn skip_alnum(s: &Vec<char>, i: usize) -> (j: usize)
    requires
        i <= s@.len(),
    ensures
        j == alnum_end(s@, i as int),
        i <= j <= s@.len(),
{
    let mut j: usize = i;
    while j < s.len() && alnum_char(s[j])
        invariant
            i <= j <= s@.len(),
            alnum_end(s@, i as int) == alnum_end(s@, j as int),
        decreases s@.len() - j,
    {
        j = j + 1;
    }
    j
}

pub fn find_line_end(s: &Vec<char>, i: usize) -> (j: usize)
    requires
        i <= s@.len(),
    ensures
        j == line_end(s@, i as int),
        i <= j <= s@.len(),
{
    let mut j: usize = i;
    while j < s.len() && s[j] != '\n'
        invariant
            i <= j <= s@.len(),
            line_end(s@, i as int) == line_end(s@, j as int),
        decreases s@.len() - j,
    {
        j = j + 1;
    }
    j
}

// ---------------------------------------------------------------------------
// Literal matching and searching
// ---------------------------------------------------------------------------

/// The pattern `pat` occurs in `s` starting at index `i`.
pub open spec fn starts_with_at(s: Seq<char>, i: int, pat: Seq<char>) -> bool {
    0 <= i && i + pat.len() <= s.len() && s.subrange(i, i + pat.len()) == pat
}

pub fn match_at(s: &Vec<char>, i: usize, pat: &Vec<char>) -> (r: bool)
    requires
        i <= s@.len(),
    ensures
        r == starts_with_at(s@, i as int, pat@),
{
    let n: usize = s.len();
    let m: usize = pat.len();
    if n - i < m {
        return false;
    }
    let mut k: usize = 0;
    while k < m
        invariant
            0 <= k <= m,
            i + m <= n,
            n == s@.len(),
            m == pat@.len(),
            forall|q: int| 0 <= q < k ==> s@[i + q] == pat@[q],
        decreases m - k,
    {
        if s[i + k] != pat[k] {
            proof {
                assert(s@.subrange(i as int, i + pat@.len())[k as int] == s@[i + k]);
            }
            return false;
        }
        k = k + 1;
    }
    proof {
        assert(s@.subrange(i as int, i + pat@.len()) =~= pat@);
    }
    true
}

/// Index of the first occurrence of `pat` in `s` at or after `i`, if any.
pub open spec fn find_from(s: Seq<char>, i: int, pat: Seq<char>) -> Option<int>
    decreases s.len() - i,
{
    if 0 <= i && i + pat.len() <= s.len() {
        if starts_with_at(s, i, pat) {
            Some(i)
        } else if i < s.len() {
            find_from(s, i + 1, pat)
        } else {
            None
        }
    } else {
        None
    }
}

pub proof fn lemma_find_from_props(s: Seq<char>, i: int, pat: Seq<char>)
    requires
        0 <= i,
    ensures
        match find_from(s, i, pat) {
            Some(j) => i <= j && j + pat.len() <= s.len() && starts_with_at(s, j, pat),
            None => forall|k: int| i <= k ==> !starts_with_at(s, k, pat),
        },
    decreases s.len() - i,
{
    if 0 <= i && i + pat.len() <= s.len() {
        if !starts_with_at(s, i, pat) && i < s.len() {
            lemma_find_from_props(s, i + 1, pat);
        }
    } else {
        assert forall|k: int| i <= k implies !starts_with_at(s, k, pat) by {}
    }
}

pub fn find_at(s: &Vec<char>, i: usize, pat: &Vec<char>) -> (r: Option<usize>)
    requires
        i <= s@.len(),
    ensures
        match r {
            Some(j) => find_from(s@, i as int, pat@) == Some(j as int),
            None => find_from(s@, i as int, pat@) is None,
        },
{
    if pat.len() == 0 {
        proof {
            assert(s@.subrange(i as int, i as int) =~= pat@);
        }
        return Some(i);
    }
    let mut j: usize = i;
    loop
        invariant
            i <= j <= s@.len(),
            pat@.len() > 0,
            find_from(s@, i as int, pat@) == find_from(s@, j as int, pat@),
        decreases s@.len() - j,
    {
        if s.len() - j < pat.len() {
            return None;
        }
        if match_at(s, j, pat) {
            return Some(j);
        }
        j = j + 1;
    }
}

// ---------------------------------------------------------------------------
// Trimming
// ---------------------------------------------------------------------------

/// `s` with trailing whitespace removed, as `str::trim_end` does.
pub open spec fn seq_trim_end(s: Seq<char>) -> Seq<char>
    decreases s.len(),
{
    if s.len() > 0 && is_uni_ws(s[s.len() - 1]) {
        seq_trim_end(s.drop_last())
    } else {
        s
    }
}

/// `s` with leading whitespace removed, as `str::trim_start` does.
pub open spec fn seq_trim_start(s: Seq<char>) -> Seq<char>
    decreases s.len(),
{
    if s.len() > 0 && is_uni_ws(s[0]) {
        seq_trim_start(s.drop_first())
    } else {
        s
    }
}

/// `s` with whitespace removed at both ends, as `str::trim` does.
pub open spec fn seq_trim(s: Seq<char>) -> Seq<char> {
    seq_trim_start(seq_trim_end(s))
}

/// End of `seq_trim_end(s@.subrange(from, to))` inside `s`.
pub fn trim_end_range(s: &Vec<char>, from: usize, to: usize) -> (b: usize)
    requires
        from <= to <= s@.len(),
    ensures
        from <= b <= to,
        s@.subrange(from as int, b as int) == seq_trim_end(s@.subrange(from as int, to as int)),
{
    let mut b: usize = to;
    while b > from && uni_ws(s[b - 1])
        invariant
            from <= b <= to <= s@.len(),
            seq_trim_end(s@.subrange(from as int, to as int)) == seq_trim_end(
                s@.subrange(from as int, b as int),
            ),
        decreases b,
    {
        proof {
            assert(s@.subrange(from as int, b as int).drop_last() =~= s@.subrange(
                from as int,
                b - 1,
            ));
        }
        b = b - 1;
    }
    proof {
        assert(seq_trim_end(s@.subrange(from as int, b as int)) == s@.subrange(
            from as int,
            b as int,
        ));
    }
    b
}

/// Bounds of `seq_trim(s@.subrange(from, to))` inside `s`.
pub fn trim_range(s: &Vec<char>, from: usize, to: usize) -> (r: (usize, usize))
    requires
        from <= to <= s@.len(),
    ensures
        from <= r.0 <= r.1 <= to,
        s@.subrange(r.0 as int, r.1 as int) == seq_trim(s@.subrange(from as int, to as int)),
{
    let mut b: usize = to;
    while b > from && uni_ws(s[b - 1])
        invariant
            from <= b <= to <= s@.len(),
            seq_trim_end(s@.subrange(from as int, to as int)) == seq_trim_end(
                s@.subrange(from as int, b as int),
            ),
        decreases b,
    {
        proof {
            assert(s@.subrange(from as int, b as int).drop_last() =~= s@.subrange(
                from as int,
                b - 1,
            ));
        }
        b = b - 1;
    }
    proof {
        assert(seq_trim_end(s@.subrange(from as int, b as int)) == s@.subrange(
            from as int,
            b as int,
        ));
    }
    let mut a: usize = from;
    while a < b && uni_ws(s[a])
        invariant
            from <= a <= b <= s@.len(),
            seq_trim_end(s@.subrange(from as int, to as int)) == s@.subrange(from as int, b as int),
            seq_trim_start(s@.subrange(from as int, b as int)) == seq_trim_start(
                s@.subrange(a as int, b as int),
            ),
        decreases b - a,
    {
        proof {
            assert(s@.subrange(a as int, b as int).drop_first() =~= s@.subrange(a + 1, b as int));
        }
        a = a + 1;
    }
    proof {
        assert(seq_trim_start(s@.subrange(a as int, b as int)) == s@.subrange(a as int, b as int));
    }
    (a, b)
}

// ---------------------------------------------------------------------------
// Extraction and string bridging
// ---------------------------------------------------------------------------

/// A fresh vector holding `s[from..to]`.
pub fn copy_range(s: &Vec<char>, from: usize, to: usize) -> (r: Vec<char>)
    requires
        from <= to <= s@.len(),
    ensures
        r@ == s@.subrange(from as int, to as int),
{
    let mut r: Vec<char> = Vec::new();
    let mut k: usize = from;
    while k < to
        invariant
            from <= k <= to <= s@.len(),
            r@ =~= s@.subrange(from as int, k as int),
        decreases to - k,
    {
        r.push(s[k]);
        proof {
            assert(r@ =~= s@.subrange(from as int, k + 1));
        }
        k = k + 1;
    }
    r
}

/// The characters of a string slice, in order.
pub fn str_chars(s: &str) -> (r: Vec<char>)
    ensures
        r@ == s@,
{
    broadcast use vstd::string::group_string_axioms;

    let mut it = s.chars();
    let mut r: Vec<char> = Vec::new();
    loop
        invariant
            vstd::std_specs::iter::IteratorSpec::obeys_prophetic_iter_laws(&it),
            vstd::std_specs::iter::IteratorSpec::decrease(&it) is Some,
            r@ + vstd::std_specs::iter::IteratorSpec::remaining(&it) == s@,
        decreases vstd::std_specs::iter::IteratorSpec::decrease(&it)->0,
    {
        match it.next() {
            Some(c) => {
                r.push(c);
                proof {
                    assert(r@ + vstd::std_specs::iter::IteratorSpec::remaining(&it) =~= s@);
                }
            },
            None => {
                proof {
                    assert(r@ =~= s@);
                }
                return r;
            },
        }
    }
}

/// Relies on `String::push`: appends the given character to the end of the
/// string.
#[verifier::external_body]
fn push_char(s: &mut String, c: char)
    ensures
        final(s)@ == old(s)@ + seq![c],
{
    s.push(c)
}

/// A `String` holding exactly the characters of `v`.
pub fn chars_string(v: &Vec<char>) -> (r: String)
    ensures
        r@ == v@,
{
    let mut r = String::new();
    let mut k: usize = 0;
    while k < v.len()
        invariant
            0 <= k <= v@.len(),
            r@ =~= v@.subrange(0, k as int),
        decreases v@.len() - k,
    {
        push_char(&mut r, v[k]);
        proof {
            assert(r@ =~= v@.subrange(0, k + 1));
        }
        k = k + 1;
    }
    proof {
        assert(v@.subrange(0, v@.len() as int) =~= v@);
    }
    r
}

/// A `String` holding `s[from..to]`.
pub fn range_string(s: &Vec<char>, from: usize, to: usize) -> (r: String)
    requires
        from <= to <= s@.len(),
    ensures
        r@ == s@.subrange(from as int, to as int),
{
    let mut r = String::new();
    let mut k: usize = from;
    while k < to
        invariant
            from <= k <= to <= s@.len(),
            r@ =~= s@.subrange(from as int, k as int),
        decreases to - k,
    {
        push_char(&mut r, s[k]);
        proof {
            assert(r@ =~= s@.subrange(from as int, k + 1));
        }
        k = k + 1;
    }
    r
}

// ---------------------------------------------------------------------------
// Line splitting
// ---------------------------------------------------------------------------

/// The lines of `s` from position `i` on, as `str::lines` counts them: split
/// at `\n`, one trailing `\r` dropped per line, and no final empty line when
/// the text ends with a newline.
pub open spec fn split_lines_at(s: Seq<char>, i: int) -> Seq<Seq<char>>
    decreases s.len() - i,
        when 0 <= i <= s.len()
        via split_lines_at_decreases
{
    if i >= s.len() {
        Seq::empty()
    } else {
        let j = line_end(s, i);
        let raw = s.subrange(i, j);
        let line = if raw.len() > 0 && raw[raw.len() - 1] == '\r' {
            raw.drop_last()
        } else {
            raw
        };
        if j < s.len() {
            seq![line] + split_lines_at(s, j + 1)
        } else {
            seq![line]
        }
    }
}

#[via_fn]
proof fn split_lines_at_decreases(s: Seq<char>, i: int) {
    lemma_line_end_bounds(s, i);
}

/// The lines of `s`, as `str::lines` yields them.
pub open spec fn split_lines(s: Seq<char>) -> Seq<Seq<char>> {
    split_lines_at(s, 0)
}

/// The line sequence a vector of line buffers stands for.
pub open spec fn lines_view(r: Seq<Vec<char>>) -> Seq<Seq<char>> {
    Seq::new(r.len(), |i: int| r[i]@)
}

/// Split `s` into its lines.
pub fn split_lines_vec(s: &Vec<char>) -> (r: Vec<Vec<char>>)
    ensures
        lines_view(r@) == split_lines(s@),
{
    let mut r: Vec<Vec<char>> = Vec::new();
    let mut i: usize = 0;
    proof {
        assert(lines_view(r@) + split_lines_at(s@, 0) =~= split_lines_at(s@, 0));
    }
    while i < s.len()
        invariant
            i <= s@.len(),
            lines_view(r@) + split_lines_at(s@, i as int) == split_lines(s@),
        decreases s@.len() - i,
    {
        let j = find_line_end(s, i);
        proof {
            lemma_line_end_bounds(s@, i as int);
        }
        let mut e = j;
        if e > i && s[e - 1] == '\r' {
            e = e - 1;
            proof {
                let raw = s@.subrange(i as int, j as int);
                assert(raw[raw.len() - 1] == s@[j - 1]);
                assert(raw.drop_last() =~= s@.subrange(i as int, e as int));
            }
        }
        let line = copy_range(s, i, e);
        let ghost old_r = r@;
        r.push(line);
        proof {
            assert(lines_view(r@) =~= lines_view(old_r) + seq![line@]);
            let raw = s@.subrange(i as int, j as int);
            if !(raw.len() > 0 && raw[raw.len() - 1] == '\r') {
                assert(raw =~= s@.subrange(i as int, e as int));
            }
            if j < s@.len() {
                assert((lines_view(old_r) + (seq![line@] + split_lines_at(s@, j + 1)))
                    =~= (lines_view(old_r) + seq![line@]) + split_lines_at(s@, j + 1));
            } else {
                assert(split_lines_at(s@, j as int) =~= Seq::<Seq<char>>::empty());
                assert((lines_view(old_r) + seq![line@]) + Seq::<Seq<char>>::empty()
                    =~= lines_view(old_r) + seq![line@]);
            }
        }
        if j < s.len() {
            i = j + 1;
        } else {
            i = j;
        }
    }
    proof {
        assert(lines_view(r@) + Seq::<Seq<char>>::empty() =~= lines_view(r@));
    }
    r
}

// ---------------------------------------------------------------------------
// Byte offsets
// ---------------------------------------------------------------------------

/// Number of bytes in the UTF-8 encoding of `c`.
pub open spec fn utf8_len(c: char) -> int {
    if (c as u32) < 0x80 {
        1
    } else if (c as u32) < 0x800 {
        2
    } else if (c as u32) < 0x10000 {
        3
    } else {
        4
    }
}

/// Byte offset of character index `i` in `s`: the UTF-8 length of the first
/// `i` characters.
pub open spec fn byte_pos(s: Seq<char>, i: int) -> int
    decreases i,
{
    if i <= 0 {
        0
    } else {
        byte_pos(s, i - 1) + utf8_len(s[i - 1])
    }
}

pub proof fn lemma_byte_pos_mono(s: Seq<char>, i: int, j: int)
    requires
        0 <= i <= j,
    ensures
        byte_pos(s, i) <= byte_pos(s, j),
    decreases j,
{
    if i < j {
        lemma_byte_pos_mono(s, i, j - 1);
    }
}

proof fn lemma_byte_pos_shift(s: Seq<char>, i: int)
    requires
        1 <= i <= s.len(),
    ensures
        byte_pos(s, i) == utf8_len(s[0]) + byte_pos(s.drop_first(), i - 1),
    decreases i,
{
    if i > 1 {
        lemma_byte_pos_shift(s, i - 1);
        assert(s.drop_first()[i - 2] == s[i - 1]);
    } else {
        assert(byte_pos(s, 0) == 0);
        assert(byte_pos(s.drop_first(), 0) == 0);
    }
}

proof fn lemma_encode_scalar_len(c: char)
    ensures
        vstd::utf8::encode_scalar(c as u32).len() == utf8_len(c),
{
}

/// The byte offset of the end of `s` is the length of its UTF-8 encoding —
/// for the view of a `&str`, its `len()`.
pub proof fn lemma_byte_pos_total(s: Seq<char>)
    ensures
        byte_pos(s, s.len() as int) == vstd::utf8::encode_utf8(s).len(),
    decreases s.len(),
{
    if s.len() > 0 {
        lemma_byte_pos_total(s.drop_first());
        lemma_byte_pos_shift(s, s.len() as int);
        lemma_encode_scalar_len(s[0]);
    }
}

/// The byte offset of character index `i`, computed from the characters.
pub fn byte_offset(s: &Vec<char>, i: usize) -> (r: usize)
    requires
        i <= s@.len(),
        byte_pos(s@, s@.len() as int) <= usize::MAX,
    ensures
        r == byte_pos(s@, i as int),
{
    let mut r: usize = 0;
    let mut k: usize = 0;
    while k < i
        invariant
            0 <= k <= i <= s@.len(),
            byte_pos(s@, s@.len() as int) <= usize::MAX,
            r == byte_pos(s@, k as int),
        decreases i - k,
    {
        let c = s[k];
        let w: usize = if (c as u32) < 0x80 {
            1
        } else if (c as u32) < 0x800 {
            2
        } else if (c as u32) < 0x10000 {
            3
        } else {
            4
        };
        proof {
            lemma_byte_pos_mono(s@, k + 1, s@.len() as int);
        }
        r = r + w;
        k = k + 1;
    }
    r
}

// ---------------------------------------------------------------------------
// Decimal rendering
// ---------------------------------------------------------------------------

pub open spec fn digit_char(d: int) -> char {
    if d == 0 {
        '0'
    } else if d == 1 {
        '1'
    } else if d == 2 {
        '2'
    } else if d == 3 {
        '3'
    } else if d == 4 {
        '4'
    } else if d == 5 {
        '5'
    } else if d == 6 {
        '6'
    } else if d == 7 {
        '7'
    } else if d == 8 {
        '8'
    } else {
        '9'
    }
}

/// The decimal digits of `n`, most significant first.
pub open spec fn dec_digits(n: int) -> Seq<char>
    decreases n,
{
    if n < 10 {
        seq![digit_char(n)]
    } else {
        dec_digits(n / 10) + seq![digit_char(n % 10)]
    }
}

fn digit_char_of(d: usize) -> (r: char)
    requires
        d < 10,
    ensures
        r == digit_char(d as int),
{
    if d == 0 {
        '0'
    } else if d == 1 {
        '1'
    } else if d == 2 {
        '2'
    } else if d == 3 {
        '3'
    } else if d == 4 {
        '4'
    } else if d == 5 {
        '5'
    } else if d == 6 {
        '6'
    } else if d == 7 {
        '7'
    } else if d == 8 {
        '8'
    } else {
        '9'
    }
}

/// The decimal digits of `n` as characters, most significant first.
pub fn usize_digits(n: usize) -> (r: Vec<char>)
    ensures
        r@ == dec_digits(n as int),
    decreases n,
{
    if n < 10 {
        let mut v: Vec<char> = Vec::new();
        v.push(digit_char_of(n));
        proof {
            assert(v@ =~= dec_digits(n as int));
        }
        v
    } else {
        let mut v = usize_digits(n / 10);
        v.push(digit_char_of(n % 10));
        proof {
            assert(v@ =~= dec_digits(n as int));
        }
        v
    }
}

} // verus!
