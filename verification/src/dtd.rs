//! The entity-table grammar: entity declarations, comments (with an optional
//! embedded localization note), and parameter-entity declaration/reference
//! pairs, which are recognized and discarded.

use crate::error::{Expected, GParseError, ParseError};
use crate::lexer::{lemma_loc_note_bounds, loc_note_at, localization_note};
use crate::nodes::{Comment, GComment, GMessage, GNode, Message, Node};
use crate::text::{
    alnum_end, byte_offset, byte_pos, find_at, find_from, key_end, lemma_alnum_end_bounds,
    lemma_byte_pos_total, lemma_find_from_props, lemma_key_end_bounds, lemma_ws_end_bounds,
    match_at, range_string, seq_trim_end, skip_alnum, skip_key, skip_ws, starts_with_at,
    str_chars, trim_end_range, ws_end,
};
use vstd::prelude::*;

verus! {

// ---------------------------------------------------------------------------
// Quoted strings
// ---------------------------------------------------------------------------

/// Scan the body of a quoted string from `i` up to an unescaped closing
/// quote: the position after the quote and the decoded value, with `\"` and
/// `\\` resolved.  A backslash before any other character, or an input that
/// ends before the closing quote, is a failure.
pub open spec fn qs_scan(s: Seq<char>, i: int) -> Option<(int, Seq<char>)>
    decreases s.len() - i,
{
    if i < 0 || i >= s.len() {
        None
    } else if s[i] == '"' {
        Some((i + 1, Seq::empty()))
    } else if s[i] == '\\' {
        if i + 1 < s.len() && (s[i + 1] == '\\' || s[i + 1] == '"') {
            match qs_scan(s, i + 2) {
                Some((j, v)) => Some((j, seq![s[i + 1]] + v)),
                None => None,
            }
        } else {
            None
        }
    } else {
        match qs_scan(s, i + 1) {
            Some((j, v)) => Some((j, seq![s[i]] + v)),
            None => None,
        }
    }
}

/// A quoted string literal at `i`: an opening quote, a decoded body, a
/// closing quote.
pub open spec fn quoted_string_at(s: Seq<char>, i: int) -> Option<(int, Seq<char>)> {
    if 0 <= i < s.len() && s[i] == '"' {
        qs_scan(s, i + 1)
    } else {
        None
    }
}

pub proof fn lemma_qs_scan_bounds(s: Seq<char>, i: int)
    requires
        0 <= i,
    ensures
        match qs_scan(s, i) {
            Some((j, v)) => i < j <= s.len(),
            None => true,
        },
    decreases s.len() - i,
{
    if 0 <= i < s.len() && s[i] != '"' {
        if s[i] == '\\' {
            if i + 1 < s.len() && (s[i + 1] == '\\' || s[i + 1] == '"') {
                lemma_qs_scan_bounds(s, i + 2);
            }
        } else {
            lemma_qs_scan_bounds(s, i + 1);
        }
    }
}

pub proof fn lemma_quoted_string_bounds(s: Seq<char>, i: int)
    requires
        0 <= i,
    ensures
        match quoted_string_at(s, i) {
            Some((j, v)) => i < j <= s.len(),
            None => true,
        },
{
    if 0 <= i < s.len() && s[i] == '"' {
        lemma_qs_scan_bounds(s, i + 1);
    }
}

/// The escaped form of a value: each `"` or `\` preceded by a backslash.
pub open spec fn qs_encode(v: Seq<char>) -> Seq<char>
    decreases v.len(),
{
    if v.len() == 0 {
        Seq::empty()
    } else {
        (if v[0] == '"' || v[0] == '\\' {
            seq!['\\', v[0]]
        } else {
            seq![v[0]]
        }) + qs_encode(v.drop_first())
    }
}

/// Round trip of quoted-string escaping: decoding the body of a quoted
/// string and re-encoding the value recovers exactly the raw characters
/// between the quotes.
pub proof fn lemma_quoted_round_trip(s: Seq<char>, i: int)
    requires
        0 <= i,
        qs_scan(s, i) is Some,
    ensures
        ({
            let (j, v) = qs_scan(s, i)->Some_0;
            qs_encode(v) == s.subrange(i, j - 1)
        }),
    decreases s.len() - i,
{
    let (j, v) = qs_scan(s, i)->Some_0;
    if s[i] == '"' {
        assert(qs_encode(v) =~= s.subrange(i, i));
    } else if s[i] == '\\' {
        let (j2, v2) = qs_scan(s, i + 2)->Some_0;
        lemma_qs_scan_bounds(s, i + 2);
        lemma_quoted_round_trip(s, i + 2);
        assert(v.drop_first() =~= v2);
        assert(qs_encode(v) =~= seq!['\\', s[i + 1]] + qs_encode(v2));
        assert(qs_encode(v) =~= s.subrange(i, j - 1));
    } else {
        let (j2, v2) = qs_scan(s, i + 1)->Some_0;
        lemma_qs_scan_bounds(s, i + 1);
        lemma_quoted_round_trip(s, i + 1);
        assert(v.drop_first() =~= v2);
        assert(qs_encode(v) =~= seq![s[i]] + qs_encode(v2));
        assert(qs_encode(v) =~= s.subrange(i, j - 1));
    }
}

/// Recognize a quoted string at `i`; on success the position after the
/// closing quote and the decoded value.
pub fn quoted_string(s: &Vec<char>, i: usize) -> (r: Option<(usize, Vec<char>)>)
    requires
        i <= s@.len(),
    ensures
        match r {
            Some((j, v)) => quoted_string_at(s@, i as int) == Some((j as int, v@)) && i < j
                <= s@.len(),
            None => quoted_string_at(s@, i as int) is None,
        },
{
    proof {
        lemma_quoted_string_bounds(s@, i as int);
    }
    if i >= s.len() || s[i] != '"' {
        return None;
    }
    let mut p: usize = i + 1;
    let mut out: Vec<char> = Vec::new();
    loop
        invariant
            i + 1 <= p <= s@.len(),
            i < s@.len() && s@[i as int] == '"',
            qs_scan(s@, p as int) is Some ==> {
                let (j, v) = qs_scan(s@, p as int)->Some_0;
                qs_scan(s@, i + 1) == Some((j, out@ + v))
            },
            qs_scan(s@, p as int) is None ==> qs_scan(s@, i + 1) is None,
        decreases s@.len() - p,
    {
        if p >= s.len() {
            return None;
        }
        let c = s[p];
        if c == '"' {
            proof {
                assert(qs_scan(s@, p as int) == Some((p + 1 as int, Seq::<char>::empty())));
                assert(out@ + Seq::<char>::empty() =~= out@);
                assert(qs_scan(s@, i + 1) == Some((p + 1 as int, out@)));
                assert(s@[i as int] == '"');
                assert(quoted_string_at(s@, i as int) == Some((p + 1 as int, out@)));
            }
            return Some((p + 1, out));
        }
        if c == '\\' {
            if p + 1 < s.len() && (s[p + 1] == '\\' || s[p + 1] == '"') {
                proof {
                    if qs_scan(s@, p + 2) is Some {
                        let (j, v) = qs_scan(s@, p + 2)->Some_0;
                        assert(out@ + (seq![s@[p + 1]] + v) =~= (out@ + seq![s@[p + 1]]) + v);
                    }
                }
                out.push(s[p + 1]);
                p = p + 2;
            } else {
                return None;
            }
        } else {
            proof {
                if qs_scan(s@, p + 1) is Some {
                    let (j, v) = qs_scan(s@, p + 1)->Some_0;
                    assert(out@ + (seq![s@[p as int]] + v) =~= (out@ + seq![s@[p as int]]) + v);
                }
            }
            out.push(c);
            p = p + 1;
        }
    }
}

/// Escape a value into the quoted-string body form: each `"` or `\\` gets a
/// preceding backslash.
pub fn encode_quoted(v: &Vec<char>) -> (r: Vec<char>)
    ensures
        r@ == qs_encode(v@),
{
    let mut r: Vec<char> = Vec::new();
    let mut k: usize = 0;
    proof {
        assert(v@.skip(0) =~= v@);
        assert(r@ + qs_encode(v@) =~= qs_encode(v@));
    }
    while k < v.len()
        invariant
            k <= v@.len(),
            r@ + qs_encode(v@.skip(k as int)) == qs_encode(v@),
        decreases v@.len() - k,
    {
        let c = v[k];
        proof {
            assert(v@.skip(k as int)[0] == v@[k as int]);
            assert(v@.skip(k as int).drop_first() =~= v@.skip(k + 1));
        }
        let ghost r0 = r@;
        if c == '"' || c == '\\' {
            r.push('\\');
            r.push(c);
            proof {
                assert(r@ =~= r0 + seq!['\\', c]);
            }
        } else {
            r.push(c);
            proof {
                assert(r@ =~= r0 + seq![c]);
            }
        }
        proof {
            assert(r@ + qs_encode(v@.skip(k + 1)) =~= r0 + qs_encode(v@.skip(k as int)));
        }
        k = k + 1;
    }
    proof {
        assert(v@.skip(v@.len() as int) =~= Seq::<char>::empty());
        assert(r@ + qs_encode(Seq::<char>::empty()) =~= r@);
    }
    r
}

// ---------------------------------------------------------------------------
// Comments
// ---------------------------------------------------------------------------

/// A comment at `i`: the opening marker, optional whitespace, an optional
/// localization note, optional whitespace, then free text up to the closing
/// marker.  The free text is kept with its trailing whitespace trimmed.
pub open spec fn comment_tag_at(s: Seq<char>, i: int) -> Option<(int, GComment)> {
    let open = "<!--"@;
    let close = "-->"@;
    if starts_with_at(s, i, open) {
        let a = ws_end(s, i + open.len());
        let b = match loc_note_at(s, a) {
            Some((p, _)) => p,
            None => a,
        };
        let c = ws_end(s, b);
        match find_from(s, c, close) {
            Some(d) => Some(
                (
                    d + close.len(),
                    GComment {
                        key: match loc_note_at(s, a) {
                            Some((_, k)) => Some(k),
                            None => None,
                        },
                        value: seq_trim_end(s.subrange(c, d)),
                    },
                ),
            ),
            None => None,
        }
    } else {
        None
    }
}

pub proof fn lemma_comment_tag_bounds(s: Seq<char>, i: int)
    requires
        0 <= i <= s.len(),
    ensures
        match comment_tag_at(s, i) {
            Some((j, _)) => i < j <= s.len(),
            None => true,
        },
{
    let open = "<!--"@;
    let close = "-->"@;
    if starts_with_at(s, i, open) {
        reveal_strlit("<!--");
        reveal_strlit("-->");
        lemma_ws_end_bounds(s, i + open.len() as int);
        let a = ws_end(s, i + open.len());
        lemma_loc_note_bounds(s, a);
        let b = match loc_note_at(s, a) {
            Some((p, _)) => p,
            None => a,
        };
        lemma_ws_end_bounds(s, b);
        let c = ws_end(s, b);
        lemma_find_from_props(s, c, close);
    }
}

/// Recognize a comment at `i`; on success the position after the closing
/// marker and the comment node.
pub fn comment_tag(s: &Vec<char>, i: usize) -> (r: Option<(usize, Comment)>)
    requires
        i <= s@.len(),
    ensures
        match r {
            Some((j, c)) => comment_tag_at(s@, i as int) == Some((j as int, c@)) && i < j
                <= s@.len(),
            None => comment_tag_at(s@, i as int) is None,
        },
{
    proof {
        lemma_comment_tag_bounds(s@, i as int);
    }
    let open = str_chars("<!--");
    let close = str_chars("-->");
    if !match_at(s, i, &open) {
        return None;
    }
    let n: usize = s.len();
    proof {
        assert(i + open@.len() <= n);
    }
    let a = skip_ws(s, i + open.len());
    let (b, key) = match localization_note(s, a) {
        Some((p, k)) => (p, Some(k)),
        None => (a, None),
    };
    let c = skip_ws(s, b);
    match find_at(s, c, &close) {
        Some(d) => {
            proof {
                lemma_find_from_props(s@, c as int, close@);
            }
            let e = trim_end_range(s, c, d);
            let value = range_string(s, c, e);
            Some((d + close.len(), Comment { key, value }))
        },
        None => None,
    }
}

// ---------------------------------------------------------------------------
// Entity declarations
// ---------------------------------------------------------------------------

/// An entity declaration as the entity-table grammar parses it, before it is
/// turned into a shared node.
#[derive(Debug, PartialEq, Clone)]
pub struct Entity {
    pub key: String,
    pub value: String,
}

impl View for Entity {
    type V = GMessage;

    open spec fn view(&self) -> GMessage {
        GMessage { key: self.key@, value: self.value@ }
    }
}

impl From<Entity> for Node {
    fn from(other: Entity) -> (r: Self) {
        Node::Message(Message { key: other.key, value: other.value })
    }
}

impl vstd::std_specs::convert::FromSpecImpl<Entity> for Node {
    open spec fn obeys_from_spec() -> bool {
        true
    }

    open spec fn from_spec(other: Entity) -> Node {
        Node::Message(Message { key: other.key, value: other.value })
    }
}

/// The attribute part of an entity declaration: a key token, whitespace, a
/// quoted value, and the closing `>`.
pub open spec fn entity_attributes_at(s: Seq<char>, i: int) -> Option<(int, GMessage)> {
    let k = key_end(s, i);
    let w = ws_end(s, k);
    match quoted_string_at(s, w) {
        Some((q, v)) => if q < s.len() && s[q] == '>' {
            Some((q + 1, GMessage { key: s.subrange(i, k), value: v }))
        } else {
            None
        },
        None => None,
    }
}

pub proof fn lemma_entity_attributes_bounds(s: Seq<char>, i: int)
    requires
        0 <= i <= s.len(),
    ensures
        match entity_attributes_at(s, i) {
            Some((j, _)) => i < j <= s.len(),
            None => true,
        },
{
    lemma_key_end_bounds(s, i);
    let k = key_end(s, i);
    lemma_ws_end_bounds(s, k);
    let w = ws_end(s, k);
    lemma_quoted_string_bounds(s, w);
}

/// Recognize the attribute part of an entity declaration at `i`.
pub fn entity_attributes(s: &Vec<char>, i: usize) -> (r: Option<(usize, Entity)>)
    requires
        i <= s@.len(),
    ensures
        match r {
            Some((j, e)) => entity_attributes_at(s@, i as int) == Some((j as int, e@)) && i < j
                <= s@.len(),
            None => entity_attributes_at(s@, i as int) is None,
        },
{
    proof {
        lemma_entity_attributes_bounds(s@, i as int);
    }
    let k = skip_key(s, i);
    let w = skip_ws(s, k);
    match quoted_string(s, w) {
        Some((q, v)) => {
            if q < s.len() && s[q] == '>' {
                let key = range_string(s, i, k);
                let value = crate::text::chars_string(&v);
                Some((q + 1, Entity { key, value }))
            } else {
                None
            }
        },
        None => None,
    }
}

/// A parameter-entity declaration body at `i` — `% name SYSTEM "uri" >`
/// followed by its `%name;` reference — to be discarded: only the position
/// after the reference comes back.
pub open spec fn entity_percent_at(s: Seq<char>, i: int) -> Option<int> {
    if 0 <= i < s.len() && s[i] == '%' {
        let a = ws_end(s, i + 1);
        let b = alnum_end(s, a);
        let c = ws_end(s, b);
        let d = alnum_end(s, c);
        let e = ws_end(s, d);
        match quoted_string_at(s, e) {
            Some((f, _)) => {
                let g = ws_end(s, f);
                if g < s.len() && s[g] == '>' {
                    let h = ws_end(s, g + 1);
                    if h < s.len() && s[h] == '%' {
                        let m = alnum_end(s, h + 1);
                        if m < s.len() && s[m] == ';' {
                            Some(m + 1)
                        } else {
                            None
                        }
                    } else {
                        None
                    }
                } else {
                    None
                }
            },
            None => None,
        }
    } else {
        None
    }
}

pub proof fn lemma_entity_percent_bounds(s: Seq<char>, i: int)
    requires
        0 <= i <= s.len(),
    ensures
        match entity_percent_at(s, i) {
            Some(j) => i < j <= s.len(),
            None => true,
        },
{
    if 0 <= i < s.len() && s[i] == '%' {
        lemma_ws_end_bounds(s, i + 1);
        let a = ws_end(s, i + 1);
        lemma_alnum_end_bounds(s, a);
        let b = alnum_end(s, a);
        lemma_ws_end_bounds(s, b);
        let c = ws_end(s, b);
        lemma_alnum_end_bounds(s, c);
        let d = alnum_end(s, c);
        lemma_ws_end_bounds(s, d);
        let e = ws_end(s, d);
        lemma_quoted_string_bounds(s, e);
        match quoted_string_at(s, e) {
            Some((f, _)) => {
                lemma_ws_end_bounds(s, f);
                let g = ws_end(s, f);
                if g < s.len() && s[g] == '>' {
                    lemma_ws_end_bounds(s, g + 1);
                    let h = ws_end(s, g + 1);
                    if h < s.len() && s[h] == '%' {
                        lemma_alnum_end_bounds(s, h + 1);
                    }
                }
            },
            None => {},
        }
    }
}

/// Recognize a parameter-entity declaration/reference pair at `i`.
pub fn entity_percent_attribute(s: &Vec<char>, i: usize) -> (r: Option<usize>)
    requires
        i <= s@.len(),
    ensures
        match r {
            Some(j) => entity_percent_at(s@, i as int) == Some(j as int) && i < j <= s@.len(),
            None => entity_percent_at(s@, i as int) is None,
        },
{
    proof {
        lemma_entity_percent_bounds(s@, i as int);
    }
    if !(i < s.len() && s[i] == '%') {
        return None;
    }
    let a = skip_ws(s, i + 1);
    let b = skip_alnum(s, a);
    let c = skip_ws(s, b);
    let d = skip_alnum(s, c);
    let e = skip_ws(s, d);
    match quoted_string(s, e) {
        Some((f, _uri)) => {
            let g = skip_ws(s, f);
            if g < s.len() && s[g] == '>' {
                let h = skip_ws(s, g + 1);
                if h < s.len() && s[h] == '%' {
                    let m = skip_alnum(s, h + 1);
                    if m < s.len() && s[m] == ';' {
                        Some(m + 1)
                    } else {
                        None
                    }
                } else {
                    None
                }
            } else {
                None
            }
        },
        None => None,
    }
}

/// An entity tag at `i`: the `<!ENTITY` marker, whitespace, then either a
/// declaration (a node) or a parameter-entity pair (no node).
pub open spec fn entity_tag_at(s: Seq<char>, i: int) -> Option<(int, Option<GMessage>)> {
    let open = "<!ENTITY"@;
    if starts_with_at(s, i, open) {
        let w = ws_end(s, i + open.len());
        match entity_attributes_at(s, w) {
            Some((j, m)) => Some((j, Some(m))),
            None => match entity_percent_at(s, w) {
                Some(j) => Some((j, None)),
                None => None,
            },
        }
    } else {
        None
    }
}

pub proof fn lemma_entity_tag_bounds(s: Seq<char>, i: int)
    requires
        0 <= i <= s.len(),
    ensures
        match entity_tag_at(s, i) {
            Some((j, _)) => i < j <= s.len(),
            None => true,
        },
{
    let open = "<!ENTITY"@;
    if starts_with_at(s, i, open) {
        reveal_strlit("<!ENTITY");
        lemma_ws_end_bounds(s, i + open.len() as int);
        let w = ws_end(s, i + open.len());
        lemma_entity_attributes_bounds(s, w);
        lemma_entity_percent_bounds(s, w);
    }
}

/// Recognize an entity tag at `i`; a parameter-entity pair comes back as
/// `Some((j, None))`: consumed, but yielding no node.
pub fn entity_tag(s: &Vec<char>, i: usize) -> (r: Option<(usize, Option<Entity>)>)
    requires
        i <= s@.len(),
    ensures
        match r {
            Some((j, Some(e))) => entity_tag_at(s@, i as int) == Some((j as int, Some(e@)))
                && i < j <= s@.len(),
            Some((j, None)) => entity_tag_at(s@, i as int) == Some((j as int, None::<GMessage>))
                && i < j <= s@.len(),
            None => entity_tag_at(s@, i as int) is None,
        },
{
    proof {
        lemma_entity_tag_bounds(s@, i as int);
    }
    let open = str_chars("<!ENTITY");
    if !match_at(s, i, &open) {
        return None;
    }
    let n: usize = s.len();
    proof {
        assert(i + open@.len() <= n);
    }
    let w = skip_ws(s, i + open.len());
    match entity_attributes(s, w) {
        Some((j, e)) => Some((j, Some(e))),
        None => match entity_percent_attribute(s, w) {
            Some(j) => Some((j, None)),
            None => None,
        },
    }
}

// ---------------------------------------------------------------------------
// The document grammar
// ---------------------------------------------------------------------------

/// The node sequence of the entity-table document from position `i` on:
/// whitespace, then comments and entity tags, repeated; an empty or
/// whitespace-only remainder is success.  Where neither construct matches,
/// the error carries the byte offset of the unmatched input.
pub open spec fn dtd_nodes_at(s: Seq<char>, i: int) -> Result<Seq<GNode>, GParseError>
    decreases s.len() - i,
        when 0 <= i <= s.len()
        via dtd_nodes_at_decreases
{
    let w = ws_end(s, i);
    if w >= s.len() {
        Ok(Seq::empty())
    } else {
        match comment_tag_at(s, w) {
            Some((j, c)) => match dtd_nodes_at(s, j) {
                Ok(rest) => Ok(seq![GNode::Comment(c)] + rest),
                Err(e) => Err(e),
            },
            None => match entity_tag_at(s, w) {
                Some((j, Some(m))) => match dtd_nodes_at(s, j) {
                    Ok(rest) => Ok(seq![GNode::Message(m)] + rest),
                    Err(e) => Err(e),
                },
                Some((j, None)) => dtd_nodes_at(s, j),
                None => Err(
                    GParseError { offset: byte_pos(s, w), expected: Expected::CommentOrEntity },
                ),
            },
        }
    }
}

#[via_fn]
proof fn dtd_nodes_at_decreases(s: Seq<char>, i: int) {
    lemma_ws_end_bounds(s, i);
    let w = ws_end(s, i);
    lemma_comment_tag_bounds(s, w);
    lemma_entity_tag_bounds(s, w);
}

/// The parse of a whole entity-table document.
pub open spec fn dtd_doc(s: Seq<char>) -> Result<Seq<GNode>, GParseError> {
    dtd_nodes_at(s, 0)
}

/// Parse an entity-table document into its node sequence.
pub fn dtd(input: &str) -> (r: Result<Vec<Node>, ParseError>)
    ensures
        match r {
            Ok(ns) => dtd_doc(input@) == Ok::<_, GParseError>(crate::nodes::nodes_view(ns@)),
            Err(e) => dtd_doc(input@) == Err::<Seq<GNode>, _>(e@),
        },
{
    let s = str_chars(input);
    let total_bytes: usize = input.as_bytes().len();
    proof {
        lemma_byte_pos_total(s@);
        assert(byte_pos(s@, s@.len() as int) <= usize::MAX);
    }
    let mut nodes: Vec<Node> = Vec::new();
    let mut i: usize = 0;
    loop
        invariant
            i <= s@.len(),
            s@ == input@,
            byte_pos(s@, s@.len() as int) <= usize::MAX,
            dtd_nodes_at(s@, i as int) is Ok ==> dtd_doc(input@) == Ok::<_, GParseError>(
                crate::nodes::nodes_view(nodes@) + dtd_nodes_at(s@, i as int)->Ok_0,
            ),
            dtd_nodes_at(s@, i as int) is Err ==> dtd_doc(input@) == dtd_nodes_at(s@, i as int),
        decreases s@.len() - i,
    {
        let w = skip_ws(&s, i);
        if w >= s.len() {
            proof {
                assert(crate::nodes::nodes_view(nodes@) + Seq::<GNode>::empty() =~= crate::nodes::nodes_view(nodes@));
            }
            return Ok(nodes);
        }
        match comment_tag(&s, w) {
            Some((j, c)) => {
                proof {
                    lemma_push_node_view(nodes@, Node::Comment(c));
                }
                let ghost old_nodes = nodes@;
                nodes.push(Node::Comment(c));
                proof {
                    if dtd_nodes_at(s@, j as int) is Ok {
                        assert(crate::nodes::nodes_view(old_nodes) + (seq![
                            GNode::Comment(c@),
                        ] + dtd_nodes_at(s@, j as int)->Ok_0) =~= crate::nodes::nodes_view(
                            nodes@,
                        ) + dtd_nodes_at(s@, j as int)->Ok_0);
                    }
                }
                i = j;
            },
            None => {
                match entity_tag(&s, w) {
                    Some((j, Some(e))) => {
                        let node = Node::from(e);
                        proof {
                            lemma_push_node_view(nodes@, node);
                        }
                        let ghost old_nodes = nodes@;
                        nodes.push(node);
                        proof {
                            if dtd_nodes_at(s@, j as int) is Ok {
                                assert(crate::nodes::nodes_view(old_nodes) + (seq![
                                    node@,
                                ] + dtd_nodes_at(s@, j as int)->Ok_0) =~= crate::nodes::nodes_view(
                                    nodes@,
                                ) + dtd_nodes_at(s@, j as int)->Ok_0);
                            }
                        }
                        i = j;
                    },
                    Some((j, None)) => {
                        i = j;
                    },
                    None => {
                        proof {
                            crate::text::lemma_byte_pos_mono(s@, w as int, s@.len() as int);
                        }
                        let off = byte_offset(&s, w);
                        return Err(
                            ParseError { offset: off, expected: Expected::CommentOrEntity },
                        );
                    },
                }
            },
        }
    }
}

proof fn lemma_push_node_view(ns: Seq<Node>, n: Node)
    ensures
        crate::nodes::nodes_view(ns.push(n)) =~= crate::nodes::nodes_view(ns) + seq![n@],
{
}



// ---------------------------------------------------------------------------
// Law of discarded parameter entities
// ---------------------------------------------------------------------------

/// A parameter-entity declaration/reference pair never produces a node (and
/// so never appears in output): where the grammar consumes one, the parse
/// result is exactly the parse result of the input resuming after it.
pub proof fn lemma_param_entity_no_node(s: Seq<char>, i: int)
    requires
        0 <= i <= s.len(),
        ws_end(s, i) < s.len(),
        comment_tag_at(s, ws_end(s, i)) is None,
        entity_tag_at(s, ws_end(s, i)) is Some,
        entity_tag_at(s, ws_end(s, i))->Some_0.1 is None,
    ensures
        dtd_nodes_at(s, i) == dtd_nodes_at(s, entity_tag_at(s, ws_end(s, i))->Some_0.0),
{
    lemma_ws_end_bounds(s, i);
    lemma_entity_tag_bounds(s, ws_end(s, i));
}

} // verus!
