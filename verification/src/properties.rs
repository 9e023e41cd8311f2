//! The line-table grammar: `key = value` message lines and contiguous blocks
//! of `#` comment lines, joined into one comment node.

use crate::error::{Expected, GParseError, ParseError};
use crate::lexer::{lemma_loc_note_bounds, loc_note_at, localization_note, rest_of_line};
use crate::nodes::{opt_key_view, Comment, GComment, GMessage, GNode, Message, Node};
use crate::text::{
    byte_offset, byte_pos, key_end, lemma_byte_pos_total, lemma_key_end_bounds,
    lemma_line_end_bounds, lemma_line_ws_end_bounds, lemma_ws_end_bounds, line_end, line_ws_end,
    range_string, seq_trim, skip_key, skip_line_ws, skip_ws, str_chars, trim_range, ws_end,
};
use vstd::prelude::*;
use vstd::string::StringExecFns;

verus! {

// ---------------------------------------------------------------------------
// Message lines
// ---------------------------------------------------------------------------

/// A message line at `i`: optional line whitespace, a key token, optional
/// line whitespace, `=`, then the rest of the physical line as the value,
/// trimmed of surrounding whitespace.  The terminating newline is consumed.
pub open spec fn message_at(s: Seq<char>, i: int) -> Option<(int, GMessage)> {
    let a = line_ws_end(s, i);
    let k = key_end(s, a);
    let b = line_ws_end(s, k);
    if b < s.len() && s[b] == '=' {
        let j = line_end(s, b + 1);
        let nxt: int = if j < s.len() {
            j + 1
        } else {
            j
        };
        Some((nxt, GMessage { key: s.subrange(a, k), value: seq_trim(s.subrange(b + 1, j)) }))
    } else {
        None
    }
}

pub proof fn lemma_message_bounds(s: Seq<char>, i: int)
    requires
        0 <= i <= s.len(),
    ensures
        match message_at(s, i) {
            Some((j, _)) => i < j <= s.len(),
            None => true,
        },
{
    lemma_line_ws_end_bounds(s, i);
    let a = line_ws_end(s, i);
    lemma_key_end_bounds(s, a);
    let k = key_end(s, a);
    lemma_line_ws_end_bounds(s, k);
    let b = line_ws_end(s, k);
    if b < s.len() && s[b] == '=' {
        lemma_line_end_bounds(s, b + 1);
    }
}

/// Recognize a message line at `i`.
pub fn message(s: &Vec<char>, i: usize) -> (r: Option<(usize, Message)>)
    requires
        i <= s@.len(),
    ensures
        match r {
            Some((j, m)) => message_at(s@, i as int) == Some((j as int, m@)) && i < j <= s@.len(),
            None => message_at(s@, i as int) is None,
        },
{
    proof {
        lemma_message_bounds(s@, i as int);
    }
    let a = skip_line_ws(s, i);
    let k = skip_key(s, a);
    let b = skip_line_ws(s, k);
    if b < s.len() && s[b] == '=' {
        let (nxt, j) = rest_of_line(s, b + 1);
        let key = range_string(s, a, k);
        let (v0, v1) = trim_range(s, b + 1, j);
        let value = range_string(s, v0, v1);
        Some((nxt, Message { key, value }))
    } else {
        None
    }
}

// ---------------------------------------------------------------------------
// Comment blocks
// ---------------------------------------------------------------------------

/// One line of a comment block at `i`: optional line whitespace, `#`,
/// optional line whitespace, an optional localization note, then the rest of
/// the line.  Yields the position after the line, the note's key if one was
/// present, and the line's remaining text trimmed of surrounding whitespace.
pub open spec fn comment_line_at(s: Seq<char>, i: int) -> Option<(int, Option<Seq<char>>, Seq<char>)> {
    let a = line_ws_end(s, i);
    if a < s.len() && s[a] == '#' {
        let b = line_ws_end(s, a + 1);
        let c = match loc_note_at(s, b) {
            Some((p, _)) => p,
            None => b,
        };
        let j = line_end(s, c);
        let nxt: int = if j < s.len() {
            j + 1
        } else {
            j
        };
        Some(
            (
                nxt,
                match loc_note_at(s, b) {
                    Some((_, k)) => Some(k),
                    None => None,
                },
                seq_trim(s.subrange(c, j)),
            ),
        )
    } else {
        None
    }
}

pub proof fn lemma_comment_line_bounds(s: Seq<char>, i: int)
    requires
        0 <= i <= s.len(),
    ensures
        match comment_line_at(s, i) {
            Some((j, _, _)) => i < j <= s.len(),
            None => true,
        },
{
    lemma_line_ws_end_bounds(s, i);
    let a = line_ws_end(s, i);
    if a < s.len() && s[a] == '#' {
        lemma_line_ws_end_bounds(s, a + 1);
        let b = line_ws_end(s, a + 1);
        lemma_loc_note_bounds(s, b);
        let c = match loc_note_at(s, b) {
            Some((p, _)) => p,
            None => b,
        };
        lemma_line_end_bounds(s, c);
    }
}

/// Recognize one line of a comment block at `i`.
pub fn comment_line(s: &Vec<char>, i: usize) -> (r: Option<(usize, Option<String>, String)>)
    requires
        i <= s@.len(),
    ensures
        match r {
            Some((j, k, f)) => comment_line_at(s@, i as int) == Some(
                ((j as int), opt_key_view(k), f@),
            ) && i < j <= s@.len(),
            None => comment_line_at(s@, i as int) is None,
        },
{
    proof {
        lemma_comment_line_bounds(s@, i as int);
    }
    let a = skip_line_ws(s, i);
    if !(a < s.len() && s[a] == '#') {
        return None;
    }
    let b = skip_line_ws(s, a + 1);
    let (c, key) = match localization_note(s, b) {
        Some((p, k)) => (p, Some(k)),
        None => (b, None),
    };
    let (nxt, j) = rest_of_line(s, c);
    let (f0, f1) = trim_range(s, c, j);
    let frag = range_string(s, f0, f1);
    Some((nxt, key, frag))
}

/// How one comment line extends the comment built so far: a note's key (if
/// any) replaces the block's key, and the line's text is joined to the value
/// with a single separating space when the value is non-empty.
pub open spec fn comment_fold(acc: GComment, key: Option<Seq<char>>, frag: Seq<char>) -> GComment {
    GComment {
        key: match key {
            Some(k) => Some(k),
            None => acc.key,
        },
        value: (if acc.value.len() > 0 {
            acc.value + seq![' ']
        } else {
            acc.value
        }) + frag,
    }
}

/// Fold consecutive comment lines from `i` onto `acc`, stopping at the first
/// line that is not a comment line.
pub open spec fn comment_lines_at(s: Seq<char>, i: int, acc: GComment) -> (int, GComment)
    decreases s.len() - i,
        when 0 <= i <= s.len()
        via comment_lines_at_decreases
{
    match comment_line_at(s, i) {
        Some((j, k, frag)) => comment_lines_at(s, j, comment_fold(acc, k, frag)),
        None => (i, acc),
    }
}

#[via_fn]
proof fn comment_lines_at_decreases(s: Seq<char>, i: int, acc: GComment) {
    lemma_comment_line_bounds(s, i);
}

pub proof fn lemma_comment_lines_bounds(s: Seq<char>, i: int, acc: GComment)
    requires
        0 <= i <= s.len(),
    ensures
        i <= comment_lines_at(s, i, acc).0 <= s.len(),
    decreases s.len() - i,
{
    lemma_comment_line_bounds(s, i);
    match comment_line_at(s, i) {
        Some((j, k, frag)) => {
            lemma_comment_lines_bounds(s, j, comment_fold(acc, k, frag));
        },
        None => {},
    }
}

/// The empty comment a block starts from.
pub open spec fn empty_comment() -> GComment {
    GComment { key: None, value: Seq::empty() }
}

/// A comment block at `i`: one or more consecutive comment lines, folded
/// into a single comment node.
pub open spec fn comment_at(s: Seq<char>, i: int) -> Option<(int, GComment)> {
    if comment_line_at(s, i) is Some {
        Some(comment_lines_at(s, i, empty_comment()))
    } else {
        None
    }
}

pub proof fn lemma_comment_bounds(s: Seq<char>, i: int)
    requires
        0 <= i <= s.len(),
    ensures
        match comment_at(s, i) {
            Some((j, _)) => i < j <= s.len(),
            None => true,
        },
{
    lemma_comment_line_bounds(s, i);
    match comment_line_at(s, i) {
        Some((j, k, frag)) => {
            lemma_comment_lines_bounds(s, j, comment_fold(empty_comment(), k, frag));
        },
        None => {},
    }
}

/// Recognize a comment block at `i`.
pub fn comment(s: &Vec<char>, i: usize) -> (r: Option<(usize, Comment)>)
    requires
        i <= s@.len(),
    ensures
        match r {
            Some((j, c)) => comment_at(s@, i as int) == Some((j as int, c@)) && i < j <= s@.len(),
            None => comment_at(s@, i as int) is None,
        },
{
    proof {
        lemma_comment_bounds(s@, i as int);
    }
    let mut acc = Comment { key: None, value: String::new() };
    let mut p: usize;
    match comment_line(s, i) {
        None => {
            return None;
        },
        Some((j, k, f)) => {
            proof {
                reveal_strlit(" ");
            }
            if let Some(key) = k {
                acc.key = Some(key);
            }
            acc.value.append(f.as_str());
            proof {
                assert(Seq::<char>::empty() + f@ =~= f@);
            }
            p = j;
        },
    }
    loop
        invariant
            i < p <= s@.len(),
            comment_lines_at(s@, i as int, empty_comment()) == comment_lines_at(
                s@,
                p as int,
                acc@,
            ),
        decreases s@.len() - p,
    {
        match comment_line(s, p) {
            None => {
                return Some((p, acc));
            },
            Some((j, k, f)) => {
                proof {
                    reveal_strlit(" ");
                }
                let ghost old_acc = acc@;
                if let Some(key) = k {
                    acc.key = Some(key);
                }
                if !acc.value.as_str().is_empty() {
                    acc.value.append(" ");
                }
                acc.value.append(f.as_str());
                proof {
                    assert(" "@ =~= seq![' ']);
                    assert(acc@ == comment_fold(old_acc, opt_key_view(k), f@));
                }
                p = j;
            },
        }
    }
}

// ---------------------------------------------------------------------------
// The document grammar
// ---------------------------------------------------------------------------

/// The node sequence of the line-table document from position `i` on:
/// whitespace, then comment blocks and message lines, repeated, comment
/// blocks first; an empty or whitespace-only remainder is success.  Where
/// neither construct matches, the error carries the byte offset of the
/// unmatched input.
pub open spec fn properties_nodes_at(s: Seq<char>, i: int) -> Result<Seq<GNode>, GParseError>
    decreases s.len() - i,
        when 0 <= i <= s.len()
        via properties_nodes_at_decreases
{
    let w = ws_end(s, i);
    if w >= s.len() {
        Ok(Seq::empty())
    } else {
        match comment_at(s, w) {
            Some((j, c)) => match properties_nodes_at(s, j) {
                Ok(rest) => Ok(seq![GNode::Comment(c)] + rest),
                Err(e) => Err(e),
            },
            None => match message_at(s, w) {
                Some((j, m)) => match properties_nodes_at(s, j) {
                    Ok(rest) => Ok(seq![GNode::Message(m)] + rest),
                    Err(e) => Err(e),
                },
                None => Err(
                    GParseError { offset: byte_pos(s, w), expected: Expected::CommentOrMessage },
                ),
            },
        }
    }
}

#[via_fn]
proof fn properties_nodes_at_decreases(s: Seq<char>, i: int) {
    lemma_ws_end_bounds(s, i);
    let w = ws_end(s, i);
    lemma_comment_bounds(s, w);
    lemma_message_bounds(s, w);
}

/// The parse of a whole line-table document.
pub open spec fn properties_doc(s: Seq<char>) -> Result<Seq<GNode>, GParseError> {
    properties_nodes_at(s, 0)
}

/// Parse a line-table document into its node sequence.
pub fn properties(input: &str) -> (r: Result<Vec<Node>, ParseError>)
    ensures
        match r {
            Ok(ns) => properties_doc(input@) == Ok::<_, GParseError>(
                crate::nodes::nodes_view(ns@),
            ),
            Err(e) => properties_doc(input@) == Err::<Seq<GNode>, _>(e@),
        },
{
    let s = str_chars(input);
    let total_bytes: usize = input.as_bytes().len();
    proof {
        lemma_byte_pos_total(s@);
        assert(byte_pos(s@, s@.len() as int) <= usize::MAX);
    }
    let mut nodes: Vec<Node> = Vec::new();
    let mut i: usize = 0;
    loop
        invariant
            i <= s@.len(),
            s@ == input@,
            byte_pos(s@, s@.len() as int) <= usize::MAX,
            properties_nodes_at(s@, i as int) is Ok ==> properties_doc(input@) == Ok::<
                _,
                GParseError,
            >(crate::nodes::nodes_view(nodes@) + properties_nodes_at(s@, i as int)->Ok_0),
            properties_nodes_at(s@, i as int) is Err ==> properties_doc(input@)
                == properties_nodes_at(s@, i as int),
        decreases s@.len() - i,
    {
        let w = skip_ws(&s, i);
        if w >= s.len() {
            proof {
                assert(crate::nodes::nodes_view(nodes@) + Seq::<GNode>::empty()
                    =~= crate::nodes::nodes_view(nodes@));
            }
            return Ok(nodes);
        }
        match comment(&s, w) {
            Some((j, c)) => {
                let node = Node::Comment(c);
                proof {
                    lemma_push_node_view(nodes@, node);
                }
                let ghost old_nodes = nodes@;
                nodes.push(node);
                proof {
                    if properties_nodes_at(s@, j as int) is Ok {
                        assert(crate::nodes::nodes_view(old_nodes) + (seq![
                            node@,
                        ] + properties_nodes_at(s@, j as int)->Ok_0) =~= crate::nodes::nodes_view(
                            nodes@,
                        ) + properties_nodes_at(s@, j as int)->Ok_0);
                    }
                }
                i = j;
            },
            None => {
                match message(&s, w) {
                    Some((j, m)) => {
                        let node = Node::Message(m);
                        proof {
                            lemma_push_node_view(nodes@, node);
                        }
                        let ghost old_nodes = nodes@;
                        nodes.push(node);
                        proof {
                            if properties_nodes_at(s@, j as int) is Ok {
                                assert(crate::nodes::nodes_view(old_nodes) + (seq![
                                    node@,
                                ] + properties_nodes_at(s@, j as int)->Ok_0)
                                    =~= crate::nodes::nodes_view(nodes@) + properties_nodes_at(
                                    s@,
                                    j as int,
                                )->Ok_0);
                            }
                        }
                        i = j;
                    },
                    None => {
                        proof {
                            crate::text::lemma_byte_pos_mono(s@, w as int, s@.len() as int);
                        }
                        let off = byte_offset(&s, w);
                        return Err(
                            ParseError { offset: off, expected: Expected::CommentOrMessage },
                        );
                    },
                }
            },
        }
    }
}

proof fn lemma_push_node_view(ns: Seq<Node>, n: Node)
    ensures
        crate::nodes::nodes_view(ns.push(n)) =~= crate::nodes::nodes_view(ns) + seq![n@],
{
}

} // verus!
