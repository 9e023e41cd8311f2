//! The re-serialization engine: consumes a node sequence, associates each
//! annotated comment with the declaration carrying its key (wherever either
//! stands in the document), and emits the Fluent text.

use crate::nodes::{nodes_view, Comment, GMessage, GNode, Message, Node};
use crate::normalize::{norm_key, normalize_chars};
use crate::text::{
    chars_string, copy_range, find_at, find_from, find_line_end, line_end, lines_view, seq_trim,
    split_lines, split_lines_vec, str_chars, trim_range,
};
use vstd::prelude::*;

verus! {

// ---------------------------------------------------------------------------
// The fixed output header
// ---------------------------------------------------------------------------

/// The canonical license header, and the description placeholder, that every
/// output begins with.
pub open spec fn license_seq() -> Seq<char> {
    "# This Source Code Form is subject to the terms of the Mozilla Public\n# License, v. 2.0. If a copy of the MPL was not distributed with this\n# file, You can obtain one at http://mozilla.org/MPL/2.0/.\n\n### TODO - Write a description of what this FTL represents.\n\n"@
}

/// The header text as a string slice.
pub fn license_str() -> (r: &'static str)
    ensures
        r@ == license_seq(),
{
    "# This Source Code Form is subject to the terms of the Mozilla Public\n# License, v. 2.0. If a copy of the MPL was not distributed with this\n# file, You can obtain one at http://mozilla.org/MPL/2.0/.\n\n### TODO - Write a description of what this FTL represents.\n\n"
}

/// The fixed substring whose presence in a leading comment marks it as the
/// standard boilerplate license notice.
pub open spec fn license_marker() -> Seq<char> {
    "http://mozilla.org/MPL/2.0/"@
}

/// A comment that is the standard boilerplate license notice.
pub open spec fn is_license_comment(n: GNode) -> bool {
    n is Comment && find_from(n->Comment_0.value, 0, license_marker()) is Some
}

// ---------------------------------------------------------------------------
// The key-to-comment association
// ---------------------------------------------------------------------------

/// The index of the comment that documents key `k`: the last comment in the
/// whole document whose annotation carries `k`, wherever it stands relative
/// to the declaration.
pub open spec fn comment_for(ns: Seq<GNode>, k: Seq<char>) -> Option<int>
    decreases ns.len(),
{
    if ns.len() == 0 {
        None
    } else if ns.last() is Comment && ns.last()->Comment_0.key == Some(k) {
        Some(ns.len() - 1)
    } else {
        comment_for(ns.drop_last(), k)
    }
}

pub proof fn lemma_comment_for_props(ns: Seq<GNode>, k: Seq<char>)
    ensures
        match comment_for(ns, k) {
            Some(j) => 0 <= j < ns.len() && ns[j] is Comment && ns[j]->Comment_0.key == Some(k),
            None => forall|j: int|
                0 <= j < ns.len() ==> !(ns[j] is Comment && ns[j]->Comment_0.key == Some(k)),
        },
    decreases ns.len(),
{
    if ns.len() > 0 {
        if !(ns.last() is Comment && ns.last()->Comment_0.key == Some(k)) {
            lemma_comment_for_props(ns.drop_last(), k);
            match comment_for(ns.drop_last(), k) {
                Some(j) => {
                    assert(ns.drop_last()[j] == ns[j]);
                },
                None => {
                    assert forall|j: int|
                        0 <= j < ns.len() implies !(ns[j] is Comment && ns[j]->Comment_0.key
                        == Some(k)) by {
                        if j < ns.len() - 1 {
                            assert(ns.drop_last()[j] == ns[j]);
                        }
                    }
                },
            }
        }
    }
}

/// Find the comment documenting `key`, scanning the whole node sequence.
fn find_comment(nodes: &Vec<Node>, key: &String) -> (r: Option<usize>)
    ensures
        match r {
            Some(j) => comment_for(nodes_view(nodes@), key@) == Some(j as int) && j
                < nodes@.len(),
            None => comment_for(nodes_view(nodes@), key@) is None,
        },
{
    let ghost ns = nodes_view(nodes@);
    let mut j: usize = nodes.len();
    proof {
        assert(ns.subrange(0, j as int) =~= ns);
    }
    while j > 0
        invariant
            j <= nodes@.len(),
            ns == nodes_view(nodes@),
            comment_for(ns, key@) == comment_for(ns.subrange(0, j as int), key@),
        decreases j,
    {
        j = j - 1;
        let hit = match &nodes[j] {
            Node::Comment(c) => match &c.key {
                Some(k) => k.eq(key),
                None => false,
            },
            Node::Message(_) => false,
        };
        proof {
            let pre = ns.subrange(0, j + 1);
            assert(pre.last() == ns[j as int]);
            assert(pre.drop_last() =~= ns.subrange(0, j as int));
            assert(ns[j as int] == nodes@[j as int]@);
        }
        if hit {
            return Some(j);
        }
    }
    proof {
        assert(ns.subrange(0, 0) =~= Seq::<GNode>::empty());
    }
    None
}

// ---------------------------------------------------------------------------
// Rendering, node by node
// ---------------------------------------------------------------------------

/// A line of an attached comment, with a leading `-` bullet marker (and the
/// whitespace after it) stripped.
pub open spec fn strip_bullet(l: Seq<char>) -> Seq<char> {
    if l.len() > 0 && l[0] == '-' {
        seq_trim(l.drop_first())
    } else {
        l
    }
}

/// The `# ` lines of an attached comment, from line `i` on.
pub open spec fn attached_from(lines: Seq<Seq<char>>, i: int) -> Seq<char>
    decreases lines.len() - i,
{
    if 0 <= i < lines.len() {
        "# "@ + strip_bullet(seq_trim(lines[i])) + seq!['\n'] + attached_from(lines, i + 1)
    } else {
        Seq::empty()
    }
}

/// An attached comment: a blank line, then one `# ` line per source line.
pub open spec fn render_attached(v: Seq<char>) -> Seq<char> {
    seq!['\n'] + attached_from(split_lines(v), 0)
}

/// The indented lines of a multi-line value, from line `i` on.
pub open spec fn value_block_from(lines: Seq<Seq<char>>, i: int) -> Seq<char>
    decreases lines.len() - i,
{
    if 0 <= i < lines.len() {
        "  "@ + lines[i] + seq!['\n'] + value_block_from(lines, i + 1)
    } else {
        Seq::empty()
    }
}

pub open spec fn has_newline(v: Seq<char>) -> bool {
    line_end(v, 0) < v.len()
}

/// A declaration: the normalized key, then the value — on the same line
/// when it has no embedded newline, otherwise as an indented block of the
/// outer-trimmed value's lines.
pub open spec fn render_message(m: GMessage) -> Seq<char> {
    norm_key(m.key) + (if has_newline(m.value) {
        " ="@ + seq!['\n'] + value_block_from(split_lines(seq_trim(m.value)), 0)
    } else {
        " = "@ + m.value + seq!['\n']
    })
}

/// The `## ` lines of a section comment, from line `i` on.
pub open spec fn section_from(lines: Seq<Seq<char>>, i: int) -> Seq<char>
    decreases lines.len() - i,
{
    if 0 <= i < lines.len() {
        "## "@ + lines[i] + seq!['\n'] + section_from(lines, i + 1)
    } else {
        Seq::empty()
    }
}

/// The blank line before a section comment, unless the text already ends on
/// a blank line.
pub open spec fn section_pad(acc: Seq<char>) -> Seq<char> {
    if acc.len() >= 2 && acc[acc.len() - 2] == '\n' {
        Seq::empty()
    } else {
        seq!['\n']
    }
}

/// A section comment: one `## ` line per source line, set off by blank
/// lines.
pub open spec fn render_section(acc: Seq<char>, v: Seq<char>) -> Seq<char> {
    section_pad(acc) + section_from(split_lines(v), 0) + seq!['\n']
}

/// No earlier node declares the same key: the declaration at `i` is the one
/// the key's comment (if any) is consumed by.  Later duplicates of a key are
/// legal, but they render without the comment.
pub open spec fn is_first_message(ns: Seq<GNode>, i: int) -> bool {
    forall|j: int|
        0 <= j < i ==> !((#[trigger] ns[j]) is Message
            && ns[j]->Message_0.key == ns[i]->Message_0.key)
}

/// What the node at `i` adds to the output `acc` built so far: a declaration
/// gets its attached comment (if any comment in the document carries its key
/// and no earlier declaration consumed it) and its key/value lines; an
/// unannotated comment becomes a section header; an annotated comment is
/// never rendered directly.
pub open spec fn emit_node(acc: Seq<char>, ns: Seq<GNode>, i: int) -> Seq<char> {
    match ns[i] {
        GNode::Message(m) => (if is_first_message(ns, i) {
            match comment_for(ns, m.key) {
                Some(j) => render_attached(ns[j]->Comment_0.value),
                None => Seq::empty(),
            }
        } else {
            Seq::empty()
        }) + render_message(m),
        GNode::Comment(c) => if c.key is Some {
            Seq::empty()
        } else {
            render_section(acc, c.value)
        },
    }
}

/// The output after emitting the nodes from `i` on onto `acc`.
pub open spec fn emit_from(ns: Seq<GNode>, i: int, acc: Seq<char>) -> Seq<char>
    decreases ns.len() - i,
{
    if 0 <= i < ns.len() {
        emit_from(ns, i + 1, acc + emit_node(acc, ns, i))
    } else {
        acc
    }
}

/// The whole output: the canonical header, then every node in source order —
/// skipping a leading boilerplate license comment, which the header
/// replaces.
pub open spec fn fluent_output(ns: Seq<GNode>) -> Seq<char> {
    let start: int = if ns.len() > 0 && is_license_comment(ns[0]) {
        1
    } else {
        0
    };
    emit_from(ns, start, license_seq())
}

// ---------------------------------------------------------------------------
// The executable engine
// ---------------------------------------------------------------------------

fn push_str(out: &mut Vec<char>, txt: &str)
    ensures
        final(out)@ == old(out)@ + txt@,
{
    let mut cs = str_chars(txt);
    out.append(&mut cs);
}

fn push_range(out: &mut Vec<char>, s: &Vec<char>, from: usize, to: usize)
    requires
        from <= to <= s@.len(),
    ensures
        final(out)@ == old(out)@ + s@.subrange(from as int, to as int),
{
    let mut k: usize = from;
    proof {
        assert(out@ + s@.subrange(from as int, from as int) =~= out@);
    }
    while k < to
        invariant
            from <= k <= to <= s@.len(),
            out@ == old(out)@ + s@.subrange(from as int, k as int),
        decreases to - k,
    {
        out.push(s[k]);
        proof {
            assert(old(out)@ + s@.subrange(from as int, k + 1) =~= (old(out)@ + s@.subrange(
                from as int,
                k as int,
            )).push(s@[k as int]));
        }
        k = k + 1;
    }
}

/// Append the attached-comment rendering of `value`.
fn emit_attached(out: &mut Vec<char>, value: &String)
    ensures
        final(out)@ == old(out)@ + render_attached(value@),
{
    out.push('\n');
    let v = str_chars(value.as_str());
    let lines = split_lines_vec(&v);
    let ghost lv = lines_view(lines@);
    let mut k: usize = 0;
    proof {
        assert(out@ =~= old(out)@ + seq!['\n']);
    }
    while k < lines.len()
        invariant
            k <= lines@.len(),
            lv == lines_view(lines@),
            lv == split_lines(value@),
            out@ + attached_from(lv, k as int) == old(out)@ + render_attached(value@),
        decreases lines@.len() - k,
    {
        let ghost out0 = out@;
        let line = &lines[k];
        proof {
            assert(line@ == lv[k as int]);
            assert(line@.subrange(0, line@.len() as int) =~= line@);
        }
        let (a, b) = trim_range(line, 0, line.len());
        let mut c = a;
        let mut d = b;
        if a < b && line[a] == '-' {
            proof {
                let t = seq_trim(lv[k as int]);
                assert(t[0] == line@[a as int]);
                assert(t.drop_first() =~= line@.subrange(a + 1, b as int));
            }
            let (c2, d2) = trim_range(line, a + 1, b);
            c = c2;
            d = d2;
        } else {
            proof {
                let t = seq_trim(lv[k as int]);
                assert(strip_bullet(t) == t);
            }
        }
        push_str(out, "# ");
        push_range(out, line, c, d);
        out.push('\n');
        proof {
            assert(line@.subrange(c as int, d as int) == strip_bullet(seq_trim(lv[k as int])));
            assert(out@ =~= out0 + ("# "@ + strip_bullet(seq_trim(lv[k as int])) + seq!['\n']));
            assert(out@ + attached_from(lv, k + 1) =~= out0 + attached_from(lv, k as int));
        }
        k = k + 1;
    }
    proof {
        assert(attached_from(lv, lines@.len() as int) =~= Seq::<char>::empty());
        assert(out@ + Seq::<char>::empty() =~= out@);
    }
}

/// No declaration before index `i` carries the same key as the one at `i`.
fn first_message_with_key(nodes: &Vec<Node>, i: usize, key: &String) -> (r: bool)
    requires
        i < nodes@.len(),
        nodes_view(nodes@)[i as int] is Message,
        nodes_view(nodes@)[i as int]->Message_0.key == key@,
    ensures
        r == is_first_message(nodes_view(nodes@), i as int),
{
    let ghost ns = nodes_view(nodes@);
    let mut j: usize = 0;
    while j < i
        invariant
            j <= i < nodes@.len(),
            ns == nodes_view(nodes@),
            ns[i as int] is Message && ns[i as int]->Message_0.key == key@,
            forall|q: int|
                0 <= q < j ==> !((#[trigger] ns[q]) is Message
                    && ns[q]->Message_0.key == ns[i as int]->Message_0.key),
        decreases i - j,
    {
        let hit = match &nodes[j] {
            Node::Message(m2) => m2.key.eq(key),
            Node::Comment(_) => false,
        };
        proof {
            assert(ns[j as int] == nodes@[j as int]@);
        }
        if hit {
            return false;
        }
        j = j + 1;
    }
    true
}

/// Append the rendering of the declaration at index `i`, with its attached
/// comment if any comment in the document documents its key and no earlier
/// declaration consumed it.
fn emit_message(out: &mut Vec<char>, nodes: &Vec<Node>, i: usize, m: &Message)
    requires
        i < nodes@.len(),
        nodes_view(nodes@)[i as int] == GNode::Message(m@),
    ensures
        final(out)@ == old(out)@ + emit_node(old(out)@, nodes_view(nodes@), i as int),
{
    let ghost ns = nodes_view(nodes@);
    proof {
        lemma_comment_for_props(ns, m.key@);
    }
    if first_message_with_key(nodes, i, &m.key) {
        match find_comment(nodes, &m.key) {
            Some(ci) => {
                proof {
                    assert(ns[ci as int] == nodes@[ci as int]@);
                }
                match &nodes[ci] {
                    Node::Comment(c) => {
                        emit_attached(out, &c.value);
                    },
                    Node::Message(_) => {
                        proof {
                            assert(false);
                        }
                    },
                }
            },
            None => {},
        }
    }
    let ghost mid = out@;
    let key_chars = str_chars(m.key.as_str());
    let nk = normalize_chars(&key_chars);
    let ghost mid2 = out@ + nk@;
    push_range(out, &nk, 0, nk.len());
    proof {
        assert(nk@.subrange(0, nk@.len() as int) =~= nk@);
    }
    let v = str_chars(m.value.as_str());
    let nl = find_line_end(&v, 0);
    if nl < v.len() {
        push_str(out, " =");
        out.push('\n');
        proof {
            assert(v@.subrange(0, v@.len() as int) =~= v@);
        }
        let (a, b) = trim_range(&v, 0, v.len());
        let tv = copy_range(&v, a, b);
        let lines = split_lines_vec(&tv);
        let ghost lv = lines_view(lines@);
        let ghost out1 = out@;
        let mut k: usize = 0;
        while k < lines.len()
            invariant
                k <= lines@.len(),
                lv == lines_view(lines@),
                out@ + value_block_from(lv, k as int) == out1 + value_block_from(lv, 0),
            decreases lines@.len() - k,
        {
            let ghost out0 = out@;
            let line = &lines[k];
            push_str(out, "  ");
            push_range(out, line, 0, line.len());
            out.push('\n');
            proof {
                assert(line@.subrange(0, line@.len() as int) =~= line@);
                assert(out@ =~= out0 + ("  "@ + lv[k as int] + seq!['\n']));
                assert(out@ + value_block_from(lv, k + 1) =~= out0 + value_block_from(
                    lv,
                    k as int,
                ));
            }
            k = k + 1;
        }
        proof {
            assert(value_block_from(lv, lines@.len() as int) =~= Seq::<char>::empty());
            assert(out@ + Seq::<char>::empty() =~= out@);
            assert(out@ =~= mid + (norm_key(m.key@) + (" ="@ + seq!['\n'] + value_block_from(
                lv,
                0,
            ))));
        }
    } else {
        push_str(out, " = ");
        push_range(out, &v, 0, v.len());
        out.push('\n');
        proof {
            assert(v@.subrange(0, v@.len() as int) =~= v@);
            assert(out@ =~= mid + (norm_key(m.key@) + (" = "@ + m.value@ + seq!['\n'])));
        }
    }
}

/// Append the rendering of a section comment.
fn emit_section(out: &mut Vec<char>, value: &String)
    ensures
        final(out)@ == old(out)@ + render_section(old(out)@, value@),
{
    let needs_pad = if out.len() >= 2 {
        out[out.len() - 2] != '\n'
    } else {
        true
    };
    if needs_pad {
        out.push('\n');
    }
    proof {
        assert(out@ =~= old(out)@ + section_pad(old(out)@));
    }
    let v = str_chars(value.as_str());
    let lines = split_lines_vec(&v);
    let ghost lv = lines_view(lines@);
    let ghost out1 = out@;
    let mut k: usize = 0;
    while k < lines.len()
        invariant
            k <= lines@.len(),
            lv == lines_view(lines@),
            out@ + section_from(lv, k as int) == out1 + section_from(lv, 0),
        decreases lines@.len() - k,
    {
        let ghost out0 = out@;
        let line = &lines[k];
        push_str(out, "## ");
        push_range(out, line, 0, line.len());
        out.push('\n');
        proof {
            assert(line@.subrange(0, line@.len() as int) =~= line@);
            assert(out@ =~= out0 + ("## "@ + lv[k as int] + seq!['\n']));
            assert(out@ + section_from(lv, k + 1) =~= out0 + section_from(lv, k as int));
        }
        k = k + 1;
    }
    out.push('\n');
    proof {
        assert(section_from(lv, lines@.len() as int) =~= Seq::<char>::empty());
        assert(out@ =~= old(out)@ + (section_pad(old(out)@) + section_from(lv, 0) + seq!['\n']));
    }
}

/// Serialize a node sequence into the Fluent syntax.  Any sequence the
/// grammars accept serializes; there is no failure path.
pub fn dtd_to_fluent(nodes: &Vec<Node>) -> (r: String)
    ensures
        r@ == fluent_output(nodes_view(nodes@)),
{
    let ghost ns = nodes_view(nodes@);
    let mut out: Vec<char> = str_chars(license_str());
    let mut i: usize = 0;
    if nodes.len() > 0 {
        let skip = match &nodes[0] {
            Node::Comment(c) => {
                let cv = str_chars(c.value.as_str());
                let pat = str_chars("http://mozilla.org/MPL/2.0/");
                match find_at(&cv, 0, &pat) {
                    Some(_) => true,
                    None => false,
                }
            },
            Node::Message(_) => false,
        };
        proof {
            assert(ns[0] == nodes@[0]@);
            assert(skip == is_license_comment(ns[0]));
        }
        if skip {
            i = 1;
        }
    }
    proof {
        assert(emit_from(ns, i as int, out@) == fluent_output(ns));
    }
    while i < nodes.len()
        invariant
            i <= nodes@.len(),
            ns == nodes_view(nodes@),
            emit_from(ns, i as int, out@) == fluent_output(ns),
        decreases nodes@.len() - i,
    {
        let ghost acc0 = out@;
        proof {
            assert(ns[i as int] == nodes@[i as int]@);
        }
        match &nodes[i] {
            Node::Message(m) => {
                emit_message(&mut out, nodes, i, m);
            },
            Node::Comment(c) => {
                match &c.key {
                    Some(_) => {
                        proof {
                            assert(acc0 + emit_node(acc0, ns, i as int) =~= acc0);
                        }
                    },
                    None => {
                        emit_section(&mut out, &c.value);
                    },
                }
            },
        }
        proof {
            assert(out@ == acc0 + emit_node(acc0, ns, i as int));
        }
        i = i + 1;
    }
    chars_string(&out)
}


// ---------------------------------------------------------------------------
// Laws of comment association
// ---------------------------------------------------------------------------

/// What a declaration's lookup yields: the value of the comment documenting
/// `k`, if any comment in the document carries that key.
pub open spec fn attached_value(ns: Seq<GNode>, k: Seq<char>) -> Option<Seq<char>> {
    match comment_for(ns, k) {
        Some(j) => Some(ns[j]->Comment_0.value),
        None => None,
    }
}

proof fn lemma_emit_message_value(acc: Seq<char>, ns: Seq<GNode>, i: int)
    requires
        0 <= i < ns.len(),
        ns[i] is Message,
    ensures
        emit_node(acc, ns, i) == (if is_first_message(ns, i) {
            match attached_value(ns, ns[i]->Message_0.key) {
                Some(v) => render_attached(v),
                None => Seq::<char>::empty(),
            }
        } else {
            Seq::<char>::empty()
        }) + render_message(ns[i]->Message_0),
{
}

proof fn lemma_first_message_remove(ns: Seq<GNode>, i: int, p: int)
    requires
        0 <= i < ns.len(),
        ns[i] is Comment,
        0 <= p < ns.len(),
        p != i,
        ns[p] is Message,
    ensures
        is_first_message(ns, p) == is_first_message(
            ns.remove(i),
            if p < i {
                p
            } else {
                p - 1
            },
        ),
{
    let ns2 = ns.remove(i);
    ns.remove_ensures(i);
    let p2: int = if p < i {
        p
    } else {
        p - 1
    };
    assert(ns2[p2] == ns[p]);
    if is_first_message(ns, p) {
        assert forall|j: int|
            0 <= j < p2 implies !((#[trigger] ns2[j]) is Message && ns2[j]->Message_0.key
            == ns2[p2]->Message_0.key) by {
            let jo: int = if j < i {
                j
            } else {
                j + 1
            };
            assert(ns2[j] == ns[jo]);
            assert(0 <= jo < p);
        }
    }
    if is_first_message(ns2, p2) {
        assert forall|j: int|
            0 <= j < p implies !((#[trigger] ns[j]) is Message && ns[j]->Message_0.key
            == ns[p]->Message_0.key) by {
            if j != i {
                let j2: int = if j < i {
                    j
                } else {
                    j - 1
                };
                assert(ns2[j2] == ns[j]);
                assert(0 <= j2 < p2);
            }
        }
    }
}

/// Comment/declaration association is position-independent: a declaration is
/// rendered with a documenting comment whenever any comment in the document
/// carries its key, whether that comment stands before or after the
/// declaration.
pub proof fn lemma_association_position_independent(ns: Seq<GNode>, i: int, j: int)
    requires
        0 <= i < ns.len(),
        0 <= j < ns.len(),
        ns[i] is Message,
        is_first_message(ns, i),
        ns[j] is Comment,
        ns[j]->Comment_0.key == Some(ns[i]->Message_0.key),
    ensures
        comment_for(ns, ns[i]->Message_0.key) is Some,
        forall|acc: Seq<char>|
            #[trigger] emit_node(acc, ns, i) == render_attached(
                attached_value(ns, ns[i]->Message_0.key)->Some_0,
            ) + render_message(ns[i]->Message_0),
{
    let k = ns[i]->Message_0.key;
    lemma_comment_for_props(ns, k);
    if comment_for(ns, k) is None {
        assert(!(ns[j] is Comment && ns[j]->Comment_0.key == Some(k)));
    }
}

proof fn lemma_attached_value_remove(ns: Seq<GNode>, i: int, k: Seq<char>)
    requires
        0 <= i < ns.len(),
        !(ns[i] is Comment && ns[i]->Comment_0.key == Some(k)),
    ensures
        attached_value(ns.remove(i), k) == attached_value(ns, k),
    decreases ns.len(),
{
    let ns2 = ns.remove(i);
    ns.remove_ensures(i);
    if i == ns.len() - 1 {
        assert(ns2 =~= ns.drop_last());
        match comment_for(ns.drop_last(), k) {
            Some(j) => {
                lemma_comment_for_props(ns.drop_last(), k);
                assert(ns.drop_last()[j] == ns[j]);
            },
            None => {},
        }
    } else {
        assert(ns2.len() == ns.len() - 1);
        assert(ns2.last() == ns[ns.len() - 1]);
        if ns.last() is Comment && ns.last()->Comment_0.key == Some(k) {
            assert(comment_for(ns, k) == Some(ns.len() - 1));
            assert(comment_for(ns2, k) == Some(ns2.len() - 1));
        } else {
            assert(ns.drop_last()[i] == ns[i]);
            lemma_attached_value_remove(ns.drop_last(), i, k);
            assert(ns2.drop_last() =~= ns.drop_last().remove(i));
            match comment_for(ns.drop_last(), k) {
                Some(j) => {
                    lemma_comment_for_props(ns.drop_last(), k);
                    assert(ns.drop_last()[j] == ns[j]);
                },
                None => {},
            }
            match comment_for(ns2.drop_last(), k) {
                Some(j) => {
                    lemma_comment_for_props(ns2.drop_last(), k);
                    assert(ns2.drop_last()[j] == ns2[j]);
                },
                None => {},
            }
        }
    }
}

proof fn lemma_emit_from_skip(ns: Seq<GNode>, i: int, p: int, acc: Seq<char>)
    requires
        0 <= i < ns.len(),
        ns[i] is Comment,
        ns[i]->Comment_0.key is Some,
        forall|m: int|
            0 <= m < ns.len() ==> ((#[trigger] ns[m]) is Message ==> ns[m]->Message_0.key
                != ns[i]->Comment_0.key->Some_0),
        0 <= p <= ns.len(),
    ensures
        p <= i ==> emit_from(ns, p, acc) == emit_from(ns.remove(i), p, acc),
        p > i ==> emit_from(ns, p, acc) == emit_from(ns.remove(i), p - 1, acc),
    decreases ns.len() - p,
{
    let k = ns[i]->Comment_0.key->Some_0;
    let ns2 = ns.remove(i);
    ns.remove_ensures(i);
    if p == ns.len() {
    } else if p == i {
        assert(acc + emit_node(acc, ns, p) =~= acc);
        lemma_emit_from_skip(ns, i, p + 1, acc);
    } else {
        let n = ns[p];
        let n2_index: int = if p < i {
            p
        } else {
            p - 1
        };
        assert(ns2[n2_index] == n);
        match n {
            GNode::Message(m) => {
                assert(m.key != k);
                lemma_attached_value_remove(ns, i, m.key);
                lemma_first_message_remove(ns, i, p);
                lemma_emit_message_value(acc, ns, p);
                lemma_emit_message_value(acc, ns2, n2_index);
            },
            GNode::Comment(c) => {},
        }
        assert(emit_node(acc, ns2, n2_index) == emit_node(acc, ns, p));
        lemma_emit_from_skip(ns, i, p + 1, acc + emit_node(acc, ns, p));
    }
}

/// A dangling annotated comment — its key matches no declaration — produces
/// no output and does not break serialization: removing it leaves the
/// serialized text unchanged.  (The first node can double as the boilerplate
/// license notice, so the law is stated for the positions after it.)
pub proof fn lemma_dangling_comment_no_output(ns: Seq<GNode>, i: int)
    requires
        0 <= i < ns.len(),
        ns[i] is Comment,
        ns[i]->Comment_0.key is Some,
        forall|m: int|
            0 <= m < ns.len() ==> ((#[trigger] ns[m]) is Message ==> ns[m]->Message_0.key
                != ns[i]->Comment_0.key->Some_0),
        i == 0 && 1 < ns.len() ==> !(is_license_comment(ns[1]) && ns[1]->Comment_0.key is None),
    ensures
        fluent_output(ns) == fluent_output(ns.remove(i)),
{
    let ns2 = ns.remove(i);
    ns.remove_ensures(i);
    if i > 0 {
        assert(ns2[0] == ns[0]);
        let start: int = if is_license_comment(ns[0]) {
            1
        } else {
            0
        };
        lemma_emit_from_skip(ns, i, start, license_seq());
    } else {
        // However the first node is taken, it contributes nothing: whether it
        // is skipped as the license notice or emitted as an annotated
        // comment, the output is the emission from the second node on.
        let lic = license_seq();
        if !is_license_comment(ns[0]) {
            assert(lic + emit_node(lic, ns, 0) =~= lic);
        }
        assert(fluent_output(ns) == emit_from(ns, 1, lic));
        lemma_emit_from_skip(ns, 0, 1, lic);
        assert(emit_from(ns, 1, lic) == emit_from(ns2, 0, lic));
        if ns2.len() == 0 {
        } else if !is_license_comment(ns2[0]) {
        } else {
            // The new first node is license-like, so it is skipped; by the
            // exclusion above it carries a key, so emitting it adds nothing
            // either.
            assert(ns2[0] == ns[1]);
            assert(ns2[0]->Comment_0.key is Some);
            assert(lic + emit_node(lic, ns2, 0) =~= lic);
            assert(emit_from(ns2, 0, lic) == emit_from(ns2, 1, lic));
        }
    }
}

} // verus!
