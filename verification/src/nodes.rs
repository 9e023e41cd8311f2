//! The shared intermediate representation both grammars produce: an ordered
//! sequence of declarations and comments.

use vstd::prelude::*;

verus! {

/// A translatable declaration: a key and its decoded value.
#[derive(Debug, PartialEq, Clone)]
pub struct Message {
    pub key: String,
    pub value: String,
}

/// A free-text documentation comment.  `key` is present when the comment
/// carried a localization-note annotation naming the declaration it
/// documents; the annotation text itself is not part of `value`.
#[derive(Debug, PartialEq, Clone)]
pub struct Comment {
    pub key: Option<String>,
    pub value: String,
}

/// One parsed node.  A document is an ordered sequence of these, in source
/// order.
#[derive(Debug, PartialEq, Clone)]
pub enum Node {
    Message(Message),
    Comment(Comment),
}

/// Mathematical model of a declaration.
pub struct GMessage {
    pub key: Seq<char>,
    pub value: Seq<char>,
}

/// Mathematical model of a comment.
pub struct GComment {
    pub key: Option<Seq<char>>,
    pub value: Seq<char>,
}

/// Mathematical model of a node.
pub enum GNode {
    Message(GMessage),
    Comment(GComment),
}

impl View for Message {
    type V = GMessage;

    open spec fn view(&self) -> GMessage {
        GMessage { key: self.key@, value: self.value@ }
    }
}

/// The view of an optional key.
pub open spec fn opt_key_view(k: Option<String>) -> Option<Seq<char>> {
    match k {
        Some(k) => Some(k@),
        None => None,
    }
}

impl View for Comment {
    type V = GComment;

    open spec fn view(&self) -> GComment {
        GComment { key: opt_key_view(self.key), value: self.value@ }
    }
}

impl View for Node {
    type V = GNode;

    open spec fn view(&self) -> GNode {
        match self {
            Node::Message(m) => GNode::Message(m@),
            Node::Comment(c) => GNode::Comment(c@),
        }
    }
}

/// The node sequence a parsed vector stands for.
pub open spec fn nodes_view(ns: Seq<Node>) -> Seq<GNode> {
    Seq::new(ns.len(), |i: int| ns[i]@)
}

impl From<Message> for Node {
    fn from(other: Message) -> (r: Self) {
        Node::Message(other)
    }
}

impl vstd::std_specs::convert::FromSpecImpl<Message> for Node {
    open spec fn obeys_from_spec() -> bool {
        true
    }

    open spec fn from_spec(other: Message) -> Node {
        Node::Message(other)
    }
}

impl From<Comment> for Node {
    fn from(other: Comment) -> (r: Self) {
        Node::Comment(other)
    }
}

impl vstd::std_specs::convert::FromSpecImpl<Comment> for Node {
    open spec fn obeys_from_spec() -> bool {
        true
    }

    open spec fn from_spec(other: Comment) -> Node {
        Node::Comment(other)
    }
}

} // verus!
