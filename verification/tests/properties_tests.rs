use fluent_migrator::nodes::{Comment, Message, Node};
use fluent_migrator::properties::{comment, message, properties};

fn chars_of(text: &str) -> Vec<char> {
    text.chars().collect()
}

fn message_ok(input: &str, key: &str, value: &str) {
    let v = chars_of(input);
    let (_, m) = message(&v, 0).expect("message should parse");
    assert_eq!(m, Message { key: key.into(), value: value.into() });
}

#[test]
fn test_message() {
    message_ok("heapview.field.name=Group", "heapview.field.name", "Group");
    message_ok("heapview.field.name = Group", "heapview.field.name", "Group");
    message_ok(
        "key-prop = This is a long message \n# Comment",
        "key-prop",
        "This is a long message",
    );
    message_ok("    key   =   value    ", "key", "value");
}

fn comment_ok(input: &str, key: Option<&str>, value: &str) {
    let v = chars_of(input);
    let (_, c) = comment(&v, 0).expect("comment should parse");
    assert_eq!(c.key.as_deref(), key);
    assert_eq!(c.value, value);
}

#[test]
fn test_comment() {
    comment_ok("# multi\n# line\n", None, "multi line");
    comment_ok("# comment 1\n\n# comment 2\n", None, "comment 1");
    comment_ok("# Comment", None, "Comment");
    comment_ok("#   Whitespace  ", None, "Whitespace");
    comment_ok("# LOCALIZATION NOTE (key.value) Comment", Some("key.value"), "Comment");
    comment_ok(
        "# LOCALIZATION NOTE (key.value) Multi-line\n# comment.",
        Some("key.value"),
        "Multi-line comment.",
    );
}

#[test]
fn test_properties() {
    let text = "# This Source Code Form is subject to the terms of the Mozilla Public
# License, v. 2.0. If a copy of the MPL was not distributed with this
# file, You can obtain one at http://mozilla.org/MPL/2.0/.

# LOCALIZATION NOTE (snapshot.io.save): The label for the link that saves a
# snapshot to disk.
snapshot.io.save=Save

# LOCALIZATION NOTE (snapshot.io.delete): The label for the link that deletes
# a snapshot
snapshot.io.delete=Delete

# LOCALIZATION NOTE (snapshot.io.save.window): The title for the window
# displayed when saving a snapshot to disk.
snapshot.io.save.window=Save Snapshot
    ";
    let nodes = properties(text).expect("document should parse");
    assert_eq!(
        nodes,
        [
            Node::Comment(Comment {
                key: None,
                value: "This Source Code Form is subject to the terms of the Mozilla Public License, v. 2.0. If a copy of the MPL was not distributed with this file, You can obtain one at http://mozilla.org/MPL/2.0/.".into(),
            }),
            Node::Comment(Comment {
                key: Some("snapshot.io.save".into()),
                value: "The label for the link that saves a snapshot to disk.".into(),
            }),
            Node::Message(Message { key: "snapshot.io.save".into(), value: "Save".into() }),
            Node::Comment(Comment {
                key: Some("snapshot.io.delete".into()),
                value: "The label for the link that deletes a snapshot".into(),
            }),
            Node::Message(Message { key: "snapshot.io.delete".into(), value: "Delete".into() }),
            Node::Comment(Comment {
                key: Some("snapshot.io.save.window".into()),
                value: "The title for the window displayed when saving a snapshot to disk.".into(),
            }),
            Node::Message(Message {
                key: "snapshot.io.save.window".into(),
                value: "Save Snapshot".into(),
            }),
        ],
    );
}
