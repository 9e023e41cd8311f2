use fluent_migrator::dtd::dtd;
use fluent_migrator::{convert, Dialect};
use fluent_migrator::fluent::{dtd_to_fluent, license_str};
use fluent_migrator::nodes::{Comment, Node};
use fluent_migrator::properties::properties;

fn convert_dtd(text: &str) -> String {
    let nodes = dtd(text).expect("document should parse");
    dtd_to_fluent(&nodes)
}

fn convert_properties(text: &str) -> String {
    let nodes = properties(text).expect("document should parse");
    dtd_to_fluent(&nodes)
}

#[test]
fn scenario_entity_without_comment() {
    let out = convert_dtd("<!ENTITY ldb.MainWindow.title \"Layout Debugger\">");
    assert!(out.contains("ldb-main-window-title = Layout Debugger"));
    assert_eq!(out, format!("{}ldb-main-window-title = Layout Debugger\n", license_str()));
}

#[test]
fn scenario_comment_before_entity() {
    let out = convert_dtd("<!-- LOCALIZATION NOTE (k.v) Comment --> \n <!ENTITY k.v \"X\">");
    let comment_at = out.find("# Comment").expect("comment should be rendered");
    let message_at = out.find("k-v = X").expect("message should be rendered");
    assert!(comment_at < message_at);
    assert_eq!(out, format!("{}\n# Comment\nk-v = X\n", license_str()));
}

#[test]
fn scenario_properties_note() {
    let text = "# LOCALIZATION NOTE (a.b): Note.\na.b=Value\n";
    let nodes = properties(text).expect("document should parse");
    assert_eq!(
        nodes,
        [
            Node::Comment(Comment { key: Some("a.b".into()), value: "Note.".into() }),
            Node::Message(fluent_migrator::nodes::Message {
                key: "a.b".into(),
                value: "Value".into(),
            }),
        ],
    );
    let out = dtd_to_fluent(&nodes);
    let note_at = out.find("# Note.").expect("note should be rendered");
    let message_at = out.find("a-b = Value").expect("message should be rendered");
    assert!(note_at < message_at);
}

#[test]
fn scenario_multiline_value() {
    let out = convert_dtd("<!ENTITY k.v \"line one\nline two\">");
    assert!(out.contains("k-v =\n  line one\n  line two\n"));
}

#[test]
fn scenario_comment_block_collapses() {
    let nodes = properties("# one\n# two\n# three\n").expect("document should parse");
    assert_eq!(nodes, [Node::Comment(Comment { key: None, value: "one two three".into() })]);
}

#[test]
fn comment_after_declaration_still_attaches() {
    let out = convert_dtd("<!ENTITY k.v \"X\">\n<!-- LOCALIZATION NOTE (k.v) Comment -->");
    assert!(out.contains("# Comment\nk-v = X"));
}

#[test]
fn dangling_comment_produces_no_output() {
    let with_dangling =
        convert_dtd("<!ENTITY a.b \"V\">\n<!-- LOCALIZATION NOTE (no.match) Dangling note -->");
    let without = convert_dtd("<!ENTITY a.b \"V\">");
    assert!(!with_dangling.contains("Dangling"));
    assert_eq!(with_dangling, without);
}

#[test]
fn parameter_entity_never_reaches_output() {
    let text = "<!ENTITY % brandDTD SYSTEM \"chrome://branding/locale/brand.dtd\" >\n%brandDTD;\n<!ENTITY a.b \"V\">";
    let nodes = dtd(text).expect("document should parse");
    assert_eq!(nodes.len(), 1);
    let out = dtd_to_fluent(&nodes);
    assert!(!out.contains("brandDTD"));
    assert!(!out.contains("chrome"));
    assert!(out.contains("a-b = V"));
}

#[test]
fn leading_license_comment_is_replaced() {
    let text = "<!-- License text, see http://mozilla.org/MPL/2.0/ MARKER99 -->\n<!ENTITY a.b \"V\">";
    let out = convert_dtd(text);
    assert!(!out.contains("MARKER99"));
    assert_eq!(out, format!("{}a-b = V\n", license_str()));
}

#[test]
fn properties_license_comment_is_replaced() {
    let text = "# This Source Code Form is subject to the terms of the Mozilla Public
# License, v. 2.0. If a copy of the MPL was not distributed with this
# file, You can obtain one at http://mozilla.org/MPL/2.0/.

# LOCALIZATION NOTE (snapshot.io.save): The label for the link that saves a
# snapshot to disk.
snapshot.io.save=Save
";
    let out = convert_properties(text);
    let expected = format!(
        "{}\n# The label for the link that saves a snapshot to disk.\nsnapshot-io-save = Save\n",
        license_str(),
    );
    assert_eq!(out, expected);
}

#[test]
fn section_comment_renders_as_header() {
    let out = convert_dtd("<!-- Toolbar strings -->\n<!ENTITY a.b \"V\">");
    assert_eq!(out, format!("{}## Toolbar strings\n\na-b = V\n", license_str()));
}

#[test]
fn bullet_markers_are_stripped_from_attached_comments() {
    let out = convert_dtd(
        "<!-- LOCALIZATION NOTE (a.b) - first point\n- second point -->\n<!ENTITY a.b \"V\">",
    );
    assert!(out.contains("# first point\n# second point\n"));
}

#[test]
fn empty_document_serializes_to_header() {
    let nodes = dtd("   \n  ").expect("whitespace-only document should parse");
    assert_eq!(nodes, []);
    assert_eq!(dtd_to_fluent(&nodes), license_str());
}

#[test]
fn later_comment_with_same_key_wins() {
    let out = convert_dtd(
        "<!-- LOCALIZATION NOTE (a.b) first -->\n<!-- LOCALIZATION NOTE (a.b) second -->\n<!ENTITY a.b \"V\">",
    );
    assert!(out.contains("# second\na-b = V"));
    assert!(!out.contains("# first"));
}

#[test]
fn duplicate_keys_comment_goes_to_first_only() {
    let out = convert_dtd(
        "<!-- LOCALIZATION NOTE (a.b) Doc -->\n<!ENTITY a.b \"one\">\n<!ENTITY a.b \"two\">",
    );
    assert!(out.contains("# Doc\na-b = one\na-b = two\n"));
    assert_eq!(out.matches("# Doc").count(), 1);
}

#[test]
fn convert_dispatches_on_dialect() {
    let out = convert(Dialect::EntityTable, "<!ENTITY a.b \"V\">").expect("should convert");
    assert!(out.contains("a-b = V"));
    let out = convert(Dialect::LineTable, "a.b=V\n").expect("should convert");
    assert!(out.contains("a-b = V"));
    let err = convert(Dialect::LineTable, "?").expect_err("junk should fail");
    assert_eq!(err.offset, 0);
}

#[test]
fn realistic_document_full_output() {
    let text = "<!-- This Source Code Form is subject to the terms of the Mozilla Public
   - License, v. 2.0. If a copy of the MPL was not distributed with this
   - file, You can obtain one at http://mozilla.org/MPL/2.0/. -->

<!-- General strings -->

<!-- LOCALIZATION NOTE (app.title): The window title. -->
<!ENTITY app.title \"My App\">

<!ENTITY app.subtitle \"line one
line two\">
";
    let out = convert_dtd(text);
    let expected = format!(
        "{}## General strings\n\n\n# The window title.\napp-title = My App\napp-subtitle =\n  line one\n  line two\n",
        license_str(),
    );
    assert_eq!(out, expected);
}
