use fluent_migrator::dtd::{comment_tag, dtd, entity_tag, quoted_string, Entity};
use fluent_migrator::nodes::{Comment, Node};

fn chars_of(text: &str) -> Vec<char> {
    text.chars().collect()
}

fn rest_of(v: &[char], j: usize) -> String {
    v[j..].iter().collect()
}

fn comment_after(text: &str, after: &str) {
    let v = chars_of(text);
    let (j, _) = comment_tag(&v, 0).expect("comment should parse");
    assert_eq!(rest_of(&v, j), after);
}

fn comment_err(text: &str) {
    let v = chars_of(text);
    assert!(comment_tag(&v, 0).is_none());
}

#[test]
fn parser_test_comments() {
    comment_after("<!-- This is a comment -->", "");
    comment_after("<!-- This is a comment --> after", " after");
    comment_after("<!-- --> -->", " -->");
    comment_after("<!-- --> after", " after");
    comment_after("<!---->", "");
    comment_after("<!----> after ", " after ");
    comment_after("<!----> <!---->", " <!---->");

    comment_err("");
    comment_err("<!--");
    comment_err("-->");
    comment_err("<!-->");
}

fn quoted_ok(text: &str, value: &str) {
    let v = chars_of(text);
    let (_, parsed) = quoted_string(&v, 0).expect("quoted string should parse");
    let parsed: String = parsed.iter().collect();
    assert_eq!(parsed, value);
}

fn quoted_err(text: &str) {
    let v = chars_of(text);
    assert!(quoted_string(&v, 0).is_none());
}

#[test]
fn parser_test_quoted_strings() {
    quoted_err("\"no trailing");
    quoted_err("no leading\"");
    quoted_ok("\"test\"", "test");
    quoted_ok("\"\"", "");
    quoted_ok("\"test \\\" escaped\"", "test \" escaped");
    quoted_ok("\"test \\\\ escaped\"", "test \\ escaped");
    quoted_ok("\"test \\\" escaped \\\" twice\"", "test \" escaped \" twice");
    quoted_err("\"text with a newline\n");
}

#[test]
fn parser_test_entities() {
    let v = chars_of("<!ENTITY ldb.MainWindow.title \"Layout Debugger\">");
    let (_, e) = entity_tag(&v, 0).expect("entity should parse");
    assert_eq!(
        e,
        Some(Entity { key: "ldb.MainWindow.title".into(), value: "Layout Debugger".into() }),
    );
    let v = chars_of("<!ENTITY performanceUI.toolbar.js-calltree \"Call Tree\">");
    let (_, e) = entity_tag(&v, 0).expect("entity should parse");
    assert_eq!(
        e,
        Some(Entity {
            key: "performanceUI.toolbar.js-calltree".into(),
            value: "Call Tree".into(),
        }),
    );
}

#[test]
fn parser_test_entity_percent() {
    let text = "<!ENTITY % brandDTD SYSTEM \"chrome://branding/locale/brand.dtd\" >\n%brandDTD;";
    let v = chars_of(text);
    let (_, e) = entity_tag(&v, 0).expect("parameter entity should be consumed");
    assert_eq!(e, None);
}

#[test]
fn parser_test_dtd() {
    let nodes = dtd(
        "
                <!-- preamble -->
                <!ENTITY ldb.MainWindow.title \"Layout Debugger\">

                <!ENTITY ldb.BackButton.label \"Back\">
                <!ENTITY ldb.ForwardButton.label \"Forward\">
                <!ENTITY ldb.ReloadButton.label \"Reload\">
                <!ENTITY ldb.StopButton.label \"Stop\">
                <!ENTITY ldb.StopButton.label2 \"Stop Again\">
            ",
    )
    .expect("document should parse");
    let entities: Vec<Entity> = nodes
        .into_iter()
        .filter_map(|n| match n {
            Node::Message(m) => Some(Entity { key: m.key, value: m.value }),
            Node::Comment(_) => None,
        })
        .collect();
    assert_eq!(
        entities,
        [
            Entity { key: "ldb.MainWindow.title".into(), value: "Layout Debugger".into() },
            Entity { key: "ldb.BackButton.label".into(), value: "Back".into() },
            Entity { key: "ldb.ForwardButton.label".into(), value: "Forward".into() },
            Entity { key: "ldb.ReloadButton.label".into(), value: "Reload".into() },
            Entity { key: "ldb.StopButton.label".into(), value: "Stop".into() },
            Entity { key: "ldb.StopButton.label2".into(), value: "Stop Again".into() },
        ],
    );
}

fn comment_full(input: &str, value: &str, key: Option<&str>, after: &str) {
    let v = chars_of(input);
    let (j, c) = comment_tag(&v, 0).expect("comment should parse");
    assert_eq!(c.value, value);
    assert_eq!(c.key.as_deref(), key);
    assert_eq!(rest_of(&v, j), after);
}

#[test]
fn dtd_test_comments() {
    comment_full("<!-- This is a comment -->", "This is a comment", None, "");
    comment_full("<!-- This is a comment --> after", "This is a comment", None, " after");
    comment_full("<!-- --> -->", "", None, " -->");
    comment_full("<!-- --> after", "", None, " after");
    comment_full("<!---->", "", None, "");
    comment_full("<!----> after ", "", None, " after ");
    comment_full("<!----> <!---->", "", None, " <!---->");
    comment_full(
        "<!-- LOCALIZATION NOTE (key.value) Comment -->",
        "Comment",
        Some("key.value"),
        "",
    );

    comment_err("");
    comment_err("<!--");
    comment_err("-->");
    comment_err("<!-->");
}

#[test]
fn dtd_test_quoted_strings() {
    quoted_err("\"no trailing");
    quoted_err("no leading\"");
    quoted_ok("\"test\"", "test");
    quoted_ok("\"\"", "");
    quoted_ok("\"test \\\" escaped\"", "test \" escaped");
    quoted_ok("\"test \\\\ escaped\"", "test \\ escaped");
    quoted_ok("\"test \\\" escaped \\\" twice\"", "test \" escaped \" twice");
    quoted_err("\"text with a newline\n");
}

#[test]
fn dtd_test_entities() {
    let v = chars_of("<!ENTITY ldb.MainWindow.title \"Layout Debugger\">");
    let (_, e) = entity_tag(&v, 0).expect("entity should parse");
    assert_eq!(
        e.map(Node::from),
        Some(Entity { key: "ldb.MainWindow.title".into(), value: "Layout Debugger".into() }.into()),
    );
    let v = chars_of("<!ENTITY performanceUI.toolbar.js-calltree \"Call Tree\">");
    let (_, e) = entity_tag(&v, 0).expect("entity should parse");
    assert_eq!(
        e.map(Node::from),
        Some(
            Entity { key: "performanceUI.toolbar.js-calltree".into(), value: "Call Tree".into() }
                .into(),
        ),
    );
}

#[test]
fn dtd_test_entity_percent() {
    let text = "<!ENTITY % brandDTD SYSTEM \"chrome://branding/locale/brand.dtd\" >\n%brandDTD;";
    let v = chars_of(text);
    let (_, e) = entity_tag(&v, 0).expect("parameter entity should be consumed");
    assert_eq!(e, None);
}

#[test]
fn dtd_test_dtd() {
    let nodes = dtd(
        "
                <!-- preamble -->
                <!ENTITY ldb.MainWindow.title \"Layout Debugger\">

                <!ENTITY ldb.BackButton.label \"Back\">
                <!ENTITY ldb.ForwardButton.label \"Forward\">
                <!ENTITY ldb.ReloadButton.label \"Reload\">
                <!ENTITY ldb.StopButton.label \"Stop\">
                <!ENTITY ldb.StopButton.label2 \"Stop Again\">
            ",
    )
    .expect("document should parse");
    assert_eq!(
        nodes,
        [
            Node::Comment(Comment { key: None, value: "preamble".into() }),
            Entity { key: "ldb.MainWindow.title".into(), value: "Layout Debugger".into() }.into(),
            Entity { key: "ldb.BackButton.label".into(), value: "Back".into() }.into(),
            Entity { key: "ldb.ForwardButton.label".into(), value: "Forward".into() }.into(),
            Entity { key: "ldb.ReloadButton.label".into(), value: "Reload".into() }.into(),
            Entity { key: "ldb.StopButton.label".into(), value: "Stop".into() }.into(),
            Entity { key: "ldb.StopButton.label2".into(), value: "Stop Again".into() }.into(),
        ],
    );
}
