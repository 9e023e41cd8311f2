use fluent_migrator::dtd::{dtd, encode_quoted, quoted_string};
use fluent_migrator::error::Expected;
use fluent_migrator::properties::properties;

#[test]
fn dtd_rejects_unterminated_comment() {
    let e = dtd("<!--").expect_err("unterminated comment should fail");
    assert_eq!(e.offset, 0);
    assert_eq!(e.expected, Expected::CommentOrEntity);
}

#[test]
fn dtd_rejects_trailing_junk() {
    let e = dtd("<!-- ok --> junk").expect_err("leftover content should fail");
    assert_eq!(e.offset, 12);
    assert_eq!(e.expected, Expected::CommentOrEntity);
}

#[test]
fn dtd_rejects_parameter_entity_without_reference() {
    let e = dtd("<!ENTITY % brandDTD SYSTEM \"chrome://a\" >")
        .expect_err("missing reference half should fail");
    assert_eq!(e.offset, 0);
    assert_eq!(e.expected, Expected::CommentOrEntity);
}

#[test]
fn properties_rejects_line_without_equals() {
    let e = properties("snapshot io save\n").expect_err("line without = should fail");
    assert_eq!(e.offset, 0);
    assert_eq!(e.expected, Expected::CommentOrMessage);
}

#[test]
fn properties_offset_counts_bytes() {
    // The line "# é" holds a two-byte character, so the unparseable "?x"
    // on the next line sits at byte offset 5, not character offset 4.
    let e = properties("# \u{e9}\n?x").expect_err("junk after the comment should fail");
    assert_eq!(e.offset, 5);
    assert_eq!(e.expected, Expected::CommentOrMessage);
}

#[test]
fn describe_names_alternatives_and_offset() {
    let e = properties("?").expect_err("junk should fail");
    assert_eq!(e.describe(), "expected a comment or a message line at byte offset 0");
    let e = dtd("?").expect_err("junk should fail");
    assert_eq!(e.describe(), "expected a comment or an entity declaration at byte offset 0");
}

#[test]
fn quoted_string_round_trip() {
    let text = "\"test \\\" escaped \\\\ more\"";
    let v: Vec<char> = text.chars().collect();
    let (j, value) = quoted_string(&v, 0).expect("quoted string should parse");
    assert_eq!(j, v.len());
    let decoded: String = value.iter().collect();
    assert_eq!(decoded, "test \" escaped \\ more");
    let encoded: String = encode_quoted(&value).iter().collect();
    let raw_body: String = v[1..v.len() - 1].iter().collect();
    assert_eq!(encoded, raw_body);
}
