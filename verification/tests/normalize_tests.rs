use fluent_migrator::normalize::normalize_key;

#[test]
fn normalize_dotted_camel_case() {
    assert_eq!(normalize_key("ldb.MainWindow.title"), "ldb-main-window-title");
    assert_eq!(normalize_key("performanceUI.toolbar.js-calltree"), "performance-ui-toolbar-js-calltree");
}

#[test]
fn normalize_digit_boundaries() {
    assert_eq!(normalize_key("ldb.StopButton.label2"), "ldb-stop-button-label-2");
    assert_eq!(normalize_key("a12b"), "a-12-b");
}

#[test]
fn normalize_drops_empty_segments() {
    assert_eq!(normalize_key("a..b"), "a-b");
    assert_eq!(normalize_key(".a."), "a");
    assert_eq!(normalize_key(""), "");
}

#[test]
fn normalize_is_idempotent_on_examples() {
    let keys = [
        "ldb.MainWindow.title",
        "performanceUI.toolbar.js-calltree",
        "ldb.StopButton.label2",
        "a..b",
        "already-kebab-case",
        "ALLCAPS.Key",
    ];
    for key in keys {
        let once = normalize_key(key);
        let twice = normalize_key(&once);
        assert_eq!(once, twice);
    }
}
