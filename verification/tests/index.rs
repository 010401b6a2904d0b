use blog::cli::index_capture;

#[test]
fn an_empty_capture_means_no_index_yet() {
    assert_eq!(index_capture(""), None);
    assert_eq!(index_capture("  \n"), None);
}

#[test]
fn wranglers_not_found_message_means_no_index_yet() {
    assert_eq!(index_capture("Value not found\n"), None);
}

#[test]
fn any_other_capture_must_read_as_the_index() {
    assert_eq!(
        index_capture("  [{\"slug\": \"a\"}]\n").as_deref(),
        Some("[{\"slug\": \"a\"}]")
    );
    for garbage in [
        "<html><body>502 Bad Gateway</body></html>",
        "value not found",
        "Value not found for key index",
        r#"[{"slug": "trunc"#,
    ] {
        assert_eq!(index_capture(garbage).as_deref(), Some(garbage), "{garbage:?}");
    }
}
