use html_extractor::{Span, render};

#[test]
fn renders_one_based_source_location() {
    let rendered = render(
        "sample.extractor",
        "first = 1\nsecond = 2",
        "error",
        "bad value",
        Some(Span::new(10, 17)),
    );

    assert_eq!(rendered, "sample.extractor:2:1: error: bad value");
}

#[test]
fn renders_spanless_diagnostic_at_file_level() {
    let rendered = render("sample.extractor", "", "error", "failed", None);

    assert_eq!(rendered, "sample.extractor: error: failed");
}

#[test]
fn invalid_offsets_fall_back_to_file_level() {
    let rendered = render(
        "sample.extractor",
        "short",
        "warning",
        "failed",
        Some(Span::new(100, 101)),
    );

    assert_eq!(rendered, "sample.extractor: warning: failed");
}

#[test]
fn renders_multi_digit_lines_and_columns() {
    let source = "a\nb\nc\nd\ne\nf\ng\nh\ni\nj\nabcdefghijklmnop";
    let rendered = render("f", source, "error", "x", Some(Span::new(35, 36)));

    assert_eq!(rendered, "f:11:16: error: x");
}
