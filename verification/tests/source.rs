use html_extractor::{CompileError, Diagnostic, SourceLocation, SourceText, Span};

#[test]
fn spans_slice_retained_source() {
    let source = SourceText::new("first\nsecond");
    let span = Span::new(6, 12);

    assert_eq!(source.slice(span), Some("second"));
}

#[test]
fn invalid_spans_do_not_slice_source() {
    let source = SourceText::new("short");

    assert_eq!(source.slice(Span::new(4, 2)), None);
    assert_eq!(source.slice(Span::new(0, 8)), None);
}

#[test]
fn byte_offsets_map_to_one_based_line_and_column() {
    let source = SourceText::new("alpha\nβeta\nlast");

    assert_eq!(source.location(0), Some(SourceLocation::new(1, 1)));
    assert_eq!(source.location(6), Some(SourceLocation::new(2, 1)));
    assert_eq!(source.location(8), Some(SourceLocation::new(2, 2)));
    assert_eq!(source.location(12), Some(SourceLocation::new(3, 1)));
}

#[test]
fn locations_reject_non_character_boundaries_and_out_of_bounds_offsets() {
    let source = SourceText::new("β");

    assert_eq!(source.location(1), None);
    assert_eq!(source.location(3), None);
}

#[test]
fn compile_errors_expose_stable_diagnostics() {
    let diagnostic = Diagnostic::new("unexpected token", Span::new(3, 4));
    let error = CompileError::new(diagnostic.clone());

    assert_eq!(diagnostic.message(), "unexpected token");
    assert_eq!(diagnostic.primary_span(), Span::new(3, 4));
    assert_eq!(error.diagnostics(), &[diagnostic]);
    assert_eq!(error.to_string(), "unexpected token");
}

#[test]
fn default_span_is_empty_at_the_start() {
    let span = html_extractor::Span::default();
    assert_eq!(span.start(), 0);
    assert_eq!(span.end(), 0);
}

#[test]
fn source_text_from_a_slice_keeps_the_text() {
    let text = html_extractor::SourceText::from("alpha\nbeta");
    assert_eq!(text.as_str(), "alpha\nbeta");
    assert_eq!(text.clone().as_str(), "alpha\nbeta");
}
