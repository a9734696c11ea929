use punktf::diagnostic::{DiagnosticBuilder, DiagnosticLevel};
use punktf::report::{get_idx_line, text_lines_of, DiagnosticFormatter, LineMap};
use punktf::source::{Location, Source};
use punktf::span::ByteSpan;

fn framed(s: &str) -> String {
    format!("\x1b[1m\x1b[94m{}\x1b[39m\x1b[0m", s)
}

fn bold(s: &str) -> String {
    format!("\x1b[1m{}\x1b[0m", s)
}

#[test]
fn idx_line_texts() {
    assert_eq!(get_idx_line("ab\ncd\n", 0), "ab");
    assert_eq!(get_idx_line("ab\ncd\n", 1), "cd");
    assert_eq!(get_idx_line("ab\ncd\n", 2), "");
    assert_eq!(get_idx_line("ab\ncd\n", 7), "");
}

#[test]
fn lines_like_str_lines() {
    for text in ["", "a", "a\n", "a\r\nb", "a\n\nb\r", "\n", "x\r\n"] {
        let expected: Vec<String> = text.lines().map(|l| l.to_string()).collect();
        assert_eq!(text_lines_of(text), expected, "lines of {:?}", text);
    }
}

#[test]
fn line_map_lines_and_spans() {
    let source = Source::file("t.txt", "one\ntwo\nthree\nfour\n");
    let mut map = LineMap::new(&source);
    assert_eq!(map.min_line_nr(), None);
    assert!(map.line_nrs().is_empty());

    // "two" is bytes 4..7, "four" is bytes 14..18.
    map.insert_label(&ByteSpan::new(14, 18), "here");
    map.insert_primary(&ByteSpan::new(5, 7));
    map.insert_primary(&ByteSpan::new(4, 5));

    assert_eq!(map.min_line_nr(), Some(2));
    assert_eq!(map.max_line_nr(), Some(4));
    assert_eq!(map.line_nrs(), vec![2, 4]);
    assert_eq!(map.min_location(), Some(Location { line: 2, column: 0 }));
    assert_eq!(map.line(2).as_deref(), Some("two"));
    assert_eq!(map.line(3), None);

    let spans = map.line_spans_sorted(2).unwrap();
    assert_eq!(spans.len(), 2);
    assert_eq!(spans[0].0, Location { line: 2, column: 0 });
    assert_eq!(spans[1].0, Location { line: 2, column: 1 });
    let spans = map.line_spans_sorted(4).unwrap();
    assert_eq!(spans[0].2.as_deref(), Some("here"));
    assert!(map.line_spans_sorted(1).is_none());
}

#[test]
fn formatter_marks_primary_span() {
    let source = Source::file("t.txt", "ab\ncd\n");
    let mut fmt = DiagnosticFormatter::new(&source, "oops");
    fmt.primary_span(&ByteSpan::new(3, 5));
    let out = fmt.finish();

    let expected = format!(
        "{}\n  {} t.txt:2:0\n   {}\n 2 {} cd\n   {} {}\n   {}",
        bold("oops"),
        framed("-->"),
        framed("|"),
        framed("|"),
        framed("|"),
        framed("^^"),
        framed("|"),
    );
    assert_eq!(out, expected);
}

#[test]
fn formatter_label_gap_and_description() {
    let source = Source::anonymous("a\tb\nx\ny\nlast");
    let mut fmt = DiagnosticFormatter::new(&source, "msg");
    fmt.label_span(&ByteSpan::new(2, 3), "this");
    fmt.primary_span(&ByteSpan::new(8, 12));
    fmt.description("first");
    fmt.description("second");
    let out = fmt.finish();

    let expected = format!(
        "{}\n  {} <anonymous>:4:0\n   {}\n 1 {} a    b\n   {}   {} {}\n {}\n 4 {} last\n   {} {}\n   {}\n   {} first\n   {} second",
        bold("msg"),
        framed("-->"),
        framed("|"),
        framed("|"),
        framed("|"),
        framed("-"),
        framed("this"),
        framed("..."),
        framed("|"),
        framed("|"),
        framed("^^^^"),
        framed("|"),
        framed("="),
        framed("="),
    );
    assert_eq!(out, expected);
}

#[test]
fn formatter_without_spans() {
    let source = Source::anonymous("text");
    let mut fmt = DiagnosticFormatter::new(&source, "plain");
    fmt.description("why");
    assert_eq!(fmt.finish(), format!("{}\n  {} why", bold("plain"), framed("=")));
}

#[test]
fn emit_prefixes_errors() {
    let source = Source::anonymous("{{ X }}");
    let error = DiagnosticBuilder::new(DiagnosticLevel::Error)
        .message("bad")
        .primary_span(ByteSpan::new(0, 2))
        .build();
    let body = {
        let mut fmt = DiagnosticFormatter::new(&source, "bad");
        fmt.primary_span(&ByteSpan::new(0, 2));
        fmt.finish()
    };
    assert_eq!(error.emit(&source), format!("\x1b[1m\x1b[91merror\x1b[39m\x1b[0m\x1b[1m:\x1b[0m {}", body));

    let warning = DiagnosticBuilder::new(DiagnosticLevel::Warning).message("careful").build();
    assert_eq!(warning.emit(&source), bold("careful"));
}
