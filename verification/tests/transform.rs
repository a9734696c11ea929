use punktf::transform::{ContentTransformer, LineTerminator};

const CONTENT: &str = "Hello\r\nWorld\nHow\nare\r\nyou today?\r\r\r\nLast line\r";

#[test]
fn line_terminator_lf() {
    assert_eq!(
        LineTerminator::Lf.transform(String::from(CONTENT)),
        "Hello\nWorld\nHow\nare\nyou today?\r\r\nLast line\r"
    );
}

#[test]
fn line_terminator_crlf() {
    assert_eq!(
        LineTerminator::Crlf.transform(String::from(CONTENT)),
        "Hello\r\nWorld\r\nHow\r\nare\r\nyou today?\r\r\r\nLast line\r"
    );
}

#[test]
fn crlf_twice_same_as_once() {
    let once = LineTerminator::Crlf.transform(String::from(CONTENT));
    let twice = LineTerminator::Crlf.transform(once.clone());
    assert_eq!(once, twice);
}

#[test]
fn lf_undoes_crlf_without_carriage_returns() {
    let text = "a\nb\n\nc";
    let crlf = LineTerminator::Crlf.transform(text.to_string());
    assert_eq!(crlf, "a\r\nb\r\n\r\nc");
    assert_eq!(LineTerminator::Lf.transform(crlf), text);
}

#[test]
fn content_transformer_delegates() {
    let t = ContentTransformer::LineTerminator(LineTerminator::Lf);
    assert_eq!(t.transform("x\r\ny".to_string()), "x\ny");
    assert_eq!(t.name(), "LineTerminator(Lf)");
    assert_eq!(ContentTransformer::LineTerminator(LineTerminator::Crlf).name(), "LineTerminator(Crlf)");
    assert_eq!(LineTerminator::Lf.transform(String::new()), "");
}
