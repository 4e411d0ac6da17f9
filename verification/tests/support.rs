use vix::support::{decode_bool, decode_path, decode_string, decode_template, node_text, unquote, PathMissing, Span};

const SPAN: Span = Span { start: 1, end: 4 };

#[test]
fn unquote_strips_quotes_and_processes_escapes() {
    assert_eq!(unquote("\"hello\""), "hello");
    assert_eq!(unquote("\"a\\nb\\tc\\rd\""), "a\nb\tc\rd");
    assert_eq!(unquote("\"q\\\"x\\\\y\""), "q\"x\\y");
    assert_eq!(unquote("bare"), "bare");
    assert_eq!(unquote("\"trailing\\\""), "trailing");
    assert_eq!(unquote("\""), "\"");
    assert_eq!(unquote(""), "");
}

#[test]
fn literal_decoders_keep_their_span() {
    let s = decode_string("\"x\\ty\"", SPAN);
    assert_eq!(s.value, "x\ty");
    assert_eq!(s.span, SPAN);
    assert_eq!(decode_path("p\"src/a.c\"", SPAN).value, "src/a.c");
    assert_eq!(decode_template("tmpl\"hi {name}\"", SPAN).value, "hi {name}");
    assert_eq!(node_text("ident", SPAN).value, "ident");
    assert!(decode_bool("true", SPAN).value);
    assert!(!decode_bool("false", SPAN).value);
    assert!(!decode_bool("True", SPAN).value);
}

#[test]
fn span_contains_is_half_open() {
    assert!(SPAN.contains(1));
    assert!(SPAN.contains(3));
    assert!(!SPAN.contains(4));
    assert!(!SPAN.contains(0));
}

#[test]
fn path_missing_names_the_path() {
    let m = PathMissing { path: "src/lib.rs".to_string() };
    assert_eq!(m.diagnostic(), "path `src/lib.rs` is missing from resolved tree");
}
