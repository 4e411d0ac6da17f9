use vix::command::parse_command_template;
use vix::compiler::LoweredValue;
use vix::diagnostic::{DiagnosticCode, DiagnosticPayload, Diagnostics};
use vix::strmap::StrMap;
use vix::support::{Span, Spanned};
use vix::vir::{CommandArgument, CommandPiece, NodeId, Type};

const SPAN: Span = Span { start: 10, end: 40 };

fn scope() -> StrMap<LoweredValue> {
    let mut b = StrMap::new();
    b.insert("src".to_string(), LoweredValue { node: NodeId(7), ty: Type::Path });
    b.insert("n".to_string(), LoweredValue { node: NodeId(3), ty: Type::Int });
    b.insert("name".to_string(), LoweredValue { node: NodeId(4), ty: Type::String });
    b.insert("flag".to_string(), LoweredValue { node: NodeId(5), ty: Type::Bool });
    b
}

fn parse(text: &str) -> Result<(Vec<CommandArgument>, Vec<NodeId>), Diagnostics> {
    parse_command_template(&Spanned { value: text.to_string(), span: SPAN }, &scope())
}

fn lit(s: &str) -> CommandPiece {
    CommandPiece::Literal(s.to_string())
}

fn arg(pieces: Vec<CommandPiece>) -> CommandArgument {
    CommandArgument { pieces }
}

fn refusal(text: &str) -> String {
    let d = parse(text).unwrap_err();
    assert_eq!(d.entries.len(), 1);
    assert_eq!(d.entries[0].code, DiagnosticCode::UnsupportedExpression);
    assert_eq!(d.entries[0].primary, SPAN);
    d.entries[0].message()
}

#[test]
fn template_splits_on_whitespace_and_keeps_quoted_spaces() {
    let (argv, inputs) = parse("cc -c {src}  -o \"out file.o\"").unwrap();
    assert_eq!(
        argv,
        vec![
            arg(vec![lit("cc")]),
            arg(vec![lit("-c")]),
            arg(vec![CommandPiece::Input { index: 1 }]),
            arg(vec![lit("-o")]),
            arg(vec![lit("out file.o")]),
        ]
    );
    assert_eq!(inputs, vec![NodeId(7)]);
}

#[test]
fn splices_number_inputs_across_arguments() {
    let (argv, inputs) = parse("pre{n}mid{name}post --x={src}").unwrap();
    assert_eq!(
        argv,
        vec![
            arg(vec![
                lit("pre"),
                CommandPiece::Input { index: 1 },
                lit("mid"),
                CommandPiece::Input { index: 2 },
                lit("post"),
            ]),
            arg(vec![lit("--x="), CommandPiece::Input { index: 3 }]),
        ]
    );
    assert_eq!(inputs, vec![NodeId(3), NodeId(4), NodeId(7)]);
}

#[test]
fn backquotes_quotes_and_empty_elements() {
    let (argv, inputs) = parse("`echo hi`").unwrap();
    assert_eq!(argv, vec![arg(vec![lit("echo")]), arg(vec![lit("hi")])]);
    assert!(inputs.is_empty());
    let (argv, _) = parse("\"\" a\"b \"c\"d").unwrap();
    assert_eq!(
        argv,
        vec![arg(vec![lit("")]), arg(vec![lit("a\"b")]), arg(vec![lit("c")]), arg(vec![lit("d")])]
    );
    let (argv, _) = parse("a\u{3000}b\tc\n").unwrap();
    assert_eq!(argv.len(), 3);
    let (argv, _) = parse("   ").unwrap();
    assert!(argv.is_empty());
    let (argv, _) = parse("`").unwrap();
    assert_eq!(argv, vec![arg(vec![lit("`")])]);
}

#[test]
fn malformed_templates_are_refused() {
    assert_eq!(refusal("echo \"open"), "unterminated quoted command argument");
    assert_eq!(refusal("a}b"), "unmatched `}` in command interpolation");
    assert_eq!(refusal("{n{m}}"), "nested `{` in command interpolation");
    assert_eq!(refusal("x {src"), "unterminated command interpolation");
}

#[test]
fn splices_must_be_bound_and_renderable() {
    let d = parse("run {nope}").unwrap_err();
    assert_eq!(d.entries[0].code, DiagnosticCode::UnboundIdentifier);
    assert_eq!(d.entries[0].payload, DiagnosticPayload::Name { name: "nope".to_string() });
    assert_eq!(d.entries[0].message(), "unbound identifier `nope`");
    let d = parse("run {flag}").unwrap_err();
    assert_eq!(d.entries[0].code, DiagnosticCode::TypeMismatch);
    assert_eq!(
        d.entries[0].payload,
        DiagnosticPayload::Type {
            expected: "Int, String, or Path command interpolation".to_string(),
            found: "Bool".to_string(),
        }
    );
}
