use vix::diagnostic::{DiagnosticCode, DiagnosticPayload, Diagnostics};
use vix::support::{Span, Spanned};
use vix::trace::{
    plan_check, trace_bound, trace_path, wire_argument_literal, CallArgument, CheckPlan, LiteralCall, TraceBound,
    TraceCheck, ValueCheck, WireArg, WireCheck,
};

const CALL: Span = Span { start: 0, end: 20 };
const ARG: Span = Span { start: 5, end: 9 };

fn call(args: Vec<CallArgument>) -> LiteralCall {
    LiteralCall { span: CALL, callee: "bound".to_string(), callee_span: CALL, args, named_args: false }
}

fn number(text: &str) -> CallArgument {
    CallArgument::Number(Spanned { value: text.to_string(), span: ARG })
}

fn path(text: &str) -> CallArgument {
    CallArgument::Path(Spanned { value: text.to_string(), span: ARG })
}

fn mismatch(d: &Diagnostics) -> (Span, String, String) {
    assert_eq!(d.entries.len(), 1);
    assert_eq!(d.entries[0].code, DiagnosticCode::TypeMismatch);
    match &d.entries[0].payload {
        DiagnosticPayload::Type { expected, found } => (d.entries[0].primary, expected.clone(), found.clone()),
        other => panic!("not a type mismatch: {other:?}"),
    }
}

#[test]
fn a_trace_bound_is_one_integer_literal() {
    assert_eq!(trace_bound(&call(vec![number("3")])).unwrap(), 3);
    assert_eq!(trace_bound(&call(vec![number("-9223372036854775808")])).unwrap(), i64::MIN);
    let d = trace_bound(&call(vec![number("9223372036854775808")])).unwrap_err();
    assert_eq!(mismatch(&d), (ARG, "Int".to_string(), "number literal `9223372036854775808`".to_string()));
    let d = trace_bound(&call(vec![path("a")])).unwrap_err();
    assert_eq!(mismatch(&d), (ARG, "an integer bound literal".to_string(), "expression".to_string()));
    let d = trace_bound(&call(vec![])).unwrap_err();
    assert_eq!(d.entries[0].code, DiagnosticCode::InvalidArity);
    assert_eq!(d.entries[0].primary, CALL);
    assert_eq!(d.entries[0].payload, DiagnosticPayload::Arity { expected: 1, found: 0 });
}

#[test]
fn a_never_read_path_is_one_relative_path_literal() {
    assert_eq!(trace_path(&call(vec![path("src/main.rs")])).unwrap(), "src/main.rs");
    let d = trace_path(&call(vec![path("/etc/passwd")])).unwrap_err();
    assert_eq!(d.entries[0].code, DiagnosticCode::UnsupportedExpression);
    assert_eq!(d.entries[0].primary, ARG);
    let d = trace_path(&call(vec![CallArgument::Other(Span { start: 7, end: 8 })])).unwrap_err();
    assert_eq!(mismatch(&d), (Span { start: 7, end: 8 }, "a Path literal".to_string(), "expression".to_string()));
    let d = trace_path(&call(vec![path("a"), path("b")])).unwrap_err();
    assert_eq!(d.entries[0].payload, DiagnosticPayload::Arity { expected: 1, found: 2 });
}

fn string(text: &str) -> CallArgument {
    CallArgument::Str(Spanned { value: text.to_string(), span: ARG })
}

fn fixture_tree(args: Vec<CallArgument>) -> CallArgument {
    CallArgument::Call(LiteralCall { span: CALL, callee: "fixture_tree".to_string(), callee_span: CALL, args, named_args: false })
}

#[test]
fn wire_arguments_are_closed_scalar_literals() {
    assert_eq!(wire_argument_literal(&number("42")).unwrap(), WireArg::Int(42));
    assert_eq!(wire_argument_literal(&CallArgument::Bool(true, ARG)).unwrap(), WireArg::Bool(true));
    assert_eq!(wire_argument_literal(&fixture_tree(vec![string("demo")])).unwrap(), WireArg::FixtureTree("demo".to_string()));

    let d = wire_argument_literal(&number("1x")).unwrap_err();
    assert_eq!(mismatch(&d), (ARG, "Int".to_string(), "number literal `1x`".to_string()));
    let d = wire_argument_literal(&fixture_tree(vec![number("1")])).unwrap_err();
    assert_eq!(mismatch(&d), (ARG, "a fixture_tree string literal".to_string(), "expression".to_string()));
    let d = wire_argument_literal(&fixture_tree(vec![])).unwrap_err();
    assert_eq!(d.entries[0].payload, DiagnosticPayload::Arity { expected: 1, found: 0 });
    let other_call = CallArgument::Call(LiteralCall { span: CALL, callee: "f".to_string(), callee_span: CALL, args: vec![], named_args: false });
    let d = wire_argument_literal(&other_call).unwrap_err();
    assert_eq!(d.entries[0].code, DiagnosticCode::UnsupportedExpression);
    assert_eq!(d.entries[0].primary, CALL);
    let d = wire_argument_literal(&string("s")).unwrap_err();
    assert_eq!(d.entries[0].message(), "a described-wire argument must be a closed scalar literal");
    assert_eq!(d.entries[0].primary, ARG);
}

const CALLEE: Span = Span { start: 0, end: 6 };

fn check(name: &str, args: Vec<CallArgument>) -> CallArgument {
    CallArgument::Call(LiteralCall { span: CALL, callee: name.to_string(), callee_span: CALLEE, args, named_args: false })
}

#[test]
fn trace_checks_are_read_from_their_literals() {
    assert_eq!(
        plan_check(&check("memo_hits_at_least", vec![number("4")])).unwrap(),
        CheckPlan::Trace(TraceCheck::Bound { kind: TraceBound::MemoHitsAtLeast, bound: 4 })
    );
    assert_eq!(
        plan_check(&check("fetched", vec![number("1")])).unwrap(),
        CheckPlan::Trace(TraceCheck::Bound { kind: TraceBound::Fetched, bound: 1 })
    );
    assert_eq!(plan_check(&check("overlapped", vec![])).unwrap(), CheckPlan::Trace(TraceCheck::Overlapped));
    assert_eq!(
        plan_check(&check("never_read", vec![path("a/b")])).unwrap(),
        CheckPlan::Trace(TraceCheck::NeverRead { path: "a/b".to_string() })
    );
    let d = plan_check(&check("overlapped", vec![number("1")])).unwrap_err();
    assert_eq!(d.entries[0].payload, DiagnosticPayload::Arity { expected: 0, found: 1 });
    let d = plan_check(&check("scheduler_requests_at_most", vec![path("x")])).unwrap_err();
    assert_eq!(mismatch(&d), (ARG, "an integer bound literal".to_string(), "expression".to_string()));
}

#[test]
fn other_checks_are_told_apart_for_lowering() {
    assert_eq!(plan_check(&check("expect_snapshot", vec![])).unwrap(), CheckPlan::Snapshot);
    assert_eq!(plan_check(&check("demanded_times", vec![])).unwrap(), CheckPlan::FunctionCalls);
    assert_eq!(plan_check(&check("demanded_once", vec![])).unwrap(), CheckPlan::DescribedWire(WireCheck::DemandedOnce));
    assert_eq!(plan_check(&check("expect_eq", vec![number("1"), number("1")])).unwrap(), CheckPlan::Value(ValueCheck::ExpectEq));
    let d = plan_check(&check("expect", vec![])).unwrap_err();
    assert_eq!(d.entries[0].payload, DiagnosticPayload::Arity { expected: 1, found: 0 });
    let d = plan_check(&check("expectt", vec![])).unwrap_err();
    assert_eq!(d.entries[0].code, DiagnosticCode::UnknownName);
    assert_eq!(d.entries[0].primary, CALLEE);
    let named = CallArgument::Call(LiteralCall { span: CALL, callee: "expect".to_string(), callee_span: CALLEE, args: vec![], named_args: true });
    let d = plan_check(&named).unwrap_err();
    assert_eq!(d.entries[0].message(), "named arguments on a check constructor");
    let d = plan_check(&number("1")).unwrap_err();
    assert_eq!(mismatch(&d), (ARG, "Check".to_string(), "expression".to_string()));
}
