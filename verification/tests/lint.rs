use vix::diagnostic::{DiagnosticCode, DiagnosticPayload, DiagnosticSeverity};
use vix::lint::{lint_module, LintFunction, LintNode, LintOp};
use vix::support::Span;
use vix::vir::{NodeId, Type};

fn node(id: u32, op: LintOp, ty: Type, inputs: &[u32]) -> LintNode {
    LintNode {
        id: NodeId(id),
        span: Span { start: id * 10, end: id * 10 + 5 },
        inputs: inputs.iter().map(|i| NodeId(*i)).collect(),
        op,
        ty,
    }
}

fn warnings(functions: &[LintFunction]) -> Vec<(u32, String)> {
    let d = lint_module(functions);
    d.entries
        .iter()
        .map(|e| {
            assert_eq!(e.code, DiagnosticCode::UnusedMustUse);
            assert_eq!(e.code.severity(), DiagnosticSeverity::Warning);
            assert!(e.labels.is_empty());
            match &e.payload {
                DiagnosticPayload::UnusedResult { operation } => (e.primary.start, operation.clone()),
                other => panic!("not an unused result: {other:?}"),
            }
        })
        .collect()
}

#[test]
fn unconsumed_updates_and_checks_warn_in_node_order() {
    let f = LintFunction {
        nodes: vec![
            node(1, LintOp::Other, Type::Int, &[]),
            node(2, LintOp::ArrayAppend, Type::Int, &[1]),
            node(3, LintOp::MapWith, Type::Int, &[]),
            node(4, LintOp::Other, Type::Check, &[]),
            node(5, LintOp::SetConcat, Type::Int, &[]),
        ],
        output: None,
        yielded_checks: vec![],
    };
    assert_eq!(
        warnings(&[f]),
        vec![(20, "+".to_string()), (30, "with".to_string()), (40, "Check".to_string()), (50, "++".to_string())]
    );
}

#[test]
fn consumed_results_do_not_warn() {
    let f = LintFunction {
        nodes: vec![
            node(1, LintOp::ArrayConcat, Type::Int, &[]),
            node(2, LintOp::MapAdd, Type::Int, &[1]),
            node(3, LintOp::Other, Type::Check, &[]),
            node(4, LintOp::SetAdd, Type::Int, &[]),
        ],
        output: Some(NodeId(2)),
        yielded_checks: vec![NodeId(3)],
    };
    assert_eq!(warnings(&[f]), vec![(40, "+".to_string())]);
    let message = lint_module(&[LintFunction {
        nodes: vec![node(7, LintOp::MapConcat, Type::Int, &[])],
        output: None,
        yielded_checks: vec![],
    }]);
    assert_eq!(message.entries[0].message(), "unused result of `++`");
}

#[test]
fn consumption_is_per_function() {
    let a = LintFunction { nodes: vec![node(1, LintOp::ArrayAppend, Type::Int, &[])], output: None, yielded_checks: vec![] };
    let b = LintFunction { nodes: vec![node(2, LintOp::Other, Type::Int, &[1])], output: None, yielded_checks: vec![] };
    assert_eq!(warnings(&[a, b]), vec![(10, "+".to_string())]);
    assert!(warnings(&[]).is_empty());
}
