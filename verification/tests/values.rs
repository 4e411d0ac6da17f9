use vix::compiler::LoweredValue;
use vix::diagnostic::{DiagnosticCode, DiagnosticPayload, Diagnostics};
use vix::lowering::{ControlRegion, Node, Op};
use vix::strmap::StrMap;
use vix::support::{Span, Spanned};
use vix::surface::{BinaryForm, CollectionKind, Expr, Literal, UnaryForm};
use vix::values::lower_value;
use vix::vir::{NodeId, Type};

fn at(start: u32, end: u32) -> Span {
    Span { start, end }
}

fn text(value: &str, start: u32) -> Spanned<String> {
    Spanned { value: value.to_string(), span: at(start, start + value.len() as u32) }
}

fn number(value: &str, start: u32) -> Expr {
    Expr::Literal(Literal::Number(text(value, start)))
}

fn boolean(value: bool, start: u32) -> Expr {
    Expr::Literal(Literal::Bool(Spanned { value, span: at(start, start + 4) }))
}

fn binary(op: &str, left: Expr, right: Expr) -> Expr {
    Expr::Binary(BinaryForm::Operator { span: at(0, 20), op: text(op, 10) }, Box::new(left), Box::new(right))
}

fn unary(op: &str, operand: Expr) -> Expr {
    Expr::Unary(UnaryForm::Operator { span: at(0, 9), op: text(op, 0) }, Box::new(operand))
}

fn no_bindings() -> StrMap<LoweredValue> {
    StrMap::new()
}

fn unsupported(d: &Diagnostics) -> (Span, String) {
    assert_eq!(d.entries.len(), 1);
    assert_eq!(d.entries[0].code, DiagnosticCode::UnsupportedExpression);
    match &d.entries[0].payload {
        DiagnosticPayload::Unsupported { construct } => (d.entries[0].primary, construct.clone()),
        other => panic!("unexpected payload {other:?}"),
    }
}

fn ops(nodes: &[Node]) -> Vec<Op> {
    nodes.iter().map(|n| n.op.clone()).collect()
}

#[test]
fn operands_are_lowered_before_their_operator() {
    let mut nodes = Vec::new();
    let v = lower_value(&mut nodes, &no_bindings(), &binary("+", number("1", 0), number("2", 14))).unwrap();
    assert_eq!(ops(&nodes), vec![Op::Int(1), Op::Int(2), Op::Add]);
    assert_eq!(v.node, NodeId(2));
    assert_eq!(v.ty, Type::Int);
    assert_eq!(nodes[2].inputs, vec![NodeId(0), NodeId(1)]);
    assert_eq!(nodes[2].span, at(0, 20));
}

#[test]
fn names_lower_to_their_bound_value() {
    let mut bindings = StrMap::new();
    bindings.insert("x".to_string(), LoweredValue { node: NodeId(0), ty: Type::Int });
    let mut nodes = Vec::new();
    let v = lower_value(&mut nodes, &bindings, &Expr::Identifier(text("x", 3))).unwrap();
    assert_eq!(v, LoweredValue { node: NodeId(0), ty: Type::Int });
    assert!(nodes.is_empty());
    let d = lower_value(&mut nodes, &bindings, &binary("*", Expr::Identifier(text("x", 3)), boolean(true, 14))).unwrap_err();
    assert_eq!(d.entries[0].code, DiagnosticCode::TypeMismatch);
    assert_eq!(d.entries[0].primary, at(14, 18));
}

#[test]
fn and_takes_the_right_operand_as_its_consequent() {
    let mut nodes = Vec::new();
    let v = lower_value(&mut nodes, &no_bindings(), &binary("&&", boolean(true, 0), boolean(false, 14))).unwrap();
    assert_eq!(v.node, NodeId(3));
    assert_eq!(v.ty, Type::Bool);
    assert_eq!(
        ops(&nodes),
        vec![
            Op::Bool(true),
            Op::Bool(false),
            Op::Bool(false),
            Op::If {
                consequent: ControlRegion { nodes: vec![NodeId(1)], output: NodeId(1) },
                alternative: ControlRegion { nodes: vec![NodeId(2)], output: NodeId(2) },
            },
        ]
    );
    assert_eq!(nodes[3].inputs, vec![NodeId(0)]);
}

#[test]
fn or_takes_the_right_operand_as_its_alternative() {
    let mut nodes = Vec::new();
    let right = unary("!", boolean(false, 14));
    let v = lower_value(&mut nodes, &no_bindings(), &binary("||", boolean(true, 0), right)).unwrap();
    assert_eq!(v.node, NodeId(5));
    assert_eq!(
        nodes[5].op,
        Op::If {
            consequent: ControlRegion { nodes: vec![NodeId(1)], output: NodeId(1) },
            alternative: ControlRegion { nodes: vec![NodeId(2), NodeId(3), NodeId(4)], output: NodeId(4) },
        }
    );
    assert_eq!(nodes[1].op, Op::Bool(true));
    assert_eq!(nodes[4].op, Op::Eq);
}

#[test]
fn a_short_circuit_needs_bool_operands() {
    let mut nodes = Vec::new();
    let d = lower_value(&mut nodes, &no_bindings(), &binary("&&", number("1", 0), boolean(true, 14))).unwrap_err();
    assert_eq!(d.entries[0].code, DiagnosticCode::TypeMismatch);
    assert_eq!(d.entries[0].primary, at(0, 1));
}

#[test]
fn unknown_operators_are_refused_at_the_operator() {
    let mut nodes = Vec::new();
    let d = lower_value(&mut nodes, &no_bindings(), &binary("%", number("1", 0), number("2", 14))).unwrap_err();
    assert_eq!(unsupported(&d), (at(10, 11), "binary operator `%`".to_string()));
    assert_eq!(nodes.len(), 2);
    let d = lower_value(&mut nodes, &no_bindings(), &unary("~", number("1", 2))).unwrap_err();
    assert_eq!(unsupported(&d), (at(0, 1), "unary operator `~`".to_string()));
    let d = lower_value(&mut nodes, &no_bindings(), &unary("-", boolean(true, 2))).unwrap_err();
    assert_eq!(unsupported(&d), (at(0, 1), "unary operator `-`".to_string()));
}

#[test]
fn literals_lower_to_constants_or_are_refused() {
    let mut nodes = Vec::new();
    let v = lower_value(&mut nodes, &no_bindings(), &unary("-", number("5", 1))).unwrap();
    assert_eq!(nodes[v.node.0 as usize].op, Op::Int(-5));
    let p = lower_value(&mut nodes, &no_bindings(), &Expr::Literal(Literal::Path(text("src/main.rs", 0)))).unwrap();
    assert_eq!(p.ty, Type::Path);
    assert_eq!(nodes[1].op, Op::Path("src/main.rs".to_string()));
    let s = lower_value(&mut nodes, &no_bindings(), &Expr::Unary(UnaryForm::Paren(at(0, 5)), Box::new(Expr::Literal(Literal::Str(text("hi", 1)))))).unwrap();
    assert_eq!(s.ty, Type::String);
    let d = lower_value(&mut nodes, &no_bindings(), &Expr::Literal(Literal::Path(text("/abs", 0)))).unwrap_err();
    assert_eq!(unsupported(&d).0, at(0, 4));
    let d = lower_value(&mut nodes, &no_bindings(), &Expr::Literal(Literal::Quantity(text("5s", 0)))).unwrap_err();
    assert_eq!(unsupported(&d), (at(0, 2), "unit-bearing literal outside an attribute".to_string()));
}

#[test]
fn a_tuple_collects_its_elements_in_order() {
    let mut nodes = Vec::new();
    let tuple = Expr::Collection(
        CollectionKind::TupleLiteral,
        at(0, 12),
        vec![number("1", 1), Expr::Literal(Literal::Str(text("a", 4))), boolean(true, 8)],
    );
    let v = lower_value(&mut nodes, &no_bindings(), &tuple).unwrap();
    assert_eq!(v.node, NodeId(3));
    assert_eq!(v.ty, Type::Tuple(vec![Type::Int, Type::String, Type::Bool]));
    assert_eq!(nodes[3].op, Op::Tuple);
    assert_eq!(nodes[3].inputs, vec![NodeId(0), NodeId(1), NodeId(2)]);
    assert_eq!(nodes[3].span, at(0, 12));
    let bad = Expr::Collection(CollectionKind::TupleLiteral, at(0, 9), vec![number("1", 1), Expr::Literal(Literal::Quantity(text("5s", 4)))]);
    let d = lower_value(&mut nodes, &no_bindings(), &bad).unwrap_err();
    assert_eq!(unsupported(&d), (at(4, 6), "unit-bearing literal outside an attribute".to_string()));
}

#[test]
fn an_array_takes_its_first_element_type() {
    let mut nodes = Vec::new();
    let array = Expr::Collection(CollectionKind::ArrayLiteral, at(0, 10), vec![number("1", 1), number("2", 4)]);
    let v = lower_value(&mut nodes, &no_bindings(), &array).unwrap();
    assert_eq!(v.ty, Type::Array(Box::new(Type::Int)));
    assert_eq!(nodes[2].op, Op::Array);
    assert_eq!(nodes[2].inputs, vec![NodeId(0), NodeId(1)]);
    let mixed = Expr::Collection(CollectionKind::ArrayLiteral, at(0, 12), vec![number("1", 1), boolean(true, 4)]);
    let d = lower_value(&mut nodes, &no_bindings(), &mixed).unwrap_err();
    assert_eq!(d.entries[0].code, DiagnosticCode::TypeMismatch);
    assert_eq!(d.entries[0].primary, at(4, 8));
    let empty = Expr::Collection(CollectionKind::ArrayLiteral, at(0, 2), vec![]);
    let d = lower_value(&mut nodes, &no_bindings(), &empty).unwrap_err();
    assert_eq!(unsupported(&d), (at(0, 2), "an empty array literal needs an expected element type".to_string()));
}
