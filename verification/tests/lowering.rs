use vix::compiler::LoweredValue;
use vix::diagnostic::{DiagnosticCode, DiagnosticPayload};
use vix::lowering::{lower_arithmetic, lower_division, lower_integer_literal, lower_negation, lower_not, push_node, ArithmeticOperator, EffectFacts, Node, Op};
use vix::support::Spanned;
use vix::vir::ExternKind;
use vix::support::Span;
use vix::vir::{NodeId, Type};

const SPAN: Span = Span { start: 0, end: 9 };
const LEFT: Span = Span { start: 0, end: 3 };
const RIGHT: Span = Span { start: 6, end: 9 };

fn value(node: u32, ty: Type) -> LoweredValue {
    LoweredValue { node: NodeId(node), ty }
}

fn operands() -> Vec<Node> {
    let mut nodes = Vec::new();
    push_node(&mut nodes, LEFT, Type::Int, EffectFacts::pure(), vec![], Op::Int(1));
    push_node(&mut nodes, RIGHT, Type::Int, EffectFacts::pure(), vec![], Op::Int(2));
    nodes
}

#[test]
fn nodes_are_numbered_by_position() {
    let nodes = operands();
    assert_eq!(nodes[0].id, NodeId(0));
    assert_eq!(nodes[1].id, NodeId(1));
    assert_eq!(nodes[1].op, Op::Int(2));
}

#[test]
fn integer_operators_build_one_pure_node() {
    let mut nodes = operands();
    let v = lower_arithmetic(&mut nodes, SPAN, ArithmeticOperator::Minus, value(0, Type::Int), LEFT, value(1, Type::Int), RIGHT).unwrap();
    assert_eq!(v.node, NodeId(2));
    assert_eq!(v.ty, Type::Int);
    assert_eq!(nodes.len(), 3);
    assert_eq!(nodes[2].op, Op::Sub);
    assert_eq!(nodes[2].inputs, vec![NodeId(0), NodeId(1)]);
    assert_eq!(nodes[2].effect, EffectFacts { effectful: false, fallible: false });
    assert_eq!(nodes[2].span, SPAN);
}

#[test]
fn collection_operators_follow_the_left_operand() {
    let mut nodes = operands();
    let ints = || Type::Array(Box::new(Type::Int));
    let v = lower_arithmetic(&mut nodes, SPAN, ArithmeticOperator::Plus, value(0, ints()), LEFT, value(1, Type::Int), RIGHT).unwrap();
    assert_eq!(v.ty, ints());
    assert_eq!(nodes[2].op, Op::ArrayAppend);
    let map = || Type::MapOf { key: Box::new(Type::String), value: Box::new(Type::Int) };
    let entry = Type::Tuple(vec![Type::String, Type::Int]);
    lower_arithmetic(&mut nodes, SPAN, ArithmeticOperator::Plus, value(0, map()), LEFT, value(1, entry), RIGHT).unwrap();
    assert_eq!(nodes[3].op, Op::MapAdd);
    assert!(nodes[3].effect.fallible);
    lower_arithmetic(&mut nodes, SPAN, ArithmeticOperator::Plus, value(0, Type::String), LEFT, value(1, Type::String), RIGHT).unwrap();
    assert_eq!(nodes[4].op, Op::StringConcat);
    lower_arithmetic(&mut nodes, SPAN, ArithmeticOperator::Concat, value(0, ints()), LEFT, value(1, ints()), RIGHT).unwrap();
    assert_eq!(nodes[5].op, Op::ArrayConcat);
}

#[test]
fn mismatched_operands_are_refused_without_a_node() {
    let mut nodes = operands();
    let d = lower_arithmetic(&mut nodes, SPAN, ArithmeticOperator::Plus, value(0, Type::Bool), LEFT, value(1, Type::Int), RIGHT).unwrap_err();
    assert_eq!(d.entries[0].primary, LEFT);
    assert_eq!(d.entries[0].payload, DiagnosticPayload::Type { expected: "Int or collection value".to_string(), found: "Bool".to_string() });
    let map = Type::MapOf { key: Box::new(Type::String), value: Box::new(Type::Int) };
    let d = lower_arithmetic(&mut nodes, SPAN, ArithmeticOperator::Plus, value(0, map), LEFT, value(1, Type::Int), RIGHT).unwrap_err();
    assert_eq!(d.entries[0].primary, RIGHT);
    assert_eq!(d.entries[0].payload, DiagnosticPayload::Type { expected: "(String, Int)".to_string(), found: "Int".to_string() });
    let paths = Type::Array(Box::new(Type::Path));
    let d = lower_arithmetic(&mut nodes, SPAN, ArithmeticOperator::Plus, value(0, paths), LEFT, value(1, Type::String), RIGHT).unwrap_err();
    assert_eq!(d.entries[0].code, DiagnosticCode::StringIsNotPath);
    let d = lower_arithmetic(&mut nodes, SPAN, ArithmeticOperator::Concat, value(0, Type::Int), LEFT, value(1, Type::Int), RIGHT).unwrap_err();
    assert_eq!(d.entries[0].message(), "expected collection value, found Int");
    let d = lower_arithmetic(&mut nodes, SPAN, ArithmeticOperator::Times, value(0, Type::Int), LEFT, value(1, Type::String), RIGHT).unwrap_err();
    assert_eq!(d.entries[0].primary, RIGHT);
    assert_eq!(nodes.len(), 2);
}

fn unsupported_construct(d: &vix::diagnostic::Diagnostics) -> (DiagnosticCode, Span, String) {
    assert_eq!(d.entries.len(), 1);
    match &d.entries[0].payload {
        DiagnosticPayload::Unsupported { construct } => (d.entries[0].code, d.entries[0].primary, construct.clone()),
        other => panic!("not an unsupported diagnostic: {other:?}"),
    }
}

#[test]
fn integer_division_builds_a_div_node() {
    let mut nodes = operands();
    let v = lower_division(&mut nodes, SPAN, None, value(0, Type::Int), LEFT, value(1, Type::Int), RIGHT, None).unwrap();
    assert_eq!(v.node, NodeId(2));
    assert_eq!(v.ty, Type::Int);
    assert_eq!(nodes[2].op, Op::Div);
    assert_eq!(nodes[2].inputs, vec![NodeId(0), NodeId(1)]);
    let mut nodes = operands();
    let d = lower_division(&mut nodes, SPAN, None, value(0, Type::Bool), LEFT, value(1, Type::Int), RIGHT, None).unwrap_err();
    assert_eq!(d.entries[0].code, DiagnosticCode::TypeMismatch);
    assert_eq!(d.entries[0].primary, LEFT);
    assert_eq!(nodes.len(), 2);
}

#[test]
fn a_path_joins_one_literal_segment() {
    let mut nodes = Vec::new();
    push_node(&mut nodes, LEFT, Type::Path, EffectFacts::pure(), vec![], Op::Path("src".to_string()));
    push_node(&mut nodes, RIGHT, Type::String, EffectFacts::pure(), vec![], Op::String("main.rs".to_string()));
    let segment = Spanned { value: "main.rs".to_string(), span: RIGHT };
    let v = lower_division(&mut nodes, SPAN, None, value(0, Type::Path), LEFT, value(1, Type::String), RIGHT, Some(segment)).unwrap();
    assert_eq!(v.node, NodeId(3));
    assert_eq!(v.ty, Type::Path);
    assert_eq!(nodes.len(), 4);
    assert_eq!(nodes[2].op, Op::Path("main.rs".to_string()));
    assert_eq!(nodes[2].span, RIGHT);
    assert_eq!(nodes[3].op, Op::PathJoin);
    assert_eq!(nodes[3].inputs, vec![NodeId(0), NodeId(2)]);

    let d = lower_division(&mut nodes, SPAN, None, value(0, Type::Path), LEFT, value(1, Type::String), RIGHT, None).unwrap_err();
    assert_eq!(unsupported_construct(&d), (DiagnosticCode::UnsupportedExpression, RIGHT, "dynamic Path segments".to_string()));
    let bad = Spanned { value: "a/b".to_string(), span: RIGHT };
    let d = lower_division(&mut nodes, SPAN, None, value(0, Type::Path), LEFT, value(1, Type::String), RIGHT, Some(bad)).unwrap_err();
    assert_eq!(d.entries[0].code, DiagnosticCode::UnsupportedExpression);
    assert_eq!(nodes.len(), 4);
}

#[test]
fn a_host_value_projects_through_a_literal_name() {
    let tree = Type::Extern(ExternKind::Host("Tree"));
    let entry = Type::Extern(ExternKind::Host("TreeEntry"));
    let mut nodes = Vec::new();
    push_node(&mut nodes, LEFT, Type::Extern(ExternKind::Host("Tree")), EffectFacts::pure(), vec![], Op::Int(0));
    push_node(&mut nodes, RIGHT, Type::String, EffectFacts::pure(), vec![], Op::String("lib".to_string()));
    let v = lower_division(&mut nodes, SPAN, Some(Type::Extern(ExternKind::Host("TreeEntry"))), value(0, tree), LEFT,
        value(1, Type::String), RIGHT, None).unwrap();
    assert_eq!(v.ty, entry);
    assert_eq!(nodes[2].op, Op::TreeProject);
    assert_eq!(nodes[2].effect, EffectFacts { effectful: true, fallible: false });
    assert_eq!(nodes[2].inputs, vec![NodeId(0), NodeId(1)]);
    // A name computed at run time is refused.
    push_node(&mut nodes, RIGHT, Type::String, EffectFacts::pure(), vec![], Op::StringConcat);
    let d = lower_division(&mut nodes, SPAN, Some(Type::Extern(ExternKind::Host("TreeEntry"))),
        value(0, Type::Extern(ExternKind::Host("Tree"))), LEFT, value(3, Type::String), RIGHT, None).unwrap_err();
    assert_eq!(unsupported_construct(&d), (DiagnosticCode::UnsupportedExpression, RIGHT, "dynamic tree Name segments".to_string()));
}

#[test]
fn number_literals_become_int_constants() {
    let mut nodes = Vec::new();
    let v = lower_integer_literal(&mut nodes, SPAN, "+42").unwrap();
    assert_eq!(v.node, NodeId(0));
    assert_eq!(v.ty, Type::Int);
    assert_eq!(nodes[0].op, Op::Int(42));
    let d = lower_integer_literal(&mut nodes, SPAN, "9223372036854775808").unwrap_err();
    assert_eq!(d.entries[0].code, DiagnosticCode::TypeMismatch);
    match &d.entries[0].payload {
        DiagnosticPayload::Type { expected, found } => {
            assert_eq!(expected, "Int");
            assert_eq!(found, "number literal `9223372036854775808`");
        }
        other => panic!("unexpected payload {other:?}"),
    }
    assert_eq!(nodes.len(), 1);
}

#[test]
fn only_number_literals_negate() {
    let mut nodes = Vec::new();
    let v = lower_negation(&mut nodes, SPAN, LEFT, Some("9223372036854775808")).unwrap();
    assert_eq!(nodes[v.node.0 as usize].op, Op::Int(i64::MIN));
    assert_eq!(nodes[0].span, SPAN);
    let d = lower_negation(&mut nodes, SPAN, LEFT, None).unwrap_err();
    assert_eq!(unsupported_construct(&d), (DiagnosticCode::UnsupportedExpression, LEFT, "unary operator `-`".to_string()));
    assert_eq!(nodes.len(), 1);
}

#[test]
fn not_compares_a_bool_with_false() {
    let mut nodes = Vec::new();
    push_node(&mut nodes, RIGHT, Type::Bool, EffectFacts::pure(), vec![], Op::Bool(true));
    let v = lower_not(&mut nodes, SPAN, LEFT, value(0, Type::Bool), RIGHT).unwrap();
    assert_eq!(v.node, NodeId(2));
    assert_eq!(v.ty, Type::Bool);
    assert_eq!(nodes[1].op, Op::Bool(false));
    assert_eq!(nodes[1].span, LEFT);
    assert_eq!(nodes[2].op, Op::Eq);
    assert_eq!(nodes[2].inputs, vec![NodeId(0), NodeId(1)]);
    let d = lower_not(&mut nodes, SPAN, LEFT, value(0, Type::Int), RIGHT).unwrap_err();
    assert_eq!(d.entries[0].code, DiagnosticCode::TypeMismatch);
    assert_eq!(d.entries[0].primary, RIGHT);
    assert_eq!(nodes.len(), 3);
}
