//! The IR node graph and the lowering of operators and literals into it.
//! Each lowered value is a node: its type, its effect facts, the nodes it
//! takes as inputs, and its operation. A node's id is its index in its
//! function's node list.
//!
//! `+` adds integers, appends an element to an array or a set, adds a
//! `(key, value)` entry to a map, and concatenates strings; `++`
//! concatenates two arrays, maps or sets of one type; `-` and `*` take
//! integers. Adding to a map may fail (a key bound twice), and its node says
//! so; every other such node is pure. `/` projects a host value (a tree)
//! through a literal name or a path, joins a path with one literal segment,
//! or divides integers. `!` compares a `Bool` with `false`, and `-` negates
//! only a number literal.

use vstd::prelude::*;
use crate::support::Span;
use crate::vir::{NodeId, Type, type_eq, types_eq, spelling, tuple_names};
use crate::compiler::{LoweredValue, is_mismatch_coded, is_unsupported, require_type, type_mismatch,
    validate_path_segment, segment_ok, bad_segment_message, integer_literal, int_literal, is_type_mismatch};
use crate::diagnostic::{Diagnostic, DiagnosticCode, Diagnostics};
use crate::support::Spanned;
use crate::text::{owned, push_str};

verus! {

/// What evaluating a node may do besides computing its value.
#[derive(Clone, Copy, Debug, PartialEq, Eq, Structural)]
pub struct EffectFacts {
    /// It performs an effect.
    pub effectful: bool,
    /// It may fail.
    pub fallible: bool,
}

impl EffectFacts {
    /// Neither effectful nor fallible.
    pub fn pure() -> (e: EffectFacts)
        ensures
            e == (EffectFacts { effectful: false, fallible: false }),
    {
        EffectFacts { effectful: false, fallible: false }
    }
}

/// A control region: the nodes evaluated only when the region is taken,
/// and the node whose value it yields.
#[derive(Clone, Debug, PartialEq, Eq)]
pub struct ControlRegion {
    pub nodes: Vec<NodeId>,
    pub output: NodeId,
}

/// The operation of a node.
#[derive(Clone, Debug, PartialEq, Eq)]
pub enum Op {
    Int(i64),
    Bool(bool),
    String(String),
    Path(String),
    Add,
    Sub,
    Mul,
    Div,
    StringConcat,
    ArrayAppend,
    ArrayConcat,
    MapAdd,
    MapConcat,
    SetAdd,
    SetConcat,
    PathJoin,
    TreeProject,
    Eq,
    /// The tuple of the inputs, in order.
    Tuple,
    /// The array of the inputs, in order.
    Array,
    /// Choose by the condition input: the consequent region when it is
    /// true, the alternative when it is false.
    If { consequent: ControlRegion, alternative: ControlRegion },
}

/// One node of a lowered function.
#[derive(Debug, PartialEq, Eq)]
pub struct Node {
    pub id: NodeId,
    pub span: Span,
    pub ty: Type,
    pub effect: EffectFacts,
    pub inputs: Vec<NodeId>,
    pub op: Op,
}

/// Append a node to `nodes`; its id is its index.
pub fn push_node(nodes: &mut Vec<Node>, span: Span, ty: Type, effect: EffectFacts, inputs: Vec<NodeId>, op: Op)
    -> (id: NodeId)
    ensures
        id == NodeId(old(nodes)@.len() as u32),
        final(nodes)@ == old(nodes)@.push(Node { id, span, ty, effect, inputs, op }),
{
    #[verifier::truncate]
    let id = NodeId(nodes.len() as u32);
    nodes.push(Node { id, span, ty, effect, inputs, op });
    id
}

/// The arithmetic and collection operators.
#[derive(Clone, Copy, Debug, PartialEq, Eq, Structural)]
pub enum ArithmeticOperator {
    /// `+`
    Plus,
    /// `++`
    Concat,
    /// `-`
    Minus,
    /// `*`
    Times,
}

/// Why an operator refuses its operands: a type mismatch with its code, at a
/// span, expected and found.
pub type OperandFailure = (DiagnosticCode, Span, Seq<char>, Seq<char>);

/// A value of type `found` where `expected` is required, at `span`.
pub open spec fn require_outcome(found: Type, expected: Type, span: Span) -> Option<OperandFailure> {
    if type_eq(found, expected) {
        None
    } else {
        Some((if expected is Path && found is String { DiagnosticCode::StringIsNotPath } else { DiagnosticCode::TypeMismatch },
            span, spelling(expected), spelling(found)))
    }
}

/// The map entry `(key, value)` is required, at `span`.
pub open spec fn entry_outcome(found: Type, key: Type, value: Type, span: Span) -> Option<OperandFailure> {
    if found matches Type::Tuple(xs) && types_eq(xs@, seq![key, value]) {
        None
    } else {
        Some((DiagnosticCode::TypeMismatch, span, "("@ + tuple_names(seq![key, value]) + ")"@, spelling(found)))
    }
}

/// The node an operator builds, `(result type, operation)`, or why its
/// operands are refused: the left operand's type decides, then the right
/// operand must fit it.
pub open spec fn operator_outcome(op: ArithmeticOperator, lt: Type, lspan: Span, rt: Type, rspan: Span)
    -> Result<(Type, Op), OperandFailure>
{
    match op {
        ArithmeticOperator::Plus => match lt {
            Type::Int => match require_outcome(rt, Type::Int, rspan) {
                Some(f) => Err(f),
                None => Ok((Type::Int, Op::Add)),
            },
            Type::Array(e) => match require_outcome(rt, *e, rspan) {
                Some(f) => Err(f),
                None => Ok((lt, Op::ArrayAppend)),
            },
            Type::String => match require_outcome(rt, Type::String, rspan) {
                Some(f) => Err(f),
                None => Ok((Type::String, Op::StringConcat)),
            },
            Type::MapOf { key, value } => match entry_outcome(rt, *key, *value, rspan) {
                Some(f) => Err(f),
                None => Ok((lt, Op::MapAdd)),
            },
            Type::SetOf(e) => match require_outcome(rt, *e, rspan) {
                Some(f) => Err(f),
                None => Ok((lt, Op::SetAdd)),
            },
            _ => Err((DiagnosticCode::TypeMismatch, lspan, "Int or collection value"@, spelling(lt))),
        },
        ArithmeticOperator::Concat => match lt {
            Type::Array(_) => match require_outcome(rt, lt, rspan) {
                Some(f) => Err(f),
                None => Ok((lt, Op::ArrayConcat)),
            },
            Type::MapOf { .. } => match require_outcome(rt, lt, rspan) {
                Some(f) => Err(f),
                None => Ok((lt, Op::MapConcat)),
            },
            Type::SetOf(_) => match require_outcome(rt, lt, rspan) {
                Some(f) => Err(f),
                None => Ok((lt, Op::SetConcat)),
            },
            _ => Err((DiagnosticCode::TypeMismatch, lspan, "collection value"@, spelling(lt))),
        },
        ArithmeticOperator::Minus | ArithmeticOperator::Times => match require_outcome(lt, Type::Int, lspan) {
            Some(f) => Err(f),
            None => match require_outcome(rt, Type::Int, rspan) {
                Some(f) => Err(f),
                None => Ok((Type::Int, if op == ArithmeticOperator::Minus { Op::Sub } else { Op::Mul })),
            },
        },
    }
}

/// On two integer operands the arithmetic operators build integer nodes of
/// three different operations: `+` adds, `-` subtracts and `*` multiplies,
/// whatever the operands' spans; no two of them build the same operation.
pub proof fn law_integer_operators_build_their_operation(lt: Type, lspan: Span, rt: Type, rspan: Span)
    requires
        lt is Int,
        rt is Int,
    ensures
        operator_outcome(ArithmeticOperator::Plus, lt, lspan, rt, rspan) == Ok::<(Type, Op), OperandFailure>((Type::Int, Op::Add)),
        operator_outcome(ArithmeticOperator::Minus, lt, lspan, rt, rspan) == Ok::<(Type, Op), OperandFailure>((Type::Int, Op::Sub)),
        operator_outcome(ArithmeticOperator::Times, lt, lspan, rt, rspan) == Ok::<(Type, Op), OperandFailure>((Type::Int, Op::Mul)),
        Op::Add != Op::Sub && Op::Sub != Op::Mul && Op::Add != Op::Mul,
{
}

/// On collections `+` adds one element and `++` joins two collections of
/// the same type: an array plus an element of its element type appends it,
/// a set plus an element adds it, a map plus a `(key, value)` entry adds
/// it, and `++` of two arrays, sets or maps of one type concatenates them,
/// each node typed as the left operand; a string plus a string
/// concatenates the strings.
pub proof fn law_collection_operators_build_their_operation(lt: Type, lspan: Span, rt: Type, rspan: Span)
    ensures
        lt matches Type::Array(e) && type_eq(rt, *e) ==> operator_outcome(ArithmeticOperator::Plus, lt, lspan, rt, rspan)
            == Ok::<(Type, Op), OperandFailure>((lt, Op::ArrayAppend)),
        lt matches Type::SetOf(e) && type_eq(rt, *e) ==> operator_outcome(ArithmeticOperator::Plus, lt, lspan, rt, rspan)
            == Ok::<(Type, Op), OperandFailure>((lt, Op::SetAdd)),
        lt matches Type::MapOf { key, value } && rt matches Type::Tuple(xs) && types_eq(xs@, seq![*key, *value])
            ==> operator_outcome(ArithmeticOperator::Plus, lt, lspan, rt, rspan)
            == Ok::<(Type, Op), OperandFailure>((lt, Op::MapAdd)),
        lt is Array && type_eq(rt, lt) ==> operator_outcome(ArithmeticOperator::Concat, lt, lspan, rt, rspan)
            == Ok::<(Type, Op), OperandFailure>((lt, Op::ArrayConcat)),
        lt is SetOf && type_eq(rt, lt) ==> operator_outcome(ArithmeticOperator::Concat, lt, lspan, rt, rspan)
            == Ok::<(Type, Op), OperandFailure>((lt, Op::SetConcat)),
        lt is MapOf && type_eq(rt, lt) ==> operator_outcome(ArithmeticOperator::Concat, lt, lspan, rt, rspan)
            == Ok::<(Type, Op), OperandFailure>((lt, Op::MapConcat)),
        lt is String && rt is String ==> operator_outcome(ArithmeticOperator::Plus, lt, lspan, rt, rspan)
            == Ok::<(Type, Op), OperandFailure>((Type::String, Op::StringConcat)),
{
}

/// The effect facts of an operation: adding to or concatenating maps may
/// fail.
pub open spec fn operation_effect(op: Op) -> EffectFacts {
    EffectFacts { effectful: false, fallible: op == Op::MapAdd || op == Op::MapConcat }
}

/// `d` is the diagnostic that reports `f`.
pub open spec fn reports_operand(d: Diagnostics, f: OperandFailure) -> bool {
    is_mismatch_coded(d, f.0, f.1, f.2, f.3)
}

/// Is the right operand the entry `(key, value)` of a map?
fn is_entry(found: &Type, key: &Type, value: &Type) -> (r: bool)
    ensures
        r == (found matches Type::Tuple(xs) && types_eq(xs@, seq![*key, *value])),
{
    match found {
        Type::Tuple(xs) => {
            if xs.len() != 2 {
                return false;
            }
            let r = xs[0].same(key) && xs[1].same(value);
            assert(r == types_eq(xs@, seq![*key, *value]));
            r
        },
        _ => false,
    }
}

/// Require the map entry `(key, value)`.
fn require_entry(right: &LoweredValue, key: &Type, value: &Type, span: Span) -> (r: Result<(), Diagnostics>)
    ensures
        match entry_outcome(right.ty, *key, *value, span) {
            None => r is Ok,
            Some(f) => r matches Err(d) && reports_operand(d, f),
        },
{
    if is_entry(&right.ty, key, value) {
        return Ok(());
    }
    let mut expected = owned("(");
    push_str(&mut expected, key.name().as_str());
    push_str(&mut expected, ", ");
    push_str(&mut expected, value.name().as_str());
    push_str(&mut expected, ")");
    proof {
        let s = seq![*key, *value];
        assert(s.drop_last() =~= seq![*key]);
        assert(tuple_names(s.drop_last()) == spelling(*key));
        assert(tuple_names(s) == spelling(*key) + ", "@ + spelling(*value));
        assert(expected@ =~= "("@ + tuple_names(s) + ")"@);
    }
    let found = right.ty.name();
    Err(type_mismatch(span, expected.as_str(), found.as_str()))
}

/// Lower an arithmetic or collection operator over its lowered operands
/// (`left` at `left_span`, `right` at `right_span`): the operator's node,
/// pushed onto `nodes` with both operands as inputs, or the mismatch that
/// refuses them, with `nodes` unchanged.
pub fn lower_arithmetic(nodes: &mut Vec<Node>, span: Span, op: ArithmeticOperator, left: LoweredValue, left_span: Span,
    right: LoweredValue, right_span: Span) -> (r: Result<LoweredValue, Diagnostics>)
    ensures
        match operator_outcome(op, left.ty, left_span, right.ty, right_span) {
            Ok((t, o)) => r matches Ok(v) && {
                let id = NodeId(old(nodes)@.len() as u32);
                &&& v.node == id
                &&& type_eq(v.ty, t)
                &&& final(nodes)@.len() == old(nodes)@.len() + 1
                &&& final(nodes)@.drop_last() == old(nodes)@
                &&& final(nodes)@.last().id == id
                &&& final(nodes)@.last().span == span
                &&& type_eq(final(nodes)@.last().ty, t)
                &&& final(nodes)@.last().effect == operation_effect(o)
                &&& final(nodes)@.last().inputs@ == seq![left.node, right.node]
                &&& final(nodes)@.last().op == o
            },
            Err(f) => r matches Err(d) && reports_operand(d, f) && final(nodes)@ == old(nodes)@,
        },
{
    let (ty, result_ty, operation): (Type, Type, Op) = match op {
        ArithmeticOperator::Plus => match &left.ty {
            Type::Int => {
                match require_type(&right, &Type::Int, right_span) {
                    Ok(()) => {},
                    Err(d) => return Err(d),
                }
                (Type::Int, Type::Int, Op::Add)
            },
            Type::Array(element) => {
                match require_type(&right, element, right_span) {
                    Ok(()) => {},
                    Err(d) => return Err(d),
                }
                (left.ty.copy(), left.ty.copy(), Op::ArrayAppend)
            },
            Type::String => {
                match require_type(&right, &Type::String, right_span) {
                    Ok(()) => {},
                    Err(d) => return Err(d),
                }
                (Type::String, Type::String, Op::StringConcat)
            },
            Type::MapOf { key, value } => {
                match require_entry(&right, key, value, right_span) {
                    Ok(()) => {},
                    Err(d) => return Err(d),
                }
                (left.ty.copy(), left.ty.copy(), Op::MapAdd)
            },
            Type::SetOf(element) => {
                match require_type(&right, element, right_span) {
                    Ok(()) => {},
                    Err(d) => return Err(d),
                }
                (left.ty.copy(), left.ty.copy(), Op::SetAdd)
            },
            _ => return Err(type_mismatch(left_span, "Int or collection value", left.ty.name().as_str())),
        },
        ArithmeticOperator::Concat => {
            let operation = match &left.ty {
                Type::Array(_) => Op::ArrayConcat,
                Type::MapOf { .. } => Op::MapConcat,
                Type::SetOf(_) => Op::SetConcat,
                _ => return Err(type_mismatch(left_span, "collection value", left.ty.name().as_str())),
            };
            match require_type(&right, &left.ty, right_span) {
                Ok(()) => {},
                Err(d) => return Err(d),
            }
            (left.ty.copy(), left.ty.copy(), operation)
        },
        ArithmeticOperator::Minus | ArithmeticOperator::Times => {
            match require_type(&left, &Type::Int, left_span) {
                Ok(()) => {},
                Err(d) => return Err(d),
            }
            match require_type(&right, &Type::Int, right_span) {
                Ok(()) => {},
                Err(d) => return Err(d),
            }
            (Type::Int, Type::Int, match op {
                ArithmeticOperator::Minus => Op::Sub,
                _ => Op::Mul,
            })
        },
    };
    let fallible = match operation {
        Op::MapAdd | Op::MapConcat => true,
        _ => false,
    };
    let effect = EffectFacts { effectful: false, fallible };
    let mut inputs: Vec<NodeId> = Vec::new();
    inputs.push(left.node);
    inputs.push(right.node);
    assert(inputs@ =~= seq![left.node, right.node]);
    let node = push_node(nodes, span, ty, effect, inputs, operation);
    Ok(LoweredValue { node, ty: result_ty })
}

/// What a projection of a host value performs: an effect that cannot fail.
pub open spec fn projection_effect() -> EffectFacts {
    EffectFacts { effectful: true, fallible: false }
}

/// Why `/` refuses its operands: an unsupported construct at a span, or a
/// type mismatch.
pub enum DivisionFailure {
    Unsupported(Span, Seq<char>),
    Mismatch(OperandFailure),
}

/// What `/` pushes: one node, or a path segment node and the join.
pub enum DivisionPlan {
    /// One node: its type, effect, inputs and operation.
    One(Type, EffectFacts, Seq<NodeId>, Op),
    /// `path / "segment"`: the segment's text and span.
    Join(Seq<char>, Span),
}

/// The index of the first node of `nodes` with id `id`, from the `i`-th on.
pub open spec fn first_with_id(nodes: Seq<Node>, id: NodeId, i: int) -> Option<int>
    decreases nodes.len() - i,
{
    if i < 0 || i >= nodes.len() {
        None
    } else if nodes[i].id == id {
        Some(i)
    } else {
        first_with_id(nodes, id, i + 1)
    }
}

/// The string literal that node `id` computes, by the first node with that
/// id, if it is a string literal.
pub open spec fn literal_of(nodes: Seq<Node>, id: NodeId) -> Option<Seq<char>> {
    match first_with_id(nodes, id, 0) {
        Some(k) => match nodes[k].op {
            Op::String(t) => Some(t@),
            _ => None,
        },
        None => None,
    }
}

/// The outcome of `left / right`: with `projection` the type a host value of
/// the left type projects to (when it does), `segment` the right operand
/// when it is written as a string literal, and `nodes` the nodes so far.
/// A host value projects through a literal name segment or a path; a path
/// joins one literal segment; anything else divides integers.
pub open spec fn division_outcome(nodes: Seq<Node>, projection: Option<Type>, left: LoweredValue, left_span: Span,
    right: LoweredValue, right_span: Span, segment: Option<Spanned<String>>) -> Result<DivisionPlan, DivisionFailure>
{
    match projection {
        Some(pt) => {
            if right.ty is String {
                match literal_of(nodes, right.node) {
                    None => Err(DivisionFailure::Unsupported(right_span, "dynamic tree Name segments"@)),
                    Some(t) => if !segment_ok(t) {
                        Err(DivisionFailure::Unsupported(right_span, bad_segment_message()))
                    } else {
                        Ok(DivisionPlan::One(pt, projection_effect(), seq![left.node, right.node], Op::TreeProject))
                    },
                }
            } else if right.ty is Path {
                Ok(DivisionPlan::One(pt, projection_effect(), seq![left.node, right.node], Op::TreeProject))
            } else {
                Err(DivisionFailure::Mismatch((DiagnosticCode::TypeMismatch, right_span,
                    "a Name segment literal or Path"@, spelling(right.ty))))
            }
        },
        None => if left.ty is Path {
            match segment {
                None => Err(DivisionFailure::Unsupported(right_span, "dynamic Path segments"@)),
                Some(seg) => match require_outcome(right.ty, Type::String, seg.span) {
                    Some(f) => Err(DivisionFailure::Mismatch(f)),
                    None => if !segment_ok(seg.value@) {
                        Err(DivisionFailure::Unsupported(seg.span, bad_segment_message()))
                    } else {
                        Ok(DivisionPlan::Join(seg.value@, seg.span))
                    },
                },
            }
        } else {
            match require_outcome(left.ty, Type::Int, left_span) {
                Some(f) => Err(DivisionFailure::Mismatch(f)),
                None => match require_outcome(right.ty, Type::Int, right_span) {
                    Some(f) => Err(DivisionFailure::Mismatch(f)),
                    None => Ok(DivisionPlan::One(Type::Int, EffectFacts { effectful: false, fallible: false },
                        seq![left.node, right.node], Op::Div)),
                },
            }
        },
    }
}

/// `d` is the diagnostic that reports `f`.
pub open spec fn reports_division(d: Diagnostics, f: DivisionFailure) -> bool {
    match f {
        DivisionFailure::Unsupported(span, construct) => is_unsupported(d, span, construct),
        DivisionFailure::Mismatch(m) => reports_operand(d, m),
    }
}

/// `n` is the node `id` at `span` of type `t` with these facts.
pub open spec fn node_is(n: Node, id: NodeId, span: Span, t: Type, effect: EffectFacts, inputs: Seq<NodeId>, op: Op) -> bool {
    &&& n.id == id
    &&& n.span == span
    &&& type_eq(n.ty, t)
    &&& n.effect == effect
    &&& n.inputs@ == inputs
    &&& n.op == op
}

/// The first node with id `id`, if any.
fn find_node(nodes: &Vec<Node>, id: NodeId) -> (r: Option<usize>)
    ensures
        match r {
            Some(k) => k < nodes@.len() && first_with_id(nodes@, id, 0) == Some(k as int),
            None => first_with_id(nodes@, id, 0) is None,
        },
{
    let mut i: usize = 0;
    while i < nodes.len()
        invariant
            i <= nodes@.len(),
            first_with_id(nodes@, id, 0) == first_with_id(nodes@, id, i as int),
        decreases nodes@.len() - i,
    {
        if nodes[i].id.0 == id.0 {
            assert(nodes@[i as int].id == id);
            assert(first_with_id(nodes@, id, i as int) == Some(i as int));
            return Some(i);
        }
        i = i + 1;
    }
    None
}

/// An unsupported-expression failure.
fn unsupported_at(span: Span, construct: &str) -> (d: Diagnostics)
    ensures
        is_unsupported(d, span, construct@),
{
    Diagnostics::one(Diagnostic::unsupported(span, construct))
}

/// Lower `left / right` over its lowered operands: a host value's
/// projection (`projection` is the type the left operand's host type
/// projects to, if it does), a path joined with one literal segment
/// (`segment` is the right operand when it is written as a string literal),
/// or integer division; or the refusal, with `nodes` unchanged.
pub fn lower_division(nodes: &mut Vec<Node>, span: Span, projection: Option<Type>, left: LoweredValue, left_span: Span,
    right: LoweredValue, right_span: Span, segment: Option<Spanned<String>>) -> (r: Result<LoweredValue, Diagnostics>)
    ensures
        match division_outcome(old(nodes)@, projection, left, left_span, right, right_span, segment) {
            Ok(DivisionPlan::One(t, effect, inputs, op)) => r matches Ok(v) && {
                let id = NodeId(old(nodes)@.len() as u32);
                &&& v.node == id
                &&& type_eq(v.ty, t)
                &&& final(nodes)@.len() == old(nodes)@.len() + 1
                &&& final(nodes)@.drop_last() == old(nodes)@
                &&& node_is(final(nodes)@.last(), id, span, t, effect, inputs, op)
            },
            Ok(DivisionPlan::Join(text, seg_span)) => r matches Ok(v) && {
                let suffix = NodeId(old(nodes)@.len() as u32);
                let joined = NodeId((old(nodes)@.len() + 1) as u32);
                &&& v.node == joined
                &&& v.ty is Path
                &&& final(nodes)@.len() == old(nodes)@.len() + 2
                &&& final(nodes)@.take(old(nodes)@.len() as int) == old(nodes)@
                &&& final(nodes)@[old(nodes)@.len() as int].op matches Op::Path(t) && t@ == text
                &&& node_is(final(nodes)@[old(nodes)@.len() as int], suffix, seg_span, Type::Path,
                    EffectFacts { effectful: false, fallible: false }, seq![], final(nodes)@[old(nodes)@.len() as int].op)
                &&& node_is(final(nodes)@.last(), joined, span, Type::Path,
                    EffectFacts { effectful: false, fallible: false }, seq![left.node, suffix], Op::PathJoin)
            },
            Err(f) => r matches Err(d) && reports_division(d, f) && final(nodes)@ == old(nodes)@,
        },
{
    match projection {
        Some(pt) => {
            match &right.ty {
                Type::String => {
                    let found = find_node(nodes, right.node);
                    let literal: Option<String> = match found {
                        Some(k) => {
                            match &nodes[k].op {
                                Op::String(t) => {
                                    assert(nodes@[k as int].op == Op::String(*t));
                                    Some(t.clone())
                                },
                                _ => None,
                            }
                        },
                        None => None,
                    };
                    assert(match literal {
                        Some(t) => literal_of(nodes@, right.node) == Some(t@),
                        None => literal_of(nodes@, right.node) is None,
                    });
                    match literal {
                        None => return Err(unsupported_at(right_span, "dynamic tree Name segments")),
                        Some(t) => {
                            match validate_path_segment(t.as_str(), right_span) {
                                Ok(()) => {},
                                Err(d) => return Err(d),
                            }
                        },
                    }
                },
                Type::Path => {},
                _ => return Err(type_mismatch(right_span, "a Name segment literal or Path", right.ty.name().as_str())),
            }
            let effect = EffectFacts { effectful: true, fallible: false };
            let mut inputs: Vec<NodeId> = Vec::new();
            inputs.push(left.node);
            inputs.push(right.node);
            assert(inputs@ =~= seq![left.node, right.node]);
            let ty = pt.copy();
            let node = push_node(nodes, span, ty, effect, inputs, Op::TreeProject);
            Ok(LoweredValue { node, ty: pt.copy() })
        },
        None => {
            if let Type::Path = &left.ty {
                let seg = match segment {
                    None => return Err(unsupported_at(right_span, "dynamic Path segments")),
                    Some(seg) => seg,
                };
                match require_type(&right, &Type::String, seg.span) {
                    Ok(()) => {},
                    Err(d) => return Err(d),
                }
                match validate_path_segment(seg.value.as_str(), seg.span) {
                    Ok(()) => {},
                    Err(d) => return Err(d),
                }
                let pure = EffectFacts::pure();
                let suffix = push_node(nodes, seg.span, Type::Path, pure, Vec::new(), Op::Path(seg.value));
                let mut inputs: Vec<NodeId> = Vec::new();
                inputs.push(left.node);
                inputs.push(suffix);
                assert(inputs@ =~= seq![left.node, suffix]);
                let ghost mid = nodes@;
                let joined = push_node(nodes, span, Type::Path, pure, inputs, Op::PathJoin);
                proof {
                    assert(nodes@.take(old(nodes)@.len() as int) =~= old(nodes)@);
                    assert(nodes@[old(nodes)@.len() as int] == mid.last());
                }
                return Ok(LoweredValue { node: joined, ty: Type::Path });
            }
            match require_type(&left, &Type::Int, left_span) {
                Ok(()) => {},
                Err(d) => return Err(d),
            }
            match require_type(&right, &Type::Int, right_span) {
                Ok(()) => {},
                Err(d) => return Err(d),
            }
            let mut inputs: Vec<NodeId> = Vec::new();
            inputs.push(left.node);
            inputs.push(right.node);
            assert(inputs@ =~= seq![left.node, right.node]);
            let node = push_node(nodes, span, Type::Int, EffectFacts::pure(), inputs, Op::Div);
            Ok(LoweredValue { node, ty: Type::Int })
        },
    }
}

/// Lower a number literal: an `Int` constant node, or the mismatch that
/// names a literal out of range or not a number, with `nodes` unchanged.
pub fn lower_integer_literal(nodes: &mut Vec<Node>, span: Span, literal: &str) -> (r: Result<LoweredValue, Diagnostics>)
    ensures
        match int_literal(literal@) {
            Some(v) => r matches Ok(lv) && {
                let id = NodeId(old(nodes)@.len() as u32);
                &&& lv.node == id
                &&& lv.ty is Int
                &&& final(nodes)@.len() == old(nodes)@.len() + 1
                &&& final(nodes)@.drop_last() == old(nodes)@
                &&& node_is(final(nodes)@.last(), id, span, Type::Int, EffectFacts { effectful: false, fallible: false },
                    seq![], Op::Int(v))
            },
            None => r matches Err(d) && is_type_mismatch(d, span, "Int"@, "number literal `"@ + literal@ + "`"@)
                && final(nodes)@ == old(nodes)@,
        },
{
    let value = match integer_literal(literal, span) {
        Ok(v) => v,
        Err(d) => return Err(d),
    };
    let node = push_node(nodes, span, Type::Int, EffectFacts::pure(), Vec::new(), Op::Int(value));
    proof { assert(final(nodes)@.last().inputs@ =~= Seq::<NodeId>::empty()); }
    Ok(LoweredValue { node, ty: Type::Int })
}

/// The text of the negated literal `-number`.
pub open spec fn negated(number: Seq<char>) -> Seq<char> {
    "-"@ + number
}

/// Lower `-operand`: only a number literal can be negated, and it is lowered
/// as the literal `-number` spanning the whole expression (`number` is the
/// operand's text when it is a number literal); any other operand is
/// refused at the operator.
pub fn lower_negation(nodes: &mut Vec<Node>, span: Span, op_span: Span, number: Option<&str>)
    -> (r: Result<LoweredValue, Diagnostics>)
    ensures
        match number {
            None => r matches Err(d) && is_unsupported(d, op_span, "unary operator `-`"@) && final(nodes)@ == old(nodes)@,
            Some(text) => match int_literal(negated(text@)) {
                Some(v) => r matches Ok(lv) && {
                    let id = NodeId(old(nodes)@.len() as u32);
                    &&& lv.node == id
                    &&& lv.ty is Int
                    &&& final(nodes)@.len() == old(nodes)@.len() + 1
                    &&& final(nodes)@.drop_last() == old(nodes)@
                    &&& node_is(final(nodes)@.last(), id, span, Type::Int,
                        EffectFacts { effectful: false, fallible: false }, seq![], Op::Int(v))
                },
                None => r matches Err(d) && is_type_mismatch(d, span, "Int"@, "number literal `"@ + negated(text@) + "`"@)
                    && final(nodes)@ == old(nodes)@,
            },
        },
{
    match number {
        None => Err(unsupported_at(op_span, "unary operator `-`")),
        Some(text) => {
            let mut literal = owned("-");
            push_str(&mut literal, text);
            proof { reveal_strlit("-"); }
            lower_integer_literal(nodes, span, literal.as_str())
        },
    }
}

/// Lower `!operand` over its lowered operand: the operand must be a `Bool`
/// (at `operand_span`), and the negation is the equality of the operand
/// with a `false` constant at the operator.
pub fn lower_not(nodes: &mut Vec<Node>, span: Span, op_span: Span, operand: LoweredValue, operand_span: Span)
    -> (r: Result<LoweredValue, Diagnostics>)
    ensures
        match require_outcome(operand.ty, Type::Bool, operand_span) {
            Some(f) => r matches Err(d) && reports_operand(d, f) && final(nodes)@ == old(nodes)@,
            None => r matches Ok(lv) && {
                let false_id = NodeId(old(nodes)@.len() as u32);
                let id = NodeId((old(nodes)@.len() + 1) as u32);
                &&& lv.node == id
                &&& lv.ty is Bool
                &&& final(nodes)@.len() == old(nodes)@.len() + 2
                &&& final(nodes)@.take(old(nodes)@.len() as int) == old(nodes)@
                &&& node_is(final(nodes)@[old(nodes)@.len() as int], false_id, op_span, Type::Bool,
                    EffectFacts { effectful: false, fallible: false }, seq![], Op::Bool(false))
                &&& node_is(final(nodes)@.last(), id, span, Type::Bool,
                    EffectFacts { effectful: false, fallible: false }, seq![operand.node, false_id], Op::Eq)
            },
        },
{
    match require_type(&operand, &Type::Bool, operand_span) {
        Ok(()) => {},
        Err(d) => return Err(d),
    }
    let false_node = push_node(nodes, op_span, Type::Bool, EffectFacts::pure(), Vec::new(), Op::Bool(false));
    let ghost mid = nodes@;
    let mut inputs: Vec<NodeId> = Vec::new();
    inputs.push(operand.node);
    inputs.push(false_node);
    assert(inputs@ =~= seq![operand.node, false_node]);
    let node = push_node(nodes, span, Type::Bool, EffectFacts::pure(), inputs, Op::Eq);
    proof {
        assert(nodes@.take(old(nodes)@.len() as int) =~= old(nodes)@);
        assert(nodes@[old(nodes)@.len() as int] == mid.last());
        assert(mid.last().inputs@ =~= Seq::<NodeId>::empty());
    }
    Ok(LoweredValue { node, ty: Type::Bool })
}

/// The ids of the nodes from the `start`-th on.
pub open spec fn region_ids(nodes: Seq<Node>, start: int) -> Seq<NodeId> {
    nodes.skip(start).map_values(|n: Node| n.id)
}

/// The control region of the nodes from the `start`-th on, yielding
/// `output`.
pub fn control_region(nodes: &Vec<Node>, start: usize, output: NodeId) -> (r: ControlRegion)
    requires
        start <= nodes@.len(),
    ensures
        r.nodes@ == region_ids(nodes@, start as int),
        r.output == output,
{
    let mut ids: Vec<NodeId> = Vec::new();
    let mut i: usize = start;
    while i < nodes.len()
        invariant
            start <= i <= nodes@.len(),
            ids@ == nodes@.subrange(start as int, i as int).map_values(|n: Node| n.id),
        decreases nodes@.len() - i,
    {
        ids.push(nodes[i].id);
        proof {
            assert(nodes@.subrange(start as int, i as int + 1) == nodes@.subrange(start as int, i as int).push(nodes@[i as int]));
            assert(ids@ =~= nodes@.subrange(start as int, i as int + 1).map_values(|n: Node| n.id));
        }
        i = i + 1;
    }
    assert(nodes@.subrange(start as int, nodes@.len() as int) =~= nodes@.skip(start as int));
    ControlRegion { nodes: ids, output }
}

/// `n` is the `If` node `id` at `span` choosing by `condition` between the
/// regions `consequent` (yielding `cons_out`) and `alternative` (yielding
/// `alt_out`).
pub open spec fn if_node_is(n: Node, id: NodeId, span: Span, condition: NodeId, consequent: Seq<NodeId>, cons_out: NodeId,
    alternative: Seq<NodeId>, alt_out: NodeId) -> bool
{
    &&& n.id == id
    &&& n.span == span
    &&& n.ty is Bool
    &&& n.effect == (EffectFacts { effectful: false, fallible: false })
    &&& n.inputs@ == seq![condition]
    &&& n.op is If
    &&& n.op->If_consequent.nodes@ == consequent
    &&& n.op->If_consequent.output == cons_out
    &&& n.op->If_alternative.nodes@ == alternative
    &&& n.op->If_alternative.output == alt_out
}

} // verus!
