//! The lowering of value expressions over the surface tree: literals, names
//! bound in scope, parentheses, tuples and arrays, the unary operators, the arithmetic
//! and collection operators and the short-circuit `&&` and `||`, each
//! operand lowered before the node that uses it. `&&` lowers its right
//! operand as the region taken when the left one is true, `||` as the region
//! taken when it is false.
//!
//! A number literal is an `Int` constant (out of range, a mismatch naming
//! the literal); a unit-bearing literal has meaning only inside an attribute
//! and is refused here; a path literal must be relative, with sound
//! segments. A name lowers to the value it is bound to, with no node. An
//! unknown unary or binary operator is refused at the operator, a binary
//! one after both operands are lowered.

use vstd::prelude::*;
use crate::support::{Span, Spanned};
use crate::strmap::StrMap;
use crate::vir::{NodeId, Type, type_eq, types_eq};
use crate::compiler::{LoweredValue, lookup_binding, int_literal, is_unsupported, path_literal_refusal, validate_path_literal};
use crate::diagnostic::{Diagnostic, DiagnosticCode, Diagnostics};
use crate::lowering::{ArithmeticOperator, EffectFacts, Node, Op, OperandFailure, lower_arithmetic, lower_integer_literal,
    lower_negation, lower_not, negated, node_is, operation_effect, operator_outcome, push_node, reports_operand,
    require_outcome, control_region, region_ids, if_node_is};
use crate::compiler::require_type;
use crate::surface::{BinaryForm, CollectionKind, Expr, Literal, UnaryForm};
use crate::text::{owned, push_str, str_eq};

verus! {

/// Why a value expression is refused: a type mismatch, or an unsupported
/// construct at a span.
pub enum ValueFailure {
    Mismatch(OperandFailure),
    Unsupported(Span, Seq<char>),
}

/// `d` is the diagnostic that reports `f`.
pub open spec fn reports_value(d: Diagnostics, f: ValueFailure) -> bool {
    match f {
        ValueFailure::Mismatch(m) => reports_operand(d, m),
        ValueFailure::Unsupported(span, construct) => is_unsupported(d, span, construct),
    }
}

/// Neither effectful nor fallible.
pub open spec fn pure_facts() -> EffectFacts {
    EffectFacts { effectful: false, fallible: false }
}

/// `n1` is `n0` with one node pushed: id its index, at `span`, of type
/// `ty`, with these facts, inputs and operation.
pub open spec fn pushed(n0: Seq<Node>, n1: Seq<Node>, span: Span, ty: Type, effect: EffectFacts, inputs: Seq<NodeId>,
    op: Op) -> bool
{
    &&& n1.len() == n0.len() + 1
    &&& n1.drop_last() == n0
    &&& node_is(n1.last(), NodeId(n0.len() as u32), span, ty, effect, inputs, op)
}

/// The span of a literal.
pub open spec fn literal_span(l: Literal) -> Span {
    match l {
        Literal::Number(t) => t.span,
        Literal::Quantity(t) => t.span,
        Literal::Str(t) => t.span,
        Literal::Path(t) => t.span,
        Literal::Bool(b) => b.span,
    }
}

/// The span an operand is reported at: a name's, a literal's, or that of
/// the whole unary or binary expression (the origin for any other form).
pub open spec fn operand_span(e: Expr) -> Span {
    match e {
        Expr::Identifier(n) => n.span,
        Expr::Literal(l) => literal_span(l),
        Expr::Unary(UnaryForm::Operator { span, .. }, _) => span,
        Expr::Unary(UnaryForm::Paren(span), _) => span,
        Expr::Unary(UnaryForm::Try(span), _) => span,
        Expr::Unary(UnaryForm::Field(span, _), _) => span,
        Expr::Binary(BinaryForm::Operator { span, .. }, _, _) => span,
        Expr::Collection(_, span, _) => span,
        _ => Span { start: 0, end: 0 },
    }
}

/// The arithmetic or collection operator an operator spells.
pub open spec fn arithmetic_of(op: Seq<char>) -> Option<ArithmeticOperator> {
    if op == "+"@ {
        Some(ArithmeticOperator::Plus)
    } else if op == "++"@ {
        Some(ArithmeticOperator::Concat)
    } else if op == "-"@ {
        Some(ArithmeticOperator::Minus)
    } else if op == "*"@ {
        Some(ArithmeticOperator::Times)
    } else {
        None
    }
}

/// A binary operator of the language.
pub open spec fn known_binary(op: Seq<char>) -> bool {
    arithmetic_of(op) is Some || op == "/"@ || op == "=="@ || op == "!="@ || op == "<=>"@ || op == "<"@
        || op == "<="@ || op == ">"@ || op == ">="@ || op == "&&"@ || op == "||"@
}

/// The expressions this module lowers, given the names in scope: literals,
/// bound names (other than `None`), parentheses, tuples and arrays, unary operators,
/// and the arithmetic, collection and short-circuit operators (or an
/// unknown binary operator) over such operands.
pub open spec fn lowers_here(b: Map<Seq<char>, LoweredValue>, e: Expr) -> bool
    decreases e,
{
    match e {
        Expr::Literal(_) => true,
        Expr::Identifier(n) => n.value@ != "None"@ && b.contains_key(n.value@),
        Expr::Unary(UnaryForm::Paren(_), x) => lowers_here(b, *x),
        Expr::Collection(kind, _, xs) => kind != CollectionKind::SetLiteral
            && forall|i: int| 0 <= i < xs@.len() ==> lowers_here(b, #[trigger] xs@[i]),
        Expr::Unary(UnaryForm::Operator { op, .. }, x) => op.value@ != "!"@ || lowers_here(b, *x),
        Expr::Binary(BinaryForm::Operator { op, .. }, l, r) =>
            (arithmetic_of(op.value@) is Some || op.value@ == "&&"@ || op.value@ == "||"@ || !known_binary(op.value@))
                && lowers_here(b, *l) && lowers_here(b, *r),
        _ => false,
    }
}

/// `!operand` over the lowered `Bool` operand `xv`, from nodes `m`: a
/// `false` constant at the operator, then the equality of the two.
pub open spec fn not_step(m: Seq<Node>, n1: Seq<Node>, xv: LoweredValue, op_span: Span, span: Span, v: LoweredValue) -> bool {
    let false_id = NodeId(m.len() as u32);
    let not_id = NodeId((m.len() + 1) as u32);
    &&& xv.ty is Bool
    &&& n1.len() == m.len() + 2
    &&& n1.take(m.len() as int) == m
    &&& node_is(n1[m.len() as int], false_id, op_span, Type::Bool, pure_facts(), seq![], Op::Bool(false))
    &&& node_is(n1.last(), not_id, span, Type::Bool, pure_facts(), seq![xv.node, false_id], Op::Eq)
    &&& v.node == not_id
    &&& v.ty is Bool
}

/// The operator `a` over the lowered operands `lv` and `rv` (the right one
/// lowered from nodes `m` to `m2`): its node, as `operator_outcome` gives
/// it.
pub open spec fn arithmetic_step(m: Seq<Node>, m2: Seq<Node>, n1: Seq<Node>, a: ArithmeticOperator, lv: LoweredValue,
    lspan: Span, rv: LoweredValue, rspan: Span, span: Span, v: LoweredValue) -> bool
{
    &&& m.len() <= m2.len()
    &&& operator_outcome(a, lv.ty, lspan, rv.ty, rspan) is Ok
    &&& {
        let (t, o) = operator_outcome(a, lv.ty, lspan, rv.ty, rspan)->Ok_0;
        &&& n1.len() == m2.len() + 1
        &&& n1.drop_last() == m2
        &&& node_is(n1.last(), NodeId(m2.len() as u32), span, t, operation_effect(o), seq![lv.node, rv.node], o)
        &&& v.node == NodeId(m2.len() as u32)
        &&& type_eq(v.ty, t)
    }
}

/// `m1` is `m` with a `Bool` constant pushed at `span`.
pub open spec fn bool_pushed(m: Seq<Node>, m1: Seq<Node>, span: Span, value: bool) -> bool {
    &&& m1.len() == m.len() + 1
    &&& m1.drop_last() == m
    &&& node_is(m1.last(), NodeId(m.len() as u32), span, Type::Bool, pure_facts(), seq![], Op::Bool(value))
}

/// Where the right operand of `&&` or `||` (`op`) is
/// lowered from, the left one lowered to `m`: right there for `&&`, after a
/// `true` constant at the operator for `||`.
pub open spec fn right_start(m: Seq<Node>, m1: Seq<Node>, op: Seq<char>, op_span: Span) -> bool {
    if op == "||"@ { bool_pushed(m, m1, op_span, true) } else { m1 == m }
}

/// `left && right` over the lowered `Bool` operands (the right one lowered
/// from nodes `m` to `m2`, as the consequent region): a `false` constant at
/// the operator as the alternative region, then the `If` on the left one.
pub open spec fn and_step(m: Seq<Node>, m2: Seq<Node>, n1: Seq<Node>, lv: LoweredValue, rv: LoweredValue, op_span: Span,
    span: Span, v: LoweredValue) -> bool
{
    let false_id = NodeId(m2.len() as u32);
    let if_id = NodeId((m2.len() + 1) as u32);
    &&& lv.ty is Bool
    &&& rv.ty is Bool
    &&& m.len() <= m2.len()
    &&& n1.len() == m2.len() + 2
    &&& n1.take(m2.len() as int) == m2
    &&& node_is(n1[m2.len() as int], false_id, op_span, Type::Bool, pure_facts(), seq![], Op::Bool(false))
    &&& if_node_is(n1.last(), if_id, span, lv.node, region_ids(m2, m.len() as int), rv.node, seq![false_id], false_id)
    &&& v.node == if_id
    &&& v.ty is Bool
}

/// `left || right` over the lowered `Bool` operands: a `true` constant at
/// the operator (from `m` to `m1`) as the consequent region, the right
/// operand (lowered from `m1` to `m2`) as the alternative, then the `If`
/// on the left one.
pub open spec fn or_step(m: Seq<Node>, m1: Seq<Node>, m2: Seq<Node>, n1: Seq<Node>, lv: LoweredValue, rv: LoweredValue,
    op_span: Span, span: Span, v: LoweredValue) -> bool
{
    let true_id = NodeId(m.len() as u32);
    let if_id = NodeId(m2.len() as u32);
    &&& lv.ty is Bool
    &&& rv.ty is Bool
    &&& bool_pushed(m, m1, op_span, true)
    &&& m1.len() <= m2.len()
    &&& n1.len() == m2.len() + 1
    &&& n1.drop_last() == m2
    &&& if_node_is(n1.last(), if_id, span, lv.node, seq![true_id], true_id, region_ids(m2, m1.len() as int), rv.node)
    &&& v.node == if_id
    &&& v.ty is Bool
}

/// The elements of a tuple lowered in turn from `n0`: `states` are the
/// nodes before each and after the last, `vals` their values.
pub open spec fn elements_from(n0: Seq<Node>, states: Seq<Seq<Node>>, vals: Seq<LoweredValue>, count: nat) -> bool {
    &&& states.len() == count + 1
    &&& states[0] == n0
    &&& vals.len() == count
}

/// The first `n` elements of `xs` lowered in turn, from `states[i]` to
/// `states[i + 1]`, with the values `vals`.
pub open spec fn elements_lowered(b: Map<Seq<char>, LoweredValue>, xs: Seq<Expr>, states: Seq<Seq<Node>>,
    vals: Seq<LoweredValue>, n: nat) -> bool
    decreases xs, n,
{
    if n == 0 {
        true
    } else {
        n <= xs.len() && elements_lowered(b, xs, states, vals, (n - 1) as nat)
            && lowered(states[n - 1], b, xs[n - 1], states[n as int], vals[n - 1])
    }
}

/// After the elements (their values `vals`, lowered up to nodes `m`), the
/// tuple node at `span` over them, of the tuple of their types.
pub open spec fn tuple_step(n0: Seq<Node>, states: Seq<Seq<Node>>, vals: Seq<LoweredValue>, count: nat, n1: Seq<Node>,
    span: Span, v: LoweredValue) -> bool
{
    let m = states[count as int];
    let id = NodeId(m.len() as u32);
    &&& elements_from(n0, states, vals, count)
    &&& n1.len() == m.len() + 1
    &&& n1.drop_last() == m
    &&& n1.last().id == id
    &&& n1.last().span == span
    &&& n1.last().ty is Tuple
    &&& types_eq(n1.last().ty->Tuple_0@, vals.map_values(|x: LoweredValue| x.ty))
    &&& n1.last().effect == pure_facts()
    &&& n1.last().inputs@ == vals.map_values(|x: LoweredValue| x.node)
    &&& n1.last().op == Op::Tuple
    &&& v.node == id
    &&& v.ty is Tuple
    &&& types_eq(v.ty->Tuple_0@, vals.map_values(|x: LoweredValue| x.ty))
}

/// The first element (from the `k`-th on) whose type is not the first
/// element's, with the mismatch that refuses it.
pub open spec fn first_mismatch(vals: Seq<LoweredValue>, xs: Seq<Expr>, k: int) -> Option<OperandFailure>
    decreases vals.len() - k,
{
    if k < 0 || k >= vals.len() {
        None
    } else {
        match require_outcome(vals[k].ty, vals[0].ty, operand_span(xs[k])) {
            Some(g) => Some(g),
            None => first_mismatch(vals, xs, k + 1),
        }
    }
}

/// After the elements of an array literal (their values `vals`, all of
/// the first one's type), the array node at `span` over them.
pub open spec fn array_step(n0: Seq<Node>, states: Seq<Seq<Node>>, vals: Seq<LoweredValue>, xs: Seq<Expr>, n1: Seq<Node>,
    span: Span, v: LoweredValue) -> bool
{
    let m = states[xs.len() as int];
    let id = NodeId(m.len() as u32);
    &&& elements_from(n0, states, vals, xs.len())
    &&& xs.len() > 0
    &&& first_mismatch(vals, xs, 0) is None
    &&& n1.len() == m.len() + 1
    &&& n1.drop_last() == m
    &&& n1.last().id == id
    &&& n1.last().span == span
    &&& n1.last().ty is Array
    &&& type_eq(*n1.last().ty->Array_0, vals[0].ty)
    &&& n1.last().effect == pure_facts()
    &&& n1.last().inputs@ == vals.map_values(|x: LoweredValue| x.node)
    &&& n1.last().op == Op::Array
    &&& v.node == id
    &&& v.ty is Array
    &&& type_eq(*v.ty->Array_0, vals[0].ty)
}

/// The refusal of an empty array literal: with no expected type there is
/// no element type.
pub open spec fn empty_array_message() -> Seq<char> {
    "an empty array literal needs an expected element type"@
}

/// Lowering `e` from nodes `n0`, with names bound as in `b`, gives nodes
/// `n1` and the value `v`.
pub open spec fn lowered(n0: Seq<Node>, b: Map<Seq<char>, LoweredValue>, e: Expr, n1: Seq<Node>, v: LoweredValue) -> bool
    decreases e, 0nat,
{
    let id = NodeId(n0.len() as u32);
    match e {
        Expr::Literal(Literal::Bool(x)) => pushed(n0, n1, x.span, Type::Bool, pure_facts(), seq![], Op::Bool(x.value))
            && v.node == id && v.ty is Bool,
        Expr::Literal(Literal::Number(t)) => int_literal(t.value@) matches Some(k)
            && pushed(n0, n1, t.span, Type::Int, pure_facts(), seq![], Op::Int(k)) && v.node == id && v.ty is Int,
        Expr::Literal(Literal::Quantity(_)) => false,
        Expr::Literal(Literal::Str(t)) => pushed(n0, n1, t.span, Type::String, pure_facts(), seq![], Op::String(t.value))
            && v.node == id && v.ty is String,
        Expr::Literal(Literal::Path(t)) => path_literal_refusal(t.value@) is None
            && pushed(n0, n1, t.span, Type::Path, pure_facts(), seq![], Op::Path(t.value)) && v.node == id && v.ty is Path,
        Expr::Identifier(n) => b.contains_key(n.value@) && n1 == n0 && v.node == b[n.value@].node
            && type_eq(v.ty, b[n.value@].ty),
        Expr::Unary(UnaryForm::Paren(_), x) => lowered(n0, b, *x, n1, v),
        Expr::Collection(CollectionKind::TupleLiteral, span, xs) =>
            exists|states: Seq<Seq<Node>>, vals: Seq<LoweredValue>|
                #[trigger] tuple_step(n0, states, vals, xs@.len(), n1, span, v)
                && elements_lowered(b, xs@, states, vals, xs@.len()),
        Expr::Collection(CollectionKind::ArrayLiteral, span, xs) =>
            exists|states: Seq<Seq<Node>>, vals: Seq<LoweredValue>|
                #[trigger] array_step(n0, states, vals, xs@, n1, span, v)
                && elements_lowered(b, xs@, states, vals, xs@.len()),
        Expr::Unary(UnaryForm::Operator { span, op }, x) => {
            if op.value@ == "!"@ {
                exists|m: Seq<Node>, xv: LoweredValue| lowered(n0, b, *x, m, xv)
                    && #[trigger] not_step(m, n1, xv, op.span, span, v)
            } else if op.value@ == "-"@ {
                &&& *x matches Expr::Literal(Literal::Number(t))
                &&& int_literal(negated(t.value@)) matches Some(k)
                &&& pushed(n0, n1, span, Type::Int, pure_facts(), seq![], Op::Int(k))
                &&& v.node == id
                &&& v.ty is Int
            } else {
                false
            }
        },
        Expr::Binary(BinaryForm::Operator { span, op }, l, r) => match arithmetic_of(op.value@) {
            Some(a) => exists|m: Seq<Node>, lv: LoweredValue, m2: Seq<Node>, rv: LoweredValue|
                lowered(n0, b, *l, m, lv) && lowered(m, b, *r, m2, rv)
                && #[trigger] arithmetic_step(m, m2, n1, a, lv, operand_span(*l), rv, operand_span(*r), span, v),
            None => if op.value@ == "&&"@ {
                exists|m: Seq<Node>, lv: LoweredValue, m2: Seq<Node>, rv: LoweredValue|
                    lowered(n0, b, *l, m, lv) && lowered(m, b, *r, m2, rv)
                    && #[trigger] and_step(m, m2, n1, lv, rv, op.span, span, v)
            } else if op.value@ == "||"@ {
                exists|m: Seq<Node>, lv: LoweredValue, m1: Seq<Node>, m2: Seq<Node>, rv: LoweredValue|
                    lowered(n0, b, *l, m, lv) && lowered(m1, b, *r, m2, rv)
                    && #[trigger] or_step(m, m1, m2, n1, lv, rv, op.span, span, v)
            } else {
                false
            },
        },
        _ => false,
    }
}

/// Lowering `e` from nodes `n0`, with names bound as in `b`, is refused with
/// `f`: the first refusal in evaluation order.
pub open spec fn refused(n0: Seq<Node>, b: Map<Seq<char>, LoweredValue>, e: Expr, f: ValueFailure) -> bool
    decreases e,
{
    match e {
        Expr::Literal(Literal::Number(t)) => int_literal(t.value@) is None
            && f == ValueFailure::Mismatch((DiagnosticCode::TypeMismatch, t.span, "Int"@,
                "number literal `"@ + t.value@ + "`"@)),
        Expr::Literal(Literal::Quantity(t)) =>
            f == ValueFailure::Unsupported(t.span, "unit-bearing literal outside an attribute"@),
        Expr::Literal(Literal::Path(t)) => path_literal_refusal(t.value@) matches Some(m)
            && f == ValueFailure::Unsupported(t.span, m),
        Expr::Unary(UnaryForm::Paren(_), x) => refused(n0, b, *x, f),
        Expr::Collection(kind, span, xs) => kind != CollectionKind::SetLiteral && {
            ||| exists|k: nat, states: Seq<Seq<Node>>, vals: Seq<LoweredValue>|
                #[trigger] elements_from(n0, states, vals, k) && k < xs@.len()
                && elements_lowered(b, xs@, states, vals, k)
                && refused(states[k as int], b, xs@[k as int], f)
            ||| kind == CollectionKind::ArrayLiteral && exists|states: Seq<Seq<Node>>, vals: Seq<LoweredValue>|
                #[trigger] elements_lowered(b, xs@, states, vals, xs@.len())
                && elements_from(n0, states, vals, xs@.len())
                && if xs@.len() == 0 {
                    f == ValueFailure::Unsupported(span, empty_array_message())
                } else {
                    first_mismatch(vals, xs@, 0) matches Some(g) && f == ValueFailure::Mismatch(g)
                }
        },
        Expr::Unary(UnaryForm::Operator { span, op }, x) => {
            if op.value@ == "!"@ {
                ||| refused(n0, b, *x, f)
                ||| exists|m: Seq<Node>, xv: LoweredValue| #[trigger] lowered(n0, b, *x, m, xv)
                    && (require_outcome(xv.ty, Type::Bool, operand_span(*x)) matches Some(g)
                    && f == ValueFailure::Mismatch(g))
            } else if op.value@ == "-"@ {
                match *x {
                    Expr::Literal(Literal::Number(t)) => int_literal(negated(t.value@)) is None
                        && f == ValueFailure::Mismatch((DiagnosticCode::TypeMismatch, span, "Int"@,
                            "number literal `"@ + negated(t.value@) + "`"@)),
                    _ => f == ValueFailure::Unsupported(op.span, "unary operator `-`"@),
                }
            } else {
                f == ValueFailure::Unsupported(op.span, "unary operator `"@ + op.value@ + "`"@)
            }
        },
        Expr::Binary(BinaryForm::Operator { span, op }, l, r) => if op.value@ == "&&"@ || op.value@ == "||"@ {
            ||| refused(n0, b, *l, f)
            ||| exists|m: Seq<Node>, lv: LoweredValue| #[trigger] lowered(n0, b, *l, m, lv) && {
                ||| (require_outcome(lv.ty, Type::Bool, operand_span(*l)) matches Some(g) && f == ValueFailure::Mismatch(g))
                ||| lv.ty is Bool && exists|m1: Seq<Node>| #[trigger] right_start(m, m1, op.value@, op.span) && {
                    ||| refused(m1, b, *r, f)
                    ||| exists|m2: Seq<Node>, rv: LoweredValue| #[trigger] lowered(m1, b, *r, m2, rv)
                        && (require_outcome(rv.ty, Type::Bool, operand_span(*r)) matches Some(g) && f == ValueFailure::Mismatch(g))
                }
            }
        } else {
            ||| refused(n0, b, *l, f)
            ||| exists|m: Seq<Node>, lv: LoweredValue| #[trigger] lowered(n0, b, *l, m, lv) && {
                ||| refused(m, b, *r, f)
                ||| exists|m2: Seq<Node>, rv: LoweredValue| #[trigger] lowered(m, b, *r, m2, rv)
                    && match arithmetic_of(op.value@) {
                        Some(a) => (operator_outcome(a, lv.ty, operand_span(*l), rv.ty, operand_span(*r)) matches Err(g)
                            && f == ValueFailure::Mismatch(g)),
                        None => f == ValueFailure::Unsupported(op.span, "binary operator `"@ + op.value@ + "`"@),
                    }
            }
        },
        _ => false,
    }
}

/// The span an operand is reported at.
fn operand_span_of(e: &Expr) -> (s: Span)
    ensures
        s == operand_span(*e),
{
    match e {
        Expr::Identifier(n) => n.span,
        Expr::Literal(l) => match l {
            Literal::Number(t) => t.span,
            Literal::Quantity(t) => t.span,
            Literal::Str(t) => t.span,
            Literal::Path(t) => t.span,
            Literal::Bool(x) => x.span,
        },
        Expr::Unary(UnaryForm::Operator { span, .. }, _) => *span,
        Expr::Unary(UnaryForm::Paren(span), _) => *span,
        Expr::Unary(UnaryForm::Try(span), _) => *span,
        Expr::Unary(UnaryForm::Field(span, _), _) => *span,
        Expr::Binary(BinaryForm::Operator { span, .. }, _, _) => *span,
        Expr::Collection(_, span, _) => *span,
        _ => Span { start: 0, end: 0 },
    }
}

/// `&&` and `||` are not arithmetic.
proof fn lemma_short_circuit_operators()
    ensures
        arithmetic_of("&&"@) is None,
        arithmetic_of("||"@) is None,
        "&&"@ != "||"@,
{
    reveal_strlit("&&");
    reveal_strlit("||");
    reveal_strlit("+");
    reveal_strlit("++");
    reveal_strlit("-");
    reveal_strlit("*");
    assert("&&"@[0] != "+"@[0]);
    assert("&&"@[0] != "++"@[0]);
    assert("&&"@[0] != "-"@[0]);
    assert("&&"@[0] != "*"@[0]);
    assert("||"@[0] != "+"@[0]);
    assert("||"@[0] != "++"@[0]);
    assert("||"@[0] != "-"@[0]);
    assert("||"@[0] != "*"@[0]);
    assert("&&"@[0] != "||"@[0]);
}

/// The arithmetic or collection operator an operator spells.
fn arithmetic_of_exec(op: &str) -> (r: Option<ArithmeticOperator>)
    ensures
        r == arithmetic_of(op@),
{
    proof {
        reveal_strlit("+");
        reveal_strlit("++");
        reveal_strlit("-");
        reveal_strlit("*");
    }
    if str_eq(op, "+") {
        Some(ArithmeticOperator::Plus)
    } else if str_eq(op, "++") {
        Some(ArithmeticOperator::Concat)
    } else if str_eq(op, "-") {
        Some(ArithmeticOperator::Minus)
    } else if str_eq(op, "*") {
        Some(ArithmeticOperator::Times)
    } else {
        None
    }
}

/// An unsupported construct named `prefix`, the operator and a backtick.
fn unsupported_operator(span: Span, prefix: &str, op: &str) -> (d: Diagnostics)
    ensures
        is_unsupported(d, span, prefix@ + op@ + "`"@),
{
    let mut construct = owned(prefix);
    push_str(&mut construct, op);
    push_str(&mut construct, "`");
    Diagnostics::one(Diagnostic::unsupported(span, construct.as_str()))
}

/// Lower a value expression: its operands first, then the node that uses
/// them (see `lowered`); or the first refusal (see `refused`).
pub fn lower_value(nodes: &mut Vec<Node>, bindings: &StrMap<LoweredValue>, e: &Expr) -> (r: Result<LoweredValue, Diagnostics>)
    requires
        lowers_here(bindings@, *e),
    ensures
        final(nodes)@.len() >= old(nodes)@.len(),
        match r {
            Ok(v) => lowered(old(nodes)@, bindings@, *e, final(nodes)@, v),
            Err(d) => exists|f: ValueFailure| #[trigger] refused(old(nodes)@, bindings@, *e, f) && reports_value(d, f),
        },
    decreases e, 1nat,
{
    let ghost n0 = nodes@;
    let ghost b = bindings@;
    match e {
        Expr::Literal(l) => match l {
            Literal::Bool(x) => {
                let node = push_node(nodes, x.span, Type::Bool, EffectFacts::pure(), Vec::new(), Op::Bool(x.value));
                proof {
                    assert(nodes@.last().inputs@ =~= Seq::<NodeId>::empty());
                    assert(nodes@.drop_last() =~= n0);
                }
                let v = LoweredValue { node, ty: Type::Bool };
                assert(lowered(n0, b, *e, nodes@, v));
                Ok(v)
            },
            Literal::Number(t) => {
                let r = lower_integer_literal(nodes, t.span, t.value.as_str());
                proof {
                    if r is Err {
                        let f = ValueFailure::Mismatch((DiagnosticCode::TypeMismatch, t.span, "Int"@,
                            "number literal `"@ + t.value@ + "`"@));
                        assert(refused(n0, b, *e, f));
                    }
                }
                r
            },
            Literal::Quantity(t) => {
                let d = Diagnostics::one(Diagnostic::unsupported(t.span, "unit-bearing literal outside an attribute"));
                proof {
                    let f = ValueFailure::Unsupported(t.span, "unit-bearing literal outside an attribute"@);
                    assert(refused(n0, b, *e, f));
                }
                Err(d)
            },
            Literal::Str(t) => {
                let node = push_node(nodes, t.span, Type::String, EffectFacts::pure(), Vec::new(), Op::String(t.value.clone()));
                proof {
                    assert(nodes@.last().inputs@ =~= Seq::<NodeId>::empty());
                    assert(nodes@.drop_last() =~= n0);
                }
                let v = LoweredValue { node, ty: Type::String };
                assert(lowered(n0, b, *e, nodes@, v));
                Ok(v)
            },
            Literal::Path(t) => {
                match validate_path_literal(t.value.as_str(), t.span) {
                    Ok(()) => {},
                    Err(d) => {
                        proof {
                            let m = path_literal_refusal(t.value@)->Some_0;
                            assert(refused(n0, b, *e, ValueFailure::Unsupported(t.span, m)));
                            assert(reports_value(d, ValueFailure::Unsupported(t.span, m)));
                        }
                        return Err(d);
                    },
                }
                let node = push_node(nodes, t.span, Type::Path, EffectFacts::pure(), Vec::new(), Op::Path(t.value.clone()));
                proof {
                    assert(nodes@.last().inputs@ =~= Seq::<NodeId>::empty());
                    assert(nodes@.drop_last() =~= n0);
                }
                let v = LoweredValue { node, ty: Type::Path };
                assert(lowered(n0, b, *e, nodes@, v));
                Ok(v)
            },
        },
        Expr::Identifier(n) => {
            let v = match lookup_binding(bindings, n.value.as_str(), n.span) {
                Ok(v) => v,
                Err(d) => return Err(d),
            };
            let w = LoweredValue { node: v.node, ty: v.ty.copy() };
            assert(lowered(n0, b, *e, nodes@, w));
            Ok(w)
        },
        Expr::Collection(kind, span, xs) => self::lower_collection(nodes, bindings, *kind, *span, xs),
        Expr::Unary(UnaryForm::Paren(_), x) => {
            let r = self::lower_value(nodes, bindings, x);
            proof {
                if r is Err {
                    let f = choose|f: ValueFailure| refused(n0, b, **x, f) && reports_value(r->Err_0, f);
                    assert(refused(n0, b, *e, f));
                }
            }
            r
        },
        Expr::Unary(UnaryForm::Operator { span, op }, x) => {
            proof {
                reveal_strlit("!");
                reveal_strlit("-");
            }
            if str_eq(op.value.as_str(), "!") {
                let operand = match self::lower_value(nodes, bindings, x) {
                    Ok(v) => v,
                    Err(d) => {
                        proof {
                            let f = choose|f: ValueFailure| refused(n0, b, **x, f) && reports_value(d, f);
                            assert(refused(n0, b, *e, f));
                        }
                        return Err(d);
                    },
                };
                let ghost m = nodes@;
                let ghost xv = operand;
                let xspan = operand_span_of(x);
                let r = lower_not(nodes, *span, op.span, operand, xspan);
                proof {
                    assert(lowered(n0, b, **x, m, xv));
                    if r is Ok {
                        assert(not_step(m, nodes@, xv, op.span, *span, r->Ok_0));
                        assert(lowered(n0, b, *e, nodes@, r->Ok_0));
                    } else {
                        let g = require_outcome(xv.ty, Type::Bool, xspan)->Some_0;
                        assert(refused(n0, b, *e, ValueFailure::Mismatch(g)));
                    }
                }
                r
            } else if str_eq(op.value.as_str(), "-") {
                let number: Option<&str> = match &**x {
                    Expr::Literal(Literal::Number(t)) => Some(t.value.as_str()),
                    _ => None,
                };
                let r = lower_negation(nodes, *span, op.span, number);
                proof {
                    if r is Err {
                        if (**x) is Literal && (**x)->Literal_0 is Number {
                            let t = (**x)->Literal_0->Number_0;
                            let f = ValueFailure::Mismatch((DiagnosticCode::TypeMismatch, *span, "Int"@,
                                "number literal `"@ + negated(t.value@) + "`"@));
                            assert(refused(n0, b, *e, f));
                        } else {
                            assert(refused(n0, b, *e, ValueFailure::Unsupported(op.span, "unary operator `-`"@)));
                        }
                    }
                }
                r
            } else {
                let d = unsupported_operator(op.span, "unary operator `", op.value.as_str());
                proof {
                    reveal_strlit("unary operator `");
                    let f = ValueFailure::Unsupported(op.span, "unary operator `"@ + op.value@ + "`"@);
                    assert(refused(n0, b, *e, f));
                }
                Err(d)
            }
        },
        Expr::Binary(BinaryForm::Operator { span, op }, l, r) => {
            let left = match self::lower_value(nodes, bindings, l) {
                Ok(v) => v,
                Err(d) => {
                    proof {
                        let f = choose|f: ValueFailure| refused(n0, b, **l, f) && reports_value(d, f);
                        assert(refused(n0, b, *e, f));
                    }
                    return Err(d);
                },
            };
            let ghost m = nodes@;
            let ghost lv = left;
            proof {
                reveal_strlit("&&");
                reveal_strlit("||");
                lemma_short_circuit_operators();
            }
            let is_and = str_eq(op.value.as_str(), "&&");
            let is_or = str_eq(op.value.as_str(), "||");
            if is_and || is_or {
                let lspan = operand_span_of(l);
                match require_type(&left, &Type::Bool, lspan) {
                    Ok(()) => {},
                    Err(d) => {
                        proof {
                            let g = require_outcome(lv.ty, Type::Bool, lspan)->Some_0;
                            assert(lowered(n0, b, **l, m, lv));
                            assert(refused(n0, b, *e, ValueFailure::Mismatch(g)));
                        }
                        return Err(d);
                    },
                }
                let start = nodes.len();
                let mut consequent = None;
                if !is_and {
                    let t = push_node(nodes, op.span, Type::Bool, EffectFacts::pure(), Vec::new(), Op::Bool(true));
                    proof {
                        assert(nodes@.last().inputs@ =~= Seq::<NodeId>::empty());
                        assert(nodes@.drop_last() =~= m);
                    }
                    consequent = Some(control_region(nodes, start, t));
                }
                let ghost m1 = nodes@;
                proof {
                    assert(right_start(m, m1, op.value@, op.span));
                }
                let right_begin = nodes.len();
                let right = match self::lower_value(nodes, bindings, r) {
                    Ok(v) => v,
                    Err(d) => {
                        proof {
                            let f = choose|f: ValueFailure| refused(m1, b, **r, f) && reports_value(d, f);
                            assert(lowered(n0, b, **l, m, lv));
                            assert(refused(n0, b, *e, f));
                        }
                        return Err(d);
                    },
                };
                let ghost m2 = nodes@;
                let ghost rv = right;
                let rspan = operand_span_of(r);
                match require_type(&right, &Type::Bool, rspan) {
                    Ok(()) => {},
                    Err(d) => {
                        proof {
                            let g = require_outcome(rv.ty, Type::Bool, rspan)->Some_0;
                            assert(lowered(n0, b, **l, m, lv));
                            assert(lowered(m1, b, **r, m2, rv));
                            assert(refused(n0, b, *e, ValueFailure::Mismatch(g)));
                        }
                        return Err(d);
                    },
                }
                let (cons, alt) = if is_and {
                    let cons = control_region(nodes, start, right.node);
                    let alt_start = nodes.len();
                    let f = push_node(nodes, op.span, Type::Bool, EffectFacts::pure(), Vec::new(), Op::Bool(false));
                    let alt = control_region(nodes, alt_start, f);
                    proof {
                        assert(nodes@.skip(alt_start as int) =~= seq![nodes@.last()]);
                        assert(alt.nodes@ =~= seq![f]);
                    }
                    (cons, alt)
                } else {
                    let alt = control_region(nodes, right_begin, right.node);
                    (consequent.unwrap(), alt)
                };
                let ghost before_if = nodes@;
                let mut inputs: Vec<NodeId> = Vec::new();
                inputs.push(left.node);
                assert(inputs@ =~= seq![left.node]);
                let node = push_node(nodes, *span, Type::Bool, EffectFacts::pure(), inputs, Op::If { consequent: cons, alternative: alt });
                let v = LoweredValue { node, ty: Type::Bool };
                proof {
                    assert(lowered(n0, b, **l, m, lv));
                    assert(lowered(m1, b, **r, m2, rv));
                    if is_and {
                        assert(nodes@.take(m2.len() as int) =~= m2);
                        assert(nodes@[m2.len() as int] == before_if.last());
                        assert(and_step(m, m2, nodes@, lv, rv, op.span, *span, v));
                        assert(m1 == m);
                        assert(lowered(m, b, **r, m2, rv));
                        assert(lowered(n0, b, *e, nodes@, v));
                    } else {
                        assert(nodes@.drop_last() =~= m2);
                        assert(m1.skip(m.len() as int) =~= seq![m1.last()]);
                        assert(region_ids(m1, m.len() as int) =~= seq![NodeId(m.len() as u32)]);
                        assert(bool_pushed(m, m1, op.span, true));
                        assert(if_node_is(nodes@.last(), NodeId(m2.len() as u32), *span, lv.node, seq![NodeId(m.len() as u32)],
                            NodeId(m.len() as u32), region_ids(m2, m1.len() as int), rv.node));
                        assert(or_step(m, m1, m2, nodes@, lv, rv, op.span, *span, v));
                        assert(lowered(n0, b, *e, nodes@, v));
                    }
                }
                return Ok(v);
            }
            let right = match self::lower_value(nodes, bindings, r) {
                Ok(v) => v,
                Err(d) => {
                    proof {
                        let f = choose|f: ValueFailure| refused(m, b, **r, f) && reports_value(d, f);
                        assert(lowered(n0, b, **l, m, lv));
                        assert(refused(n0, b, *e, f));
                    }
                    return Err(d);
                },
            };
            let ghost m2 = nodes@;
            let ghost rv = right;
            let lspan = operand_span_of(l);
            let rspan = operand_span_of(r);
            match arithmetic_of_exec(op.value.as_str()) {
                Some(a) => {
                    let res = lower_arithmetic(nodes, *span, a, left, lspan, right, rspan);
                    proof {
                        assert(lowered(n0, b, **l, m, lv));
                        assert(lowered(m, b, **r, m2, rv));
                        if res is Ok {
                            assert(arithmetic_step(m, m2, nodes@, a, lv, lspan, rv, rspan, *span, res->Ok_0));
                                assert(lowered(n0, b, *e, nodes@, res->Ok_0));
                        } else {
                            let g = operator_outcome(a, lv.ty, lspan, rv.ty, rspan)->Err_0;
                            assert(refused(n0, b, *e, ValueFailure::Mismatch(g)));
                        }
                    }
                    res
                },
                None => {
                    let d = unsupported_operator(op.span, "binary operator `", op.value.as_str());
                    proof {
                        reveal_strlit("binary operator `");
                        assert(lowered(n0, b, **l, m, lv));
                        assert(lowered(m, b, **r, m2, rv));
                        let f = ValueFailure::Unsupported(op.span, "binary operator `"@ + op.value@ + "`"@);
                        assert(refused(n0, b, *e, f));
                    }
                    Err(d)
                },
            }
        },
        _ => {
            assert(false);
            Err(Diagnostics::one(Diagnostic::unsupported(Span { start: 0, end: 0 }, "expression")))
        },
    }
}

/// Extending the states and values past the first `n` elements keeps
/// those elements lowered.
proof fn lemma_elements_extended(b: Map<Seq<char>, LoweredValue>, xs: Seq<Expr>, s1: Seq<Seq<Node>>, s2: Seq<Seq<Node>>,
    v1: Seq<LoweredValue>, v2: Seq<LoweredValue>, n: nat)
    requires
        elements_lowered(b, xs, s1, v1, n),
        s1.len() >= n + 1,
        v1.len() >= n,
        s1 == s2.take(s1.len() as int),
        v1 == v2.take(v1.len() as int),
        s2.len() >= s1.len(),
        v2.len() >= v1.len(),
    ensures
        elements_lowered(b, xs, s2, v2, n),
    decreases n,
{
    if n > 0 {
        lemma_elements_extended(b, xs, s1, s2, v1, v2, (n - 1) as nat);
        assert(s1[n - 1] == s2[n - 1]);
        assert(s1[n as int] == s2[n as int]);
        assert(v1[n - 1] == v2[n - 1]);
    }
}

/// Lower a tuple or array literal: its elements in order, then (for an
/// array, once every element has the first one's type) the tuple or array
/// node.
fn lower_collection(nodes: &mut Vec<Node>, bindings: &StrMap<LoweredValue>, kind: CollectionKind, span: Span, xs: &Vec<Expr>)
    -> (r: Result<LoweredValue, Diagnostics>)
    requires
        lowers_here(bindings@, Expr::Collection(kind, span, *xs)),
    ensures
        final(nodes)@.len() >= old(nodes)@.len(),
        match r {
            Ok(v) => lowered(old(nodes)@, bindings@, Expr::Collection(kind, span, *xs), final(nodes)@, v),
            Err(d) => exists|f: ValueFailure|
                #[trigger] refused(old(nodes)@, bindings@, Expr::Collection(kind, span, *xs), f)
                && reports_value(d, f),
        },
    decreases *xs, 0nat,
{
    let ghost e = Expr::Collection(kind, span, *xs);
    let ghost n0 = nodes@;
    let ghost b = bindings@;
    let ghost mut states: Seq<Seq<Node>> = seq![nodes@];
    proof {
        assert(e->Collection_2 == *xs);
        assert(e->Collection_0 == kind);
        assert(lowers_here(b, e));
        assert(lowers_here(b, e) == (forall|j: int| 0 <= j < xs@.len() ==> lowers_here(b, #[trigger] xs@[j])));
        assert forall|j: int| 0 <= j < xs@.len() implies lowers_here(b, #[trigger] xs@[j]) by {
            reveal_with_fuel(lowers_here, 2);
            assert(lowers_here(b, e));
        }
    }
    let mut vals: Vec<LoweredValue> = Vec::new();
    let mut types: Vec<Type> = Vec::new();
    let mut types2: Vec<Type> = Vec::new();
    let mut inputs: Vec<NodeId> = Vec::new();
    let mut i: usize = 0;
    while i < xs.len()
        invariant
            i <= xs@.len(),
            n0 == old(nodes)@,
            b == bindings@,
            e == Expr::Collection(kind, span, *xs),
            kind != CollectionKind::SetLiteral,
            forall|j: int| 0 <= j < xs@.len() ==> lowers_here(b, #[trigger] xs@[j]),
            elements_from(n0, states, vals@, i as nat),
            states.last() == nodes@,
            nodes@.len() >= n0.len(),
            elements_lowered(b, xs@, states, vals@, i as nat),
            types@.len() == i,
            types2@.len() == i,
            forall|j: int| 0 <= j < i ==> type_eq(#[trigger] types@[j], vals@[j].ty),
            forall|j: int| 0 <= j < i ==> type_eq(#[trigger] types2@[j], vals@[j].ty),
            inputs@ == vals@.map_values(|x: LoweredValue| x.node),
        decreases xs@.len() - i,
    {
        proof {
            assert(decreases_to!(*xs => xs@[i as int]));
        }
        let ghost before = nodes@;
        match self::lower_value(nodes, bindings, &xs[i]) {
            Ok(v) => {
                let ghost old_states = states;
                let ghost old_vals = vals@;
                proof {
                    states = states.push(nodes@);
                }
                types.push(v.ty.copy());
                types2.push(v.ty.copy());
                inputs.push(v.node);
                vals.push(v);
                proof {
                    assert(inputs@ =~= vals@.map_values(|x: LoweredValue| x.node));
                    assert(states.take(old_states.len() as int) =~= old_states);
                    assert(vals@.take(old_vals.len() as int) =~= old_vals);
                    lemma_elements_extended(b, xs@, old_states, states, old_vals, vals@, i as nat);
                    assert(lowered(states[i as int], b, xs@[i as int], states[i + 1], vals@[i as int]));
                }
            },
            Err(d) => {
                proof {
                    let f = choose|f: ValueFailure| refused(before, b, xs@[i as int], f) && reports_value(d, f);
                    assert(elements_from(n0, states, vals@, i as nat));
                    assert(states[i as int] == before);
                    assert(refused(n0, b, e, f));
                }
                return Err(d);
            },
        }
        i = i + 1;
    }
    let ghost m = nodes@;
    proof {
        assert(elements_lowered(b, xs@, states, vals@, xs@.len()));
        assert(states.len() == xs@.len() + 1);
    }
    if kind == CollectionKind::ArrayLiteral {
        if vals.len() == 0 {
            let d = Diagnostics::one(Diagnostic::unsupported(span, "an empty array literal needs an expected element type"));
            proof {
                let f = ValueFailure::Unsupported(span, empty_array_message());
                assert(refused(n0, b, e, f));
            }
            return Err(d);
        }
        let mut j: usize = 0;
        while j < vals.len()
            invariant
                j <= vals@.len(),
                vals@.len() == xs@.len(),
                vals@.len() > 0,
                first_mismatch(vals@, xs@, 0) == first_mismatch(vals@, xs@, j as int),
                nodes@ == m,
                m.len() >= n0.len(),
                n0 == old(nodes)@,
                b == bindings@,
                e == Expr::Collection(kind, span, *xs),
                kind == CollectionKind::ArrayLiteral,
                elements_lowered(b, xs@, states, vals@, xs@.len()),
                elements_from(n0, states, vals@, xs@.len()),
                states.last() == m,
            decreases vals@.len() - j,
        {
            let at = operand_span_of(&xs[j]);
            match require_type(&vals[j], &vals[0].ty, at) {
                Ok(()) => {},
                Err(d) => {
                    proof {
                        let g = first_mismatch(vals@, xs@, 0)->Some_0;
                        assert(refused(n0, b, e, ValueFailure::Mismatch(g)));
                    }
                    return Err(d);
                },
            }
            j = j + 1;
        }
        let ty = Type::Array(Box::new(vals[0].ty.copy()));
        let result_ty = Type::Array(Box::new(vals[0].ty.copy()));
        let node = push_node(nodes, span, ty, EffectFacts::pure(), inputs, Op::Array);
        let v = LoweredValue { node, ty: result_ty };
        proof {
            assert(nodes@.drop_last() =~= m);
            assert(array_step(n0, states, vals@, xs@, nodes@, span, v));
            assert(e matches Expr::Collection(CollectionKind::ArrayLiteral, sp, ys) && sp == span && ys == *xs);
            assert(lowered(n0, b, e, nodes@, v));
        }
        return Ok(v);
    }
    let ty = Type::Tuple(types);
    let result_ty = Type::Tuple(types2);
    let node = push_node(nodes, span, ty, EffectFacts::pure(), inputs, Op::Tuple);
    let v = LoweredValue { node, ty: result_ty };
    proof {
        let tys = vals@.map_values(|x: LoweredValue| x.ty);
        assert(types_eq(nodes@.last().ty->Tuple_0@, tys));
        assert(types_eq(v.ty->Tuple_0@, tys));
        assert(nodes@.drop_last() =~= m);
        assert(tuple_step(n0, states, vals@, xs@.len(), nodes@, span, v));
        assert(elements_lowered(b, xs@, states, vals@, xs@.len()));
        assert(e matches Expr::Collection(CollectionKind::TupleLiteral, sp, ys) && sp == span && ys == *xs);
        assert(lowered(n0, b, e, nodes@, v));
    }
    Ok(v)
}

} // verus!
