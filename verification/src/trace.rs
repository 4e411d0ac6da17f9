//! The literal operands of trace checks. A trace check's bound or path is
//! read directly from the call's argument literal, never lowered or
//! demanded, so pinning it costs no evaluation.

use vstd::prelude::*;
use crate::support::{Span, Spanned};
use crate::diagnostic::{Diagnostic, DiagnosticCode, DiagnosticPayload, Diagnostics};
use crate::compiler::{check_arity, integer_literal, int_literal, is_invalid_arity, is_type_mismatch, is_name_diagnostic,
    is_unsupported, path_literal_refusal, type_mismatch, validate_path_literal};
use crate::text::{owned, str_eq};

verus! {

/// One argument of a trace-check call, as far as the check reads it.
#[derive(Debug, PartialEq)]
pub enum CallArgument {
    /// A number literal's text.
    Number(Spanned<String>),
    /// A path literal's text (`p"..."`).
    Path(Spanned<String>),
    /// A string literal's text.
    Str(Spanned<String>),
    /// A boolean literal.
    Bool(bool, Span),
    /// A call: its callee and arguments.
    Call(LiteralCall),
    /// Any other expression, at its span.
    Other(Span),
}

/// A call as the literal checks read it: its span, callee and arguments.
#[derive(Debug, PartialEq)]
pub struct LiteralCall {
    pub span: Span,
    pub callee: String,
    pub callee_span: Span,
    pub args: Vec<CallArgument>,
    /// The call carries `where`-clause (named) arguments.
    pub named_args: bool,
}

/// One closed scalar literal of a described-wire selector.
#[derive(Clone, Debug, PartialEq, Eq)]
pub enum WireArg {
    Int(i64),
    Bool(bool),
    FixtureTree(String),
}

/// The span of an argument.
pub open spec fn argument_span(a: CallArgument) -> Span {
    match a {
        CallArgument::Number(n) => n.span,
        CallArgument::Path(p) => p.span,
        CallArgument::Str(s) => s.span,
        CallArgument::Bool(_, span) => span,
        CallArgument::Call(c) => c.span,
        CallArgument::Other(span) => span,
    }
}

/// The span of an argument.
fn span_of(a: &CallArgument) -> (s: Span)
    ensures
        s == argument_span(*a),
{
    match a {
        CallArgument::Number(n) => n.span,
        CallArgument::Path(p) => p.span,
        CallArgument::Str(s) => s.span,
        CallArgument::Bool(_, span) => *span,
        CallArgument::Call(c) => c.span,
        CallArgument::Other(span) => *span,
    }
}

/// The single integer bound of a trace-check constructor: a number literal
/// that fits an `i64`.
pub fn trace_bound(call: &LiteralCall) -> (r: Result<i64, Diagnostics>)
    requires
        call.args@.len() <= u32::MAX,
    ensures
        call.args@.len() != 1 ==> (r matches Err(d) && is_invalid_arity(d, call.span, 1, call.args@.len() as u32)),
        call.args@.len() == 1 ==> match call.args@[0] {
            CallArgument::Number(n) => match int_literal(n.value@) {
                Some(v) => r == Ok::<i64, Diagnostics>(v),
                None => r matches Err(d) && is_type_mismatch(d, n.span, "Int"@, "number literal `"@ + n.value@ + "`"@),
            },
            other => r matches Err(d) && is_type_mismatch(d, argument_span(other),
                "an integer bound literal"@, "expression"@),
        },
{
    match check_arity(call.span, 1, call.args.len()) {
        Ok(()) => {},
        Err(d) => return Err(d),
    }
    let argument = &call.args[0];
    match argument {
        CallArgument::Number(number) => integer_literal(number.value.as_str(), number.span),
        _ => Err(type_mismatch(span_of(argument), "an integer bound literal", "expression")),
    }
}

/// The path literal of a `never_read` trace check, validated as a relative
/// path.
pub fn trace_path(call: &LiteralCall) -> (r: Result<String, Diagnostics>)
    requires
        call.args@.len() <= u32::MAX,
    ensures
        call.args@.len() != 1 ==> (r matches Err(d) && is_invalid_arity(d, call.span, 1, call.args@.len() as u32)),
        call.args@.len() == 1 ==> match call.args@[0] {
            CallArgument::Path(p) => match path_literal_refusal(p.value@) {
                None => r matches Ok(s) && s@ == p.value@,
                Some(m) => r matches Err(d) && is_unsupported(d, p.span, m),
            },
            other => r matches Err(d) && is_type_mismatch(d, argument_span(other), "a Path literal"@, "expression"@),
        },
{
    match check_arity(call.span, 1, call.args.len()) {
        Ok(()) => {},
        Err(d) => return Err(d),
    }
    let argument = &call.args[0];
    match argument {
        CallArgument::Path(path) => {
            match validate_path_literal(path.value.as_str(), path.span) {
                Ok(()) => {},
                Err(d) => return Err(d),
            }
            Ok(owned(path.value.as_str()))
        },
        _ => Err(type_mismatch(span_of(argument), "a Path literal", "expression")),
    }
}

/// A wire argument by its value.
pub enum WireArgView {
    Int(i64),
    Bool(bool),
    FixtureTree(Seq<char>),
}

/// A wire argument's value.
pub open spec fn wire_view(a: WireArg) -> WireArgView {
    match a {
        WireArg::Int(i) => WireArgView::Int(i),
        WireArg::Bool(b) => WireArgView::Bool(b),
        WireArg::FixtureTree(name) => WireArgView::FixtureTree(name@),
    }
}

/// Why an argument is not a closed scalar literal.
pub enum WireFailure {
    /// A type mismatch at a span: expected, found.
    Mismatch(Span, Seq<char>, Seq<char>),
    /// An arity error of a `fixture_tree` call: its span and argument count.
    Arity(Span, nat),
    /// An unsupported expression at a span.
    Unsupported(Span, Seq<char>),
}

/// The selector literal an argument spells: an integer, a boolean, or a
/// `fixture_tree("name")` call; anything else is unsupported.
pub open spec fn wire_outcome(a: CallArgument) -> Result<WireArgView, WireFailure> {
    match a {
        CallArgument::Number(n) => match int_literal(n.value@) {
            Some(v) => Ok(WireArgView::Int(v)),
            None => Err(WireFailure::Mismatch(n.span, "Int"@, "number literal `"@ + n.value@ + "`"@)),
        },
        CallArgument::Bool(b, _) => Ok(WireArgView::Bool(b)),
        CallArgument::Call(call) => if call.callee@ == "fixture_tree"@ {
            if call.args@.len() != 1 {
                Err(WireFailure::Arity(call.span, call.args@.len()))
            } else {
                match call.args@[0] {
                    CallArgument::Str(name) => Ok(WireArgView::FixtureTree(name.value@)),
                    other => Err(WireFailure::Mismatch(argument_span(other), "a fixture_tree string literal"@, "expression"@)),
                }
            }
        } else {
            Err(WireFailure::Unsupported(call.span, "a described-wire argument must be a closed scalar literal"@))
        },
        other => Err(WireFailure::Unsupported(argument_span(other), "a described-wire argument must be a closed scalar literal"@)),
    }
}

/// `d` is the diagnostic that reports `f`.
pub open spec fn reports_wire(d: Diagnostics, f: WireFailure) -> bool {
    match f {
        WireFailure::Mismatch(span, e, found) => is_type_mismatch(d, span, e, found),
        WireFailure::Arity(span, n) => is_invalid_arity(d, span, 1, n as u32),
        WireFailure::Unsupported(span, m) => is_unsupported(d, span, m),
    }
}

/// One closed scalar literal in a described-wire selector. A selector names
/// only literal arguments; it never evaluates a sub-expression to obtain an
/// argument's identity.
pub fn wire_argument_literal(argument: &CallArgument) -> (r: Result<WireArg, Diagnostics>)
    requires
        argument matches CallArgument::Call(c) ==> c.args@.len() <= u32::MAX,
    ensures
        match wire_outcome(*argument) {
            Ok(v) => r matches Ok(w) && wire_view(w) == v,
            Err(f) => r matches Err(d) && reports_wire(d, f),
        },
{
    match argument {
        CallArgument::Number(number) => match integer_literal(number.value.as_str(), number.span) {
            Ok(v) => Ok(WireArg::Int(v)),
            Err(d) => Err(d),
        },
        CallArgument::Bool(b, _) => Ok(WireArg::Bool(*b)),
        CallArgument::Call(call) => {
            if !str_eq(call.callee.as_str(), "fixture_tree") {
                return Err(Diagnostics::one(Diagnostic::unsupported(
                    call.span,
                    "a described-wire argument must be a closed scalar literal",
                )));
            }
            match check_arity(call.span, 1, call.args.len()) {
                Ok(()) => {},
                Err(d) => return Err(d),
            }
            match &call.args[0] {
                CallArgument::Str(name) => Ok(WireArg::FixtureTree(owned(name.value.as_str()))),
                other => Err(type_mismatch(span_of(other), "a fixture_tree string literal", "expression")),
            }
        },
        other => Err(Diagnostics::one(Diagnostic::unsupported(
            span_of(other),
            "a described-wire argument must be a closed scalar literal",
        ))),
    }
}

// ---------------------------------------------------------------------------
// Check constructors

/// The trace checks that pin one integer bound.
#[derive(Clone, Copy, Debug, PartialEq, Eq, Structural)]
pub enum TraceBound {
    SchedulerRequestsAtMost,
    MemoEntriesAtMost,
    MemoHitsAtLeast,
    StoreInternsAtMost,
    ValueIslandSpawnsAtMost,
    SuccessfulAggregateFreezesAtMost,
    ActiveMoltenSelectionsAtMost,
    ForcedCopySelectionsAtMost,
    FramedBytesAtMost,
    PeakMoltenBytesAtMost,
    PeakMoltenNodesAtMost,
    RanProcesses,
    Fetched,
}

/// A descriptor over the completed run, read from the check's literals alone.
#[derive(Clone, Debug, PartialEq, Eq)]
pub enum TraceCheck {
    /// A bounded count.
    Bound { kind: TraceBound, bound: i64 },
    /// Processes ran overlapped.
    Overlapped,
    /// The path was read.
    Read { path: String },
    /// The path was never read.
    NeverRead { path: String },
}

/// The described-wire checks.
#[derive(Clone, Copy, Debug, PartialEq, Eq, Structural)]
pub enum WireCheck {
    Demanded,
    NeverDemanded,
    DemandedOnce,
}

/// The value checks, which root an expectation on a lowered condition.
#[derive(Clone, Copy, Debug, PartialEq, Eq, Structural)]
pub enum ValueCheck {
    Expect,
    ExpectEq,
    ExpectNe,
    ExpectSome,
    ExpectNone,
}

/// What a check constructor asks of the lowering. A trace check is complete
/// here; the others name the lowering their operands still need, their
/// arity already checked where it is checked before any operand is lowered.
#[derive(Clone, Debug, PartialEq, Eq)]
pub enum CheckPlan {
    Trace(TraceCheck),
    /// `expect_snapshot(..)`.
    Snapshot,
    /// `demanded_times(f, n)`.
    FunctionCalls,
    /// `demanded(..)`, `never_demanded(..)`, `demanded_once(..)`.
    DescribedWire(WireCheck),
    /// `expect`, `expect_eq`, `expect_ne`, `expect_some`, `expect_none`.
    Value(ValueCheck),
}

/// A check plan by its value.
pub enum CheckPlanView {
    Bound(TraceBound, i64),
    Overlapped,
    Read(Seq<char>),
    NeverRead(Seq<char>),
    Snapshot,
    FunctionCalls,
    DescribedWire(WireCheck),
    Value(ValueCheck),
}

/// A check plan's value.
pub open spec fn plan_view(p: CheckPlan) -> CheckPlanView {
    match p {
        CheckPlan::Trace(TraceCheck::Bound { kind, bound }) => CheckPlanView::Bound(kind, bound),
        CheckPlan::Trace(TraceCheck::Overlapped) => CheckPlanView::Overlapped,
        CheckPlan::Trace(TraceCheck::Read { path }) => CheckPlanView::Read(path@),
        CheckPlan::Trace(TraceCheck::NeverRead { path }) => CheckPlanView::NeverRead(path@),
        CheckPlan::Snapshot => CheckPlanView::Snapshot,
        CheckPlan::FunctionCalls => CheckPlanView::FunctionCalls,
        CheckPlan::DescribedWire(w) => CheckPlanView::DescribedWire(w),
        CheckPlan::Value(v) => CheckPlanView::Value(v),
    }
}

/// The bounded trace check a constructor name spells.
pub open spec fn bound_kind(name: Seq<char>) -> Option<TraceBound> {
    if name == "scheduler_requests_at_most"@ { Some(TraceBound::SchedulerRequestsAtMost) }
    else if name == "memo_entries_at_most"@ { Some(TraceBound::MemoEntriesAtMost) }
    else if name == "memo_hits_at_least"@ { Some(TraceBound::MemoHitsAtLeast) }
    else if name == "store_interns_at_most"@ { Some(TraceBound::StoreInternsAtMost) }
    else if name == "value_island_spawns_at_most"@ { Some(TraceBound::ValueIslandSpawnsAtMost) }
    else if name == "successful_aggregate_freezes_at_most"@ { Some(TraceBound::SuccessfulAggregateFreezesAtMost) }
    else if name == "active_molten_selections_at_most"@ { Some(TraceBound::ActiveMoltenSelectionsAtMost) }
    else if name == "forced_copy_selections_at_most"@ { Some(TraceBound::ForcedCopySelectionsAtMost) }
    else if name == "framed_bytes_at_most"@ { Some(TraceBound::FramedBytesAtMost) }
    else if name == "peak_molten_bytes_at_most"@ { Some(TraceBound::PeakMoltenBytesAtMost) }
    else if name == "peak_molten_nodes_at_most"@ { Some(TraceBound::PeakMoltenNodesAtMost) }
    else if name == "ran_processes"@ { Some(TraceBound::RanProcesses) }
    else if name == "fetched"@ { Some(TraceBound::Fetched) }
    else { None }
}

/// The described-wire check a constructor name spells.
pub open spec fn wire_kind(name: Seq<char>) -> Option<WireCheck> {
    if name == "demanded"@ { Some(WireCheck::Demanded) }
    else if name == "never_demanded"@ { Some(WireCheck::NeverDemanded) }
    else if name == "demanded_once"@ { Some(WireCheck::DemandedOnce) }
    else { None }
}

/// The value check a constructor name spells, with its arity.
pub open spec fn value_kind(name: Seq<char>) -> Option<(ValueCheck, nat)> {
    if name == "expect"@ { Some((ValueCheck::Expect, 1)) }
    else if name == "expect_eq"@ { Some((ValueCheck::ExpectEq, 2)) }
    else if name == "expect_ne"@ { Some((ValueCheck::ExpectNe, 2)) }
    else if name == "expect_some"@ { Some((ValueCheck::ExpectSome, 1)) }
    else if name == "expect_none"@ { Some((ValueCheck::ExpectNone, 1)) }
    else { None }
}

/// Why a check constructor is refused before any operand is lowered.
pub enum CheckFailure {
    /// A type mismatch at a span: expected, found.
    Mismatch(Span, Seq<char>, Seq<char>),
    /// The call's arity: its span, the expected and found counts.
    Arity(Span, nat, nat),
    /// An unsupported expression at a span.
    Unsupported(Span, Seq<char>),
    /// The constructor's name is unknown, at its span.
    Unknown(Span, Seq<char>),
}

/// `d` is the diagnostic that reports `f`.
pub open spec fn reports_check(d: Diagnostics, f: CheckFailure) -> bool {
    match f {
        CheckFailure::Mismatch(span, e, found) => is_type_mismatch(d, span, e, found),
        CheckFailure::Arity(span, e, found) => is_invalid_arity(d, span, e as u32, found as u32),
        CheckFailure::Unsupported(span, m) => is_unsupported(d, span, m),
        CheckFailure::Unknown(span, name) => is_name_diagnostic(d, DiagnosticCode::UnknownName, span, name),
    }
}

/// The bound of a one-integer trace check.
pub open spec fn bound_result(call: LiteralCall) -> Result<i64, CheckFailure> {
    if call.args@.len() != 1 {
        Err(CheckFailure::Arity(call.span, 1, call.args@.len()))
    } else {
        match call.args@[0] {
            CallArgument::Number(n) => match int_literal(n.value@) {
                Some(v) => Ok(v),
                None => Err(CheckFailure::Mismatch(n.span, "Int"@, "number literal `"@ + n.value@ + "`"@)),
            },
            other => Err(CheckFailure::Mismatch(argument_span(other), "an integer bound literal"@, "expression"@)),
        }
    }
}

/// The path of a path trace check.
pub open spec fn path_result(call: LiteralCall) -> Result<Seq<char>, CheckFailure> {
    if call.args@.len() != 1 {
        Err(CheckFailure::Arity(call.span, 1, call.args@.len()))
    } else {
        match call.args@[0] {
            CallArgument::Path(p) => match path_literal_refusal(p.value@) {
                None => Ok(p.value@),
                Some(m) => Err(CheckFailure::Unsupported(p.span, m)),
            },
            other => Err(CheckFailure::Mismatch(argument_span(other), "a Path literal"@, "expression"@)),
        }
    }
}

/// What a check constructor asks of the lowering, or why it is refused.
pub open spec fn check_plan_outcome(e: CallArgument) -> Result<CheckPlanView, CheckFailure> {
    match e {
        CallArgument::Call(call) => {
            let name = call.callee@;
            if name == "expect_snapshot"@ {
                Ok(CheckPlanView::Snapshot)
            } else if call.named_args {
                Err(CheckFailure::Unsupported(call.span, "named arguments on a check constructor"@))
            } else if bound_kind(name) is Some {
                match bound_result(call) {
                    Ok(b) => Ok(CheckPlanView::Bound(bound_kind(name)->Some_0, b)),
                    Err(f) => Err(f),
                }
            } else if name == "demanded_times"@ {
                Ok(CheckPlanView::FunctionCalls)
            } else if wire_kind(name) is Some {
                Ok(CheckPlanView::DescribedWire(wire_kind(name)->Some_0))
            } else if name == "overlapped"@ {
                if call.args@.len() != 0 {
                    Err(CheckFailure::Arity(call.span, 0, call.args@.len()))
                } else {
                    Ok(CheckPlanView::Overlapped)
                }
            } else if name == "read"@ || name == "never_read"@ {
                match path_result(call) {
                    Ok(p) => Ok(if name == "read"@ { CheckPlanView::Read(p) } else { CheckPlanView::NeverRead(p) }),
                    Err(f) => Err(f),
                }
            } else {
                match value_kind(name) {
                    Some((v, n)) => if call.args@.len() != n {
                        Err(CheckFailure::Arity(call.span, n, call.args@.len()))
                    } else {
                        Ok(CheckPlanView::Value(v))
                    },
                    None => Err(CheckFailure::Unknown(call.callee_span, name)),
                }
            }
        },
        other => Err(CheckFailure::Mismatch(argument_span(other), "Check"@, "expression"@)),
    }
}

/// A value-check constructor's name is no trace, snapshot, function or wire
/// check's name, so planning it reaches the value checks.
proof fn lemma_value_names_reach_value_checks(call: LiteralCall)
    requires
        !call.named_args,
        ({
            let n = call.callee@;
            n == "expect"@ || n == "expect_eq"@ || n == "expect_ne"@ || n == "expect_some"@ || n == "expect_none"@
        }),
    ensures
        check_plan_outcome(CallArgument::Call(call)) == match value_kind(call.callee@) {
            Some((v, n)) => if call.args@.len() != n {
                Err(CheckFailure::Arity(call.span, n, call.args@.len()))
            } else {
                Ok(CheckPlanView::Value(v))
            },
            None => Err(CheckFailure::Unknown(call.callee_span, call.callee@)),
        },
{
    reveal_strlit("expect_snapshot");
    reveal_strlit("scheduler_requests_at_most");
    reveal_strlit("memo_entries_at_most");
    reveal_strlit("memo_hits_at_least");
    reveal_strlit("store_interns_at_most");
    reveal_strlit("value_island_spawns_at_most");
    reveal_strlit("successful_aggregate_freezes_at_most");
    reveal_strlit("active_molten_selections_at_most");
    reveal_strlit("forced_copy_selections_at_most");
    reveal_strlit("framed_bytes_at_most");
    reveal_strlit("peak_molten_bytes_at_most");
    reveal_strlit("peak_molten_nodes_at_most");
    reveal_strlit("ran_processes");
    reveal_strlit("fetched");
    reveal_strlit("demanded_times");
    reveal_strlit("demanded");
    reveal_strlit("never_demanded");
    reveal_strlit("demanded_once");
    reveal_strlit("overlapped");
    reveal_strlit("read");
    reveal_strlit("never_read");
    reveal_strlit("expect");
    reveal_strlit("expect_eq");
    reveal_strlit("expect_ne");
    reveal_strlit("expect_some");
    reveal_strlit("expect_none");
    assert("expect_eq"@[7] != "expect_ne"@[7]);
    assert("expect_some"@[7] != "expect_none"@[7]);
    let n = call.callee@;
    assert(n.len() == 6 || n.len() == 9 || n.len() == 11);
    assert(n != "expect_snapshot"@);
    assert(bound_kind(n) is None);
    assert(n != "demanded_times"@);
    assert(wire_kind(n) is None);
    assert(n != "overlapped"@);
    assert(n != "read"@ && n != "never_read"@);
}

/// Each value-check constructor plans the check its name spells: `expect`
/// a truth check, `expect_eq` an equality, `expect_ne` an inequality,
/// `expect_some` and `expect_none` the two option checks, when it has its
/// arity of arguments (one, or two for the comparisons) and no named ones;
/// with another count it is refused for its arity.
pub proof fn law_value_constructors_plan_their_check(call: LiteralCall)
    requires
        !call.named_args,
    ensures
        call.callee@ == "expect"@ && call.args@.len() == 1 ==> check_plan_outcome(CallArgument::Call(call))
            == Ok::<CheckPlanView, CheckFailure>(CheckPlanView::Value(ValueCheck::Expect)),
        call.callee@ == "expect_eq"@ && call.args@.len() == 2 ==> check_plan_outcome(CallArgument::Call(call))
            == Ok::<CheckPlanView, CheckFailure>(CheckPlanView::Value(ValueCheck::ExpectEq)),
        call.callee@ == "expect_ne"@ && call.args@.len() == 2 ==> check_plan_outcome(CallArgument::Call(call))
            == Ok::<CheckPlanView, CheckFailure>(CheckPlanView::Value(ValueCheck::ExpectNe)),
        call.callee@ == "expect_some"@ && call.args@.len() == 1 ==> check_plan_outcome(CallArgument::Call(call))
            == Ok::<CheckPlanView, CheckFailure>(CheckPlanView::Value(ValueCheck::ExpectSome)),
        call.callee@ == "expect_none"@ && call.args@.len() == 1 ==> check_plan_outcome(CallArgument::Call(call))
            == Ok::<CheckPlanView, CheckFailure>(CheckPlanView::Value(ValueCheck::ExpectNone)),
        (call.callee@ == "expect_eq"@ || call.callee@ == "expect_ne"@) && call.args@.len() != 2
            ==> check_plan_outcome(CallArgument::Call(call)) == Err::<CheckPlanView, CheckFailure>(
            CheckFailure::Arity(call.span, 2, call.args@.len())),
{
    let n = call.callee@;
    if n == "expect"@ || n == "expect_eq"@ || n == "expect_ne"@ || n == "expect_some"@ || n == "expect_none"@ {
        lemma_value_names_reach_value_checks(call);
        reveal_strlit("expect");
        reveal_strlit("expect_eq");
        reveal_strlit("expect_ne");
        reveal_strlit("expect_some");
        reveal_strlit("expect_none");
        assert("expect_eq"@[7] != "expect_ne"@[7]);
        assert("expect_some"@[7] != "expect_none"@[7]);
        assert("expect"@.len() == 6 && "expect_eq"@.len() == 9 && "expect_ne"@.len() == 9);
        assert("expect_some"@.len() == 11 && "expect_none"@.len() == 11);
        if n == "expect_eq"@ {
            assert(n.len() == 9);
            assert(value_kind(n) == Some((ValueCheck::ExpectEq, 2nat)));
        } else if n == "expect_ne"@ {
            assert(value_kind(n) == Some((ValueCheck::ExpectNe, 2nat)));
        } else if n == "expect_none"@ {
            assert(n.len() == 11 && n != "expect_some"@ && n != "expect_ne"@ && n != "expect_eq"@);
            assert(value_kind(n) == Some((ValueCheck::ExpectNone, 1nat)));
        }
    }
}

/// Distinct constructors plan distinct value checks: two calls planned as
/// the same value check name the same constructor.
pub proof fn law_value_checks_name_one_constructor(c1: LiteralCall, c2: LiteralCall, v: ValueCheck)
    requires
        check_plan_outcome(CallArgument::Call(c1)) == Ok::<CheckPlanView, CheckFailure>(CheckPlanView::Value(v)),
        check_plan_outcome(CallArgument::Call(c2)) == Ok::<CheckPlanView, CheckFailure>(CheckPlanView::Value(v)),
    ensures
        c1.callee@ == c2.callee@,
{
}

/// The bounded trace check a constructor name spells.
fn bound_kind_of(name: &str) -> (r: Option<TraceBound>)
    ensures
        r == bound_kind(name@),
{
    if str_eq(name, "scheduler_requests_at_most") { Some(TraceBound::SchedulerRequestsAtMost) }
    else if str_eq(name, "memo_entries_at_most") { Some(TraceBound::MemoEntriesAtMost) }
    else if str_eq(name, "memo_hits_at_least") { Some(TraceBound::MemoHitsAtLeast) }
    else if str_eq(name, "store_interns_at_most") { Some(TraceBound::StoreInternsAtMost) }
    else if str_eq(name, "value_island_spawns_at_most") { Some(TraceBound::ValueIslandSpawnsAtMost) }
    else if str_eq(name, "successful_aggregate_freezes_at_most") { Some(TraceBound::SuccessfulAggregateFreezesAtMost) }
    else if str_eq(name, "active_molten_selections_at_most") { Some(TraceBound::ActiveMoltenSelectionsAtMost) }
    else if str_eq(name, "forced_copy_selections_at_most") { Some(TraceBound::ForcedCopySelectionsAtMost) }
    else if str_eq(name, "framed_bytes_at_most") { Some(TraceBound::FramedBytesAtMost) }
    else if str_eq(name, "peak_molten_bytes_at_most") { Some(TraceBound::PeakMoltenBytesAtMost) }
    else if str_eq(name, "peak_molten_nodes_at_most") { Some(TraceBound::PeakMoltenNodesAtMost) }
    else if str_eq(name, "ran_processes") { Some(TraceBound::RanProcesses) }
    else if str_eq(name, "fetched") { Some(TraceBound::Fetched) }
    else { None }
}

/// The described-wire check a constructor name spells.
fn wire_kind_of(name: &str) -> (r: Option<WireCheck>)
    ensures
        r == wire_kind(name@),
{
    if str_eq(name, "demanded") { Some(WireCheck::Demanded) }
    else if str_eq(name, "never_demanded") { Some(WireCheck::NeverDemanded) }
    else if str_eq(name, "demanded_once") { Some(WireCheck::DemandedOnce) }
    else { None }
}

/// The value check a constructor name spells, with its arity.
fn value_kind_of(name: &str) -> (r: Option<(ValueCheck, usize)>)
    ensures
        match value_kind(name@) {
            Some((v, n)) => r == Some::<(ValueCheck, usize)>((v, n as usize)) && n <= 2,
            None => r is None,
        },
{
    if str_eq(name, "expect") { Some((ValueCheck::Expect, 1)) }
    else if str_eq(name, "expect_eq") { Some((ValueCheck::ExpectEq, 2)) }
    else if str_eq(name, "expect_ne") { Some((ValueCheck::ExpectNe, 2)) }
    else if str_eq(name, "expect_some") { Some((ValueCheck::ExpectSome, 1)) }
    else if str_eq(name, "expect_none") { Some((ValueCheck::ExpectNone, 1)) }
    else { None }
}

/// Plan the lowering of a check constructor: the trace checks, which
/// describe the completed run, are read here from their literals and build
/// no node; the value checks, the snapshot check, and the checks over
/// functions and wires are told apart for the lowering of their operands.
/// A check must be a constructor call, without named arguments (but for
/// `expect_snapshot`), of a known name and arity.
pub fn plan_check(expression: &CallArgument) -> (r: Result<CheckPlan, Diagnostics>)
    requires
        expression matches CallArgument::Call(c) ==> c.args@.len() <= u32::MAX,
    ensures
        match check_plan_outcome(*expression) {
            Ok(v) => r matches Ok(p) && plan_view(p) == v,
            Err(f) => r matches Err(d) && reports_check(d, f),
        },
{
    let call = match expression {
        CallArgument::Call(call) => call,
        other => return Err(type_mismatch(span_of(other), "Check", "expression")),
    };
    let name = call.callee.as_str();
    if str_eq(name, "expect_snapshot") {
        return Ok(CheckPlan::Snapshot);
    }
    if call.named_args {
        return Err(Diagnostics::one(Diagnostic::unsupported(call.span, "named arguments on a check constructor")));
    }
    match bound_kind_of(name) {
        Some(kind) => {
            return match trace_bound(call) {
                Ok(bound) => Ok(CheckPlan::Trace(TraceCheck::Bound { kind, bound })),
                Err(d) => Err(d),
            };
        },
        None => {},
    }
    if str_eq(name, "demanded_times") {
        return Ok(CheckPlan::FunctionCalls);
    }
    match wire_kind_of(name) {
        Some(w) => return Ok(CheckPlan::DescribedWire(w)),
        None => {},
    }
    if str_eq(name, "overlapped") {
        return match check_arity(call.span, 0, call.args.len()) {
            Ok(()) => Ok(CheckPlan::Trace(TraceCheck::Overlapped)),
            Err(d) => Err(d),
        };
    }
    let read = str_eq(name, "read");
    if read || str_eq(name, "never_read") {
        return match trace_path(call) {
            Ok(path) => Ok(CheckPlan::Trace(if read { TraceCheck::Read { path } } else { TraceCheck::NeverRead { path } })),
            Err(d) => Err(d),
        };
    }
    match value_kind_of(name) {
        Some((v, n)) => match check_arity(call.span, n, call.args.len()) {
            Ok(()) => Ok(CheckPlan::Value(v)),
            Err(d) => Err(d),
        },
        None => Err(Diagnostics::one(Diagnostic {
            code: DiagnosticCode::UnknownName,
            primary: call.callee_span,
            labels: Vec::new(),
            payload: DiagnosticPayload::Name { name: owned(name) },
        })),
    }
}

} // verus!
