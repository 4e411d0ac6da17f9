//! The must-use lint: the result of a collection update (`+`, `++`, `with`)
//! or a `Check` that nothing consumes is a warning. A node's result is
//! consumed when another node of its function takes it as an input, when it
//! is the function's output, or when the function yields it as a check.
//!
//! Functions are read here through what the lint needs of them: each node's
//! identity, span, inputs, operation and type.

use vstd::prelude::*;
use crate::support::Span;
use crate::vir::{NodeId, Type};
use crate::diagnostic::{Diagnostic, DiagnosticCode, DiagnosticPayload, Diagnostics};
use crate::text::owned;

verus! {

/// The operations whose results must be used; every other is `Other`.
#[derive(Clone, Copy, Debug, PartialEq, Eq, Structural)]
pub enum LintOp {
    ArrayAppend,
    ArrayConcat,
    MapAdd,
    SetAdd,
    MapConcat,
    SetConcat,
    MapWith,
    Other,
}

/// One node of a lowered function.
#[derive(Debug, PartialEq, Eq)]
pub struct LintNode {
    pub id: NodeId,
    pub span: Span,
    pub inputs: Vec<NodeId>,
    pub op: LintOp,
    pub ty: Type,
}

/// A lowered function: its nodes, its output, and the checks it yields.
#[derive(Debug, PartialEq, Eq)]
pub struct LintFunction {
    pub nodes: Vec<LintNode>,
    pub output: Option<NodeId>,
    pub yielded_checks: Vec<NodeId>,
}

/// The operation a must-use node's warning names, or `None` for a node
/// whose result may be dropped.
pub open spec fn must_use_label(op: LintOp, ty: Type) -> Option<Seq<char>> {
    match op {
        LintOp::ArrayAppend => Some("+"@),
        LintOp::ArrayConcat => Some("++"@),
        LintOp::MapAdd | LintOp::SetAdd => Some("+"@),
        LintOp::MapConcat | LintOp::SetConcat => Some("++"@),
        LintOp::MapWith => Some("with"@),
        LintOp::Other => if ty is Check { Some("Check"@) } else { None },
    }
}

/// The inputs of the first `n` nodes, in order.
pub open spec fn inputs_of(nodes: Seq<LintNode>, n: int) -> Seq<NodeId>
    decreases n,
{
    if n <= 0 {
        seq![]
    } else {
        inputs_of(nodes, n - 1) + nodes[n - 1].inputs@
    }
}

/// Every node id a function consumes.
pub open spec fn consumed_ids(f: LintFunction) -> Seq<NodeId> {
    inputs_of(f.nodes@, f.nodes@.len() as int) + (match f.output {
        Some(o) => seq![o],
        None => seq![],
    }) + f.yielded_checks@
}

/// The warnings of the first `n` nodes of `f`: span and operation of each
/// must-use node that `f` does not consume, in node order.
pub open spec fn unused_after(f: LintFunction, n: int) -> Seq<(Span, Seq<char>)>
    decreases n,
{
    if n <= 0 {
        seq![]
    } else {
        let prev = unused_after(f, n - 1);
        let node = f.nodes@[n - 1];
        match must_use_label(node.op, node.ty) {
            Some(label) => if consumed_ids(f).contains(node.id) { prev } else { prev.push((node.span, label)) },
            None => prev,
        }
    }
}

/// The warnings of the first `n` functions, function by function.
pub open spec fn module_warnings(functions: Seq<LintFunction>, n: int) -> Seq<(Span, Seq<char>)>
    decreases n,
{
    if n <= 0 {
        seq![]
    } else {
        module_warnings(functions, n - 1) + unused_after(functions[n - 1], functions[n - 1].nodes@.len() as int)
    }
}

/// A diagnostic as a must-use warning: its span and operation.
pub open spec fn warning_view(d: Diagnostic) -> Option<(Span, Seq<char>)> {
    match d.payload {
        DiagnosticPayload::UnusedResult { operation } => if d.code == DiagnosticCode::UnusedMustUse
            && d.labels@.len() == 0 { Some((d.primary, operation@)) } else { None },
        _ => None,
    }
}

/// Diagnostics as must-use warnings.
pub open spec fn warnings_view(ds: Seq<Diagnostic>) -> Seq<Option<(Span, Seq<char>)>> {
    ds.map_values(|d: Diagnostic| warning_view(d))
}

/// Warnings as diagnostics.
pub open spec fn as_found(ws: Seq<(Span, Seq<char>)>) -> Seq<Option<(Span, Seq<char>)>> {
    ws.map_values(|w: (Span, Seq<char>)| Some(w))
}

/// The operation a node's warning names, if its result must be used.
fn node_label(node: &LintNode) -> (r: Option<&'static str>)
    ensures
        match must_use_label(node.op, node.ty) {
            Some(l) => r matches Some(s) && s@ == l,
            None => r is None,
        },
{
    match node.op {
        LintOp::ArrayAppend => Some("+"),
        LintOp::ArrayConcat => Some("++"),
        LintOp::MapAdd | LintOp::SetAdd => Some("+"),
        LintOp::MapConcat | LintOp::SetConcat => Some("++"),
        LintOp::MapWith => Some("with"),
        LintOp::Other => match node.ty {
            Type::Check => Some("Check"),
            _ => None,
        },
    }
}

/// The node ids a function consumes.
fn consumed_of(f: &LintFunction) -> (ids: Vec<NodeId>)
    ensures
        ids@ == consumed_ids(*f),
{
    let mut ids: Vec<NodeId> = Vec::new();
    let mut i: usize = 0;
    while i < f.nodes.len()
        invariant
            i <= f.nodes@.len(),
            ids@ == inputs_of(f.nodes@, i as int),
        decreases f.nodes@.len() - i,
    {
        let inputs = &f.nodes[i].inputs;
        let ghost before = ids@;
        let mut k: usize = 0;
        while k < inputs.len()
            invariant
                k <= inputs@.len(),
                ids@ == before + inputs@.take(k as int),
            decreases inputs@.len() - k,
        {
            ids.push(inputs[k]);
            assert(ids@ =~= before + inputs@.take(k as int + 1));
            k = k + 1;
        }
        assert(inputs@.take(inputs@.len() as int) =~= inputs@);
        i = i + 1;
    }
    let ghost before = ids@;
    match f.output {
        Some(o) => {
            ids.push(o);
        },
        None => {},
    }
    let ghost mid = ids@;
    assert(mid =~= before + (match f.output { Some(o) => seq![o], None => seq![] }));
    let mut k: usize = 0;
    while k < f.yielded_checks.len()
        invariant
            k <= f.yielded_checks@.len(),
            ids@ == mid + f.yielded_checks@.take(k as int),
        decreases f.yielded_checks@.len() - k,
    {
        ids.push(f.yielded_checks[k]);
        assert(ids@ =~= mid + f.yielded_checks@.take(k as int + 1));
        k = k + 1;
    }
    assert(f.yielded_checks@.take(f.yielded_checks@.len() as int) =~= f.yielded_checks@);
    ids
}

/// Whether `id` occurs in `ids`.
fn contains_id(ids: &Vec<NodeId>, id: NodeId) -> (r: bool)
    ensures
        r == ids@.contains(id),
{
    let mut k: usize = 0;
    while k < ids.len()
        invariant
            k <= ids@.len(),
            forall|j: int| 0 <= j < k ==> ids@[j] != id,
        decreases ids@.len() - k,
    {
        if ids[k].0 == id.0 {
            assert(ids@[k as int] == id);
            return true;
        }
        k = k + 1;
    }
    false
}

/// The must-use warnings of a lowered module's functions: one per must-use
/// node that its function does not consume, function by function in node
/// order.
pub fn lint_module(functions: &[LintFunction]) -> (d: Diagnostics)
    ensures
        warnings_view(d.entries@) == as_found(module_warnings(functions@, functions@.len() as int)),
{
    let mut entries: Vec<Diagnostic> = Vec::new();
    let mut i: usize = 0;
    while i < functions.len()
        invariant
            i <= functions@.len(),
            warnings_view(entries@) == as_found(module_warnings(functions@, i as int)),
        decreases functions@.len() - i,
    {
        let function = &functions[i];
        let consumed = consumed_of(function);
        let ghost start = module_warnings(functions@, i as int);
        let mut k: usize = 0;
        while k < function.nodes.len()
            invariant
                k <= function.nodes@.len(),
                consumed@ == consumed_ids(*function),
                warnings_view(entries@) == as_found(start + unused_after(*function, k as int)),
            decreases function.nodes@.len() - k,
        {
            let node = &function.nodes[k];
            let label = node_label(node);
            match label {
                Some(operation) => {
                    if !contains_id(&consumed, node.id) {
                        let ghost before = entries@;
                        let diagnostic = Diagnostic {
                            code: DiagnosticCode::UnusedMustUse,
                            primary: node.span,
                            labels: Vec::new(),
                            payload: DiagnosticPayload::UnusedResult { operation: owned(operation) },
                        };
                        entries.push(diagnostic);
                        proof {
                            let w = (node.span, operation@);
                            assert(unused_after(*function, k as int + 1) == unused_after(*function, k as int).push(w));
                            assert(start + unused_after(*function, k as int).push(w)
                                =~= (start + unused_after(*function, k as int)).push(w));
                            assert(warnings_view(entries@) =~= warnings_view(before).push(Some(w)));
                            assert(as_found((start + unused_after(*function, k as int)).push(w))
                                =~= as_found(start + unused_after(*function, k as int)).push(Some(w)));
                        }
                    }
                },
                None => {},
            }
            k = k + 1;
        }
        i = i + 1;
    }
    Diagnostics { entries }
}

} // verus!
