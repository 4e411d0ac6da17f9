//! Method-call resolution: what `recv.name(args)` lowers to, once the
//! receiver is lowered and its type known. A builtin method of the
//! receiver's type wins, then a method the embedder injects for it. With
//! neither, uniform function-call syntax applies: `recv.name(args)` calls a
//! free function `name` whose sole positional parameter is the receiver. A
//! concrete function wins when its receiver parameter has the receiver's type,
//! or when no generic function of that name exists; otherwise the generic
//! template is instantiated. A method takes exactly its arity of positional
//! arguments, and `sorted` is the only one that accepts a named argument.

use vstd::prelude::*;
use crate::support::{Span, Spanned};
use crate::strmap::StrMap;
use crate::vir::{Type, type_eq};
use crate::binding::{MethodDecl, MethodLowering, MethodOp, MethodResolution, ReceiverView, first_decl, injected_method,
    injected_resolution, prelude_method, prelude_resolution, receiver_of, resolution_opt};
use crate::diagnostic::{Diagnostic, DiagnosticCode, Diagnostics};
use crate::compiler::{invalid_arity, is_invalid_arity, is_name_diagnostic, is_unsupported, name_diagnostic};

verus! {

/// A method call as its resolution reads it.
#[derive(Clone, Debug, PartialEq)]
pub struct MethodCallShape {
    /// The whole call's span.
    pub span: Span,
    /// The method's name.
    pub name: Spanned<String>,
    /// How many positional arguments it passes.
    pub positional: usize,
    /// The span of its named arguments, if it has any.
    pub named_span: Option<Span>,
    /// The receiver is a `/` projection chain (`base / "a" / "b"`).
    pub tree_projection: bool,
}

/// What a method call lowers to.
#[derive(Clone, Copy, Debug)]
pub enum MethodTarget {
    /// A builtin or injected receiver method.
    Method(MethodResolution),
    /// A concrete free function, by uniform function-call syntax.
    Uniform,
    /// A generic free function, instantiated for the receiver.
    UniformGeneric,
}

/// A method target by its value.
pub enum MethodTargetView {
    Method(MethodLowering, usize),
    Uniform,
    UniformGeneric,
}

/// A method target's value.
pub open spec fn target_view(t: MethodTarget) -> MethodTargetView {
    match t {
        MethodTarget::Method(m) => MethodTargetView::Method(m.lowering, m.arity),
        MethodTarget::Uniform => MethodTargetView::Uniform,
        MethodTarget::UniformGeneric => MethodTargetView::UniformGeneric,
    }
}

/// Why a method call resolves to nothing.
pub enum MethodFailure {
    /// No method or function of this name, at the name's span.
    Unknown(Span, Seq<char>),
    /// The method's arity and the positional count passed, at the call.
    Arity(Span, nat, nat),
    /// Named arguments on a method other than `sorted`, at their span.
    NamedArguments(Span),
}

/// `d` is the diagnostic that reports `f`.
pub open spec fn reports_method(d: Diagnostics, f: MethodFailure) -> bool {
    match f {
        MethodFailure::Unknown(span, name) => is_name_diagnostic(d, DiagnosticCode::UnknownMethod, span, name),
        MethodFailure::Arity(span, e, found) => is_invalid_arity(d, span, e as u32, found as u32),
        MethodFailure::NamedArguments(span) => is_unsupported(d, span, "named method arguments"@),
    }
}

/// The receiver method `name` names for `receiver`: builtin first, then
/// injected.
pub open spec fn method_entry(methods: Seq<MethodDecl>, receiver: Type, name: Seq<char>) -> Option<(MethodLowering, usize)> {
    match prelude_resolution(receiver, name) {
        Some(e) => Some(e),
        None => injected_resolution(methods, receiver, name),
    }
}

/// How a method call on a receiver of type `receiver` resolves, given the
/// injected `methods`, the free functions' first positional parameter types
/// (`None` for a function without one) and the names of generic functions.
pub open spec fn method_call_outcome(call: MethodCallShape, receiver: Type, methods: Seq<MethodDecl>,
    signatures: Map<Seq<char>, Option<Type>>, generics: Set<Seq<char>>) -> Result<MethodTargetView, MethodFailure>
{
    let name = call.name.value@;
    match method_entry(methods, receiver, name) {
        None => {
            let has_generic = generics.contains(name);
            if signatures.contains_key(name) {
                let receiver_matches = signatures[name] matches Some(t) && type_eq(t, receiver);
                if receiver_matches || !has_generic {
                    Ok(MethodTargetView::Uniform)
                } else {
                    Ok(MethodTargetView::UniformGeneric)
                }
            } else if has_generic {
                Ok(MethodTargetView::UniformGeneric)
            } else {
                Err(MethodFailure::Unknown(call.name.span, name))
            }
        },
        Some((lowering, arity)) => if call.positional != arity {
            Err(MethodFailure::Arity(call.span, arity as nat, call.positional as nat))
        } else if call.named_span is Some && lowering != MethodLowering::DedicatedOp(MethodOp::ArraySorted) {
            Err(MethodFailure::NamedArguments(call.named_span->Some_0))
        } else {
            Ok(MethodTargetView::Method(lowering, arity))
        },
    }
}

/// The first declaration for `receiver` named `name`, searching from `i`, is
/// `k` when `k` matches and none between `i` and `k` does.
proof fn lemma_first_decl_is(methods: Seq<MethodDecl>, receiver: ReceiverView, name: Seq<char>, i: int, k: int)
    requires
        0 <= i <= k < methods.len(),
        methods[k].receiver@ == receiver && methods[k].name@ == name,
        forall|j: int| i <= j < k ==> !(methods[j].receiver@ == receiver && methods[j].name@ == name),
    ensures
        first_decl(methods, receiver, name, i) == Some(k),
    decreases k - i,
{
    if i < k {
        lemma_first_decl_is(methods, receiver, name, i + 1, k);
    }
}

/// An injected method serves where no builtin one does: when the receiver's
/// type has no builtin method `name`, and `methods[k]` is the first injected
/// declaration for the receiver's kind with that name, a call of `name`
/// resolves to that declaration's lowering and arity when it passes exactly
/// that many positional arguments and no named ones, and is refused for its
/// arity when it passes another count. Free and generic functions of the
/// same name play no part.
pub proof fn law_injected_method_serves_unclaimed_names(call: MethodCallShape, receiver: Type,
    methods: Seq<MethodDecl>, signatures: Map<Seq<char>, Option<Type>>, generics: Set<Seq<char>>, k: int)
    requires
        prelude_resolution(receiver, call.name.value@) is None,
        receiver_of(receiver) is Some,
        0 <= k < methods.len(),
        receiver_of(receiver) == Some(methods[k].receiver@),
        methods[k].name@ == call.name.value@,
        forall|j: int| 0 <= j < k ==> !(Some(#[trigger] methods[j].receiver@) == receiver_of(receiver)
            && methods[j].name@ == call.name.value@),
    ensures
        call.positional == methods[k].arity && call.named_span is None ==> method_call_outcome(call, receiver, methods,
            signatures, generics) == Ok::<MethodTargetView, MethodFailure>(
            MethodTargetView::Method(methods[k].lowering, methods[k].arity)),
        call.positional != methods[k].arity ==> method_call_outcome(call, receiver, methods, signatures, generics)
            == Err::<MethodTargetView, MethodFailure>(
            MethodFailure::Arity(call.span, methods[k].arity as nat, call.positional as nat)),
{
    let r = receiver_of(receiver)->Some_0;
    lemma_first_decl_is(methods, r, call.name.value@, 0, k);
}

/// A builtin method wins over everything else of its name: when the
/// receiver's type has a builtin method `name`, a call of `name` with that
/// method's arity of positional arguments and no named ones resolves to it,
/// whatever methods the embedder injects and whatever free or generic
/// functions share the name.
pub proof fn law_builtin_method_wins(call: MethodCallShape, receiver: Type, methods: Seq<MethodDecl>,
    signatures: Map<Seq<char>, Option<Type>>, generics: Set<Seq<char>>, lowering: MethodLowering, arity: usize)
    requires
        prelude_resolution(receiver, call.name.value@) == Some((lowering, arity)),
        call.positional == arity,
        call.named_span is None,
    ensures
        method_call_outcome(call, receiver, methods, signatures, generics) == Ok::<MethodTargetView, MethodFailure>(
            MethodTargetView::Method(lowering, arity)),
{
}

/// A `text()` call on a `/` projection chain, without arguments, reads a
/// tree entry's text; it is lowered before its receiver is.
pub open spec fn is_tree_text(call: MethodCallShape) -> bool {
    call.name.value@ == "text"@ && call.positional == 0 && call.named_span is None && call.tree_projection
}

/// Is this call the text of a tree projection, lowered before its receiver?
pub fn tree_text_projection(call: &MethodCallShape) -> (r: bool)
    ensures
        r == is_tree_text(*call),
{
    crate::text::str_eq(call.name.value.as_str(), "text") && call.positional == 0 && call.named_span.is_none()
        && call.tree_projection
}

/// Resolve a method call on a lowered receiver of type `receiver`.
pub fn resolve_method_call(call: &MethodCallShape, receiver: &Type, methods: &[MethodDecl],
    signatures: &StrMap<Option<Type>>, generics: &StrMap<()>) -> (r: Result<MethodTarget, Diagnostics>)
    requires
        call.positional <= u32::MAX,
        method_entry(methods@, *receiver, call.name.value@) matches Some((_, arity)) ==> arity <= u32::MAX,
    ensures
        match method_call_outcome(*call, *receiver, methods@, signatures@, generics@.dom()) {
            Ok(v) => r matches Ok(t) && target_view(t) == v,
            Err(f) => r matches Err(d) && reports_method(d, f),
        },
{
    let name = call.name.value.as_str();
    let entry = match prelude_method(receiver, name) {
        Some(e) => Some(e),
        None => injected_method(methods, receiver, name),
    };
    let entry = match entry {
        Some(e) => e,
        None => {
            let has_generic = generics.get_str(name).is_some();
            match signatures.get_str(name) {
                Some(first) => {
                    let receiver_matches = match first {
                        Some(t) => t.same(receiver),
                        None => false,
                    };
                    if receiver_matches || !has_generic {
                        return Ok(MethodTarget::Uniform);
                    }
                    return Ok(MethodTarget::UniformGeneric);
                },
                None => {},
            }
            if has_generic {
                return Ok(MethodTarget::UniformGeneric);
            }
            return Err(name_diagnostic(DiagnosticCode::UnknownMethod, call.name.span, name));
        },
    };
    if call.positional != entry.arity {
        return Err(invalid_arity(call.span, entry.arity, call.positional));
    }
    match call.named_span {
        Some(span) => {
            let sorted = match entry.lowering {
                MethodLowering::DedicatedOp(MethodOp::ArraySorted) => true,
                _ => false,
            };
            if !sorted {
                return Err(Diagnostics::one(Diagnostic::unsupported(span, "named method arguments")));
            }
        },
        None => {},
    }
    Ok(MethodTarget::Method(entry))
}

} // verus!
