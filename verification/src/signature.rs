//! Decisions the compiler front takes on a function's declared signature
//! before lowering it: whether a `Stream` crosses its call boundary (such a
//! function is always inlined: a stream recipe resolves only within one
//! function's node slice), and whether a test's signature is valid (its
//! positional parameters are exactly capability inputs, and it returns
//! `Stream<Check>`).

use vstd::prelude::*;
use crate::support::{Span, Spanned};
use crate::vir::Type;
use crate::diagnostic::{Diagnostic, DiagnosticCode, DiagnosticPayload, Diagnostics};
use crate::compiler::{is_capability_type, capability_shaped, path_name, spanned_texts};
use crate::text::{join, owned, str_eq};

verus! {

/// A type as written in source.
#[derive(Debug, PartialEq)]
pub enum SurfaceType {
    /// A type path, by its segments.
    Path(Vec<Spanned<String>>),
    /// `Base<args>`.
    Generic { base: Vec<Spanned<String>>, args: Vec<SurfaceType> },
    /// `[elem]`.
    Array(Box<SurfaceType>),
    /// `(a, b, …)`.
    Tuple(Vec<SurfaceType>),
    /// `parameter -> result`.
    Function { parameter: Box<SurfaceType>, result: Box<SurfaceType> },
}

/// The segments of a type path, joined with `::`.
pub open spec fn path_text(segments: Seq<Spanned<String>>) -> Seq<char> {
    join(spanned_texts(segments), "::"@)
}

/// The type mentions `Stream<..>` anywhere in its shape.
pub open spec fn mentions_stream(t: SurfaceType) -> bool
    decreases t, 1int,
{
    match t {
        SurfaceType::Generic { base, args } => path_text(base@) == "Stream"@ || any_mentions_stream(args@),
        SurfaceType::Array(elem) => mentions_stream(*elem),
        SurfaceType::Tuple(elems) => any_mentions_stream(elems@),
        SurfaceType::Function { parameter, result } => mentions_stream(*parameter) || mentions_stream(*result),
        SurfaceType::Path(_) => false,
    }
}

/// Some type of the list mentions `Stream<..>`.
pub open spec fn any_mentions_stream(ts: Seq<SurfaceType>) -> bool
    decreases ts, 0int,
{
    exists|i: int| 0 <= i < ts.len() && mentions_stream(#[trigger] ts[i])
}

/// Does a source type mention a `Stream<..>` anywhere in its shape?
pub fn ast_type_mentions_stream(ty: &SurfaceType) -> (r: bool)
    ensures
        r == mentions_stream(*ty),
    decreases *ty, 1int,
{
    match ty {
        SurfaceType::Generic { base, args } => {
            let name = path_name(base.as_slice());
            if str_eq(name.as_str(), "Stream") {
                return true;
            }
            proof { assert(decreases_to!(*ty => args@)); }
            any_type_mentions_stream(args)
        },
        SurfaceType::Array(elem) => ast_type_mentions_stream(elem),
        SurfaceType::Tuple(elems) => {
            proof { assert(decreases_to!(*ty => elems@)); }
            any_type_mentions_stream(elems)
        },
        SurfaceType::Function { parameter, result } =>
            ast_type_mentions_stream(parameter) || ast_type_mentions_stream(result),
        SurfaceType::Path(_) => false,
    }
}

/// Does some type of the list mention a `Stream<..>`?
fn any_type_mentions_stream(ts: &Vec<SurfaceType>) -> (r: bool)
    ensures
        r == any_mentions_stream(ts@),
    decreases ts@, 0int,
{
    let mut i: usize = 0;
    while i < ts.len()
        invariant
            i <= ts@.len(),
            forall|j: int| 0 <= j < i ==> !mentions_stream(#[trigger] ts@[j]),
        decreases ts@.len() - i,
    {
        proof { assert(decreases_to!(ts@ => ts@[i as int])); }
        if ast_type_mentions_stream(&ts[i]) {
            return true;
        }
        i = i + 1;
    }
    false
}

/// A function's declared signature: positional parameter types, the types
/// of its inline `where` parameters (if it has a `where` clause, and then
/// if that clause declares typed parameters inline), and its return type.
#[derive(Debug, PartialEq)]
pub struct DeclaredSignature {
    pub params: Vec<SurfaceType>,
    pub where_params: Option<Option<Vec<SurfaceType>>>,
    pub return_type: Option<SurfaceType>,
}

/// The declared types of a signature's inline `where` parameters.
pub open spec fn where_types(s: DeclaredSignature) -> Seq<SurfaceType> {
    match s.where_params {
        Some(Some(ts)) => ts@,
        _ => seq![],
    }
}

/// A `Stream` crosses the signature: in a positional or inline `where`
/// parameter, or in the return type.
pub open spec fn carries_stream(s: DeclaredSignature) -> bool {
    ||| any_mentions_stream(s.params@)
    ||| any_mentions_stream(where_types(s))
    ||| (s.return_type matches Some(t) && mentions_stream(t))
}

/// Does this function carry a `Stream` across its call boundary, as a
/// parameter or its return type? Such a function is always inlined.
pub fn signature_carries_stream(function: &DeclaredSignature) -> (r: bool)
    ensures
        r == carries_stream(*function),
{
    if any_type_mentions_stream(&function.params) {
        return true;
    }
    match &function.where_params {
        Some(Some(ts)) => {
            if any_type_mentions_stream(ts) {
                return true;
            }
        },
        _ => {},
    }
    match &function.return_type {
        Some(t) => ast_type_mentions_stream(t),
        None => false,
    }
}

/// A type path of one segment, `expected`.
pub open spec fn path_is(segments: Seq<Spanned<String>>, expected: Seq<char>) -> bool {
    segments.len() == 1 && segments[0].value@ == expected
}

/// The source type is `Stream<Check>`.
pub open spec fn stream_check(t: SurfaceType) -> bool {
    match t {
        SurfaceType::Generic { base, args } => path_is(base@, "Stream"@) && args@.len() == 1
            && (args@[0] matches SurfaceType::Path(p) && path_is(p@, "Check"@)),
        _ => false,
    }
}

/// A type path of the one segment `expected`.
fn path_is_exec(segments: &Vec<Spanned<String>>, expected: &str) -> (r: bool)
    ensures
        r == path_is(segments@, expected@),
{
    segments.len() == 1 && str_eq(segments[0].value.as_str(), expected)
}

/// Is a source type `Stream<Check>`?
pub fn is_stream_check_type(ty: &SurfaceType) -> (r: bool)
    ensures
        r == stream_check(*ty),
{
    match ty {
        SurfaceType::Generic { base, args } => {
            if !path_is_exec(base, "Stream") || args.len() != 1 {
                return false;
            }
            match &args[0] {
                SurfaceType::Path(p) => path_is_exec(p, "Check"),
                _ => false,
            }
        },
        _ => false,
    }
}

/// A test function as the signature check reads it: its span and name,
/// the declared signature, the lowered type of each positional parameter
/// (`None` where the declared type does not lower), and whether it declares
/// generic parameters.
#[derive(Debug, PartialEq)]
pub struct TestFunction {
    pub span: Span,
    pub name: Spanned<String>,
    pub signature: DeclaredSignature,
    pub lowered_params: Vec<Option<Type>>,
    pub generic: bool,
}

/// Each positional parameter lowers to a capability type.
pub open spec fn capability_params_only(lowered: Seq<Option<Type>>) -> bool {
    forall|i: int| 0 <= i < lowered.len() ==> (#[trigger] lowered[i] matches Some(t) && capability_shaped(t))
}

/// A valid test signature: capability parameters only, no `where` clause,
/// a `Stream<Check>` return type, and no generics.
pub open spec fn valid_test_signature(f: TestFunction) -> bool {
    &&& capability_params_only(f.lowered_params@)
    &&& f.signature.where_params is None
    &&& (f.signature.return_type matches Some(t) && stream_check(t))
    &&& !f.generic
}

/// `d` is the invalid-test-signature diagnostic for `f`.
pub open spec fn is_invalid_test_signature(d: Diagnostics, f: TestFunction) -> bool {
    &&& d.entries@.len() == 1
    &&& d.entries@[0].code == DiagnosticCode::InvalidTestSignature
    &&& d.entries@[0].primary == f.span
    &&& d.entries@[0].labels@.len() == 0
    &&& d.entries@[0].payload matches DiagnosticPayload::Type { expected: e, found: n }
        && e@ == "fn(capabilities…) -> Stream<Check>"@ && n@ == f.name.value@
}

/// A test's positional parameters are exactly its capability inputs, typed
/// values the harness supplies by identity, and it returns `Stream<Check>`;
/// anything else in the signature is invalid.
pub fn check_test_signature(function: &TestFunction) -> (r: Result<(), Diagnostics>)
    ensures
        valid_test_signature(*function) ==> r is Ok,
        !valid_test_signature(*function) ==> (r matches Err(d) && is_invalid_test_signature(d, *function)),
{
    let valid_return = match &function.signature.return_type {
        Some(t) => is_stream_check_type(t),
        None => false,
    };
    let mut capability_only = true;
    let mut i: usize = 0;
    while i < function.lowered_params.len()
        invariant
            i <= function.lowered_params@.len(),
            capability_only == forall|j: int| 0 <= j < i ==>
                (#[trigger] function.lowered_params@[j] matches Some(t) && capability_shaped(t)),
        decreases function.lowered_params@.len() - i,
    {
        let ok = match &function.lowered_params[i] {
            Some(t) => is_capability_type(t),
            None => false,
        };
        if !ok {
            capability_only = false;
        }
        i = i + 1;
    }
    if !capability_only || function.signature.where_params.is_some() || !valid_return || function.generic {
        return Err(Diagnostics::one(Diagnostic {
            code: DiagnosticCode::InvalidTestSignature,
            primary: function.span,
            labels: Vec::new(),
            payload: DiagnosticPayload::Type {
                expected: owned("fn(capabilities…) -> Stream<Check>"),
                found: owned(function.name.value.as_str()),
            },
        }));
    }
    Ok(())
}

} // verus!
