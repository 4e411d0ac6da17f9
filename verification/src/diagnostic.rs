//! Typed diagnostics: a stable code, a primary span, labels, and a structured
//! payload. Rendered prose is a convenience, never the identity.

use vstd::prelude::*;
use crate::support::Span;
use crate::text::{decimal, decimal_string, join, join_strings, owned, push_str, strs_view};

verus! {

/// Stable diagnostic identity.
#[derive(Clone, Copy, Debug, PartialEq, Eq, PartialOrd, Ord, Hash, Structural)]
pub enum DiagnosticCode {
    ParseRejected,
    DuplicateDefinition,
    /// An `import` of a non-`pub` item from another module.
    PrivateImport,
    InvalidTestSignature,
    UnsupportedExpression,
    TypeMismatch,
    StringIsNotPath,
    UnknownName,
    InvalidArity,
    LoweringUnsupported,
    RuntimeInvariant,
    DuplicateBinding,
    UnknownField,
    MissingField,
    DuplicateField,
    UnknownVariant,
    DuplicateVariant,
    VariantPayloadMismatch,
    NonExhaustiveMatch,
    ExpressionStatement,
    /// A command template's capability tag names nothing in scope.
    UnboundIdentifier,
    UnusedMustUse,
    UnknownMethod,
    /// A compile-time constant-fold decode of a literal document failed.
    DecodeFailed,
    /// A decode whose document is not a constant literal, or whose target type
    /// is not known from context.
    RuntimeDecodeUnavailable,
}

/// How serious a diagnostic is.
#[derive(Clone, Copy, Debug, PartialEq, Eq, PartialOrd, Ord, Hash, Structural)]
pub enum DiagnosticSeverity {
    Error,
    Warning,
}

impl DiagnosticCode {
    /// Every code is an error but `UnusedMustUse`, which warns.
    pub fn severity(self) -> (s: DiagnosticSeverity)
        ensures
            s == (if self == DiagnosticCode::UnusedMustUse {
                DiagnosticSeverity::Warning
            } else {
                DiagnosticSeverity::Error
            }),
    {
        match self {
            DiagnosticCode::UnusedMustUse => DiagnosticSeverity::Warning,
            _ => DiagnosticSeverity::Error,
        }
    }
}

/// A secondary span with its text.
#[derive(Clone, Debug, PartialEq, Eq)]
pub struct Label {
    pub span: Span,
    pub text: String,
}

/// The structured content of a diagnostic.
#[derive(Clone, Debug, PartialEq, Eq)]
pub enum DiagnosticPayload {
    Parse { detail: String },
    Name { name: String },
    Type { expected: String, found: String },
    Arity { expected: u32, found: u32 },
    Unsupported { construct: String },
    Invariant { detail: String },
    Field { record: String, field: String },
    Variant { enumeration: String, variant: String },
    Match { missing: Vec<String> },
    ExpressionStatement,
    UnusedResult { operation: String },
    /// A typed decode failure at a compile-time constant fold: the kind label,
    /// field path and document byte span are the machine-consumable truth;
    /// `detail` is a rendered convenience.
    Decode {
        format: String,
        target: String,
        kind: String,
        path: Vec<String>,
        doc_offset: Option<u32>,
        doc_len: Option<u32>,
        detail: String,
    },
    /// The runtime typed-decode seam a nonliteral or untyped-context decode
    /// would need.
    RuntimeDecode { format: String, target: Option<String> },
}

/// A diagnostic: code, primary span, labels, payload.
#[derive(Clone, Debug, PartialEq, Eq)]
pub struct Diagnostic {
    pub code: DiagnosticCode,
    pub primary: Span,
    pub labels: Vec<Label>,
    pub payload: DiagnosticPayload,
}

/// Where in a document a decode failed: ` at a.b.c`, or nothing for the root.
pub open spec fn decode_at(path: Seq<Seq<char>>) -> Seq<char> {
    if path.len() == 0 {
        seq![]
    } else {
        " at "@ + join(path, "."@)
    }
}

/// The rendered message of a diagnostic with `code` and `payload`.
pub open spec fn message_of(code: DiagnosticCode, payload: DiagnosticPayload) -> Seq<char> {
    match payload {
        DiagnosticPayload::Parse { detail } => detail@,
        DiagnosticPayload::Invariant { detail } => detail@,
        DiagnosticPayload::Name { name } => match code {
            DiagnosticCode::UnknownMethod => "unknown method "@ + name@,
            DiagnosticCode::PrivateImport => "private"@,
            DiagnosticCode::DuplicateDefinition => "duplicate name"@,
            DiagnosticCode::UnboundIdentifier => "unbound identifier `"@ + name@ + "`"@,
            _ => name@,
        },
        DiagnosticPayload::Type { expected, found } => match code {
            DiagnosticCode::StringIsNotPath => "no conversion from String to Path"@,
            _ => "expected "@ + expected@ + ", found "@ + found@,
        },
        DiagnosticPayload::Arity { expected, found } =>
            "expected "@ + decimal(expected as nat) + " arguments, found "@ + decimal(found as nat),
        DiagnosticPayload::Unsupported { construct } => construct@,
        DiagnosticPayload::Field { field, .. } => match code {
            DiagnosticCode::UnknownField => "unknown field "@ + field@,
            DiagnosticCode::MissingField => "missing field "@ + field@,
            DiagnosticCode::DuplicateField => "duplicate field "@ + field@,
            _ => field@,
        },
        DiagnosticPayload::Variant { variant, .. } => match code {
            DiagnosticCode::UnknownVariant => "unknown variant "@ + variant@,
            DiagnosticCode::DuplicateVariant => "duplicate variant "@ + variant@,
            _ => variant@,
        },
        DiagnosticPayload::Match { .. } => "non-exhaustive match"@,
        DiagnosticPayload::ExpressionStatement => "expression statement"@,
        DiagnosticPayload::UnusedResult { operation } => "unused result of `"@ + operation@ + "`"@,
        DiagnosticPayload::Decode { format, target, path, detail, .. } =>
            format@ + " decode into "@ + target@ + " failed"@ + decode_at(strs_view(path@)) + ": "@ + detail@,
        DiagnosticPayload::RuntimeDecode { format, target } => match target {
            Some(t) => "runtime typed decode is unavailable: "@ + format@ + " decode into "@ + t@
                + " needs the runtime doc-parse primitive (r[machine.primitive.typed-deserialization], not yet implemented); only compile-time-constant document literals are folded"@,
            None => "runtime typed decode is unavailable: "@ + format@
                + " decode has no target type known from context; only compile-time-constant document literals with a known target are folded"@,
        },
    }
}

/// `a ++ b`.
fn cat2(a: &str, b: &str) -> (s: String)
    ensures
        s@ == a@ + b@,
{
    let mut s = owned(a);
    push_str(&mut s, b);
    s
}

/// `a ++ b ++ c`.
fn cat3(a: &str, b: &str, c: &str) -> (s: String)
    ensures
        s@ == a@ + b@ + c@,
{
    let mut s = cat2(a, b);
    push_str(&mut s, c);
    s
}

impl Diagnostic {
    /// An unsupported-expression diagnostic naming the construct.
    pub fn unsupported(span: Span, construct: &str) -> (d: Diagnostic)
        ensures
            d.code == DiagnosticCode::UnsupportedExpression,
            d.primary == span,
            d.labels@.len() == 0,
            d.payload matches DiagnosticPayload::Unsupported { construct: c } && c@ == construct@,
    {
        Diagnostic {
            code: DiagnosticCode::UnsupportedExpression,
            primary: span,
            labels: Vec::new(),
            payload: DiagnosticPayload::Unsupported { construct: owned(construct) },
        }
    }

    /// The rendered message.
    pub fn message(&self) -> (s: String)
        ensures
            s@ == message_of(self.code, self.payload),
    {
        match &self.payload {
            DiagnosticPayload::Parse { detail } => owned(detail.as_str()),
            DiagnosticPayload::Invariant { detail } => owned(detail.as_str()),
            DiagnosticPayload::Name { name } => match self.code {
                DiagnosticCode::UnknownMethod => cat2("unknown method ", name.as_str()),
                DiagnosticCode::PrivateImport => owned("private"),
                DiagnosticCode::DuplicateDefinition => owned("duplicate name"),
                DiagnosticCode::UnboundIdentifier => cat3("unbound identifier `", name.as_str(), "`"),
                _ => owned(name.as_str()),
            },
            DiagnosticPayload::Type { expected, found } => match self.code {
                DiagnosticCode::StringIsNotPath => owned("no conversion from String to Path"),
                _ => {
                    let mut s = cat3("expected ", expected.as_str(), ", found ");
                    push_str(&mut s, found.as_str());
                    s
                },
            },
            DiagnosticPayload::Arity { expected, found } => {
                let e = decimal_string(*expected as u64);
                let f = decimal_string(*found as u64);
                let mut s = cat3("expected ", e.as_str(), " arguments, found ");
                push_str(&mut s, f.as_str());
                s
            },
            DiagnosticPayload::Unsupported { construct } => owned(construct.as_str()),
            DiagnosticPayload::Field { field, .. } => match self.code {
                DiagnosticCode::UnknownField => cat2("unknown field ", field.as_str()),
                DiagnosticCode::MissingField => cat2("missing field ", field.as_str()),
                DiagnosticCode::DuplicateField => cat2("duplicate field ", field.as_str()),
                _ => owned(field.as_str()),
            },
            DiagnosticPayload::Variant { variant, .. } => match self.code {
                DiagnosticCode::UnknownVariant => cat2("unknown variant ", variant.as_str()),
                DiagnosticCode::DuplicateVariant => cat2("duplicate variant ", variant.as_str()),
                _ => owned(variant.as_str()),
            },
            DiagnosticPayload::Match { .. } => owned("non-exhaustive match"),
            DiagnosticPayload::ExpressionStatement => owned("expression statement"),
            DiagnosticPayload::UnusedResult { operation } => cat3("unused result of `", operation.as_str(), "`"),
            DiagnosticPayload::Decode { format, target, path, detail, .. } => {
                let mut s = cat3(format.as_str(), " decode into ", target.as_str());
                push_str(&mut s, " failed");
                if path.len() > 0 {
                    push_str(&mut s, " at ");
                    let joined = join_strings(path, ".");
                    push_str(&mut s, joined.as_str());
                } else {
                    assert(s@ + decode_at(strs_view(path@)) =~= s@);
                }
                push_str(&mut s, ": ");
                push_str(&mut s, detail.as_str());
                s
            },
            DiagnosticPayload::RuntimeDecode { format, target } => match target {
                Some(t) => {
                    let mut s = cat3("runtime typed decode is unavailable: ", format.as_str(), " decode into ");
                    push_str(&mut s, t.as_str());
                    push_str(&mut s, " needs the runtime doc-parse primitive (r[machine.primitive.typed-deserialization], not yet implemented); only compile-time-constant document literals are folded");
                    s
                },
                None => cat3(
                    "runtime typed decode is unavailable: ",
                    format.as_str(),
                    " decode has no target type known from context; only compile-time-constant document literals with a known target are folded",
                ),
            },
        }
    }
}

/// A set of diagnostics.
#[derive(Clone, Debug, PartialEq, Eq)]
pub struct Diagnostics {
    pub entries: Vec<Diagnostic>,
}

impl Default for Diagnostics {
    /// No diagnostics.
    fn default() -> (d: Self)
        ensures
            d.entries@.len() == 0,
    {
        Diagnostics { entries: Vec::new() }
    }
}

impl Diagnostics {
    /// Exactly one diagnostic.
    pub fn one(diagnostic: Diagnostic) -> (d: Diagnostics)
        ensures
            d.entries@ == seq![diagnostic],
    {
        let mut entries: Vec<Diagnostic> = Vec::new();
        entries.push(diagnostic);
        assert(entries@ =~= seq![diagnostic]);
        Diagnostics { entries }
    }

    /// The summary line: how many diagnostics there are.
    pub fn describe(&self) -> (s: String)
        ensures
            s@ == decimal(self.entries@.len()) + " Vix diagnostic(s)"@,
    {
        let n = decimal_string(self.entries.len() as u64);
        cat2(n.as_str(), " Vix diagnostic(s)")
    }
}

} // verus!
