//! The compiler's self-contained pieces: its configuration, the built-in
//! capability and exec result types, the unit-bearing literals (durations and
//! byte sizes), path-literal validation, the spelling of instantiated generic
//! names, and the diagnostics it raises.
//!
//! The lowering builds on these: `surface` holds the syntax tree,
//! `lowering` the IR's node list with the operators' and literals' nodes,
//! `values` the lowering of value expressions over the tree, and `methods`
//! and `trace` the decisions of method calls and checks.

use vstd::prelude::*;
use crate::binding::{HostTypeDecl, MethodDecl, TREE};
use crate::decode::{DecodeError, DecodeFormat, format_label, kind_label, kind_render, kind_view, error_view};
use crate::diagnostic::{Diagnostic, DiagnosticCode, DiagnosticPayload, Diagnostics, Label};
use crate::support::{Span, Spanned};
use crate::strmap::StrMap;
use crate::text::{chars_lt, seq_lt, lemma_seq_lt_total, lemma_seq_lt_transitive, chars_of, find_char, find_char_exec, owned, push_str, slice_chars, split_chars, split_on,
    string_of, str_eq, strs_view, join};
use crate::vir::{EnumType, EnumVariant, ExternKind, NodeId, RecordField, RecordType, Type, spelling, tuple_names, type_eq};

verus! {

// ---------------------------------------------------------------------------
// Configuration
// ---------------------------------------------------------------------------

/// Compile-time knobs and the embedder's injected declarations.
#[derive(Clone, Copy, Debug, PartialEq, Eq)]
pub struct CompilerConfig {
    /// Keep the semantic copy path for every `Array.fold`, even where the
    /// one-item-append shape would be admitted molten.
    pub force_molten_copy: bool,
    /// Make scalar user calls in observable source-revision audits
    /// scheduler-owned demand boundaries.
    pub force_scalar_call_boundaries: bool,
    /// Prelude source functions merged into every compilation, if absent.
    pub prelude: &'static [&'static str],
    /// Receiver-method declarations the embedder injects.
    pub methods: &'static [MethodDecl],
    /// Host-type declarations the embedder injects.
    pub host_types: &'static [HostTypeDecl],
}

impl Default for CompilerConfig {
    /// Both knobs off, and nothing injected: the bare language.
    fn default() -> (c: Self)
        ensures
            !c.force_molten_copy,
            !c.force_scalar_call_boundaries,
            c.prelude@.len() == 0,
            c.methods@.len() == 0,
            c.host_types@.len() == 0,
    {
        CompilerConfig {
            force_molten_copy: false,
            force_scalar_call_boundaries: false,
            prelude: &[],
            methods: &[],
            host_types: &[],
        }
    }
}

/// One named library module presented alongside a root compilation.
#[derive(Clone, Copy, Debug)]
pub struct ModuleSource<'a> {
    /// The name imports and qualified paths use (`geometry`).
    pub name: &'a str,
    /// The module's Vix source text.
    pub source: &'a str,
}

// ---------------------------------------------------------------------------
// Built-in types
// ---------------------------------------------------------------------------

/// The single opaque field carrying a capability's executable identity.
pub const CAPABILITY_PROGRAM_FIELD: &'static str = "$program";

/// The capability types a test can receive as parameters.
pub fn capability_type_names() -> (names: Vec<&'static str>)
    ensures
        names@.map_values(|s: &'static str| s@) == seq!["Echo"@, "Sh"@, "ProgressiveSh"@],
{
    let mut names: Vec<&'static str> = Vec::new();
    names.push("Echo");
    names.push("Sh");
    names.push("ProgressiveSh");
    assert(names@.map_values(|s: &'static str| s@) =~= seq!["Echo"@, "Sh"@, "ProgressiveSh"@]);
    names
}

/// A record type `name` with the given fields, each `(name, type)`.
pub open spec fn is_record(ty: Type, name: Seq<char>, fields: Seq<(Seq<char>, Type)>) -> bool {
    ty matches Type::Record(r) && r.name@ == name && r.fields@.len() == fields.len()
        && forall|i: int| 0 <= i < fields.len() ==>
            (#[trigger] r.fields@[i]).name@ == fields[i].0 && r.fields@[i].ty == fields[i].1
}

/// The opaque capability type `name`: one `$program` string field.
pub fn capability_type(name: &str) -> (ty: Type)
    ensures
        is_record(ty, name@, seq![(CAPABILITY_PROGRAM_FIELD@, Type::String)]),
{
    let mut fields: Vec<RecordField> = Vec::new();
    fields.push(RecordField { name: owned(CAPABILITY_PROGRAM_FIELD), ty: Type::String });
    Type::Record(RecordType::new(name, fields))
}

/// A record of exactly one field named `$program`.
pub open spec fn capability_shaped(ty: Type) -> bool {
    ty matches Type::Record(r) && r.fields@.len() == 1 && r.fields@[0].name@ == CAPABILITY_PROGRAM_FIELD@
}

/// Is `ty` a capability type?
pub fn is_capability_type(ty: &Type) -> (b: bool)
    ensures
        b == capability_shaped(*ty),
{
    match ty {
        Type::Record(record) => record.fields.len() == 1
            && str_eq(record.fields[0].name.as_str(), CAPABILITY_PROGRAM_FIELD),
        _ => false,
    }
}

/// The map type `Map<Int, String>` of an output stream's lines.
pub open spec fn lines_type() -> Type {
    Type::MapOf { key: Box::new(Type::Int), value: Box::new(Type::String) }
}

/// One exec output stream: its numbered lines and its whole text.
pub fn byte_stream_type() -> (ty: Type)
    ensures
        is_record(ty, "ByteStream"@, seq![("$lines"@, lines_type()), ("$text"@, Type::String)]),
{
    let mut fields: Vec<RecordField> = Vec::new();
    fields.push(RecordField { name: owned("$lines"), ty: Type::map(Type::Int, Type::String) });
    fields.push(RecordField { name: owned("$text"), ty: Type::String });
    Type::Record(RecordType::new("ByteStream", fields))
}

/// `exec`'s result type: the produced tree and the two output streams. There
/// is no exit-status field.
pub fn exec_outcome_type() -> (ty: Type)
    ensures
        ty matches Type::Record(r) && r.name@ == "ExecOutcome"@ && r.fields@.len() == 3
            && r.fields@[0].name@ == "tree"@
            && r.fields@[0].ty == Type::Extern(ExternKind::Host(TREE))
            && r.fields@[1].name@ == "stdout"@
            && is_record(r.fields@[1].ty, "ByteStream"@, seq![("$lines"@, lines_type()), ("$text"@, Type::String)])
            && r.fields@[2].name@ == "stderr"@
            && is_record(r.fields@[2].ty, "ByteStream"@, seq![("$lines"@, lines_type()), ("$text"@, Type::String)]),
{
    let mut fields: Vec<RecordField> = Vec::new();
    fields.push(RecordField { name: owned("tree"), ty: Type::Extern(ExternKind::Host(TREE)) });
    fields.push(RecordField { name: owned("stdout"), ty: byte_stream_type() });
    fields.push(RecordField { name: owned("stderr"), ty: byte_stream_type() });
    Type::Record(RecordType::new("ExecOutcome", fields))
}

/// Is `ty` the built-in `DecodeError` record?
pub fn is_decode_error(ty: &Type) -> (b: bool)
    ensures
        b == (ty matches Type::Record(r) && r.name@ == "DecodeError"@),
{
    match ty {
        Type::Record(record) => str_eq(record.name.as_str(), "DecodeError"),
        _ => false,
    }
}

// ---------------------------------------------------------------------------
// Names of instantiated generics
// ---------------------------------------------------------------------------

/// The spellings of type arguments, `, `-joined.
fn argument_names(arguments: &[Type]) -> (s: String)
    ensures
        s@ == tuple_names(arguments@),
{
    let mut s = String::new();
    let mut i: usize = 0;
    while i < arguments.len()
        invariant
            i <= arguments@.len(),
            s@ == tuple_names(arguments@.take(i as int)),
        decreases arguments@.len() - i,
    {
        if i > 0 {
            push_str(&mut s, ", ");
        }
        let n = arguments[i].name();
        push_str(&mut s, n.as_str());
        proof {
            let t = arguments@.take(i as int + 1);
            assert(t.drop_last() == arguments@.take(i as int));
            assert(t.last() == arguments@[i as int]);
        }
        i = i + 1;
    }
    assert(arguments@.take(arguments@.len() as int) == arguments@);
    s
}

/// `base<A, B>`: a generic applied to its type arguments.
pub fn applied_type_name(base: &str, arguments: &[Type]) -> (s: String)
    ensures
        s@ == base@ + "<"@ + tuple_names(arguments@) + ">"@,
{
    let mut s = owned(base);
    push_str(&mut s, "<");
    let args = argument_names(arguments);
    push_str(&mut s, args.as_str());
    push_str(&mut s, ">");
    s
}

/// The symbol of a monomorphized instantiation: the bare name when there are
/// no type arguments, else `name<A, B>`.
pub fn monomorph_symbol(name: &str, arguments: &[Type]) -> (s: String)
    ensures
        s@ == if arguments@.len() == 0 { name@ } else { name@ + "<"@ + tuple_names(arguments@) + ">"@ },
{
    if arguments.len() == 0 {
        return owned(name);
    }
    applied_type_name(name, arguments)
}

/// The nominal base of an applied name: the text before its first `<`.
pub fn nominal_base_name(name: &str) -> (s: String)
    ensures
        s@ == nominal_base(name@),
{
    let cs = chars_of(name);
    match find_char_exec(cs.as_slice(), '<') {
        Some(i) => {
            proof { crate::text::lemma_find_char_bounds(name@, '<'); }
            assert(cs@.subrange(0, i as int) == name@.take(i as int));
            string_of(slice_chars(cs.as_slice(), 0, i).as_slice())
        },
        None => owned(name),
    }
}

/// The historical prelude spelling or its canonical `std::` spelling.
pub fn matches_std_qualified_name(actual: &str, expected: &str) -> (b: bool)
    ensures
        b == (actual@ == expected@ || (crate::text::has_prefix(actual@, "std::"@) && actual@.skip(5) == expected@)),
{
    if str_eq(actual, expected) {
        return true;
    }
    let cs = chars_of(actual);
    let prefix = chars_of("std::");
    proof { reveal_strlit("std::"); }
    if !crate::text::chars_start_with(cs.as_slice(), prefix.as_slice()) {
        return false;
    }
    let rest = slice_chars(cs.as_slice(), 5, cs.len());
    assert(cs@.subrange(5, cs@.len() as int) == actual@.skip(5));
    let e = chars_of(expected);
    crate::text::chars_eq(rest.as_slice(), e.as_slice())
}

// ---------------------------------------------------------------------------
// Diagnostics
// ---------------------------------------------------------------------------

/// `d` is one type mismatch at `span`: expected `expected`, found `found`.
pub open spec fn is_type_mismatch(d: Diagnostics, span: Span, expected: Seq<char>, found: Seq<char>) -> bool {
    &&& d.entries@.len() == 1
    &&& d.entries@[0].code == DiagnosticCode::TypeMismatch
    &&& d.entries@[0].primary == span
    &&& d.entries@[0].labels@.len() == 0
    &&& d.entries@[0].payload matches DiagnosticPayload::Type { expected: e, found: f } && e@ == expected && f@ == found
}

/// `d` is one unsupported-expression diagnostic at `span` naming `construct`.
pub open spec fn is_unsupported(d: Diagnostics, span: Span, construct: Seq<char>) -> bool {
    &&& d.entries@.len() == 1
    &&& d.entries@[0].code == DiagnosticCode::UnsupportedExpression
    &&& d.entries@[0].primary == span
    &&& d.entries@[0].labels@.len() == 0
    &&& d.entries@[0].payload matches DiagnosticPayload::Unsupported { construct: c } && c@ == construct
}

/// One type mismatch.
pub fn type_mismatch(span: Span, expected: &str, found: &str) -> (d: Diagnostics)
    ensures
        is_type_mismatch(d, span, expected@, found@),
{
    Diagnostics::one(Diagnostic {
        code: DiagnosticCode::TypeMismatch,
        primary: span,
        labels: Vec::new(),
        payload: DiagnosticPayload::Type { expected: owned(expected), found: owned(found) },
    })
}

/// One unknown-name diagnostic.
pub fn unknown_name(span: Span, name: &str) -> (d: Diagnostics)
    ensures
        d.entries@.len() == 1,
        d.entries@[0].code == DiagnosticCode::UnknownName,
        d.entries@[0].primary == span,
        d.entries@[0].labels@.len() == 0,
        d.entries@[0].payload matches DiagnosticPayload::Name { name: n } && n@ == name@,
{
    Diagnostics::one(Diagnostic {
        code: DiagnosticCode::UnknownName,
        primary: span,
        labels: Vec::new(),
        payload: DiagnosticPayload::Name { name: owned(name) },
    })
}

/// A name defined twice in one module set.
pub fn duplicate_name(span: Span, name: &str) -> (d: Diagnostics)
    ensures
        d.entries@.len() == 1,
        d.entries@[0].code == DiagnosticCode::DuplicateDefinition,
        d.entries@[0].primary == span,
        d.entries@[0].labels@.len() == 0,
        d.entries@[0].payload matches DiagnosticPayload::Name { name: n } && n@ == name@,
{
    Diagnostics::one(Diagnostic {
        code: DiagnosticCode::DuplicateDefinition,
        primary: span,
        labels: Vec::new(),
        payload: DiagnosticPayload::Name { name: owned(name) },
    })
}

/// One field diagnostic (`code` says which: unknown, missing, duplicate).
pub fn field_diagnostic(code: DiagnosticCode, span: Span, record: &str, field: &str) -> (d: Diagnostics)
    ensures
        d.entries@.len() == 1,
        d.entries@[0].code == code,
        d.entries@[0].primary == span,
        d.entries@[0].labels@.len() == 0,
        d.entries@[0].payload matches DiagnosticPayload::Field { record: r, field: f } && r@ == record@ && f@ == field@,
{
    Diagnostics::one(Diagnostic {
        code,
        primary: span,
        labels: Vec::new(),
        payload: DiagnosticPayload::Field { record: owned(record), field: owned(field) },
    })
}

/// One variant diagnostic (`code` says which).
pub fn variant_diagnostic(code: DiagnosticCode, span: Span, enumeration: &str, variant: &str) -> (d: Diagnostics)
    ensures
        d.entries@.len() == 1,
        d.entries@[0].code == code,
        d.entries@[0].primary == span,
        d.entries@[0].labels@.len() == 0,
        d.entries@[0].payload matches DiagnosticPayload::Variant { enumeration: e, variant: v }
            && e@ == enumeration@ && v@ == variant@,
{
    Diagnostics::one(Diagnostic {
        code,
        primary: span,
        labels: Vec::new(),
        payload: DiagnosticPayload::Variant { enumeration: owned(enumeration), variant: owned(variant) },
    })
}

/// An expression used as a statement.
pub fn expression_statement_diagnostic(span: Span) -> (d: Diagnostics)
    ensures
        d.entries@.len() == 1,
        d.entries@[0].code == DiagnosticCode::ExpressionStatement,
        d.entries@[0].primary == span,
        d.entries@[0].labels@.len() == 0,
        d.entries@[0].payload == DiagnosticPayload::ExpressionStatement,
{
    Diagnostics::one(Diagnostic {
        code: DiagnosticCode::ExpressionStatement,
        primary: span,
        labels: Vec::new(),
        payload: DiagnosticPayload::ExpressionStatement,
    })
}

/// A call with the wrong number of arguments. Arities beyond `u32` are not
/// representable in the payload.
pub fn invalid_arity(span: Span, expected: usize, found: usize) -> (d: Diagnostics)
    requires
        expected <= u32::MAX,
        found <= u32::MAX,
    ensures
        d.entries@.len() == 1,
        d.entries@[0].code == DiagnosticCode::InvalidArity,
        d.entries@[0].primary == span,
        d.entries@[0].labels@.len() == 0,
        d.entries@[0].payload == (DiagnosticPayload::Arity { expected: expected as u32, found: found as u32 }),
{
    Diagnostics::one(Diagnostic {
        code: DiagnosticCode::InvalidArity,
        primary: span,
        labels: Vec::new(),
        payload: DiagnosticPayload::Arity { expected: expected as u32, found: found as u32 },
    })
}

/// A call with `found` arguments where `expected` were declared.
pub fn check_arity(span: Span, expected: usize, found: usize) -> (r: Result<(), Diagnostics>)
    requires
        found != expected ==> expected <= u32::MAX && found <= u32::MAX,
    ensures
        found == expected ==> r is Ok,
        found != expected ==> (r matches Err(d) && is_invalid_arity(d, span, expected as u32, found as u32)),
{
    if found != expected {
        return Err(invalid_arity(span, expected, found));
    }
    Ok(())
}

/// `d` is one invalid-arity diagnostic at `span`.
pub open spec fn is_invalid_arity(d: Diagnostics, span: Span, expected: u32, found: u32) -> bool {
    &&& d.entries@.len() == 1
    &&& d.entries@[0].code == DiagnosticCode::InvalidArity
    &&& d.entries@[0].primary == span
    &&& d.entries@[0].labels@.len() == 0
    &&& d.entries@[0].payload == (DiagnosticPayload::Arity { expected, found })
}

// ---------------------------------------------------------------------------
// Lowered values and their types
// ---------------------------------------------------------------------------

/// A value in scope during lowering: the node that computes it, and its type.
#[derive(Debug, PartialEq, Eq)]
pub struct LoweredValue {
    pub node: NodeId,
    pub ty: Type,
}

/// `d` is the single diagnostic with `code` at `span` naming `name`.
pub open spec fn is_name_diagnostic(d: Diagnostics, code: DiagnosticCode, span: Span, name: Seq<char>) -> bool {
    &&& d.entries@.len() == 1
    &&& d.entries@[0].code == code
    &&& d.entries@[0].primary == span
    &&& d.entries@[0].labels@.len() == 0
    &&& d.entries@[0].payload matches DiagnosticPayload::Name { name: n } && n@ == name
}

/// One diagnostic with `code` at `span` naming `name`.
pub(crate) fn name_diagnostic(code: DiagnosticCode, span: Span, name: &str) -> (d: Diagnostics)
    ensures
        is_name_diagnostic(d, code, span, name@),
{
    Diagnostics::one(Diagnostic {
        code,
        primary: span,
        labels: Vec::new(),
        payload: DiagnosticPayload::Name { name: owned(name) },
    })
}

/// The value a name refers to; a name bound to nothing is unknown.
pub fn lookup_binding<'a>(bindings: &'a StrMap<LoweredValue>, name: &str, span: Span)
    -> (r: Result<&'a LoweredValue, Diagnostics>)
    ensures
        bindings@.contains_key(name@) ==> r == Ok::<&LoweredValue, Diagnostics>(&bindings@[name@]),
        !bindings@.contains_key(name@) ==> (r matches Err(d)
            && is_name_diagnostic(d, DiagnosticCode::UnknownName, span, name@)),
{
    match bindings.get_str(name) {
        Some(v) => Ok(v),
        None => Err(name_diagnostic(DiagnosticCode::UnknownName, span, name)),
    }
}

/// The capability a command template is tagged with: an ordinary value in
/// scope. A tag that names nothing is an unbound identifier.
pub fn resolve_command_capability<'a>(bindings: &'a StrMap<LoweredValue>, tag: &Spanned<String>)
    -> (r: Result<&'a LoweredValue, Diagnostics>)
    ensures
        bindings@.contains_key(tag.value@) ==> r == Ok::<&LoweredValue, Diagnostics>(&bindings@[tag.value@]),
        !bindings@.contains_key(tag.value@) ==> (r matches Err(d)
            && is_name_diagnostic(d, DiagnosticCode::UnboundIdentifier, tag.span, tag.value@)),
{
    match bindings.get_str(tag.value.as_str()) {
        Some(v) => Ok(v),
        None => Err(name_diagnostic(DiagnosticCode::UnboundIdentifier, tag.span, tag.value.as_str())),
    }
}

/// Binds a pattern name to `value`; a name already bound in this scope is a
/// duplicate binding, and the scope is left as it was.
pub fn bind_name(bindings: &mut StrMap<LoweredValue>, value: LoweredValue, binding: &Spanned<String>)
    -> (r: Result<(), Diagnostics>)
    ensures
        old(bindings)@.contains_key(binding.value@) ==> {
            &&& r matches Err(d) && is_name_diagnostic(d, DiagnosticCode::DuplicateBinding, binding.span, binding.value@)
            &&& final(bindings)@ == old(bindings)@
        },
        !old(bindings)@.contains_key(binding.value@) ==> {
            &&& r is Ok
            &&& final(bindings)@ == old(bindings)@.insert(binding.value@, value)
        },
{
    if bindings.get_str(binding.value.as_str()).is_some() {
        return Err(name_diagnostic(DiagnosticCode::DuplicateBinding, binding.span, binding.value.as_str()));
    }
    bindings.insert(owned(binding.value.as_str()), value);
    Ok(())
}

/// The `::`-joined spelling of a type path's segments.
pub fn path_name(segments: &[Spanned<String>]) -> (s: String)
    ensures
        s@ == join(spanned_texts(segments@), "::"@),
{
    let ghost pv = spanned_texts(segments@);
    let mut s = String::new();
    let mut i: usize = 0;
    while i < segments.len()
        invariant
            i <= segments@.len(),
            pv == spanned_texts(segments@),
            s@ == join(pv.take(i as int), "::"@),
        decreases segments@.len() - i,
    {
        if i > 0 {
            push_str(&mut s, "::");
        }
        push_str(&mut s, segments[i].value.as_str());
        proof {
            let t = pv.take(i as int + 1);
            assert(t.drop_last() == pv.take(i as int));
            assert(t.last() == pv[i as int]);
            if i == 0 {
                assert(t.len() == 1);
            }
        }
        i = i + 1;
    }
    assert(pv.take(segments@.len() as int) == pv);
    s
}

/// The texts of spanned strings.
pub open spec fn spanned_texts(v: Seq<Spanned<String>>) -> Seq<Seq<char>> {
    v.map_values(|x: Spanned<String>| x.value@)
}

/// A record pattern must name the record it destructures.
pub fn require_record_pattern_owner(supplied: &str, span: Span, record: &RecordType) -> (r: Result<(), Diagnostics>)
    ensures
        supplied@ == record.name@ ==> r is Ok,
        supplied@ != record.name@ ==> (r matches Err(d) && is_type_mismatch(d, span, record.name@, supplied@)),
{
    if str_eq(supplied, record.name.as_str()) {
        Ok(())
    } else {
        Err(type_mismatch(span, record.name.as_str(), supplied))
    }
}

/// The nominal base of a type's name: the text before its first `<`.
pub open spec fn nominal_base(name: Seq<char>) -> Seq<char> {
    if find_char(name, '<') < 0 { name } else { name.take(find_char(name, '<')) }
}

/// `d` is one variant diagnostic with `code` at `span`.
pub open spec fn is_variant_diagnostic(d: Diagnostics, code: DiagnosticCode, span: Span, enumeration: Seq<char>, variant: Seq<char>) -> bool {
    &&& d.entries@.len() == 1
    &&& d.entries@[0].code == code
    &&& d.entries@[0].primary == span
    &&& d.entries@[0].labels@.len() == 0
    &&& d.entries@[0].payload matches DiagnosticPayload::Variant { enumeration: e, variant: v }
        && e@ == enumeration && v@ == variant
}

/// The first variant named `name`, if any.
pub open spec fn variant_index(vs: Seq<EnumVariant>, name: Seq<char>, n: int) -> int
    decreases n,
{
    if n <= 0 {
        -1
    } else if variant_index(vs, name, n - 1) >= 0 {
        variant_index(vs, name, n - 1)
    } else if vs[n - 1].name@ == name {
        n - 1
    } else {
        -1
    }
}

/// The variant a variant path names: the path's type must be the enum's
/// nominal base, and the variant must be one of its own.
pub fn find_variant<'a>(enumeration: &'a EnumType, named_type: &Spanned<String>, variant: &Spanned<String>)
    -> (r: Result<(usize, &'a EnumVariant), Diagnostics>)
    ensures
        named_type.value@ != nominal_base(enumeration.name@) ==> (r matches Err(d)
            && is_type_mismatch(d, named_type.span, nominal_base(enumeration.name@), named_type.value@)),
        named_type.value@ == nominal_base(enumeration.name@) ==> {
            let i = variant_index(enumeration.variants@, variant.value@, enumeration.variants@.len() as int);
            &&& i >= 0 ==> r == Ok::<(usize, &EnumVariant), Diagnostics>((i as usize, &enumeration.variants@[i]))
            &&& i < 0 ==> (r matches Err(d) && is_variant_diagnostic(d, DiagnosticCode::UnknownVariant,
                variant.span, enumeration.name@, variant.value@))
        },
{
    let owner = nominal_base_name(enumeration.name.as_str());
    if !str_eq(named_type.value.as_str(), owner.as_str()) {
        return Err(type_mismatch(named_type.span, owner.as_str(), named_type.value.as_str()));
    }
    let ghost vs = enumeration.variants@;
    let mut i: usize = 0;
    while i < enumeration.variants.len()
        invariant
            i <= vs.len(),
            vs == enumeration.variants@,
            named_type.value@ == nominal_base(enumeration.name@),
            variant_index(vs, variant.value@, i as int) == -1,
        decreases vs.len() - i,
    {
        if str_eq(enumeration.variants[i].name.as_str(), variant.value.as_str()) {
            proof { lemma_variant_index_stays(vs, variant.value@, i as int + 1, vs.len() as int); }
            return Ok((i, &enumeration.variants[i]));
        }
        i = i + 1;
    }
    Err(variant_diagnostic(DiagnosticCode::UnknownVariant, variant.span, enumeration.name.as_str(), variant.value.as_str()))
}

/// Once found, the first matching variant stays the first one.
proof fn lemma_variant_index_stays(vs: Seq<EnumVariant>, name: Seq<char>, m: int, n: int)
    requires
        0 < m <= n,
        variant_index(vs, name, m) >= 0,
    ensures
        variant_index(vs, name, n) == variant_index(vs, name, m),
    decreases n - m,
{
    if m < n {
        lemma_variant_index_stays(vs, name, m, n - 1);
    }
}

// ---------------------------------------------------------------------------
// Record patterns
// ---------------------------------------------------------------------------

/// The names of declared fields.
pub open spec fn declared_names(fs: Seq<RecordField>) -> Seq<Seq<char>> {
    fs.map_values(|f: RecordField| f.name@)
}

/// The first of the first `n` names that repeats an earlier one, if any.
pub open spec fn first_repeat(ps: Seq<Seq<char>>, n: int) -> Option<int>
    decreases n,
{
    if n <= 0 {
        None
    } else {
        match first_repeat(ps, n - 1) {
            Some(i) => Some(i),
            None => if ps.take(n - 1).contains(ps[n - 1]) { Some(n - 1) } else { None },
        }
    }
}

/// The first of the first `n` names equal to `name`, or -1.
pub open spec fn name_index(ps: Seq<Seq<char>>, name: Seq<char>, n: int) -> int
    decreases n,
{
    if n <= 0 {
        -1
    } else if name_index(ps, name, n - 1) >= 0 {
        name_index(ps, name, n - 1)
    } else if ps[n - 1] == name {
        n - 1
    } else {
        -1
    }
}

/// Declared field `k` is matched by a pattern field: one names it, and no
/// earlier declared field of the same name took that pattern field.
pub open spec fn field_selected(ds: Seq<Seq<char>>, ps: Seq<Seq<char>>, k: int) -> bool {
    name_index(ps, ds[k], ps.len() as int) >= 0 && !ds.take(k).contains(ds[k])
}

/// The (declared index, pattern index) pairs of the first `n` declared
/// fields that a pattern field matches, in declaration order.
pub open spec fn selection(ds: Seq<Seq<char>>, ps: Seq<Seq<char>>, n: int) -> Seq<(int, int)>
    decreases n,
{
    if n <= 0 {
        seq![]
    } else {
        selection(ds, ps, n - 1) + if field_selected(ds, ps, n - 1) {
            seq![(n - 1, name_index(ps, ds[n - 1], ps.len() as int))]
        } else {
            seq![]
        }
    }
}

/// The first of the first `n` declared fields no pattern field matches.
pub open spec fn first_unmatched(ds: Seq<Seq<char>>, ps: Seq<Seq<char>>, n: int) -> Option<int>
    decreases n,
{
    if n <= 0 {
        None
    } else {
        match first_unmatched(ds, ps, n - 1) {
            Some(k) => Some(k),
            None => if field_selected(ds, ps, n - 1) { None } else { Some(n - 1) },
        }
    }
}

/// Among the first `n` pattern fields naming no declared field, the one
/// whose name sorts first.
pub open spec fn least_unknown(ds: Seq<Seq<char>>, ps: Seq<Seq<char>>, n: int) -> Option<int>
    decreases n,
{
    if n <= 0 {
        None
    } else {
        let r = least_unknown(ds, ps, n - 1);
        if ds.contains(ps[n - 1]) {
            r
        } else {
            match r {
                None => Some(n - 1),
                Some(i) => if seq_lt(ps[n - 1], ps[i]) { Some(n - 1) } else { Some(i) },
            }
        }
    }
}

/// Why a record pattern's fields do not fit its record.
pub enum PatternFieldsError {
    /// Pattern field `i` repeats an earlier name.
    Repeated(int),
    /// Declared field `k` is not matched and the pattern has no `..`.
    Missing(int),
    /// Pattern field `i` names no declared field.
    Unknown(int),
}

/// How pattern fields named `ps` (with a `..` rest when `rest`) fit the
/// declared fields named `ds`: the matched pairs in declaration order, or
/// the first refusal.
pub open spec fn pattern_fields_outcome(ds: Seq<Seq<char>>, ps: Seq<Seq<char>>, rest: bool)
    -> Result<Seq<(int, int)>, PatternFieldsError>
{
    match first_repeat(ps, ps.len() as int) {
        Some(i) => Err(PatternFieldsError::Repeated(i)),
        None => match (if rest { None } else { first_unmatched(ds, ps, ds.len() as int) }) {
            Some(k) => Err(PatternFieldsError::Missing(k)),
            None => match least_unknown(ds, ps, ps.len() as int) {
                Some(i) => Err(PatternFieldsError::Unknown(i)),
                None => Ok(selection(ds, ps, ds.len() as int)),
            },
        },
    }
}

/// `d` is one field diagnostic with `code` at `span`.
pub open spec fn is_field_diagnostic(d: Diagnostics, code: DiagnosticCode, span: Span, record: Seq<char>, field: Seq<char>) -> bool {
    &&& d.entries@.len() == 1
    &&& d.entries@[0].code == code
    &&& d.entries@[0].primary == span
    &&& d.entries@[0].labels@.len() == 0
    &&& d.entries@[0].payload matches DiagnosticPayload::Field { record: r, field: f } && r@ == record && f@ == field
}

/// The pairs as integers.
pub open spec fn index_pairs(v: Seq<(usize, usize)>) -> Seq<(int, int)> {
    v.map_values(|p: (usize, usize)| (p.0 as int, p.1 as int))
}

proof fn lemma_first_repeat_stays(ps: Seq<Seq<char>>, m: int, n: int)
    requires
        m <= n,
        first_repeat(ps, m) is Some,
    ensures
        first_repeat(ps, n) == first_repeat(ps, m),
    decreases n - m,
{
    if m < n {
        lemma_first_repeat_stays(ps, m, n - 1);
    }
}

proof fn lemma_first_unmatched_stays(ds: Seq<Seq<char>>, ps: Seq<Seq<char>>, m: int, n: int)
    requires
        m <= n,
        first_unmatched(ds, ps, m) is Some,
    ensures
        first_unmatched(ds, ps, n) == first_unmatched(ds, ps, m),
    decreases n - m,
{
    if m < n {
        lemma_first_unmatched_stays(ds, ps, m, n - 1);
    }
}

proof fn lemma_name_index_stays(ps: Seq<Seq<char>>, name: Seq<char>, m: int, n: int)
    requires
        m <= n,
        name_index(ps, name, m) >= 0,
    ensures
        name_index(ps, name, n) == name_index(ps, name, m),
    decreases n - m,
{
    if m < n {
        lemma_name_index_stays(ps, name, m, n - 1);
    }
}

proof fn lemma_name_index_bounds(ps: Seq<Seq<char>>, name: Seq<char>, n: int)
    requires
        0 <= n <= ps.len(),
    ensures
        -1 <= name_index(ps, name, n) < n,
        name_index(ps, name, n) >= 0 ==> ps[name_index(ps, name, n)] == name,
        name_index(ps, name, n) < 0 ==> !ps.take(n).contains(name),
    decreases n,
{
    if n > 0 {
        lemma_name_index_bounds(ps, name, n - 1);
        if name_index(ps, name, n - 1) < 0 && ps[n - 1] != name {
            assert forall|j: int| 0 <= j < n implies ps.take(n)[j] != name by {
                if j < n - 1 {
                    assert(ps.take(n)[j] == ps.take(n - 1)[j]);
                }
            }
        }
    }
}

/// The declared fields a record pattern's fields select, as (declared index,
/// pattern field index) pairs in declaration order. A repeated pattern field
/// is refused first; then, unless the pattern has a `..` rest, the first
/// declared field it leaves out; then the pattern field naming no declared
/// field whose name sorts first.
pub fn select_record_pattern_fields(
    fields: &[Spanned<String>],
    rest: bool,
    pattern_span: Span,
    declared: &[RecordField],
    owner: &str,
) -> (r: Result<Vec<(usize, usize)>, Diagnostics>)
    ensures
        match pattern_fields_outcome(declared_names(declared@), spanned_texts(fields@), rest) {
            Ok(pairs) => r matches Ok(v) && index_pairs(v@) == pairs,
            Err(PatternFieldsError::Repeated(i)) => r matches Err(d) && is_field_diagnostic(
                d, DiagnosticCode::DuplicateField, fields@[i].span, owner@, fields@[i].value@),
            Err(PatternFieldsError::Missing(k)) => r matches Err(d) && is_field_diagnostic(
                d, DiagnosticCode::MissingField, pattern_span, owner@, declared@[k].name@),
            Err(PatternFieldsError::Unknown(i)) => r matches Err(d) && is_field_diagnostic(
                d, DiagnosticCode::UnknownField, fields@[i].span, owner@, fields@[i].value@),
        },
{
    let ghost ps = spanned_texts(fields@);
    let ghost ds = declared_names(declared@);
    let n = fields.len();
    // A repeated name is refused at its second occurrence.
    let mut i: usize = 0;
    while i < n
        invariant
            i <= n,
            n == fields@.len(),
            ps == spanned_texts(fields@),
            first_repeat(ps, i as int) is None,
        decreases n - i,
    {
        let mut j: usize = 0;
        while j < i
            invariant
                j <= i < n,
                n == fields@.len(),
                ps == spanned_texts(fields@),
                first_repeat(ps, i as int) is None,
                forall|m: int| 0 <= m < j ==> ps[m] != ps[i as int],
            decreases i - j,
        {
            if str_eq(fields[j].value.as_str(), fields[i].value.as_str()) {
                proof {
                    assert(ps.take(i as int)[j as int] == ps[i as int]);
                    assert(first_repeat(ps, i as int + 1) == Some(i as int));
                    lemma_first_repeat_stays(ps, i as int + 1, n as int);
                }
                return Err(field_diagnostic(DiagnosticCode::DuplicateField, fields[i].span, owner, fields[i].value.as_str()));
            }
            j = j + 1;
        }
        proof {
            assert forall|m: int| 0 <= m < i implies ps.take(i as int)[m] != ps[i as int] by {
                assert(ps.take(i as int)[m] == ps[m]);
            }
        }
        i = i + 1;
    }
    // Match declared fields in order.
    let mut used: Vec<bool> = Vec::new();
    let mut u: usize = 0;
    while u < n
        invariant
            u <= n,
            used@.len() == u,
            forall|m: int| 0 <= m < u ==> !used@[m],
        decreases n - u,
    {
        used.push(false);
        u = u + 1;
    }
    let mut selected: Vec<(usize, usize)> = Vec::new();
    let mut k: usize = 0;
    assert(index_pairs(selected@) =~= Seq::<(int, int)>::empty());
    while k < declared.len()
        invariant
            k <= declared@.len(),
            n == fields@.len(),
            ps == spanned_texts(fields@),
            ds == declared_names(declared@),
            first_repeat(ps, n as int) is None,
            used@.len() == n,
            forall|m: int| 0 <= m < n ==> (used@[m] <==> ds.take(k as int).contains(#[trigger] ps[m])),
            index_pairs(selected@) == selection(ds, ps, k as int),
            !rest ==> first_unmatched(ds, ps, k as int) is None,
        decreases declared@.len() - k,
    {
        let ghost dk = ds[k as int];
        // Where the pattern names this declared field.
        let mut p: usize = 0;
        let mut found: Option<usize> = None;
        while p < n
            invariant
                p <= n,
                n == fields@.len(),
                k < declared@.len(),
                ps == spanned_texts(fields@),
                ds == declared_names(declared@),
                dk == ds[k as int],
                found == (if name_index(ps, dk, p as int) >= 0 { Some(name_index(ps, dk, p as int) as usize) } else { None::<usize> }),
            decreases n - p,
        {
            if found.is_none() && str_eq(fields[p].value.as_str(), declared[k].name.as_str()) {
                found = Some(p);
            }
            p = p + 1;
        }
        proof { lemma_name_index_bounds(ps, dk, n as int); }
        assert(ps.take(n as int) == ps);
        let ghost before = selected@;
        let taken = match found {
            Some(pi) => used[pi],
            None => true,
        };
        proof {
            // A pattern field is used exactly when an earlier declared field has its name.
            if let Some(pi) = found {
                assert(used@[pi as int] <==> ds.take(k as int).contains(ps[pi as int]));
            }
        }
        assert(ds.take(k as int + 1) == ds.take(k as int).push(dk));
        if !taken {
            let pi = found.unwrap();
            used.set(pi, true);
            selected.push((k, pi));
            assert(index_pairs(selected@) =~= index_pairs(before).push((k as int, pi as int)));
        } else if !rest {
            proof {
                assert(!field_selected(ds, ps, k as int));
                assert(first_unmatched(ds, ps, k as int + 1) == Some(k as int));
                lemma_first_unmatched_stays(ds, ps, k as int + 1, declared@.len() as int);
            }
            return Err(field_diagnostic(DiagnosticCode::MissingField, pattern_span, owner, declared[k].name.as_str()));
        }
        proof {
            assert forall|m: int| 0 <= m < n implies (used@[m] <==> ds.take(k as int + 1).contains(#[trigger] ps[m])) by {
                if ps[m] == dk {
                    if let Some(pi) = found {
                        assert(ps[pi as int] == dk);
                        if m != pi as int {
                            // Distinct pattern names: only `pi` carries `dk`.
                            lemma_no_repeat_distinct(ps, n as int, m, pi as int);
                        }
                    }
                }
                let t = ds.take(k as int);
                let t1 = ds.take(k as int + 1);
                if t.contains(ps[m]) {
                    let j = choose|j: int| 0 <= j < t.len() && t[j] == ps[m];
                    assert(t1[j] == t[j]);
                }
                if ps[m] == dk {
                    assert(t1[k as int] == dk);
                }
                if t1.contains(ps[m]) {
                    let j = choose|j: int| 0 <= j < t1.len() && t1[j] == ps[m];
                    if j < k {
                        assert(t[j] == t1[j]);
                    }
                }
            }
        }
        k = k + 1;
    }
    assert(ds.take(declared@.len() as int) == ds);
    // The unknown pattern field whose name sorts first.
    let mut best: Option<usize> = None;
    let mut q: usize = 0;
    while q < n
        invariant
            q <= n,
            n == fields@.len(),
            ps == spanned_texts(fields@),
            ds == declared_names(declared@),
            used@.len() == n,
            forall|m: int| 0 <= m < n ==> (used@[m] <==> ds.contains(#[trigger] ps[m])),
            best == (match least_unknown(ds, ps, q as int) { Some(b) => Some(b as usize), None => None::<usize> }),
            forall|b: int| least_unknown(ds, ps, q as int) == Some(b) ==> 0 <= b < q,
        decreases n - q,
    {
        if !used[q] {
            assert(!ds.contains(ps[q as int]));
            match best {
                None => {
                    best = Some(q);
                },
                Some(b) => {
                    let a = chars_of(fields[q].value.as_str());
                    let c = chars_of(fields[b].value.as_str());
                    if chars_lt(a.as_slice(), c.as_slice()) {
                        best = Some(q);
                    }
                },
            }
        } else {
            assert(ds.contains(ps[q as int]));
        }
        q = q + 1;
    }
    if let Some(b) = best {
        return Err(field_diagnostic(DiagnosticCode::UnknownField, fields[b].span, owner, fields[b].value.as_str()));
    }
    Ok(selected)
}

/// The unknown pattern field `least_unknown` picks names no declared field
/// and sorts before every other unknown one.
pub proof fn lemma_least_unknown_is_least(ds: Seq<Seq<char>>, ps: Seq<Seq<char>>, n: int)
    requires
        0 <= n <= ps.len(),
        first_repeat(ps, n) is None,
    ensures
        least_unknown(ds, ps, n) matches Some(i) ==> {
            &&& 0 <= i < n
            &&& !ds.contains(ps[i])
            &&& forall|j: int| 0 <= j < n && j != i && !ds.contains(#[trigger] ps[j]) ==> seq_lt(ps[i], ps[j])
        },
        least_unknown(ds, ps, n) is None ==> forall|j: int| 0 <= j < n ==> ds.contains(#[trigger] ps[j]),
    decreases n,
{
    if n > 0 {
        assert(first_repeat(ps, n - 1) is None);
        lemma_least_unknown_is_least(ds, ps, n - 1);
        let r = least_unknown(ds, ps, n - 1);
        if !ds.contains(ps[n - 1]) {
            if let Some(i) = r {
                lemma_no_repeat_distinct(ps, n, i, n - 1);
                lemma_seq_lt_total(ps[n - 1], ps[i]);
                if seq_lt(ps[n - 1], ps[i]) {
                    assert forall|j: int| 0 <= j < n && j != n - 1 && !ds.contains(#[trigger] ps[j])
                        implies seq_lt(ps[n - 1], ps[j]) by {
                        if j != i {
                            lemma_seq_lt_transitive(ps[n - 1], ps[i], ps[j]);
                        }
                    }
                }
            }
        }
    }
}

/// Two positions of names with no repeat hold different names.
proof fn lemma_no_repeat_distinct(ps: Seq<Seq<char>>, n: int, a: int, b: int)
    requires
        0 <= a < n,
        0 <= b < n,
        n <= ps.len(),
        a != b,
        first_repeat(ps, n) is None,
    ensures
        ps[a] != ps[b],
    decreases n,
{
    let hi = if a < b { b } else { a };
    let lo = if a < b { a } else { b };
    if hi < n - 1 {
        lemma_no_repeat_distinct(ps, n - 1, a, b);
    } else {
        assert(first_repeat(ps, n - 1) is None);
        assert(!ps.take(n - 1).contains(ps[n - 1]));
        assert(ps.take(n - 1)[lo] == ps[lo]);
    }
}

/// `d` is one mismatch at `span` with `code`: expected `expected`, found `found`.
pub open spec fn is_mismatch_coded(d: Diagnostics, code: DiagnosticCode, span: Span, expected: Seq<char>, found: Seq<char>) -> bool {
    &&& d.entries@.len() == 1
    &&& d.entries@[0].code == code
    &&& d.entries@[0].primary == span
    &&& d.entries@[0].labels@.len() == 0
    &&& d.entries@[0].payload matches DiagnosticPayload::Type { expected: e, found: f } && e@ == expected && f@ == found
}

/// A value must have the `expected` type. A `String` where a `Path` is
/// expected is the dedicated no-conversion mismatch.
pub fn require_type(value: &LoweredValue, expected: &Type, span: Span) -> (r: Result<(), Diagnostics>)
    ensures
        type_eq(value.ty, *expected) ==> r is Ok,
        !type_eq(value.ty, *expected) ==> (r matches Err(d) && is_mismatch_coded(
            d,
            if expected is Path && value.ty is String { DiagnosticCode::StringIsNotPath } else { DiagnosticCode::TypeMismatch },
            span,
            spelling(*expected),
            spelling(value.ty),
        )),
{
    if value.ty.same(expected) {
        return Ok(());
    }
    let code = match (expected, &value.ty) {
        (Type::Path, Type::String) => DiagnosticCode::StringIsNotPath,
        _ => DiagnosticCode::TypeMismatch,
    };
    Err(Diagnostics::one(Diagnostic {
        code,
        primary: span,
        labels: Vec::new(),
        payload: DiagnosticPayload::Type { expected: expected.name(), found: value.ty.name() },
    }))
}

/// Two values must have the same type.
pub fn require_same_type(left: &LoweredValue, right: &LoweredValue, span: Span) -> (r: Result<(), Diagnostics>)
    ensures
        type_eq(left.ty, right.ty) ==> r is Ok,
        !type_eq(left.ty, right.ty) ==> (r matches Err(d)
            && is_type_mismatch(d, span, spelling(left.ty), spelling(right.ty))),
{
    if left.ty.same(&right.ty) {
        return Ok(());
    }
    let expected = left.ty.name();
    let found = right.ty.name();
    Err(type_mismatch(span, expected.as_str(), found.as_str()))
}

/// A decode call's format argument, as far as the format check reads it.
#[derive(Clone, Debug, PartialEq)]
pub enum FormatArgument {
    /// A variant expression `Type::Variant`: the path's span, the type's
    /// name and the variant.
    Variant { path_span: Span, named_type: String, variant: Spanned<String> },
    /// Any other expression, at its span.
    Other(Span),
}

/// The format a decode's format argument names: `Format::Json` or
/// `Format::Toml` (also spelled `std::Format::..`); anything else is an
/// unsupported expression at the offending span.
pub open spec fn format_argument_outcome(arg: FormatArgument) -> Result<DecodeFormat, (Span, Seq<char>)> {
    match arg {
        FormatArgument::Other(span) => Err((span, "a decode format `Format::Json` or `Format::Toml`"@)),
        FormatArgument::Variant { path_span, named_type, variant } =>
            if !(named_type@ == "Format"@ || (crate::text::has_prefix(named_type@, "std::"@) && named_type@.skip(5) == "Format"@)) {
                Err((path_span, "a decode format `Format::Json` or `Format::Toml`"@))
            } else if variant.value@ == "Json"@ {
                Ok(DecodeFormat::Json)
            } else if variant.value@ == "Toml"@ {
                Ok(DecodeFormat::Toml)
            } else {
                Err((variant.span, "an unknown decode format `Format::"@ + variant.value@ + "`"@))
            },
    }
}

/// The decode format a format argument names.
pub fn decode_format_arg(arg: &FormatArgument) -> (r: Result<DecodeFormat, Diagnostics>)
    ensures
        match format_argument_outcome(*arg) {
            Ok(f) => r == Ok::<DecodeFormat, Diagnostics>(f),
            Err((span, construct)) => r matches Err(d) && is_unsupported(d, span, construct),
        },
{
    match arg {
        FormatArgument::Other(span) => Err(Diagnostics::one(Diagnostic::unsupported(
            *span,
            "a decode format `Format::Json` or `Format::Toml`",
        ))),
        FormatArgument::Variant { path_span, named_type, variant } => {
            if !matches_std_qualified_name(named_type.as_str(), "Format") {
                return Err(Diagnostics::one(Diagnostic::unsupported(
                    *path_span,
                    "a decode format `Format::Json` or `Format::Toml`",
                )));
            }
            let v = variant.value.as_str();
            if str_eq(v, "Json") {
                Ok(DecodeFormat::Json)
            } else if str_eq(v, "Toml") {
                Ok(DecodeFormat::Toml)
            } else {
                let mut construct = owned("an unknown decode format `Format::");
                push_str(&mut construct, v);
                push_str(&mut construct, "`");
                Err(Diagnostics::one(Diagnostic::unsupported(variant.span, construct.as_str())))
            }
        },
    }
}

/// The label of a decode format.
pub fn decode_format_label(format: DecodeFormat) -> (s: &'static str)
    ensures
        s@ == format_label(format),
{
    crate::decode::label(format)
}

/// The runtime seam a decode that cannot be constant-folded would need.
pub fn runtime_decode_unavailable(span: Span, format: DecodeFormat, target: Option<&Type>) -> (d: Diagnostics)
    ensures
        d.entries@.len() == 1,
        d.entries@[0].code == DiagnosticCode::RuntimeDecodeUnavailable,
        d.entries@[0].primary == span,
        d.entries@[0].labels@.len() == 0,
        d.entries@[0].payload matches DiagnosticPayload::RuntimeDecode { format: f, target: t }
            && f@ == format_label(format)
            && match target {
                Some(ty) => t matches Some(n) && n@ == spelling(*ty),
                None => t is None,
            },
{
    let t = match target {
        Some(ty) => Some(ty.name()),
        None => None,
    };
    Diagnostics::one(Diagnostic {
        code: DiagnosticCode::RuntimeDecodeUnavailable,
        primary: span,
        labels: Vec::new(),
        payload: DiagnosticPayload::RuntimeDecode { format: owned(decode_format_label(format)), target: t },
    })
}

/// A constant-fold decode that failed: the kind label, field path and
/// document span of the failure, and its rendering.
pub fn decode_failed_diagnostic(span: Span, format: DecodeFormat, target: &Type, error: &DecodeError) -> (d: Diagnostics)
    ensures
        d.entries@.len() == 1,
        d.entries@[0].code == DiagnosticCode::DecodeFailed,
        d.entries@[0].primary == span,
        d.entries@[0].labels@.len() == 0,
        d.entries@[0].payload matches DiagnosticPayload::Decode { format: f, target: t, kind: k, path: p, doc_offset: o, doc_len: l, detail: m }
            && f@ == format_label(format)
            && t@ == spelling(*target)
            && k@ == kind_label(kind_view(error.kind))
            && strs_view(p@) == error_view(*error).path
            && o == (match error.span { Some(s) => Some(s.offset), None => None })
            && l == (match error.span { Some(s) => Some(s.len), None => None })
            && m@ == kind_render(kind_view(error.kind)),
{
    let (doc_offset, doc_len) = match error.span {
        Some(document) => (Some(document.offset), Some(document.len)),
        None => (None, None),
    };
    Diagnostics::one(Diagnostic {
        code: DiagnosticCode::DecodeFailed,
        primary: span,
        labels: Vec::new(),
        payload: DiagnosticPayload::Decode {
            format: owned(decode_format_label(format)),
            target: target.name(),
            kind: owned(error.kind.label()),
            path: error.path_names(),
            doc_offset,
            doc_len,
            detail: error.render(),
        },
    })
}


// ---------------------------------------------------------------------------
// Unit-bearing literals
// ---------------------------------------------------------------------------

/// An ASCII decimal digit.
pub open spec fn is_digit(c: char) -> bool {
    '0' <= c <= '9'
}

/// The length of the run of digits `s` starts with.
pub open spec fn digit_run(s: Seq<char>) -> nat
    decreases s.len(),
{
    if s.len() > 0 && is_digit(s[0]) {
        1 + digit_run(s.skip(1))
    } else {
        0
    }
}

/// The value of a string of decimal digits.
pub open spec fn digits_value(s: Seq<char>) -> nat
    decreases s.len(),
{
    if s.len() == 0 {
        0
    } else {
        digits_value(s.drop_last()) * 10 + (s.last() as nat - 48) as nat
    }
}

/// The magnitude of a unit-bearing literal: the value of its leading digits,
/// if it has any.
pub open spec fn magnitude(text: Seq<char>) -> Option<nat> {
    if digit_run(text) > 0 { Some(digits_value(text.take(digit_run(text) as int))) } else { None }
}

/// The unit suffix of a unit-bearing literal: what follows its digits.
pub open spec fn unit_of(text: Seq<char>) -> Seq<char> {
    text.skip(digit_run(text) as int)
}

/// How a literal is quoted in a mismatch: between backticks.
pub open spec fn ticked(s: Seq<char>) -> Seq<char> {
    "`"@ + s + "`"@
}

/// A magnitude's failure to parse: no digits, or more than `u64` holds.
pub open spec fn magnitude_ok(text: Seq<char>) -> bool {
    magnitude(text) matches Some(m) && m <= u64::MAX
}

/// Nanoseconds per duration unit.
pub open spec fn nanos_per(unit: Seq<char>) -> Option<nat> {
    if unit == "ns"@ { Some(1) }
    else if unit == "us"@ { Some(1000) }
    else if unit == "ms"@ { Some(1000000) }
    else if unit == "s"@ { Some(1000000000) }
    else if unit == "m"@ { Some(60000000000) }
    else if unit == "h"@ { Some(3600000000000) }
    else { None }
}

/// Bytes per byte-size unit; the `K`/`M`/`G` units are 1024-based.
pub open spec fn bytes_per(unit: Seq<char>) -> Option<nat> {
    if unit == "B"@ { Some(1) }
    else if unit == "KB"@ || unit == "KiB"@ { Some(1024) }
    else if unit == "MB"@ || unit == "MiB"@ { Some(1048576) }
    else if unit == "GB"@ || unit == "GiB"@ { Some(1073741824) }
    else { None }
}

/// The value of a unit-bearing literal, or the (expected, found) pair of the
/// type mismatch it raises: an unrepresentable magnitude, an unknown unit
/// (`unit_kind` names the accepted ones), or a product beyond `u64`
/// (`product_kind` names it).
pub open spec fn quantity_outcome(
    text: Seq<char>,
    per: Option<nat>,
    unit_kind: Seq<char>,
    product_kind: Seq<char>,
) -> Result<nat, (Seq<char>, Seq<char>)> {
    if !magnitude_ok(text) {
        Err(("a representable magnitude"@, ticked(text)))
    } else {
        match per {
            None => Err((unit_kind, ticked(unit_of(text)))),
            Some(p) => {
                let m = magnitude(text)->Some_0;
                if m * p <= u64::MAX { Ok(m * p) } else { Err((product_kind, ticked(text))) }
            },
        }
    }
}

/// The outcome of a duration literal, in nanoseconds.
pub open spec fn duration_outcome(text: Seq<char>) -> Result<nat, (Seq<char>, Seq<char>)> {
    quantity_outcome(text, nanos_per(unit_of(text)), "a duration unit (ns/us/ms/s/m/h)"@, "a representable duration"@)
}

/// The outcome of a byte-size literal, in bytes.
pub open spec fn byte_count_outcome(text: Seq<char>) -> Result<nat, (Seq<char>, Seq<char>)> {
    quantity_outcome(text, bytes_per(unit_of(text)), "a byte unit (B/KB/MB/GB)"@, "a representable byte count"@)
}

/// A longer run of digits is worth at least as much.
proof fn lemma_digits_monotone(s: Seq<char>, i: int, j: int)
    requires
        0 <= i <= j <= s.len(),
    ensures
        digits_value(s.take(i)) <= digits_value(s.take(j)),
    decreases j - i,
{
    if i < j {
        lemma_digits_monotone(s, i, j - 1);
        assert(s.take(j).drop_last() == s.take(j - 1));
    }
}

/// The digits of `s` run at least to `i`, and the run stops at the first
/// non-digit.
proof fn lemma_digit_run(s: Seq<char>, i: int)
    requires
        0 <= i <= s.len(),
        forall|k: int| 0 <= k < i ==> is_digit(#[trigger] s[k]),
    ensures
        i == s.len() || !is_digit(s[i]) ==> digit_run(s) == i,
        digit_run(s) >= i,
        digit_run(s) <= s.len(),
    decreases i,
{
    if i > 0 {
        assert forall|k: int| 0 <= k < i - 1 implies is_digit(#[trigger] s.skip(1)[k]) by {
            assert(s.skip(1)[k] == s[k + 1]);
        }
        lemma_digit_run(s.skip(1), i - 1);
        if i < s.len() {
            assert(s.skip(1)[i - 1] == s[i]);
        }
    } else {
        lemma_digit_run_bound(s);
    }
}

/// The run of digits fits in the text.
proof fn lemma_digit_run_bound(s: Seq<char>)
    ensures
        digit_run(s) <= s.len(),
    decreases s.len(),
{
    if s.len() > 0 && is_digit(s[0]) {
        lemma_digit_run_bound(s.skip(1));
    }
}

/// Split a unit-bearing literal into its decimal magnitude and unit suffix.
pub fn split_quantity(text: &str, span: Span) -> (r: Result<(u64, String), Diagnostics>)
    ensures
        match r {
            Ok((m, unit)) => magnitude_ok(text@) && m as nat == magnitude(text@)->Some_0 && unit@ == unit_of(text@),
            Err(d) => !magnitude_ok(text@)
                && is_type_mismatch(d, span, "a representable magnitude"@, ticked(text@)),
        },
{
    let cs = chars_of(text);
    let mut i: usize = 0;
    let mut value: u64 = 0;
    let mut overflow = false;
    while i < cs.len() && '0' <= cs[i] && cs[i] <= '9'
        invariant
            i <= cs@.len(),
            cs@ == text@,
            forall|k: int| 0 <= k < i ==> is_digit(#[trigger] cs@[k]),
            !overflow ==> value as nat == digits_value(cs@.take(i as int)),
            overflow ==> digits_value(cs@.take(i as int)) > u64::MAX,
        decreases cs@.len() - i,
    {
        let d = (cs[i] as u32 - 48) as u64;
        proof {
            assert(cs@.take(i as int + 1).drop_last() == cs@.take(i as int));
            assert(cs@.take(i as int + 1).last() == cs@[i as int]);
        }
        if !overflow {
            match value.checked_mul(10) {
                Some(t) => match t.checked_add(d) {
                    Some(v) => {
                        value = v;
                    },
                    None => {
                        overflow = true;
                    },
                },
                None => {
                    overflow = true;
                },
            }
        }
        i = i + 1;
    }
    proof {
        lemma_digit_run(text@, i as int);
        if overflow {
            lemma_digits_monotone(text@, i as int, digit_run(text@) as int);
        }
    }
    if i == 0 || overflow {
        let mut found = owned("`");
        push_str(&mut found, text);
        push_str(&mut found, "`");
        return Err(type_mismatch(span, "a representable magnitude", found.as_str()));
    }
    let unit = string_of(slice_chars(cs.as_slice(), i, cs.len()).as_slice());
    assert(cs@.subrange(i as int, cs@.len() as int) == text@.skip(i as int));
    Ok((value, unit))
}

/// A mismatch whose found text is `text` between backticks.
fn ticked_mismatch(span: Span, expected: &str, text: &str) -> (d: Diagnostics)
    ensures
        is_type_mismatch(d, span, expected@, ticked(text@)),
{
    let mut found = owned("`");
    push_str(&mut found, text);
    push_str(&mut found, "`");
    type_mismatch(span, expected, found.as_str())
}

/// `unit` is exactly `word`.
fn unit_is(unit: &str, word: &str) -> (b: bool)
    ensures
        b == (unit@ == word@),
{
    str_eq(unit, word)
}

/// A duration literal in nanoseconds, with checked arithmetic. A byte unit
/// here is a unit mismatch, not a reinterpretation.
pub fn duration_nanos(text: &str, span: Span) -> (r: Result<u64, Diagnostics>)
    ensures
        match duration_outcome(text@) {
            Ok(n) => r == Ok::<u64, Diagnostics>(n as u64),
            Err((expected, found)) => r matches Err(d) && is_type_mismatch(d, span, expected, found),
        },
{
    let (magnitude, unit) = match split_quantity(text, span) {
        Ok(parts) => parts,
        Err(d) => return Err(d),
    };
    let u = unit.as_str();
    let per_unit: u64 = if unit_is(u, "ns") {
        1
    } else if unit_is(u, "us") {
        1000
    } else if unit_is(u, "ms") {
        1000000
    } else if unit_is(u, "s") {
        1000000000
    } else if unit_is(u, "m") {
        60000000000
    } else if unit_is(u, "h") {
        3600000000000
    } else {
        return Err(ticked_mismatch(span, "a duration unit (ns/us/ms/s/m/h)", u));
    };
    match magnitude.checked_mul(per_unit) {
        Some(n) => Ok(n),
        None => Err(ticked_mismatch(span, "a representable duration", text)),
    }
}

/// A byte-size literal in bytes, with checked arithmetic: `KB`/`MB`/`GB` are
/// 1024-based and `KiB`/`MiB`/`GiB` are their aliases. A duration unit here
/// is a unit mismatch.
pub fn byte_count(text: &str, span: Span) -> (r: Result<u64, Diagnostics>)
    ensures
        match byte_count_outcome(text@) {
            Ok(n) => r == Ok::<u64, Diagnostics>(n as u64),
            Err((expected, found)) => r matches Err(d) && is_type_mismatch(d, span, expected, found),
        },
{
    let (magnitude, unit) = match split_quantity(text, span) {
        Ok(parts) => parts,
        Err(d) => return Err(d),
    };
    let u = unit.as_str();
    let per_unit: u64 = if unit_is(u, "B") {
        1
    } else if unit_is(u, "KB") || unit_is(u, "KiB") {
        1024
    } else if unit_is(u, "MB") || unit_is(u, "MiB") {
        1048576
    } else if unit_is(u, "GB") || unit_is(u, "GiB") {
        1073741824
    } else {
        return Err(ticked_mismatch(span, "a byte unit (B/KB/MB/GB)", u));
    };
    match magnitude.checked_mul(per_unit) {
        Some(n) => Ok(n),
        None => Err(ticked_mismatch(span, "a representable byte count", text)),
    }
}

// ---------------------------------------------------------------------------
// Integer literals
// ---------------------------------------------------------------------------

/// The digits of a number literal: what follows its sign, if it has one.
pub open spec fn literal_digits(s: Seq<char>) -> Seq<char> {
    if s.len() > 0 && (s[0] == '-' || s[0] == '+') { s.skip(1) } else { s }
}

/// The value a number literal spells: an optional `-` or `+`, then one or
/// more decimal digits.
pub open spec fn literal_value(s: Seq<char>) -> Option<int> {
    let d = literal_digits(s);
    if d.len() > 0 && forall|i: int| 0 <= i < d.len() ==> is_digit(#[trigger] d[i]) {
        Some(if s[0] == '-' { -digits_value(d) } else { digits_value(d) as int })
    } else {
        None
    }
}

/// The `Int` a number literal denotes, if it spells one in range.
pub open spec fn int_literal(s: Seq<char>) -> Option<i64> {
    match literal_value(s) {
        Some(v) => if i64::MIN <= v <= i64::MAX { Some(v as i64) } else { None },
        None => None,
    }
}

/// The value of a number literal as an `Int`; anything else, or a value out
/// of range, is a type mismatch naming the literal.
pub fn integer_literal(literal: &str, span: Span) -> (r: Result<i64, Diagnostics>)
    ensures
        match int_literal(literal@) {
            Some(v) => r == Ok::<i64, Diagnostics>(v),
            None => r matches Err(d) && is_type_mismatch(d, span, "Int"@, "number literal `"@ + literal@ + "`"@),
        },
{
    let cs = chars_of(literal);
    let start: usize = if cs.len() > 0 && (cs[0] == '-' || cs[0] == '+') { 1 } else { 0 };
    let negative = cs.len() > 0 && cs[0] == '-';
    let ghost d = literal_digits(literal@);
    assert(cs@.skip(start as int) == d);
    let limit: u64 = 9223372036854775808;
    let mut value: u64 = 0;
    let mut overflow = false;
    let mut ok = start < cs.len();
    let mut i: usize = start;
    while i < cs.len()
        invariant
            start <= i <= cs@.len(),
            cs@ == literal@,
            limit == 9223372036854775808u64,
            ok ==> start < cs@.len(),
            negative == (cs@.len() > 0 && cs@[0] == '-'),
            d == cs@.skip(start as int),
            ok ==> forall|k: int| 0 <= k < i - start ==> is_digit(#[trigger] d[k]),
            !ok ==> !(d.len() > 0 && forall|k: int| 0 <= k < d.len() ==> is_digit(#[trigger] d[k])),
            ok && !overflow ==> value as nat == digits_value(d.take(i - start)) && value <= limit,
            ok && overflow ==> digits_value(d.take(i - start)) > limit,
        decreases cs@.len() - i,
    {
        let c = cs[i];
        assert(d[i - start] == c);
        if !('0' <= c && c <= '9') {
            ok = false;
            assert(!is_digit(d[i - start]));
        } else if ok {
            let digit = (c as u32 - 48) as u64;
            proof {
                assert(d.take(i - start + 1).drop_last() == d.take(i - start));
                assert(d.take(i - start + 1).last() == c);
                if overflow {
                    assert(digits_value(d.take(i - start + 1)) >= digits_value(d.take(i - start)))
                        by (nonlinear_arith)
                        requires
                            digits_value(d.take(i - start + 1)) == digits_value(d.take(i - start)) * 10 + (c as nat - 48) as nat;
                }
            }
            if !overflow {
                if value > (limit - digit) / 10 {
                    overflow = true;
                    assert(value * 10 + digit > limit) by (nonlinear_arith)
                        requires value > (limit - digit) / 10, digit <= 9, limit == 9223372036854775808u64;
                } else {
                    assert(value * 10 + digit <= limit) by (nonlinear_arith)
                        requires value <= (limit - digit) / 10, digit <= 9, limit == 9223372036854775808u64;
                    value = value * 10 + digit;
                }
            }
        }
        i = i + 1;
    }
    assert(d.take(d.len() as int) == d);
    if !ok || overflow || (!negative && value == limit) {
        let mut found = owned("number literal `");
        push_str(&mut found, literal);
        push_str(&mut found, "`");
        return Err(type_mismatch(span, "Int", found.as_str()));
    }
    if negative {
        if value == limit {
            Ok(-9223372036854775807i64 - 1)
        } else {
            Ok(-(value as i64))
        }
    } else {
        Ok(value as i64)
    }
}

// ---------------------------------------------------------------------------
// Anchoring a function's diagnostics
// ---------------------------------------------------------------------------

/// `out` is `d` re-anchored on its function: a non-exhaustive match moves to
/// the function's name, an unbound identifier to the function's first
/// attribute (else its name), each keeping its old place as a new last
/// label; every other diagnostic stays as it was.
pub open spec fn anchors(out: Diagnostic, d: Diagnostic, name_span: Span, first_attribute: Option<Span>) -> bool {
    match d.code {
        DiagnosticCode::NonExhaustiveMatch => {
            &&& out.code == d.code
            &&& out.payload == d.payload
            &&& out.primary == name_span
            &&& out.labels@.len() == d.labels@.len() + 1
            &&& out.labels@.drop_last() == d.labels@
            &&& out.labels@.last().span == d.primary
            &&& out.labels@.last().text@ == "non-exhaustive match occurs here"@
        },
        DiagnosticCode::UnboundIdentifier => {
            &&& out.code == d.code
            &&& out.payload == d.payload
            &&& out.primary == (match first_attribute { Some(a) => a, None => name_span })
            &&& out.labels@.len() == d.labels@.len() + 1
            &&& out.labels@.drop_last() == d.labels@
            &&& out.labels@.last().span == d.primary
            &&& out.labels@.last().text@ == "used here without a declaring parameter"@
        },
        _ => out == d,
    }
}

/// Re-anchors a function's diagnostics on the function itself, given the
/// span of its name and of its first attribute, if it has any.
pub fn anchor_function_diagnostics(name_span: Span, first_attribute: Option<Span>, diagnostics: Diagnostics)
    -> (r: Diagnostics)
    ensures
        r.entries@.len() == diagnostics.entries@.len(),
        forall|i: int| 0 <= i < r.entries@.len() ==>
            anchors(#[trigger] r.entries@[i], diagnostics.entries@[i], name_span, first_attribute),
{
    let ghost given = diagnostics.entries@;
    let mut rest = diagnostics.entries;
    let mut out: Vec<Diagnostic> = Vec::new();
    while rest.len() > 0
        invariant
            out@.len() + rest@.len() == given.len(),
            rest@ == given.skip(out@.len() as int),
            forall|i: int| 0 <= i < out@.len() ==>
                anchors(#[trigger] out@[i], given[i], name_span, first_attribute),
        decreases rest@.len(),
    {
        let ghost k = out@.len() as int;
        let mut d = rest.remove(0);
        assert(d == given[k]);
        match d.code {
            DiagnosticCode::NonExhaustiveMatch => {
                let at = d.primary;
                d.primary = name_span;
                d.labels.push(Label { span: at, text: owned("non-exhaustive match occurs here") });
                assert(d.labels@.drop_last() =~= given[k].labels@);
            },
            DiagnosticCode::UnboundIdentifier => {
                let at = d.primary;
                d.primary = match first_attribute {
                    Some(a) => a,
                    None => name_span,
                };
                d.labels.push(Label { span: at, text: owned("used here without a declaring parameter") });
                assert(d.labels@.drop_last() =~= given[k].labels@);
            },
            _ => {},
        }
        assert(anchors(d, given[k], name_span, first_attribute));
        let ghost before = out@;
        out.push(d);
        assert forall|i: int| 0 <= i < out@.len() implies
            anchors(#[trigger] out@[i], given[i], name_span, first_attribute) by {
            if i < k {
                assert(out@[i] == before[i]);
            }
        }
        assert(rest@ == given.skip(out@.len() as int));
    }
    Diagnostics { entries: out }
}

// ---------------------------------------------------------------------------
// Path literals
// ---------------------------------------------------------------------------

/// What a relative path literal may not hold: a leading `/`, a backslash,
/// or NUL.
pub open spec fn relative_path_text(v: Seq<char>) -> bool {
    !(v.len() > 0 && v[0] == '/') && !v.contains('\\') && !v.contains('\0')
}

/// One path segment: nonempty, not a dot segment, no separators, no NUL.
pub open spec fn segment_ok(s: Seq<char>) -> bool {
    s.len() > 0 && s != "."@ && s != ".."@ && !s.contains('/') && !s.contains('\\') && !s.contains('\0')
}

/// The refusal of a path literal that is not relative.
pub open spec fn not_relative_message() -> Seq<char> {
    "Path literal must be a relative path"@
}

/// The refusal of a bad path segment.
pub open spec fn bad_segment_message() -> Seq<char> {
    "Path join requires one nonempty segment without separators, dot segments, or NUL"@
}

/// What a path literal is refused with, if it is: the empty literal is fine.
pub open spec fn path_literal_refusal(v: Seq<char>) -> Option<Seq<char>> {
    if v.len() == 0 {
        None
    } else if !relative_path_text(v) {
        Some(not_relative_message())
    } else if exists|k: int| 0 <= k < split_on(v, '/').len() && !segment_ok(#[trigger] split_on(v, '/')[k]) {
        Some(bad_segment_message())
    } else {
        None
    }
}

/// `s` holds `c`.
fn contains_char(s: &[char], c: char) -> (b: bool)
    ensures
        b == s@.contains(c),
{
    let mut i: usize = 0;
    while i < s.len()
        invariant
            i <= s@.len(),
            forall|k: int| 0 <= k < i ==> s@[k] != c,
        decreases s@.len() - i,
    {
        if s[i] == c {
            assert(s@[i as int] == c);
            return true;
        }
        i = i + 1;
    }
    false
}

/// One path segment is acceptable.
fn segment_ok_exec(s: &[char]) -> (b: bool)
    ensures
        b == segment_ok(s@),
{
    let dot = chars_of(".");
    let dots = chars_of("..");
    s.len() > 0
        && !crate::text::chars_eq(s, dot.as_slice())
        && !crate::text::chars_eq(s, dots.as_slice())
        && !contains_char(s, '/')
        && !contains_char(s, '\\')
        && !contains_char(s, '\0')
}

/// Check one path segment: nonempty, not `.` or `..`, with no separator or NUL.
pub fn validate_path_segment(value: &str, span: Span) -> (r: Result<(), Diagnostics>)
    ensures
        match r {
            Ok(()) => segment_ok(value@),
            Err(d) => !segment_ok(value@) && is_unsupported(d, span, bad_segment_message()),
        },
{
    let cs = chars_of(value);
    if segment_ok_exec(cs.as_slice()) {
        Ok(())
    } else {
        Err(Diagnostics::one(Diagnostic::unsupported(
            span,
            "Path join requires one nonempty segment without separators, dot segments, or NUL",
        )))
    }
}

/// Check a path literal: empty, or relative with every `/`-separated
/// segment acceptable.
pub fn validate_path_literal(value: &str, span: Span) -> (r: Result<(), Diagnostics>)
    ensures
        match path_literal_refusal(value@) {
            None => r is Ok,
            Some(m) => r matches Err(d) && is_unsupported(d, span, m),
        },
{
    let cs = chars_of(value);
    if cs.len() == 0 {
        return Ok(());
    }
    if cs[0] == '/' || contains_char(cs.as_slice(), '\\') || contains_char(cs.as_slice(), '\0') {
        return Err(Diagnostics::one(Diagnostic::unsupported(span, "Path literal must be a relative path")));
    }
    let segments = split_chars(cs.as_slice(), '/');
    let mut i: usize = 0;
    while i < segments.len()
        invariant
            i <= segments@.len(),
            cs@ == value@,
            value@.len() > 0,
            relative_path_text(value@),
            segments@.len() == split_on(value@, '/').len(),
            forall|k: int| 0 <= k < segments@.len() ==> #[trigger] segments@[k]@ == split_on(value@, '/')[k],
            forall|k: int| 0 <= k < i ==> segment_ok(#[trigger] split_on(value@, '/')[k]),
        decreases segments@.len() - i,
    {
        if !segment_ok_exec(segments[i].as_slice()) {
            assert(!segment_ok(split_on(value@, '/')[i as int]));
            return Err(Diagnostics::one(Diagnostic::unsupported(
                span,
                "Path join requires one nonempty segment without separators, dot segments, or NUL",
            )));
        }
        i = i + 1;
    }
    Ok(())
}

} // verus!
