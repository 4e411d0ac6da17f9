//! Type-directed document decoding: the compile-time half of typed decode.
//!
//! One pass over a document's parse events, walked directly against the
//! compiler-known target type. Each event is matched against the declared
//! type it lands on, and the walk yields typed leaves (`DecodedValue`),
//! aligned to the type: record fields in declaration order, option presence
//! resolved, enum variant selected. Selection between an enum's string form
//! and table form is deterministic: an ambiguous shape is a typed failure.

use vstd::prelude::*;
use facet_format::{FieldKey, FormatParser, ParseEvent, ParseEventKind, ScalarValue};
use facet_json::JsonParser;
use facet_toml::TomlParser;
use crate::text::{owned, push_str};
pub use crate::vir::DecodeFormat;
use crate::vir::{EnumType, EnumVariant, RecordField, Type, VariantPayload,
    option_payload, spelling};

verus! {

/// A byte span inside the decoded document (the parser's coordinates).
#[derive(Clone, Copy, Debug, PartialEq, Eq)]
pub struct DocumentSpan {
    pub offset: u32,
    pub len: u32,
}

/// One step of a structured field path into the document.
#[derive(Debug, PartialEq, Eq)]
pub enum PathSegment {
    Field(String),
}

/// A typed decode failure kind. `label` is the stable machine discriminant
/// and `render` a human convenience.
#[derive(Debug, PartialEq, Eq)]
pub enum DecodeErrorKind {
    ExpectedScalar { expected: String, found: &'static str },
    ExpectedObject { container: String, found: &'static str },
    ExpectedStringOrObject { enum_name: String, found: &'static str },
    IntOutOfRange,
    MissingField { container: String, field: String },
    UnknownField { container: String, field: String },
    DuplicateField { container: String, field: String },
    NoStringForm { enum_name: String },
    NoTableForm { enum_name: String },
    AmbiguousStringForm { enum_name: String },
    AmbiguousTableForm { enum_name: String },
    UnsupportedTarget { target: String },
    TrailingContent { format: &'static str, found: &'static str },
    UnexpectedEnd { container: String },
    /// A leaf failure reported by the underlying parser, as rendered text.
    Parse { detail: String },
}

/// A typed decode failure: a kind, the field path that reached it (outer to
/// inner), and the offending document span when the parser offered one.
#[derive(Debug, PartialEq, Eq)]
pub struct DecodeError {
    pub kind: DecodeErrorKind,
    pub path: Vec<PathSegment>,
    pub span: Option<DocumentSpan>,
}

/// A decoded value shaped by the target type.
#[derive(Debug, PartialEq, Eq)]
pub enum DecodedValue {
    Int(i64),
    Bool(bool),
    Str(String),
    /// Record fields in declaration order.
    Record(Vec<DecodedValue>),
    OptionSome(Box<DecodedValue>),
    OptionNone,
    /// A selected enum variant with its payload in declaration order.
    Variant { index: u32, fields: Vec<DecodedValue> },
}

// ---------------------------------------------------------------------------
// Parse events
// ---------------------------------------------------------------------------

/// A scalar literal of the document, as the decoder distinguishes it.
#[derive(Debug, PartialEq, Eq)]
pub enum DocScalar {
    Unit,
    Null,
    Bool(bool),
    Char,
    I64(i64),
    U64(u64),
    I128,
    U128,
    Float,
    Str(String),
    Bytes,
}

/// One parse event of the document.
#[derive(Debug, PartialEq, Eq)]
pub enum DocEvent {
    StructStart,
    StructEnd,
    /// A field key; `None` is a key without a name.
    FieldKey(Option<String>),
    OrderedField,
    SequenceStart,
    SequenceEnd,
    Scalar(DocScalar),
    VariantTag,
}

/// A parse event with its document span.
#[derive(Debug, PartialEq, Eq)]
pub struct SpannedEvent {
    pub kind: DocEvent,
    pub span: DocumentSpan,
}

/// What follows the last event of a stream: the end of the document, or a
/// parser failure (its rendered detail).
#[derive(Debug, PartialEq, Eq)]
pub enum StreamEnd {
    Finished,
    Failed(String),
}

// ---------------------------------------------------------------------------
// Values of results
// ---------------------------------------------------------------------------

/// The value of a decoded value.
pub enum DecodedView {
    Int(i64),
    Bool(bool),
    Str(Seq<char>),
    Record(Seq<DecodedView>),
    OptionSome(Box<DecodedView>),
    OptionNone,
    Variant { index: u32, fields: Seq<DecodedView> },
}

/// The value of an error kind.
pub enum KindView {
    ExpectedScalar { expected: Seq<char>, found: Seq<char> },
    ExpectedObject { container: Seq<char>, found: Seq<char> },
    ExpectedStringOrObject { enum_name: Seq<char>, found: Seq<char> },
    IntOutOfRange,
    MissingField { container: Seq<char>, field: Seq<char> },
    UnknownField { container: Seq<char>, field: Seq<char> },
    DuplicateField { container: Seq<char>, field: Seq<char> },
    NoStringForm { enum_name: Seq<char> },
    NoTableForm { enum_name: Seq<char> },
    AmbiguousStringForm { enum_name: Seq<char> },
    AmbiguousTableForm { enum_name: Seq<char> },
    UnsupportedTarget { target: Seq<char> },
    TrailingContent { format: Seq<char>, found: Seq<char> },
    UnexpectedEnd { container: Seq<char> },
    Parse { detail: Seq<char> },
}

/// The value of a decode error.
pub struct ErrorView {
    pub kind: KindView,
    pub path: Seq<Seq<char>>,
    pub span: Option<DocumentSpan>,
}

/// The value of a decoded value.
pub open spec fn value_view(v: DecodedValue) -> DecodedView
    decreases v,
{
    match v {
        DecodedValue::Int(i) => DecodedView::Int(i),
        DecodedValue::Bool(b) => DecodedView::Bool(b),
        DecodedValue::Str(s) => DecodedView::Str(s@),
        DecodedValue::Record(fields) => DecodedView::Record(values_view(fields@)),
        DecodedValue::OptionSome(inner) => DecodedView::OptionSome(Box::new(value_view(*inner))),
        DecodedValue::OptionNone => DecodedView::OptionNone,
        DecodedValue::Variant { index, fields } => DecodedView::Variant { index, fields: values_view(fields@) },
    }
}

/// The values of a list of decoded values.
pub open spec fn values_view(s: Seq<DecodedValue>) -> Seq<DecodedView>
    decreases s,
{
    if s.len() == 0 {
        seq![]
    } else {
        values_view(s.drop_last()).push(value_view(s.last()))
    }
}

/// The value of an error kind.
pub open spec fn kind_view(k: DecodeErrorKind) -> KindView {
    match k {
        DecodeErrorKind::ExpectedScalar { expected, found } => KindView::ExpectedScalar { expected: expected@, found: found@ },
        DecodeErrorKind::ExpectedObject { container, found } => KindView::ExpectedObject { container: container@, found: found@ },
        DecodeErrorKind::ExpectedStringOrObject { enum_name, found } => KindView::ExpectedStringOrObject { enum_name: enum_name@, found: found@ },
        DecodeErrorKind::IntOutOfRange => KindView::IntOutOfRange,
        DecodeErrorKind::MissingField { container, field } => KindView::MissingField { container: container@, field: field@ },
        DecodeErrorKind::UnknownField { container, field } => KindView::UnknownField { container: container@, field: field@ },
        DecodeErrorKind::DuplicateField { container, field } => KindView::DuplicateField { container: container@, field: field@ },
        DecodeErrorKind::NoStringForm { enum_name } => KindView::NoStringForm { enum_name: enum_name@ },
        DecodeErrorKind::NoTableForm { enum_name } => KindView::NoTableForm { enum_name: enum_name@ },
        DecodeErrorKind::AmbiguousStringForm { enum_name } => KindView::AmbiguousStringForm { enum_name: enum_name@ },
        DecodeErrorKind::AmbiguousTableForm { enum_name } => KindView::AmbiguousTableForm { enum_name: enum_name@ },
        DecodeErrorKind::UnsupportedTarget { target } => KindView::UnsupportedTarget { target: target@ },
        DecodeErrorKind::TrailingContent { format, found } => KindView::TrailingContent { format: format@, found: found@ },
        DecodeErrorKind::UnexpectedEnd { container } => KindView::UnexpectedEnd { container: container@ },
        DecodeErrorKind::Parse { detail } => KindView::Parse { detail: detail@ },
    }
}

/// The field names of a path.
pub open spec fn path_view(p: Seq<PathSegment>) -> Seq<Seq<char>> {
    p.map_values(|s: PathSegment| match s { PathSegment::Field(n) => n@ })
}

/// The value of a decode error.
pub open spec fn error_view(e: DecodeError) -> ErrorView {
    ErrorView { kind: kind_view(e.kind), path: path_view(e.path@), span: e.span }
}

// ---------------------------------------------------------------------------
// Labels and renderings
// ---------------------------------------------------------------------------

/// The label of a document format.
pub open spec fn format_label(f: DecodeFormat) -> Seq<char> {
    match f {
        DecodeFormat::Json => "JSON"@,
        DecodeFormat::Toml => "TOML"@,
    }
}

/// The label of a document format.
pub fn label(format: DecodeFormat) -> (s: &'static str)
    ensures
        s@ == format_label(format),
{
    match format {
        DecodeFormat::Json => "JSON",
        DecodeFormat::Toml => "TOML",
    }
}

/// How a scalar is named in a failure.
pub open spec fn scalar_label_spec(v: DocScalar) -> Seq<char> {
    match v {
        DocScalar::Unit | DocScalar::Null => "null"@,
        DocScalar::Bool(_) => "a boolean"@,
        DocScalar::Char => "a character"@,
        DocScalar::I64(_) | DocScalar::U64(_) | DocScalar::I128 | DocScalar::U128 => "an integer"@,
        DocScalar::Float => "a float"@,
        DocScalar::Str(_) => "a string"@,
        DocScalar::Bytes => "bytes"@,
    }
}

/// How an event is named in a failure.
pub open spec fn event_label_spec(e: DocEvent) -> Seq<char> {
    match e {
        DocEvent::StructStart => "an object"@,
        DocEvent::StructEnd => "an object end"@,
        DocEvent::FieldKey(_) => "a field key"@,
        DocEvent::OrderedField => "an ordered field"@,
        DocEvent::SequenceStart => "an array"@,
        DocEvent::SequenceEnd => "an array end"@,
        DocEvent::Scalar(v) => scalar_label_spec(v),
        DocEvent::VariantTag => "a variant tag"@,
    }
}

/// How a scalar is named in a failure.
pub fn scalar_label(v: &DocScalar) -> (s: &'static str)
    ensures
        s@ == scalar_label_spec(*v),
{
    match v {
        DocScalar::Unit | DocScalar::Null => "null",
        DocScalar::Bool(_) => "a boolean",
        DocScalar::Char => "a character",
        DocScalar::I64(_) | DocScalar::U64(_) | DocScalar::I128 | DocScalar::U128 => "an integer",
        DocScalar::Float => "a float",
        DocScalar::Str(_) => "a string",
        DocScalar::Bytes => "bytes",
    }
}

/// How an event is named in a failure.
pub fn event_label(e: &DocEvent) -> (s: &'static str)
    ensures
        s@ == event_label_spec(*e),
{
    match e {
        DocEvent::StructStart => "an object",
        DocEvent::StructEnd => "an object end",
        DocEvent::FieldKey(_) => "a field key",
        DocEvent::OrderedField => "an ordered field",
        DocEvent::SequenceStart => "an array",
        DocEvent::SequenceEnd => "an array end",
        DocEvent::Scalar(v) => scalar_label(v),
        DocEvent::VariantTag => "a variant tag",
    }
}

/// The stable machine discriminant of a kind.
pub open spec fn kind_label(k: KindView) -> Seq<char> {
    match k {
        KindView::ExpectedScalar { .. } => "expected-scalar"@,
        KindView::ExpectedObject { .. } => "expected-object"@,
        KindView::ExpectedStringOrObject { .. } => "expected-string-or-object"@,
        KindView::IntOutOfRange => "int-out-of-range"@,
        KindView::MissingField { .. } => "missing-field"@,
        KindView::UnknownField { .. } => "unknown-field"@,
        KindView::DuplicateField { .. } => "duplicate-field"@,
        KindView::NoStringForm { .. } => "no-string-form"@,
        KindView::NoTableForm { .. } => "no-table-form"@,
        KindView::AmbiguousStringForm { .. } => "ambiguous-string-form"@,
        KindView::AmbiguousTableForm { .. } => "ambiguous-table-form"@,
        KindView::UnsupportedTarget { .. } => "unsupported-target"@,
        KindView::TrailingContent { .. } => "trailing-content"@,
        KindView::UnexpectedEnd { .. } => "unexpected-end"@,
        KindView::Parse { .. } => "parse-error"@,
    }
}

/// The human rendering of a kind.
pub open spec fn kind_render(k: KindView) -> Seq<char> {
    match k {
        KindView::ExpectedScalar { expected, found } => "expected "@ + expected + ", found "@ + found,
        KindView::ExpectedObject { container, found } => "expected an object for "@ + container + ", found "@ + found,
        KindView::ExpectedStringOrObject { enum_name, found } =>
            "expected a string or object for "@ + enum_name + ", found "@ + found,
        KindView::IntOutOfRange => "expected Int, found an out-of-range integer"@,
        KindView::MissingField { container, field } => "missing field \""@ + field + "\" in "@ + container,
        KindView::UnknownField { container, field } => "unknown field \""@ + field + "\" in "@ + container,
        KindView::DuplicateField { container, field } => "duplicate field \""@ + field + "\" in "@ + container,
        KindView::NoStringForm { enum_name } =>
            enum_name + " has no short (single-string) form for a scalar document"@,
        KindView::NoTableForm { enum_name } =>
            enum_name + " has no detailed (table) form for an object document"@,
        KindView::AmbiguousStringForm { enum_name } => enum_name
            + " has more than one short (single-string) form; a scalar document selects no variant unambiguously"@,
        KindView::AmbiguousTableForm { enum_name } => enum_name
            + " has more than one detailed (table) form; an object document selects no variant unambiguously"@,
        KindView::UnsupportedTarget { target } => "cannot decode into "@ + target,
        KindView::TrailingContent { format, found } =>
            "unexpected trailing "@ + format + " after the decoded value: "@ + found,
        KindView::UnexpectedEnd { container } => "expected a value for "@ + container + ", found end of document"@,
        KindView::Parse { detail } => detail,
    }
}

/// Concatenation of three strings.
fn cat3(a: &str, b: &str, c: &str) -> (s: String)
    ensures
        s@ == a@ + b@ + c@,
{
    let mut s = owned(a);
    push_str(&mut s, b);
    push_str(&mut s, c);
    s
}

/// Concatenation of four strings.
fn cat4(a: &str, b: &str, c: &str, d: &str) -> (s: String)
    ensures
        s@ == a@ + b@ + c@ + d@,
{
    let mut s = cat3(a, b, c);
    push_str(&mut s, d);
    s
}

impl DecodeErrorKind {
    /// A stable machine discriminant, never rendered prose.
    pub fn label(&self) -> (s: &'static str)
        ensures
            s@ == kind_label(kind_view(*self)),
    {
        match self {
            DecodeErrorKind::ExpectedScalar { .. } => "expected-scalar",
            DecodeErrorKind::ExpectedObject { .. } => "expected-object",
            DecodeErrorKind::ExpectedStringOrObject { .. } => "expected-string-or-object",
            DecodeErrorKind::IntOutOfRange => "int-out-of-range",
            DecodeErrorKind::MissingField { .. } => "missing-field",
            DecodeErrorKind::UnknownField { .. } => "unknown-field",
            DecodeErrorKind::DuplicateField { .. } => "duplicate-field",
            DecodeErrorKind::NoStringForm { .. } => "no-string-form",
            DecodeErrorKind::NoTableForm { .. } => "no-table-form",
            DecodeErrorKind::AmbiguousStringForm { .. } => "ambiguous-string-form",
            DecodeErrorKind::AmbiguousTableForm { .. } => "ambiguous-table-form",
            DecodeErrorKind::UnsupportedTarget { .. } => "unsupported-target",
            DecodeErrorKind::TrailingContent { .. } => "trailing-content",
            DecodeErrorKind::UnexpectedEnd { .. } => "unexpected-end",
            DecodeErrorKind::Parse { .. } => "parse-error",
        }
    }

    /// A human-readable rendering; identity lives in the kind.
    pub fn render(&self) -> (s: String)
        ensures
            s@ == kind_render(kind_view(*self)),
    {
        match self {
            DecodeErrorKind::ExpectedScalar { expected, found } => cat4("expected ", expected.as_str(), ", found ", found),
            DecodeErrorKind::ExpectedObject { container, found } =>
                cat4("expected an object for ", container.as_str(), ", found ", found),
            DecodeErrorKind::ExpectedStringOrObject { enum_name, found } =>
                cat4("expected a string or object for ", enum_name.as_str(), ", found ", found),
            DecodeErrorKind::IntOutOfRange => owned("expected Int, found an out-of-range integer"),
            DecodeErrorKind::MissingField { container, field } =>
                cat4("missing field \"", field.as_str(), "\" in ", container.as_str()),
            DecodeErrorKind::UnknownField { container, field } =>
                cat4("unknown field \"", field.as_str(), "\" in ", container.as_str()),
            DecodeErrorKind::DuplicateField { container, field } =>
                cat4("duplicate field \"", field.as_str(), "\" in ", container.as_str()),
            DecodeErrorKind::NoStringForm { enum_name } => {
                let mut s = owned(enum_name.as_str());
                push_str(&mut s, " has no short (single-string) form for a scalar document");
                s
            }
            DecodeErrorKind::NoTableForm { enum_name } => {
                let mut s = owned(enum_name.as_str());
                push_str(&mut s, " has no detailed (table) form for an object document");
                s
            }
            DecodeErrorKind::AmbiguousStringForm { enum_name } => {
                let mut s = owned(enum_name.as_str());
                push_str(&mut s, " has more than one short (single-string) form; a scalar document selects no variant unambiguously");
                s
            }
            DecodeErrorKind::AmbiguousTableForm { enum_name } => {
                let mut s = owned(enum_name.as_str());
                push_str(&mut s, " has more than one detailed (table) form; an object document selects no variant unambiguously");
                s
            }
            DecodeErrorKind::UnsupportedTarget { target } => {
                let mut s = owned("cannot decode into ");
                push_str(&mut s, target.as_str());
                s
            }
            DecodeErrorKind::TrailingContent { format, found } =>
                cat4("unexpected trailing ", format, " after the decoded value: ", found),
            DecodeErrorKind::UnexpectedEnd { container } =>
                cat3("expected a value for ", container.as_str(), ", found end of document"),
            DecodeErrorKind::Parse { detail } => owned(detail.as_str()),
        }
    }
}


// ---------------------------------------------------------------------------
// The decoder, as a function of the event stream
// ---------------------------------------------------------------------------

/// A walk result: the outcome and the stream position after it.
pub type Step<T> = (Result<T, ErrorView>, int);

/// An error of the given kind, with no path and no span.
pub open spec fn of_kind(k: KindView) -> ErrorView {
    ErrorView { kind: k, path: seq![], span: None }
}

/// The error with `s` as its span unless it has one.
pub open spec fn with_span(e: ErrorView, s: DocumentSpan) -> ErrorView {
    if e.span is None {
        ErrorView { kind: e.kind, path: e.path, span: Some(s) }
    } else {
        e
    }
}

/// The error one field further out: `field` prepended to its path.
pub open spec fn under(e: ErrorView, field: Seq<char>) -> ErrorView {
    ErrorView { kind: e.kind, path: seq![field] + e.path, span: e.span }
}

/// A parser failure with its detail.
pub open spec fn parse_failure(detail: Seq<char>) -> ErrorView {
    of_kind(KindView::Parse { detail: "parse error: "@ + detail })
}

/// The document ended where `container` expected a value.
pub open spec fn end_failure(container: Seq<char>) -> ErrorView {
    of_kind(KindView::UnexpectedEnd { container })
}

/// What a peek at `pos` sees: an event, the end, or the parser's failure.
pub open spec fn peek_at(events: Seq<SpannedEvent>, end: StreamEnd, pos: int) -> Result<Option<SpannedEvent>, ErrorView> {
    if 0 <= pos < events.len() {
        Ok(Some(events[pos]))
    } else {
        match end {
            StreamEnd::Finished => Ok(None),
            StreamEnd::Failed(d) => Err(parse_failure(d@)),
        }
    }
}

/// The event consumed at `pos`; the end of the document is a failure.
pub open spec fn consume_at(events: Seq<SpannedEvent>, end: StreamEnd, pos: int) -> Result<SpannedEvent, ErrorView> {
    match peek_at(events, end, pos) {
        Ok(Some(ev)) => Ok(ev),
        Ok(None) => Err(end_failure("the document"@)),
        Err(e) => Err(e),
    }
}

/// The position after a consume at `pos`.
pub open spec fn advance(events: Seq<SpannedEvent>, pos: int) -> int {
    if 0 <= pos < events.len() { pos + 1 } else { pos }
}

/// The position a nested walk that started at `lo` left off at, kept in
/// `lo..=events.len()`.
pub open spec fn resume(events: Seq<SpannedEvent>, lo: int, q: int) -> int {
    if lo <= q <= events.len() { q } else { lo }
}

/// A null or unit scalar event.
pub open spec fn is_null(e: DocEvent) -> bool {
    e matches DocEvent::Scalar(DocScalar::Null) || e matches DocEvent::Scalar(DocScalar::Unit)
}

/// The name a field key carries; a key without one reads as empty.
pub open spec fn key_name(k: Option<String>) -> Seq<char> {
    match k {
        Some(s) => s@,
        None => seq![],
    }
}

/// A scalar of the wrong shape for `expected`.
pub open spec fn mismatch(expected: Seq<char>, v: DocScalar, s: DocumentSpan) -> ErrorView {
    with_span(of_kind(KindView::ExpectedScalar { expected, found: scalar_label_spec(v) }), s)
}

/// The scalar consumed at `pos`, with its span.
pub open spec fn scalar_at(events: Seq<SpannedEvent>, end: StreamEnd, expected: Seq<char>, pos: int)
    -> Result<(DocScalar, DocumentSpan), ErrorView>
{
    match consume_at(events, end, pos) {
        Err(e) => Err(e),
        Ok(ev) => match ev.kind {
            DocEvent::Scalar(v) => Ok((v, ev.span)),
            other => Err(with_span(
                of_kind(KindView::ExpectedScalar { expected, found: event_label_spec(other) }),
                ev.span,
            )),
        },
    }
}

/// An `Int` leaf.
pub open spec fn dec_int(events: Seq<SpannedEvent>, end: StreamEnd, pos: int) -> Step<DecodedView> {
    let p = advance(events, pos);
    match scalar_at(events, end, "Int"@, pos) {
        Err(e) => (Err(e), p),
        Ok((v, s)) => match v {
            DocScalar::I64(i) => (Ok(DecodedView::Int(i)), p),
            DocScalar::U64(u) => if u <= i64::MAX {
                (Ok(DecodedView::Int(u as i64)), p)
            } else {
                (Err(with_span(of_kind(KindView::IntOutOfRange), s)), p)
            },
            other => (Err(mismatch("Int"@, other, s)), p),
        },
    }
}

/// A `Bool` leaf.
pub open spec fn dec_bool(events: Seq<SpannedEvent>, end: StreamEnd, pos: int) -> Step<DecodedView> {
    let p = advance(events, pos);
    match scalar_at(events, end, "Bool"@, pos) {
        Err(e) => (Err(e), p),
        Ok((v, s)) => match v {
            DocScalar::Bool(b) => (Ok(DecodedView::Bool(b)), p),
            other => (Err(mismatch("Bool"@, other, s)), p),
        },
    }
}

/// A `String` leaf.
pub open spec fn dec_string(events: Seq<SpannedEvent>, end: StreamEnd, pos: int) -> Step<DecodedView> {
    let p = advance(events, pos);
    match scalar_at(events, end, "String"@, pos) {
        Err(e) => (Err(e), p),
        Ok((v, s)) => match v {
            DocScalar::Str(t) => (Ok(DecodedView::Str(t@)), p),
            other => (Err(mismatch("String"@, other, s)), p),
        },
    }
}

/// The first field at or after `i` named `name`.
pub open spec fn find_field(fields: Seq<RecordField>, name: Seq<char>, i: int) -> Option<int>
    decreases fields.len() - i,
{
    if i < 0 || i >= fields.len() {
        None
    } else if fields[i].name@ == name {
        Some(i)
    } else {
        find_field(fields, name, i + 1)
    }
}

/// Field `i` was not given and has no default.
pub open spec fn is_missing(fields: Seq<RecordField>, slots: Seq<Option<DecodedView>>, i: int) -> bool {
    slots[i] is None && option_payload(fields[i].ty) is None
}

/// The first missing field at or after `i`.
pub open spec fn first_missing(fields: Seq<RecordField>, slots: Seq<Option<DecodedView>>, i: int) -> Option<int>
    decreases fields.len() - i,
{
    if i < 0 || i >= fields.len() {
        None
    } else if is_missing(fields, slots, i) {
        Some(i)
    } else {
        first_missing(fields, slots, i + 1)
    }
}

/// The value a slot resolves to: its value, or `None` for an absent option.
pub open spec fn slot_value(slot: Option<DecodedView>) -> DecodedView {
    match slot {
        Some(v) => v,
        None => DecodedView::OptionNone,
    }
}

/// The field values once the object is closed, in declaration order.
pub open spec fn finish(container: Seq<char>, fields: Seq<RecordField>, slots: Seq<Option<DecodedView>>)
    -> Result<Seq<DecodedView>, ErrorView>
{
    match first_missing(fields, slots, 0) {
        Some(i) => Err(of_kind(KindView::MissingField { container, field: fields[i].name@ })),
        None => Ok(Seq::new(fields.len(), |i: int| slot_value(slots[i]))),
    }
}

/// Variant `v` has the short form: a single `String` tuple payload.
pub open spec fn is_short(v: EnumVariant) -> bool {
    &&& v.payload is Tuple
    &&& v.payload->Tuple_0@.len() == 1
    &&& v.payload->Tuple_0@[0] == Type::String
}

/// Variant `v` has the table form: a record payload.
pub open spec fn is_table(v: EnumVariant) -> bool {
    v.payload is Record
}

/// The indices of the short-form variants, in order.
pub open spec fn short_indices(vs: Seq<EnumVariant>) -> Seq<int>
    decreases vs.len(),
{
    if vs.len() == 0 {
        seq![]
    } else {
        short_indices(vs.drop_last()) + if is_short(vs.last()) { seq![vs.len() - 1] } else { seq![] }
    }
}

/// The indices of the table-form variants, in order.
pub open spec fn table_indices(vs: Seq<EnumVariant>) -> Seq<int>
    decreases vs.len(),
{
    if vs.len() == 0 {
        seq![]
    } else {
        table_indices(vs.drop_last()) + if is_table(vs.last()) { seq![vs.len() - 1] } else { seq![] }
    }
}

/// The unique short-form variant of `e`.
pub open spec fn string_form(e: EnumType) -> Result<int, ErrorView> {
    let ix = short_indices(e.variants@);
    if ix.len() == 0 {
        Err(of_kind(KindView::NoStringForm { enum_name: e.name@ }))
    } else if ix.len() > 1 {
        Err(of_kind(KindView::AmbiguousStringForm { enum_name: e.name@ }))
    } else {
        Ok(ix[0])
    }
}

/// The unique table-form variant of `e`.
pub open spec fn table_form(e: EnumType) -> Result<int, ErrorView> {
    let ix = table_indices(e.variants@);
    if ix.len() == 0 {
        Err(of_kind(KindView::NoTableForm { enum_name: e.name@ }))
    } else if ix.len() > 1 {
        Err(of_kind(KindView::AmbiguousTableForm { enum_name: e.name@ }))
    } else {
        Ok(ix[0])
    }
}

/// Every index listed by `short_indices` or `table_indices` names a
/// variant of that form.
pub proof fn lemma_form_indices(vs: Seq<EnumVariant>)
    ensures
        forall|k: int| 0 <= k < short_indices(vs).len() ==>
            0 <= #[trigger] short_indices(vs)[k] < vs.len() && is_short(vs[short_indices(vs)[k]]),
        forall|k: int| 0 <= k < table_indices(vs).len() ==>
            0 <= #[trigger] table_indices(vs)[k] < vs.len() && is_table(vs[table_indices(vs)[k]]),
    decreases vs.len(),
{
    if vs.len() > 0 {
        lemma_form_indices(vs.drop_last());
        assert forall|k: int| 0 <= k < short_indices(vs).len() implies
            0 <= #[trigger] short_indices(vs)[k] < vs.len() && is_short(vs[short_indices(vs)[k]]) by {
            let a = short_indices(vs.drop_last());
            if k < a.len() {
                assert(short_indices(vs)[k] == a[k]);
            }
        }
        assert forall|k: int| 0 <= k < table_indices(vs).len() implies
            0 <= #[trigger] table_indices(vs)[k] < vs.len() && is_table(vs[table_indices(vs)[k]]) by {
            let a = table_indices(vs.drop_last());
            if k < a.len() {
                assert(table_indices(vs)[k] == a[k]);
            }
        }
    }
}

/// `find_field` finds a field of that name at or after `i`, and no earlier one.
pub proof fn lemma_find_field(fields: Seq<RecordField>, name: Seq<char>, i: int)
    requires
        0 <= i,
    ensures
        match find_field(fields, name, i) {
            Some(j) => i <= j < fields.len() && fields[j].name@ == name
                && forall|k: int| i <= k < j ==> fields[k].name@ != name,
            None => forall|k: int| i <= k < fields.len() ==> fields[k].name@ != name,
        },
    decreases fields.len() - i,
{
    if i < fields.len() && fields[i].name@ != name {
        lemma_find_field(fields, name, i + 1);
    }
}

/// The payload type of an option type is smaller than it.
pub proof fn lemma_option_payload_smaller(ty: Type)
    requires
        option_payload(ty) is Some,
    ensures
        decreases_to!(ty => option_payload(ty)->Some_0),
{
    let e = ty->Enum_0;
    assert(decreases_to!(ty => e.variants@[1]));
    let p = e.variants@[1].payload;
    assert(decreases_to!(ty => p->Tuple_0@[0]));
}

/// Skip one value of unknown shape at `pos`.
pub open spec fn skip_value(events: Seq<SpannedEvent>, end: StreamEnd, pos: int) -> Step<()>
    decreases events.len() - pos, 1int,
{
    match consume_at(events, end, pos) {
        Err(e) => (Err(e), pos),
        Ok(ev) => match ev.kind {
            DocEvent::Scalar(_) => (Ok(()), pos + 1),
            DocEvent::StructStart => skip_struct(events, end, pos + 1),
            DocEvent::SequenceStart => skip_seq(events, end, pos + 1),
            DocEvent::VariantTag => skip_value(events, end, pos + 1),
            other => (Err(of_kind(KindView::ExpectedObject { container: "unknown field"@, found: event_label_spec(other) })), pos + 1),
        },
    }
}

/// Skip the rest of an object whose start was consumed.
pub open spec fn skip_struct(events: Seq<SpannedEvent>, end: StreamEnd, pos: int) -> Step<()>
    decreases events.len() - pos, 1int,
{
    match consume_at(events, end, pos) {
        Err(e) => (Err(e), pos),
        Ok(ev) => match ev.kind {
            DocEvent::StructEnd => (Ok(()), pos + 1),
            DocEvent::FieldKey(_) => {
                let r = skip_value(events, end, pos + 1);
                match r.0 {
                    Err(e) => (Err(e), r.1),
                    Ok(_) => skip_struct(events, end, resume(events, pos + 1, r.1)),
                }
            },
            other => (Err(of_kind(KindView::ExpectedObject { container: "unknown field"@, found: event_label_spec(other) })), pos + 1),
        },
    }
}

/// Skip the rest of an array whose start was consumed.
pub open spec fn skip_seq(events: Seq<SpannedEvent>, end: StreamEnd, pos: int) -> Step<()>
    decreases events.len() - pos, 2int,
{
    match peek_at(events, end, pos) {
        Err(e) => (Err(e), pos),
        Ok(None) => (Err(end_failure("unknown array"@)), pos),
        Ok(Some(ev)) => if ev.kind is SequenceEnd {
            (Ok(()), pos + 1)
        } else {
            let r = skip_value(events, end, pos);
            match r.0 {
                Err(e) => (Err(e), r.1),
                Ok(_) => skip_seq(events, end, resume(events, pos + 1, r.1)),
            }
        },
    }
}


/// Wrap a decoded value as present.
pub open spec fn some_of(r: Result<DecodedView, ErrorView>) -> Result<DecodedView, ErrorView> {
    match r {
        Ok(v) => Ok(DecodedView::OptionSome(Box::new(v))),
        Err(e) => Err(e),
    }
}

/// Decode one value of type `ty` at `pos`.
pub open spec fn dec_value(events: Seq<SpannedEvent>, end: StreamEnd, ty: Type, pos: int) -> Step<DecodedView>
    decreases ty, 0int, 0int,
{
    match option_payload(ty) {
        Some(inner) => match peek_at(events, end, pos) {
            Err(e) => (Err(e), pos),
            Ok(Some(ev)) => if is_null(ev.kind) {
                (Ok(DecodedView::OptionNone), pos + 1)
            } else {
                proof { lemma_option_payload_smaller(ty); }
                let r = dec_value(events, end, inner, pos);
                (some_of(r.0), r.1)
            },
            Ok(None) => {
                proof { lemma_option_payload_smaller(ty); }
                let r = dec_value(events, end, inner, pos);
                (some_of(r.0), r.1)
            },
        },
        None => match ty {
            Type::Int => dec_int(events, end, pos),
            Type::Bool => dec_bool(events, end, pos),
            Type::String => dec_string(events, end, pos),
            Type::Record(rec) => {
                let r = dec_fields(events, end, rec.name@, rec.fields@, pos);
                (match r.0 {
                    Ok(vs) => Ok(DecodedView::Record(vs)),
                    Err(e) => Err(e),
                }, r.1)
            },
            Type::Enum(e) => dec_enum(events, end, e, pos),
            _ => (Err(of_kind(KindView::UnsupportedTarget { target: spelling(ty) })), pos),
        },
    }
}

/// Decode an enum by its string form or its table form.
pub open spec fn dec_enum(events: Seq<SpannedEvent>, end: StreamEnd, e: EnumType, pos: int) -> Step<DecodedView>
    decreases e, 0int, 0int,
{
    match peek_at(events, end, pos) {
        Err(err) => (Err(err), pos),
        Ok(None) => (Err(end_failure(e.name@)), pos),
        Ok(Some(ev)) => match ev.kind {
            DocEvent::Scalar(_) => match string_form(e) {
                Err(err) => (Err(err), pos),
                Ok(index) => {
                    let r = dec_string(events, end, pos);
                    (match r.0 {
                        Ok(v) => Ok(DecodedView::Variant { index: index as u32, fields: seq![v] }),
                        Err(err) => Err(err),
                    }, r.1)
                },
            },
            DocEvent::StructStart => match table_form(e) {
                Err(err) => (Err(err), pos),
                Ok(index) => {
                    proof { lemma_form_indices(e.variants@); }
                    let r = dec_fields(events, end, e.name@, e.variants@[index].payload->Record_0@, pos);
                    (match r.0 {
                        Ok(vs) => Ok(DecodedView::Variant { index: index as u32, fields: vs }),
                        Err(err) => Err(err),
                    }, r.1)
                },
            },
            other => (Err(with_span(
                of_kind(KindView::ExpectedStringOrObject { enum_name: e.name@, found: event_label_spec(other) }),
                ev.span,
            )), pos),
        },
    }
}

/// Decode one object against `fields`, in declaration order.
pub open spec fn dec_fields(events: Seq<SpannedEvent>, end: StreamEnd, container: Seq<char>, fields: Seq<RecordField>, pos: int)
    -> Step<Seq<DecodedView>>
    decreases fields, 2int, 0int,
{
    match consume_at(events, end, pos) {
        Err(e) => (Err(e), pos),
        Ok(start) => if start.kind is StructStart {
            fields_loop(events, end, container, fields, Seq::new(fields.len(), |i: int| None), pos + 1)
        } else {
            (Err(with_span(
                of_kind(KindView::ExpectedObject { container, found: event_label_spec(start.kind) }),
                start.span,
            )), pos + 1)
        },
    }
}

/// The members of an object from `pos` on, with the values decoded so far.
pub open spec fn fields_loop(
    events: Seq<SpannedEvent>,
    end: StreamEnd,
    container: Seq<char>,
    fields: Seq<RecordField>,
    slots: Seq<Option<DecodedView>>,
    pos: int,
) -> Step<Seq<DecodedView>>
    decreases fields, 1int, events.len() - pos,
{
    match peek_at(events, end, pos) {
        Err(e) => (Err(e), pos),
        Ok(None) => (finish(container, fields, slots), pos),
        Ok(Some(ev)) => match ev.kind {
            DocEvent::StructEnd => (finish(container, fields, slots), pos + 1),
            DocEvent::FieldKey(k) => {
                let name = key_name(k);
                match find_field(fields, name, 0) {
                    Some(i) => if slots[i] is Some {
                        (Err(with_span(of_kind(KindView::DuplicateField { container, field: name }), ev.span)), pos + 1)
                    } else {
                        proof { lemma_find_field(fields, name, 0); }
                        let r = dec_value(events, end, fields[i].ty, pos + 1);
                        match r.0 {
                            Err(e) => (Err(under(e, name)), r.1),
                            Ok(v) => fields_loop(events, end, container, fields, slots.update(i, Some(v)),
                                resume(events, pos + 1, r.1)),
                        }
                    },
                    None => {
                        let r = skip_value(events, end, pos + 1);
                        match r.0 {
                            Err(e) => (Err(e), r.1),
                            Ok(_) => fields_loop(events, end, container, fields, slots, resume(events, pos + 1, r.1)),
                        }
                    },
                }
            },
            other => (Err(with_span(
                of_kind(KindView::ExpectedObject { container, found: event_label_spec(other) }),
                ev.span,
            )), pos),
        },
    }
}

/// Decode a whole stream against `target`: one value, then the end.
pub open spec fn decode_stream(format: DecodeFormat, events: Seq<SpannedEvent>, end: StreamEnd, target: Type)
    -> Result<DecodedView, ErrorView>
{
    let r = dec_value(events, end, target, 0);
    match r.0 {
        Err(e) => Err(e),
        Ok(v) => match peek_at(events, end, r.1) {
            Err(e) => Err(e),
            Ok(None) => Ok(v),
            Ok(Some(ev)) => Err(with_span(
                of_kind(KindView::TrailingContent { format: format_label(format), found: event_label_spec(ev.kind) }),
                ev.span,
            )),
        },
    }
}


/// An option type has at most one short form and no table form.
proof fn lemma_option_forms(e: EnumType)
    requires
        option_payload(Type::Enum(e)) is Some,
    ensures
        short_indices(e.variants@).len() <= 1,
        table_indices(e.variants@).len() == 0,
{
    let vs = e.variants@;
    let a = vs.drop_last();
    assert(a.last() == vs[0]);
    assert(a.drop_last().len() == 0);
    assert(!is_short(vs[0]) && !is_table(vs[0]) && !is_table(vs[1]));
    assert(short_indices(a.drop_last()) == Seq::<int>::empty());
    assert(table_indices(a.drop_last()) == Seq::<int>::empty());
    assert(short_indices(a) =~= Seq::<int>::empty());
    assert(table_indices(a) =~= Seq::<int>::empty());
    assert(table_indices(vs) =~= Seq::<int>::empty());
}

/// Ambiguous enum forms are rejected, not first-matched: a scalar document
/// decoded into an enum with more than one short (single-string) form fails
/// as ambiguous, and so does an object document decoded into an enum with
/// more than one detailed (table) form.
pub proof fn law_ambiguous_forms_are_rejected(format: DecodeFormat, events: Seq<SpannedEvent>, end: StreamEnd, e: EnumType)
    requires
        events.len() > 0,
    ensures
        events[0].kind is Scalar && short_indices(e.variants@).len() > 1 ==>
            decode_stream(format, events, end, Type::Enum(e))
                == Err::<DecodedView, ErrorView>(of_kind(KindView::AmbiguousStringForm { enum_name: e.name@ })),
        events[0].kind is StructStart && table_indices(e.variants@).len() > 1 ==>
            decode_stream(format, events, end, Type::Enum(e))
                == Err::<DecodedView, ErrorView>(of_kind(KindView::AmbiguousTableForm { enum_name: e.name@ })),
{
    if short_indices(e.variants@).len() > 1 || table_indices(e.variants@).len() > 1 {
        if option_payload(Type::Enum(e)) is Some {
            lemma_option_forms(e);
        }
        assert(option_payload(Type::Enum(e)) is None);
        assert(peek_at(events, end, 0) == Ok::<Option<SpannedEvent>, ErrorView>(Some(events[0])));
        assert(dec_value(events, end, Type::Enum(e), 0) == dec_enum(events, end, e, 0));
    }
}

// ---------------------------------------------------------------------------
// Values of outcomes
// ---------------------------------------------------------------------------

/// The value of a decode outcome.
pub open spec fn value_result(r: Result<DecodedValue, DecodeError>) -> Result<DecodedView, ErrorView> {
    match r {
        Ok(v) => Ok(value_view(v)),
        Err(e) => Err(error_view(e)),
    }
}

/// The value of an outcome that decodes a list of values.
pub open spec fn values_result(r: Result<Vec<DecodedValue>, DecodeError>) -> Result<Seq<DecodedView>, ErrorView> {
    match r {
        Ok(v) => Ok(values_view(v@)),
        Err(e) => Err(error_view(e)),
    }
}

/// The value of an outcome that yields nothing.
pub open spec fn unit_result(r: Result<(), DecodeError>) -> Result<(), ErrorView> {
    match r {
        Ok(_) => Ok(()),
        Err(e) => Err(error_view(e)),
    }
}

/// The value of an optional decoded value.
pub open spec fn slot_view(o: Option<DecodedValue>) -> Option<DecodedView> {
    match o {
        Some(v) => Some(value_view(v)),
        None => None,
    }
}

/// The values of a list of optional decoded values.
pub open spec fn slots_view(s: Seq<Option<DecodedValue>>) -> Seq<Option<DecodedView>> {
    s.map_values(|o: Option<DecodedValue>| slot_view(o))
}

/// `values_view` maps each value to its view.
pub proof fn lemma_values_view(s: Seq<DecodedValue>)
    ensures
        values_view(s).len() == s.len(),
        forall|i: int| 0 <= i < s.len() ==> #[trigger] values_view(s)[i] == value_view(s[i]),
    decreases s.len(),
{
    if s.len() > 0 {
        lemma_values_view(s.drop_last());
    }
}

impl DecodeError {
    /// An error of the given kind, with no path and no span.
    fn of(kind: DecodeErrorKind) -> (e: Self)
        ensures
            error_view(e) == of_kind(kind_view(kind)),
    {
        let e = DecodeError { kind, path: Vec::new(), span: None };
        assert(path_view(e.path@) =~= seq![]);
        e
    }

    /// The error with `span` as its span unless it has one.
    fn with_span(self, span: DocumentSpan) -> (e: Self)
        ensures
            error_view(e) == with_span(error_view(self), span),
    {
        let mut e = self;
        if e.span.is_none() {
            e.span = Some(span);
        }
        e
    }

    /// Prepend one field as the error unwinds, so the path reads outer to inner.
    fn under(self, field: &str) -> (e: Self)
        ensures
            error_view(e) == under(error_view(self), field@),
    {
        let mut e = self;
        let ghost old_path = e.path@;
        e.path.insert(0, PathSegment::Field(owned(field)));
        assert(path_view(e.path@) =~= seq![field@] + path_view(old_path));
        e
    }

    /// The field-path names, outer to inner.
    pub fn path_names(&self) -> (names: Vec<String>)
        ensures
            crate::text::strs_view(names@) == error_view(*self).path,
    {
        let mut names: Vec<String> = Vec::new();
        let mut i: usize = 0;
        while i < self.path.len()
            invariant
                i <= self.path@.len(),
                crate::text::strs_view(names@) == path_view(self.path@.take(i as int)),
            decreases self.path@.len() - i,
        {
            let PathSegment::Field(name) = &self.path[i];
            names.push(owned(name.as_str()));
            assert(path_view(self.path@.take(i as int + 1)) =~= path_view(self.path@.take(i as int)).push(name@));
            assert(crate::text::strs_view(names@) =~= crate::text::strs_view(names@.drop_last()).push(name@));
            i = i + 1;
        }
        assert(self.path@.take(self.path@.len() as int) =~= self.path@);
        names
    }

    /// A human rendering: the kind's message, without the path.
    pub fn render(&self) -> (s: String)
        ensures
            s@ == kind_render(kind_view(self.kind)),
    {
        self.kind.render()
    }
}


// ---------------------------------------------------------------------------
// Walking the stream
// ---------------------------------------------------------------------------

/// A parser failure with its detail.
fn parse_error(detail: &str) -> (e: DecodeError)
    ensures
        error_view(e) == parse_failure(detail@),
{
    let mut d = owned("parse error: ");
    push_str(&mut d, detail);
    DecodeError::of(DecodeErrorKind::Parse { detail: d })
}

/// The document ended where `container` expected a value.
fn end_error(container: &str) -> (e: DecodeError)
    ensures
        error_view(e) == end_failure(container@),
{
    DecodeError::of(DecodeErrorKind::UnexpectedEnd { container: owned(container) })
}

/// Peek at the event at `pos`.
fn peek_event<'a>(events: &'a Vec<SpannedEvent>, end: &StreamEnd, pos: usize)
    -> (r: Result<Option<&'a SpannedEvent>, DecodeError>)
    ensures
        match peek_at(events@, *end, pos as int) {
            Ok(Some(ev)) => r matches Ok(Some(x)) && *x == ev,
            Ok(None) => r matches Ok(None),
            Err(e) => r matches Err(x) && error_view(x) == e,
        },
        r matches Ok(Some(_)) ==> pos < events.len(),
{
    if pos < events.len() {
        Ok(Some(&events[pos]))
    } else {
        match end {
            StreamEnd::Finished => Ok(None),
            StreamEnd::Failed(d) => Err(parse_error(d.as_str())),
        }
    }
}

/// Consume the event at `pos`; the end of the document is a failure.
fn consume_event<'a>(events: &'a Vec<SpannedEvent>, end: &StreamEnd, pos: usize)
    -> (r: Result<&'a SpannedEvent, DecodeError>)
    ensures
        match consume_at(events@, *end, pos as int) {
            Ok(ev) => r matches Ok(x) && *x == ev,
            Err(e) => r matches Err(x) && error_view(x) == e,
        },
        r is Ok ==> pos < events.len(),
{
    match peek_event(events, end, pos) {
        Ok(Some(ev)) => Ok(ev),
        Ok(None) => Err(end_error("the document")),
        Err(e) => Err(e),
    }
}

/// The position after a consume at `pos`.
fn advance_exec(events: &Vec<SpannedEvent>, pos: usize) -> (p: usize)
    requires
        pos <= events@.len(),
    ensures
        p as int == advance(events@, pos as int),
        pos <= p <= events@.len(),
{
    if pos < events.len() { pos + 1 } else { pos }
}

/// A scalar of the wrong shape for `expected`.
fn mismatch_error(expected: &str, v: &DocScalar, span: DocumentSpan) -> (e: DecodeError)
    ensures
        error_view(e) == mismatch(expected@, *v, span),
{
    DecodeError::of(DecodeErrorKind::ExpectedScalar { expected: owned(expected), found: scalar_label(v) })
        .with_span(span)
}

/// Consume one scalar at `pos`, with its span.
fn scalar_event<'a>(events: &'a Vec<SpannedEvent>, end: &StreamEnd, expected: &str, pos: usize)
    -> (r: Result<(&'a DocScalar, DocumentSpan), DecodeError>)
    ensures
        match scalar_at(events@, *end, expected@, pos as int) {
            Ok((v, sp)) => r matches Ok((x, t)) && *x == v && t == sp,
            Err(e) => r matches Err(x) && error_view(x) == e,
        },
{
    match consume_event(events, end, pos) {
        Err(e) => Err(e),
        Ok(ev) => match &ev.kind {
            DocEvent::Scalar(v) => Ok((v, ev.span)),
            other => Err(DecodeError::of(DecodeErrorKind::ExpectedScalar {
                expected: owned(expected),
                found: event_label(other),
            }).with_span(ev.span)),
        },
    }
}

/// An `Int` leaf at `pos`.
fn decode_int(events: &Vec<SpannedEvent>, end: &StreamEnd, pos: usize) -> (r: (Result<DecodedValue, DecodeError>, usize))
    requires
        pos <= events@.len(),
    ensures
        value_result(r.0) == dec_int(events@, *end, pos as int).0,
        r.1 as int == dec_int(events@, *end, pos as int).1,
        pos <= r.1 <= events@.len(),
{
    let p = advance_exec(events, pos);
    match scalar_event(events, end, "Int", pos) {
        Err(e) => (Err(e), p),
        Ok((v, s)) => match v {
            DocScalar::I64(i) => (Ok(DecodedValue::Int(*i)), p),
            DocScalar::U64(u) => if *u <= 9223372036854775807u64 {
                (Ok(DecodedValue::Int(*u as i64)), p)
            } else {
                (Err(DecodeError::of(DecodeErrorKind::IntOutOfRange).with_span(s)), p)
            },
            other => (Err(mismatch_error("Int", other, s)), p),
        },
    }
}

/// A `Bool` leaf at `pos`.
fn decode_bool(events: &Vec<SpannedEvent>, end: &StreamEnd, pos: usize) -> (r: (Result<DecodedValue, DecodeError>, usize))
    requires
        pos <= events@.len(),
    ensures
        value_result(r.0) == dec_bool(events@, *end, pos as int).0,
        r.1 as int == dec_bool(events@, *end, pos as int).1,
        pos <= r.1 <= events@.len(),
{
    let p = advance_exec(events, pos);
    match scalar_event(events, end, "Bool", pos) {
        Err(e) => (Err(e), p),
        Ok((v, s)) => match v {
            DocScalar::Bool(b) => (Ok(DecodedValue::Bool(*b)), p),
            other => (Err(mismatch_error("Bool", other, s)), p),
        },
    }
}

/// A `String` leaf at `pos`.
fn decode_string(events: &Vec<SpannedEvent>, end: &StreamEnd, pos: usize) -> (r: (Result<DecodedValue, DecodeError>, usize))
    requires
        pos <= events@.len(),
    ensures
        value_result(r.0) == dec_string(events@, *end, pos as int).0,
        r.1 as int == dec_string(events@, *end, pos as int).1,
        pos <= r.1 <= events@.len(),
{
    let p = advance_exec(events, pos);
    match scalar_event(events, end, "String", pos) {
        Err(e) => (Err(e), p),
        Ok((v, s)) => match v {
            DocScalar::Str(t) => (Ok(DecodedValue::Str(owned(t.as_str()))), p),
            other => (Err(mismatch_error("String", other, s)), p),
        },
    }
}


/// An event where an unknown field's value or member was expected.
fn unknown_field_error(found: &DocEvent) -> (e: DecodeError)
    ensures
        error_view(e) == of_kind(KindView::ExpectedObject { container: "unknown field"@, found: event_label_spec(*found) }),
{
    DecodeError::of(DecodeErrorKind::ExpectedObject { container: owned("unknown field"), found: event_label(found) })
}

/// Skip one value of unknown shape at `pos`.
fn skip_value_exec(events: &Vec<SpannedEvent>, end: &StreamEnd, pos: usize) -> (r: (Result<(), DecodeError>, usize))
    requires
        pos <= events@.len(),
    ensures
        unit_result(r.0) == skip_value(events@, *end, pos as int).0,
        r.1 as int == skip_value(events@, *end, pos as int).1,
        pos <= r.1 <= events@.len(),
        r.0 is Ok ==> pos < r.1,
    decreases events@.len() - pos,
{
    match consume_event(events, end, pos) {
        Err(e) => (Err(e), pos),
        Ok(ev) => match &ev.kind {
            DocEvent::Scalar(_) => (Ok(()), pos + 1),
            DocEvent::VariantTag => skip_value_exec(events, end, pos + 1),
            DocEvent::StructStart => {
                let mut p = pos + 1;
                loop
                    invariant
                        pos < p <= events@.len(),
                        skip_struct(events@, *end, p as int) == skip_struct(events@, *end, pos + 1),
                        skip_value(events@, *end, pos as int) == skip_struct(events@, *end, pos + 1),
                    decreases events@.len() - p,
                {
                    match consume_event(events, end, p) {
                        Err(e) => return (Err(e), p),
                        Ok(member) => match &member.kind {
                            DocEvent::StructEnd => return (Ok(()), p + 1),
                            DocEvent::FieldKey(_) => {
                                let r = skip_value_exec(events, end, p + 1);
                                match r.0 {
                                    Err(e) => return (Err(e), r.1),
                                    Ok(()) => {
                                        p = r.1;
                                    },
                                }
                            },
                            other => return (Err(unknown_field_error(other)), p + 1),
                        },
                    }
                }
            },
            DocEvent::SequenceStart => {
                let mut p = pos + 1;
                loop
                    invariant
                        pos < p <= events@.len(),
                        skip_seq(events@, *end, p as int) == skip_seq(events@, *end, pos + 1),
                        skip_value(events@, *end, pos as int) == skip_seq(events@, *end, pos + 1),
                    decreases events@.len() - p,
                {
                    match peek_event(events, end, p) {
                        Err(e) => return (Err(e), p),
                        Ok(None) => return (Err(end_error("unknown array")), p),
                        Ok(Some(item)) => {
                            if matches!(item.kind, DocEvent::SequenceEnd) {
                                return (Ok(()), p + 1);
                            }
                            let r = skip_value_exec(events, end, p);
                            match r.0 {
                                Err(e) => return (Err(e), r.1),
                                Ok(()) => {
                                    p = r.1;
                                },
                            }
                        },
                    }
                }
            },
            other => (Err(unknown_field_error(other)), pos + 1),
        },
    }
}


/// The name a field key carries; a key without one reads as empty.
fn key_name_of(k: &Option<String>) -> (s: String)
    ensures
        s@ == key_name(*k),
{
    match k {
        Some(name) => owned(name.as_str()),
        None => String::new(),
    }
}

/// The first field named `name`.
fn find_field_exec(fields: &Vec<RecordField>, name: &str) -> (r: Option<usize>)
    ensures
        match r {
            Some(i) => find_field(fields@, name@, 0) == Some(i as int) && i < fields@.len(),
            None => find_field(fields@, name@, 0) is None,
        },
{
    proof { lemma_find_field(fields@, name@, 0); }
    let mut i: usize = 0;
    while i < fields.len()
        invariant
            i <= fields@.len(),
            find_field(fields@, name@, 0) == find_field(fields@, name@, i as int),
        decreases fields@.len() - i,
    {
        if crate::text::str_eq(fields[i].name.as_str(), name) {
            return Some(i);
        }
        i = i + 1;
    }
    None
}

/// Field `i` was not given and has no default, scanning from `i` to `j`.
proof fn lemma_first_missing(fields: Seq<RecordField>, slots: Seq<Option<DecodedView>>, i: int, j: int)
    requires
        0 <= i <= j <= fields.len(),
        forall|k: int| i <= k < j ==> !is_missing(fields, slots, k),
    ensures
        first_missing(fields, slots, i) == first_missing(fields, slots, j),
    decreases j - i,
{
    if i < j {
        lemma_first_missing(fields, slots, i + 1, j);
    }
}

/// The field values once the object is closed.
fn finish_fields(container: &str, fields: &Vec<RecordField>, slots: Vec<Option<DecodedValue>>)
    -> (r: Result<Vec<DecodedValue>, DecodeError>)
    requires
        slots@.len() == fields@.len(),
    ensures
        values_result(r) == finish(container@, fields@, slots_view(slots@)),
{
    let ghost sv = slots_view(slots@);
    let n = slots.len();
    let mut i: usize = 0;
    while i < n
        invariant
            i <= n,
            n == slots@.len(),
            n == fields@.len(),
            sv == slots_view(slots@),
            forall|k: int| 0 <= k < i ==> !is_missing(fields@, sv, k),
        decreases n - i,
    {
        assert(sv[i as int] == slot_view(slots@[i as int]));
        if slots[i].is_none() && fields[i].ty.option_inner().is_none() {
            proof {
                lemma_first_missing(fields@, sv, 0, i as int);
            }
            return Err(DecodeError::of(DecodeErrorKind::MissingField {
                container: owned(container),
                field: owned(fields[i].name.as_str()),
            }));
        }
        i = i + 1;
    }
    proof {
        lemma_first_missing(fields@, sv, 0, n as int);
    }
    let mut slots = slots;
    let mut out: Vec<DecodedValue> = Vec::new();
    let mut i: usize = 0;
    while i < n
        invariant
            i <= n,
            n == slots@.len(),
            n == fields@.len(),
            sv.len() == n,
            forall|k: int| i <= k < n ==> slot_view(#[trigger] slots@[k]) == sv[k],
            out@.len() == i,
            forall|k: int| 0 <= k < i ==> value_view(#[trigger] out@[k]) == slot_value(sv[k]),
        decreases n - i,
    {
        let mut taken: Option<DecodedValue> = None;
        slots.set_and_swap(i, &mut taken);
        match taken {
            Some(v) => out.push(v),
            None => out.push(DecodedValue::OptionNone),
        }
        i = i + 1;
    }
    proof {
        lemma_values_view(out@);
        assert(values_view(out@) =~= Seq::new(n as nat, |k: int| slot_value(sv[k])));
    }
    Ok(out)
}


/// Variant `v` has the short form.
fn is_short_exec(v: &EnumVariant) -> (b: bool)
    ensures
        b == is_short(*v),
{
    match &v.payload {
        VariantPayload::Tuple(items) => items.len() == 1 && matches!(items[0], Type::String),
        _ => false,
    }
}

/// Variant `v` has the table form.
fn is_table_exec(v: &EnumVariant) -> (b: bool)
    ensures
        b == is_table(*v),
{
    matches!(v.payload, VariantPayload::Record(_))
}

/// The unique short-form variant of `e`: none, or more than one, is a failure.
fn string_form_exec(e: &EnumType) -> (r: Result<usize, DecodeError>)
    ensures
        match string_form(*e) {
            Ok(i) => r matches Ok(j) && j as int == i,
            Err(x) => r matches Err(y) && error_view(y) == x,
        },
{
    let ghost vs = e.variants@;
    let mut count: usize = 0;
    let mut first: usize = 0;
    let mut i: usize = 0;
    while i < e.variants.len()
        invariant
            vs == e.variants@,
            i <= vs.len(),
            count as int == short_indices(vs.take(i as int)).len(),
            count > 0 ==> first as int == short_indices(vs.take(i as int))[0],
            count <= i,
        decreases vs.len() - i,
    {
        assert(vs.take(i as int + 1).drop_last() =~= vs.take(i as int));
        if is_short_exec(&e.variants[i]) {
            if count == 0 {
                first = i;
            }
            count = count + 1;
        }
        i = i + 1;
    }
    assert(vs.take(vs.len() as int) =~= vs);
    if count == 0 {
        Err(DecodeError::of(DecodeErrorKind::NoStringForm { enum_name: owned(e.name.as_str()) }))
    } else if count > 1 {
        Err(DecodeError::of(DecodeErrorKind::AmbiguousStringForm { enum_name: owned(e.name.as_str()) }))
    } else {
        Ok(first)
    }
}

/// The unique table-form variant of `e`: none, or more than one, is a failure.
fn table_form_exec(e: &EnumType) -> (r: Result<usize, DecodeError>)
    ensures
        match table_form(*e) {
            Ok(i) => r matches Ok(j) && j as int == i,
            Err(x) => r matches Err(y) && error_view(y) == x,
        },
{
    let ghost vs = e.variants@;
    let mut count: usize = 0;
    let mut first: usize = 0;
    let mut i: usize = 0;
    while i < e.variants.len()
        invariant
            vs == e.variants@,
            i <= vs.len(),
            count as int == table_indices(vs.take(i as int)).len(),
            count > 0 ==> first as int == table_indices(vs.take(i as int))[0],
            count <= i,
        decreases vs.len() - i,
    {
        assert(vs.take(i as int + 1).drop_last() =~= vs.take(i as int));
        if is_table_exec(&e.variants[i]) {
            if count == 0 {
                first = i;
            }
            count = count + 1;
        }
        i = i + 1;
    }
    assert(vs.take(vs.len() as int) =~= vs);
    if count == 0 {
        Err(DecodeError::of(DecodeErrorKind::NoTableForm { enum_name: owned(e.name.as_str()) }))
    } else if count > 1 {
        Err(DecodeError::of(DecodeErrorKind::AmbiguousTableForm { enum_name: owned(e.name.as_str()) }))
    } else {
        Ok(first)
    }
}


/// A null or unit scalar event.
fn is_null_exec(e: &DocEvent) -> (b: bool)
    ensures
        b == is_null(*e),
{
    matches!(e, DocEvent::Scalar(DocScalar::Null)) || matches!(e, DocEvent::Scalar(DocScalar::Unit))
}

/// Decode one value of type `ty` at `pos`.
fn decode_value(events: &Vec<SpannedEvent>, end: &StreamEnd, ty: &Type, pos: usize)
    -> (r: (Result<DecodedValue, DecodeError>, usize))
    requires
        pos <= events@.len(),
    ensures
        value_result(r.0) == dec_value(events@, *end, *ty, pos as int).0,
        r.1 as int == dec_value(events@, *end, *ty, pos as int).1,
        pos <= r.1 <= events@.len(),
    decreases *ty,
{
    match ty.option_inner() {
        Some(inner) => {
            proof { lemma_option_payload_smaller(*ty); }
            match peek_event(events, end, pos) {
                Err(e) => (Err(e), pos),
                Ok(peeked) => {
                    let null = match peeked {
                        Some(ev) => is_null_exec(&ev.kind),
                        None => false,
                    };
                    if null {
                        (Ok(DecodedValue::OptionNone), pos + 1)
                    } else {
                        let r = decode_value(events, end, inner, pos);
                        (match r.0 {
                            Ok(v) => Ok(DecodedValue::OptionSome(Box::new(v))),
                            Err(e) => Err(e),
                        }, r.1)
                    }
                },
            }
        },
        None => match ty {
            Type::Int => decode_int(events, end, pos),
            Type::Bool => decode_bool(events, end, pos),
            Type::String => decode_string(events, end, pos),
            Type::Record(rec) => {
                let r = decode_fields(events, end, rec.name.as_str(), &rec.fields, pos);
                (match r.0 {
                    Ok(vs) => Ok(DecodedValue::Record(vs)),
                    Err(e) => Err(e),
                }, r.1)
            },
            Type::Enum(e) => decode_enum(events, end, e, pos),
            _ => (Err(DecodeError::of(DecodeErrorKind::UnsupportedTarget { target: ty.name() })), pos),
        },
    }
}

/// Decode an enum by its string form or its table form.
fn decode_enum(events: &Vec<SpannedEvent>, end: &StreamEnd, e: &EnumType, pos: usize)
    -> (r: (Result<DecodedValue, DecodeError>, usize))
    requires
        pos <= events@.len(),
    ensures
        value_result(r.0) == dec_enum(events@, *end, *e, pos as int).0,
        r.1 as int == dec_enum(events@, *end, *e, pos as int).1,
        pos <= r.1 <= events@.len(),
    decreases *e,
{
    match peek_event(events, end, pos) {
        Err(err) => (Err(err), pos),
        Ok(None) => (Err(end_error(e.name.as_str())), pos),
        Ok(Some(ev)) => match &ev.kind {
            DocEvent::Scalar(_) => match string_form_exec(e) {
                Err(err) => (Err(err), pos),
                Ok(index) => {
                    let r = decode_string(events, end, pos);
                    match r.0 {
                        Ok(v) => {
                            let fields = vec![v];
                            proof {
                                lemma_values_view(fields@);
                                assert(values_view(fields@) =~= seq![value_view(fields@[0])]);
                            }
                            (Ok(DecodedValue::Variant { index: index as u32, fields }), r.1)
                        },
                        Err(err) => (Err(err), r.1),
                    }
                },
            },
            DocEvent::StructStart => match table_form_exec(e) {
                Err(err) => (Err(err), pos),
                Ok(index) => {
                    proof { lemma_form_indices(e.variants@); }
                    match &e.variants[index].payload {
                        VariantPayload::Record(fields) => {
                            let r = decode_fields(events, end, e.name.as_str(), fields, pos);
                            (match r.0 {
                                Ok(vs) => Ok(DecodedValue::Variant { index: index as u32, fields: vs }),
                                Err(err) => Err(err),
                            }, r.1)
                        },
                        _ => {
                            // `table_form` only yields record variants.
                            proof { assert(false); }
                            (Err(end_error(e.name.as_str())), pos)
                        },
                    }
                },
            },
            other => (Err(DecodeError::of(DecodeErrorKind::ExpectedStringOrObject {
                enum_name: owned(e.name.as_str()),
                found: event_label(other),
            }).with_span(ev.span)), pos),
        },
    }
}

/// Decode one object against `fields`, in declaration order. Fields are
/// matched by name; absent option fields resolve to `None`; unknown fields
/// are skipped; a missing or repeated field is a failure.
fn decode_fields(events: &Vec<SpannedEvent>, end: &StreamEnd, container: &str, fields: &Vec<RecordField>, pos: usize)
    -> (r: (Result<Vec<DecodedValue>, DecodeError>, usize))
    requires
        pos <= events@.len(),
    ensures
        values_result(r.0) == dec_fields(events@, *end, container@, fields@, pos as int).0,
        r.1 as int == dec_fields(events@, *end, container@, fields@, pos as int).1,
        pos <= r.1 <= events@.len(),
    decreases fields@,
{
    let start = match consume_event(events, end, pos) {
        Err(e) => return (Err(e), pos),
        Ok(ev) => ev,
    };
    if !matches!(start.kind, DocEvent::StructStart) {
        return (Err(DecodeError::of(DecodeErrorKind::ExpectedObject {
            container: owned(container),
            found: event_label(&start.kind),
        }).with_span(start.span)), pos + 1);
    }
    let n = fields.len();
    let mut slots: Vec<Option<DecodedValue>> = Vec::new();
    let mut k: usize = 0;
    while k < n
        invariant
            k <= n,
            slots@.len() == k,
            forall|j: int| 0 <= j < k ==> #[trigger] slots@[j] is None,
        decreases n - k,
    {
        slots.push(None);
        k = k + 1;
    }
    assert(slots_view(slots@) =~= Seq::new(n as nat, |i: int| None::<DecodedView>));
    let mut p = pos + 1;
    loop
        invariant
            pos < p <= events@.len(),
            slots@.len() == fields@.len(),
            fields_loop(events@, *end, container@, fields@, slots_view(slots@), p as int)
                == dec_fields(events@, *end, container@, fields@, pos as int),
        decreases events@.len() - p,
    {
        match peek_event(events, end, p) {
            Err(e) => return (Err(e), p),
            Ok(None) => return (finish_fields(container, fields, slots), p),
            Ok(Some(ev)) => match &ev.kind {
                DocEvent::StructEnd => return (finish_fields(container, fields, slots), p + 1),
                DocEvent::FieldKey(key) => {
                    let name = key_name_of(key);
                    match find_field_exec(fields, name.as_str()) {
                        Some(i) => {
                            if slots[i].is_some() {
                                return (Err(DecodeError::of(DecodeErrorKind::DuplicateField {
                                    container: owned(container),
                                    field: name,
                                }).with_span(ev.span)), p + 1);
                            }
                            let r = decode_value(events, end, &fields[i].ty, p + 1);
                            match r.0 {
                                Err(e) => return (Err(e.under(name.as_str())), r.1),
                                Ok(v) => {
                                    let ghost before = slots_view(slots@);
                                    let ghost vv = value_view(v);
                                    slots.set(i, Some(v));
                                    assert(slots_view(slots@) =~= before.update(i as int, Some(vv)));
                                    p = r.1;
                                },
                            }
                        },
                        None => {
                            let r = skip_value_exec(events, end, p + 1);
                            match r.0 {
                                Err(e) => return (Err(e), r.1),
                                Ok(()) => {
                                    p = r.1;
                                },
                            }
                        },
                    }
                },
                other => return (Err(DecodeError::of(DecodeErrorKind::ExpectedObject {
                    container: owned(container),
                    found: event_label(other),
                }).with_span(ev.span)), p),
            },
        }
    }
}

/// Decode a whole event stream against `target`: one value, then the end.
pub fn decode_events(format: DecodeFormat, events: &Vec<SpannedEvent>, end: &StreamEnd, target: &Type)
    -> (r: Result<DecodedValue, DecodeError>)
    ensures
        value_result(r) == decode_stream(format, events@, *end, *target),
{
    let (value, p) = decode_value(events, end, target, 0);
    let v = match value {
        Err(e) => return Err(e),
        Ok(v) => v,
    };
    match peek_event(events, end, p) {
        Err(e) => Err(e),
        Ok(None) => Ok(v),
        Ok(Some(ev)) => Err(DecodeError::of(DecodeErrorKind::TrailingContent {
            format: label(format),
            found: event_label(&ev.kind),
        }).with_span(ev.span)),
    }
}


// ---------------------------------------------------------------------------
// The parsers
// ---------------------------------------------------------------------------

#[verifier::external_type_specification]
#[verifier::external_body]
pub struct ExParseEvent<'de>(ParseEvent<'de>);

#[verifier::external_type_specification]
#[verifier::external_body]
pub struct ExParseEventKind<'de>(ParseEventKind<'de>);

#[verifier::external_type_specification]
#[verifier::external_body]
pub struct ExScalarValue<'de>(ScalarValue<'de>);

#[verifier::external_type_specification]
#[verifier::external_body]
pub struct ExFieldKey<'de>(FieldKey<'de>);

/// The events the `facet_json` parser yields from a document, in order, and
/// how the stream ends (the document's end, or the parser's failure as its
/// `Debug` rendering). The parser is deterministic in its input.
pub uninterp spec fn json_parse(source: Seq<char>) -> (Seq<SpannedEvent>, StreamEnd);

/// Like `json_parse` for the `facet_toml` parser, or the parser's outright
/// rejection of the document (its `Debug` rendering) when construction fails.
pub uninterp spec fn toml_parse(source: Seq<char>) -> Result<(Seq<SpannedEvent>, StreamEnd), Seq<char>>;

/// `facet_json::JsonParser::new` over the document's bytes, then one
/// `FormatParser::next_events` call with no limit: every event the parser
/// yields up to the end of the document, or up to its failure, with the
/// failure. The claim is that this is a function of the document alone,
/// named `json_parse`; nothing is said of what it is. The parser's source
/// holds `expect`/`unreachable!` sites that are assumed never reached.
#[verifier::external_body]
fn json_events_of(source: &str) -> (r: (Vec<SpannedEvent>, StreamEnd))
    ensures
        (r.0@, r.1) == json_parse(source@),
{
    let mut parser: JsonParser<'_, false> = JsonParser::new(source.as_bytes());
    let mut buf = std::collections::VecDeque::new();
    let end = match parser.next_events(&mut buf, usize::MAX) {
        Ok(_) => StreamEnd::Finished,
        Err(err) => StreamEnd::Failed(format!("{err:?}")),
    };
    (buf.into_iter().map(spanned_event).collect(), end)
}

/// `facet_toml::TomlParser::new` (which parses the whole document up front;
/// its failure is handed back as its `Debug` rendering), then one
/// `FormatParser::next_events` call with no limit, as `json_events_of`. The
/// claim is that the outcome is a function of the document alone, named
/// `toml_parse`; nothing is said of which documents are accepted.
///
/// Every `toml_parser` error carries a span, so the parser's error
/// conversion does not panic, and a document with any error is refused by
/// `new` before events are read.
#[verifier::external_body]
fn toml_events_of(source: &str) -> (r: Result<(Vec<SpannedEvent>, StreamEnd), String>)
    ensures
        match r {
            Ok((events, end)) => toml_parse(source@) == Ok::<(Seq<SpannedEvent>, StreamEnd), Seq<char>>((events@, end)),
            Err(detail) => toml_parse(source@) == Err::<(Seq<SpannedEvent>, StreamEnd), Seq<char>>(detail@),
        },
{
    let mut parser = match TomlParser::new(source) {
        Ok(parser) => parser,
        Err(err) => return Err(format!("{err:?}")),
    };
    let mut buf = std::collections::VecDeque::new();
    let end = match parser.next_events(&mut buf, usize::MAX) {
        Ok(_) => StreamEnd::Finished,
        Err(err) => StreamEnd::Failed(format!("{err:?}")),
    };
    Ok((buf.into_iter().map(spanned_event).collect(), end))
}

/// A `facet_format::ParseEvent` as a plain event: its kind and its span's
/// offset and length, moved over unchanged.
#[verifier::external_body]
fn spanned_event(event: ParseEvent<'_>) -> SpannedEvent {
    SpannedEvent {
        kind: doc_event(event.kind),
        span: DocumentSpan { offset: event.span.offset, len: event.span.len },
    }
}

/// A `facet_format::ParseEventKind` as a plain event kind, variant for variant.
#[verifier::external_body]
fn doc_event(kind: ParseEventKind<'_>) -> DocEvent {
    match kind {
        ParseEventKind::StructStart(_) => DocEvent::StructStart,
        ParseEventKind::StructEnd => DocEvent::StructEnd,
        ParseEventKind::FieldKey(key) => DocEvent::FieldKey(key_text(key)),
        ParseEventKind::OrderedField => DocEvent::OrderedField,
        ParseEventKind::SequenceStart(_) => DocEvent::SequenceStart,
        ParseEventKind::SequenceEnd => DocEvent::SequenceEnd,
        ParseEventKind::Scalar(value) => DocEvent::Scalar(doc_scalar(value)),
        ParseEventKind::VariantTag(_) => DocEvent::VariantTag,
    }
}

/// The name a `facet_format::FieldKey` carries, if it carries one.
#[verifier::external_body]
fn key_text(key: FieldKey<'_>) -> Option<String> {
    match key {
        FieldKey::Name(name) => Some(name.into_owned()),
        FieldKey::Full(full) => match full.name {
            Some(name) => Some(name.into_owned()),
            None => None,
        },
    }
}

/// A `facet_format::ScalarValue` as a plain scalar, variant for variant (the
/// last arm is the floating-point literal).
#[verifier::external_body]
fn doc_scalar(value: ScalarValue<'_>) -> DocScalar {
    match value {
        ScalarValue::Unit => DocScalar::Unit,
        ScalarValue::Null => DocScalar::Null,
        ScalarValue::Bool(b) => DocScalar::Bool(b),
        ScalarValue::Char(_) => DocScalar::Char,
        ScalarValue::I64(i) => DocScalar::I64(i),
        ScalarValue::U64(u) => DocScalar::U64(u),
        ScalarValue::I128(_) => DocScalar::I128,
        ScalarValue::U128(_) => DocScalar::U128,
        ScalarValue::Str(text) => DocScalar::Str(text.into_owned()),
        ScalarValue::Bytes(_) => DocScalar::Bytes,
        _ => DocScalar::Float,
    }
}

/// The events the JSON parser yields from `source`, up to its end or its
/// first failure.
fn json_stream(source: &str) -> (r: (Vec<SpannedEvent>, StreamEnd))
    ensures
        (r.0@, r.1) == json_parse(source@),
{
    json_events_of(source)
}

/// The events the TOML parser yields from `source`, up to its end or its
/// first failure; `Err` with the parser's detail where it rejects the
/// document outright.
fn toml_stream(source: &str) -> (r: Result<(Vec<SpannedEvent>, StreamEnd), String>)
    ensures
        match r {
            Ok((events, end)) => toml_parse(source@) == Ok::<(Seq<SpannedEvent>, StreamEnd), Seq<char>>((events@, end)),
            Err(detail) => toml_parse(source@) == Err::<(Seq<SpannedEvent>, StreamEnd), Seq<char>>(detail@),
        },
{
    toml_events_of(source)
}

/// A TOML document the parser rejects outright.
pub open spec fn toml_setup_failure(detail: Seq<char>) -> ErrorView {
    of_kind(KindView::Parse { detail: "TOML parse error: "@ + detail })
}

/// Decode `source` against `target`, driving one parser to completion.
///
/// The outcome is the decoder's verdict on the events the format's parser
/// yields from `source` (or, for TOML, the parser's outright rejection).
pub fn decode(format: DecodeFormat, source: &str, target: &Type) -> (r: Result<DecodedValue, DecodeError>)
    ensures
        format == DecodeFormat::Json ==> value_result(r)
            == decode_stream(format, json_parse(source@).0, json_parse(source@).1, *target),
        format == DecodeFormat::Toml ==> match toml_parse(source@) {
            Ok((events, end)) => value_result(r) == decode_stream(format, events, end, *target),
            Err(detail) => value_result(r) == Err::<DecodedView, ErrorView>(toml_setup_failure(detail)),
        },
{
    match format {
        DecodeFormat::Json => {
            let (events, end) = json_stream(source);
            decode_events(format, &events, &end, target)
        },
        DecodeFormat::Toml => match toml_stream(source) {
            Ok((events, end)) => decode_events(format, &events, &end, target),
            Err(detail) => {
                let mut d = owned("TOML parse error: ");
                push_str(&mut d, detail.as_str());
                let e = DecodeError::of(DecodeErrorKind::Parse { detail: d });
                assert(value_result(Err(e)) == Err::<DecodedView, ErrorView>(toml_setup_failure(detail@)));
                Err(e)
            },
        },
    }
}

} // verus!
