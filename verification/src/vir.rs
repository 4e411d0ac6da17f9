//! The slice of the Vix IR type language that the library's verified parts
//! consume: value types, nominal records and enums, and host externs.

use vstd::prelude::*;
use crate::text::{owned, push_str};
use crate::runtime::PrimitiveId;

verus! {

/// An opaque extern type.
#[derive(Debug, Clone, Copy, PartialEq, Eq)]
pub enum ExternKind {
    Blob,
    Registry,
    Schema,
    PinnedUrl,
    /// A host type declared by the embedder, by its nominal name.
    Host(&'static str),
}

/// A Vix value type.
#[derive(Debug, PartialEq, Eq)]
pub enum Type {
    Int,
    Bool,
    String,
    Path,
    Check,
    StreamCheck,
    Array(Box<Type>),
    SetOf(Box<Type>),
    MapOf { key: Box<Type>, value: Box<Type> },
    Stream { key: Box<Type>, value: Box<Type> },
    Order(Box<Type>),
    Tuple(Vec<Type>),
    Function { parameter: Box<Type>, result: Box<Type> },
    Record(RecordType),
    Enum(EnumType),
    Extern(ExternKind),
}

/// A nominal record: its name and fields in declaration order.
#[derive(Debug, PartialEq, Eq)]
pub struct RecordType {
    pub name: String,
    pub fields: Vec<RecordField>,
}

/// One record field.
#[derive(Debug, PartialEq, Eq)]
pub struct RecordField {
    pub name: String,
    pub ty: Type,
}

/// A nominal enum: its name and variants in declaration order.
#[derive(Debug, PartialEq, Eq)]
pub struct EnumType {
    pub name: String,
    pub variants: Vec<EnumVariant>,
}

/// One enum variant.
#[derive(Debug, PartialEq, Eq)]
pub struct EnumVariant {
    pub name: String,
    pub payload: VariantPayload,
}

/// A variant's payload shape.
#[derive(Debug, PartialEq, Eq)]
pub enum VariantPayload {
    Unit,
    Tuple(Vec<Type>),
    Record(Vec<RecordField>),
}

/// The index of a node in a lowered program.
#[derive(Debug, Clone, Copy, PartialEq, Eq, Hash)]
pub struct NodeId(pub u32);

/// One piece of a command argument: literal text, or the rendered value of
/// the `index`-th interpolation input (counted from 1).
#[derive(Debug, Clone, PartialEq, Eq)]
pub enum CommandPiece {
    Literal(String),
    Input { index: u32 },
}

/// One argv element of a command template, as the pieces that render it.
#[derive(Debug, Clone, PartialEq, Eq)]
pub struct CommandArgument {
    pub pieces: Vec<CommandPiece>,
}

/// The document format of a typed decode.
#[derive(Debug, Clone, Copy, PartialEq, Eq)]
pub enum DecodeFormat {
    Json,
    Toml,
}

/// `e` is the option enum (`None` then `Some(T)`), with payload `T`.
pub open spec fn enum_option_payload(e: EnumType) -> Option<Type> {
    if e.variants@.len() == 2
        && e.variants@[0].name@ == "None"@
        && e.variants@[0].payload is Unit
        && e.variants@[1].name@ == "Some"@
        && e.variants@[1].payload is Tuple
        && e.variants@[1].payload->Tuple_0@.len() == 1 {
        Some(e.variants@[1].payload->Tuple_0@[0])
    } else {
        None
    }
}

/// `ty` is an option type, with payload `T`.
pub open spec fn option_payload(ty: Type) -> Option<Type> {
    match ty {
        Type::Enum(e) => enum_option_payload(e),
        _ => None,
    }
}

/// `e` is the result enum (`Ok(T)` then `Err(E)`), with payloads `T` and `E`.
pub open spec fn enum_result_payload(e: EnumType) -> Option<(Type, Type)> {
    if e.variants@.len() == 2
        && e.variants@[0].name@ == "Ok"@
        && e.variants@[0].payload is Tuple
        && e.variants@[0].payload->Tuple_0@.len() == 1
        && e.variants@[1].name@ == "Err"@
        && e.variants@[1].payload is Tuple
        && e.variants@[1].payload->Tuple_0@.len() == 1 {
        Some((e.variants@[0].payload->Tuple_0@[0], e.variants@[1].payload->Tuple_0@[0]))
    } else {
        None
    }
}

/// `ty` is a result type, with payloads `T` and `E`.
pub open spec fn result_payload(ty: Type) -> Option<(Type, Type)> {
    match ty {
        Type::Enum(e) => enum_result_payload(e),
        _ => None,
    }
}

impl RecordType {
    /// A record type.
    pub fn new(name: &str, fields: Vec<RecordField>) -> (r: Self)
        ensures
            r.name@ == name@,
            r.fields@ == fields@,
    {
        RecordType { name: owned(name), fields }
    }
}

impl EnumType {
    /// The payload of the option enum.
    pub fn option_inner(&self) -> (r: Option<&Type>)
        ensures
            match r {
                Some(t) => enum_option_payload(*self) == Some(*t),
                None => enum_option_payload(*self).is_none(),
            },
    {
        if self.variants.len() != 2 {
            return None;
        }
        if !crate::text::str_eq(self.variants[0].name.as_str(), "None")
            || !crate::text::str_eq(self.variants[1].name.as_str(), "Some") {
            return None;
        }
        match (&self.variants[0].payload, &self.variants[1].payload) {
            (VariantPayload::Unit, VariantPayload::Tuple(items)) => {
                if items.len() == 1 {
                    Some(&items[0])
                } else {
                    None
                }
            }
            _ => None,
        }
    }

    /// The payloads of the result enum.
    pub fn result_inner(&self) -> (r: Option<(&Type, &Type)>)
        ensures
            match r {
                Some((ok, err)) => enum_result_payload(*self) == Some((*ok, *err)),
                None => enum_result_payload(*self).is_none(),
            },
    {
        if self.variants.len() != 2 {
            return None;
        }
        if !crate::text::str_eq(self.variants[0].name.as_str(), "Ok")
            || !crate::text::str_eq(self.variants[1].name.as_str(), "Err") {
            return None;
        }
        match (&self.variants[0].payload, &self.variants[1].payload) {
            (VariantPayload::Tuple(oks), VariantPayload::Tuple(errs)) => {
                if oks.len() == 1 && errs.len() == 1 {
                    Some((&oks[0], &errs[0]))
                } else {
                    None
                }
            }
            _ => None,
        }
    }

    /// An enum type.
    pub fn new(name: &str, variants: Vec<EnumVariant>) -> (r: Self)
        ensures
            r.name@ == name@,
            r.variants@ == variants@,
    {
        EnumType { name: owned(name), variants }
    }
}

impl Type {
    /// `Option<T>`: variants `None` and `Some(T)`.
    pub fn option(inner: Type) -> (t: Type)
        ensures
            option_payload(t) == Some(inner),
    {
        let mut some_payload: Vec<Type> = Vec::new();
        some_payload.push(inner);
        let mut name = owned("Option<");
        let inner_name = some_payload[0].name();
        push_str(&mut name, inner_name.as_str());
        push_str(&mut name, ">");
        let mut variants: Vec<EnumVariant> = Vec::new();
        variants.push(EnumVariant { name: owned("None"), payload: VariantPayload::Unit });
        variants.push(EnumVariant { name: owned("Some"), payload: VariantPayload::Tuple(some_payload) });
        Type::Enum(EnumType { name, variants })
    }

    /// A map type.
    pub fn map(key: Type, value: Type) -> (t: Type)
        ensures
            t == (Type::MapOf { key: Box::new(key), value: Box::new(value) }),
    {
        Type::MapOf { key: Box::new(key), value: Box::new(value) }
    }

    /// The payload of an option type.
    pub fn option_inner(&self) -> (r: Option<&Type>)
        ensures
            match r {
                Some(t) => option_payload(*self) == Some(*t),
                None => option_payload(*self).is_none(),
            },
    {
        match self {
            Type::Enum(e) => e.option_inner(),
            _ => None,
        }
    }

    /// The payloads of a result type.
    pub fn result_inner(&self) -> (r: Option<(&Type, &Type)>)
        ensures
            match r {
                Some((ok, err)) => result_payload(*self) == Some((*ok, *err)),
                None => result_payload(*self).is_none(),
            },
    {
        match self {
            Type::Enum(e) => e.result_inner(),
            _ => None,
        }
    }

    /// A human-readable spelling of the type.
    pub fn name(&self) -> (s: String)
        ensures
            s@ == spelling(*self),
        decreases *self,
    {
        match self {
            Type::Int => owned("Int"),
            Type::Bool => owned("Bool"),
            Type::String => owned("String"),
            Type::Path => owned("Path"),
            Type::Check => owned("Check"),
            Type::StreamCheck => owned("Stream<Check>"),
            Type::Array(t) => {
                let mut s = owned("[");
                push_str(&mut s, t.name().as_str());
                push_str(&mut s, "]");
                s
            }
            Type::SetOf(t) => {
                let mut s = owned("Set<");
                push_str(&mut s, t.name().as_str());
                push_str(&mut s, ">");
                s
            }
            Type::MapOf { key, value } => {
                let mut s = owned("Map<");
                push_str(&mut s, key.name().as_str());
                push_str(&mut s, ", ");
                push_str(&mut s, value.name().as_str());
                push_str(&mut s, ">");
                s
            }
            Type::Stream { key, value } => {
                let mut s = owned("Stream<");
                push_str(&mut s, key.name().as_str());
                push_str(&mut s, ", ");
                push_str(&mut s, value.name().as_str());
                push_str(&mut s, ">");
                s
            }
            Type::Order(t) => {
                let mut s = owned("Order<");
                push_str(&mut s, t.name().as_str());
                push_str(&mut s, ">");
                s
            }
            Type::Tuple(items) => {
                let mut s = owned("(");
                let mut i: usize = 0;
                while i < items.len()
                    invariant
                        i <= items@.len(),
                        s@ == "("@ + tuple_names(items@.take(i as int)),
                        forall|j: int| 0 <= j < items@.len() ==> decreases_to!(*self => #[trigger] items@[j]),
                    decreases items@.len() - i,
                {
                    if i > 0 {
                        push_str(&mut s, ", ");
                    }
                    proof { assert(decreases_to!(*self => items@[i as int])); }
                    let n = items[i].name();
                    push_str(&mut s, n.as_str());
                    proof {
                        let t = items@.take(i as int + 1);
                        assert(t.drop_last() == items@.take(i as int));
                        assert(t.last() == items@[i as int]);
                    }
                    i = i + 1;
                }
                assert(items@.take(items@.len() as int) == items@);
                push_str(&mut s, ")");
                s
            }
            Type::Function { parameter, result } => {
                let mut s = owned("fn(");
                push_str(&mut s, parameter.name().as_str());
                push_str(&mut s, ") -> ");
                push_str(&mut s, result.name().as_str());
                s
            }
            Type::Record(r) => owned(r.name.as_str()),
            Type::Enum(e) => owned(e.name.as_str()),
            Type::Extern(kind) => match kind {
                ExternKind::Blob => owned("Blob"),
                ExternKind::Registry => owned("Registry"),
                ExternKind::Schema => owned("Schema"),
                ExternKind::PinnedUrl => owned("PinnedUrl"),
                ExternKind::Host(name) => owned(name),
            },
        }
    }
}

/// Two extern kinds are the same kind; host types are compared by name.
pub open spec fn extern_eq(a: ExternKind, b: ExternKind) -> bool {
    match a {
        ExternKind::Host(x) => b matches ExternKind::Host(y) && x@ == y@,
        _ => a == b,
    }
}

/// Two types are the same type: the same shape, with names compared by
/// their text.
pub open spec fn type_eq(a: Type, b: Type) -> bool
    decreases a, 1int,
{
    match a {
        Type::Int => b is Int,
        Type::Bool => b is Bool,
        Type::String => b is String,
        Type::Path => b is Path,
        Type::Check => b is Check,
        Type::StreamCheck => b is StreamCheck,
        Type::Array(x) => b is Array && type_eq(*x, *b->Array_0),
        Type::SetOf(x) => b is SetOf && type_eq(*x, *b->SetOf_0),
        Type::MapOf { key, value } => b is MapOf && type_eq(*key, *b->MapOf_key) && type_eq(*value, *b->MapOf_value),
        Type::Stream { key, value } =>
            b is Stream && type_eq(*key, *b->Stream_key) && type_eq(*value, *b->Stream_value),
        Type::Order(x) => b is Order && type_eq(*x, *b->Order_0),
        Type::Tuple(xs) => b is Tuple && types_eq(xs@, b->Tuple_0@),
        Type::Function { parameter, result } =>
            b is Function && type_eq(*parameter, *b->Function_parameter) && type_eq(*result, *b->Function_result),
        Type::Record(r) => b is Record && r.name@ == b->Record_0.name@ && fields_eq(r.fields@, b->Record_0.fields@),
        Type::Enum(e) => b is Enum && e.name@ == b->Enum_0.name@ && variants_eq(e.variants@, b->Enum_0.variants@),
        Type::Extern(k) => b is Extern && extern_eq(k, b->Extern_0),
    }
}

/// Two lists of types are the same, position by position.
pub open spec fn types_eq(xs: Seq<Type>, ys: Seq<Type>) -> bool
    decreases xs, 0int,
{
    xs.len() == ys.len() && forall|i: int| 0 <= i < xs.len() ==> type_eq(#[trigger] xs[i], ys[i])
}

/// Two field lists are the same: the same names and types, in order.
pub open spec fn fields_eq(fs: Seq<RecordField>, gs: Seq<RecordField>) -> bool
    decreases fs, 0int,
{
    fs.len() == gs.len() && forall|i: int| 0 <= i < fs.len() ==>
        (#[trigger] fs[i]).name@ == gs[i].name@ && type_eq(fs[i].ty, gs[i].ty)
}

/// Two variant lists are the same: the same names and payloads, in order.
pub open spec fn variants_eq(vs: Seq<EnumVariant>, ws: Seq<EnumVariant>) -> bool
    decreases vs, 0int,
{
    vs.len() == ws.len() && forall|i: int| 0 <= i < vs.len() ==>
        (#[trigger] vs[i]).name@ == ws[i].name@ && payload_eq(vs[i].payload, ws[i].payload)
}

/// Two variant payloads are the same.
pub open spec fn payload_eq(p: VariantPayload, q: VariantPayload) -> bool
    decreases p, 1int,
{
    match p {
        VariantPayload::Unit => q is Unit,
        VariantPayload::Tuple(ts) => q is Tuple && types_eq(ts@, q->Tuple_0@),
        VariantPayload::Record(fs) => q is Record && fields_eq(fs@, q->Record_0@),
    }
}

impl Type {
    /// Whether `self` and `other` are the same type.
    pub fn same(&self, other: &Type) -> (r: bool)
        ensures
            r == type_eq(*self, *other),
        decreases *self, 1int,
    {
        match self {
            Type::Int => matches!(other, Type::Int),
            Type::Bool => matches!(other, Type::Bool),
            Type::String => matches!(other, Type::String),
            Type::Path => matches!(other, Type::Path),
            Type::Check => matches!(other, Type::Check),
            Type::StreamCheck => matches!(other, Type::StreamCheck),
            Type::Array(x) => match other {
                Type::Array(y) => x.same(y),
                _ => false,
            },
            Type::SetOf(x) => match other {
                Type::SetOf(y) => x.same(y),
                _ => false,
            },
            Type::MapOf { key, value } => match other {
                Type::MapOf { key: k, value: v } => key.same(k) && value.same(v),
                _ => false,
            },
            Type::Stream { key, value } => match other {
                Type::Stream { key: k, value: v } => key.same(k) && value.same(v),
                _ => false,
            },
            Type::Order(x) => match other {
                Type::Order(y) => x.same(y),
                _ => false,
            },
            Type::Tuple(xs) => match other {
                Type::Tuple(ys) => {
                    proof { assert(decreases_to!(*self => xs@)); }
                    same_types(xs, ys)
                },
                _ => false,
            },
            Type::Function { parameter, result } => match other {
                Type::Function { parameter: p, result: q } => parameter.same(p) && result.same(q),
                _ => false,
            },
            Type::Record(r) => match other {
                Type::Record(q) => {
                    proof { assert(decreases_to!(*self => r.fields@)); }
                    crate::text::str_eq(r.name.as_str(), q.name.as_str()) && same_fields(&r.fields, &q.fields)
                },
                _ => false,
            },
            Type::Enum(e) => match other {
                Type::Enum(f) => {
                    proof { assert(decreases_to!(*self => e.variants@)); }
                    crate::text::str_eq(e.name.as_str(), f.name.as_str()) && same_variants(&e.variants, &f.variants)
                },
                _ => false,
            },
            Type::Extern(k) => match other {
                Type::Extern(j) => match (k, j) {
                    (ExternKind::Host(x), ExternKind::Host(y)) => crate::text::str_eq(x, y),
                    (ExternKind::Blob, ExternKind::Blob) => true,
                    (ExternKind::Registry, ExternKind::Registry) => true,
                    (ExternKind::Schema, ExternKind::Schema) => true,
                    (ExternKind::PinnedUrl, ExternKind::PinnedUrl) => true,
                    _ => false,
                },
                _ => false,
            },
        }
    }
}

/// Whether two lists of types are the same.
fn same_types(xs: &Vec<Type>, ys: &Vec<Type>) -> (r: bool)
    ensures
        r == types_eq(xs@, ys@),
    decreases xs@, 0int,
{
    if xs.len() != ys.len() {
        return false;
    }
    let mut i: usize = 0;
    while i < xs.len()
        invariant
            i <= xs@.len(),
            xs@.len() == ys@.len(),
            forall|j: int| 0 <= j < i ==> type_eq(#[trigger] xs@[j], ys@[j]),
        decreases xs@.len() - i,
    {
        proof { assert(decreases_to!(xs@ => xs@[i as int])); }
        if !xs[i].same(&ys[i]) {
            return false;
        }
        i = i + 1;
    }
    true
}

/// Whether two field lists are the same.
fn same_fields(fs: &Vec<RecordField>, gs: &Vec<RecordField>) -> (r: bool)
    ensures
        r == fields_eq(fs@, gs@),
    decreases fs@, 0int,
{
    if fs.len() != gs.len() {
        return false;
    }
    let mut i: usize = 0;
    while i < fs.len()
        invariant
            i <= fs@.len(),
            fs@.len() == gs@.len(),
            forall|j: int| 0 <= j < i ==> (#[trigger] fs@[j]).name@ == gs@[j].name@ && type_eq(fs@[j].ty, gs@[j].ty),
        decreases fs@.len() - i,
    {
        proof { assert(decreases_to!(fs@ => fs@[i as int].ty)); }
        if !crate::text::str_eq(fs[i].name.as_str(), gs[i].name.as_str()) || !fs[i].ty.same(&gs[i].ty) {
            return false;
        }
        i = i + 1;
    }
    true
}

/// Whether two variant lists are the same.
fn same_variants(vs: &Vec<EnumVariant>, ws: &Vec<EnumVariant>) -> (r: bool)
    ensures
        r == variants_eq(vs@, ws@),
    decreases vs@, 0int,
{
    if vs.len() != ws.len() {
        return false;
    }
    let mut i: usize = 0;
    while i < vs.len()
        invariant
            i <= vs@.len(),
            vs@.len() == ws@.len(),
            forall|j: int| 0 <= j < i ==> (#[trigger] vs@[j]).name@ == ws@[j].name@ && payload_eq(vs@[j].payload, ws@[j].payload),
        decreases vs@.len() - i,
    {
        proof { assert(decreases_to!(vs@ => vs@[i as int].payload)); }
        if !crate::text::str_eq(vs[i].name.as_str(), ws[i].name.as_str()) || !same_payload(&vs[i].payload, &ws[i].payload) {
            return false;
        }
        i = i + 1;
    }
    true
}

/// Whether two variant payloads are the same.
fn same_payload(p: &VariantPayload, q: &VariantPayload) -> (r: bool)
    ensures
        r == payload_eq(*p, *q),
    decreases *p, 1int,
{
    match p {
        VariantPayload::Unit => matches!(q, VariantPayload::Unit),
        VariantPayload::Tuple(ts) => match q {
            VariantPayload::Tuple(us) => {
                proof { assert(decreases_to!(*p => ts@)); }
                same_types(ts, us)
            },
            _ => false,
        },
        VariantPayload::Record(fs) => match q {
            VariantPayload::Record(gs) => {
                proof { assert(decreases_to!(*p => fs@)); }
                same_fields(fs, gs)
            },
            _ => false,
        },
    }
}

impl Type {
    /// A copy of the type: the same type.
    pub fn copy(&self) -> (r: Type)
        ensures
            type_eq(r, *self),
        decreases *self, 1int,
    {
        match self {
            Type::Int => Type::Int,
            Type::Bool => Type::Bool,
            Type::String => Type::String,
            Type::Path => Type::Path,
            Type::Check => Type::Check,
            Type::StreamCheck => Type::StreamCheck,
            Type::Array(x) => Type::Array(Box::new(x.copy())),
            Type::SetOf(x) => Type::SetOf(Box::new(x.copy())),
            Type::MapOf { key, value } => Type::MapOf { key: Box::new(key.copy()), value: Box::new(value.copy()) },
            Type::Stream { key, value } => Type::Stream { key: Box::new(key.copy()), value: Box::new(value.copy()) },
            Type::Order(x) => Type::Order(Box::new(x.copy())),
            Type::Tuple(xs) => {
                proof { assert(decreases_to!(*self => xs@)); }
                Type::Tuple(copy_types(xs))
            },
            Type::Function { parameter, result } =>
                Type::Function { parameter: Box::new(parameter.copy()), result: Box::new(result.copy()) },
            Type::Record(r) => {
                proof { assert(decreases_to!(*self => r.fields@)); }
                Type::Record(RecordType { name: r.name.clone(), fields: copy_fields(&r.fields) })
            },
            Type::Enum(e) => {
                proof { assert(decreases_to!(*self => e.variants@)); }
                Type::Enum(EnumType { name: e.name.clone(), variants: copy_variants(&e.variants) })
            },
            Type::Extern(k) => Type::Extern(*k),
        }
    }
}

/// Copies of a list of types.
fn copy_types(xs: &Vec<Type>) -> (r: Vec<Type>)
    ensures
        types_eq(r@, xs@),
    decreases xs@, 0int,
{
    let mut r: Vec<Type> = Vec::new();
    let mut i: usize = 0;
    while i < xs.len()
        invariant
            i <= xs@.len(),
            r@.len() == i,
            forall|j: int| 0 <= j < i ==> type_eq(#[trigger] r@[j], xs@[j]),
        decreases xs@.len() - i,
    {
        proof { assert(decreases_to!(xs@ => xs@[i as int])); }
        r.push(xs[i].copy());
        i = i + 1;
    }
    r
}

/// Copies of a list of fields.
fn copy_fields(fs: &Vec<RecordField>) -> (r: Vec<RecordField>)
    ensures
        fields_eq(r@, fs@),
    decreases fs@, 0int,
{
    let mut r: Vec<RecordField> = Vec::new();
    let mut i: usize = 0;
    while i < fs.len()
        invariant
            i <= fs@.len(),
            r@.len() == i,
            forall|j: int| 0 <= j < i ==> (#[trigger] r@[j]).name@ == fs@[j].name@ && type_eq(r@[j].ty, fs@[j].ty),
        decreases fs@.len() - i,
    {
        proof { assert(decreases_to!(fs@ => fs@[i as int].ty)); }
        r.push(RecordField { name: fs[i].name.clone(), ty: fs[i].ty.copy() });
        i = i + 1;
    }
    r
}

/// Copies of a list of variants.
fn copy_variants(vs: &Vec<EnumVariant>) -> (r: Vec<EnumVariant>)
    ensures
        variants_eq(r@, vs@),
    decreases vs@, 0int,
{
    let mut r: Vec<EnumVariant> = Vec::new();
    let mut i: usize = 0;
    while i < vs.len()
        invariant
            i <= vs@.len(),
            r@.len() == i,
            forall|j: int| 0 <= j < i ==> (#[trigger] r@[j]).name@ == vs@[j].name@ && payload_eq(r@[j].payload, vs@[j].payload),
        decreases vs@.len() - i,
    {
        proof { assert(decreases_to!(vs@ => vs@[i as int].payload)); }
        r.push(EnumVariant { name: vs[i].name.clone(), payload: copy_payload(&vs[i].payload) });
        i = i + 1;
    }
    r
}

/// A copy of a variant payload.
fn copy_payload(p: &VariantPayload) -> (r: VariantPayload)
    ensures
        payload_eq(r, *p),
    decreases *p, 1int,
{
    match p {
        VariantPayload::Unit => VariantPayload::Unit,
        VariantPayload::Tuple(ts) => {
            proof { assert(decreases_to!(*p => ts@)); }
            VariantPayload::Tuple(copy_types(ts))
        },
        VariantPayload::Record(fs) => {
            proof { assert(decreases_to!(*p => fs@)); }
            VariantPayload::Record(copy_fields(fs))
        },
    }
}

/// The spellings of tuple elements, joined by `, `.
pub open spec fn tuple_names(items: Seq<Type>) -> Seq<char>
    decreases items,
{
    if items.len() == 0 {
        seq![]
    } else if items.len() == 1 {
        spelling(items[0])
    } else {
        tuple_names(items.drop_last()) + ", "@ + spelling(items.last())
    }
}

/// The spelling of a type.
pub open spec fn spelling(ty: Type) -> Seq<char>
    decreases ty,
{
    match ty {
        Type::Int => "Int"@,
        Type::Bool => "Bool"@,
        Type::String => "String"@,
        Type::Path => "Path"@,
        Type::Check => "Check"@,
        Type::StreamCheck => "Stream<Check>"@,
        Type::Array(t) => "["@ + spelling(*t) + "]"@,
        Type::SetOf(t) => "Set<"@ + spelling(*t) + ">"@,
        Type::MapOf { key, value } => "Map<"@ + spelling(*key) + ", "@ + spelling(*value) + ">"@,
        Type::Stream { key, value } => "Stream<"@ + spelling(*key) + ", "@ + spelling(*value) + ">"@,
        Type::Order(t) => "Order<"@ + spelling(*t) + ">"@,
        Type::Tuple(items) => "("@ + tuple_names(items@) + ")"@,
        Type::Function { parameter, result } => "fn("@ + spelling(*parameter) + ") -> "@ + spelling(*result),
        Type::Record(r) => r.name@,
        Type::Enum(e) => e.name@,
        Type::Extern(kind) => match kind {
            ExternKind::Blob => "Blob"@,
            ExternKind::Registry => "Registry"@,
            ExternKind::Schema => "Schema"@,
            ExternKind::PinnedUrl => "PinnedUrl"@,
            ExternKind::Host(name) => name@,
        },
    }
}


/// The identity of the decode primitive, which `decode` and `try_decode` share.
pub open spec fn decode_id() -> Seq<char> {
    "vix.decode"@
}

/// The identity of the decode primitive.
pub fn decode_primitive_id() -> (id: PrimitiveId)
    ensures
        id.0@ == decode_id(),
{
    PrimitiveId(owned("vix.decode"))
}

} // verus!
