//! Registered primitives as the language sees them: an identity, and the
//! surface contract a primitive declares for itself (its surface name and how
//! a call's arguments fold into its request record).

use vstd::prelude::*;
use crate::text::owned;
use crate::vir::{ExternKind, RecordField, RecordType, Type};

verus! {

/// The identity of a registered primitive.
#[derive(Clone, Debug, PartialEq, Eq, PartialOrd, Ord, Hash)]
pub struct PrimitiveId(pub String);

impl PrimitiveId {
    /// The same identity.
    pub fn copy(&self) -> (r: PrimitiveId)
        ensures
            r.0@ == self.0@,
    {
        PrimitiveId(owned(self.0.as_str()))
    }
}

/// The identity of the pinned fetch primitive.
pub open spec fn fetch_id() -> Seq<char> {
    "vix.fetch"@
}

/// The identity of the pinned fetch primitive.
pub fn pinned_fetch_primitive_id() -> (id: PrimitiveId)
    ensures
        id.0@ == fetch_id(),
{
    PrimitiveId(owned("vix.fetch"))
}

/// How one surface argument enters a primitive's request.
#[derive(Debug, PartialEq, Eq)]
pub enum ArgRole {
    /// The argument is lowered as a value of the expected type.
    Value { expected: Type },
}

/// How a call of a uniform primitive is built: the roles of its arguments
/// (its arity), the request record they fill, the result type, and the
/// primitive invoked.
#[derive(Debug, PartialEq, Eq)]
pub struct RequestShape {
    pub args: Vec<ArgRole>,
    pub request_ty: Type,
    pub result: Type,
    pub primitive: PrimitiveId,
}

/// A primitive's surface contract: the name it projects and its shape.
#[derive(Debug, PartialEq, Eq)]
pub struct PrimitiveSurface {
    pub surface_name: &'static str,
    pub id: PrimitiveId,
    pub shape: RequestShape,
}

/// The request shape of `fetch`: one pinned-URL value, a `FetchRequest`
/// record holding it, and a blob back.
pub open spec fn is_fetch_shape(s: RequestShape) -> bool {
    &&& s.args@.len() == 1
    &&& s.args@[0] == (ArgRole::Value { expected: Type::Extern(ExternKind::PinnedUrl) })
    &&& s.request_ty matches Type::Record(r) && r.name@ == "FetchRequest"@ && r.fields@.len() == 1
        && r.fields@[0].name@ == "url"@ && r.fields@[0].ty == Type::Extern(ExternKind::PinnedUrl)
    &&& s.result == Type::Extern(ExternKind::Blob)
    &&& s.primitive.0@ == fetch_id()
}

/// The surface of `fetch`.
pub open spec fn is_fetch_surface(s: PrimitiveSurface) -> bool {
    &&& s.surface_name@ == "fetch"@
    &&& s.id.0@ == fetch_id()
    &&& is_fetch_shape(s.shape)
}

/// The surfaces of the primitives bundled with the language: `fetch`.
pub fn builtin_primitive_surfaces() -> (r: Vec<PrimitiveSurface>)
    ensures
        r@.len() == 1,
        is_fetch_surface(r@[0]),
{
    let mut args: Vec<ArgRole> = Vec::new();
    args.push(ArgRole::Value { expected: Type::Extern(ExternKind::PinnedUrl) });
    let mut fields: Vec<RecordField> = Vec::new();
    fields.push(RecordField { name: owned("url"), ty: Type::Extern(ExternKind::PinnedUrl) });
    let shape = RequestShape {
        args,
        request_ty: Type::Record(RecordType::new("FetchRequest", fields)),
        result: Type::Extern(ExternKind::Blob),
        primitive: pinned_fetch_primitive_id(),
    };
    let mut r: Vec<PrimitiveSurface> = Vec::new();
    r.push(PrimitiveSurface { surface_name: "fetch", id: pinned_fetch_primitive_id(), shape });
    r
}

} // verus!
