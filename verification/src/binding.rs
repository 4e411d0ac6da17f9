//! Surface bindings: the projection from registered primitives (and vix-source
//! functions) onto vix-language names and their placement in name resolution.
//!
//! One primitive projects one binding name. Behavioural modes are request
//! fields the primitive reads, never extra primitives; ergonomic aliases are
//! vix functions over the single primitive. A name lives in the prelude (in
//! scope everywhere) or under a `::`-path module; receiver methods share the
//! registry and are looked up by receiver type and name.

use vstd::prelude::*;
use crate::runtime::{builtin_primitive_surfaces, is_fetch_shape, fetch_id, PrimitiveId, PrimitiveSurface, RequestShape};
use crate::text::{chars_of, chars_eq, owned, str_eq, string_of, strs_view, join_strings, rsplit_colons,
    rsplit_colons_exec, split_colons, split_colons_exec};
use crate::vir::{decode_id, decode_primitive_id, ExternKind, Type};

verus! {

// ---------------------------------------------------------------------------
// Module paths and placements
// ---------------------------------------------------------------------------

/// A non-empty `::`-separated module path (`caps`, `some::ns::inner`). Its
/// segments are never empty, so a placement can never name "nowhere".
#[derive(Debug, PartialEq, Eq)]
pub struct ModulePath(Vec<String>);

/// A list of path segments that a module path accepts: at least one, none
/// empty.
pub open spec fn valid_segments(s: Seq<Seq<char>>) -> bool {
    s.len() > 0 && forall|i: int| 0 <= i < s.len() ==> #[trigger] s[i].len() > 0
}

impl View for ModulePath {
    type V = Seq<Seq<char>>;

    closed spec fn view(&self) -> Seq<Seq<char>> {
        strs_view(self.0@)
    }
}

impl ModulePath {
    #[verifier::type_invariant]
    spec fn wf(self) -> bool {
        valid_segments(strs_view(self.0@))
    }

    /// A module path from owned segments, or `None` if there are none or one
    /// is empty.
    fn from_parts(parts: Vec<String>) -> (r: Option<ModulePath>)
        ensures
            match r {
                Some(p) => valid_segments(strs_view(parts@)) && p@ == strs_view(parts@),
                None => !valid_segments(strs_view(parts@)),
            },
    {
        if parts.len() == 0 {
            return None;
        }
        let mut i: usize = 0;
        while i < parts.len()
            invariant
                i <= parts@.len(),
                forall|k: int| 0 <= k < i ==> (#[trigger] strs_view(parts@)[k]).len() > 0,
            decreases parts@.len() - i,
        {
            if chars_of(parts[i].as_str()).len() == 0 {
                assert(strs_view(parts@)[i as int].len() == 0);
                return None;
            }
            i = i + 1;
        }
        Some(ModulePath(parts))
    }

    /// Build a module path from its segments, or `None` if the path is empty
    /// or any segment is empty.
    pub fn new(segments: &[&str]) -> (r: Option<ModulePath>)
        ensures
            match r {
                Some(p) => valid_segments(segments@.map_values(|s: &str| s@))
                    && p@ == segments@.map_values(|s: &str| s@),
                None => !valid_segments(segments@.map_values(|s: &str| s@)),
            },
    {
        let mut parts: Vec<String> = Vec::new();
        let mut i: usize = 0;
        while i < segments.len()
            invariant
                i <= segments@.len(),
                strs_view(parts@) == segments@.take(i as int).map_values(|s: &str| s@),
            decreases segments@.len() - i,
        {
            let ghost before = parts@;
            parts.push(owned(segments[i]));
            assert(strs_view(parts@) =~= strs_view(before).push(segments@[i as int]@));
            assert(segments@.take(i as int + 1) == segments@.take(i as int).push(segments@[i as int]));
            assert(strs_view(parts@) =~= segments@.take(i as int + 1).map_values(|s: &str| s@));
            i = i + 1;
        }
        assert(segments@.take(segments@.len() as int) == segments@);
        ModulePath::from_parts(parts)
    }

    /// A module path from `::`-separated text, or `None` if a segment is empty.
    fn parse(text: &[char]) -> (r: Option<ModulePath>)
        ensures
            match r {
                Some(p) => valid_segments(split_colons(text@)) && p@ == split_colons(text@),
                None => !valid_segments(split_colons(text@)),
            },
    {
        let pieces = split_colons_exec(text);
        let mut parts: Vec<String> = Vec::new();
        let mut i: usize = 0;
        while i < pieces.len()
            invariant
                i <= pieces@.len(),
                strs_view(parts@) == pieces@.take(i as int).map_values(|v: Vec<char>| v@),
            decreases pieces@.len() - i,
        {
            let ghost before = parts@;
            parts.push(string_of(pieces[i].as_slice()));
            assert(strs_view(parts@) =~= strs_view(before).push(pieces@[i as int]@));
            assert(pieces@.take(i as int + 1) == pieces@.take(i as int).push(pieces@[i as int]));
            assert(strs_view(parts@) =~= pieces@.take(i as int + 1).map_values(|v: Vec<char>| v@));
            i = i + 1;
        }
        assert(pieces@.take(pieces@.len() as int) == pieces@);
        ModulePath::from_parts(parts)
    }

    /// A one-segment module path, or `None` if the segment is empty.
    fn single(segment: &str) -> (r: Option<ModulePath>)
        ensures
            match r {
                Some(p) => segment@.len() > 0 && p@ == seq![segment@],
                None => segment@.len() == 0,
            },
    {
        let mut parts: Vec<String> = Vec::new();
        parts.push(owned(segment));
        assert(strs_view(parts@) =~= seq![segment@]);
        assert(valid_segments(seq![segment@]) <==> segment@.len() > 0) by {
            if segment@.len() > 0 {
                assert forall|i: int| 0 <= i < 1 implies #[trigger] seq![segment@][i].len() > 0 by {
                    assert(seq![segment@][i] == segment@);
                }
            }
            if valid_segments(seq![segment@]) {
                assert(seq![segment@][0].len() > 0);
            }
        }
        ModulePath::from_parts(parts)
    }

    /// The `std` module path.
    fn std_path() -> (p: ModulePath)
        ensures
            p@ == seq!["std"@],
    {
        proof { reveal_strlit("std"); }
        let mut parts: Vec<String> = Vec::new();
        parts.push(owned("std"));
        assert(strs_view(parts@) =~= seq!["std"@]);
        ModulePath(parts)
    }

    /// The segments, outer to inner: at least one, none empty.
    pub fn segments(&self) -> (s: &[String])
        ensures
            strs_view(s@) == self@,
            valid_segments(self@),
    {
        proof { use_type_invariant(self); }
        self.0.as_slice()
    }

    /// The path rendered `::`-joined, for diagnostics.
    pub fn display(&self) -> (s: String)
        ensures
            s@ == crate::text::join(self@, "::"@),
    {
        join_strings(&self.0, "::")
    }

    /// The same path.
    pub fn copy(&self) -> (p: ModulePath)
        ensures
            p@ == self@,
    {
        proof { use_type_invariant(self); }
        let mut parts: Vec<String> = Vec::new();
        let mut i: usize = 0;
        while i < self.0.len()
            invariant
                i <= self.0@.len(),
                strs_view(parts@) == strs_view(self.0@).take(i as int),
            decreases self.0@.len() - i,
        {
            let ghost before = parts@;
            parts.push(owned(self.0[i].as_str()));
            assert(strs_view(parts@) =~= strs_view(before).push(self.0@[i as int]@));
            assert(strs_view(parts@) =~= strs_view(self.0@).take(i as int + 1));
            i = i + 1;
        }
        assert(strs_view(self.0@).take(self.0@.len() as int) =~= strs_view(self.0@));
        ModulePath(parts)
    }

    /// Same segments.
    fn same(&self, other: &ModulePath) -> (r: bool)
        ensures
            r == (self@ == other@),
    {
        if self.0.len() != other.0.len() {
            assert(self@.len() != other@.len());
            return false;
        }
        let mut i: usize = 0;
        while i < self.0.len()
            invariant
                i <= self.0@.len(),
                self.0@.len() == other.0@.len(),
                forall|k: int| 0 <= k < i ==> #[trigger] self@[k] == other@[k],
            decreases self.0@.len() - i,
        {
            if !str_eq(self.0[i].as_str(), other.0[i].as_str()) {
                assert(self@[i as int] != other@[i as int]);
                return false;
            }
            i = i + 1;
        }
        assert(self@ =~= other@);
        true
    }
}

impl Clone for ModulePath {
    /// The same path.
    fn clone(&self) -> (p: Self)
        ensures
            p@ == self@,
    {
        self.copy()
    }
}

/// Where a bound name lives in vix name resolution.
#[derive(Clone, Debug, PartialEq, Eq)]
pub enum Placement {
    /// Injected into every module's scope; callable with no `use`.
    Prelude,
    /// Reached through a qualified path or `use module::name`.
    Module(ModulePath),
}

/// The value of a placement.
pub enum PlacementView {
    Prelude,
    Module(Seq<Seq<char>>),
}

impl View for Placement {
    type V = PlacementView;

    open spec fn view(&self) -> PlacementView {
        match self {
            Placement::Prelude => PlacementView::Prelude,
            Placement::Module(p) => PlacementView::Module(p@),
        }
    }
}

impl Placement {
    /// The same placement.
    fn copy(&self) -> (p: Placement)
        ensures
            p@ == self@,
    {
        match self {
            Placement::Prelude => Placement::Prelude,
            Placement::Module(m) => Placement::Module(m.copy()),
        }
    }
}

// ---------------------------------------------------------------------------
// Binding targets
// ---------------------------------------------------------------------------

/// Which dedicated VIR op an intrinsic call lowers to. These are not
/// primitives: they never cross an authority boundary.
#[derive(Clone, Copy, Debug, PartialEq, Eq, Structural)]
pub enum Intrinsic {
    /// `fixture_tree(name)`: a named fixture tree.
    FixtureTree,
    /// `fixture_registry()`: the fixture registry.
    FixtureRegistry,
}

/// The vix type a method dispatches on: the kind of its receiver.
#[derive(Clone, Copy, Debug, PartialEq, Eq)]
pub enum ReceiverType {
    Array,
    String,
    MapOf,
    SetOf,
    Stream,
    Int,
    Path,
    Blob,
    Registry,
    /// A declared host type, dispatched by its name.
    Host(&'static str),
}

/// The value of a receiver type.
pub enum ReceiverView {
    Array,
    String,
    MapOf,
    SetOf,
    Stream,
    Int,
    Path,
    Blob,
    Registry,
    Host(Seq<char>),
}

impl View for ReceiverType {
    type V = ReceiverView;

    open spec fn view(&self) -> ReceiverView {
        match self {
            ReceiverType::Array => ReceiverView::Array,
            ReceiverType::String => ReceiverView::String,
            ReceiverType::MapOf => ReceiverView::MapOf,
            ReceiverType::SetOf => ReceiverView::SetOf,
            ReceiverType::Stream => ReceiverView::Stream,
            ReceiverType::Int => ReceiverView::Int,
            ReceiverType::Path => ReceiverView::Path,
            ReceiverType::Blob => ReceiverView::Blob,
            ReceiverType::Registry => ReceiverView::Registry,
            ReceiverType::Host(name) => ReceiverView::Host(name@),
        }
    }
}

/// The nominal name of the `Tree` host type.
pub const TREE: &'static str = "Tree";
/// The nominal name of the `TreeEntry` host type.
pub const TREE_ENTRY: &'static str = "TreeEntry";

/// A host-type declaration an embedder injects: its nominal name.
#[derive(Clone, Copy, Debug, PartialEq, Eq)]
pub struct HostTypeDecl {
    pub name: &'static str,
}

/// A capability-type declaration an embedder injects: the nominal name of a
/// command package's capability type.
#[derive(Clone, Copy, Debug, PartialEq, Eq)]
pub struct CapabilityTypeDecl {
    pub name: &'static str,
}

/// The method-dispatch key of a receiver type, if the type has builtin methods.
pub open spec fn receiver_of(ty: Type) -> Option<ReceiverView> {
    match ty {
        Type::Array(_) => Some(ReceiverView::Array),
        Type::String => Some(ReceiverView::String),
        Type::MapOf { .. } => Some(ReceiverView::MapOf),
        Type::SetOf(_) => Some(ReceiverView::SetOf),
        Type::Stream { .. } => Some(ReceiverView::Stream),
        Type::Int => Some(ReceiverView::Int),
        Type::Path => Some(ReceiverView::Path),
        Type::Extern(ExternKind::Blob) => Some(ReceiverView::Blob),
        Type::Extern(ExternKind::Registry) => Some(ReceiverView::Registry),
        Type::Extern(ExternKind::Host(name)) => Some(ReceiverView::Host(name@)),
        _ => None,
    }
}

/// The value of an optional receiver type.
pub open spec fn receiver_opt(r: Option<ReceiverType>) -> Option<ReceiverView> {
    match r {
        Some(t) => Some(t@),
        None => None,
    }
}

impl ReceiverType {
    /// Classify a receiver's type into its method-dispatch key, or `None` if
    /// the type carries no builtin methods.
    pub fn from_vir_type(ty: &Type) -> (r: Option<ReceiverType>)
        ensures
            receiver_opt(r) == receiver_of(*ty),
    {
        match ty {
            Type::Array(_) => Some(ReceiverType::Array),
            Type::String => Some(ReceiverType::String),
            Type::MapOf { .. } => Some(ReceiverType::MapOf),
            Type::SetOf(_) => Some(ReceiverType::SetOf),
            Type::Stream { .. } => Some(ReceiverType::Stream),
            Type::Int => Some(ReceiverType::Int),
            Type::Path => Some(ReceiverType::Path),
            Type::Extern(ExternKind::Blob) => Some(ReceiverType::Blob),
            Type::Extern(ExternKind::Registry) => Some(ReceiverType::Registry),
            Type::Extern(ExternKind::Host(name)) => Some(ReceiverType::Host(name)),
            _ => None,
        }
    }

    /// The same receiver kind (host types by name).
    fn same(&self, other: &ReceiverType) -> (r: bool)
        ensures
            r == (self@ == other@),
    {
        match (self, other) {
            (ReceiverType::Array, ReceiverType::Array) => true,
            (ReceiverType::String, ReceiverType::String) => true,
            (ReceiverType::MapOf, ReceiverType::MapOf) => true,
            (ReceiverType::SetOf, ReceiverType::SetOf) => true,
            (ReceiverType::Stream, ReceiverType::Stream) => true,
            (ReceiverType::Int, ReceiverType::Int) => true,
            (ReceiverType::Path, ReceiverType::Path) => true,
            (ReceiverType::Blob, ReceiverType::Blob) => true,
            (ReceiverType::Registry, ReceiverType::Registry) => true,
            (ReceiverType::Host(a), ReceiverType::Host(b)) => str_eq(a, b),
            _ => false,
        }
    }
}

/// Which dedicated VIR op a receiver method lowers to.
#[derive(Clone, Copy, Debug, PartialEq, Eq, Structural)]
pub enum MethodOp {
    ArrayLen,
    ArrayMap,
    ArrayFold,
    ArraySplitLast,
    StringTrim,
    StringContains,
    StringSplitOnce,
    StringParseInt,
    StringIsNumeric,
    StringLines,
    ArraySorted,
    ArrayStream,
    IntRem,
    MapGet,
    MapHas,
    MapLen,
    MapKeys,
    MapValues,
    MapWith,
    SetHas,
    SetLen,
    SetValues,
    StreamFilter,
    StreamFilterMap,
    StreamFlatMap,
    StreamCollect,
    StreamSplitMin,
    PathToString,
    IntToString,
}

/// What a surface name resolves to.
#[derive(Clone, Debug, PartialEq, Eq)]
pub enum BindingTarget {
    /// A registered primitive, one-to-one with this name (`decode` and
    /// `try_decode` share one).
    Primitive(PrimitiveId),
    /// A compiler-known dedicated VIR op, not a primitive at all.
    Intrinsic(Intrinsic),
    /// A vix-source function bound under a placement.
    VixFunction { source: String },
    /// A receiver method that lowers to a dedicated VIR op.
    DedicatedOp(MethodOp),
}

/// The value of a binding target.
pub enum TargetView {
    Primitive(Seq<char>),
    Intrinsic(Intrinsic),
    VixFunction(Seq<char>),
    DedicatedOp(MethodOp),
}

impl View for BindingTarget {
    type V = TargetView;

    open spec fn view(&self) -> TargetView {
        match self {
            BindingTarget::Primitive(id) => TargetView::Primitive(id.0@),
            BindingTarget::Intrinsic(k) => TargetView::Intrinsic(*k),
            BindingTarget::VixFunction { source } => TargetView::VixFunction(source@),
            BindingTarget::DedicatedOp(op) => TargetView::DedicatedOp(*op),
        }
    }
}

/// One projected name: placement, leaf name, and what it resolves to.
/// `receiver`/`arity` are `Some` for receiver-method bindings and `None` for
/// free-function bindings.
#[derive(Clone, Debug, PartialEq, Eq)]
pub struct Binding {
    pub placement: Placement,
    pub name: String,
    pub target: BindingTarget,
    pub receiver: Option<ReceiverType>,
    pub arity: Option<usize>,
}

/// The value of a binding.
pub struct BindingView {
    pub placement: PlacementView,
    pub name: Seq<char>,
    pub target: TargetView,
    pub receiver: Option<ReceiverView>,
    pub arity: Option<usize>,
}

impl View for Binding {
    type V = BindingView;

    open spec fn view(&self) -> BindingView {
        BindingView {
            placement: self.placement@,
            name: self.name@,
            target: self.target@,
            receiver: receiver_opt(self.receiver),
            arity: self.arity,
        }
    }
}

/// A free-function binding's value.
pub open spec fn free_binding(placement: PlacementView, name: Seq<char>, target: TargetView) -> BindingView {
    BindingView { placement, name, target, receiver: None, arity: None }
}

/// A receiver-method binding's value.
pub open spec fn method_binding(receiver: ReceiverView, name: Seq<char>, arity: usize, op: MethodOp) -> BindingView {
    BindingView {
        placement: PlacementView::Prelude,
        name,
        target: TargetView::DedicatedOp(op),
        receiver: Some(receiver),
        arity: Some(arity),
    }
}

impl Binding {
    /// Bind a registered primitive to a surface name.
    pub fn primitive(placement: Placement, name: &str, id: PrimitiveId) -> (b: Binding)
        ensures
            b@ == free_binding(placement@, name@, TargetView::Primitive(id.0@)),
    {
        Binding { placement, name: owned(name), target: BindingTarget::Primitive(id), receiver: None, arity: None }
    }

    /// Bind a dedicated-op intrinsic to a surface name.
    pub fn intrinsic(placement: Placement, name: &str, kind: Intrinsic) -> (b: Binding)
        ensures
            b@ == free_binding(placement@, name@, TargetView::Intrinsic(kind)),
    {
        Binding { placement, name: owned(name), target: BindingTarget::Intrinsic(kind), receiver: None, arity: None }
    }

    /// Bind a vix-source function to a surface name under a placement.
    pub fn vix_fn(placement: Placement, name: &str, source: &str) -> (b: Binding)
        ensures
            b@ == free_binding(placement@, name@, TargetView::VixFunction(source@)),
    {
        Binding {
            placement,
            name: owned(name),
            target: BindingTarget::VixFunction { source: owned(source) },
            receiver: None,
            arity: None,
        }
    }

    /// Bind a receiver method to a dedicated VIR op. Method bindings sit in the
    /// prelude and are dispatched by receiver and name, never by placement.
    pub fn method(receiver: ReceiverType, name: &str, arity: usize, op: MethodOp) -> (b: Binding)
        ensures
            b@ == method_binding(receiver@, name@, arity, op),
    {
        Binding {
            placement: Placement::Prelude,
            name: owned(name),
            target: BindingTarget::DedicatedOp(op),
            receiver: Some(receiver),
            arity: Some(arity),
        }
    }
}


// ---------------------------------------------------------------------------
// The registry
// ---------------------------------------------------------------------------

/// A free-function binding in the prelude named `name`.
pub open spec fn is_prelude_free(b: BindingView, name: Seq<char>) -> bool {
    b.name == name && b.placement is Prelude && b.receiver is None
}

/// A free-function binding under module `path` named `name`.
pub open spec fn is_qualified_free(b: BindingView, path: Seq<Seq<char>>, name: Seq<char>) -> bool {
    b.name == name && b.receiver is None && b.placement == PlacementView::Module(path)
}

/// A method binding of `receiver` named `name`.
pub open spec fn is_method_of(b: BindingView, receiver: ReceiverView, name: Seq<char>) -> bool {
    b.receiver == Some(receiver) && b.name == name
}

/// The predicate of a prelude lookup.
pub open spec fn prelude_pred(name: Seq<char>) -> spec_fn(BindingView) -> bool {
    |b: BindingView| is_prelude_free(b, name)
}

/// The predicate of a qualified lookup.
pub open spec fn qualified_pred(path: Seq<Seq<char>>, name: Seq<char>) -> spec_fn(BindingView) -> bool {
    |b: BindingView| is_qualified_free(b, path, name)
}

/// The predicate of a method lookup.
pub open spec fn method_pred(receiver: ReceiverView, name: Seq<char>) -> spec_fn(BindingView) -> bool {
    |b: BindingView| is_method_of(b, receiver, name)
}

/// The first binding at or after `i` that `p` accepts.
pub open spec fn first_match(s: Seq<BindingView>, p: spec_fn(BindingView) -> bool, i: int) -> Option<int>
    decreases s.len() - i,
{
    if i < 0 || i >= s.len() {
        None
    } else if p(s[i]) {
        Some(i)
    } else {
        first_match(s, p, i + 1)
    }
}

/// The first binding that `p` accepts.
pub open spec fn lookup(s: Seq<BindingView>, p: spec_fn(BindingView) -> bool) -> Option<BindingView> {
    match first_match(s, p, 0) {
        Some(k) => Some(s[k]),
        None => None,
    }
}

/// `first_match` finds the first accepted binding at or after `i`.
pub proof fn lemma_first_match(s: Seq<BindingView>, p: spec_fn(BindingView) -> bool, i: int)
    requires
        0 <= i,
    ensures
        match first_match(s, p, i) {
            Some(k) => i <= k < s.len() && p(s[k]) && forall|j: int| i <= j < k ==> !p(#[trigger] s[j]),
            None => forall|j: int| i <= j < s.len() ==> !p(#[trigger] s[j]),
        },
    decreases s.len() - i,
{
    if i < s.len() && !p(s[i]) {
        lemma_first_match(s, p, i + 1);
    }
}

/// The set of surface bindings a runtime exposes. Prelude names resolve
/// unqualified; module names resolve by full path; methods by receiver.
#[derive(Clone, Debug)]
pub struct BindingRegistry {
    bindings: Vec<Binding>,
}

impl View for BindingRegistry {
    type V = Seq<BindingView>;

    closed spec fn view(&self) -> Seq<BindingView> {
        self.bindings@.map_values(|b: Binding| b@)
    }
}

impl Default for BindingRegistry {
    /// The empty registry.
    fn default() -> (r: Self)
        ensures
            r@ == Seq::<BindingView>::empty(),
    {
        let r = BindingRegistry { bindings: Vec::new() };
        assert(r@ =~= Seq::<BindingView>::empty());
        r
    }
}

impl BindingRegistry {
    /// Adds a binding after the others.
    pub fn insert(&mut self, binding: Binding)
        ensures
            final(self)@ == old(self)@.push(binding@),
    {
        self.bindings.push(binding);
        assert(self@ =~= old(self)@.push(binding@));
    }

    /// The bindings, in insertion order.
    pub fn bindings(&self) -> (s: &[Binding])
        ensures
            s@.map_values(|b: Binding| b@) == self@,
    {
        self.bindings.as_slice()
    }

    /// Resolve an unqualified name against the prelude (free functions only:
    /// a method of the same name never answers).
    pub fn prelude(&self, name: &str) -> (r: Option<&Binding>)
        ensures
            match first_match(self@, prelude_pred(name@), 0) {
                Some(k) => r matches Some(b) && b@ == self@[k],
                None => r is None,
            },
    {
        let ghost p = prelude_pred(name@);
        let mut i: usize = 0;
        while i < self.bindings.len()
            invariant
                i <= self.bindings@.len(),
                self@.len() == self.bindings@.len(),
                p == prelude_pred(name@),
                first_match(self@, p, 0) == first_match(self@, p, i as int),
            decreases self.bindings@.len() - i,
        {
            let b = &self.bindings[i];
            assert(self@[i as int] == b@);
            if str_eq(b.name.as_str(), name) && matches!(b.placement, Placement::Prelude) && b.receiver.is_none() {
                assert(p(self@[i as int]));
                return Some(b);
            }
            assert(!p(self@[i as int]));
            i = i + 1;
        }
        None
    }

    /// Resolve a fully-qualified `module::name` (free functions only).
    pub fn qualified(&self, path: &ModulePath, name: &str) -> (r: Option<&Binding>)
        ensures
            match first_match(self@, qualified_pred(path@, name@), 0) {
                Some(k) => r matches Some(b) && b@ == self@[k],
                None => r is None,
            },
    {
        let ghost p = qualified_pred(path@, name@);
        let mut i: usize = 0;
        while i < self.bindings.len()
            invariant
                i <= self.bindings@.len(),
                self@.len() == self.bindings@.len(),
                p == qualified_pred(path@, name@),
                first_match(self@, p, 0) == first_match(self@, p, i as int),
            decreases self.bindings@.len() - i,
        {
            let b = &self.bindings[i];
            assert(self@[i as int] == b@);
            let in_module = match &b.placement {
                Placement::Module(m) => m.same(path),
                Placement::Prelude => false,
            };
            if str_eq(b.name.as_str(), name) && b.receiver.is_none() && in_module {
                assert(p(self@[i as int]));
                return Some(b);
            }
            assert(!p(self@[i as int]));
            i = i + 1;
        }
        None
    }

    /// Resolve a receiver method by its receiver type and name.
    pub fn method(&self, receiver: ReceiverType, name: &str) -> (r: Option<&Binding>)
        ensures
            match first_match(self@, method_pred(receiver@, name@), 0) {
                Some(k) => r matches Some(b) && b@ == self@[k],
                None => r is None,
            },
    {
        let ghost p = method_pred(receiver@, name@);
        let mut i: usize = 0;
        while i < self.bindings.len()
            invariant
                i <= self.bindings@.len(),
                self@.len() == self.bindings@.len(),
                p == method_pred(receiver@, name@),
                first_match(self@, p, 0) == first_match(self@, p, i as int),
            decreases self.bindings@.len() - i,
        {
            let b = &self.bindings[i];
            assert(self@[i as int] == b@);
            let same_receiver = match &b.receiver {
                Some(x) => x.same(&receiver),
                None => false,
            };
            if same_receiver && str_eq(b.name.as_str(), name) {
                assert(p(self@[i as int]));
                return Some(b);
            }
            assert(!p(self@[i as int]));
            i = i + 1;
        }
        None
    }
}


// ---------------------------------------------------------------------------
// The built-in bindings
// ---------------------------------------------------------------------------

/// The `std` module placement.
pub open spec fn std_module() -> PlacementView {
    PlacementView::Module(seq!["std"@])
}

/// Two primitive bindings per surface, in order: in the prelude and under `std`.
pub open spec fn surface_rows(surfaces: Seq<(Seq<char>, Seq<char>)>) -> Seq<BindingView>
    decreases surfaces.len(),
{
    if surfaces.len() == 0 {
        seq![]
    } else {
        let (name, id) = surfaces.last();
        surface_rows(surfaces.drop_last()) + seq![
            free_binding(PlacementView::Prelude, name, TargetView::Primitive(id)),
            free_binding(std_module(), name, TargetView::Primitive(id)),
        ]
    }
}

/// The (surface name, identity) pairs of primitive surfaces.
pub open spec fn surface_names(s: Seq<PrimitiveSurface>) -> Seq<(Seq<char>, Seq<char>)> {
    s.map_values(|p: PrimitiveSurface| (p.surface_name@, p.id.0@))
}

/// The builtin receiver methods: (receiver, name, arity, op), one row per op.
pub open spec fn method_table() -> Seq<(ReceiverView, Seq<char>, usize, MethodOp)> {
    seq![
        (ReceiverView::Array, "len"@, 0usize, MethodOp::ArrayLen),
        (ReceiverView::Array, "map"@, 1usize, MethodOp::ArrayMap),
        (ReceiverView::Array, "fold"@, 2usize, MethodOp::ArrayFold),
        (ReceiverView::Array, "split_last"@, 0usize, MethodOp::ArraySplitLast),
        (ReceiverView::String, "trim"@, 0usize, MethodOp::StringTrim),
        (ReceiverView::String, "contains"@, 1usize, MethodOp::StringContains),
        (ReceiverView::String, "split_once"@, 1usize, MethodOp::StringSplitOnce),
        (ReceiverView::String, "parse_int"@, 0usize, MethodOp::StringParseInt),
        (ReceiverView::String, "is_numeric"@, 0usize, MethodOp::StringIsNumeric),
        (ReceiverView::String, "lines"@, 0usize, MethodOp::StringLines),
        (ReceiverView::Array, "sorted"@, 0usize, MethodOp::ArraySorted),
        (ReceiverView::Array, "stream"@, 0usize, MethodOp::ArrayStream),
        (ReceiverView::Int, "rem"@, 1usize, MethodOp::IntRem),
        (ReceiverView::MapOf, "get"@, 1usize, MethodOp::MapGet),
        (ReceiverView::MapOf, "has"@, 1usize, MethodOp::MapHas),
        (ReceiverView::MapOf, "len"@, 0usize, MethodOp::MapLen),
        (ReceiverView::MapOf, "keys"@, 0usize, MethodOp::MapKeys),
        (ReceiverView::MapOf, "values"@, 0usize, MethodOp::MapValues),
        (ReceiverView::MapOf, "with"@, 2usize, MethodOp::MapWith),
        (ReceiverView::SetOf, "has"@, 1usize, MethodOp::SetHas),
        (ReceiverView::SetOf, "len"@, 0usize, MethodOp::SetLen),
        (ReceiverView::SetOf, "values"@, 0usize, MethodOp::SetValues),
        (ReceiverView::Stream, "filter"@, 1usize, MethodOp::StreamFilter),
        (ReceiverView::Stream, "filter_map"@, 1usize, MethodOp::StreamFilterMap),
        (ReceiverView::Stream, "flat_map"@, 1usize, MethodOp::StreamFlatMap),
        (ReceiverView::Stream, "collect"@, 0usize, MethodOp::StreamCollect),
        (ReceiverView::Stream, "split_min"@, 0usize, MethodOp::StreamSplitMin),
        (ReceiverView::Path, "to_string"@, 0usize, MethodOp::PathToString),
        (ReceiverView::Int, "to_string"@, 0usize, MethodOp::IntToString)
    ]
}

/// The value of a method row.
pub open spec fn method_row_view(r: (ReceiverType, &'static str, usize, MethodOp)) -> (ReceiverView, Seq<char>, usize, MethodOp) {
    (r.0@, r.1@, r.2, r.3)
}

/// The bindings of method rows.
pub open spec fn method_rows(t: Seq<(ReceiverView, Seq<char>, usize, MethodOp)>) -> Seq<BindingView> {
    t.map_values(|r: (ReceiverView, Seq<char>, usize, MethodOp)| method_binding(r.0, r.1, r.2, r.3))
}

/// The hand-registered free bindings: `decode` and `try_decode` over the one
/// decode primitive, then the two fixture intrinsics; each in the prelude and
/// under `std`.
pub open spec fn fixed_rows() -> Seq<BindingView> {
    seq![
        free_binding(PlacementView::Prelude, "decode"@, TargetView::Primitive(decode_id())),
        free_binding(std_module(), "decode"@, TargetView::Primitive(decode_id())),
        free_binding(PlacementView::Prelude, "try_decode"@, TargetView::Primitive(decode_id())),
        free_binding(std_module(), "try_decode"@, TargetView::Primitive(decode_id())),
        free_binding(PlacementView::Prelude, "fixture_tree"@, TargetView::Intrinsic(Intrinsic::FixtureTree)),
        free_binding(std_module(), "fixture_tree"@, TargetView::Intrinsic(Intrinsic::FixtureTree)),
        free_binding(PlacementView::Prelude, "fixture_registry"@, TargetView::Intrinsic(Intrinsic::FixtureRegistry)),
        free_binding(std_module(), "fixture_registry"@, TargetView::Intrinsic(Intrinsic::FixtureRegistry)),
    ]
}

/// The built-in surface bindings: the harvested primitive surfaces, the
/// hand-registered rows, then the receiver methods.
pub open spec fn builtin_view() -> Seq<BindingView> {
    surface_rows(seq![("fetch"@, fetch_id())]) + fixed_rows() + method_rows(method_table())
}

/// The builtin receiver methods, as data.
fn method_bindings() -> (r: Vec<(ReceiverType, &'static str, usize, MethodOp)>)
    ensures
        r@.map_values(|x: (ReceiverType, &'static str, usize, MethodOp)| method_row_view(x)) == method_table(),
{
    let mut r: Vec<(ReceiverType, &'static str, usize, MethodOp)> = Vec::new();
    r.push((ReceiverType::Array, "len", 0, MethodOp::ArrayLen));
    r.push((ReceiverType::Array, "map", 1, MethodOp::ArrayMap));
    r.push((ReceiverType::Array, "fold", 2, MethodOp::ArrayFold));
    r.push((ReceiverType::Array, "split_last", 0, MethodOp::ArraySplitLast));
    r.push((ReceiverType::String, "trim", 0, MethodOp::StringTrim));
    r.push((ReceiverType::String, "contains", 1, MethodOp::StringContains));
    r.push((ReceiverType::String, "split_once", 1, MethodOp::StringSplitOnce));
    r.push((ReceiverType::String, "parse_int", 0, MethodOp::StringParseInt));
    r.push((ReceiverType::String, "is_numeric", 0, MethodOp::StringIsNumeric));
    r.push((ReceiverType::String, "lines", 0, MethodOp::StringLines));
    r.push((ReceiverType::Array, "sorted", 0, MethodOp::ArraySorted));
    r.push((ReceiverType::Array, "stream", 0, MethodOp::ArrayStream));
    r.push((ReceiverType::Int, "rem", 1, MethodOp::IntRem));
    r.push((ReceiverType::MapOf, "get", 1, MethodOp::MapGet));
    r.push((ReceiverType::MapOf, "has", 1, MethodOp::MapHas));
    r.push((ReceiverType::MapOf, "len", 0, MethodOp::MapLen));
    r.push((ReceiverType::MapOf, "keys", 0, MethodOp::MapKeys));
    r.push((ReceiverType::MapOf, "values", 0, MethodOp::MapValues));
    r.push((ReceiverType::MapOf, "with", 2, MethodOp::MapWith));
    r.push((ReceiverType::SetOf, "has", 1, MethodOp::SetHas));
    r.push((ReceiverType::SetOf, "len", 0, MethodOp::SetLen));
    r.push((ReceiverType::SetOf, "values", 0, MethodOp::SetValues));
    r.push((ReceiverType::Stream, "filter", 1, MethodOp::StreamFilter));
    r.push((ReceiverType::Stream, "filter_map", 1, MethodOp::StreamFilterMap));
    r.push((ReceiverType::Stream, "flat_map", 1, MethodOp::StreamFlatMap));
    r.push((ReceiverType::Stream, "collect", 0, MethodOp::StreamCollect));
    r.push((ReceiverType::Stream, "split_min", 0, MethodOp::StreamSplitMin));
    r.push((ReceiverType::Path, "to_string", 0, MethodOp::PathToString));
    r.push((ReceiverType::Int, "to_string", 0, MethodOp::IntToString));
    assert(r@.map_values(|x: (ReceiverType, &'static str, usize, MethodOp)| method_row_view(x)) =~= method_table());
    r
}

/// The position of an op's row in the method table.
spec fn op_row(op: MethodOp) -> int {
    match op {
        MethodOp::ArrayLen => 0,
        MethodOp::ArrayMap => 1,
        MethodOp::ArrayFold => 2,
        MethodOp::ArraySplitLast => 3,
        MethodOp::StringTrim => 4,
        MethodOp::StringContains => 5,
        MethodOp::StringSplitOnce => 6,
        MethodOp::StringParseInt => 7,
        MethodOp::StringIsNumeric => 8,
        MethodOp::StringLines => 9,
        MethodOp::ArraySorted => 10,
        MethodOp::ArrayStream => 11,
        MethodOp::IntRem => 12,
        MethodOp::MapGet => 13,
        MethodOp::MapHas => 14,
        MethodOp::MapLen => 15,
        MethodOp::MapKeys => 16,
        MethodOp::MapValues => 17,
        MethodOp::MapWith => 18,
        MethodOp::SetHas => 19,
        MethodOp::SetLen => 20,
        MethodOp::SetValues => 21,
        MethodOp::StreamFilter => 22,
        MethodOp::StreamFilterMap => 23,
        MethodOp::StreamFlatMap => 24,
        MethodOp::StreamCollect => 25,
        MethodOp::StreamSplitMin => 26,
        MethodOp::PathToString => 27,
        MethodOp::IntToString => 28,
    }
}

/// Each row of the method table holds its own op.
proof fn lemma_op_rows(i: int)
    requires
        0 <= i < method_table().len(),
    ensures
        op_row(method_table()[i].3) == i,
{
    if i == 0 {} else if i == 1 {} else if i == 2 {} else if i == 3 {} else if i == 4 {} else
    if i == 5 {} else if i == 6 {} else if i == 7 {} else if i == 8 {} else if i == 9 {} else
    if i == 10 {} else if i == 11 {} else if i == 12 {} else if i == 13 {} else if i == 14 {} else
    if i == 15 {} else if i == 16 {} else if i == 17 {} else if i == 18 {} else if i == 19 {} else
    if i == 20 {} else if i == 21 {} else if i == 22 {} else if i == 23 {} else if i == 24 {} else
    if i == 25 {} else if i == 26 {} else if i == 27 {} else {}
}

/// The builtin bindings are ten free bindings followed by the method rows.
proof fn lemma_builtin_view_shape() -> (head: Seq<BindingView>)
    ensures
        head.len() == 10,
        forall|j: int| 0 <= j < 10 ==> (#[trigger] head[j]).receiver is None,
        builtin_view() == head + method_rows(method_table()),
{
    let x = seq![("fetch"@, fetch_id())];
    assert(x.drop_last() =~= Seq::<(Seq<char>, Seq<char>)>::empty());
    assert(surface_rows(x.drop_last()) == Seq::<BindingView>::empty());
    let rows = surface_rows(x);
    assert(rows =~= seq![
        free_binding(PlacementView::Prelude, "fetch"@, TargetView::Primitive(fetch_id())),
        free_binding(std_module(), "fetch"@, TargetView::Primitive(fetch_id())),
    ]);
    let head = rows + fixed_rows();
    assert(forall|j: int| 0 <= j < 10 ==> (#[trigger] head[j]).receiver is None);
    head
}

/// A builtin method resolution is a row of the method table: the one for
/// the receiver's kind and the method's name, read out as its op and arity.
proof fn lemma_resolution_row(receiver_ty: Type, name: Seq<char>) -> (i: int)
    requires
        prelude_resolution(receiver_ty, name) is Some,
    ensures
        0 <= i < method_table().len(),
        Some(method_table()[i].0) == receiver_of(receiver_ty),
        method_table()[i].1 == name,
        prelude_resolution(receiver_ty, name) == Some((MethodLowering::DedicatedOp(method_table()[i].3), method_table()[i].2)),
{
    let r = receiver_of(receiver_ty)->Some_0;
    let s = builtin_view();
    let p = method_pred(r, name);
    lemma_first_match(s, p, 0);
    let k = first_match(s, p, 0)->Some_0;
    let head = lemma_builtin_view_shape();
    assert(k >= 10) by {
        if k < 10 {
            assert(s[k] == head[k]);
        }
    }
    let i = k - 10;
    assert(s[k] == method_rows(method_table())[i]);
    i
}

/// Each builtin receiver method lowers to an op of its own: two builtin
/// method resolutions to the same dedicated op are the same method, of the
/// same receiver kind, with the same name and arity. So `Map.keys` and
/// `Map.values` lower differently, and so do any two methods of a receiver.
pub proof fn law_builtin_method_ops_are_distinct(t1: Type, n1: Seq<char>, t2: Type, n2: Seq<char>)
    requires
        prelude_resolution(t1, n1) is Some,
        prelude_resolution(t2, n2) is Some,
        prelude_resolution(t1, n1)->Some_0.0 == prelude_resolution(t2, n2)->Some_0.0,
    ensures
        n1 == n2,
        receiver_of(t1) == receiver_of(t2),
        prelude_resolution(t1, n1) == prelude_resolution(t2, n2),
{
    let i = lemma_resolution_row(t1, n1);
    let j = lemma_resolution_row(t2, n2);
    lemma_op_rows(i);
    lemma_op_rows(j);
}

/// A map's `keys()` lowers to the map-keys op and its `values()` to the
/// map-values op, both without arguments, whatever the key and value types.
pub proof fn law_map_keys_and_values(receiver_ty: Type)
    requires
        receiver_ty is MapOf,
    ensures
        prelude_resolution(receiver_ty, "keys"@) == Some((MethodLowering::DedicatedOp(MethodOp::MapKeys), 0usize)),
        prelude_resolution(receiver_ty, "values"@) == Some((MethodLowering::DedicatedOp(MethodOp::MapValues), 0usize)),
{
    reveal_strlit("keys");
    reveal_strlit("values");
    reveal_strlit("get");
    reveal_strlit("has");
    reveal_strlit("len");
    reveal_strlit("with");
    assert("keys"@[0] != "with"@[0]);
    let s = builtin_view();
    let head = lemma_builtin_view_shape();
    assert(s.len() == 39);
    assert(s[26] == method_binding(ReceiverView::MapOf, "keys"@, 0usize, MethodOp::MapKeys));
    assert(s[27] == method_binding(ReceiverView::MapOf, "values"@, 0usize, MethodOp::MapValues));
    lemma_first_match(s, method_pred(ReceiverView::MapOf, "keys"@), 0);
    lemma_first_match(s, method_pred(ReceiverView::MapOf, "values"@), 0);
    let i = lemma_resolution_row(receiver_ty, "keys"@);
    let j = lemma_resolution_row(receiver_ty, "values"@);
    assert(i == 16);
    assert(j == 17) by {
        assert("values"@.len() == 6 && "get"@.len() == 3 && "has"@.len() == 3 && "len"@.len() == 3);
        assert("keys"@.len() == 4 && "with"@.len() == 4);
    }
}

/// The built-in surface bindings, encoded as data: one prelude and one `std`
/// binding per bundled primitive surface, `decode`/`try_decode` over the
/// shared decode primitive, the fixture intrinsics, and the builtin receiver
/// methods.
pub fn builtin_bindings() -> (reg: BindingRegistry)
    ensures
        reg@ == builtin_view(),
{
    let mut reg = BindingRegistry::default();
    let surfaces = builtin_primitive_surfaces();
    let mut i: usize = 0;
    while i < surfaces.len()
        invariant
            i <= surfaces@.len(),
            reg@ == surface_rows(surface_names(surfaces@.take(i as int))),
        decreases surfaces@.len() - i,
    {
        let s = &surfaces[i];
        reg.insert(Binding::primitive(Placement::Prelude, s.surface_name, s.id.copy()));
        reg.insert(Binding::primitive(Placement::Module(ModulePath::std_path()), s.surface_name, s.id.copy()));
        proof {
            assert(surfaces@.take(i as int + 1) == surfaces@.take(i as int).push(surfaces@[i as int]));
            let n1 = surface_names(surfaces@.take(i as int + 1));
            assert(n1 =~= surface_names(surfaces@.take(i as int)).push((s.surface_name@, s.id.0@)));
            assert(n1.drop_last() == surface_names(surfaces@.take(i as int)));
            assert(surface_rows(n1) == surface_rows(surface_names(surfaces@.take(i as int))) + seq![
                free_binding(PlacementView::Prelude, s.surface_name@, TargetView::Primitive(s.id.0@)),
                free_binding(std_module(), s.surface_name@, TargetView::Primitive(s.id.0@)),
            ]);
            assert(reg@ =~= surface_rows(n1));
        }
        i = i + 1;
    }
    proof {
        assert(surfaces@.take(surfaces@.len() as int) == surfaces@);
        assert(surface_names(surfaces@) =~= seq![("fetch"@, fetch_id())]);
    }
    let ghost harvested = reg@;
    reg.insert(Binding::primitive(Placement::Prelude, "decode", decode_primitive_id()));
    reg.insert(Binding::primitive(Placement::Module(ModulePath::std_path()), "decode", decode_primitive_id()));
    reg.insert(Binding::primitive(Placement::Prelude, "try_decode", decode_primitive_id()));
    reg.insert(Binding::primitive(Placement::Module(ModulePath::std_path()), "try_decode", decode_primitive_id()));
    reg.insert(Binding::intrinsic(Placement::Prelude, "fixture_tree", Intrinsic::FixtureTree));
    reg.insert(Binding::intrinsic(Placement::Module(ModulePath::std_path()), "fixture_tree", Intrinsic::FixtureTree));
    reg.insert(Binding::intrinsic(Placement::Prelude, "fixture_registry", Intrinsic::FixtureRegistry));
    reg.insert(Binding::intrinsic(Placement::Module(ModulePath::std_path()), "fixture_registry", Intrinsic::FixtureRegistry));
    assert(reg@ =~= harvested + fixed_rows());
    let ghost fixed = reg@;
    let rows = method_bindings();
    let ghost table = rows@.map_values(|x: (ReceiverType, &'static str, usize, MethodOp)| method_row_view(x));
    let mut k: usize = 0;
    while k < rows.len()
        invariant
            k <= rows@.len(),
            table == rows@.map_values(|x: (ReceiverType, &'static str, usize, MethodOp)| method_row_view(x)),
            reg@ == fixed + method_rows(table.take(k as int)),
        decreases rows@.len() - k,
    {
        let (receiver, name, arity, op) = rows[k];
        reg.insert(Binding::method(receiver, name, arity, op));
        proof {
            assert(table.take(k as int + 1) == table.take(k as int).push(table[k as int]));
            assert(method_rows(table.take(k as int + 1)) =~= method_rows(table.take(k as int)).push(
                method_binding(receiver@, name@, arity, op)));
        }
        k = k + 1;
    }
    assert(table.take(rows@.len() as int) == table);
    reg
}


// ---------------------------------------------------------------------------
// Resolution against the built-in bindings
// ---------------------------------------------------------------------------

/// The primitive a binding targets, if any.
pub open spec fn target_primitive(b: Option<BindingView>) -> Option<Seq<char>> {
    match b {
        Some(v) => match v.target {
            TargetView::Primitive(id) => Some(id),
            _ => None,
        },
        None => None,
    }
}

/// The intrinsic a binding targets, if any.
pub open spec fn target_intrinsic(b: Option<BindingView>) -> Option<Intrinsic> {
    match b {
        Some(v) => match v.target {
            TargetView::Intrinsic(k) => Some(k),
            _ => None,
        },
        None => None,
    }
}

/// The value of an optional primitive identity.
pub open spec fn id_opt(r: Option<PrimitiveId>) -> Option<Seq<char>> {
    match r {
        Some(id) => Some(id.0@),
        None => None,
    }
}

/// The primitive a target names, as an identity.
fn primitive_of(b: Option<&Binding>) -> (r: Option<PrimitiveId>)
    ensures
        id_opt(r) == target_primitive(match b { Some(x) => Some(x@), None => None }),
{
    match b {
        Some(binding) => match &binding.target {
            BindingTarget::Primitive(id) => Some(id.copy()),
            _ => None,
        },
        None => None,
    }
}

/// The intrinsic a target names.
fn intrinsic_of(b: Option<&Binding>) -> (r: Option<Intrinsic>)
    ensures
        r == target_intrinsic(match b { Some(x) => Some(x@), None => None }),
{
    match b {
        Some(binding) => match &binding.target {
            BindingTarget::Intrinsic(kind) => Some(*kind),
            _ => None,
        },
        None => None,
    }
}

/// The primitive a prelude name lowers to, or `None` if the name is not a
/// built-in primitive.
pub fn prelude_primitive(name: &str) -> (r: Option<PrimitiveId>)
    ensures
        id_opt(r) == target_primitive(lookup(builtin_view(), prelude_pred(name@))),
{
    let reg = builtin_bindings();
    primitive_of(reg.prelude(name))
}

/// The intrinsic a prelude name lowers to, or `None`.
pub fn prelude_intrinsic(name: &str) -> (r: Option<Intrinsic>)
    ensures
        r == target_intrinsic(lookup(builtin_view(), prelude_pred(name@))),
{
    let reg = builtin_bindings();
    intrinsic_of(reg.prelude(name))
}

/// `module::name` is a built-in binding.
pub open spec fn qualified_builtin(module: Seq<char>, name: Seq<char>) -> bool {
    module.len() > 0 && lookup(builtin_view(), qualified_pred(seq![module], name)) is Some
}

/// Whether `module::name` is a registered built-in surface binding.
pub fn is_qualified_binding(module: &str, name: &str) -> (r: bool)
    ensures
        r == qualified_builtin(module@, name@),
{
    let path = match ModulePath::single(module) {
        Some(path) => path,
        None => return false,
    };
    let reg = builtin_bindings();
    reg.qualified(&path, name).is_some()
}

/// Some injected surface projects `name`.
pub open spec fn projects(surfaces: Seq<PrimitiveSurface>, name: Seq<char>) -> bool {
    exists|k: int| 0 <= k < surfaces.len() && (#[trigger] surfaces[k]).surface_name@ == name
}

/// Whether `module::name` is a built-in binding, or is projected under `std`
/// by one of the injected primitive `surfaces`.
pub fn is_qualified_binding_with(surfaces: &[PrimitiveSurface], module: &str, name: &str) -> (r: bool)
    ensures
        r == (qualified_builtin(module@, name@) || (module@ == "std"@ && projects(surfaces@, name@))),
{
    if is_qualified_binding(module, name) {
        return true;
    }
    let m = chars_of(module);
    let std_chars = chars_of("std");
    if !chars_eq(m.as_slice(), std_chars.as_slice()) {
        return false;
    }
    let mut i: usize = 0;
    while i < surfaces.len()
        invariant
            i <= surfaces@.len(),
            module@ == "std"@,
            !qualified_builtin(module@, name@),
            forall|k: int| 0 <= k < i ==> (#[trigger] surfaces@[k]).surface_name@ != name@,
        decreases surfaces@.len() - i,
    {
        if str_eq(surfaces[i].surface_name, name) {
            assert(surfaces@[i as int].surface_name@ == name@);
            return true;
        }
        i = i + 1;
    }
    false
}

/// The first injected surface at or after `i` named `leaf`.
pub open spec fn first_surface(surfaces: Seq<PrimitiveSurface>, leaf: Seq<char>, i: int) -> Option<int>
    decreases surfaces.len() - i,
{
    if i < 0 || i >= surfaces.len() {
        None
    } else if surfaces[i].surface_name@ == leaf {
        Some(i)
    } else {
        first_surface(surfaces, leaf, i + 1)
    }
}

/// The leaf an injected-surface lookup searches for: a bare name as it is, a
/// `std::`-qualified name's leaf; `None` for any other module.
pub open spec fn injected_leaf(name: Seq<char>) -> Option<Seq<char>> {
    match rsplit_colons(name) {
        Some((module, leaf)) => if split_colons(module) == seq!["std"@] { Some(leaf) } else { None },
        None => Some(name),
    }
}

/// The injected surface a possibly-qualified `name` resolves to: it answers
/// to its bare prelude name and to its `std::` name.
pub open spec fn injected_index(surfaces: Seq<PrimitiveSurface>, name: Seq<char>) -> Option<int> {
    match injected_leaf(name) {
        Some(leaf) => first_surface(surfaces, leaf, 0),
        None => None,
    }
}

/// The first surface named `leaf`.
fn find_surface<'a>(surfaces: &'a [PrimitiveSurface], leaf: &str) -> (r: Option<&'a PrimitiveSurface>)
    ensures
        match first_surface(surfaces@, leaf@, 0) {
            Some(k) => r matches Some(s) && *s == surfaces@[k],
            None => r is None,
        },
{
    let mut i: usize = 0;
    while i < surfaces.len()
        invariant
            i <= surfaces@.len(),
            first_surface(surfaces@, leaf@, 0) == first_surface(surfaces@, leaf@, i as int),
        decreases surfaces@.len() - i,
    {
        if str_eq(surfaces[i].surface_name, leaf) {
            return Some(&surfaces[i]);
        }
        i = i + 1;
    }
    None
}

/// Resolve a possibly-qualified surface `name` against the injected primitive
/// `surfaces`: the bare name and the `std::` name both answer; a name under
/// any other module does not.
pub fn injected_surface<'a>(surfaces: &'a [PrimitiveSurface], name: &str) -> (r: Option<&'a PrimitiveSurface>)
    ensures
        match injected_index(surfaces@, name@) {
            Some(k) => r matches Some(s) && *s == surfaces@[k],
            None => r is None,
        },
{
    let cs = chars_of(name);
    match rsplit_colons_exec(cs.as_slice()) {
        Some((module, leaf)) => {
            let path = match ModulePath::parse(module.as_slice()) {
                Some(path) => path,
                None => {
                    proof { reveal_strlit("std"); }
                    return None;
                },
            };
            if !path.same(&ModulePath::std_path()) {
                return None;
            }
            find_surface(surfaces, string_of(leaf.as_slice()).as_str())
        },
        None => find_surface(surfaces, name),
    }
}

/// A possibly-qualified name's built-in primitive: by its prelude name, else
/// by its qualified name.
pub open spec fn surface_primitive_spec(name: Seq<char>) -> Option<Seq<char>> {
    match target_primitive(lookup(builtin_view(), prelude_pred(name))) {
        Some(id) => Some(id),
        None => match rsplit_colons(name) {
            Some((module, leaf)) => if valid_segments(split_colons(module)) {
                target_primitive(lookup(builtin_view(), qualified_pred(split_colons(module), leaf)))
            } else {
                None
            },
            None => None,
        },
    }
}

/// A possibly-qualified name's built-in intrinsic.
pub open spec fn surface_intrinsic_spec(name: Seq<char>) -> Option<Intrinsic> {
    match target_intrinsic(lookup(builtin_view(), prelude_pred(name))) {
        Some(k) => Some(k),
        None => match rsplit_colons(name) {
            Some((module, leaf)) => if valid_segments(split_colons(module)) {
                target_intrinsic(lookup(builtin_view(), qualified_pred(split_colons(module), leaf)))
            } else {
                None
            },
            None => None,
        },
    }
}

/// Resolve a primitive by its compatibility prelude name or its canonical
/// qualified name (`std::fetch`).
pub fn surface_primitive(name: &str) -> (r: Option<PrimitiveId>)
    ensures
        id_opt(r) == surface_primitive_spec(name@),
{
    if let Some(primitive) = prelude_primitive(name) {
        return Some(primitive);
    }
    let cs = chars_of(name);
    let (module, leaf) = match rsplit_colons_exec(cs.as_slice()) {
        Some(parts) => parts,
        None => return None,
    };
    let path = match ModulePath::parse(module.as_slice()) {
        Some(path) => path,
        None => return None,
    };
    let reg = builtin_bindings();
    primitive_of(reg.qualified(&path, string_of(leaf.as_slice()).as_str()))
}

/// Resolve an intrinsic by its compatibility prelude name or its canonical
/// qualified name.
pub fn surface_intrinsic(name: &str) -> (r: Option<Intrinsic>)
    ensures
        r == surface_intrinsic_spec(name@),
{
    if let Some(intrinsic) = prelude_intrinsic(name) {
        return Some(intrinsic);
    }
    let cs = chars_of(name);
    let (module, leaf) = match rsplit_colons_exec(cs.as_slice()) {
        Some(parts) => parts,
        None => return None,
    };
    let path = match ModulePath::parse(module.as_slice()) {
        Some(path) => path,
        None => return None,
    };
    let reg = builtin_bindings();
    intrinsic_of(reg.qualified(&path, string_of(leaf.as_slice()).as_str()))
}

/// The request shape a registered primitive's call lowers through, or `None`
/// for a primitive whose request construction is not data (the shared decode
/// primitive). Only `fetch` has one.
pub fn request_shape(id: &PrimitiveId) -> (r: Option<RequestShape>)
    ensures
        match r {
            Some(shape) => id.0@ == fetch_id() && is_fetch_shape(shape),
            None => id.0@ != fetch_id(),
        },
{
    let mut surfaces = builtin_primitive_surfaces();
    let ghost all = surfaces@;
    while surfaces.len() > 0
        invariant
            all.len() == 1,
            is_fetch_surface_of(all[0]),
            surfaces@.len() <= all.len(),
            surfaces@ == all.take(surfaces@.len() as int),
            forall|j: int| surfaces@.len() <= j < all.len() ==> (#[trigger] all[j]).id.0@ != id.0@,
        decreases surfaces@.len(),
    {
        let ghost before = surfaces@;
        let s = match surfaces.pop() {
            Some(s) => s,
            None => return None,
        };
        assert(before[before.len() - 1] == all[before.len() - 1]);
        assert(s == all[before.len() - 1]);
        assert(surfaces@ =~= all.take(surfaces@.len() as int));
        if str_eq(s.id.0.as_str(), id.0.as_str()) {
            return Some(s.shape);
        }
    }
    None
}

/// The bundled surface is `fetch`.
pub open spec fn is_fetch_surface_of(s: PrimitiveSurface) -> bool {
    crate::runtime::is_fetch_surface(s)
}

/// Is `name` a prelude-placed free binding of the built-ins?
pub open spec fn prelude_name(name: Seq<char>) -> bool {
    exists|k: int| 0 <= k < builtin_view().len() && is_prelude_free(#[trigger] builtin_view()[k], name)
}

/// Is `name` a prelude-placed surface binding?
pub fn is_prelude_name(name: &str) -> (r: bool)
    ensures
        r == prelude_name(name@),
{
    let reg = builtin_bindings();
    let found = reg.prelude(name);
    proof {
        lemma_first_match(builtin_view(), prelude_pred(name@), 0);
        if found is None {
            assert forall|k: int| 0 <= k < builtin_view().len()
                implies !is_prelude_free(#[trigger] builtin_view()[k], name@) by {
                assert(!prelude_pred(name@)(builtin_view()[k]));
            }
        } else {
            let k = first_match(builtin_view(), prelude_pred(name@), 0)->Some_0;
            assert(prelude_pred(name@)(builtin_view()[k]));
            assert(is_prelude_free(builtin_view()[k], name@));
        }
    }
    found.is_some()
}


// ---------------------------------------------------------------------------
// Receiver methods
// ---------------------------------------------------------------------------

/// The contract of a primitive-backed receiver method: the request record the
/// call assembles (its first field is the receiver, the rest bind the call's
/// positional arguments in order), the invocation's result type, and the
/// primitive that serves it.
#[derive(Clone, Copy, Debug, PartialEq, Eq)]
pub struct PrimitiveMethodDecl {
    pub request: &'static Type,
    pub result: &'static Type,
    pub id: &'static PrimitiveId,
}

/// The contract of a codata-backed receiver method: the types of its
/// positional operands (the receiver, the stream source, is implicit), the
/// stream recipe the invocation produces, and the codata primitive that
/// drains it.
#[derive(Clone, Copy, Debug, PartialEq, Eq)]
pub struct CodataMethodDecl {
    pub operands: &'static [Type],
    pub result: &'static Type,
    pub id: &'static PrimitiveId,
}

/// What a resolved receiver method lowers to.
#[derive(Clone, Copy, Debug, PartialEq, Eq)]
pub enum MethodLowering {
    /// A dedicated VIR op with bespoke lowering in the compiler.
    DedicatedOp(MethodOp),
    /// A registered primitive, reached through its request record.
    Primitive(PrimitiveMethodDecl),
    /// A registered codata primitive whose result is a stream recipe.
    CodataPrimitive(CodataMethodDecl),
}

/// A receiver-method declaration an embedder injects: receiver, name, arity,
/// and what the call lowers to.
#[derive(Clone, Copy, Debug, PartialEq, Eq)]
pub struct MethodDecl {
    pub receiver: ReceiverType,
    pub name: &'static str,
    pub arity: usize,
    pub lowering: MethodLowering,
}

/// A resolved receiver method: what it lowers to, and its arity.
#[derive(Clone, Copy, Debug)]
pub struct MethodResolution {
    pub lowering: MethodLowering,
    pub arity: usize,
}

/// The first declaration at or after `i` for `receiver` named `name`.
pub open spec fn first_decl(methods: Seq<MethodDecl>, receiver: ReceiverView, name: Seq<char>, i: int) -> Option<int>
    decreases methods.len() - i,
{
    if i < 0 || i >= methods.len() {
        None
    } else if methods[i].receiver@ == receiver && methods[i].name@ == name {
        Some(i)
    } else {
        first_decl(methods, receiver, name, i + 1)
    }
}

/// What `injected_method` resolves: the first matching declaration's
/// lowering and arity.
pub open spec fn injected_resolution(methods: Seq<MethodDecl>, receiver_ty: Type, name: Seq<char>)
    -> Option<(MethodLowering, usize)>
{
    match receiver_of(receiver_ty) {
        Some(receiver) => match first_decl(methods, receiver, name, 0) {
            Some(k) => Some((methods[k].lowering, methods[k].arity)),
            None => None,
        },
        None => None,
    }
}

/// The value of an optional resolution.
pub open spec fn resolution_opt(r: Option<MethodResolution>) -> Option<(MethodLowering, usize)> {
    match r {
        Some(m) => Some((m.lowering, m.arity)),
        None => None,
    }
}

/// Resolve a receiver method against an embedder-injected declaration set.
pub fn injected_method(methods: &[MethodDecl], receiver_ty: &Type, name: &str) -> (r: Option<MethodResolution>)
    ensures
        resolution_opt(r) == injected_resolution(methods@, *receiver_ty, name@),
{
    let receiver = match ReceiverType::from_vir_type(receiver_ty) {
        Some(receiver) => receiver,
        None => return None,
    };
    let mut i: usize = 0;
    while i < methods.len()
        invariant
            i <= methods@.len(),
            receiver_of(*receiver_ty) == Some(receiver@),
            first_decl(methods@, receiver@, name@, 0) == first_decl(methods@, receiver@, name@, i as int),
        decreases methods@.len() - i,
    {
        let decl = &methods[i];
        if decl.receiver.same(&receiver) && str_eq(decl.name, name) {
            return Some(MethodResolution { lowering: decl.lowering, arity: decl.arity });
        }
        i = i + 1;
    }
    None
}

/// What `prelude_method` resolves: the builtin method binding's op and arity.
pub open spec fn prelude_resolution(receiver_ty: Type, name: Seq<char>) -> Option<(MethodLowering, usize)> {
    match receiver_of(receiver_ty) {
        Some(receiver) => match lookup(builtin_view(), method_pred(receiver, name)) {
            Some(b) => match (b.target, b.arity) {
                (TargetView::DedicatedOp(op), Some(arity)) => Some((MethodLowering::DedicatedOp(op), arity)),
                _ => None,
            },
            None => None,
        },
        None => None,
    }
}

/// The dedicated op and arity a receiver method resolves to among the
/// builtin methods, or `None`.
pub fn prelude_method(receiver_ty: &Type, name: &str) -> (r: Option<MethodResolution>)
    ensures
        resolution_opt(r) == prelude_resolution(*receiver_ty, name@),
{
    let receiver = match ReceiverType::from_vir_type(receiver_ty) {
        Some(receiver) => receiver,
        None => return None,
    };
    let reg = builtin_bindings();
    let binding = match reg.method(receiver, name) {
        Some(b) => b,
        None => return None,
    };
    match (&binding.target, binding.arity) {
        (BindingTarget::DedicatedOp(op), Some(arity)) => Some(MethodResolution {
            lowering: MethodLowering::DedicatedOp(*op),
            arity,
        }),
        _ => None,
    }
}


// ---------------------------------------------------------------------------
// Laws
// ---------------------------------------------------------------------------

/// `rfind_colons` finds the last `::` before `j`.
proof fn lemma_rfind_colons_at(s: Seq<char>, j: int, k: int)
    requires
        0 <= k < j,
        crate::text::colons_at(s, k),
        forall|m: int| k < m < j ==> !crate::text::colons_at(s, m),
    ensures
        crate::text::rfind_colons(s, j) == Some(k),
    decreases j,
{
    if j - 1 != k {
        lemma_rfind_colons_at(s, j - 1, k);
    }
}

/// An injected surface answers to a bare name and to its `std::` spelling
/// alike: for a name that holds no `::` and does not start with `:`, both
/// spellings resolve to the same surface (or both to none).
pub proof fn law_injected_surface_dual_spelling(surfaces: Seq<PrimitiveSurface>, name: Seq<char>)
    requires
        forall|k: int| !crate::text::colons_at(name, k),
        name.len() == 0 || name[0] != ':',
    ensures
        injected_index(surfaces, "std::"@ + name) == injected_index(surfaces, name),
{
    reveal_strlit("std::");
    reveal_strlit("std");
    let q = "std::"@ + name;
    assert(crate::text::colons_at(q, 3));
    assert forall|m: int| 3 < m < q.len() implies !crate::text::colons_at(q, m) by {
        if m >= 5 && m + 1 < q.len() {
            assert(q[m] == name[m - 5]);
            assert(q[m + 1] == name[m - 4]);
            assert(!crate::text::colons_at(name, m - 5));
        } else if m == 4 && m + 1 < q.len() {
            assert(q[m + 1] == name[0]);
        }
    }
    lemma_rfind_colons_at(q, q.len() as int, 3);
    assert(q.take(3) =~= "std"@);
    assert(q.skip(5) =~= name);
    assert(crate::text::find_colons("std"@, 0) is None) by {
        assert(crate::text::find_colons("std"@, 2) is None);
        assert(!crate::text::colons_at("std"@, 1));
        assert(crate::text::find_colons("std"@, 1) is None);
        assert(!crate::text::colons_at("std"@, 0));
    }
    assert("std"@.skip(0) =~= "std"@);
    assert(split_colons("std"@) == seq!["std"@]);
    crate::text::lemma_rfind_colons(name, name.len() as int);
    assert(crate::text::rfind_colons(name, name.len() as int) is None) by {
        if crate::text::rfind_colons(name, name.len() as int) is Some {
            let k = crate::text::rfind_colons(name, name.len() as int)->Some_0;
            assert(crate::text::colons_at(name, k));
        }
    }
}

/// A registry holds what was inserted into it, in insertion order with
/// duplicates kept: starting from the empty registry of `default`, where
/// each `insert` appends its binding (the registries' views before and
/// after each of the `bs.len()` inserts are `states`), the last holds
/// exactly `bs`.
pub proof fn law_registry_holds_its_inserts(states: Seq<Seq<BindingView>>, bs: Seq<BindingView>)
    requires
        states.len() == bs.len() + 1,
        states[0] == Seq::<BindingView>::empty(),
        forall|k: int| 0 <= k < bs.len() ==> #[trigger] states[k + 1] == states[k].push(bs[k]),
    ensures
        states[bs.len() as int] == bs,
    decreases bs.len(),
{
    if bs.len() > 0 {
        let n = bs.len() - 1;
        law_registry_holds_its_inserts(states.take(n + 1), bs.take(n));
        assert(states.take(n + 1)[n] == states[n]);
        assert(states[n + 1] == states[n].push(bs[n]));
        assert(bs.take(n).push(bs[n]) =~= bs);
    } else {
        assert(bs =~= Seq::<BindingView>::empty());
    }
}

} // verus!
