//! Module-set front: the declared items of a file, import resolution and
//! visibility, and the extraction of root-inline modules. A file may bring an
//! item into local scope with `import geometry::Point` (or
//! `import geometry::{Point, area}`), or define a namespace inline with
//! `mod geometry { … }`. A non-`pub` item is importable only from inside its
//! own module, and a name may be bound only once per file.
//!
//! Files are read here through the part of their syntax these decisions
//! depend on: each top-level item is an inline module, an import, or a named
//! declaration with its visibility and kind.

use vstd::prelude::*;
use crate::support::{Span, Spanned};
use crate::strmap::StrMap;
use crate::diagnostic::{Diagnostic, DiagnosticCode, Diagnostics};
use crate::compiler::{duplicate_name, unknown_name, name_diagnostic, is_name_diagnostic, is_unsupported};
use crate::binding::{is_qualified_binding, qualified_builtin};
use crate::text::{owned, push_str, str_eq};
use crate::compiler::path_name;
use crate::signature::path_text;

verus! {

/// Whether a declared item is a function.
#[derive(Clone, Copy, Debug, PartialEq, Eq, Structural)]
pub enum DeclaredItemKind {
    Function,
    Other,
}

/// What imports need to know of a declared item.
#[derive(Clone, Copy, Debug, PartialEq, Eq, Structural)]
pub struct DeclaredItem {
    pub public: bool,
    pub kind: DeclaredItemKind,
}

/// An `import` item: `import m::name`, or `import m::{a, b}`.
#[derive(Clone, Debug, PartialEq)]
pub struct ImportItem {
    pub module: Spanned<String>,
    pub name: Option<Spanned<String>>,
    pub names: Option<Vec<Spanned<String>>>,
}

/// An inline module: `mod name { items }`.
#[derive(Debug, PartialEq)]
pub struct ModItem {
    pub name: Spanned<String>,
    pub span: Span,
    pub items: Vec<FileItem>,
}

/// One top-level item of a file.
#[derive(Debug, PartialEq)]
pub enum FileItem {
    Mod(ModItem),
    Import(ImportItem),
    /// A function, record, enumeration or command declaration; `generic`
    /// when it declares type parameters.
    Declared { name: Spanned<String>, public: bool, kind: DeclaredItemKind, generic: bool },
}

/// A parsed file: its span and its top-level items.
#[derive(Debug, PartialEq)]
pub struct SourceFile {
    pub span: Span,
    pub items: Vec<FileItem>,
}

// ---------------------------------------------------------------------------
// Declared items

/// The declarations among the first `n` items: each name with the
/// visibility and kind of its first declaration.
pub open spec fn declared_after(items: Seq<FileItem>, n: int) -> Map<Seq<char>, DeclaredItem>
    decreases n,
{
    if n <= 0 {
        Map::empty()
    } else {
        let m = declared_after(items, n - 1);
        match items[n - 1] {
            FileItem::Declared { name, public, kind, .. } => if m.contains_key(name.value@) {
                m
            } else {
                m.insert(name.value@, DeclaredItem { public, kind })
            },
            _ => m,
        }
    }
}

/// The declared (non-import, non-module) items of one file: name to
/// visibility and kind. A name declared twice keeps its first declaration.
pub fn declared_items(file: &SourceFile) -> (m: StrMap<DeclaredItem>)
    ensures
        m@ == declared_after(file.items@, file.items@.len() as int),
{
    let mut m: StrMap<DeclaredItem> = StrMap::new();
    let mut i: usize = 0;
    while i < file.items.len()
        invariant
            i <= file.items@.len(),
            m@ == declared_after(file.items@, i as int),
        decreases file.items@.len() - i,
    {
        match &file.items[i] {
            FileItem::Declared { name, public, kind, .. } => {
                if m.get_str(name.value.as_str()).is_none() {
                    m.insert(owned(name.value.as_str()), DeclaredItem { public: *public, kind: *kind });
                }
            },
            _ => {},
        }
        i = i + 1;
    }
    m
}

// ---------------------------------------------------------------------------
// Inline modules

/// The index of the first inline module among the first `n` items.
pub open spec fn first_mod(items: Seq<FileItem>, n: int) -> Option<int>
    decreases n,
{
    if n <= 0 {
        None
    } else {
        match first_mod(items, n - 1) {
            Some(i) => Some(i),
            None => if items[n - 1] is Mod { Some(n - 1) } else { None },
        }
    }
}

/// The first inline module of `items`, if any.
pub open spec fn first_mod_of(items: Seq<FileItem>) -> Option<int> {
    first_mod(items, items.len() as int)
}

/// `first_mod` finds a module, and no earlier one.
pub proof fn lemma_first_mod(items: Seq<FileItem>, n: int)
    requires
        0 <= n <= items.len(),
    ensures
        match first_mod(items, n) {
            Some(i) => 0 <= i < n && items[i] is Mod
                && forall|j: int| 0 <= j < i ==> !(#[trigger] items[j] is Mod),
            None => forall|j: int| 0 <= j < n ==> !(#[trigger] items[j] is Mod),
        },
    decreases n,
{
    if n > 0 {
        lemma_first_mod(items, n - 1);
    }
}

/// The first inline module among `items`.
pub fn first_inline_module(items: &[FileItem]) -> (r: Option<&ModItem>)
    ensures
        match first_mod_of(items@) {
            Some(i) => r matches Some(m) && items@[i] == FileItem::Mod(*m),
            None => r is None,
        },
{
    let mut i: usize = 0;
    while i < items.len()
        invariant
            i <= items@.len(),
            first_mod(items@, i as int) is None,
        decreases items@.len() - i,
    {
        match &items[i] {
            FileItem::Mod(module) => {
                proof {
                    lemma_first_mod_stays(items@, i as int + 1, items@.len() as int);
                }
                return Some(module);
            },
            _ => {},
        }
        i = i + 1;
    }
    None
}

/// Once a module is found, later items do not change which one.
proof fn lemma_first_mod_stays(items: Seq<FileItem>, n: int, m: int)
    requires
        0 <= n <= m,
        first_mod(items, n) is Some,
    ensures
        first_mod(items, m) == first_mod(items, n),
    decreases m - n,
{
    if m > n {
        lemma_first_mod_stays(items, n, m - 1);
    }
}

/// The span of an inline-module item.
pub open spec fn mod_span(item: FileItem) -> Span {
    match item {
        FileItem::Mod(m) => m.span,
        _ => Span { start: 0, end: 0 },
    }
}

/// Nested inline modules are not supported: refuses `items` if one of them
/// is a module, at the first such module.
pub fn reject_nested_module(items: &[FileItem]) -> (r: Result<(), Diagnostics>)
    ensures
        match first_mod_of(items@) {
            Some(i) => r matches Err(d) && is_unsupported(d, mod_span(items@[i]),
                "nested inline modules are not supported"@),
            None => r is Ok,
        },
{
    match first_inline_module(items) {
        None => Ok(()),
        Some(nested) => {
            let d = Diagnostics::one(Diagnostic::unsupported(nested.span, "nested inline modules are not supported"));
            Err(d)
        },
    }
}

// ---------------------------------------------------------------------------
// Imports

/// A leaf name with the span of its occurrence.
pub open spec fn leaf_view(s: Spanned<String>) -> (Seq<char>, Span) {
    (s.value@, s.span)
}

/// The leaves of a list of spanned names.
pub open spec fn leaf_views(v: Seq<Spanned<String>>) -> Seq<(Seq<char>, Span)> {
    v.map_values(|s: Spanned<String>| leaf_view(s))
}

/// The names one import brings into scope.
pub open spec fn leaves_of(import: ImportItem) -> Seq<(Seq<char>, Span)> {
    match import.name {
        Some(n) => seq![leaf_view(n)],
        None => match import.names {
            Some(ns) => leaf_views(ns@),
            None => seq![],
        },
    }
}

/// A copy of a spanned name.
fn copy_spanned(s: &Spanned<String>) -> (r: Spanned<String>)
    ensures
        leaf_view(r) == leaf_view(*s),
{
    Spanned { value: owned(s.value.as_str()), span: s.span }
}

/// The imported leaves of one `import` item, each with the span of its own
/// name occurrence.
pub fn import_leaves(import: &ImportItem) -> (r: Vec<Spanned<String>>)
    ensures
        leaf_views(r@) == leaves_of(*import),
{
    let mut out: Vec<Spanned<String>> = Vec::new();
    match &import.name {
        Some(name) => {
            out.push(copy_spanned(name));
            assert(leaf_views(out@) =~= leaves_of(*import));
        },
        None => match &import.names {
            Some(names) => {
                let mut i: usize = 0;
                while i < names.len()
                    invariant
                        i <= names@.len(),
                        leaf_views(out@) == leaf_views(names@).take(i as int),
                    decreases names@.len() - i,
                {
                    let c = copy_spanned(&names[i]);
                    let ghost before = out@;
                    out.push(c);
                    proof {
                        let lo = leaf_views(out@);
                        let ln = leaf_views(names@);
                        assert(out@ == before.push(c));
                        assert(leaf_views(before).len() == before.len());
                        assert(ln.take(i as int).len() == i);
                        assert(before.len() == i);
                        assert(lo.len() == i + 1);
                        assert(lo[i as int] == leaf_view(c));
                        assert(ln[i as int] == leaf_view(names@[i as int]));
                        assert forall|k: int| 0 <= k < i implies #[trigger] lo[k] == ln[k] by {
                            assert(out@[k] == before[k]);
                            assert(leaf_views(before)[k] == ln.take(i as int)[k]);
                        }
                        assert(lo =~= ln.take(i as int + 1));
                    }
                    i = i + 1;
                }
                assert(leaf_views(names@).take(names@.len() as int) =~= leaf_views(names@));
            },
            None => {
                assert(leaf_views(out@) =~= leaves_of(*import));
            },
        },
    }
    out
}

/// Why a file's imports do not resolve.
pub enum ImportFailure {
    /// An imported module, or a leaf that its module neither declares nor
    /// binds as a built-in, is unknown: the span and the name reported.
    Unknown(Span, Seq<char>),
    /// A non-`pub` item imported from another module: the leaf's span and
    /// the qualified name.
    Private(Span, Seq<char>),
    /// A name bound twice in one file, at its second binding.
    Duplicate(Span, Seq<char>),
}

/// The names bound so far in a file, and the import aliases: local name to
/// qualified name.
pub type ImportState = (Set<Seq<char>>, Map<Seq<char>, Seq<char>>);

/// `module::name`.
pub open spec fn qualified(module: Seq<char>, name: Seq<char>) -> Seq<char> {
    module + "::"@ + name
}

/// An optional string by its text.
pub open spec fn opt_text(o: Option<&str>) -> Option<Seq<char>> {
    match o {
        Some(s) => Some(s@),
        None => None,
    }
}

/// Aliases by their text.
pub open spec fn alias_texts(m: Map<Seq<char>, String>) -> Map<Seq<char>, Seq<char>> {
    m.map_values(|s: String| s@)
}

/// Importing `leaf` from `module`, whose declarations are `exports`, into a
/// file of module `own` (`None` for the root).
pub open spec fn leaf_step(own: Option<Seq<char>>, module: Seq<char>, exports: Map<Seq<char>, DeclaredItem>,
    leaf: (Seq<char>, Span), st: ImportState) -> Result<ImportState, ImportFailure>
{
    let name = leaf.0;
    let q = qualified(module, name);
    if !exports.contains_key(name) && !qualified_builtin(module, name) {
        Err(ImportFailure::Unknown(leaf.1, q))
    } else if own != Some(module) && exports.contains_key(name) && !exports[name].public {
        Err(ImportFailure::Private(leaf.1, q))
    } else if st.0.contains(name) {
        Err(ImportFailure::Duplicate(leaf.1, name))
    } else {
        Ok((st.0.insert(name), st.1.insert(name, q)))
    }
}

/// Importing the first `n` of `leaves` from `module`, from state `st`.
pub open spec fn leaves_after(own: Option<Seq<char>>, module: Seq<char>, exports: Map<Seq<char>, DeclaredItem>,
    leaves: Seq<(Seq<char>, Span)>, st: ImportState, n: int) -> Result<ImportState, ImportFailure>
    decreases n,
{
    if n <= 0 {
        Ok(st)
    } else {
        match leaves_after(own, module, exports, leaves, st, n - 1) {
            Ok(s) => leaf_step(own, module, exports, leaves[n - 1], s),
            Err(e) => Err(e),
        }
    }
}

/// One item of a file of module `own`, against the module set `set`.
pub open spec fn item_step(own: Option<Seq<char>>, set: Map<Seq<char>, StrMap<DeclaredItem>>, item: FileItem,
    st: ImportState) -> Result<ImportState, ImportFailure>
{
    match item {
        FileItem::Import(import) => {
            let module = import.module.value@;
            if !set.contains_key(module) {
                Err(ImportFailure::Unknown(import.module.span, module))
            } else {
                let ls = leaves_of(import);
                leaves_after(own, module, set[module]@, ls, st, ls.len() as int)
            }
        },
        FileItem::Declared { name, .. } => if st.0.contains(name.value@) {
            Err(ImportFailure::Duplicate(name.span, name.value@))
        } else {
            Ok((st.0.insert(name.value@), st.1))
        },
        FileItem::Mod(_) => Ok(st),
    }
}

/// The first `n` items of a file of module `own`, in source order.
pub open spec fn imports_after(own: Option<Seq<char>>, set: Map<Seq<char>, StrMap<DeclaredItem>>,
    items: Seq<FileItem>, n: int) -> Result<ImportState, ImportFailure>
    decreases n,
{
    if n <= 0 {
        Ok((Set::empty(), Map::empty()))
    } else {
        match imports_after(own, set, items, n - 1) {
            Ok(s) => item_step(own, set, items[n - 1], s),
            Err(e) => Err(e),
        }
    }
}

/// How a file's imports resolve: the final state, or the first failure.
pub open spec fn import_outcome(own: Option<Seq<char>>, set: Map<Seq<char>, StrMap<DeclaredItem>>,
    items: Seq<FileItem>) -> Result<ImportState, ImportFailure>
{
    imports_after(own, set, items, items.len() as int)
}

/// `d` is the diagnostic that reports `e`.
pub open spec fn reports_import(d: Diagnostics, e: ImportFailure) -> bool {
    match e {
        ImportFailure::Unknown(span, name) => is_name_diagnostic(d, DiagnosticCode::UnknownName, span, name),
        ImportFailure::Private(span, name) => is_name_diagnostic(d, DiagnosticCode::PrivateImport, span, name),
        ImportFailure::Duplicate(span, name) => is_name_diagnostic(d, DiagnosticCode::DuplicateDefinition, span, name),
    }
}

/// A failure among the first `n` leaves stays the outcome.
proof fn lemma_leaves_failed(own: Option<Seq<char>>, module: Seq<char>, exports: Map<Seq<char>, DeclaredItem>,
    leaves: Seq<(Seq<char>, Span)>, st: ImportState, n: int, m: int)
    requires
        0 <= n <= m,
        leaves_after(own, module, exports, leaves, st, n) is Err,
    ensures
        leaves_after(own, module, exports, leaves, st, m) == leaves_after(own, module, exports, leaves, st, n),
    decreases m - n,
{
    if m > n {
        lemma_leaves_failed(own, module, exports, leaves, st, n, m - 1);
    }
}

/// A failure among the first `n` items stays the outcome.
proof fn lemma_imports_failed(own: Option<Seq<char>>, set: Map<Seq<char>, StrMap<DeclaredItem>>,
    items: Seq<FileItem>, n: int, m: int)
    requires
        0 <= n <= m,
        imports_after(own, set, items, n) is Err,
    ensures
        imports_after(own, set, items, m) == imports_after(own, set, items, n),
    decreases m - n,
{
    if m > n {
        lemma_imports_failed(own, set, items, n, m - 1);
    }
}

/// A failure at leaf `n` of the import at item `i` is the file's outcome.
proof fn lemma_import_failure(own: Option<Seq<char>>, set: Map<Seq<char>, StrMap<DeclaredItem>>,
    items: Seq<FileItem>, i: int, import: ImportItem, st0: ImportState, n: int)
    requires
        0 <= i < items.len(),
        items[i] == FileItem::Import(import),
        imports_after(own, set, items, i) == Ok::<ImportState, ImportFailure>(st0),
        set.contains_key(import.module.value@),
        0 <= n <= leaves_of(import).len(),
        leaves_after(own, import.module.value@, set[import.module.value@]@, leaves_of(import), st0, n) is Err,
    ensures
        import_outcome(own, set, items)
            == leaves_after(own, import.module.value@, set[import.module.value@]@, leaves_of(import), st0, n),
{
    let module = import.module.value@;
    lemma_leaves_failed(own, module, set[module]@, leaves_of(import), st0, n, leaves_of(import).len() as int);
    lemma_imports_failed(own, set, items, i + 1, items.len() as int);
}

/// `module::name` as a string.
fn qualified_text(module: &str, name: &str) -> (s: String)
    ensures
        s@ == qualified(module@, name@),
{
    let mut s = owned(module);
    push_str(&mut s, "::");
    push_str(&mut s, name);
    s
}

/// Resolve one file's imports against the module set, in source order and
/// interleaved with the file's own declarations, so that a name bound twice
/// is reported at its second binding. `own_module` is the file's module
/// (`None` for the root); `set` maps each module to its declared items.
/// Returns the aliases: each imported name to `module::name`.
pub fn resolve_imports(own_module: Option<&str>, file: &SourceFile, set: &StrMap<StrMap<DeclaredItem>>)
    -> (r: Result<StrMap<String>, Diagnostics>)
    requires
        first_mod_of(file.items@) is None,
    ensures
        match import_outcome(opt_text(own_module), set@, file.items@) {
            Ok(st) => r matches Ok(a) && alias_texts(a@) == st.1,
            Err(e) => r matches Err(d) && reports_import(d, e),
        },
{
    let ghost own = opt_text(own_module);
    let ghost items = file.items@;
    let mut bound: StrMap<()> = StrMap::new();
    let mut aliases: StrMap<String> = StrMap::new();
    assert(alias_texts(aliases@) =~= Map::<Seq<char>, Seq<char>>::empty());
    assert(bound@.dom() =~= Set::<Seq<char>>::empty());
    let mut i: usize = 0;
    while i < file.items.len()
        invariant
            i <= items.len(),
            items == file.items@,
            own == opt_text(own_module),
            first_mod_of(items) is None,
            imports_after(own, set@, items, i as int) == Ok::<ImportState, ImportFailure>((bound@.dom(), alias_texts(aliases@))),
        decreases items.len() - i,
    {
        match &file.items[i] {
            FileItem::Mod(_) => {
                proof { lemma_first_mod(items, items.len() as int); }
                assert(items[i as int] is Mod);
                assert(false);
            },
            FileItem::Declared { name, .. } => {
                if bound.get_str(name.value.as_str()).is_some() {
                    proof { lemma_imports_failed(own, set@, items, i as int + 1, items.len() as int); }
                    return Err(duplicate_name(name.span, name.value.as_str()));
                }
                bound.insert(owned(name.value.as_str()), ());
                proof {
                    assert(bound@.dom() =~= imports_after(own, set@, items, i as int)->Ok_0.0.insert(name.value@));
                }
            },
            FileItem::Import(import) => {
                let module = import.module.value.as_str();
                let exports = match set.get_str(module) {
                    Some(e) => e,
                    None => {
                        proof { lemma_imports_failed(own, set@, items, i as int + 1, items.len() as int); }
                        return Err(unknown_name(import.module.span, module));
                    },
                };
                let other = match own_module {
                    Some(o) => !str_eq(o, module),
                    None => true,
                };
                assert(other == (own != Some(module@)));
                let leaves = import_leaves(import);
                let ghost ls = leaf_views(leaves@);
                let ghost st0: ImportState = (bound@.dom(), alias_texts(aliases@));
                assert(leaves_after(own, module@, exports@, ls, st0, 0) == Ok::<ImportState, ImportFailure>(st0));
                let mut j: usize = 0;
                while j < leaves.len()
                    invariant
                        j <= leaves@.len(),
                        ls == leaf_views(leaves@),
                        other == (own != Some(module@)),
                        i < items.len(),
                        items == file.items@,
                        own == opt_text(own_module),
                        items[i as int] == FileItem::Import(*import),
                        imports_after(own, set@, items, i as int) == Ok::<ImportState, ImportFailure>(st0),
                        set@.contains_key(module@),
                        exports@ == set@[module@]@,
                        module@ == import.module.value@,
                        ls == leaves_of(*import),
                        leaves_after(own, module@, exports@, ls, st0, j as int)
                            == Ok::<ImportState, ImportFailure>((bound@.dom(), alias_texts(aliases@))),
                    decreases leaves@.len() - j,
                {
                    let leaf = &leaves[j];
                    let name = leaf.value.as_str();
                    assert(ls[j as int] == (name@, leaf.span));
                    let declared = exports.get_str(name);
                    if declared.is_none() && !is_qualified_binding(module, name) {
                        let q = qualified_text(module, name);
                        proof { lemma_import_failure(own, set@, items, i as int, *import, st0, j as int + 1); }
                        return Err(unknown_name(leaf.span, q.as_str()));
                    }
                    let private = match declared {
                        Some(d) => !d.public,
                        None => false,
                    };
                    if other && private {
                        let q = qualified_text(module, name);
                        proof { lemma_import_failure(own, set@, items, i as int, *import, st0, j as int + 1); }
                        return Err(name_diagnostic(DiagnosticCode::PrivateImport, leaf.span, q.as_str()));
                    }
                    if bound.get_str(name).is_some() {
                        proof { lemma_import_failure(own, set@, items, i as int, *import, st0, j as int + 1); }
                        return Err(duplicate_name(leaf.span, name));
                    }
                    let ghost prev_aliases = aliases@;
                    bound.insert(owned(name), ());
                    let q = qualified_text(module, name);
                    aliases.insert(owned(name), q);
                    proof {
                        let s = leaves_after(own, module@, exports@, ls, st0, j as int)->Ok_0;
                        assert(bound@.dom() =~= s.0.insert(name@));
                        assert(alias_texts(aliases@) =~= s.1.insert(name@, qualified(module@, name@)));
                    }
                    j = j + 1;
                }
                assert(item_step(own, set@, items[i as int], st0) == leaves_after(own, module@, exports@, ls, st0, ls.len() as int));
            },
        }
        i = i + 1;
    }
    Ok(aliases)
}

/// `target` is `k` imported from module `m` of `set` into a file of module
/// `own`: `m` declares `k` or binds it as a built-in, and a declared `k` is
/// `pub` unless the file is `m` itself.
pub open spec fn imported_from(own: Option<Seq<char>>, set: Map<Seq<char>, StrMap<DeclaredItem>>,
    k: Seq<char>, target: Seq<char>, m: Seq<char>) -> bool
{
    &&& target == qualified(m, k)
    &&& set.contains_key(m)
    &&& (set[m]@.contains_key(k) || qualified_builtin(m, k))
    &&& (set[m]@.contains_key(k) && own != Some(m) ==> set[m]@[k].public)
}

/// The name a declaration item binds.
pub open spec fn declared_name(item: FileItem) -> Option<Seq<char>> {
    match item {
        FileItem::Declared { name, .. } => Some(name.value@),
        _ => None,
    }
}

/// Every alias is bound and imported from some module it may come from.
pub open spec fn aliases_sound(own: Option<Seq<char>>, set: Map<Seq<char>, StrMap<DeclaredItem>>, st: ImportState) -> bool {
    forall|k: Seq<char>| #[trigger] st.1.contains_key(k) ==>
        st.0.contains(k) && exists|m: Seq<char>| #[trigger] imported_from(own, set, k, st.1[k], m)
}

/// The names declared among the first `n` items are bound and not aliases.
pub open spec fn declarations_kept(items: Seq<FileItem>, n: int, st: ImportState) -> bool {
    forall|j: int| 0 <= j < n && #[trigger] declared_name(items[j]) is Some ==>
        st.0.contains(declared_name(items[j])->0) && !st.1.contains_key(declared_name(items[j])->0)
}

/// Importing leaves keeps both properties.
proof fn lemma_leaves_sound(own: Option<Seq<char>>, module: Seq<char>, set: Map<Seq<char>, StrMap<DeclaredItem>>,
    leaves: Seq<(Seq<char>, Span)>, st: ImportState, items: Seq<FileItem>, n_items: int, n: int)
    requires
        set.contains_key(module),
        aliases_sound(own, set, st),
        declarations_kept(items, n_items, st),
    ensures
        leaves_after(own, module, set[module]@, leaves, st, n) matches Ok(s) ==>
            aliases_sound(own, set, s) && declarations_kept(items, n_items, s),
    decreases n,
{
    if n > 0 {
        lemma_leaves_sound(own, module, set, leaves, st, items, n_items, n - 1);
        match leaves_after(own, module, set[module]@, leaves, st, n - 1) {
            Ok(s) => {
                let name = leaves[n - 1].0;
                let q = qualified(module, name);
                match leaf_step(own, module, set[module]@, leaves[n - 1], s) {
                    Ok(s2) => {
                        assert(s2 == (s.0.insert(name), s.1.insert(name, q)));
                        assert(imported_from(own, set, name, q, module));
                        assert forall|k: Seq<char>| #[trigger] s2.1.contains_key(k) implies
                            s2.0.contains(k) && exists|m: Seq<char>| #[trigger] imported_from(own, set, k, s2.1[k], m) by {
                            if k != name {
                                assert(s.1.contains_key(k));
                                let m = choose|m: Seq<char>| imported_from(own, set, k, s.1[k], m);
                                assert(imported_from(own, set, k, s2.1[k], m));
                            } else {
                                assert(s2.1[k] == q);
                                assert(imported_from(own, set, k, s2.1[k], module));
                            }
                        }
                        assert forall|j: int| 0 <= j < n_items && #[trigger] declared_name(items[j]) is Some implies
                            s2.0.contains(declared_name(items[j])->0) && !s2.1.contains_key(declared_name(items[j])->0) by {
                            assert(s.0.contains(declared_name(items[j])->0));
                        }
                    },
                    Err(_) => {},
                }
            },
            Err(_) => {},
        }
    }
}

/// Both properties hold after every prefix of a file that resolves.
proof fn lemma_imports_sound(own: Option<Seq<char>>, set: Map<Seq<char>, StrMap<DeclaredItem>>,
    items: Seq<FileItem>, n: int)
    requires
        0 <= n <= items.len(),
    ensures
        imports_after(own, set, items, n) matches Ok(s) ==>
            aliases_sound(own, set, s) && declarations_kept(items, n, s),
    decreases n,
{
    if n > 0 {
        lemma_imports_sound(own, set, items, n - 1);
        match imports_after(own, set, items, n - 1) {
            Ok(s) => {
                match items[n - 1] {
                    FileItem::Import(import) => {
                        let module = import.module.value@;
                        if set.contains_key(module) {
                            let ls = leaves_of(import);
                            lemma_leaves_sound(own, module, set, ls, s, items, n - 1, ls.len() as int);
                        }
                    },
                    FileItem::Declared { name, .. } => {
                        if !s.0.contains(name.value@) {
                            let s2 = (s.0.insert(name.value@), s.1);
                            assert(!s.1.contains_key(name.value@));
                            assert forall|k: Seq<char>| #[trigger] s2.1.contains_key(k) implies
                                s2.0.contains(k) && exists|m: Seq<char>| #[trigger] imported_from(own, set, k, s2.1[k], m) by {
                                assert(s.1.contains_key(k));
                            }
                        }
                    },
                    FileItem::Mod(_) => {},
                }
            },
            Err(_) => {},
        }
    }
}

/// A non-`pub` item is not importable from another module: when a file's
/// imports resolve, each alias `k` is `m::k` for a module `m` of the set that
/// declares `k` (`pub`, unless the file is `m` itself) or binds it as a
/// built-in.
pub proof fn law_private_items_stay_private(own: Option<Seq<char>>, set: Map<Seq<char>, StrMap<DeclaredItem>>,
    items: Seq<FileItem>)
    ensures
        import_outcome(own, set, items) matches Ok(st) ==> forall|k: Seq<char>| #[trigger] st.1.contains_key(k) ==>
            exists|m: Seq<char>| #[trigger] imported_from(own, set, k, st.1[k], m),
{
    lemma_imports_sound(own, set, items, items.len() as int);
}

/// A local declaration may not rebind an imported name: when a file's
/// imports resolve, no name the file declares is an import alias.
pub proof fn law_declarations_do_not_rebind_imports(own: Option<Seq<char>>,
    set: Map<Seq<char>, StrMap<DeclaredItem>>, items: Seq<FileItem>)
    ensures
        import_outcome(own, set, items) matches Ok(st) ==> forall|j: int|
            0 <= j < items.len() && #[trigger] declared_name(items[j]) is Some
                ==> !st.1.contains_key(declared_name(items[j])->0),
{
    lemma_imports_sound(own, set, items, items.len() as int);
}

// ---------------------------------------------------------------------------
// Reference rewriting

/// A type path as written: its span and segments.
#[derive(Clone, Debug, PartialEq)]
pub struct TypePath {
    pub span: Span,
    pub segments: Vec<Spanned<String>>,
}

/// The type part of a variant path: an optional module qualifier and the
/// type's name.
#[derive(Clone, Debug, PartialEq)]
pub struct VariantPath {
    pub module: Option<Spanned<String>>,
    pub named_type: Spanned<String>,
}

/// The scope-aware reference rewriter of one file: every free occurrence of
/// a name in `renames` is rewritten to its fully qualified spelling, while
/// lexically bound occurrences are left alone. Qualified `module::item`
/// spellings resolve against the module set; private items stay
/// inaccessible through qualified paths as through imports.
pub struct Rewriter<'a> {
    pub renames: &'a StrMap<String>,
    pub available_modules: &'a StrMap<()>,
    pub module_set: &'a StrMap<StrMap<DeclaredItem>>,
    pub own_module: Option<&'a str>,
    pub scopes: Vec<StrMap<()>>,
}

/// The names each scope binds, innermost last.
pub open spec fn scope_sets(scopes: Seq<StrMap<()>>) -> Seq<Set<Seq<char>>> {
    scopes.map_values(|m: StrMap<()>| m@.dom())
}

/// Some scope binds `name`.
pub open spec fn bound_in(scopes: Seq<StrMap<()>>, name: Seq<char>) -> bool {
    exists|i: int| 0 <= i < scopes.len() && (#[trigger] scopes[i])@.contains_key(name)
}

/// How `module::item` resolves against the module set, from a file of
/// module `own`: its qualified spelling, or why not.
pub open spec fn qualified_outcome(set: Map<Seq<char>, StrMap<DeclaredItem>>, own: Option<Seq<char>>,
    module: Spanned<String>, item: Spanned<String>) -> Result<Seq<char>, ImportFailure>
{
    let m = module.value@;
    let i = item.value@;
    let full = qualified(m, i);
    let declared = set.contains_key(m) && set[m]@.contains_key(i);
    if !declared && qualified_builtin(m, i) {
        Ok(full)
    } else if !declared {
        Err(ImportFailure::Unknown(item.span, full))
    } else if !set[m]@[i].public && own != Some(m) {
        Err(ImportFailure::Private(item.span, full))
    } else {
        Ok(full)
    }
}

/// `module::item` names a function of the module set.
pub open spec fn names_function(set: Map<Seq<char>, StrMap<DeclaredItem>>, module: Seq<char>, item: Seq<char>) -> bool {
    set.contains_key(module) && set[module]@.contains_key(item)
        && set[module]@[item].kind == DeclaredItemKind::Function
}

impl<'a> Rewriter<'a> {
    /// The module of the file being rewritten, by its text.
    pub open spec fn own(&self) -> Option<Seq<char>> {
        opt_text(self.own_module)
    }

    /// The fully qualified spelling of `module::item`: unknown unless the
    /// module declares the item or binds it as a built-in, and private
    /// unless the item is `pub` or the file is that module.
    pub fn qualified_name(&self, module: &Spanned<String>, item: &Spanned<String>) -> (r: Result<String, Diagnostics>)
        ensures
            match qualified_outcome(self.module_set@, self.own(), *module, *item) {
                Ok(q) => r matches Ok(s) && s@ == q,
                Err(e) => r matches Err(d) && reports_import(d, e),
            },
    {
        let m = module.value.as_str();
        let i = item.value.as_str();
        let full = qualified_text(m, i);
        let declared = match self.module_set.get_str(m) {
            Some(items) => items.get_str(i),
            None => None,
        };
        match declared {
            None => {
                if is_qualified_binding(m, i) {
                    Ok(full)
                } else {
                    Err(unknown_name(item.span, full.as_str()))
                }
            },
            Some(d) => {
                let own = match self.own_module {
                    Some(o) => str_eq(o, m),
                    None => false,
                };
                if !d.public && !own {
                    Err(name_diagnostic(DiagnosticCode::PrivateImport, item.span, full.as_str()))
                } else {
                    Ok(full)
                }
            },
        }
    }

    /// The qualified spelling of `module::item` if it names a function of
    /// the module set, and `None` if it does not.
    pub fn qualified_function_name(&self, module: &Spanned<String>, item: &Spanned<String>)
        -> (r: Result<Option<String>, Diagnostics>)
        ensures
            !names_function(self.module_set@, module.value@, item.value@) ==> r == Ok::<Option<String>, Diagnostics>(None),
            names_function(self.module_set@, module.value@, item.value@) ==>
                match qualified_outcome(self.module_set@, self.own(), *module, *item) {
                    Ok(q) => r matches Ok(Some(s)) && s@ == q,
                    Err(e) => r matches Err(d) && reports_import(d, e),
                },
    {
        let is_function = match self.module_set.get_str(module.value.as_str()) {
            Some(items) => match items.get_str(item.value.as_str()) {
                Some(d) => d.kind == DeclaredItemKind::Function,
                None => false,
            },
            None => false,
        };
        if !is_function {
            return Ok(None);
        }
        match self.qualified_name(module, item) {
            Ok(q) => Ok(Some(q)),
            Err(d) => Err(d),
        }
    }

    /// Some enclosing scope binds `name`.
    pub fn in_scope(&self, name: &str) -> (r: bool)
        ensures
            r == bound_in(self.scopes@, name@),
    {
        let mut i: usize = 0;
        while i < self.scopes.len()
            invariant
                i <= self.scopes@.len(),
                forall|j: int| 0 <= j < i ==> !(#[trigger] self.scopes@[j])@.contains_key(name@),
            decreases self.scopes@.len() - i,
        {
            if self.scopes[i].get_str(name).is_some() {
                return true;
            }
            i = i + 1;
        }
        false
    }

    /// Bind `name` in the innermost scope.
    pub fn bind(&mut self, name: &Spanned<String>)
        requires
            old(self).scopes@.len() > 0,
        ensures
            final(self).renames == old(self).renames,
            final(self).available_modules == old(self).available_modules,
            final(self).module_set == old(self).module_set,
            final(self).own_module == old(self).own_module,
            final(self).scopes@.len() == old(self).scopes@.len(),
            forall|j: int| 0 <= j < old(self).scopes@.len() - 1 ==> final(self).scopes@[j] == old(self).scopes@[j],
            final(self).scopes@.last()@ == old(self).scopes@.last()@.insert(name.value@, ()),
    {
        let mut innermost = self.scopes.pop().unwrap();
        innermost.insert(owned(name.value.as_str()), ());
        self.scopes.push(innermost);
    }

    /// Rewrite one free name occurrence in place: a name no scope binds, and
    /// that `renames` renames, takes its qualified spelling.
    pub fn reference(&mut self, name: &mut Spanned<String>)
        ensures
            *final(self) == *old(self),
            final(name).span == old(name).span,
            !bound_in(old(self).scopes@, old(name).value@) && old(self).renames@.contains_key(old(name).value@)
                ==> final(name).value == old(self).renames@[old(name).value@],
            bound_in(old(self).scopes@, old(name).value@) || !old(self).renames@.contains_key(old(name).value@)
                ==> final(name).value == old(name).value,
    {
        if self.in_scope(name.value.as_str()) {
            return;
        }
        match self.renames.get_str(name.value.as_str()) {
            Some(qualified) => {
                name.value = qualified.clone();
            },
            None => {},
        }
    }

    /// Rewrite a type path: a `module::Item` spelling (the first segment
    /// naming a module of the set) becomes its one-segment qualified name; a
    /// free one-segment name is renamed; any other path is left alone.
    pub fn type_path(&mut self, path: &mut TypePath) -> (r: Result<(), Diagnostics>)
        ensures
            *final(self) == *old(self),
            ({
                let segs = old(path).segments@;
                if segs.len() >= 2 && old(self).available_modules@.contains_key(segs[0].value@) {
                    if segs.len() != 2 {
                        r matches Err(d) && is_name_diagnostic(d, DiagnosticCode::UnknownName, old(path).span, path_text(segs))
                            && *final(path) == *old(path)
                    } else {
                        match qualified_outcome(old(self).module_set@, old(self).own(), segs[0], segs[1]) {
                            Ok(q) => r is Ok && final(path).span == old(path).span
                                && leaf_views(final(path).segments@) == seq![(q, old(path).span)],
                            Err(e) => r matches Err(d) && reports_import(d, e) && *final(path) == *old(path),
                        }
                    }
                } else if segs.len() == 1 && !bound_in(old(self).scopes@, segs[0].value@)
                    && old(self).renames@.contains_key(segs[0].value@) {
                    r is Ok && final(path).span == old(path).span && final(path).segments@.len() == 1
                        && final(path).segments@[0].span == segs[0].span
                        && final(path).segments@[0].value == old(self).renames@[segs[0].value@]
                } else {
                    r is Ok && *final(path) == *old(path)
                }
            }),
    {
        if path.segments.len() >= 2 && self.available_modules.get_str(path.segments[0].value.as_str()).is_some() {
            if path.segments.len() != 2 {
                let full = path_name(path.segments.as_slice());
                return Err(unknown_name(path.span, full.as_str()));
            }
            let qualified = match self.qualified_name(&path.segments[0], &path.segments[1]) {
                Ok(q) => q,
                Err(d) => return Err(d),
            };
            let mut segments: Vec<Spanned<String>> = Vec::new();
            segments.push(Spanned { span: path.span, value: qualified });
            path.segments = segments;
            assert(leaf_views(path.segments@) =~= seq![(qualified@, path.span)]);
            return Ok(());
        }
        if path.segments.len() == 1 && !self.in_scope(path.segments[0].value.as_str()) {
            match self.renames.get_str(path.segments[0].value.as_str()) {
                Some(qualified) => {
                    let span = path.segments[0].span;
                    path.segments.set(0, Spanned { value: qualified.clone(), span });
                },
                None => {},
            }
        }
        Ok(())
    }

    /// Rewrite the type part of a variant path: a module-qualified type takes
    /// its qualified name (the qualifier is consumed); an unqualified one is
    /// rewritten as a reference.
    pub fn variant_path(&mut self, path: &mut VariantPath) -> (r: Result<(), Diagnostics>)
        ensures
            *final(self) == *old(self),
            match old(path).module {
                Some(module) => final(path).module is None && match qualified_outcome(old(self).module_set@,
                    old(self).own(), module, old(path).named_type) {
                    Ok(q) => r is Ok && final(path).named_type.value@ == q
                        && final(path).named_type.span == old(path).named_type.span,
                    Err(e) => r matches Err(d) && reports_import(d, e) && final(path).named_type == old(path).named_type,
                },
                None => r is Ok && final(path).module is None && final(path).named_type.span == old(path).named_type.span
                    && (!bound_in(old(self).scopes@, old(path).named_type.value@)
                        && old(self).renames@.contains_key(old(path).named_type.value@)
                        ==> final(path).named_type.value == old(self).renames@[old(path).named_type.value@])
                    && (bound_in(old(self).scopes@, old(path).named_type.value@)
                        || !old(self).renames@.contains_key(old(path).named_type.value@)
                        ==> final(path).named_type.value == old(path).named_type.value),
            },
    {
        match path.module.take() {
            Some(module) => {
                match self.qualified_name(&module, &path.named_type) {
                    Ok(q) => {
                        path.named_type.value = q;
                        Ok(())
                    },
                    Err(d) => Err(d),
                }
            },
            None => {
                self.reference(&mut path.named_type);
                Ok(())
            },
        }
    }
}

// ---------------------------------------------------------------------------
// Root-inline modules

/// Why root-inline modules cannot be extracted.
pub enum ExtractFailure {
    /// A module name already taken: the name's span and text.
    Duplicate(Span, Seq<char>),
    /// An inline module nested in another, at its span.
    Nested(Span),
}

/// The module names taken, and either the items kept with the modules
/// extracted so far (each by name, as a file), or the failure.
pub type ExtractState = (Set<Seq<char>>, Result<(Seq<FileItem>, Seq<(Seq<char>, SourceFile)>), ExtractFailure>);

/// Extracting from the first `n` items, with `names` taken before.
pub open spec fn extract_after(items: Seq<FileItem>, names: Set<Seq<char>>, n: int) -> ExtractState
    decreases n,
{
    if n <= 0 {
        (names, Ok((seq![], seq![])))
    } else {
        let (taken, acc) = extract_after(items, names, n - 1);
        match acc {
            Err(e) => (taken, Err(e)),
            Ok((kept, found)) => match items[n - 1] {
                FileItem::Mod(m) => if taken.contains(m.name.value@) {
                    (taken, Err(ExtractFailure::Duplicate(m.name.span, m.name.value@)))
                } else {
                    match first_mod_of(m.items@) {
                        Some(k) => (taken.insert(m.name.value@), Err(ExtractFailure::Nested(mod_span(m.items@[k])))),
                        None => (taken.insert(m.name.value@),
                            Ok((kept, found.push((m.name.value@, SourceFile { span: m.span, items: m.items }))))),
                    }
                },
                _ => (taken, Ok((kept.push(items[n - 1]), found))),
            },
        }
    }
}

/// Extracted modules by name.
pub open spec fn extracted_view(v: Seq<(String, SourceFile)>) -> Seq<(Seq<char>, SourceFile)> {
    v.map_values(|e: (String, SourceFile)| (e.0@, e.1))
}

/// `d` is the diagnostic that reports `e`.
pub open spec fn reports_extract(d: Diagnostics, e: ExtractFailure) -> bool {
    match e {
        ExtractFailure::Duplicate(span, name) => is_name_diagnostic(d, DiagnosticCode::DuplicateDefinition, span, name),
        ExtractFailure::Nested(span) => is_unsupported(d, span, "nested inline modules are not supported"@),
    }
}

/// A failure among the first `n` items stays the outcome.
proof fn lemma_extract_failed(items: Seq<FileItem>, names: Set<Seq<char>>, n: int, m: int)
    requires
        0 <= n <= m,
        extract_after(items, names, n).1 is Err,
    ensures
        extract_after(items, names, m) == extract_after(items, names, n),
    decreases m - n,
{
    if m > n {
        lemma_extract_failed(items, names, n, m - 1);
    }
}

/// Remove the root-inline module items of `file` and return them as named
/// files, recording each name in `module_names`. A module name already
/// taken is a duplicate; a module nested in an inline module is refused.
pub fn extract_inline_modules(file: SourceFile, module_names: &mut StrMap<()>)
    -> (r: Result<(SourceFile, Vec<(String, SourceFile)>), Diagnostics>)
    ensures
        ({
            let (taken, out) = extract_after(file.items@, old(module_names)@.dom(), file.items@.len() as int);
            &&& final(module_names)@.dom() == taken
            &&& match out {
                Ok((kept, found)) => r matches Ok((f, ex))
                    && f.span == file.span && f.items@ == kept && extracted_view(ex@) == found,
                Err(e) => r matches Err(d) && reports_extract(d, e),
            }
        }),
{
    let ghost items = file.items@;
    let ghost names0 = module_names@.dom();
    let span = file.span;
    let mut rest = file.items;
    let mut retained: Vec<FileItem> = Vec::new();
    let mut extracted: Vec<(String, SourceFile)> = Vec::new();
    let ghost mut i: int = 0;
    assert(rest@ == items.skip(0));
    assert(extracted_view(extracted@) =~= Seq::<(Seq<char>, SourceFile)>::empty());
    while rest.len() > 0
        invariant
            0 <= i <= items.len(),
            items == file.items@,
            names0 == old(module_names)@.dom(),
            rest@ == items.skip(i),
            extract_after(items, names0, i) == ((module_names@.dom(),
                Ok::<(Seq<FileItem>, Seq<(Seq<char>, SourceFile)>), ExtractFailure>((retained@, extracted_view(extracted@))))),
        decreases rest@.len(),
    {
        let item = rest.remove(0);
        assert(item == items[i]);
        match item {
            FileItem::Mod(module) => {
                let ModItem { name, span: mspan, items: mitems } = module;
                if module_names.get_str(name.value.as_str()).is_some() {
                    proof { lemma_extract_failed(items, names0, i + 1, items.len() as int); }
                    return Err(duplicate_name(name.span, name.value.as_str()));
                }
                module_names.insert(owned(name.value.as_str()), ());
                let ghost taken = extract_after(items, names0, i).0;
                assert(module_names@.dom() =~= taken.insert(name.value@));
                match reject_nested_module(mitems.as_slice()) {
                    Err(d) => {
                        proof { lemma_extract_failed(items, names0, i + 1, items.len() as int); }
                        return Err(d);
                    },
                    Ok(()) => {},
                }
                let ghost before = extracted@;
                let nested_file = SourceFile { span: mspan, items: mitems };
                extracted.push((name.value, nested_file));
                proof {
                    assert(extracted_view(extracted@) =~= extracted_view(before).push((name.value@, nested_file)));
                }
            },
            other => {
                retained.push(other);
            },
        }
        proof {
            i = i + 1;
            assert(rest@ =~= items.skip(i));
        }
    }
    proof {
        assert(i == items.len()) by {
            if i < items.len() {
                assert(items.skip(i).len() > 0);
            }
        }
    }
    Ok((SourceFile { span, items: retained }, extracted))
}

} // verus!
