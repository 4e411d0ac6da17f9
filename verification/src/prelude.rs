//! Prelude injection: the embedder's prelude sources are merged into a
//! compilation as ordinary top-level items. Injection is if-absent: a program
//! that declares an item with the same name and the same generic-ness shadows
//! the supplied one, so a receiver-typed concrete method can coexist with a
//! generic prelude combinator of the same name, while a program that redefines
//! a combinator shadows the prelude's.

use vstd::prelude::*;
use crate::strmap::StrMap;
use crate::modules::{DeclaredItemKind, FileItem, SourceFile};
use crate::text::owned;

verus! {

/// The name an item declares, if it is a declaration.
pub open spec fn item_name_of(item: FileItem) -> Option<Seq<char>> {
    match item {
        FileItem::Declared { name, .. } => Some(name.value@),
        _ => None,
    }
}

/// The key a prelude item is shadowed by: its name, and whether it is a
/// generic function.
pub open spec fn shadow_key(item: FileItem) -> Option<(Seq<char>, bool)> {
    match item {
        FileItem::Declared { name, kind, generic, .. } => Some((name.value@, kind == DeclaredItemKind::Function && generic)),
        _ => None,
    }
}

/// The name an item declares, if it is a declaration.
pub fn item_name(item: &FileItem) -> (r: Option<&str>)
    ensures
        match item_name_of(*item) {
            Some(n) => r matches Some(s) && s@ == n,
            None => r is None,
        },
{
    match item {
        FileItem::Declared { name, .. } => Some(name.value.as_str()),
        _ => None,
    }
}

/// The shadowing key of an item.
pub fn item_shadow_key(item: &FileItem) -> (r: Option<(&str, bool)>)
    ensures
        match shadow_key(*item) {
            Some((n, g)) => r matches Some((s, h)) && s@ == n && h == g,
            None => r is None,
        },
{
    let generic = match item {
        FileItem::Declared { kind, generic, .. } => *kind == DeclaredItemKind::Function && *generic,
        _ => false,
    };
    match item_name(item) {
        Some(name) => Some((name, generic)),
        None => None,
    }
}

/// The keys the first `n` items declare.
pub open spec fn keys_after(items: Seq<FileItem>, n: int) -> Set<(Seq<char>, bool)>
    decreases n,
{
    if n <= 0 {
        Set::empty()
    } else {
        match shadow_key(items[n - 1]) {
            Some(k) => keys_after(items, n - 1).insert(k),
            None => keys_after(items, n - 1),
        }
    }
}

/// The keys a list of items declares.
pub open spec fn declared_keys(items: Seq<FileItem>) -> Set<(Seq<char>, bool)> {
    keys_after(items, items.len() as int)
}

/// The items of `items` that `declared` does not shadow, in order.
pub open spec fn unshadowed(items: Seq<FileItem>, declared: Set<(Seq<char>, bool)>) -> Seq<FileItem>
    decreases items.len(),
{
    if items.len() == 0 {
        seq![]
    } else {
        let rest = unshadowed(items.drop_last(), declared);
        match shadow_key(items.last()) {
            Some(k) => if declared.contains(k) { rest } else { rest.push(items.last()) },
            None => rest.push(items.last()),
        }
    }
}

/// The items of the first `n` prelude sources that `declared` does not
/// shadow, source by source.
pub open spec fn injected(sources: Seq<SourceFile>, declared: Set<(Seq<char>, bool)>, n: int) -> Seq<FileItem>
    decreases n,
{
    if n <= 0 {
        seq![]
    } else {
        injected(sources, declared, n - 1) + unshadowed(sources[n - 1].items@, declared)
    }
}

/// No key of an item that `declared` would shadow.
pub open spec fn not_shadowed(item: FileItem, declared: Set<(Seq<char>, bool)>) -> bool {
    match shadow_key(item) {
        Some(k) => !declared.contains(k),
        None => true,
    }
}

/// Every item `unshadowed` keeps is not shadowed.
proof fn lemma_unshadowed(items: Seq<FileItem>, declared: Set<(Seq<char>, bool)>)
    ensures
        forall|j: int| 0 <= j < unshadowed(items, declared).len() ==>
            not_shadowed(#[trigger] unshadowed(items, declared)[j], declared),
    decreases items.len(),
{
    if items.len() > 0 {
        lemma_unshadowed(items.drop_last(), declared);
        let rest = unshadowed(items.drop_last(), declared);
        let u = unshadowed(items, declared);
        assert forall|j: int| 0 <= j < u.len() implies not_shadowed(#[trigger] u[j], declared) by {
            if j < rest.len() {
                assert(u[j] == rest[j]);
            } else {
                assert(u[j] == items.last());
            }
        }
    }
}

/// Every injected item is not shadowed.
proof fn lemma_injected(sources: Seq<SourceFile>, declared: Set<(Seq<char>, bool)>, n: int)
    ensures
        forall|j: int| 0 <= j < injected(sources, declared, n).len() ==>
            not_shadowed(#[trigger] injected(sources, declared, n)[j], declared),
    decreases n,
{
    if n > 0 {
        lemma_injected(sources, declared, n - 1);
        lemma_unshadowed(sources[n - 1].items@, declared);
        let a = injected(sources, declared, n - 1);
        let b = unshadowed(sources[n - 1].items@, declared);
        assert forall|j: int| 0 <= j < (a + b).len() implies not_shadowed(#[trigger] (a + b)[j], declared) by {
            if j < a.len() {
                assert((a + b)[j] == a[j]);
            } else {
                assert((a + b)[j] == b[j - a.len()]);
            }
        }
    }
}

/// Injection is if-absent: no item merged in from the prelude has the name
/// and generic-ness of an item the program declares.
pub proof fn law_program_shadows_prelude(sources: Seq<SourceFile>, program: Seq<FileItem>)
    ensures
        forall|j: int| 0 <= j < injected(sources, declared_keys(program), sources.len() as int).len() ==>
            not_shadowed(#[trigger] injected(sources, declared_keys(program), sources.len() as int)[j],
                declared_keys(program)),
{
    lemma_injected(sources, declared_keys(program), sources.len() as int);
}

/// The declared keys, kept as two name sets: plain and generic.
fn declared_key_sets(items: &Vec<FileItem>) -> (r: (StrMap<()>, StrMap<()>))
    ensures
        forall|n: Seq<char>, g: bool| #[trigger] declared_keys(items@).contains((n, g)) <==>
            (if g { r.1@.contains_key(n) } else { r.0@.contains_key(n) }),
{
    let mut plain: StrMap<()> = StrMap::new();
    let mut generic: StrMap<()> = StrMap::new();
    let mut i: usize = 0;
    while i < items.len()
        invariant
            i <= items@.len(),
            forall|n: Seq<char>, g: bool| #[trigger] keys_after(items@, i as int).contains((n, g)) <==>
                (if g { generic@.contains_key(n) } else { plain@.contains_key(n) }),
        decreases items@.len() - i,
    {
        let ghost old_plain = plain@;
        let ghost old_generic = generic@;
        let ghost prev = keys_after(items@, i as int);
        match item_shadow_key(&items[i]) {
            Some((name, g)) => {
                if g {
                    generic.insert(owned(name), ());
                } else {
                    plain.insert(owned(name), ());
                }
                proof {
                    assert(keys_after(items@, i as int + 1) == prev.insert((name@, g)));
                    assert forall|n: Seq<char>, h: bool| #[trigger] keys_after(items@, i as int + 1).contains((n, h)) <==>
                        (if h { generic@.contains_key(n) } else { plain@.contains_key(n) }) by {
                        assert(prev.contains((n, h)) <==> (if h { old_generic.contains_key(n) } else { old_plain.contains_key(n) }));
                    }
                }
            },
            None => {
                assert(keys_after(items@, i as int + 1) == prev);
            },
        }
        i = i + 1;
    }
    (plain, generic)
}

/// Appends to `out` the items of `items` that `declared` does not shadow.
fn append_unshadowed(items: Vec<FileItem>, plain: &StrMap<()>, generic: &StrMap<()>, out: &mut Vec<FileItem>,
    Ghost(declared): Ghost<Set<(Seq<char>, bool)>>)
    requires
        forall|n: Seq<char>, g: bool| #[trigger] declared.contains((n, g)) <==>
            (if g { generic@.contains_key(n) } else { plain@.contains_key(n) }),
    ensures
        final(out)@ == old(out)@ + unshadowed(items@, declared),
{
    let ghost all = items@;
    let ghost start = out@;
    let mut rest = items;
    let ghost mut i: int = 0;
    assert(all.take(0) =~= Seq::<FileItem>::empty());
    assert(out@ =~= start + unshadowed(all.take(0), declared));
    while rest.len() > 0
        invariant
            0 <= i <= all.len(),
            rest@ == all.skip(i),
            out@ == start + unshadowed(all.take(i), declared),
            forall|n: Seq<char>, g: bool| #[trigger] declared.contains((n, g)) <==>
                (if g { generic@.contains_key(n) } else { plain@.contains_key(n) }),
        decreases rest@.len(),
    {
        let item = rest.remove(0);
        assert(item == all[i]);
        let shadowed = match item_shadow_key(&item) {
            Some((name, g)) => {
                if g {
                    generic.get_str(name).is_some()
                } else {
                    plain.get_str(name).is_some()
                }
            },
            None => false,
        };
        let ghost before = out@;
        if !shadowed {
            out.push(item);
        }
        proof {
            let t = all.take(i + 1);
            assert(t.drop_last() =~= all.take(i));
            assert(t.last() == all[i]);
            assert(out@ =~= start + unshadowed(t, declared));
            i = i + 1;
            assert(rest@ =~= all.skip(i));
        }
    }
    proof {
        assert(i == all.len()) by {
            if i < all.len() {
                assert(all.skip(i).len() > 0);
            }
        }
        assert(all.take(i) =~= all);
    }
}

/// Merge the parsed prelude `sources` into `file` as ordinary top-level
/// items, in order, skipping each item whose name and generic-ness the
/// program already declares: the program shadows the prelude.
pub fn inject_prelude(sources: Vec<SourceFile>, file: &mut SourceFile)
    ensures
        final(file).span == old(file).span,
        final(file).items@ == old(file).items@
            + injected(sources@, declared_keys(old(file).items@), sources@.len() as int),
{
    let ghost declared = declared_keys(file.items@);
    let ghost program = file.items@;
    let ghost all = sources@;
    let (plain, generic) = declared_key_sets(&file.items);
    let mut rest = sources;
    let ghost mut i: int = 0;
    assert(file.items@ =~= program + injected(all, declared, 0));
    while rest.len() > 0
        invariant
            0 <= i <= all.len(),
            rest@ == all.skip(i),
            file.span == old(file).span,
            program == old(file).items@,
            declared == declared_keys(program),
            file.items@ == program + injected(all, declared, i),
            forall|n: Seq<char>, g: bool| #[trigger] declared.contains((n, g)) <==>
                (if g { generic@.contains_key(n) } else { plain@.contains_key(n) }),
        decreases rest@.len(),
    {
        let source = rest.remove(0);
        assert(source == all[i]);
        let SourceFile { span: _, items } = source;
        append_unshadowed(items, &plain, &generic, &mut file.items, Ghost(declared));
        proof {
            assert(file.items@ =~= program + injected(all, declared, i + 1));
            i = i + 1;
            assert(rest@ =~= all.skip(i));
        }
    }
    proof {
        assert(i == all.len()) by {
            if i < all.len() {
                assert(all.skip(i).len() > 0);
            }
        }
    }
}

} // verus!
