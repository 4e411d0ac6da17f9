use vix::diagnostic::{DiagnosticCode, DiagnosticPayload, Diagnostics};
use vix::modules::{
    declared_items, extract_inline_modules, first_inline_module, import_leaves,
    reject_nested_module, resolve_imports, DeclaredItem, DeclaredItemKind, FileItem, ImportItem,
    ModItem, Rewriter, SourceFile, TypePath, VariantPath,
};
use vix::strmap::StrMap;
use vix::support::{Span, Spanned};

fn at(start: u32) -> Span {
    Span { start, end: start + 1 }
}

fn name(text: &str, start: u32) -> Spanned<String> {
    Spanned { value: text.to_string(), span: at(start) }
}

fn decl(text: &str, start: u32, public: bool) -> FileItem {
    FileItem::Declared { name: name(text, start), public, kind: DeclaredItemKind::Other, generic: false }
}

fn func(text: &str, start: u32, public: bool) -> FileItem {
    FileItem::Declared { name: name(text, start), public, kind: DeclaredItemKind::Function, generic: false }
}

fn import_one(module: &str, leaf: &str, start: u32) -> FileItem {
    FileItem::Import(ImportItem {
        module: name(module, start),
        name: Some(name(leaf, start + 10)),
        names: None,
    })
}

fn import_many(module: &str, leaves: &[(&str, u32)], start: u32) -> FileItem {
    FileItem::Import(ImportItem {
        module: name(module, start),
        name: None,
        names: Some(leaves.iter().map(|(l, s)| name(l, *s)).collect()),
    })
}

fn file(items: Vec<FileItem>) -> SourceFile {
    SourceFile { span: Span { start: 0, end: 100 }, items }
}

fn module_set(modules: Vec<(&str, Vec<FileItem>)>) -> StrMap<StrMap<DeclaredItem>> {
    let mut set = StrMap::new();
    for (m, items) in modules {
        set.insert(m.to_string(), declared_items(&file(items)));
    }
    set
}

fn one_name(d: &Diagnostics) -> (DiagnosticCode, Span, String) {
    assert_eq!(d.entries.len(), 1);
    match &d.entries[0].payload {
        DiagnosticPayload::Name { name } => (d.entries[0].code, d.entries[0].primary, name.clone()),
        other => panic!("not a name diagnostic: {other:?}"),
    }
}

#[test]
fn declared_items_keep_the_first_declaration() {
    let f = file(vec![
        func("area", 1, true),
        import_one("geometry", "Point", 5),
        decl("area", 20, false),
        decl("Shape", 30, false),
    ]);
    let items = declared_items(&f);
    assert_eq!(items.len(), 2);
    assert_eq!(items.get_str("area"), Some(&DeclaredItem { public: true, kind: DeclaredItemKind::Function }));
    assert_eq!(items.get_str("Shape"), Some(&DeclaredItem { public: false, kind: DeclaredItemKind::Other }));
    assert_eq!(items.get_str("Point"), None);
}

#[test]
fn import_leaves_take_the_single_name_or_the_list() {
    let single = ImportItem { module: name("m", 0), name: Some(name("a", 4)), names: None };
    assert_eq!(import_leaves(&single), vec![name("a", 4)]);
    let list = ImportItem { module: name("m", 0), name: None, names: Some(vec![name("b", 6), name("c", 8)]) };
    assert_eq!(import_leaves(&list), vec![name("b", 6), name("c", 8)]);
    let neither = ImportItem { module: name("m", 0), name: None, names: None };
    assert!(import_leaves(&neither).is_empty());
}

#[test]
fn public_imports_alias_to_the_declaring_module() {
    let set = module_set(vec![("geometry", vec![decl("Point", 1, true), func("area", 2, true)])]);
    let root = file(vec![import_many("geometry", &[("Point", 11), ("area", 13)], 5), func("main", 40, false)]);
    let aliases = resolve_imports(None, &root, &set).unwrap();
    assert_eq!(aliases.len(), 2);
    assert_eq!(aliases.get_str("Point").map(String::as_str), Some("geometry::Point"));
    assert_eq!(aliases.get_str("area").map(String::as_str), Some("geometry::area"));
}

#[test]
fn private_items_are_importable_only_from_their_own_module() {
    let set = module_set(vec![("geometry", vec![decl("Secret", 1, false)])]);
    let root = file(vec![import_one("geometry", "Secret", 5)]);
    let d = resolve_imports(None, &root, &set).unwrap_err();
    assert_eq!(one_name(&d), (DiagnosticCode::PrivateImport, at(15), "geometry::Secret".to_string()));
    assert_eq!(d.entries[0].message(), "private");

    let from_other = resolve_imports(Some("shapes"), &root, &set).unwrap_err();
    assert_eq!(one_name(&from_other).0, DiagnosticCode::PrivateImport);

    let own = resolve_imports(Some("geometry"), &root, &set).unwrap();
    assert_eq!(own.get_str("Secret").map(String::as_str), Some("geometry::Secret"));
}

#[test]
fn unknown_modules_and_leaves_are_unknown_names() {
    let set = module_set(vec![("geometry", vec![decl("Point", 1, true)])]);
    let missing_module = file(vec![import_one("shapes", "Point", 5)]);
    let d = resolve_imports(None, &missing_module, &set).unwrap_err();
    assert_eq!(one_name(&d), (DiagnosticCode::UnknownName, at(5), "shapes".to_string()));

    let missing_leaf = file(vec![import_one("geometry", "Line", 5)]);
    let d = resolve_imports(None, &missing_leaf, &set).unwrap_err();
    assert_eq!(one_name(&d), (DiagnosticCode::UnknownName, at(15), "geometry::Line".to_string()));
}

#[test]
fn built_in_bindings_import_without_a_declaration() {
    let set = module_set(vec![("std", vec![])]);
    let root = file(vec![import_one("std", "fetch", 5)]);
    let aliases = resolve_imports(None, &root, &set).unwrap();
    assert_eq!(aliases.get_str("fetch").map(String::as_str), Some("std::fetch"));
}

#[test]
fn a_declaration_may_not_rebind_an_import() {
    let set = module_set(vec![("geometry", vec![decl("Point", 1, true)])]);
    let root = file(vec![import_one("geometry", "Point", 5), decl("Point", 40, false)]);
    let d = resolve_imports(None, &root, &set).unwrap_err();
    assert_eq!(one_name(&d), (DiagnosticCode::DuplicateDefinition, at(40), "Point".to_string()));
    assert_eq!(d.entries[0].message(), "duplicate name");

    let twice = file(vec![import_one("geometry", "Point", 5), import_one("geometry", "Point", 50)]);
    let d = resolve_imports(None, &twice, &set).unwrap_err();
    assert_eq!(one_name(&d), (DiagnosticCode::DuplicateDefinition, at(60), "Point".to_string()));

    let declared_first = file(vec![decl("Point", 2, false), import_one("geometry", "Point", 5)]);
    let d = resolve_imports(None, &declared_first, &set).unwrap_err();
    assert_eq!(one_name(&d), (DiagnosticCode::DuplicateDefinition, at(15), "Point".to_string()));
}

#[test]
fn inline_modules_are_extracted_in_order() {
    let root = file(vec![
        decl("A", 1, false),
        FileItem::Mod(ModItem { name: name("geometry", 10), span: Span { start: 9, end: 30 }, items: vec![decl("Point", 20, true)] }),
        func("main", 40, false),
        FileItem::Mod(ModItem { name: name("shapes", 50), span: Span { start: 49, end: 70 }, items: vec![] }),
    ]);
    let mut names: StrMap<()> = StrMap::new();
    names.insert("lib".to_string(), ());
    let (kept, extracted) = extract_inline_modules(root, &mut names).unwrap();
    assert_eq!(kept.span, Span { start: 0, end: 100 });
    assert_eq!(kept.items, vec![decl("A", 1, false), func("main", 40, false)]);
    assert_eq!(extracted.len(), 2);
    assert_eq!(extracted[0].0, "geometry");
    assert_eq!(extracted[0].1, SourceFile { span: Span { start: 9, end: 30 }, items: vec![decl("Point", 20, true)] });
    assert_eq!(extracted[1].0, "shapes");
    assert_eq!(names.len(), 3);
    assert!(names.get_str("geometry").is_some());
    assert!(names.get_str("shapes").is_some());
}

#[test]
fn inline_module_names_must_be_fresh() {
    let root = file(vec![FileItem::Mod(ModItem { name: name("lib", 10), span: at(9), items: vec![] })]);
    let mut names: StrMap<()> = StrMap::new();
    names.insert("lib".to_string(), ());
    let d = extract_inline_modules(root, &mut names).unwrap_err();
    assert_eq!(one_name(&d), (DiagnosticCode::DuplicateDefinition, at(10), "lib".to_string()));
    assert_eq!(names.len(), 1);
}

#[test]
fn nested_inline_modules_are_refused() {
    let inner = FileItem::Mod(ModItem { name: name("inner", 20), span: Span { start: 19, end: 25 }, items: vec![] });
    let root = file(vec![FileItem::Mod(ModItem { name: name("outer", 10), span: at(9), items: vec![decl("X", 12, true), inner] })]);
    let mut names: StrMap<()> = StrMap::new();
    let d = extract_inline_modules(root, &mut names).unwrap_err();
    assert_eq!(d.entries.len(), 1);
    assert_eq!(d.entries[0].code, DiagnosticCode::UnsupportedExpression);
    assert_eq!(d.entries[0].primary, Span { start: 19, end: 25 });
    assert_eq!(d.entries[0].message(), "nested inline modules are not supported");
    assert!(names.get_str("outer").is_some());
}

#[test]
fn the_first_inline_module_is_found() {
    let items = vec![
        decl("A", 1, false),
        FileItem::Mod(ModItem { name: name("m1", 10), span: at(9), items: vec![] }),
        FileItem::Mod(ModItem { name: name("m2", 20), span: at(19), items: vec![] }),
    ];
    assert_eq!(first_inline_module(&items).map(|m| m.name.value.as_str()), Some("m1"));
    assert!(first_inline_module(&items[..1]).is_none());
    assert!(reject_nested_module(&items[..1]).is_ok());
    let d = reject_nested_module(&items).unwrap_err();
    assert_eq!(d.entries[0].primary, at(9));
}

fn renames(pairs: &[(&str, &str)]) -> StrMap<String> {
    let mut m = StrMap::new();
    for (k, v) in pairs {
        m.insert(k.to_string(), v.to_string());
    }
    m
}

fn names_set(names: &[&str]) -> StrMap<()> {
    let mut m = StrMap::new();
    for n in names {
        m.insert(n.to_string(), ());
    }
    m
}

#[test]
fn qualified_names_respect_visibility() {
    let set = module_set(vec![("geometry", vec![decl("Point", 1, true), func("area", 2, false)])]);
    let ren = renames(&[]);
    let mods = names_set(&["geometry"]);
    let root = Rewriter { renames: &ren, available_modules: &mods, module_set: &set, own_module: None, scopes: vec![] };
    assert_eq!(root.qualified_name(&name("geometry", 0), &name("Point", 10)).unwrap(), "geometry::Point");
    let d = root.qualified_name(&name("geometry", 0), &name("area", 10)).unwrap_err();
    assert_eq!(one_name(&d), (DiagnosticCode::PrivateImport, at(10), "geometry::area".to_string()));
    let d = root.qualified_name(&name("geometry", 0), &name("Line", 10)).unwrap_err();
    assert_eq!(one_name(&d), (DiagnosticCode::UnknownName, at(10), "geometry::Line".to_string()));
    assert_eq!(root.qualified_name(&name("std", 0), &name("fetch", 10)).unwrap(), "std::fetch");
    assert_eq!(root.qualified_function_name(&name("geometry", 0), &name("Point", 10)).unwrap(), None);
    assert!(root.qualified_function_name(&name("geometry", 0), &name("area", 10)).is_err());

    let inside = Rewriter { renames: &ren, available_modules: &mods, module_set: &set, own_module: Some("geometry"), scopes: vec![] };
    assert_eq!(
        inside.qualified_function_name(&name("geometry", 0), &name("area", 10)).unwrap(),
        Some("geometry::area".to_string())
    );
}

#[test]
fn references_bound_in_scope_are_not_renamed() {
    let set = module_set(vec![]);
    let ren = renames(&[("Point", "geometry::Point"), ("area", "geometry::area")]);
    let mods = names_set(&[]);
    let mut rw = Rewriter { renames: &ren, available_modules: &mods, module_set: &set, own_module: None, scopes: vec![StrMap::new()] };
    let mut free = name("area", 3);
    rw.reference(&mut free);
    assert_eq!(free, name("geometry::area", 3));
    rw.bind(&name("area", 9));
    assert!(rw.in_scope("area"));
    assert!(!rw.in_scope("Point"));
    let mut shadowed = name("area", 4);
    rw.reference(&mut shadowed);
    assert_eq!(shadowed, name("area", 4));
    let mut unknown = name("other", 5);
    rw.reference(&mut unknown);
    assert_eq!(unknown, name("other", 5));
}

#[test]
fn type_paths_resolve_module_qualified_spellings() {
    let set = module_set(vec![("geometry", vec![decl("Point", 1, true)])]);
    let ren = renames(&[("Shape", "shapes::Shape")]);
    let mods = names_set(&["geometry"]);
    let mut rw = Rewriter { renames: &ren, available_modules: &mods, module_set: &set, own_module: None, scopes: vec![] };
    let span = Span { start: 20, end: 35 };

    let mut qualified = TypePath { span, segments: vec![name("geometry", 20), name("Point", 30)] };
    rw.type_path(&mut qualified).unwrap();
    assert_eq!(qualified, TypePath { span, segments: vec![Spanned { value: "geometry::Point".to_string(), span }] });

    let mut too_long = TypePath { span, segments: vec![name("geometry", 20), name("a", 25), name("b", 30)] };
    let d = rw.type_path(&mut too_long).unwrap_err();
    assert_eq!(one_name(&d), (DiagnosticCode::UnknownName, span, "geometry::a::b".to_string()));

    let mut renamed = TypePath { span, segments: vec![name("Shape", 22)] };
    rw.type_path(&mut renamed).unwrap();
    assert_eq!(renamed.segments, vec![name("shapes::Shape", 22)]);

    let mut other = TypePath { span, segments: vec![name("std", 20), name("Tree", 25)] };
    rw.type_path(&mut other).unwrap();
    assert_eq!(other.segments, vec![name("std", 20), name("Tree", 25)]);
}

#[test]
fn variant_paths_consume_their_module_qualifier() {
    let set = module_set(vec![("geometry", vec![decl("Kind", 1, true)])]);
    let ren = renames(&[("Local", "lib::Local")]);
    let mods = names_set(&["geometry"]);
    let mut rw = Rewriter { renames: &ren, available_modules: &mods, module_set: &set, own_module: None, scopes: vec![] };
    let mut qualified = VariantPath { module: Some(name("geometry", 1)), named_type: name("Kind", 5) };
    rw.variant_path(&mut qualified).unwrap();
    assert_eq!(qualified, VariantPath { module: None, named_type: name("geometry::Kind", 5) });
    let mut local = VariantPath { module: None, named_type: name("Local", 7) };
    rw.variant_path(&mut local).unwrap();
    assert_eq!(local.named_type, name("lib::Local", 7));
    let mut missing = VariantPath { module: Some(name("geometry", 1)), named_type: name("Nope", 9) };
    assert!(rw.variant_path(&mut missing).is_err());
    assert_eq!(missing.module, None);
}
