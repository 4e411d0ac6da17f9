use vix::modules::{DeclaredItemKind, FileItem, ImportItem, SourceFile};
use vix::prelude::{inject_prelude, item_name, item_shadow_key};
use vix::support::{Span, Spanned};

fn name(text: &str) -> Spanned<String> {
    Spanned { value: text.to_string(), span: Span { start: 0, end: 1 } }
}

fn func(text: &str, generic: bool) -> FileItem {
    FileItem::Declared { name: name(text), public: false, kind: DeclaredItemKind::Function, generic }
}

fn record(text: &str) -> FileItem {
    FileItem::Declared { name: name(text), public: false, kind: DeclaredItemKind::Other, generic: true }
}

fn file(items: Vec<FileItem>) -> SourceFile {
    SourceFile { span: Span { start: 0, end: 50 }, items }
}

fn names(f: &SourceFile) -> Vec<String> {
    f.items.iter().map(|i| item_name(i).unwrap_or("<import>").to_string()).collect()
}

#[test]
fn shadow_keys_are_name_and_generic_function() {
    assert_eq!(item_shadow_key(&func("any", true)), Some(("any", true)));
    assert_eq!(item_shadow_key(&func("any", false)), Some(("any", false)));
    assert_eq!(item_shadow_key(&record("Point")), Some(("Point", false)));
    let import = FileItem::Import(ImportItem { module: name("m"), name: None, names: None });
    assert_eq!(item_shadow_key(&import), None);
    assert_eq!(item_name(&import), None);
}

#[test]
fn the_program_shadows_prelude_items_with_the_same_key() {
    let mut program = file(vec![func("any", true), func("contains", false), record("Point")]);
    let prelude = vec![
        file(vec![func("any", true), func("contains", true), func("map", true)]),
        file(vec![func("Point", false), func("len", false)]),
    ];
    inject_prelude(prelude, &mut program);
    assert_eq!(program.span, Span { start: 0, end: 50 });
    assert_eq!(names(&program), vec!["any", "contains", "Point", "contains", "map", "len"]);
    assert_eq!(program.items[3], func("contains", true));
}

#[test]
fn prelude_items_do_not_shadow_each_other() {
    let mut program = file(vec![]);
    inject_prelude(vec![file(vec![func("f", false)]), file(vec![func("f", false)])], &mut program);
    assert_eq!(names(&program), vec!["f", "f"]);
    let mut unchanged = file(vec![func("g", false)]);
    inject_prelude(vec![], &mut unchanged);
    assert_eq!(names(&unchanged), vec!["g"]);
}
