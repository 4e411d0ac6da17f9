use vix::diagnostic::{DiagnosticCode, DiagnosticPayload, Diagnostics};
use vix::modules::{declared_items, DeclaredItem, DeclaredItemKind, FileItem, Rewriter, SourceFile, TypePath, VariantPath};
use vix::strmap::StrMap;
use vix::support::{Span, Spanned};
use vix::surface::{BinaryForm, Block, Expr, FieldPattern, InertPattern, MatchArm, NamedValue, Pattern, Stmt, Wrapper};

fn at(start: u32) -> Span {
    Span { start, end: start + 1 }
}

fn name(text: &str, start: u32) -> Spanned<String> {
    Spanned { value: text.to_string(), span: at(start) }
}

fn plus() -> BinaryForm {
    BinaryForm::Operator { span: at(0), op: name("+", 5) }
}

fn ident(text: &str, start: u32) -> Expr {
    Expr::Identifier(name(text, start))
}

fn geometry() -> StrMap<StrMap<DeclaredItem>> {
    let items = vec![
        FileItem::Declared { name: name("area", 1), public: true, kind: DeclaredItemKind::Function, generic: false },
        FileItem::Declared { name: name("secret", 2), public: false, kind: DeclaredItemKind::Function, generic: false },
        FileItem::Declared { name: name("Point", 3), public: true, kind: DeclaredItemKind::Other, generic: false },
    ];
    let mut set = StrMap::new();
    set.insert("geometry".to_string(), declared_items(&SourceFile { span: at(0), items }));
    set
}

fn renames() -> StrMap<String> {
    let mut m = StrMap::new();
    m.insert("area".to_string(), "geometry::area".to_string());
    m.insert("Point".to_string(), "geometry::Point".to_string());
    m
}

fn modules() -> StrMap<()> {
    let mut m = StrMap::new();
    m.insert("geometry".to_string(), ());
    m
}

fn one_name(d: &Diagnostics) -> (DiagnosticCode, Span, String) {
    assert_eq!(d.entries.len(), 1);
    match &d.entries[0].payload {
        DiagnosticPayload::Name { name } => (d.entries[0].code, d.entries[0].primary, name.clone()),
        other => panic!("not a name diagnostic: {other:?}"),
    }
}

#[test]
fn free_names_take_their_qualified_spelling() {
    let (set, ren, mods) = (geometry(), renames(), modules());
    let mut rw = Rewriter { renames: &ren, available_modules: &mods, module_set: &set, own_module: None, scopes: vec![] };
    let e = Expr::Binary(plus(), Box::new(ident("area", 0)), Box::new(ident("other", 5)));
    let out = rw.expr(&e).unwrap();
    assert_eq!(out, Expr::Binary(plus(), Box::new(ident("geometry::area", 0)), Box::new(ident("other", 5))));
    assert!(rw.scopes.is_empty());
}

#[test]
fn let_bindings_shadow_renames_after_their_initializer() {
    let (set, ren, mods) = (geometry(), renames(), modules());
    let mut rw = Rewriter { renames: &ren, available_modules: &mods, module_set: &set, own_module: None, scopes: vec![] };
    // { let area = area; area }
    let e = Expr::Block(Block {
        stmts: vec![Stmt::Let { pattern: Pattern::Binding(name("area", 4)), value: ident("area", 11) }],
        tail: Some(Box::new(ident("area", 17))),
    });
    let out = rw.expr(&e).unwrap();
    assert_eq!(
        out,
        Expr::Block(Block {
            stmts: vec![Stmt::Let { pattern: Pattern::Binding(name("area", 4)), value: ident("geometry::area", 11) }],
            tail: Some(Box::new(ident("area", 17))),
        })
    );
    assert!(rw.scopes.is_empty());
}

#[test]
fn module_qualified_calls_and_names_become_ordinary_ones() {
    let (set, ren, mods) = (geometry(), renames(), modules());
    let mut rw = Rewriter { renames: &ren, available_modules: &mods, module_set: &set, own_module: None, scopes: vec![] };
    let call = Expr::Variant {
        span: Span { start: 0, end: 20 },
        path: VariantPath { module: None, named_type: name("geometry", 0) },
        variant: name("area", 10),
        payload: Some(vec![ident("Point", 15)]),
        named: vec![],
    };
    assert_eq!(
        rw.expr(&call).unwrap(),
        Expr::Call {
            span: Span { start: 0, end: 20 },
            callee: name("geometry::area", 10),
            args: vec![ident("geometry::Point", 15)],
            named: vec![],
        }
    );
    let reference = Expr::Variant {
        span: Span { start: 0, end: 14 },
        path: VariantPath { module: None, named_type: name("geometry", 0) },
        variant: name("area", 10),
        payload: None,
        named: vec![],
    };
    assert_eq!(rw.expr(&reference).unwrap(), Expr::Identifier(Spanned { value: "geometry::area".to_string(), span: Span { start: 0, end: 14 } }));
    let private = Expr::Variant {
        span: Span { start: 0, end: 16 },
        path: VariantPath { module: None, named_type: name("geometry", 0) },
        variant: name("secret", 10),
        payload: None,
        named: vec![],
    };
    let d = rw.expr(&private).unwrap_err();
    assert_eq!(one_name(&d), (DiagnosticCode::PrivateImport, at(10), "geometry::secret".to_string()));
}

#[test]
fn enum_variants_keep_their_shape_and_rename_their_type() {
    let (set, ren, mods) = (geometry(), renames(), modules());
    let mut rw = Rewriter { renames: &ren, available_modules: &mods, module_set: &set, own_module: None, scopes: vec![] };
    let e = Expr::Variant {
        span: at(0),
        path: VariantPath { module: None, named_type: name("Point", 0) },
        variant: name("Origin", 7),
        payload: None,
        named: vec![],
    };
    assert_eq!(
        rw.expr(&e).unwrap(),
        Expr::Variant {
            span: at(0),
            path: VariantPath { module: None, named_type: name("geometry::Point", 0) },
            variant: name("Origin", 7),
            payload: None,
            named: vec![],
        }
    );
}

#[test]
fn closure_parameters_and_arm_patterns_bind() {
    let (set, ren, mods) = (geometry(), renames(), modules());
    let mut rw = Rewriter { renames: &ren, available_modules: &mods, module_set: &set, own_module: None, scopes: vec![] };
    let closure = Expr::Closure { params: vec![Pattern::Binding(name("area", 1))], body: Box::new(ident("area", 7)) };
    assert_eq!(
        rw.expr(&closure).unwrap(),
        Expr::Closure { params: vec![Pattern::Binding(name("area", 1))], body: Box::new(ident("area", 7)) }
    );
    let m = Expr::Match {
        scrutinee: Box::new(ident("area", 6)),
        arms: vec![
            MatchArm { pattern: Pattern::Wrapped(Wrapper::SomeOf(at(20)), Box::new(Pattern::Binding(name("area", 20)))), guard: None, body: ident("area", 30) },
            MatchArm { pattern: Pattern::Inert(InertPattern::Wildcard(at(40))), guard: Some(ident("area", 45)), body: ident("area", 50) },
        ],
    };
    assert_eq!(
        rw.expr(&m).unwrap(),
        Expr::Match {
            scrutinee: Box::new(ident("geometry::area", 6)),
            arms: vec![
                MatchArm { pattern: Pattern::Wrapped(Wrapper::SomeOf(at(20)), Box::new(Pattern::Binding(name("area", 20)))), guard: None, body: ident("area", 30) },
                MatchArm { pattern: Pattern::Inert(InertPattern::Wildcard(at(40))), guard: Some(ident("geometry::area", 45)), body: ident("geometry::area", 50) },
            ],
        }
    );
    assert!(rw.scopes.is_empty());
}

#[test]
fn shorthand_fields_take_an_explicit_qualified_value() {
    let (set, ren, mods) = (geometry(), renames(), modules());
    let mut rw = Rewriter { renames: &ren, available_modules: &mods, module_set: &set, own_module: None, scopes: vec![] };
    let e = Expr::Record {
        ty: TypePath { span: at(0), segments: vec![name("Point", 0)] },
        spread: None,
        fields: vec![NamedValue { name: name("area", 8), value: None }, NamedValue { name: name("x", 14), value: None }],
    };
    assert_eq!(
        rw.expr(&e).unwrap(),
        Expr::Record {
            ty: TypePath { span: at(0), segments: vec![name("geometry::Point", 0)] },
            spread: None,
            fields: vec![
                NamedValue { name: name("area", 8), value: Some(ident("geometry::area", 8)) },
                NamedValue { name: name("x", 14), value: None },
            ],
        }
    );
}

#[test]
fn record_patterns_bind_shorthand_fields_and_report_the_first_failure() {
    let (set, ren, mods) = (geometry(), renames(), modules());
    let mut rw = Rewriter { renames: &ren, available_modules: &mods, module_set: &set, own_module: None, scopes: vec![] };
    // { let Point { area } = p; area }
    let e = Expr::Block(Block {
        stmts: vec![Stmt::Let {
            pattern: Pattern::Record {
                span: at(4),
                rest: false,
                ty: TypePath { span: at(4), segments: vec![name("Point", 4)] },
                fields: vec![FieldPattern { name: name("area", 12), pattern: None }],
            },
            value: ident("p", 21),
        }],
        tail: Some(Box::new(ident("area", 24))),
    });
    let out = rw.expr(&e).unwrap();
    match out {
        Expr::Block(b) => {
            assert_eq!(b.tail, Some(Box::new(ident("area", 24))));
            match &b.stmts[0] {
                Stmt::Let { pattern: Pattern::Record { ty, .. }, .. } => {
                    assert_eq!(ty.segments, vec![name("geometry::Point", 4)]);
                }
                other => panic!("unexpected statement {other:?}"),
            }
        }
        other => panic!("unexpected expression {other:?}"),
    }
    // The first failure in walk order is reported: the unknown path before
    // the private function after it.
    let bad = Expr::Binary(
        plus(),
        Box::new(Expr::Record {
            ty: TypePath { span: at(0), segments: vec![name("geometry", 0), name("Line", 10)] },
            spread: None,
            fields: vec![],
        }),
        Box::new(Expr::Variant {
            span: at(30),
            path: VariantPath { module: None, named_type: name("geometry", 30) },
            variant: name("secret", 40),
            payload: None,
            named: vec![],
        }),
    );
    let d = rw.expr(&bad).unwrap_err();
    assert_eq!(one_name(&d), (DiagnosticCode::UnknownName, at(10), "geometry::Line".to_string()));
    assert!(rw.scopes.is_empty());
}
