use vix::binding::{
    builtin_bindings, injected_method, injected_surface, is_prelude_name, is_qualified_binding,
    is_qualified_binding_with, prelude_intrinsic, prelude_method, prelude_primitive, request_shape,
    surface_intrinsic, surface_primitive, Binding, BindingTarget, Intrinsic, MethodDecl,
    MethodLowering, MethodOp, ModulePath, Placement, ReceiverType, BindingRegistry,
};
use vix::runtime::{self, pinned_fetch_primitive_id, ArgRole};
use vix::vir::{decode_primitive_id, ExternKind, Type};

#[test]
fn empty_module_path_is_unrepresentable() {
    assert!(ModulePath::new(&[]).is_none());
    assert!(ModulePath::new(&["ok", ""]).is_none());
    let path = ModulePath::new(&["some", "ns"]).expect("non-empty path");
    assert_eq!(path.display(), "some::ns");
}

#[test]
fn builtins_project_one_prelude_name_per_primitive() {
    let reg = builtin_bindings();
    let std = ModulePath::new(&["std"]).expect("std module path");

    for (name, id) in [("fetch", pinned_fetch_primitive_id())] {
        let binding = reg.prelude(name).expect("prelude primitive");
        assert!(matches!(binding.target, BindingTarget::Primitive(_)));
        assert_eq!(prelude_primitive(name), Some(id.clone()));
        assert!(reg.qualified(&std, name).is_some());
        assert_eq!(surface_primitive(&format!("std::{name}")), Some(id));
    }

    for name in ["decode", "try_decode"] {
        let binding = reg.prelude(name).expect("prelude primitive");
        assert!(matches!(binding.target, BindingTarget::Primitive(_)));
        assert_eq!(prelude_primitive(name), Some(decode_primitive_id()));
    }

    for (name, kind) in [
        ("fixture_tree", Intrinsic::FixtureTree),
        ("fixture_registry", Intrinsic::FixtureRegistry),
    ] {
        let binding = reg.prelude(name).expect("prelude intrinsic");
        assert!(matches!(binding.target, BindingTarget::Intrinsic(_)));
        assert_eq!(prelude_intrinsic(name), Some(kind));
        assert_eq!(prelude_primitive(name), None);
    }

    for alias in [
        "json_decode",
        "toml_decode",
        "try_json_decode",
        "try_toml_decode",
    ] {
        assert!(reg.prelude(alias).is_none(), "{alias} is not a core binding");
        assert!(
            reg.qualified(&std, alias).is_none(),
            "std::{alias} is not a core binding"
        );
        assert!(!is_qualified_binding("std", alias));
        assert_eq!(prelude_primitive(alias), None);
        assert_eq!(prelude_intrinsic(alias), None);
    }
}

#[test]
fn a_namespaced_vix_function_resolves_by_path() {
    let path = ModulePath::new(&["some", "ns"]).expect("path");
    let mut reg = builtin_bindings();
    reg.insert(Binding::vix_fn(
        Placement::Module(path.clone()),
        "cool_function",
        "fn cool_function(text: String) -> String { text }",
    ));

    assert!(reg.qualified(&path, "cool_function").is_some());
    assert!(reg.prelude("cool_function").is_none());
}

#[test]
fn only_the_uniform_primitives_have_a_request_shape() {
    assert!(request_shape(&pinned_fetch_primitive_id()).is_some());
    assert!(
        request_shape(&decode_primitive_id()).is_none(),
        "decode should have no shape yet"
    );
}

#[test]
fn fetch_shape_is_one_value_arg() {
    let shape = request_shape(&pinned_fetch_primitive_id()).expect("fetch shape");
    assert_eq!(shape.args.len(), 1);
    assert!(matches!(shape.args[0], ArgRole::Value { .. }));
    assert_eq!(shape.result, Type::Extern(ExternKind::Blob));
    assert_eq!(shape.primitive, pinned_fetch_primitive_id());
}

fn injected_grab() -> runtime::PrimitiveSurface {
    let fetch = runtime::builtin_primitive_surfaces()
        .into_iter()
        .next()
        .expect("fetch surface");
    runtime::PrimitiveSurface {
        surface_name: "grab",
        ..fetch
    }
}

#[test]
fn injected_surface_is_a_qualified_binding_only_under_std() {
    let surfaces = [injected_grab()];

    assert!(!is_qualified_binding("std", "grab"));
    assert!(is_qualified_binding_with(&surfaces, "std", "grab"));
    assert!(!is_qualified_binding_with(&surfaces, "other", "grab"));
    assert!(!is_qualified_binding_with(&surfaces, "std", "not_injected"));

    assert!(is_qualified_binding_with(&surfaces, "std", "fetch"));
}

#[test]
fn injected_surface_answers_bare_and_std_spellings() {
    let surfaces = [injected_grab()];

    assert!(injected_surface(&surfaces, "grab").is_some());
    assert!(injected_surface(&surfaces, "std::grab").is_some());

    assert!(injected_surface(&surfaces, "other::grab").is_none());
    assert!(injected_surface(&surfaces, "std::nope").is_none());
}

#[test]
fn module_path_segments_are_kept_in_order() {
    let path = ModulePath::new(&["a", "b", "c"]).expect("path");
    let names: Vec<&str> = path.segments().iter().map(|s| s.as_str()).collect();
    assert_eq!(names, vec!["a", "b", "c"]);
    assert_eq!(path.display(), "a::b::c");
    assert!(ModulePath::new(&["", "b"]).is_none());
}

#[test]
fn qualified_spellings_resolve_only_under_std() {
    assert_eq!(surface_primitive("fetch"), Some(pinned_fetch_primitive_id()));
    assert_eq!(surface_primitive("std::decode"), Some(decode_primitive_id()));
    assert_eq!(surface_primitive("other::fetch"), None);
    assert_eq!(surface_primitive("std::::fetch"), None);
    assert_eq!(surface_primitive("::fetch"), None);
    assert_eq!(surface_intrinsic("std::fixture_tree"), Some(Intrinsic::FixtureTree));
    assert_eq!(surface_intrinsic("fixture_registry"), Some(Intrinsic::FixtureRegistry));
    assert_eq!(surface_intrinsic("std::fetch"), None);
    assert!(is_qualified_binding("std", "fetch"));
    assert!(!is_qualified_binding("", "fetch"));
}

#[test]
fn prelude_names_are_free_functions_only() {
    assert!(is_prelude_name("fetch"));
    assert!(is_prelude_name("try_decode"));
    assert!(is_prelude_name("fixture_tree"));
    // `len` is a builtin method, not a free function.
    assert!(!is_prelude_name("len"));
    assert!(!is_prelude_name("json_decode"));
}

#[test]
fn builtin_methods_resolve_by_receiver_and_name() {
    let reg = builtin_bindings();
    let len = reg.method(ReceiverType::Array, "len").expect("Array.len");
    assert_eq!(len.arity, Some(0));
    assert!(matches!(len.target, BindingTarget::DedicatedOp(MethodOp::ArrayLen)));
    assert!(reg.method(ReceiverType::Stream, "len").is_none());

    let fold = prelude_method(&Type::Array(Box::new(Type::Int)), "fold").expect("Array.fold");
    assert_eq!(fold.arity, 2);
    assert_eq!(fold.lowering, MethodLowering::DedicatedOp(MethodOp::ArrayFold));
    let with = prelude_method(&Type::map(Type::String, Type::Int), "with").expect("Map.with");
    assert_eq!(with.lowering, MethodLowering::DedicatedOp(MethodOp::MapWith));
    assert!(prelude_method(&Type::Bool, "len").is_none());
    assert!(prelude_method(&Type::Extern(ExternKind::Host("Tree")), "glob").is_none());
}

#[test]
fn injected_methods_resolve_on_host_types() {
    let decls = [
        MethodDecl {
            receiver: ReceiverType::Host("Tree"),
            name: "glob",
            arity: 1,
            lowering: MethodLowering::DedicatedOp(MethodOp::StreamFilter),
        },
        MethodDecl {
            receiver: ReceiverType::Host("Tree"),
            name: "glob",
            arity: 3,
            lowering: MethodLowering::DedicatedOp(MethodOp::StreamCollect),
        },
    ];
    let found = injected_method(&decls, &Type::Extern(ExternKind::Host("Tree")), "glob")
        .expect("the first declaration answers");
    assert_eq!(found.arity, 1);
    assert!(injected_method(&decls, &Type::Extern(ExternKind::Host("TreeEntry")), "glob").is_none());
    assert!(injected_method(&decls, &Type::Bool, "glob").is_none());
}

#[test]
fn receiver_types_classify_value_types() {
    assert_eq!(ReceiverType::from_vir_type(&Type::String), Some(ReceiverType::String));
    assert_eq!(ReceiverType::from_vir_type(&Type::map(Type::Int, Type::Int)), Some(ReceiverType::MapOf));
    assert_eq!(ReceiverType::from_vir_type(&Type::Extern(ExternKind::Blob)), Some(ReceiverType::Blob));
    assert_eq!(ReceiverType::from_vir_type(&Type::Extern(ExternKind::Schema)), None);
    assert_eq!(ReceiverType::from_vir_type(&Type::Bool), None);
}

#[test]
fn a_registry_holds_its_inserts_in_order() {
    let mut reg = BindingRegistry::default();
    assert!(reg.bindings().is_empty());
    let names = ["b", "a", "b"];
    for n in names {
        reg.insert(Binding::vix_fn(Placement::Prelude, n, "fn f() -> Int { 1 }"));
    }
    let got: Vec<&str> = reg.bindings().iter().map(|b| b.name.as_str()).collect();
    assert_eq!(got, names.to_vec());
}
