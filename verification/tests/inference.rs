use vix::diagnostic::{DiagnosticCode, DiagnosticPayload};
use vix::inference::infer_type_argument;
use vix::signature::SurfaceType;
use vix::strmap::StrMap;
use vix::support::{Span, Spanned};
use vix::vir::{EnumType, EnumVariant, Type, VariantPayload};

const SPAN: Span = Span { start: 2, end: 8 };

fn seg(text: &str) -> Spanned<String> {
    Spanned { value: text.to_string(), span: Span { start: 0, end: 1 } }
}

fn path(text: &str) -> SurfaceType {
    SurfaceType::Path(vec![seg(text)])
}

fn generic(base: &str, args: Vec<SurfaceType>) -> SurfaceType {
    SurfaceType::Generic { base: vec![seg(base)], args }
}

fn params(names: &[&str]) -> StrMap<()> {
    let mut m = StrMap::new();
    for n in names {
        m.insert(n.to_string(), ());
    }
    m
}

fn result_type(ok: Type, err: Type) -> Type {
    Type::Enum(EnumType {
        name: "Result<_, _>".to_string(),
        variants: vec![
            EnumVariant { name: "Ok".to_string(), payload: VariantPayload::Tuple(vec![ok]) },
            EnumVariant { name: "Err".to_string(), payload: VariantPayload::Tuple(vec![err]) },
        ],
    })
}

fn bound<'a>(m: &StrMap<&'a Type>, name: &str) -> Option<&'a Type> {
    m.get_str(name).copied()
}

#[test]
fn a_type_parameter_binds_to_the_argument_type() {
    let ps = params(&["T"]);
    let concrete = Type::Int;
    let mut inferred = StrMap::new();
    infer_type_argument(&path("T"), &concrete, &ps, &mut inferred, SPAN).unwrap();
    assert_eq!(bound(&inferred, "T"), Some(&Type::Int));
    assert_eq!(inferred.len(), 1);
}

#[test]
fn inference_descends_through_builtin_shapes() {
    let ps = params(&["K", "V", "T", "E"]);
    let map = Type::MapOf { key: Box::new(Type::String), value: Box::new(Type::Bool) };
    let mut inferred = StrMap::new();
    infer_type_argument(&generic("Map", vec![path("K"), path("V")]), &map, &ps, &mut inferred, SPAN).unwrap();
    assert_eq!(bound(&inferred, "K"), Some(&Type::String));
    assert_eq!(bound(&inferred, "V"), Some(&Type::Bool));

    let option = Type::option(Type::Path);
    let mut inferred = StrMap::new();
    infer_type_argument(&generic("Option", vec![path("T")]), &option, &ps, &mut inferred, SPAN).unwrap();
    assert_eq!(bound(&inferred, "T"), Some(&Type::Path));

    let result = result_type(Type::Int, Type::String);
    let mut inferred = StrMap::new();
    infer_type_argument(&generic("Result", vec![path("T"), path("E")]), &result, &ps, &mut inferred, SPAN).unwrap();
    assert_eq!(bound(&inferred, "T"), Some(&Type::Int));
    assert_eq!(bound(&inferred, "E"), Some(&Type::String));

    let function = Type::Function {
        parameter: Box::new(Type::Array(Box::new(Type::Int))),
        result: Box::new(Type::Tuple(vec![Type::Bool, Type::Check])),
    };
    let declared = SurfaceType::Function {
        parameter: Box::new(SurfaceType::Array(Box::new(path("T")))),
        result: Box::new(SurfaceType::Tuple(vec![path("K"), path("V")])),
    };
    let mut inferred = StrMap::new();
    infer_type_argument(&declared, &function, &ps, &mut inferred, SPAN).unwrap();
    assert_eq!(bound(&inferred, "T"), Some(&Type::Int));
    assert_eq!(bound(&inferred, "K"), Some(&Type::Bool));
    assert_eq!(bound(&inferred, "V"), Some(&Type::Check));
}

#[test]
fn shapes_that_do_not_correspond_bind_nothing() {
    let ps = params(&["T"]);
    let mut inferred = StrMap::new();
    let arr = Type::Array(Box::new(Type::Int));
    infer_type_argument(&generic("Box", vec![path("T")]), &arr, &ps, &mut inferred, SPAN).unwrap();
    infer_type_argument(&generic("Set", vec![path("T")]), &arr, &ps, &mut inferred, SPAN).unwrap();
    infer_type_argument(&path("U"), &arr, &ps, &mut inferred, SPAN).unwrap();
    let tuple = Type::Tuple(vec![Type::Int]);
    infer_type_argument(&SurfaceType::Tuple(vec![path("T"), path("T")]), &tuple, &ps, &mut inferred, SPAN).unwrap();
    assert_eq!(inferred.len(), 0);
}

#[test]
fn conflicting_bindings_are_a_type_mismatch() {
    let ps = params(&["T"]);
    let tuple = Type::Tuple(vec![Type::Int, Type::Bool]);
    let mut inferred = StrMap::new();
    let d = infer_type_argument(&SurfaceType::Tuple(vec![path("T"), path("T")]), &tuple, &ps, &mut inferred, SPAN)
        .unwrap_err();
    assert_eq!(d.entries.len(), 1);
    assert_eq!(d.entries[0].code, DiagnosticCode::TypeMismatch);
    assert_eq!(d.entries[0].primary, SPAN);
    assert_eq!(d.entries[0].payload, DiagnosticPayload::Type { expected: "Int".to_string(), found: "Bool".to_string() });
    assert_eq!(bound(&inferred, "T"), Some(&Type::Int));

    let same = Type::Tuple(vec![Type::Int, Type::Int]);
    let mut inferred = StrMap::new();
    infer_type_argument(&SurfaceType::Tuple(vec![path("T"), path("T")]), &same, &ps, &mut inferred, SPAN).unwrap();
    assert_eq!(bound(&inferred, "T"), Some(&Type::Int));
}
