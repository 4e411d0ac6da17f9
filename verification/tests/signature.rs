use vix::compiler::CAPABILITY_PROGRAM_FIELD;
use vix::diagnostic::{DiagnosticCode, DiagnosticPayload};
use vix::signature::{
    ast_type_mentions_stream, check_test_signature, is_stream_check_type, signature_carries_stream,
    DeclaredSignature, SurfaceType, TestFunction,
};
use vix::support::{Span, Spanned};
use vix::vir::{RecordField, RecordType, Type};

fn seg(text: &str) -> Spanned<String> {
    Spanned { value: text.to_string(), span: Span { start: 0, end: 1 } }
}

fn path(text: &str) -> SurfaceType {
    SurfaceType::Path(vec![seg(text)])
}

fn generic(base: &[&str], args: Vec<SurfaceType>) -> SurfaceType {
    SurfaceType::Generic { base: base.iter().map(|s| seg(s)).collect(), args }
}

fn stream_check() -> SurfaceType {
    generic(&["Stream"], vec![path("Check")])
}

fn capability() -> Type {
    Type::Record(RecordType {
        name: "Cc".to_string(),
        fields: vec![RecordField { name: CAPABILITY_PROGRAM_FIELD.to_string(), ty: Type::Path }],
    })
}

fn signature(params: Vec<SurfaceType>, return_type: Option<SurfaceType>) -> DeclaredSignature {
    DeclaredSignature { params, where_params: None, return_type }
}

#[test]
fn stream_mentions_are_found_at_any_depth() {
    assert!(!ast_type_mentions_stream(&path("Stream")));
    assert!(ast_type_mentions_stream(&generic(&["Stream"], vec![path("Int")])));
    let nested = SurfaceType::Function {
        parameter: Box::new(path("Int")),
        result: Box::new(SurfaceType::Tuple(vec![path("Bool"), SurfaceType::Array(Box::new(stream_check()))])),
    };
    assert!(ast_type_mentions_stream(&nested));
    assert!(ast_type_mentions_stream(&generic(&["Map"], vec![path("String"), stream_check()])));
    assert!(!ast_type_mentions_stream(&generic(&["std", "Stream"], vec![path("Int")])));
    assert!(!ast_type_mentions_stream(&SurfaceType::Tuple(vec![])));
}

#[test]
fn a_stream_crossing_the_signature_is_detected() {
    assert!(!signature_carries_stream(&signature(vec![path("Int")], Some(path("Int")))));
    assert!(signature_carries_stream(&signature(vec![path("Int")], Some(stream_check()))));
    assert!(signature_carries_stream(&signature(vec![stream_check()], None)));
    let where_typed = DeclaredSignature { params: vec![], where_params: Some(Some(vec![stream_check()])), return_type: None };
    assert!(signature_carries_stream(&where_typed));
    let untyped_where = DeclaredSignature { params: vec![], where_params: Some(None), return_type: None };
    assert!(!signature_carries_stream(&untyped_where));
}

#[test]
fn stream_check_is_exactly_stream_of_check() {
    assert!(is_stream_check_type(&stream_check()));
    assert!(!is_stream_check_type(&generic(&["Stream"], vec![path("Int")])));
    assert!(!is_stream_check_type(&generic(&["Stream"], vec![path("Check"), path("Check")])));
    assert!(!is_stream_check_type(&generic(&["std", "Stream"], vec![path("Check")])));
    assert!(!is_stream_check_type(&path("Check")));
}

fn test_function(lowered: Vec<Option<Type>>, return_type: Option<SurfaceType>, generic: bool) -> TestFunction {
    TestFunction {
        span: Span { start: 4, end: 40 },
        name: seg("smoke"),
        signature: signature(vec![], return_type),
        lowered_params: lowered,
        generic,
    }
}

#[test]
fn test_signatures_take_capabilities_and_return_checks() {
    assert!(check_test_signature(&test_function(vec![Some(capability())], Some(stream_check()), false)).is_ok());
    assert!(check_test_signature(&test_function(vec![], Some(stream_check()), false)).is_ok());
    for bad in [
        test_function(vec![Some(Type::Int)], Some(stream_check()), false),
        test_function(vec![None], Some(stream_check()), false),
        test_function(vec![], Some(path("Check")), false),
        test_function(vec![], None, false),
        test_function(vec![], Some(stream_check()), true),
    ] {
        let d = check_test_signature(&bad).unwrap_err();
        assert_eq!(d.entries.len(), 1);
        assert_eq!(d.entries[0].code, DiagnosticCode::InvalidTestSignature);
        assert_eq!(d.entries[0].primary, Span { start: 4, end: 40 });
        assert_eq!(
            d.entries[0].payload,
            DiagnosticPayload::Type { expected: "fn(capabilities…) -> Stream<Check>".to_string(), found: "smoke".to_string() }
        );
    }
    let mut with_where = test_function(vec![], Some(stream_check()), false);
    with_where.signature.where_params = Some(None);
    assert!(check_test_signature(&with_where).is_err());
}
