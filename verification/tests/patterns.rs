use vix::diagnostic::{DiagnosticCode, DiagnosticPayload, Diagnostics};
use vix::modules::TypePath;
use vix::patterns::{find_enum_pattern_variant, EnumPattern};
use vix::support::{Span, Spanned};
use vix::vir::{EnumType, EnumVariant, Type, VariantPayload};

fn at(start: u32) -> Span {
    Span { start, end: start + 3 }
}

fn text(value: &str, start: u32) -> Spanned<String> {
    Spanned { value: value.to_string(), span: at(start) }
}

fn option_enum() -> EnumType {
    match Type::option(Type::Int) {
        Type::Enum(e) => e,
        _ => unreachable!(),
    }
}

fn result_enum() -> EnumType {
    EnumType {
        name: "Result<Int, String>".to_string(),
        variants: vec![
            EnumVariant { name: "Ok".to_string(), payload: VariantPayload::Tuple(vec![Type::Int]) },
            EnumVariant { name: "Err".to_string(), payload: VariantPayload::Tuple(vec![Type::String]) },
        ],
    }
}

fn shape_enum() -> EnumType {
    EnumType {
        name: "Shape".to_string(),
        variants: vec![
            EnumVariant { name: "Circle".to_string(), payload: VariantPayload::Tuple(vec![Type::Int]) },
            EnumVariant { name: "Square".to_string(), payload: VariantPayload::Record(vec![]) },
        ],
    }
}

fn mismatch(d: &Diagnostics) -> (Span, String, String) {
    assert_eq!(d.entries.len(), 1);
    assert_eq!(d.entries[0].code, DiagnosticCode::TypeMismatch);
    match &d.entries[0].payload {
        DiagnosticPayload::Type { expected, found } => (d.entries[0].primary, expected.clone(), found.clone()),
        other => panic!("not a type mismatch: {other:?}"),
    }
}

#[test]
fn option_and_result_patterns_select_their_fixed_variants() {
    let option = option_enum();
    let (i, v, span) = find_enum_pattern_variant(&option, &EnumPattern::OptionSome(at(1))).unwrap();
    assert_eq!((i, v.name.as_str(), span), (1, "Some", at(1)));
    let (i, v, _) = find_enum_pattern_variant(&option, &EnumPattern::OptionNone(at(2))).unwrap();
    assert_eq!((i, v.name.as_str()), (0, "None"));
    let result = result_enum();
    let (i, v, _) = find_enum_pattern_variant(&result, &EnumPattern::ResultOk(at(3))).unwrap();
    assert_eq!((i, v.name.as_str()), (0, "Ok"));
    let (i, v, _) = find_enum_pattern_variant(&result, &EnumPattern::ResultErr(at(4))).unwrap();
    assert_eq!((i, v.name.as_str()), (1, "Err"));

    let d = find_enum_pattern_variant(&result, &EnumPattern::OptionSome(at(5))).unwrap_err();
    assert_eq!(mismatch(&d), (at(5), "Option<_>".to_string(), "Result<Int, String>".to_string()));
    let d = find_enum_pattern_variant(&option, &EnumPattern::ResultErr(at(6))).unwrap_err();
    assert_eq!(mismatch(&d), (at(6), "Result<_, _>".to_string(), "Option<Int>".to_string()));
}

#[test]
fn variant_patterns_select_by_name() {
    let shape = shape_enum();
    let pattern = EnumPattern::Variant { named_type: text("Shape", 1), variant: text("Square", 8) };
    let (i, v, span) = find_enum_pattern_variant(&shape, &pattern).unwrap();
    assert_eq!((i, v.name.as_str(), span), (1, "Square", at(8)));
    let wrong_type = EnumPattern::Variant { named_type: text("Kind", 1), variant: text("Square", 8) };
    let d = find_enum_pattern_variant(&shape, &wrong_type).unwrap_err();
    assert_eq!(mismatch(&d), (at(1), "Shape".to_string(), "Kind".to_string()));
    let unknown = EnumPattern::Variant { named_type: text("Shape", 1), variant: text("Hexagon", 8) };
    let d = find_enum_pattern_variant(&shape, &unknown).unwrap_err();
    assert_eq!(d.entries[0].code, DiagnosticCode::UnknownVariant);
    assert_eq!(d.entries[0].primary, at(8));
}

#[test]
fn record_patterns_select_by_their_type_path() {
    let shape = shape_enum();
    let span = Span { start: 0, end: 20 };
    let path = TypePath { span, segments: vec![text("Shape", 0), text("Square", 7)] };
    let (i, _, s) = find_enum_pattern_variant(&shape, &EnumPattern::Record(path)).unwrap();
    assert_eq!((i, s), (1, at(7)));

    let other = TypePath { span, segments: vec![text("Kind", 0), text("Square", 7)] };
    let d = find_enum_pattern_variant(&shape, &EnumPattern::Record(other)).unwrap_err();
    assert_eq!(mismatch(&d), (span, "Shape".to_string(), "Kind::Square".to_string()));

    let bare = TypePath { span, segments: vec![text("Square", 7)] };
    let d = find_enum_pattern_variant(&shape, &EnumPattern::Record(bare)).unwrap_err();
    assert_eq!(mismatch(&d), (span, "Shape".to_string(), "Square".to_string()));

    let empty = TypePath { span, segments: vec![] };
    let d = find_enum_pattern_variant(&shape, &EnumPattern::Record(empty)).unwrap_err();
    assert_eq!(mismatch(&d), (span, "Shape".to_string(), "".to_string()));

    let unknown = TypePath { span, segments: vec![text("Shape", 0), text("Hexagon", 7)] };
    let d = find_enum_pattern_variant(&shape, &EnumPattern::Record(unknown)).unwrap_err();
    assert_eq!(d.entries[0].code, DiagnosticCode::UnknownVariant);
    assert_eq!(d.entries[0].message(), "unknown variant Hexagon");
}
