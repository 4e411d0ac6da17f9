use vix::compiler::{decode_format_arg, FormatArgument};
use vix::support::Spanned;
use vix::compiler::{anchor_function_diagnostics, check_arity, duplicate_name, integer_literal, require_same_type, require_type, LoweredValue};
use vix::diagnostic::{Diagnostic, Label};
use vix::vir::{EnumType, EnumVariant, NodeId, VariantPayload};
use vix::compiler::{
    applied_type_name, byte_count, byte_stream_type, capability_type, capability_type_names,
    decode_failed_diagnostic, decode_format_label, duration_nanos, exec_outcome_type,
    expression_statement_diagnostic, field_diagnostic, invalid_arity, is_capability_type,
    is_decode_error, matches_std_qualified_name, monomorph_symbol, nominal_base_name,
    runtime_decode_unavailable, split_quantity, type_mismatch, unknown_name, validate_path_literal,
    validate_path_segment, variant_diagnostic, CompilerConfig, CAPABILITY_PROGRAM_FIELD,
};
use vix::decode::{DecodeError, DecodeErrorKind, DocumentSpan, PathSegment};
use vix::diagnostic::{DiagnosticCode, DiagnosticPayload, Diagnostics};
use vix::support::Span;
use vix::vir::{DecodeFormat, ExternKind, RecordField, RecordType, Type};

const SPAN: Span = Span { start: 3, end: 9 };

fn mismatch(d: &Diagnostics) -> (String, String) {
    assert_eq!(d.entries.len(), 1);
    assert_eq!(d.entries[0].code, DiagnosticCode::TypeMismatch);
    assert_eq!(d.entries[0].primary, SPAN);
    match &d.entries[0].payload {
        DiagnosticPayload::Type { expected, found } => (expected.clone(), found.clone()),
        other => panic!("not a type mismatch: {other:?}"),
    }
}

fn unsupported(d: &Diagnostics) -> String {
    assert_eq!(d.entries.len(), 1);
    assert_eq!(d.entries[0].code, DiagnosticCode::UnsupportedExpression);
    d.entries[0].message()
}

#[test]
fn durations_convert_to_nanoseconds() {
    assert_eq!(duration_nanos("5ms", SPAN).unwrap(), 5_000_000);
    assert_eq!(duration_nanos("250ns", SPAN).unwrap(), 250);
    assert_eq!(duration_nanos("3us", SPAN).unwrap(), 3_000);
    assert_eq!(duration_nanos("2s", SPAN).unwrap(), 2_000_000_000);
    assert_eq!(duration_nanos("1m", SPAN).unwrap(), 60_000_000_000);
    assert_eq!(duration_nanos("2h", SPAN).unwrap(), 7_200_000_000_000);
}

#[test]
fn duration_rejects_unknown_unit_and_overflow() {
    let e = duration_nanos("10x", SPAN).unwrap_err();
    assert_eq!(mismatch(&e), ("a duration unit (ns/us/ms/s/m/h)".to_string(), "`x`".to_string()));
    let e = duration_nanos("1KB", SPAN).unwrap_err();
    assert_eq!(mismatch(&e).1, "`KB`");
    let e = duration_nanos("18446744073709551615h", SPAN).unwrap_err();
    assert_eq!(
        mismatch(&e),
        ("a representable duration".to_string(), "`18446744073709551615h`".to_string())
    );
    let e = duration_nanos("99999999999999999999ms", SPAN).unwrap_err();
    assert_eq!(
        mismatch(&e),
        ("a representable magnitude".to_string(), "`99999999999999999999ms`".to_string())
    );
}

#[test]
fn byte_counts_are_binary() {
    assert_eq!(byte_count("1KiB", SPAN).unwrap(), 1024);
    assert_eq!(byte_count("1KB", SPAN).unwrap(), 1024);
    assert_eq!(byte_count("7B", SPAN).unwrap(), 7);
    assert_eq!(byte_count("3MB", SPAN).unwrap(), 3 * 1048576);
    assert_eq!(byte_count("2MiB", SPAN).unwrap(), 2 * 1048576);
    assert_eq!(byte_count("4GiB", SPAN).unwrap(), 4 * 1073741824);
    assert_eq!(byte_count("1GB", SPAN).unwrap(), 1073741824);
    let e = byte_count("5ms", SPAN).unwrap_err();
    assert_eq!(mismatch(&e), ("a byte unit (B/KB/MB/GB)".to_string(), "`ms`".to_string()));
    let e = byte_count("18446744073709551615KB", SPAN).unwrap_err();
    assert_eq!(mismatch(&e).0, "a representable byte count");
}

#[test]
fn split_quantity_splits_at_the_first_non_digit() {
    assert_eq!(split_quantity("42ms", SPAN).unwrap(), (42, "ms".to_string()));
    assert_eq!(split_quantity("7", SPAN).unwrap(), (7, String::new()));
    assert_eq!(split_quantity("18446744073709551615B", SPAN).unwrap(), (u64::MAX, "B".to_string()));
    let e = split_quantity("ms", SPAN).unwrap_err();
    assert_eq!(mismatch(&e), ("a representable magnitude".to_string(), "`ms`".to_string()));
    let e = split_quantity("18446744073709551616B", SPAN).unwrap_err();
    assert_eq!(mismatch(&e).1, "`18446744073709551616B`");
}

#[test]
fn path_literals_must_be_relative_with_clean_segments() {
    assert!(validate_path_literal("", SPAN).is_ok());
    assert!(validate_path_literal("src/main.c", SPAN).is_ok());
    assert!(validate_path_literal("a/.hidden/b", SPAN).is_ok());
    let e = validate_path_literal("/etc/passwd", SPAN).unwrap_err();
    assert_eq!(unsupported(&e), "Path literal must be a relative path");
    let e = validate_path_literal("a\\b", SPAN).unwrap_err();
    assert_eq!(unsupported(&e), "Path literal must be a relative path");
    for bad in ["a/../b", "a//b", "./a", "a/"] {
        let e = validate_path_literal(bad, SPAN).unwrap_err();
        assert_eq!(
            unsupported(&e),
            "Path join requires one nonempty segment without separators, dot segments, or NUL"
        );
    }
}

#[test]
fn path_segments_reject_separators_and_dots() {
    assert!(validate_path_segment("file.txt", SPAN).is_ok());
    for bad in ["", ".", "..", "a/b", "a\\b", "a\0b"] {
        let e = validate_path_segment(bad, SPAN).unwrap_err();
        assert_eq!(e.entries[0].primary, SPAN);
        assert_eq!(
            unsupported(&e),
            "Path join requires one nonempty segment without separators, dot segments, or NUL"
        );
    }
}

#[test]
fn capability_types_carry_one_program_field() {
    assert_eq!(capability_type_names(), vec!["Echo", "Sh", "ProgressiveSh"]);
    let ty = capability_type("Sh");
    match &ty {
        Type::Record(r) => {
            assert_eq!(r.name, "Sh");
            assert_eq!(r.fields.len(), 1);
            assert_eq!(r.fields[0].name, CAPABILITY_PROGRAM_FIELD);
            assert_eq!(r.fields[0].ty, Type::String);
        }
        other => panic!("not a record: {other:?}"),
    }
    assert!(is_capability_type(&ty));
    assert!(!is_capability_type(&Type::String));
    let two = Type::Record(RecordType::new(
        "Two",
        vec![
            RecordField { name: "$program".to_string(), ty: Type::String },
            RecordField { name: "x".to_string(), ty: Type::Int },
        ],
    ));
    assert!(!is_capability_type(&two));
}

#[test]
fn exec_outcome_has_tree_and_two_streams() {
    let stream = byte_stream_type();
    assert_eq!(stream.name(), "ByteStream");
    match &stream {
        Type::Record(r) => {
            assert_eq!(r.fields[0].name, "$lines");
            assert_eq!(r.fields[0].ty.name(), "Map<Int, String>");
            assert_eq!(r.fields[1].name, "$text");
        }
        other => panic!("not a record: {other:?}"),
    }
    match exec_outcome_type() {
        Type::Record(r) => {
            let names: Vec<&str> = r.fields.iter().map(|f| f.name.as_str()).collect();
            assert_eq!(names, vec!["tree", "stdout", "stderr"]);
            assert_eq!(r.fields[0].ty, Type::Extern(ExternKind::Host("Tree")));
            assert_eq!(r.fields[2].ty, byte_stream_type());
        }
        other => panic!("not a record: {other:?}"),
    }
}

#[test]
fn decode_error_type_is_recognized_by_name() {
    assert!(is_decode_error(&Type::Record(RecordType::new("DecodeError", Vec::new()))));
    assert!(!is_decode_error(&Type::Record(RecordType::new("Other", Vec::new()))));
    assert!(!is_decode_error(&Type::Int));
}

#[test]
fn generic_names_spell_their_arguments() {
    let args = vec![Type::Int, Type::Array(Box::new(Type::String))];
    assert_eq!(applied_type_name("Pair", &args), "Pair<Int, [String]>");
    assert_eq!(applied_type_name("Unit", &[]), "Unit<>");
    assert_eq!(monomorph_symbol("id", &[Type::Int]), "id<Int>");
    assert_eq!(monomorph_symbol("id", &[]), "id");
    assert_eq!(nominal_base_name("Pair<Int, String>"), "Pair");
    assert_eq!(nominal_base_name("Plain"), "Plain");
}

#[test]
fn std_qualified_names_match_their_bare_spelling() {
    assert!(matches_std_qualified_name("fetch", "fetch"));
    assert!(matches_std_qualified_name("std::fetch", "fetch"));
    assert!(!matches_std_qualified_name("other::fetch", "fetch"));
    assert!(!matches_std_qualified_name("std::fetc", "fetch"));
}

#[test]
fn diagnostics_render_their_messages() {
    assert_eq!(type_mismatch(SPAN, "Int", "String").entries[0].message(), "expected Int, found String");
    let d = unknown_name(SPAN, "frob");
    assert_eq!(d.entries[0].code, DiagnosticCode::UnknownName);
    assert_eq!(d.entries[0].message(), "frob");
    let d = field_diagnostic(DiagnosticCode::MissingField, SPAN, "Point", "y");
    assert_eq!(d.entries[0].message(), "missing field y");
    let d = field_diagnostic(DiagnosticCode::UnknownField, SPAN, "Point", "z");
    assert_eq!(d.entries[0].message(), "unknown field z");
    let d = variant_diagnostic(DiagnosticCode::UnknownVariant, SPAN, "Color", "Mauve");
    assert_eq!(d.entries[0].message(), "unknown variant Mauve");
    let d = variant_diagnostic(DiagnosticCode::DuplicateVariant, SPAN, "Color", "Red");
    assert_eq!(d.entries[0].message(), "duplicate variant Red");
    let d = expression_statement_diagnostic(SPAN);
    assert_eq!(d.entries[0].payload, DiagnosticPayload::ExpressionStatement);
    assert_eq!(d.entries[0].message(), "expression statement");
    let d = invalid_arity(SPAN, 2, 3);
    assert_eq!(d.entries[0].payload, DiagnosticPayload::Arity { expected: 2, found: 3 });
    assert_eq!(d.entries[0].message(), "expected 2 arguments, found 3");
    assert_eq!(d.describe(), "1 Vix diagnostic(s)");
}

#[test]
fn decode_diagnostics_name_format_target_and_path() {
    assert_eq!(decode_format_label(DecodeFormat::Json), "JSON");
    assert_eq!(decode_format_label(DecodeFormat::Toml), "TOML");
    let target = Type::Record(RecordType::new("PkgRow", Vec::new()));
    let error = DecodeError {
        kind: DecodeErrorKind::ExpectedScalar { expected: "String".to_string(), found: "an integer" },
        path: vec![PathSegment::Field("name".to_string())],
        span: Some(DocumentSpan { offset: 9, len: 2 }),
    };
    let d = decode_failed_diagnostic(SPAN, DecodeFormat::Json, &target, &error);
    assert_eq!(d.entries[0].code, DiagnosticCode::DecodeFailed);
    assert_eq!(
        d.entries[0].payload,
        DiagnosticPayload::Decode {
            format: "JSON".to_string(),
            target: "PkgRow".to_string(),
            kind: "expected-scalar".to_string(),
            path: vec!["name".to_string()],
            doc_offset: Some(9),
            doc_len: Some(2),
            detail: "expected String, found an integer".to_string(),
        }
    );
    assert_eq!(
        d.entries[0].message(),
        "JSON decode into PkgRow failed at name: expected String, found an integer"
    );

    let d = runtime_decode_unavailable(SPAN, DecodeFormat::Toml, Some(&target));
    assert_eq!(
        d.entries[0].payload,
        DiagnosticPayload::RuntimeDecode { format: "TOML".to_string(), target: Some("PkgRow".to_string()) }
    );
    assert!(d.entries[0].message().starts_with("runtime typed decode is unavailable: TOML decode into PkgRow"));
    let d = runtime_decode_unavailable(SPAN, DecodeFormat::Json, None);
    assert_eq!(
        d.entries[0].message(),
        "runtime typed decode is unavailable: JSON decode has no target type known from context; only compile-time-constant document literals with a known target are folded"
    );
}

#[test]
fn default_config_injects_nothing() {
    let c = CompilerConfig::default();
    assert!(!c.force_molten_copy);
    assert!(!c.force_scalar_call_boundaries);
    assert!(c.prelude.is_empty() && c.methods.is_empty() && c.host_types.is_empty());
}

#[test]
fn duplicate_names_report_the_name() {
    let d = duplicate_name(SPAN, "Point");
    assert_eq!(d.entries[0].code, DiagnosticCode::DuplicateDefinition);
    assert_eq!(d.entries[0].payload, DiagnosticPayload::Name { name: "Point".to_string() });
    assert_eq!(d.entries[0].message(), "duplicate name");
}

#[test]
fn integer_literals_parse_like_i64() {
    assert_eq!(integer_literal("42", SPAN).unwrap(), 42);
    assert_eq!(integer_literal("-7", SPAN).unwrap(), -7);
    assert_eq!(integer_literal("+7", SPAN).unwrap(), 7);
    assert_eq!(integer_literal("007", SPAN).unwrap(), 7);
    assert_eq!(integer_literal("9223372036854775807", SPAN).unwrap(), i64::MAX);
    assert_eq!(integer_literal("-9223372036854775808", SPAN).unwrap(), i64::MIN);
    for bad in ["9223372036854775808", "-9223372036854775809", "", "-", "+", "1_000", "12a", "99999999999999999999999"] {
        let e = integer_literal(bad, SPAN).unwrap_err();
        assert_eq!(mismatch(&e), ("Int".to_string(), format!("number literal `{bad}`")));
        assert_eq!(bad.parse::<i64>().is_err(), true);
    }
}

#[test]
fn function_diagnostics_anchor_on_the_function() {
    let name = Span { start: 100, end: 104 };
    let attribute = Span { start: 90, end: 97 };
    let site = Span { start: 150, end: 160 };
    let one = |code: DiagnosticCode| Diagnostic {
        code,
        primary: site,
        labels: Vec::new(),
        payload: DiagnosticPayload::Name { name: "x".to_string() },
    };
    let input = Diagnostics {
        entries: vec![
            one(DiagnosticCode::NonExhaustiveMatch),
            one(DiagnosticCode::UnboundIdentifier),
            one(DiagnosticCode::UnknownName),
        ],
    };
    let out = anchor_function_diagnostics(name, Some(attribute), input.clone());
    assert_eq!(out.entries[0].primary, name);
    assert_eq!(out.entries[0].labels, vec![Label { span: site, text: "non-exhaustive match occurs here".to_string() }]);
    assert_eq!(out.entries[1].primary, attribute);
    assert_eq!(
        out.entries[1].labels,
        vec![Label { span: site, text: "used here without a declaring parameter".to_string() }]
    );
    assert_eq!(out.entries[2], input.entries[2]);
    let bare = anchor_function_diagnostics(name, None, input);
    assert_eq!(bare.entries[1].primary, name);
}

#[test]
fn value_types_are_checked_structurally() {
    let value = |ty: Type| LoweredValue { node: NodeId(1), ty };
    let rec = |n: &str| Type::Record(RecordType::new(n, vec![RecordField { name: "a".to_string(), ty: Type::Int }]));
    assert!(require_type(&value(rec("R")), &rec("R"), SPAN).is_ok());
    let e = require_type(&value(rec("R")), &rec("S"), SPAN).unwrap_err();
    assert_eq!(mismatch(&e), ("S".to_string(), "R".to_string()));
    let e = require_type(&value(Type::String), &Type::Path, SPAN).unwrap_err();
    assert_eq!(e.entries[0].code, DiagnosticCode::StringIsNotPath);
    assert_eq!(e.entries[0].message(), "no conversion from String to Path");
    let e = require_type(&value(Type::Int), &Type::Path, SPAN).unwrap_err();
    assert_eq!(e.entries[0].code, DiagnosticCode::TypeMismatch);

    let arr = |t: Type| Type::Array(Box::new(t));
    assert!(require_same_type(&value(arr(Type::Int)), &value(arr(Type::Int)), SPAN).is_ok());
    let e = require_same_type(&value(arr(Type::Int)), &value(arr(Type::Bool)), SPAN).unwrap_err();
    assert_eq!(mismatch(&e), ("[Int]".to_string(), "[Bool]".to_string()));

    let en = |payload: VariantPayload| {
        Type::Enum(EnumType::new("E", vec![EnumVariant { name: "V".to_string(), payload }]))
    };
    assert!(en(VariantPayload::Tuple(vec![Type::Int])).same(&en(VariantPayload::Tuple(vec![Type::Int]))));
    assert!(!en(VariantPayload::Tuple(vec![Type::Int])).same(&en(VariantPayload::Unit)));
    assert!(Type::Extern(ExternKind::Host("Tree")).same(&Type::Extern(ExternKind::Host("Tree"))));
    assert!(!Type::Extern(ExternKind::Host("Tree")).same(&Type::Extern(ExternKind::Blob)));
    assert!(Type::map(Type::Int, Type::String).same(&Type::map(Type::Int, Type::String)));
    assert!(!Type::Tuple(vec![Type::Int]).same(&Type::Tuple(vec![Type::Int, Type::Int])));

    assert!(check_arity(SPAN, 2, 2).is_ok());
    let e = check_arity(SPAN, 2, 1).unwrap_err();
    assert_eq!(e.entries[0].payload, DiagnosticPayload::Arity { expected: 2, found: 1 });
}

#[test]
fn decode_format_arguments_name_json_or_toml() {
    let variant = |ty: &str, v: &str| FormatArgument::Variant {
        path_span: SPAN,
        named_type: ty.to_string(),
        variant: Spanned { value: v.to_string(), span: Span { start: 7, end: 9 } },
    };
    assert_eq!(decode_format_arg(&variant("Format", "Json")).unwrap(), DecodeFormat::Json);
    assert_eq!(decode_format_arg(&variant("std::Format", "Toml")).unwrap(), DecodeFormat::Toml);
    let d = decode_format_arg(&variant("Format", "Yaml")).unwrap_err();
    assert_eq!(d.entries[0].primary, Span { start: 7, end: 9 });
    assert_eq!(d.entries[0].message(), "an unknown decode format `Format::Yaml`");
    let d = decode_format_arg(&variant("Kind", "Json")).unwrap_err();
    assert_eq!(d.entries[0].primary, SPAN);
    assert_eq!(d.entries[0].message(), "a decode format `Format::Json` or `Format::Toml`");
    let d = decode_format_arg(&FormatArgument::Other(Span { start: 1, end: 2 })).unwrap_err();
    assert_eq!(d.entries[0].code, DiagnosticCode::UnsupportedExpression);
    assert_eq!(d.entries[0].primary, Span { start: 1, end: 2 });
}
