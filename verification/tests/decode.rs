use vix::decode::{
    decode, decode_events, DecodeErrorKind, DecodeFormat, DecodedValue, DocEvent, DocScalar,
    DocumentSpan, SpannedEvent, StreamEnd,
};
use vix::vir::{EnumType, EnumVariant, RecordField, RecordType, Type, VariantPayload};

fn dep_spec() -> Type {
    Type::Enum(EnumType::new(
        "DepSpec",
        vec![
            EnumVariant {
                name: "Req".to_owned(),
                payload: VariantPayload::Tuple(vec![Type::String]),
            },
            EnumVariant {
                name: "Detailed".to_owned(),
                payload: VariantPayload::Record(vec![
                    RecordField {
                        name: "version".to_owned(),
                        ty: Type::option(Type::String),
                    },
                    RecordField {
                        name: "optional".to_owned(),
                        ty: Type::Bool,
                    },
                ]),
            },
        ],
    ))
}

#[test]
fn decode_enum_string_form() {
    let value = decode(DecodeFormat::Json, "\"^1.2\"", &dep_spec())
        .expect("a scalar string selects the short tuple variant");
    assert_eq!(
        value,
        DecodedValue::Variant {
            index: 0,
            fields: vec![DecodedValue::Str("^1.2".to_owned())],
        }
    );
}

#[test]
fn decode_enum_table_form() {
    let value = decode(
        DecodeFormat::Json,
        "{\"version\":\"^2.0\",\"optional\":true}",
        &dep_spec(),
    )
    .expect("an object selects the detailed record variant");
    assert_eq!(
        value,
        DecodedValue::Variant {
            index: 1,
            fields: vec![
                DecodedValue::OptionSome(Box::new(DecodedValue::Str("^2.0".to_owned()))),
                DecodedValue::Bool(true),
            ],
        }
    );
}

fn pkg_row() -> Type {
    Type::Record(RecordType::new(
        "PkgRow",
        vec![
            RecordField {
                name: "name".to_owned(),
                ty: Type::String,
            },
            RecordField {
                name: "vers".to_owned(),
                ty: Type::String,
            },
            RecordField {
                name: "yanked".to_owned(),
                ty: Type::Bool,
            },
        ],
    ))
}

#[test]
fn decode_json_struct() {
    let value = decode(
        DecodeFormat::Json,
        "{\"name\":\"mio\",\"vers\":\"0.8.11\",\"yanked\":false}",
        &pkg_row(),
    )
    .expect("json decodes onto PkgRow");
    assert_eq!(
        value,
        DecodedValue::Record(vec![
            DecodedValue::Str("mio".to_owned()),
            DecodedValue::Str("0.8.11".to_owned()),
            DecodedValue::Bool(false),
        ])
    );
}

#[test]
fn decode_toml_nested_struct() {
    let manifest = Type::Record(RecordType::new(
        "Manifest",
        vec![RecordField {
            name: "package".to_owned(),
            ty: Type::Record(RecordType::new(
                "Package",
                vec![
                    RecordField {
                        name: "name".to_owned(),
                        ty: Type::String,
                    },
                    RecordField {
                        name: "version".to_owned(),
                        ty: Type::String,
                    },
                ],
            )),
        }],
    ));
    let value = decode(
        DecodeFormat::Toml,
        "[package]\nname = \"taxon\"\nversion = \"0.1.0\"\n",
        &manifest,
    )
    .expect("toml decodes onto Manifest");
    assert_eq!(
        value,
        DecodedValue::Record(vec![DecodedValue::Record(vec![
            DecodedValue::Str("taxon".to_owned()),
            DecodedValue::Str("0.1.0".to_owned()),
        ])])
    );
}

#[test]
fn decode_optional_fields() {
    let dep_decl = Type::Record(RecordType::new(
        "DepDecl",
        vec![
            RecordField {
                name: "version".to_owned(),
                ty: Type::option(Type::String),
            },
            RecordField {
                name: "path".to_owned(),
                ty: Type::option(Type::String),
            },
        ],
    ));
    let value = decode(DecodeFormat::Json, "{\"version\":\"^1.0\"}", &dep_decl)
        .expect("absent option field decodes to None");
    assert_eq!(
        value,
        DecodedValue::Record(vec![
            DecodedValue::OptionSome(Box::new(DecodedValue::Str("^1.0".to_owned()))),
            DecodedValue::OptionNone,
        ])
    );
}

#[test]
fn decode_failure_is_typed_with_a_field_path_and_span() {
    let err = decode(DecodeFormat::Json, "{\"name\": 42}", &pkg_row())
        .expect_err("an integer where a string is expected fails");
    assert_eq!(
        err.kind,
        DecodeErrorKind::ExpectedScalar {
            expected: "String".to_owned(),
            found: "an integer",
        }
    );
    assert_eq!(err.path_names(), vec!["name".to_owned()]);
    let span = err.span.expect("the offending document span is preserved");
    assert_eq!(
        &"{\"name\": 42}"[span.offset as usize..(span.offset + span.len) as usize],
        "42"
    );
    assert_eq!(err.kind.label(), "expected-scalar");
}

#[test]
fn ambiguous_enum_forms_are_rejected_not_first_matched() {
    let two_short = Type::Enum(EnumType::new(
        "TwoShort",
        vec![
            EnumVariant {
                name: "A".to_owned(),
                payload: VariantPayload::Tuple(vec![Type::String]),
            },
            EnumVariant {
                name: "B".to_owned(),
                payload: VariantPayload::Tuple(vec![Type::String]),
            },
        ],
    ));
    let err = decode(DecodeFormat::Json, "\"x\"", &two_short)
        .expect_err("two short forms are ambiguous");
    assert_eq!(
        err.kind,
        DecodeErrorKind::AmbiguousStringForm {
            enum_name: "TwoShort".to_owned(),
        }
    );

    let two_table = Type::Enum(EnumType::new(
        "TwoTable",
        vec![
            EnumVariant {
                name: "A".to_owned(),
                payload: VariantPayload::Record(vec![RecordField {
                    name: "x".to_owned(),
                    ty: Type::Bool,
                }]),
            },
            EnumVariant {
                name: "B".to_owned(),
                payload: VariantPayload::Record(vec![RecordField {
                    name: "y".to_owned(),
                    ty: Type::Bool,
                }]),
            },
        ],
    ));
    let err = decode(DecodeFormat::Json, "{\"x\":true}", &two_table)
        .expect_err("two table forms are ambiguous");
    assert_eq!(
        err.kind,
        DecodeErrorKind::AmbiguousTableForm {
            enum_name: "TwoTable".to_owned(),
        }
    );
}

fn int_record() -> Type {
    Type::Record(RecordType::new(
        "Counts",
        vec![RecordField { name: "n".to_owned(), ty: Type::Int }],
    ))
}

#[test]
fn unknown_fields_are_skipped_and_ints_decode() {
    let value = decode(
        DecodeFormat::Json,
        "{\"extra\":{\"deep\":[1,[2,{\"k\":null}]]},\"n\":-7,\"more\":\"x\"}",
        &int_record(),
    )
    .expect("unknown fields are ignored");
    assert_eq!(value, DecodedValue::Record(vec![DecodedValue::Int(-7)]));
}

#[test]
fn an_int_beyond_i64_is_out_of_range() {
    let err = decode(DecodeFormat::Json, "{\"n\":18446744073709551615}", &int_record())
        .expect_err("u64::MAX does not fit an Int");
    assert_eq!(err.kind, DecodeErrorKind::IntOutOfRange);
    assert_eq!(err.path_names(), vec!["n".to_owned()]);
    assert_eq!(err.kind.label(), "int-out-of-range");
    let ok = decode(DecodeFormat::Json, "{\"n\":9223372036854775807}", &int_record())
        .expect("i64::MAX fits");
    assert_eq!(ok, DecodedValue::Record(vec![DecodedValue::Int(i64::MAX)]));
}

#[test]
fn missing_and_duplicate_fields_fail() {
    let err = decode(DecodeFormat::Json, "{}", &int_record()).expect_err("n is required");
    assert_eq!(
        err.kind,
        DecodeErrorKind::MissingField { container: "Counts".to_owned(), field: "n".to_owned() }
    );
    assert_eq!(err.render(), "missing field \"n\" in Counts");
    let err = decode(DecodeFormat::Json, "{\"n\":1,\"n\":2}", &int_record())
        .expect_err("a repeated field fails");
    assert_eq!(
        err.kind,
        DecodeErrorKind::DuplicateField { container: "Counts".to_owned(), field: "n".to_owned() }
    );
}

#[test]
fn trailing_content_and_wrong_shapes_fail() {
    let err = decode(DecodeFormat::Json, "true", &int_record()).expect_err("not an object");
    assert_eq!(
        err.kind,
        DecodeErrorKind::ExpectedObject { container: "Counts".to_owned(), found: "a boolean" }
    );
    let err = decode(DecodeFormat::Json, "[1]", &Type::Int).expect_err("not a scalar");
    assert_eq!(
        err.kind,
        DecodeErrorKind::ExpectedScalar { expected: "Int".to_owned(), found: "an array" }
    );
    let err = decode(DecodeFormat::Json, "1", &Type::Path).expect_err("Path is no decode target");
    assert_eq!(err.kind, DecodeErrorKind::UnsupportedTarget { target: "Path".to_owned() });
    assert_eq!(err.render(), "cannot decode into Path");
}

#[test]
fn null_decodes_an_absent_option() {
    let value = decode(DecodeFormat::Json, "null", &Type::option(Type::Int)).expect("null is None");
    assert_eq!(value, DecodedValue::OptionNone);
    let value = decode(DecodeFormat::Json, "5", &Type::option(Type::Int)).expect("5 is Some");
    assert_eq!(value, DecodedValue::OptionSome(Box::new(DecodedValue::Int(5))));
}

#[test]
fn an_enum_without_a_string_form_refuses_a_scalar() {
    let only_table = Type::Enum(EnumType::new(
        "OnlyTable",
        vec![EnumVariant {
            name: "A".to_owned(),
            payload: VariantPayload::Record(vec![]),
        }],
    ));
    let err = decode(DecodeFormat::Json, "\"x\"", &only_table).expect_err("no short form");
    assert_eq!(err.kind, DecodeErrorKind::NoStringForm { enum_name: "OnlyTable".to_owned() });
    let value = decode(DecodeFormat::Json, "{}", &only_table).expect("the table form");
    assert_eq!(value, DecodedValue::Variant { index: 0, fields: vec![] });
    let err = decode(DecodeFormat::Json, "3", &only_table).expect_err("an integer is neither");
    assert_eq!(err.kind, DecodeErrorKind::NoStringForm { enum_name: "OnlyTable".to_owned() });
}

#[test]
fn malformed_documents_fail() {
    let err = decode(DecodeFormat::Json, "{\"n\":", &int_record()).expect_err("truncated");
    assert!(matches!(err.kind.label(), "parse-error" | "unexpected-end"));
    let err = decode(DecodeFormat::Toml, "[package\nname = ", &int_record()).expect_err("bad toml");
    assert_eq!(err.kind.label(), "parse-error");
}

fn at(offset: u32, kind: DocEvent) -> SpannedEvent {
    SpannedEvent { kind, span: DocumentSpan { offset, len: 1 } }
}

#[test]
fn an_event_stream_decodes_and_then_must_end() {
    let events = vec![
        at(0, DocEvent::StructStart),
        at(1, DocEvent::FieldKey(Some("n".to_owned()))),
        at(2, DocEvent::Scalar(DocScalar::U64(3))),
        at(3, DocEvent::StructEnd),
    ];
    let value = decode_events(DecodeFormat::Json, &events, &StreamEnd::Finished, &int_record())
        .expect("the record");
    assert_eq!(value, DecodedValue::Record(vec![DecodedValue::Int(3)]));

    let mut trailing = events;
    trailing.push(at(9, DocEvent::Scalar(DocScalar::Bool(true))));
    let err = decode_events(DecodeFormat::Toml, &trailing, &StreamEnd::Finished, &int_record())
        .expect_err("trailing content");
    assert_eq!(
        err.kind,
        DecodeErrorKind::TrailingContent { format: "TOML", found: "a boolean" }
    );
    assert_eq!(err.span, Some(DocumentSpan { offset: 9, len: 1 }));
    assert_eq!(
        err.render(),
        "unexpected trailing TOML after the decoded value: a boolean"
    );
}

#[test]
fn a_stream_that_ends_early_or_fails_reports_it() {
    let events = vec![at(0, DocEvent::StructStart)];
    let err = decode_events(DecodeFormat::Json, &events, &StreamEnd::Failed("boom".to_owned()), &int_record())
        .expect_err("the parser failed");
    assert_eq!(err.kind, DecodeErrorKind::Parse { detail: "parse error: boom".to_owned() });
    let err = decode_events(DecodeFormat::Json, &vec![], &StreamEnd::Finished, &Type::Int)
        .expect_err("nothing to decode");
    assert_eq!(err.kind, DecodeErrorKind::UnexpectedEnd { container: "the document".to_owned() });
    // An object cut short is closed by the end of the stream.
    let value = decode_events(
        DecodeFormat::Json,
        &vec![at(0, DocEvent::StructStart), at(1, DocEvent::FieldKey(Some("n".to_owned()))), at(2, DocEvent::Scalar(DocScalar::I64(1)))],
        &StreamEnd::Finished,
        &int_record(),
    )
    .expect("the fields seen so far");
    assert_eq!(value, DecodedValue::Record(vec![DecodedValue::Int(1)]));
}
