use vix::compiler::{
    bind_name, find_variant, lookup_binding, path_name, require_record_pattern_owner,
    resolve_command_capability, select_record_pattern_fields, LoweredValue,
};
use vix::diagnostic::{DiagnosticCode, DiagnosticPayload, Diagnostics};
use vix::strmap::StrMap;
use vix::support::{Span, Spanned};
use vix::vir::{EnumType, EnumVariant, NodeId, RecordField, RecordType, Type, VariantPayload};

const SPAN: Span = Span { start: 5, end: 8 };

fn at(value: &str, start: u32) -> Spanned<String> {
    Spanned { value: value.to_string(), span: Span { start, end: start + 1 } }
}

fn field(name: &str) -> RecordField {
    RecordField { name: name.to_string(), ty: Type::Int }
}

fn field_error(d: &Diagnostics) -> (DiagnosticCode, Span, String, String) {
    assert_eq!(d.entries.len(), 1);
    match &d.entries[0].payload {
        DiagnosticPayload::Field { record, field } => {
            (d.entries[0].code, d.entries[0].primary, record.clone(), field.clone())
        }
        other => panic!("not a field diagnostic: {other:?}"),
    }
}

#[test]
fn bindings_resolve_and_refuse_duplicates() {
    let mut scope = StrMap::new();
    bind_name(&mut scope, LoweredValue { node: NodeId(1), ty: Type::Int }, &at("x", 0)).unwrap();
    let d = bind_name(&mut scope, LoweredValue { node: NodeId(2), ty: Type::Bool }, &at("x", 9)).unwrap_err();
    assert_eq!(d.entries[0].code, DiagnosticCode::DuplicateBinding);
    assert_eq!(d.entries[0].primary, Span { start: 9, end: 10 });
    assert_eq!(lookup_binding(&scope, "x", SPAN).unwrap().node, NodeId(1));
    let d = lookup_binding(&scope, "y", SPAN).unwrap_err();
    assert_eq!(d.entries[0].code, DiagnosticCode::UnknownName);
    assert_eq!(d.entries[0].payload, DiagnosticPayload::Name { name: "y".to_string() });
    assert_eq!(resolve_command_capability(&scope, &at("x", 0)).unwrap().ty, Type::Int);
    let d = resolve_command_capability(&scope, &at("sh", 3)).unwrap_err();
    assert_eq!(d.entries[0].code, DiagnosticCode::UnboundIdentifier);
    assert_eq!(d.entries[0].message(), "unbound identifier `sh`");
}

#[test]
fn type_paths_join_with_double_colons() {
    assert_eq!(path_name(&[at("geometry", 0), at("Point", 10)]), "geometry::Point");
    assert_eq!(path_name(&[at("Point", 0)]), "Point");
    assert_eq!(path_name(&[]), "");
}

#[test]
fn record_patterns_name_their_record() {
    let record = RecordType::new("Point", vec![field("x")]);
    assert!(require_record_pattern_owner("Point", SPAN, &record).is_ok());
    let d = require_record_pattern_owner("Pair", SPAN, &record).unwrap_err();
    assert_eq!(
        d.entries[0].payload,
        DiagnosticPayload::Type { expected: "Point".to_string(), found: "Pair".to_string() }
    );
}

#[test]
fn variant_paths_resolve_against_the_nominal_base() {
    let e = EnumType::new(
        "Shape<Int>",
        vec![
            EnumVariant { name: "Circle".to_string(), payload: VariantPayload::Tuple(vec![Type::Int]) },
            EnumVariant { name: "Empty".to_string(), payload: VariantPayload::Unit },
        ],
    );
    let (index, variant) = find_variant(&e, &at("Shape", 0), &at("Empty", 7)).unwrap();
    assert_eq!(index, 1);
    assert_eq!(variant.name, "Empty");
    let d = find_variant(&e, &at("Shape", 0), &at("Square", 7)).unwrap_err();
    assert_eq!(d.entries[0].code, DiagnosticCode::UnknownVariant);
    assert_eq!(d.entries[0].message(), "unknown variant Square");
    let d = find_variant(&e, &at("Other", 0), &at("Empty", 7)).unwrap_err();
    assert_eq!(
        d.entries[0].payload,
        DiagnosticPayload::Type { expected: "Shape".to_string(), found: "Other".to_string() }
    );
}

#[test]
fn pattern_fields_select_in_declaration_order() {
    let declared = vec![field("x"), field("y"), field("z")];
    let pattern = vec![at("z", 0), at("x", 2)];
    let picked = select_record_pattern_fields(&pattern, true, SPAN, &declared, "P").unwrap();
    assert_eq!(picked, vec![(0, 1), (2, 0)]);
    let all = vec![at("y", 0), at("z", 2), at("x", 4)];
    assert_eq!(select_record_pattern_fields(&all, false, SPAN, &declared, "P").unwrap(), vec![(0, 2), (1, 0), (2, 1)]);
}

#[test]
fn pattern_field_refusals_come_in_order() {
    let declared = vec![field("x"), field("y")];
    let repeated = vec![at("x", 0), at("b", 2), at("x", 4)];
    assert_eq!(
        field_error(&select_record_pattern_fields(&repeated, true, SPAN, &declared, "P").unwrap_err()),
        (DiagnosticCode::DuplicateField, Span { start: 4, end: 5 }, "P".to_string(), "x".to_string())
    );
    let missing = vec![at("x", 0), at("q", 2)];
    assert_eq!(
        field_error(&select_record_pattern_fields(&missing, false, SPAN, &declared, "P").unwrap_err()),
        (DiagnosticCode::MissingField, SPAN, "P".to_string(), "y".to_string())
    );
    let unknown = vec![at("x", 0), at("q", 2), at("b", 6)];
    assert_eq!(
        field_error(&select_record_pattern_fields(&unknown, true, SPAN, &declared, "P").unwrap_err()),
        (DiagnosticCode::UnknownField, Span { start: 6, end: 7 }, "P".to_string(), "b".to_string())
    );
    let d = select_record_pattern_fields(&unknown, true, SPAN, &declared, "P").unwrap_err();
    assert_eq!(d.entries[0].message(), "unknown field b");
}
