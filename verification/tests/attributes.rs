use vix::attributes::{
    attribute_quantity, attribute_string, parse_test_metadata, Attribute, AttributeField,
    AttributeValue, Budget, TestMetadata,
};
use vix::diagnostic::{DiagnosticCode, DiagnosticPayload, Diagnostics};
use vix::support::{Span, Spanned};

fn at(start: u32) -> Span {
    Span { start, end: start + 2 }
}

fn text(value: &str, start: u32) -> Spanned<String> {
    Spanned { value: value.to_string(), span: at(start) }
}

fn quantity_field(name: &str, value: &str, start: u32) -> AttributeField {
    AttributeField { name: text(name, start), value: Some(AttributeValue::Quantity(text(value, start + 5))) }
}

fn string_field(name: &str, value: &str, start: u32) -> AttributeField {
    AttributeField { name: text(name, start), value: Some(AttributeValue::Str(text(value, start + 5))) }
}

fn test_attribute(fields: Vec<AttributeField>) -> Attribute {
    Attribute { name: text("test", 0), args: Some(fields) }
}

fn field_error(d: &Diagnostics) -> (DiagnosticCode, Span, String) {
    assert_eq!(d.entries.len(), 1);
    match &d.entries[0].payload {
        DiagnosticPayload::Field { record, field } => {
            assert_eq!(record, "test");
            (d.entries[0].code, d.entries[0].primary, field.clone())
        }
        other => panic!("not a field diagnostic: {other:?}"),
    }
}

fn mismatch(d: &Diagnostics) -> (Span, String, String) {
    assert_eq!(d.entries.len(), 1);
    assert_eq!(d.entries[0].code, DiagnosticCode::TypeMismatch);
    match &d.entries[0].payload {
        DiagnosticPayload::Type { expected, found } => (d.entries[0].primary, expected.clone(), found.clone()),
        other => panic!("not a type mismatch: {other:?}"),
    }
}

#[test]
fn budgets_and_rerun_target_are_read() {
    let attributes = vec![
        Attribute { name: text("doc", 0), args: Some(vec![quantity_field("ignored", "1", 1)]) },
        test_attribute(vec![
            quantity_field("budget_wall", "5s", 10),
            quantity_field("budget_rss", "256MB", 20),
            string_field("rerun_with", "smoke", 30),
        ]),
    ];
    let metadata = parse_test_metadata(&attributes).unwrap();
    assert_eq!(
        metadata,
        TestMetadata {
            budget: Budget { wall_ns: Some(5_000_000_000), rss_bytes: Some(256 * 1_048_576) },
            rerun_with: Some("smoke".to_string()),
        }
    );
}

#[test]
fn no_test_arguments_mean_no_metadata() {
    assert_eq!(parse_test_metadata(&[]).unwrap(), TestMetadata::default());
    let bare = vec![Attribute { name: text("test", 0), args: None }];
    assert_eq!(parse_test_metadata(&bare).unwrap(), TestMetadata::default());
}

#[test]
fn repeated_and_unknown_fields_are_refused() {
    let repeated = vec![test_attribute(vec![
        quantity_field("budget_wall", "1s", 10),
        quantity_field("budget_wall", "2s", 20),
    ])];
    let d = parse_test_metadata(&repeated).unwrap_err();
    assert_eq!(field_error(&d), (DiagnosticCode::DuplicateField, at(20), "budget_wall".to_string()));
    assert_eq!(d.entries[0].message(), "duplicate field budget_wall");

    let across = vec![
        test_attribute(vec![quantity_field("budget_rss", "1KB", 10)]),
        test_attribute(vec![quantity_field("budget_rss", "2KB", 40)]),
    ];
    let d = parse_test_metadata(&across).unwrap_err();
    assert_eq!(field_error(&d), (DiagnosticCode::DuplicateField, at(40), "budget_rss".to_string()));

    let unknown = vec![test_attribute(vec![quantity_field("budget_cpu", "1s", 10)])];
    let d = parse_test_metadata(&unknown).unwrap_err();
    assert_eq!(field_error(&d), (DiagnosticCode::UnknownField, at(10), "budget_cpu".to_string()));
    assert_eq!(d.entries[0].message(), "unknown field budget_cpu");
}

#[test]
fn budget_values_must_be_unit_bearing_literals() {
    let bare = AttributeField { name: text("budget_wall", 10), value: None };
    let d = attribute_quantity(&bare).unwrap_err();
    assert_eq!(mismatch(&d), (at(10), "a unit-bearing literal".to_string(), "bare field".to_string()));

    let other = AttributeField { name: text("budget_wall", 10), value: Some(AttributeValue::Other(at(30))) };
    let d = attribute_quantity(&other).unwrap_err();
    assert_eq!(mismatch(&d), (at(30), "a unit-bearing literal".to_string(), "expression".to_string()));

    let d = parse_test_metadata(&[test_attribute(vec![string_field("budget_rss", "1KB", 10)])]).unwrap_err();
    assert_eq!(mismatch(&d), (at(15), "a unit-bearing literal".to_string(), "expression".to_string()));

    let q = quantity_field("budget_wall", "3ms", 10);
    assert_eq!(attribute_quantity(&q).unwrap(), ("3ms", at(15)));
}

#[test]
fn bad_units_are_reported_at_the_literal() {
    let d = parse_test_metadata(&[test_attribute(vec![quantity_field("budget_wall", "5MB", 10)])]).unwrap_err();
    assert_eq!(mismatch(&d).0, at(15));
    assert_eq!(mismatch(&d).1, "a duration unit (ns/us/ms/s/m/h)");

    let d = parse_test_metadata(&[test_attribute(vec![quantity_field("budget_rss", "5s", 10)])]).unwrap_err();
    assert_eq!(mismatch(&d).0, at(15));
    assert_eq!(mismatch(&d).1, "a byte unit (B/KB/MB/GB)");
}

#[test]
fn rerun_target_must_be_a_string() {
    let bare = AttributeField { name: text("rerun_with", 10), value: None };
    let d = attribute_string(&bare).unwrap_err();
    assert_eq!(mismatch(&d), (at(10), "a string literal".to_string(), "bare field".to_string()));

    let d = parse_test_metadata(&[test_attribute(vec![quantity_field("rerun_with", "5s", 10)])]).unwrap_err();
    assert_eq!(mismatch(&d), (at(15), "a string literal".to_string(), "expression".to_string()));

    let s = string_field("rerun_with", "again", 10);
    assert_eq!(attribute_string(&s).unwrap(), ("again", at(15)));
}
