//! The `#[test { … }]` attribute of a test function: its unit-bearing budget
//! fields (`budget_wall = 5s`, `budget_rss = 256MB`) and `rerun_with`.
//! Unknown and repeated fields, missing or non-literal values, and bad units
//! are typed diagnostics. Unit-bearing literals are accepted only here.

use vstd::prelude::*;
use crate::support::{Span, Spanned};
use crate::strmap::StrMap;
use crate::diagnostic::{DiagnosticCode, Diagnostics};
use crate::compiler::{duration_nanos, byte_count, duration_outcome, byte_count_outcome, field_diagnostic,
    type_mismatch, is_type_mismatch, is_field_diagnostic};
use crate::text::{owned, str_eq};

verus! {

/// The value of one attribute field, as far as the test harness reads it.
#[derive(Clone, Debug, PartialEq)]
pub enum AttributeValue {
    /// A unit-bearing literal such as `5s`.
    Quantity(Spanned<String>),
    /// A string literal.
    Str(Spanned<String>),
    /// Any other expression, at its span.
    Other(Span),
}

/// One `name = value` field of an attribute; a bare field has no value.
#[derive(Clone, Debug, PartialEq)]
pub struct AttributeField {
    pub name: Spanned<String>,
    pub value: Option<AttributeValue>,
}

/// An attribute: `#[name]` or `#[name { fields }]`.
#[derive(Clone, Debug, PartialEq)]
pub struct Attribute {
    pub name: Spanned<String>,
    pub args: Option<Vec<AttributeField>>,
}

/// A test's resource budget.
#[derive(Clone, Copy, Debug, PartialEq, Eq, Default)]
pub struct Budget {
    pub wall_ns: Option<u64>,
    pub rss_bytes: Option<u64>,
}

/// What a test's attribute says of it.
#[derive(Clone, Debug, PartialEq, Eq, Default)]
pub struct TestMetadata {
    pub budget: Budget,
    pub rerun_with: Option<String>,
}

/// Why a test attribute is refused.
pub enum MetadataFailure {
    /// A field diagnostic (`UnknownField` or `DuplicateField`) of the `test`
    /// record at the field name's span.
    Field(DiagnosticCode, Span, Seq<char>),
    /// A type mismatch at a span: what was expected, what was found.
    Mismatch(Span, Seq<char>, Seq<char>),
}

/// The fields seen so far, the wall budget, the memory budget, and the
/// rerun target.
pub type MetadataState = (Set<Seq<char>>, Option<nat>, Option<nat>, Option<Seq<char>>);

/// The span of an expression value.
pub open spec fn value_span(v: AttributeValue) -> Span {
    match v {
        AttributeValue::Quantity(q) => q.span,
        AttributeValue::Str(s) => s.span,
        AttributeValue::Other(span) => span,
    }
}

/// A budget field's value must be a unit-bearing literal: its text and span.
pub open spec fn quantity_of(field: AttributeField) -> Result<(Seq<char>, Span), MetadataFailure> {
    match field.value {
        Some(AttributeValue::Quantity(q)) => Ok((q.value@, q.span)),
        Some(other) => Err(MetadataFailure::Mismatch(value_span(other), "a unit-bearing literal"@, "expression"@)),
        None => Err(MetadataFailure::Mismatch(field.name.span, "a unit-bearing literal"@, "bare field"@)),
    }
}

/// A `rerun_with` value must be a string literal: its text and span.
pub open spec fn string_of(field: AttributeField) -> Result<(Seq<char>, Span), MetadataFailure> {
    match field.value {
        Some(AttributeValue::Str(s)) => Ok((s.value@, s.span)),
        Some(other) => Err(MetadataFailure::Mismatch(value_span(other), "a string literal"@, "expression"@)),
        None => Err(MetadataFailure::Mismatch(field.name.span, "a string literal"@, "bare field"@)),
    }
}

/// A quantity read through a unit table: the amount, or the mismatch at `span`.
pub open spec fn amount(outcome: Result<nat, (Seq<char>, Seq<char>)>, span: Span) -> Result<nat, MetadataFailure> {
    match outcome {
        Ok(n) => Ok(n),
        Err((expected, found)) => Err(MetadataFailure::Mismatch(span, expected, found)),
    }
}

/// One field of a `test` attribute, from state `st`.
pub open spec fn field_step(st: MetadataState, field: AttributeField) -> Result<MetadataState, MetadataFailure> {
    let name = field.name.value@;
    if st.0.contains(name) {
        Err(MetadataFailure::Field(DiagnosticCode::DuplicateField, field.name.span, name))
    } else {
        let seen = st.0.insert(name);
        if name == "budget_wall"@ {
            match quantity_of(field) {
                Err(e) => Err(e),
                Ok((text, span)) => match amount(duration_outcome(text), span) {
                    Err(e) => Err(e),
                    Ok(n) => Ok((seen, Some(n), st.2, st.3)),
                },
            }
        } else if name == "budget_rss"@ {
            match quantity_of(field) {
                Err(e) => Err(e),
                Ok((text, span)) => match amount(byte_count_outcome(text), span) {
                    Err(e) => Err(e),
                    Ok(n) => Ok((seen, st.1, Some(n), st.3)),
                },
            }
        } else if name == "rerun_with"@ {
            match string_of(field) {
                Err(e) => Err(e),
                Ok((text, _)) => Ok((seen, st.1, st.2, Some(text))),
            }
        } else {
            Err(MetadataFailure::Field(DiagnosticCode::UnknownField, field.name.span, name))
        }
    }
}

/// The first `n` fields, from state `st`.
pub open spec fn fields_after(fields: Seq<AttributeField>, st: MetadataState, n: int) -> Result<MetadataState, MetadataFailure>
    decreases n,
{
    if n <= 0 {
        Ok(st)
    } else {
        match fields_after(fields, st, n - 1) {
            Ok(s) => field_step(s, fields[n - 1]),
            Err(e) => Err(e),
        }
    }
}

/// One attribute: only `test` attributes with arguments count.
pub open spec fn attribute_step(st: MetadataState, attribute: Attribute) -> Result<MetadataState, MetadataFailure> {
    if attribute.name.value@ != "test"@ {
        Ok(st)
    } else {
        match attribute.args {
            None => Ok(st),
            Some(fields) => fields_after(fields@, st, fields@.len() as int),
        }
    }
}

/// The first `n` attributes.
pub open spec fn attributes_after(attributes: Seq<Attribute>, n: int) -> Result<MetadataState, MetadataFailure>
    decreases n,
{
    if n <= 0 {
        Ok((Set::empty(), None, None, None))
    } else {
        match attributes_after(attributes, n - 1) {
            Ok(s) => attribute_step(s, attributes[n - 1]),
            Err(e) => Err(e),
        }
    }
}

/// What a function's attributes say of it as a test.
pub open spec fn metadata_outcome(attributes: Seq<Attribute>) -> Result<MetadataState, MetadataFailure> {
    attributes_after(attributes, attributes.len() as int)
}

/// An optional `u64` as an optional natural number.
pub open spec fn opt_nat(o: Option<u64>) -> Option<nat> {
    match o {
        Some(n) => Some(n as nat),
        None => None,
    }
}

/// An optional string by its text.
pub open spec fn opt_string(o: Option<String>) -> Option<Seq<char>> {
    match o {
        Some(s) => Some(s@),
        None => None,
    }
}

/// `d` is the diagnostic that reports `e`.
pub open spec fn reports_metadata(d: Diagnostics, e: MetadataFailure) -> bool {
    match e {
        MetadataFailure::Field(code, span, name) => is_field_diagnostic(d, code, span, "test"@, name),
        MetadataFailure::Mismatch(span, expected, found) => is_type_mismatch(d, span, expected, found),
    }
}

/// A failure among the first `n` fields stays the outcome.
proof fn lemma_fields_failed(fields: Seq<AttributeField>, st: MetadataState, n: int, m: int)
    requires
        0 <= n <= m,
        fields_after(fields, st, n) is Err,
    ensures
        fields_after(fields, st, m) == fields_after(fields, st, n),
    decreases m - n,
{
    if m > n {
        lemma_fields_failed(fields, st, n, m - 1);
    }
}

/// A failure among the first `n` attributes stays the outcome.
proof fn lemma_attributes_failed(attributes: Seq<Attribute>, n: int, m: int)
    requires
        0 <= n <= m,
        attributes_after(attributes, n) is Err,
    ensures
        attributes_after(attributes, m) == attributes_after(attributes, n),
    decreases m - n,
{
    if m > n {
        lemma_attributes_failed(attributes, n, m - 1);
    }
}

/// A budget field value must be a unit-bearing literal (`5s`, `256MB`); a
/// bare field, a plain number or any other expression is a type mismatch.
pub fn attribute_quantity(field: &AttributeField) -> (r: Result<(&str, Span), Diagnostics>)
    ensures
        match quantity_of(*field) {
            Ok((text, span)) => r matches Ok((t, s)) && t@ == text && s == span,
            Err(MetadataFailure::Mismatch(span, e, f)) => r matches Err(d) && is_type_mismatch(d, span, e, f),
            Err(_) => false,
        },
{
    match &field.value {
        Some(AttributeValue::Quantity(quantity)) => Ok((quantity.value.as_str(), quantity.span)),
        Some(AttributeValue::Str(s)) => Err(type_mismatch(s.span, "a unit-bearing literal", "expression")),
        Some(AttributeValue::Other(span)) => Err(type_mismatch(*span, "a unit-bearing literal", "expression")),
        None => Err(type_mismatch(field.name.span, "a unit-bearing literal", "bare field")),
    }
}

/// A `rerun_with` value must be a string literal.
pub fn attribute_string(field: &AttributeField) -> (r: Result<(&str, Span), Diagnostics>)
    ensures
        match string_of(*field) {
            Ok((text, span)) => r matches Ok((t, s)) && t@ == text && s == span,
            Err(MetadataFailure::Mismatch(span, e, f)) => r matches Err(d) && is_type_mismatch(d, span, e, f),
            Err(_) => false,
        },
{
    match &field.value {
        Some(AttributeValue::Str(value)) => Ok((value.value.as_str(), value.span)),
        Some(AttributeValue::Quantity(q)) => Err(type_mismatch(q.span, "a string literal", "expression")),
        Some(AttributeValue::Other(span)) => Err(type_mismatch(*span, "a string literal", "expression")),
        None => Err(type_mismatch(field.name.span, "a string literal", "bare field")),
    }
}

/// Parse the `#[test { … }]` attribute arguments of a function's
/// `attributes` into typed metadata. Only the budget fields and
/// `rerun_with` are accepted; attributes other than `test`, and a `test`
/// attribute without arguments, say nothing.
pub fn parse_test_metadata(attributes: &[Attribute]) -> (r: Result<TestMetadata, Diagnostics>)
    ensures
        match metadata_outcome(attributes@) {
            Ok(st) => r matches Ok(m) && opt_nat(m.budget.wall_ns) == st.1 && opt_nat(m.budget.rss_bytes) == st.2
                && opt_string(m.rerun_with) == st.3,
            Err(e) => r matches Err(d) && reports_metadata(d, e),
        },
{
    let mut budget = Budget { wall_ns: None, rss_bytes: None };
    let mut rerun_with: Option<String> = None;
    let mut seen: StrMap<()> = StrMap::new();
    assert(seen@.dom() =~= Set::<Seq<char>>::empty());
    let mut i: usize = 0;
    while i < attributes.len()
        invariant
            i <= attributes@.len(),
            attributes_after(attributes@, i as int) == Ok::<MetadataState, MetadataFailure>(
                (seen@.dom(), opt_nat(budget.wall_ns), opt_nat(budget.rss_bytes), opt_string(rerun_with))),
        decreases attributes@.len() - i,
    {
        let attribute = &attributes[i];
        if !str_eq(attribute.name.value.as_str(), "test") {
            i = i + 1;
            continue;
        }
        let fields = match &attribute.args {
            None => {
                i = i + 1;
                continue;
            },
            Some(fields) => fields,
        };
        let ghost st0: MetadataState = (seen@.dom(), opt_nat(budget.wall_ns), opt_nat(budget.rss_bytes), opt_string(rerun_with));
        let mut j: usize = 0;
        while j < fields.len()
            invariant
                i < attributes@.len(),
                attribute == attributes@[i as int],
                attribute.name.value@ == "test"@,
                attribute.args == Some(*fields),
                attributes_after(attributes@, i as int) == Ok::<MetadataState, MetadataFailure>(st0),
                j <= fields@.len(),
                fields_after(fields@, st0, j as int) == Ok::<MetadataState, MetadataFailure>(
                    (seen@.dom(), opt_nat(budget.wall_ns), opt_nat(budget.rss_bytes), opt_string(rerun_with))),
            decreases fields@.len() - j,
        {
            let field = &fields[j];
            let name = field.name.value.as_str();
            proof {
                // a failure at this field is the attribute's, and the function's
                if fields_after(fields@, st0, j as int + 1) is Err {
                    lemma_fields_failed(fields@, st0, j as int + 1, fields@.len() as int);
                    lemma_attributes_failed(attributes@, i as int + 1, attributes@.len() as int);
                }
            }
            if seen.get_str(name).is_some() {
                return Err(field_diagnostic(DiagnosticCode::DuplicateField, field.name.span, "test", name));
            }
            seen.insert(owned(name), ());
            if str_eq(name, "budget_wall") {
                let (text, span) = match attribute_quantity(field) {
                    Ok(q) => q,
                    Err(d) => return Err(d),
                };
                let nanos = match duration_nanos(text, span) {
                    Ok(n) => n,
                    Err(d) => return Err(d),
                };
                budget.wall_ns = Some(nanos);
            } else if str_eq(name, "budget_rss") {
                let (text, span) = match attribute_quantity(field) {
                    Ok(q) => q,
                    Err(d) => return Err(d),
                };
                let bytes = match byte_count(text, span) {
                    Ok(n) => n,
                    Err(d) => return Err(d),
                };
                budget.rss_bytes = Some(bytes);
            } else if str_eq(name, "rerun_with") {
                let (value, _) = match attribute_string(field) {
                    Ok(v) => v,
                    Err(d) => return Err(d),
                };
                rerun_with = Some(owned(value));
            } else {
                return Err(field_diagnostic(DiagnosticCode::UnknownField, field.name.span, "test", name));
            }
            j = j + 1;
        }
        i = i + 1;
    }
    Ok(TestMetadata { budget, rerun_with })
}

} // verus!
