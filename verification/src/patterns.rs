//! The variant an enum pattern selects: `Some(..)`/`None` on an option,
//! `Ok(..)`/`Err(..)` on a result, `Type::Variant(..)` by its path, and a
//! record pattern `Type::Variant { .. }` by its type path.

use vstd::prelude::*;
use crate::support::{Span, Spanned};
use crate::vir::{EnumType, EnumVariant, enum_option_payload, enum_result_payload};
use crate::diagnostic::{DiagnosticCode, Diagnostics};
use crate::compiler::{find_variant, is_type_mismatch, is_variant_diagnostic, nominal_base, path_name, type_mismatch,
    variant_diagnostic, variant_index};
use crate::modules::TypePath;
use crate::signature::path_text;
use crate::text::str_eq;

verus! {

/// The index of `None` in the option enum.
pub const OPTION_NONE_VARIANT: u32 = 0;
/// The index of `Some` in the option enum.
pub const OPTION_SOME_VARIANT: u32 = 1;
/// The index of `Ok` in the result enum.
pub const RESULT_OK_VARIANT: u32 = 0;
/// The index of `Err` in the result enum.
pub const RESULT_ERR_VARIANT: u32 = 1;

/// A pattern that selects an enum variant, with what the selection reads of
/// it.
#[derive(Clone, Debug, PartialEq)]
pub enum EnumPattern {
    /// `Some(..)`, at its span.
    OptionSome(Span),
    /// `None`, at its span.
    OptionNone(Span),
    /// `Ok(..)`, at its span.
    ResultOk(Span),
    /// `Err(..)`, at its span.
    ResultErr(Span),
    /// `Type::Variant(..)`: the type named and the variant.
    Variant { named_type: Spanned<String>, variant: Spanned<String> },
    /// `Type::Variant { .. }`: the record pattern's type path.
    Record(TypePath),
}

/// Why a pattern selects no variant of the enum.
pub enum PatternVariantFailure {
    /// A type mismatch at a span: expected, found.
    Mismatch(Span, Seq<char>, Seq<char>),
    /// The enum has no variant of this name, named at this span.
    Unknown(Span, Seq<char>),
}

/// The variant `p` selects in `e`, with the span the selection is reported
/// at, or why there is none.
pub open spec fn pattern_variant(e: EnumType, p: EnumPattern) -> Result<(int, Span), PatternVariantFailure> {
    match p {
        EnumPattern::OptionSome(span) => if enum_option_payload(e) is None {
            Err(PatternVariantFailure::Mismatch(span, "Option<_>"@, e.name@))
        } else {
            Ok((OPTION_SOME_VARIANT as int, span))
        },
        EnumPattern::OptionNone(span) => if enum_option_payload(e) is None {
            Err(PatternVariantFailure::Mismatch(span, "Option<_>"@, e.name@))
        } else {
            Ok((OPTION_NONE_VARIANT as int, span))
        },
        EnumPattern::ResultOk(span) => if enum_result_payload(e) is None {
            Err(PatternVariantFailure::Mismatch(span, "Result<_, _>"@, e.name@))
        } else {
            Ok((RESULT_OK_VARIANT as int, span))
        },
        EnumPattern::ResultErr(span) => if enum_result_payload(e) is None {
            Err(PatternVariantFailure::Mismatch(span, "Result<_, _>"@, e.name@))
        } else {
            Ok((RESULT_ERR_VARIANT as int, span))
        },
        EnumPattern::Variant { named_type, variant } => if named_type.value@ != nominal_base(e.name@) {
            Err(PatternVariantFailure::Mismatch(named_type.span, nominal_base(e.name@), named_type.value@))
        } else {
            let i = variant_index(e.variants@, variant.value@, e.variants@.len() as int);
            if i >= 0 { Ok((i, variant.span)) } else { Err(PatternVariantFailure::Unknown(variant.span, variant.value@)) }
        },
        EnumPattern::Record(path) => {
            let segs = path.segments@;
            if segs.len() == 0 || path_text(segs.drop_last()) != e.name@ {
                Err(PatternVariantFailure::Mismatch(path.span, e.name@, path_text(segs)))
            } else {
                let last = segs.last();
                let i = variant_index(e.variants@, last.value@, e.variants@.len() as int);
                if i >= 0 { Ok((i, last.span)) } else { Err(PatternVariantFailure::Unknown(last.span, last.value@)) }
            }
        },
    }
}

/// `d` is the diagnostic that reports `f` for enum `e`.
pub open spec fn reports_pattern_variant(d: Diagnostics, e: EnumType, f: PatternVariantFailure) -> bool {
    match f {
        PatternVariantFailure::Mismatch(span, expected, found) => is_type_mismatch(d, span, expected, found),
        PatternVariantFailure::Unknown(span, variant) =>
            is_variant_diagnostic(d, DiagnosticCode::UnknownVariant, span, e.name@, variant),
    }
}

/// Once found, the first matching variant stays the first one.
proof fn lemma_index_stays(vs: Seq<EnumVariant>, name: Seq<char>, m: int, n: int)
    requires
        0 <= m <= n,
        variant_index(vs, name, m) >= 0,
    ensures
        variant_index(vs, name, n) == variant_index(vs, name, m),
    decreases n - m,
{
    if n > m {
        lemma_index_stays(vs, name, m, n - 1);
    }
}

/// A found variant lies among the first `n`.
proof fn lemma_index_bounds(vs: Seq<EnumVariant>, name: Seq<char>, n: int)
    ensures
        -1 <= variant_index(vs, name, n) < if n < 0 { 0 } else { n },
    decreases n,
{
    if n > 0 {
        lemma_index_bounds(vs, name, n - 1);
    }
}

/// The variant an enum pattern selects: its index, the variant, and the
/// span the selection is reported at.
pub fn find_enum_pattern_variant<'a>(enumeration: &'a EnumType, pattern: &EnumPattern)
    -> (r: Result<(usize, &'a EnumVariant, Span), Diagnostics>)
    ensures
        match pattern_variant(*enumeration, *pattern) {
            Ok((i, span)) => 0 <= i < enumeration.variants@.len()
                && r == Ok::<(usize, &EnumVariant, Span), Diagnostics>((i as usize, &enumeration.variants@[i], span)),
            Err(f) => r matches Err(d) && reports_pattern_variant(d, *enumeration, f),
        },
{
    match pattern {
        EnumPattern::OptionSome(span) => {
            if enumeration.option_inner().is_none() {
                return Err(type_mismatch(*span, "Option<_>", enumeration.name.as_str()));
            }
            let i = OPTION_SOME_VARIANT as usize;
            Ok((i, &enumeration.variants[i], *span))
        },
        EnumPattern::OptionNone(span) => {
            if enumeration.option_inner().is_none() {
                return Err(type_mismatch(*span, "Option<_>", enumeration.name.as_str()));
            }
            let i = OPTION_NONE_VARIANT as usize;
            Ok((i, &enumeration.variants[i], *span))
        },
        EnumPattern::ResultOk(span) => {
            if enumeration.result_inner().is_none() {
                return Err(type_mismatch(*span, "Result<_, _>", enumeration.name.as_str()));
            }
            let i = RESULT_OK_VARIANT as usize;
            Ok((i, &enumeration.variants[i], *span))
        },
        EnumPattern::ResultErr(span) => {
            if enumeration.result_inner().is_none() {
                return Err(type_mismatch(*span, "Result<_, _>", enumeration.name.as_str()));
            }
            let i = RESULT_ERR_VARIANT as usize;
            Ok((i, &enumeration.variants[i], *span))
        },
        EnumPattern::Variant { named_type, variant } => {
            proof { lemma_index_bounds(enumeration.variants@, variant.value@, enumeration.variants@.len() as int); }
            match find_variant(enumeration, named_type, variant) {
                Ok((index, v)) => Ok((index, v, variant.span)),
                Err(d) => Err(d),
            }
        },
        EnumPattern::Record(path) => {
            let n = path.segments.len();
            if n == 0 {
                let full = path_name(path.segments.as_slice());
                return Err(type_mismatch(path.span, enumeration.name.as_str(), full.as_str()));
            }
            let owner = path_name(vstd::slice::slice_subrange(path.segments.as_slice(), 0, n - 1));
            assert(path.segments@.subrange(0, n - 1) == path.segments@.drop_last());
            if !str_eq(owner.as_str(), enumeration.name.as_str()) {
                let full = path_name(path.segments.as_slice());
                return Err(type_mismatch(path.span, enumeration.name.as_str(), full.as_str()));
            }
            let last = &path.segments[n - 1];
            proof { lemma_index_bounds(enumeration.variants@, last.value@, enumeration.variants@.len() as int); }
            let ghost vs = enumeration.variants@;
            let mut i: usize = 0;
            while i < enumeration.variants.len()
                invariant
                    i <= vs.len(),
                    vs == enumeration.variants@,
                    variant_index(vs, last.value@, i as int) == -1,
                    n == path.segments@.len(),
                    n > 0,
                    *last == path.segments@[n - 1],
                    *pattern == EnumPattern::Record(*path),
                    path_text(path.segments@.drop_last()) == enumeration.name@,
                decreases vs.len() - i,
            {
                if str_eq(enumeration.variants[i].name.as_str(), last.value.as_str()) {
                    proof { lemma_index_stays(vs, last.value@, i as int + 1, vs.len() as int); }
                    return Ok((i, &enumeration.variants[i], last.span));
                }
                i = i + 1;
            }
            Err(variant_diagnostic(DiagnosticCode::UnknownVariant, last.span, enumeration.name.as_str(),
                last.value.as_str()))
        },
    }
}

} // verus!
