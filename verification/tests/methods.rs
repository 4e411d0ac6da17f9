use vix::binding::{MethodLowering, MethodOp};
use vix::diagnostic::{DiagnosticCode, DiagnosticPayload};
use vix::methods::{resolve_method_call, tree_text_projection, MethodCallShape, MethodTarget};
use vix::strmap::StrMap;
use vix::support::{Span, Spanned};
use vix::vir::Type;

const CALL: Span = Span { start: 0, end: 30 };
const NAME: Span = Span { start: 5, end: 9 };

fn shape(name: &str, positional: usize, named: bool) -> MethodCallShape {
    MethodCallShape {
        span: CALL,
        name: Spanned { value: name.to_string(), span: NAME },
        positional,
        named_span: if named { Some(Span { start: 20, end: 25 }) } else { None },
        tree_projection: false,
    }
}

fn ints() -> Type {
    Type::Array(Box::new(Type::Int))
}

fn dedicated(t: MethodTarget) -> Option<(MethodOp, usize)> {
    match t {
        MethodTarget::Method(m) => match m.lowering {
            MethodLowering::DedicatedOp(op) => Some((op, m.arity)),
            _ => None,
        },
        _ => None,
    }
}

#[test]
fn builtin_methods_check_arity_and_named_arguments() {
    let none: StrMap<Option<Type>> = StrMap::new();
    let generics: StrMap<()> = StrMap::new();
    let t = resolve_method_call(&shape("len", 0, false), &ints(), &[], &none, &generics).unwrap();
    assert_eq!(dedicated(t), Some((MethodOp::ArrayLen, 0)));
    let t = resolve_method_call(&shape("sorted", 0, true), &ints(), &[], &none, &generics).unwrap();
    assert_eq!(dedicated(t), Some((MethodOp::ArraySorted, 0)));
    let d = resolve_method_call(&shape("map", 2, false), &ints(), &[], &none, &generics).unwrap_err();
    assert_eq!(d.entries[0].primary, CALL);
    assert_eq!(d.entries[0].payload, DiagnosticPayload::Arity { expected: 1, found: 2 });
    let d = resolve_method_call(&shape("len", 0, true), &ints(), &[], &none, &generics).unwrap_err();
    assert_eq!(d.entries[0].message(), "named method arguments");
    assert_eq!(d.entries[0].primary, Span { start: 20, end: 25 });
}

#[test]
fn other_names_resolve_by_uniform_call_syntax() {
    let mut sigs: StrMap<Option<Type>> = StrMap::new();
    sigs.insert("covers".to_string(), Some(Type::String));
    sigs.insert("describe".to_string(), None);
    let mut generics: StrMap<()> = StrMap::new();
    generics.insert("covers".to_string(), ());
    generics.insert("any".to_string(), ());
    let call = |n: &str, recv: &Type| resolve_method_call(&shape(n, 1, false), recv, &[], &sigs, &generics);
    assert!(matches!(call("covers", &Type::String).unwrap(), MethodTarget::Uniform));
    assert!(matches!(call("covers", &ints()).unwrap(), MethodTarget::UniformGeneric));
    assert!(matches!(call("describe", &ints()).unwrap(), MethodTarget::Uniform));
    assert!(matches!(call("any", &ints()).unwrap(), MethodTarget::UniformGeneric));
    let d = call("nothing", &ints()).unwrap_err();
    assert_eq!(d.entries[0].code, DiagnosticCode::UnknownMethod);
    assert_eq!(d.entries[0].primary, NAME);
    assert_eq!(d.entries[0].message(), "unknown method nothing");
}

#[test]
fn text_of_a_projection_is_recognised_by_its_shape() {
    let mut s = shape("text", 0, false);
    assert!(!tree_text_projection(&s));
    s.tree_projection = true;
    assert!(tree_text_projection(&s));
    s.positional = 1;
    assert!(!tree_text_projection(&s));
}
