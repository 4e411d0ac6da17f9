//! Type-argument inference for a generic call: the declared parameter type
//! (which may mention the callee's type parameters) is unified against the
//! concrete type of the supplied argument, recording each type parameter's
//! binding. Shapes that do not correspond contribute no binding.
//!
//! Inference descends through the shapes whose type arguments survive in
//! the concrete type: arrays, tuples, function types, and the builtin
//! generics `Array<T>`, `Set<T>`, `Map<K, V>`, `Stream<K, V>`, `Option<T>`
//! and `Result<T, E>`. A user-defined generic monomorphizes its fields, so
//! its arguments cannot be inferred through it.

use vstd::prelude::*;
use crate::support::{Span, Spanned};
use crate::strmap::StrMap;
use crate::vir::{Type, type_eq, spelling, option_payload, result_payload};
use crate::signature::{SurfaceType, path_text};
use crate::diagnostic::Diagnostics;
use crate::compiler::{is_type_mismatch, path_name, type_mismatch};
use crate::text::{owned, str_eq};

verus! {

/// The bindings inferred so far, and the conflict that stopped inference
/// (the earlier binding's spelling and the new type's), if any.
pub type Inference = (Map<Seq<char>, Type>, Option<(Seq<char>, Seq<char>)>);

/// Unify `d` against `c`, with type parameters `params` and bindings `m`.
pub open spec fn infer(d: SurfaceType, c: Type, params: Set<Seq<char>>, m: Map<Seq<char>, Type>) -> Inference
    decreases d, 1int, 0int,
{
    match d {
        SurfaceType::Path(p) => if p@.len() == 1 && params.contains(p@[0].value@) {
            let name = p@[0].value@;
            if m.contains_key(name) && !type_eq(m[name], c) {
                (m, Some((spelling(m[name]), spelling(c))))
            } else {
                (m.insert(name, c), None)
            }
        } else {
            (m, None)
        },
        SurfaceType::Array(e) => match c {
            Type::Array(x) => infer(*e, *x, params, m),
            _ => (m, None),
        },
        SurfaceType::Tuple(es) => match c {
            Type::Tuple(xs) => if es@.len() == xs@.len() {
                infer_list(es@, xs@, params, m, es@.len() as int)
            } else {
                (m, None)
            },
            _ => (m, None),
        },
        SurfaceType::Function { parameter, result } => match c {
            Type::Function { parameter: p, result: r } => {
                let (m1, e1) = infer(*parameter, *p, params, m);
                if e1 is Some { (m1, e1) } else { infer(*result, *r, params, m1) }
            },
            _ => (m, None),
        },
        SurfaceType::Generic { base, args } => {
            let n = path_text(base@);
            if n == "Array"@ && args@.len() == 1 && c is Array {
                infer(args@[0], *c->Array_0, params, m)
            } else if n == "Set"@ && args@.len() == 1 && c is SetOf {
                infer(args@[0], *c->SetOf_0, params, m)
            } else if n == "Map"@ && args@.len() == 2 && c is MapOf {
                let (m1, e1) = infer(args@[0], *c->MapOf_key, params, m);
                if e1 is Some { (m1, e1) } else { infer(args@[1], *c->MapOf_value, params, m1) }
            } else if n == "Stream"@ && args@.len() == 2 && c is Stream {
                let (m1, e1) = infer(args@[0], *c->Stream_key, params, m);
                if e1 is Some { (m1, e1) } else { infer(args@[1], *c->Stream_value, params, m1) }
            } else if n == "Option"@ && args@.len() == 1 {
                match option_payload(c) {
                    Some(inner) => infer(args@[0], inner, params, m),
                    None => (m, None),
                }
            } else if n == "Result"@ && args@.len() == 2 {
                match result_payload(c) {
                    Some((ok, err)) => {
                        let (m1, e1) = infer(args@[0], ok, params, m);
                        if e1 is Some { (m1, e1) } else { infer(args@[1], err, params, m1) }
                    },
                    None => (m, None),
                }
            } else {
                (m, None)
            }
        },
    }
}

/// Unify the first `n` of `ds` against `cs`, position by position, stopping
/// at the first conflict.
pub open spec fn infer_list(ds: Seq<SurfaceType>, cs: Seq<Type>, params: Set<Seq<char>>, m: Map<Seq<char>, Type>, n: int)
    -> Inference
    decreases ds, 0int, n,
{
    if n <= 0 || n > ds.len() {
        (m, None)
    } else {
        let (m1, e1) = infer_list(ds, cs, params, m, n - 1);
        if e1 is Some {
            (m1, e1)
        } else {
            infer(ds[n - 1], cs[n - 1], params, m1)
        }
    }
}

/// Bindings only grow, and only with type parameters: what was bound stays
/// bound, and every new binding names one of `params`.
pub open spec fn grows_within(before: Map<Seq<char>, Type>, after: Map<Seq<char>, Type>, params: Set<Seq<char>>) -> bool {
    &&& forall|k: Seq<char>| #[trigger] before.contains_key(k) ==> after.contains_key(k)
    &&& forall|k: Seq<char>| #[trigger] after.contains_key(k) ==> before.contains_key(k) || params.contains(k)
}

/// `infer` only grows the bindings, with type parameters.
proof fn lemma_infer_grows(d: SurfaceType, c: Type, params: Set<Seq<char>>, m: Map<Seq<char>, Type>)
    ensures
        grows_within(m, infer(d, c, params, m).0, params),
    decreases d, 1int, 0int,
{
    match d {
        SurfaceType::Path(p) => {},
        SurfaceType::Array(e) => {
            if let Type::Array(x) = c {
                lemma_infer_grows(*e, *x, params, m);
            }
        },
        SurfaceType::Tuple(es) => {
            if let Type::Tuple(xs) = c {
                if es@.len() == xs@.len() {
                    lemma_infer_list_grows(es@, xs@, params, m, es@.len() as int);
                }
            }
        },
        SurfaceType::Function { parameter, result } => {
            if let Type::Function { parameter: p, result: r } = c {
                lemma_infer_grows(*parameter, *p, params, m);
                let m1 = infer(*parameter, *p, params, m).0;
                lemma_infer_grows(*result, *r, params, m1);
            }
        },
        SurfaceType::Generic { base, args } => {
            assert(decreases_to!(d => args@));
            if args@.len() >= 1 {
                assert(decreases_to!(args@ => args@[0]));
                lemma_infer_grows(args@[0], *c->Array_0, params, m);
                lemma_infer_grows(args@[0], *c->SetOf_0, params, m);
                lemma_infer_grows(args@[0], *c->MapOf_key, params, m);
                lemma_infer_grows(args@[0], *c->Stream_key, params, m);
                if let Some(inner) = option_payload(c) {
                    lemma_infer_grows(args@[0], inner, params, m);
                }
                if let Some((ok, _)) = result_payload(c) {
                    lemma_infer_grows(args@[0], ok, params, m);
                }
            }
            if args@.len() >= 2 {
                assert(decreases_to!(args@ => args@[1]));
                let m1 = infer(args@[0], *c->MapOf_key, params, m).0;
                lemma_infer_grows(args@[1], *c->MapOf_value, params, m1);
                let m2 = infer(args@[0], *c->Stream_key, params, m).0;
                lemma_infer_grows(args@[1], *c->Stream_value, params, m2);
                if let Some((ok, err)) = result_payload(c) {
                    let m3 = infer(args@[0], ok, params, m).0;
                    lemma_infer_grows(args@[1], err, params, m3);
                }
            }
        },
    }
}

/// `infer_list` only grows the bindings, with type parameters.
proof fn lemma_infer_list_grows(ds: Seq<SurfaceType>, cs: Seq<Type>, params: Set<Seq<char>>, m: Map<Seq<char>, Type>, n: int)
    ensures
        grows_within(m, infer_list(ds, cs, params, m, n).0, params),
    decreases ds, 0int, n,
{
    if 0 < n <= ds.len() {
        lemma_infer_list_grows(ds, cs, params, m, n - 1);
        let m1 = infer_list(ds, cs, params, m, n - 1).0;
        assert(decreases_to!(ds => ds[n - 1]));
        lemma_infer_grows(ds[n - 1], cs[n - 1], params, m1);
    }
}

/// Inference binds type parameters only, and never drops a binding: after
/// unifying a declared type against a concrete one, every name bound before
/// is still bound, and every name bound now was bound before or is one of
/// the callee's type parameters.
pub proof fn law_inference_binds_only_parameters(d: SurfaceType, c: Type, params: Set<Seq<char>>,
    m: Map<Seq<char>, Type>)
    ensures
        grows_within(m, infer(d, c, params, m).0, params),
{
    lemma_infer_grows(d, c, params, m);
}

/// `d` is the single-segment type path `name`.
pub open spec fn is_type_variable(d: SurfaceType, name: Seq<char>) -> bool {
    d matches SurfaceType::Path(p) && p@.len() == 1 && p@[0].value@ == name
}

/// The two-argument builtin generics bind their arguments positionally:
/// unifying `Map<K, V>` against a map type, or `Stream<K, V>` against a
/// stream type, where `K` and `V` are two distinct type parameters not yet
/// bound, binds `K` to the key type and `V` to the value type, and reports
/// no conflict.
pub proof fn law_map_and_stream_bind_key_then_value(base: Vec<Spanned<String>>, args: Vec<SurfaceType>,
    k: Seq<char>, v: Seq<char>, key: Type, value: Type, params: Set<Seq<char>>, m: Map<Seq<char>, Type>)
    requires
        path_text(base@) == "Map"@ || path_text(base@) == "Stream"@,
        args@.len() == 2,
        is_type_variable(args@[0], k),
        is_type_variable(args@[1], v),
        params.contains(k),
        params.contains(v),
        k != v,
        !m.contains_key(k),
        !m.contains_key(v),
    ensures
        path_text(base@) == "Map"@ ==> infer(SurfaceType::Generic { base, args },
            Type::MapOf { key: Box::new(key), value: Box::new(value) }, params, m) == (m.insert(k, key).insert(v, value),
            None::<(Seq<char>, Seq<char>)>),
        path_text(base@) == "Stream"@ ==> infer(SurfaceType::Generic { base, args },
            Type::Stream { key: Box::new(key), value: Box::new(value) }, params, m) == (m.insert(k, key).insert(v, value),
            None::<(Seq<char>, Seq<char>)>),
{
    reveal_strlit("Map");
    reveal_strlit("Stream");
    reveal_strlit("Array");
    reveal_strlit("Set");
    assert("Map"@[0] != "Set"@[0]);
    let m1 = m.insert(k, key);
    assert(m1.contains_key(k) && !m1.contains_key(v));
    assert(infer(args@[0], key, params, m) == (m1, None::<(Seq<char>, Seq<char>)>));
    assert(infer(args@[1], value, params, m1) == (m1.insert(v, value), None::<(Seq<char>, Seq<char>)>));
}

/// Results and function types bind positionally too: unifying
/// `Result<T, E>` against a result type binds `T` to its success payload and
/// `E` to its error payload, and unifying `T -> U` against a function type
/// binds `T` to its parameter and `U` to its result, when the two type
/// parameters are distinct and not yet bound; neither reports a conflict.
pub proof fn law_result_and_function_bind_positionally(base: Vec<Spanned<String>>, args: Vec<SurfaceType>,
    k: Seq<char>, v: Seq<char>, c: Type, first: Type, second: Type, params: Set<Seq<char>>, m: Map<Seq<char>, Type>)
    requires
        args@.len() == 2,
        is_type_variable(args@[0], k),
        is_type_variable(args@[1], v),
        params.contains(k),
        params.contains(v),
        k != v,
        !m.contains_key(k),
        !m.contains_key(v),
    ensures
        path_text(base@) == "Result"@ && result_payload(c) == Some((first, second)) ==> infer(
            SurfaceType::Generic { base, args }, c, params, m) == (m.insert(k, first).insert(v, second),
            None::<(Seq<char>, Seq<char>)>),
        infer(SurfaceType::Function { parameter: Box::new(args@[0]), result: Box::new(args@[1]) },
            Type::Function { parameter: Box::new(first), result: Box::new(second) }, params, m) == (
            m.insert(k, first).insert(v, second), None::<(Seq<char>, Seq<char>)>),
{
    reveal_strlit("Result");
    reveal_strlit("Stream");
    reveal_strlit("Option");
    reveal_strlit("Map");
    reveal_strlit("Array");
    reveal_strlit("Set");
    assert("Result"@[0] != "Stream"@[0] && "Result"@[0] != "Option"@[0]);
    let m1 = m.insert(k, first);
    assert(m1.contains_key(k) && !m1.contains_key(v));
    assert(infer(args@[0], first, params, m) == (m1, None::<(Seq<char>, Seq<char>)>));
    assert(infer(args@[1], second, params, m1) == (m1.insert(v, second), None::<(Seq<char>, Seq<char>)>));
}

/// The types a map of references refers to.
pub open spec fn derefs(m: Map<Seq<char>, &Type>) -> Map<Seq<char>, Type> {
    m.map_values(|t: &Type| *t)
}

/// The outcome of inference as a result.
pub open spec fn reports_inference(r: Result<(), Diagnostics>, e: Option<(Seq<char>, Seq<char>)>, span: Span) -> bool {
    match e {
        None => r is Ok,
        Some((existing, found)) => r matches Err(d) && is_type_mismatch(d, span, existing, found),
    }
}

/// Unify a declared parameter type against the concrete type of the
/// supplied argument, recording in `inferred` each type parameter's binding
/// (a reference into the concrete type). A type parameter already bound to
/// a different type is a type mismatch at `span`: the earlier binding, then
/// the new type.
pub fn infer_type_argument<'a>(declared: &SurfaceType, concrete: &'a Type, parameters: &StrMap<()>,
    inferred: &mut StrMap<&'a Type>, span: Span) -> (r: Result<(), Diagnostics>)
    ensures
        ({
            let (m, e) = infer(*declared, *concrete, parameters@.dom(), derefs(old(inferred)@));
            derefs(final(inferred)@) == m && reports_inference(r, e, span)
        }),
    decreases *declared, 1int, 0int,
{
    match declared {
        SurfaceType::Path(path) => {
            if path.len() == 1 && parameters.get_str(path[0].value.as_str()).is_some() {
                let name = path[0].value.as_str();
                match inferred.get_str(name) {
                    Some(existing) => {
                        if !existing.same(concrete) {
                            return Err(type_mismatch(span, existing.name().as_str(), concrete.name().as_str()));
                        }
                    },
                    None => {},
                }
                let ghost before = inferred@;
                inferred.insert(owned(name), concrete);
                assert(derefs(inferred@) =~= derefs(before).insert(name@, *concrete));
            }
            Ok(())
        },
        SurfaceType::Array(element) => match concrete {
            Type::Array(x) => infer_type_argument(element, x, parameters, inferred, span),
            _ => Ok(()),
        },
        SurfaceType::Tuple(elements) => match concrete {
            Type::Tuple(xs) => {
                if elements.len() == xs.len() {
                    proof { assert(decreases_to!(*declared => elements@)); }
                    infer_type_arguments(elements, xs, parameters, inferred, span)
                } else {
                    Ok(())
                }
            },
            _ => Ok(()),
        },
        SurfaceType::Function { parameter, result } => match concrete {
            Type::Function { parameter: p, result: q } => {
                match infer_type_argument(parameter, p, parameters, inferred, span) {
                    Ok(()) => {},
                    Err(d) => return Err(d),
                }
                infer_type_argument(result, q, parameters, inferred, span)
            },
            _ => Ok(()),
        },
        SurfaceType::Generic { base, args } => {
            proof {
                assert(decreases_to!(*declared => args@));
                if args@.len() > 0 {
                    assert(decreases_to!(args@ => args@[0]));
                }
                if args@.len() > 1 {
                    assert(decreases_to!(args@ => args@[1]));
                }
            }
            let name = path_name(base.as_slice());
            let n = name.as_str();
            if str_eq(n, "Array") && args.len() == 1 {
                if let Type::Array(x) = concrete {
                    return infer_type_argument(&args[0], x, parameters, inferred, span);
                }
            }
            if str_eq(n, "Set") && args.len() == 1 {
                if let Type::SetOf(x) = concrete {
                    return infer_type_argument(&args[0], x, parameters, inferred, span);
                }
            }
            if str_eq(n, "Map") && args.len() == 2 {
                if let Type::MapOf { key, value } = concrete {
                    match infer_type_argument(&args[0], key, parameters, inferred, span) {
                        Ok(()) => {},
                        Err(d) => return Err(d),
                    }
                    return infer_type_argument(&args[1], value, parameters, inferred, span);
                }
            }
            if str_eq(n, "Stream") && args.len() == 2 {
                if let Type::Stream { key, value } = concrete {
                    match infer_type_argument(&args[0], key, parameters, inferred, span) {
                        Ok(()) => {},
                        Err(d) => return Err(d),
                    }
                    return infer_type_argument(&args[1], value, parameters, inferred, span);
                }
            }
            if str_eq(n, "Option") && args.len() == 1 {
                return match concrete.option_inner() {
                    Some(inner) => infer_type_argument(&args[0], inner, parameters, inferred, span),
                    None => Ok(()),
                };
            }
            if str_eq(n, "Result") && args.len() == 2 {
                return match concrete.result_inner() {
                    Some((ok, err)) => {
                        match infer_type_argument(&args[0], ok, parameters, inferred, span) {
                            Ok(()) => {},
                            Err(d) => return Err(d),
                        }
                        infer_type_argument(&args[1], err, parameters, inferred, span)
                    },
                    None => Ok(()),
                };
            }
            Ok(())
        },
    }
}

/// Unify declared types against concrete types position by position.
fn infer_type_arguments<'a>(ds: &Vec<SurfaceType>, cs: &'a Vec<Type>, parameters: &StrMap<()>,
    inferred: &mut StrMap<&'a Type>, span: Span) -> (r: Result<(), Diagnostics>)
    requires
        ds@.len() == cs@.len(),
    ensures
        ({
            let (m, e) = infer_list(ds@, cs@, parameters@.dom(), derefs(old(inferred)@), ds@.len() as int);
            derefs(final(inferred)@) == m && reports_inference(r, e, span)
        }),
    decreases ds@, 0int, ds@.len(),
{
    let ghost m0 = derefs(inferred@);
    let mut i: usize = 0;
    while i < ds.len()
        invariant
            i <= ds@.len(),
            ds@.len() == cs@.len(),
            m0 == derefs(old(inferred)@),
            infer_list(ds@, cs@, parameters@.dom(), m0, i as int) == (derefs(inferred@), None::<(Seq<char>, Seq<char>)>),
        decreases ds@.len() - i,
    {
        proof { assert(decreases_to!(ds@ => ds@[i as int])); }
        match infer_type_argument(&ds[i], &cs[i], parameters, inferred, span) {
            Ok(()) => {},
            Err(d) => {
                proof { lemma_infer_list_stops(ds@, cs@, parameters@.dom(), m0, i as int + 1); }
                return Err(d);
            },
        }
        i = i + 1;
    }
    Ok(())
}

/// A conflict among the first `n` positions is the outcome of the whole list.
proof fn lemma_infer_list_stops(ds: Seq<SurfaceType>, cs: Seq<Type>, params: Set<Seq<char>>,
    m: Map<Seq<char>, Type>, n: int)
    requires
        0 <= n <= ds.len(),
        infer_list(ds, cs, params, m, n).1 is Some,
    ensures
        infer_list(ds, cs, params, m, ds.len() as int) == infer_list(ds, cs, params, m, n),
    decreases ds.len() - n,
{
    if n < ds.len() {
        assert(infer_list(ds, cs, params, m, n + 1) == infer_list(ds, cs, params, m, n));
        lemma_infer_list_stops(ds, cs, params, m, n + 1);
    }
}

} // verus!
