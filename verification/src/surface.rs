//! The surface syntax tree as the module rewriter reads it, and the
//! rewriter's walk over it.
//!
//! The walk rewrites every free occurrence of a renamed name to its fully
//! qualified spelling and leaves lexically bound ones alone: a block, a match
//! arm and a closure each open a scope, and a `let`, an arm's pattern and a
//! closure's parameters bind into it. A module-qualified call `m::f(..)` or
//! reference `m::f` (written like an enum variant whose type is a module of
//! the set) becomes an ordinary call or name of its qualified spelling.
//!
//! The tree keeps what the walk sees of each form: operators, literal values
//! and the names of accessed fields and called methods take no part in it,
//! and are not kept.

use vstd::prelude::*;
use crate::support::{Span, Spanned};
use crate::strmap::StrMap;
use crate::diagnostic::Diagnostics;
use crate::modules::{DeclaredItem, ImportFailure, Rewriter, TypePath, VariantPath, bound_in, leaf_views,
    names_function, qualified_outcome, reports_import, scope_sets};
use crate::signature::path_text;

verus! {

/// A pattern that binds nothing.
#[derive(Debug, PartialEq)]
pub enum InertPattern {
    /// `_`.
    Wildcard(Span),
    /// `None`.
    NoneLiteral(Span),
    /// A string literal, by its value.
    Str(Spanned<String>),
    /// A number literal, by its text.
    Number(Spanned<String>),
}

/// The wrapper of a wrapped pattern, with the pattern's span.
#[derive(Debug, PartialEq, Eq, Clone, Copy, Structural)]
pub enum Wrapper {
    /// `Some(p)`.
    SomeOf(Span),
    /// `Ok(p)`.
    OkOf(Span),
    /// `Err(p)`.
    ErrOf(Span),
}

/// A pattern.
#[derive(Debug, PartialEq)]
pub enum Pattern {
    /// A pattern that binds nothing.
    Inert(InertPattern),
    /// A name, bound by the pattern.
    Binding(Spanned<String>),
    /// `Some(p)`, `Ok(p)` or `Err(p)`.
    Wrapped(Wrapper, Box<Pattern>),
    /// `(p, ..)`, with its span.
    Tuple(Span, Vec<Pattern>),
    /// An enum variant, with its tuple payload if it has one.
    Variant { span: Span, path: VariantPath, variant: Spanned<String>, payload: Option<Vec<Pattern>> },
    /// A record pattern: the record's type, its fields, and whether it ends
    /// in `..`.
    Record { span: Span, ty: TypePath, fields: Vec<FieldPattern>, rest: bool },
}

/// One field of a record pattern; without a pattern, the field's name is the
/// binding.
#[derive(Debug, PartialEq)]
pub struct FieldPattern {
    pub name: Spanned<String>,
    pub pattern: Option<Pattern>,
}

/// A named argument or record field; without a value it is shorthand for
/// the value of that name.
#[derive(Debug, PartialEq)]
pub struct NamedValue {
    pub name: Spanned<String>,
    pub value: Option<Expr>,
}

/// A literal value.
#[derive(Debug, PartialEq)]
pub enum Literal {
    /// A number literal, by its text.
    Number(Spanned<String>),
    /// A unit-bearing literal (a duration or a byte size), by its text.
    Quantity(Spanned<String>),
    /// A string literal, by its value.
    Str(Spanned<String>),
    /// A path literal, by its value.
    Path(Spanned<String>),
    /// `true` or `false`.
    Bool(Spanned<bool>),
}

/// What holds a single operand.
#[derive(Debug, PartialEq)]
pub enum UnaryForm {
    /// A unary operator (`!`, `-`) at its span, over an expression spanning
    /// `span`.
    Operator { span: Span, op: Spanned<String> },
    /// A parenthesized expression, with its span.
    Paren(Span),
    /// `operand?`, with its span.
    Try(Span),
    /// A field access `operand.name`, with its span.
    Field(Span, Spanned<String>),
}

/// What joins two operands.
#[derive(Debug, PartialEq)]
pub enum BinaryForm {
    /// A binary operator at its span, over an expression spanning `span`.
    Operator { span: Span, op: Spanned<String> },
    /// An index `receiver[index]`.
    Index,
}

/// The kind of a collection literal.
#[derive(Debug, PartialEq, Eq, Clone, Copy, Structural)]
pub enum CollectionKind {
    ArrayLiteral,
    SetLiteral,
    TupleLiteral,
}

/// An expression.
#[derive(Debug, PartialEq)]
pub enum Expr {
    /// A name.
    Identifier(Spanned<String>),
    /// A path, string, quantity, number or boolean literal.
    Literal(Literal),
    /// A command or exec literal, by its command's tag.
    Command(Spanned<String>),
    /// A unary operator, a parenthesized expression, `?`, or a field access.
    Unary(UnaryForm, Box<Expr>),
    /// A binary operator or an index.
    Binary(BinaryForm, Box<Expr>, Box<Expr>),
    /// A call of a named function, with its positional and named arguments.
    Call { span: Span, callee: Spanned<String>, args: Vec<Expr>, named: Vec<NamedValue> },
    /// A method call: its receiver and arguments (the method is resolved
    /// against the receiver, never against scope).
    MethodCall { receiver: Box<Expr>, method: Spanned<String>, args: Vec<Expr>, named: Vec<NamedValue> },
    /// An array, set or tuple literal: its span and its elements.
    Collection(CollectionKind, Span, Vec<Expr>),
    /// A map literal, by its rows.
    MapLiteral(Vec<MapRow>),
    /// An enum variant `Type::variant`, with its tuple payload if it has one.
    Variant { span: Span, path: VariantPath, variant: Spanned<String>, payload: Option<Vec<Expr>>, named: Vec<NamedValue> },
    /// A record expression: its type, an optional spread base, its fields.
    Record { ty: TypePath, spread: Option<Box<Expr>>, fields: Vec<NamedValue> },
    /// `if`, with an optional `else` (a block, or another `if`).
    If { condition: Box<Expr>, consequent: Block, alternative: Option<Box<Expr>> },
    /// `match` over its arms.
    Match { scrutinee: Box<Expr>, arms: Vec<MatchArm> },
    /// A closure: its parameter patterns and its body.
    Closure { params: Vec<Pattern>, body: Box<Expr> },
    /// A block expression.
    Block(Block),
}

/// One row of a map literal.
#[derive(Debug, PartialEq)]
pub struct MapRow {
    pub key: Expr,
    pub value: Expr,
}

/// A block: its statements and its tail expression.
#[derive(Debug, PartialEq)]
pub struct Block {
    pub stmts: Vec<Stmt>,
    pub tail: Option<Box<Expr>>,
}

/// A statement.
#[derive(Debug, PartialEq)]
pub enum Stmt {
    /// `let pattern = value`.
    Let { pattern: Pattern, value: Expr },
    /// An expression or `yield` statement.
    Expression(Expr),
}

/// One arm of a `match`.
#[derive(Debug, PartialEq)]
pub struct MatchArm {
    pub pattern: Pattern,
    pub guard: Option<Expr>,
    pub body: Expr,
}

/// What the walk reads of a rewriter besides its scopes: the renames, the
/// module names, the module set and the rewritten file's own module.
pub type RewriteContext = (Map<Seq<char>, String>, Map<Seq<char>, ()>, Map<Seq<char>, StrMap<DeclaredItem>>, Option<Seq<char>>);

/// The context of a rewriter.
pub open spec fn context_of<'a>(r: Rewriter<'a>) -> RewriteContext {
    (r.renames@, r.available_modules@, r.module_set@, r.own())
}

/// No scope of `sc` binds `name`.
pub open spec fn unbound(sc: Seq<Set<Seq<char>>>, name: Seq<char>) -> bool {
    forall|i: int| 0 <= i < sc.len() ==> !(#[trigger] sc[i]).contains(name)
}

/// `sc` with `names` bound in its innermost scope.
pub open spec fn with_names(sc: Seq<Set<Seq<char>>>, names: Set<Seq<char>>) -> Seq<Set<Seq<char>>> {
    sc.update(sc.len() - 1, sc[sc.len() - 1].union(names))
}

/// `m` is the occurrence `n` rewritten: renamed when it is free and renamed,
/// else unchanged.
pub open spec fn renamed(c: RewriteContext, sc: Seq<Set<Seq<char>>>, n: Spanned<String>, m: Spanned<String>) -> bool {
    &&& m.span == n.span
    &&& if unbound(sc, n.value@) && c.0.contains_key(n.value@) { m.value == c.0[n.value@] } else { m.value == n.value }
}

/// The failure of a module-qualified `module::item`, if it has one.
pub open spec fn qualified_failures(c: RewriteContext, module: Spanned<String>, item: Spanned<String>) -> Seq<ImportFailure> {
    match qualified_outcome(c.2, c.3, module, item) {
        Ok(_) => seq![],
        Err(e) => seq![e],
    }
}

/// The failures of a type path: a module-qualified path of other than two
/// segments is unknown, and a two-segment one must resolve.
pub open spec fn type_path_failures(c: RewriteContext, p: TypePath) -> Seq<ImportFailure> {
    let segs = p.segments@;
    if segs.len() >= 2 && c.1.contains_key(segs[0].value@) {
        if segs.len() != 2 {
            seq![ImportFailure::Unknown(p.span, path_text(segs))]
        } else {
            qualified_failures(c, segs[0], segs[1])
        }
    } else {
        seq![]
    }
}

/// `q` is the type path `p` rewritten.
pub open spec fn type_path_rewritten(c: RewriteContext, sc: Seq<Set<Seq<char>>>, p: TypePath, q: TypePath) -> bool {
    let segs = p.segments@;
    if segs.len() >= 2 && c.1.contains_key(segs[0].value@) {
        match qualified_outcome(c.2, c.3, segs[0], segs[1]) {
            Ok(name) => q.span == p.span && leaf_views(q.segments@) == seq![(name, p.span)],
            Err(_) => true,
        }
    } else if segs.len() == 1 && unbound(sc, segs[0].value@) && c.0.contains_key(segs[0].value@) {
        &&& q.span == p.span
        &&& q.segments@.len() == 1
        &&& q.segments@[0].span == segs[0].span
        &&& q.segments@[0].value == c.0[segs[0].value@]
    } else {
        q.span == p.span && q.segments@ == segs
    }
}

/// The failures of a variant path: a module qualifier must resolve.
pub open spec fn variant_path_failures(c: RewriteContext, p: VariantPath) -> Seq<ImportFailure> {
    match p.module {
        Some(module) => qualified_failures(c, module, p.named_type),
        None => seq![],
    }
}

/// `q` is the variant path `p` rewritten: the qualifier is consumed into
/// the type's qualified name, or an unqualified type is renamed.
pub open spec fn variant_path_rewritten(c: RewriteContext, sc: Seq<Set<Seq<char>>>, p: VariantPath, q: VariantPath) -> bool {
    &&& q.module is None
    &&& match p.module {
        Some(module) => match qualified_outcome(c.2, c.3, module, p.named_type) {
            Ok(name) => q.named_type.value@ == name && q.named_type.span == p.named_type.span,
            Err(_) => true,
        },
        None => renamed(c, sc, p.named_type, q.named_type),
    }
}

// ---------------------------------------------------------------------------
// Patterns

/// The names a pattern binds.
pub open spec fn pat_names(p: Pattern) -> Set<Seq<char>>
    decreases p, 1nat,
{
    match p {
        Pattern::Inert(_) => Set::empty(),
        Pattern::Binding(n) => set![n.value@],
        Pattern::Wrapped(_, x) => pat_names(*x),
        Pattern::Tuple(_, xs) => pats_names(xs@, xs@.len()),
        Pattern::Variant { payload, .. } => match payload {
            Some(xs) => pats_names(xs@, xs@.len()),
            None => Set::empty(),
        },
        Pattern::Record { fields, .. } => fields_names(fields@, fields@.len()),
    }
}

/// The names the first `n` patterns of `ps` bind.
pub open spec fn pats_names(ps: Seq<Pattern>, n: nat) -> Set<Seq<char>>
    decreases ps, n,
{
    if n == 0 || n > ps.len() {
        Set::empty()
    } else {
        pats_names(ps, (n - 1) as nat).union(pat_names(ps[n - 1]))
    }
}

/// The names the first `n` field patterns of `fs` bind.
pub open spec fn fields_names(fs: Seq<FieldPattern>, n: nat) -> Set<Seq<char>>
    decreases fs, n,
{
    if n == 0 || n > fs.len() {
        Set::empty()
    } else {
        fields_names(fs, (n - 1) as nat).union(match fs[n - 1].pattern {
            Some(x) => pat_names(x),
            None => set![fs[n - 1].name.value@],
        })
    }
}

/// The failures of a pattern's paths, in walk order.
pub open spec fn pat_failures(c: RewriteContext, p: Pattern) -> Seq<ImportFailure>
    decreases p, 1nat,
{
    match p {
        Pattern::Inert(_) | Pattern::Binding(_) => seq![],
        Pattern::Wrapped(_, x) => pat_failures(c, *x),
        Pattern::Tuple(_, xs) => pats_failures(c, xs@, 0),
        Pattern::Variant { path, payload, .. } => variant_path_failures(c, path) + match payload {
            Some(xs) => pats_failures(c, xs@, 0),
            None => seq![],
        },
        Pattern::Record { ty, fields, .. } => type_path_failures(c, ty) + fields_failures(c, fields@, 0),
    }
}

/// The failures of the patterns of `ps` from the `i`-th on, in order.
pub open spec fn pats_failures(c: RewriteContext, ps: Seq<Pattern>, i: nat) -> Seq<ImportFailure>
    decreases ps, (ps.len() - i) as nat,
{
    if i < ps.len() {
        pat_failures(c, ps[i as int]) + pats_failures(c, ps, i + 1)
    } else {
        seq![]
    }
}

/// The failures of one field pattern.
pub open spec fn field_failures(c: RewriteContext, f: FieldPattern) -> Seq<ImportFailure>
    decreases f, 0nat,
{
    match f.pattern {
        Some(x) => pat_failures(c, x),
        None => seq![],
    }
}

/// The failures of the field patterns of `fs` from the `i`-th on, in order.
pub open spec fn fields_failures(c: RewriteContext, fs: Seq<FieldPattern>, i: nat) -> Seq<ImportFailure>
    decreases fs, (fs.len() - i) as nat,
{
    if i < fs.len() {
        field_failures(c, fs[i as int]) + fields_failures(c, fs, i + 1)
    } else {
        seq![]
    }
}

/// `q` is the pattern `p` rewritten in scopes `sc`: its paths are rewritten,
/// each part in the scopes that the parts before it have bound into.
pub open spec fn pat_rewritten(c: RewriteContext, sc: Seq<Set<Seq<char>>>, p: Pattern, q: Pattern) -> bool
    decreases p, 1nat,
{
    match p {
        Pattern::Inert(s) => q == Pattern::Inert(s),
        Pattern::Binding(n) => q == Pattern::Binding(n),
        Pattern::Wrapped(w, x) => q matches Pattern::Wrapped(w2, y) && w2 == w && pat_rewritten(c, sc, *x, *y),
        Pattern::Tuple(s, xs) => q matches Pattern::Tuple(s2, ys) && s2 == s && pats_rewritten(c, sc, xs@, ys@),
        Pattern::Variant { span, path, variant, payload } => match q {
            Pattern::Variant { span: span2, path: path2, variant: variant2, payload: payload2 } => {
                &&& span2 == span
                &&& variant_path_rewritten(c, sc, path, path2)
                &&& variant2 == variant
                &&& match payload {
                    Some(xs) => payload2 matches Some(ys) && pats_rewritten(c, sc, xs@, ys@),
                    None => payload2 is None,
                }
            },
            _ => false,
        },
        Pattern::Record { span, ty, fields, rest } => match q {
            Pattern::Record { span: span2, ty: ty2, fields: fields2, rest: rest2 } =>
                span2 == span && rest2 == rest && type_path_rewritten(c, sc, ty, ty2)
                    && fields_rewritten(c, sc, fields@, fields2@),
            _ => false,
        },
    }
}

/// Each pattern of `ys` is the one of `xs` rewritten, in the scopes that the
/// patterns before it have bound into.
pub open spec fn pats_rewritten(c: RewriteContext, sc: Seq<Set<Seq<char>>>, xs: Seq<Pattern>, ys: Seq<Pattern>) -> bool
    decreases xs, 0nat,
{
    &&& xs.len() == ys.len()
    &&& forall|i: int| 0 <= i < xs.len() ==>
        pat_rewritten(c, with_names(sc, pats_names(xs, i as nat)), #[trigger] xs[i], ys[i])
}

/// Each field pattern of `gs` is the one of `fs` rewritten, in the scopes
/// that the fields before it have bound into.
pub open spec fn fields_rewritten(c: RewriteContext, sc: Seq<Set<Seq<char>>>, fs: Seq<FieldPattern>, gs: Seq<FieldPattern>) -> bool
    decreases fs, 0nat,
{
    &&& fs.len() == gs.len()
    &&& forall|i: int| 0 <= i < fs.len() ==> {
        &&& (#[trigger] gs[i]).name == fs[i].name
        &&& match fs[i].pattern {
            Some(x) => gs[i].pattern matches Some(y) && pat_rewritten(c, with_names(sc, fields_names(fs, i as nat)), x, y),
            None => gs[i].pattern is None,
        }
    }
}

// ---------------------------------------------------------------------------
// Expressions

/// The names the `let`s among the first `n` statements of `ss` bind.
pub open spec fn lets_names(ss: Seq<Stmt>, n: nat) -> Set<Seq<char>>
    decreases n,
{
    if n == 0 || n > ss.len() {
        Set::empty()
    } else {
        lets_names(ss, (n - 1) as nat).union(match ss[n - 1] {
            Stmt::Let { pattern, .. } => pat_names(pattern),
            Stmt::Expression(_) => Set::empty(),
        })
    }
}

/// `e` is written like an enum variant whose type is a module of the set:
/// a module-qualified call or name.
pub open spec fn module_qualified(c: RewriteContext, e: Expr) -> bool {
    e matches Expr::Variant { path, .. } && c.1.contains_key(path.named_type.value@)
}

/// The failures of an expression's paths and qualified names, in walk
/// order; the walk stops at the first.
pub open spec fn expr_failures(c: RewriteContext, e: Expr) -> Seq<ImportFailure>
    decreases e, 1nat,
{
    match e {
        Expr::Identifier(_) | Expr::Literal(_) | Expr::Command(_) => seq![],
        Expr::Unary(_, x) => expr_failures(c, *x),
        Expr::Binary(_, a, b) => expr_failures(c, *a) + expr_failures(c, *b),
        Expr::Call { args, named, .. } => exprs_failures(c, args@, 0) + named_failures(c, named@, 0),
        Expr::MethodCall { receiver, args, named, .. } =>
            expr_failures(c, *receiver) + exprs_failures(c, args@, 0) + named_failures(c, named@, 0),
        Expr::Collection(_, _, xs) => exprs_failures(c, xs@, 0),
        Expr::MapLiteral(rows) => rows_failures(c, rows@, 0),
        Expr::Variant { path, variant, payload, named, .. } => {
            if c.1.contains_key(path.named_type.value@) && payload is Some {
                qualified_failures(c, path.named_type, variant) + exprs_failures(c, payload->Some_0@, 0)
                    + named_failures(c, named@, 0)
            } else if c.1.contains_key(path.named_type.value@) && names_function(c.2, path.named_type.value@, variant.value@) {
                qualified_failures(c, path.named_type, variant)
            } else {
                variant_path_failures(c, path) + (match payload {
                    Some(xs) => exprs_failures(c, xs@, 0),
                    None => seq![],
                }) + named_failures(c, named@, 0)
            }
        },
        Expr::Record { ty, spread, fields } => type_path_failures(c, ty) + (match spread {
            Some(x) => expr_failures(c, *x),
            None => seq![],
        }) + named_failures(c, fields@, 0),
        Expr::If { condition, consequent, alternative } => expr_failures(c, *condition) + block_failures(c, consequent)
            + (match alternative {
                Some(x) => expr_failures(c, *x),
                None => seq![],
            }),
        Expr::Match { scrutinee, arms } => expr_failures(c, *scrutinee) + arms_failures(c, arms@, 0),
        Expr::Closure { params, body } => pats_failures(c, params@, 0) + expr_failures(c, *body),
        Expr::Block(b) => block_failures(c, b),
    }
}

/// The failures of the expressions of `xs` from the `i`-th on, in order.
pub open spec fn exprs_failures(c: RewriteContext, xs: Seq<Expr>, i: nat) -> Seq<ImportFailure>
    decreases xs, (xs.len() - i) as nat,
{
    if i < xs.len() {
        expr_failures(c, xs[i as int]) + exprs_failures(c, xs, i + 1)
    } else {
        seq![]
    }
}

/// The failures of one named value.
pub open spec fn named_value_failures(c: RewriteContext, v: NamedValue) -> Seq<ImportFailure>
    decreases v, 1nat,
{
    match v.value {
        Some(x) => expr_failures(c, x),
        None => seq![],
    }
}

/// The failures of the named values of `vs` from the `i`-th on, in order.
pub open spec fn named_failures(c: RewriteContext, vs: Seq<NamedValue>, i: nat) -> Seq<ImportFailure>
    decreases vs, (vs.len() - i) as nat,
{
    if i < vs.len() {
        named_value_failures(c, vs[i as int]) + named_failures(c, vs, i + 1)
    } else {
        seq![]
    }
}

/// The failures of one map row: its key's, then its value's.
pub open spec fn row_failures(c: RewriteContext, row: MapRow) -> Seq<ImportFailure>
    decreases row, 1nat,
{
    expr_failures(c, row.key) + expr_failures(c, row.value)
}

/// The failures of the map rows of `rows` from the `i`-th on, in order.
pub open spec fn rows_failures(c: RewriteContext, rows: Seq<MapRow>, i: nat) -> Seq<ImportFailure>
    decreases rows, (rows.len() - i) as nat,
{
    if i < rows.len() {
        row_failures(c, rows[i as int]) + rows_failures(c, rows, i + 1)
    } else {
        seq![]
    }
}

/// The failures of a block: its statements', then its tail's.
pub open spec fn block_failures(c: RewriteContext, b: Block) -> Seq<ImportFailure>
    decreases b, 1nat,
{
    stmts_failures(c, b.stmts@, 0) + match b.tail {
        Some(x) => expr_failures(c, *x),
        None => seq![],
    }
}

/// The failures of one statement: a `let`'s value first, then its pattern.
pub open spec fn stmt_failures(c: RewriteContext, st: Stmt) -> Seq<ImportFailure>
    decreases st, 1nat,
{
    match st {
        Stmt::Let { pattern, value } => expr_failures(c, value) + pat_failures(c, pattern),
        Stmt::Expression(x) => expr_failures(c, x),
    }
}

/// The failures of the statements of `ss` from the `i`-th on, in order.
pub open spec fn stmts_failures(c: RewriteContext, ss: Seq<Stmt>, i: nat) -> Seq<ImportFailure>
    decreases ss, (ss.len() - i) as nat,
{
    if i < ss.len() {
        stmt_failures(c, ss[i as int]) + stmts_failures(c, ss, i + 1)
    } else {
        seq![]
    }
}

/// The failures of one arm: its pattern's, its guard's, its body's.
pub open spec fn arm_failures(c: RewriteContext, a: MatchArm) -> Seq<ImportFailure>
    decreases a, 1nat,
{
    pat_failures(c, a.pattern) + (match a.guard {
        Some(x) => expr_failures(c, x),
        None => seq![],
    }) + expr_failures(c, a.body)
}

/// The failures of the arms of `arms` from the `i`-th on, in order.
pub open spec fn arms_failures(c: RewriteContext, arms: Seq<MatchArm>, i: nat) -> Seq<ImportFailure>
    decreases arms, (arms.len() - i) as nat,
{
    if i < arms.len() {
        arm_failures(c, arms[i as int]) + arms_failures(c, arms, i + 1)
    } else {
        seq![]
    }
}

/// `f` is the expression `e` rewritten in scopes `sc`.
pub open spec fn expr_rewritten(c: RewriteContext, sc: Seq<Set<Seq<char>>>, e: Expr, f: Expr) -> bool
    decreases e, 1nat,
{
    match e {
        Expr::Identifier(n) => f matches Expr::Identifier(m) && renamed(c, sc, n, m),
        Expr::Literal(s) => f == Expr::Literal(s),
        Expr::Command(t) => f matches Expr::Command(u) && renamed(c, sc, t, u),
        Expr::Unary(k, x) => f matches Expr::Unary(k2, y) && k2 == k && expr_rewritten(c, sc, *x, *y),
        Expr::Binary(k, a, b) => f matches Expr::Binary(k2, a2, b2) && k2 == k && expr_rewritten(c, sc, *a, *a2)
            && expr_rewritten(c, sc, *b, *b2),
        Expr::Call { span, callee, args, named } => match f {
            Expr::Call { span: span2, callee: callee2, args: args2, named: named2 } => {
                &&& span2 == span
                &&& renamed(c, sc, callee, callee2)
                &&& exprs_rewritten(c, sc, args@, args2@)
                &&& named_rewritten(c, sc, named@, named2@)
            },
            _ => false,
        },
        Expr::MethodCall { receiver, method, args, named } => match f {
            Expr::MethodCall { receiver: receiver2, method: method2, args: args2, named: named2 } => {
                &&& method2 == method
                &&& expr_rewritten(c, sc, *receiver, *receiver2)
                &&& exprs_rewritten(c, sc, args@, args2@)
                &&& named_rewritten(c, sc, named@, named2@)
            },
            _ => false,
        },
        Expr::Collection(k, s, xs) => f matches Expr::Collection(k2, s2, ys) && k2 == k && s2 == s
            && exprs_rewritten(c, sc, xs@, ys@),
        Expr::MapLiteral(rows) => f matches Expr::MapLiteral(rows2) && rows_rewritten(c, sc, rows@, rows2@),
        Expr::Variant { span, path, variant, payload, named } => {
            if c.1.contains_key(path.named_type.value@) && payload is Some {
                match f {
                    Expr::Call { span: span2, callee, args, named: named2 } => {
                        &&& span2 == span
                        &&& callee.span == variant.span
                        &&& qualified_outcome(c.2, c.3, path.named_type, variant) == Ok::<Seq<char>, ImportFailure>(callee.value@)
                        &&& exprs_rewritten(c, sc, payload->Some_0@, args@)
                        &&& named_rewritten(c, sc, named@, named2@)
                    },
                    _ => false,
                }
            } else if c.1.contains_key(path.named_type.value@) && names_function(c.2, path.named_type.value@, variant.value@) {
                f matches Expr::Identifier(m) && m.span == span
                    && qualified_outcome(c.2, c.3, path.named_type, variant) == Ok::<Seq<char>, ImportFailure>(m.value@)
            } else {
                match f {
                    Expr::Variant { span: span2, path: path2, variant: variant2, payload: payload2, named: named2 } => {
                        &&& span2 == span
                        &&& variant_path_rewritten(c, sc, path, path2)
                        &&& variant2 == variant
                        &&& match payload {
                            Some(xs) => payload2 matches Some(ys) && exprs_rewritten(c, sc, xs@, ys@),
                            None => payload2 is None,
                        }
                        &&& named_rewritten(c, sc, named@, named2@)
                    },
                    _ => false,
                }
            }
        },
        Expr::Record { ty, spread, fields } => match f {
            Expr::Record { ty: ty2, spread: spread2, fields: fields2 } => {
                &&& type_path_rewritten(c, sc, ty, ty2)
                &&& match spread {
                    Some(x) => spread2 matches Some(y) && expr_rewritten(c, sc, *x, *y),
                    None => spread2 is None,
                }
                &&& named_rewritten(c, sc, fields@, fields2@)
            },
            _ => false,
        },
        Expr::If { condition, consequent, alternative } => match f {
            Expr::If { condition: condition2, consequent: consequent2, alternative: alternative2 } => {
                &&& expr_rewritten(c, sc, *condition, *condition2)
                &&& block_rewritten(c, sc, consequent, consequent2)
                &&& match alternative {
                    Some(x) => alternative2 matches Some(y) && expr_rewritten(c, sc, *x, *y),
                    None => alternative2 is None,
                }
            },
            _ => false,
        },
        Expr::Match { scrutinee, arms } => match f {
            Expr::Match { scrutinee: scrutinee2, arms: arms2 } =>
                expr_rewritten(c, sc, *scrutinee, *scrutinee2) && arms_rewritten(c, sc, arms@, arms2@),
            _ => false,
        },
        Expr::Closure { params, body } => match f {
            Expr::Closure { params: params2, body: body2 } => {
                &&& pats_rewritten(c, sc.push(Set::empty()), params@, params2@)
                &&& expr_rewritten(c, with_names(sc.push(Set::empty()), pats_names(params@, params@.len())), *body, *body2)
            },
            _ => false,
        },
        Expr::Block(b) => f matches Expr::Block(b2) && block_rewritten(c, sc, b, b2),
    }
}

/// Each expression of `ys` is the one of `xs` rewritten.
pub open spec fn exprs_rewritten(c: RewriteContext, sc: Seq<Set<Seq<char>>>, xs: Seq<Expr>, ys: Seq<Expr>) -> bool
    decreases xs, 0nat,
{
    &&& xs.len() == ys.len()
    &&& forall|i: int| 0 <= i < xs.len() ==> expr_rewritten(c, sc, #[trigger] xs[i], ys[i])
}

/// `w` is the named value `v` rewritten: its value rewritten, or, for a
/// shorthand whose name is free and renamed, the value of the qualified
/// name made explicit.
pub open spec fn named_value_rewritten(c: RewriteContext, sc: Seq<Set<Seq<char>>>, v: NamedValue, w: NamedValue) -> bool
    decreases v, 1nat,
{
    &&& w.name == v.name
    &&& match v.value {
        Some(x) => w.value matches Some(y) && expr_rewritten(c, sc, x, y),
        None => if unbound(sc, v.name.value@) && c.0.contains_key(v.name.value@) {
            w.value matches Some(Expr::Identifier(m)) && m.span == v.name.span && m.value == c.0[v.name.value@]
        } else {
            w.value is None
        },
    }
}

/// Each named value of `ws` is the one of `vs` rewritten.
pub open spec fn named_rewritten(c: RewriteContext, sc: Seq<Set<Seq<char>>>, vs: Seq<NamedValue>, ws: Seq<NamedValue>) -> bool
    decreases vs, 0nat,
{
    &&& vs.len() == ws.len()
    &&& forall|i: int| 0 <= i < vs.len() ==> named_value_rewritten(c, sc, #[trigger] vs[i], ws[i])
}

/// `t` is the map row `r` rewritten.
pub open spec fn row_rewritten(c: RewriteContext, sc: Seq<Set<Seq<char>>>, r: MapRow, t: MapRow) -> bool
    decreases r, 1nat,
{
    expr_rewritten(c, sc, r.key, t.key) && expr_rewritten(c, sc, r.value, t.value)
}

/// Each map row of `ts` is the one of `rs` rewritten.
pub open spec fn rows_rewritten(c: RewriteContext, sc: Seq<Set<Seq<char>>>, rs: Seq<MapRow>, ts: Seq<MapRow>) -> bool
    decreases rs, 0nat,
{
    &&& rs.len() == ts.len()
    &&& forall|i: int| 0 <= i < rs.len() ==> row_rewritten(c, sc, #[trigger] rs[i], ts[i])
}

/// `b2` is the block `b` rewritten: in a scope of its own, each statement
/// in the scopes the `let`s before it bound into, and the tail after all.
pub open spec fn block_rewritten(c: RewriteContext, sc: Seq<Set<Seq<char>>>, b: Block, b2: Block) -> bool
    decreases b, 1nat,
{
    &&& stmts_rewritten(c, sc.push(Set::empty()), b.stmts@, b2.stmts@)
    &&& match b.tail {
        Some(x) => b2.tail matches Some(y)
            && expr_rewritten(c, with_names(sc.push(Set::empty()), lets_names(b.stmts@, b.stmts@.len())), *x, *y),
        None => b2.tail is None,
    }
}

/// `t` is the statement `st` rewritten: a `let`'s value and pattern both in
/// the scopes before it.
pub open spec fn stmt_rewritten(c: RewriteContext, sc: Seq<Set<Seq<char>>>, st: Stmt, t: Stmt) -> bool
    decreases st, 1nat,
{
    match st {
        Stmt::Let { pattern, value } => match t {
            Stmt::Let { pattern: pattern2, value: value2 } =>
                expr_rewritten(c, sc, value, value2) && pat_rewritten(c, sc, pattern, pattern2),
            _ => false,
        },
        Stmt::Expression(x) => t matches Stmt::Expression(y) && expr_rewritten(c, sc, x, y),
    }
}

/// Each statement of `ts` is the one of `ss` rewritten, in the scopes the
/// `let`s before it bound into.
pub open spec fn stmts_rewritten(c: RewriteContext, sc: Seq<Set<Seq<char>>>, ss: Seq<Stmt>, ts: Seq<Stmt>) -> bool
    decreases ss, 0nat,
{
    &&& ss.len() == ts.len()
    &&& forall|i: int| 0 <= i < ss.len() ==> stmt_rewritten(c, with_names(sc, lets_names(ss, i as nat)), #[trigger] ss[i], ts[i])
}

/// `b` is the arm `a` rewritten: in a scope of its own, the pattern, then
/// the guard and the body in what the pattern bound.
pub open spec fn arm_rewritten(c: RewriteContext, sc: Seq<Set<Seq<char>>>, a: MatchArm, b: MatchArm) -> bool
    decreases a, 1nat,
{
    let inner = with_names(sc.push(Set::empty()), pat_names(a.pattern));
    &&& pat_rewritten(c, sc.push(Set::empty()), a.pattern, b.pattern)
    &&& match a.guard {
        Some(x) => b.guard matches Some(y) && expr_rewritten(c, inner, x, y),
        None => b.guard is None,
    }
    &&& expr_rewritten(c, inner, a.body, b.body)
}

/// Each arm of `bs` is the one of `arms` rewritten.
pub open spec fn arms_rewritten(c: RewriteContext, sc: Seq<Set<Seq<char>>>, arms: Seq<MatchArm>, bs: Seq<MatchArm>) -> bool
    decreases arms, 0nat,
{
    &&& arms.len() == bs.len()
    &&& forall|i: int| 0 <= i < arms.len() ==> arm_rewritten(c, sc, #[trigger] arms[i], bs[i])
}

// ---------------------------------------------------------------------------
// The walk

/// `b` is `a` with `names` bound into its innermost scope.
pub open spec fn scopes_extended(a: Seq<StrMap<()>>, b: Seq<StrMap<()>>, names: Set<Seq<char>>) -> bool {
    &&& b.len() == a.len()
    &&& forall|j: int| 0 <= j < a.len() - 1 ==> b[j] == a[j]
    &&& b.len() > 0 ==> b.last()@.dom() == a.last()@.dom().union(names)
}

/// A rewriter's scopes bind a name exactly when no scope of their view
/// leaves it free.
proof fn lemma_bound(scopes: Seq<StrMap<()>>, name: Seq<char>)
    ensures
        bound_in(scopes, name) == !unbound(scope_sets(scopes), name),
{
    if bound_in(scopes, name) {
        let i = choose|i: int| 0 <= i < scopes.len() && (#[trigger] scopes[i])@.contains_key(name);
        assert(scope_sets(scopes)[i].contains(name));
    }
    if !unbound(scope_sets(scopes), name) {
        let i = choose|i: int| 0 <= i < scope_sets(scopes).len() && (#[trigger] scope_sets(scopes)[i]).contains(name);
        assert(scopes[i]@.contains_key(name));
    }
}

/// Extending the scopes extends their view.
proof fn lemma_extended(a: Seq<StrMap<()>>, b: Seq<StrMap<()>>, names: Set<Seq<char>>)
    requires
        a.len() > 0,
        scopes_extended(a, b, names),
    ensures
        scope_sets(b) == with_names(scope_sets(a), names),
{
    assert(scope_sets(b) =~= with_names(scope_sets(a), names));
}

/// Extending twice extends by both.
proof fn lemma_extended_twice(a: Seq<StrMap<()>>, b: Seq<StrMap<()>>, c: Seq<StrMap<()>>, n1: Set<Seq<char>>,
    n2: Set<Seq<char>>)
    requires
        a.len() > 0,
        scopes_extended(a, b, n1),
        scopes_extended(b, c, n2),
    ensures
        scopes_extended(a, c, n1.union(n2)),
{
    assert(a.last()@.dom().union(n1).union(n2) =~= a.last()@.dom().union(n1.union(n2)));
}

/// A copy of a spanned name.
fn copy_name(s: &Spanned<String>) -> (r: Spanned<String>)
    ensures
        r == *s,
{
    Spanned { value: s.value.clone(), span: s.span }
}

/// A copy of a type path.
fn copy_type_path(p: &TypePath) -> (q: TypePath)
    ensures
        q.span == p.span,
        q.segments@ == p.segments@,
{
    let mut segments: Vec<Spanned<String>> = Vec::new();
    let mut i: usize = 0;
    while i < p.segments.len()
        invariant
            i <= p.segments@.len(),
            segments@ == p.segments@.take(i as int),
        decreases p.segments@.len() - i,
    {
        segments.push(copy_name(&p.segments[i]));
        assert(p.segments@.take(i as int + 1) == p.segments@.take(i as int).push(p.segments@[i as int]));
        i = i + 1;
    }
    assert(p.segments@.take(p.segments@.len() as int) == p.segments@);
    TypePath { span: p.span, segments }
}

/// A copy of a variant path.
fn copy_variant_path(p: &VariantPath) -> (q: VariantPath)
    ensures
        q == *p,
{
    let module = match &p.module {
        Some(m) => Some(copy_name(m)),
        None => None,
    };
    VariantPath { module, named_type: copy_name(&p.named_type) }
}

/// A copy of an inert pattern.
fn copy_inert(p: &InertPattern) -> (q: InertPattern)
    ensures
        q == *p,
{
    match p {
        InertPattern::Wildcard(s) => InertPattern::Wildcard(*s),
        InertPattern::NoneLiteral(s) => InertPattern::NoneLiteral(*s),
        InertPattern::Str(v) => InertPattern::Str(copy_name(v)),
        InertPattern::Number(v) => InertPattern::Number(copy_name(v)),
    }
}

/// A copy of a literal.
fn copy_literal(l: &Literal) -> (m: Literal)
    ensures
        m == *l,
{
    match l {
        Literal::Number(v) => Literal::Number(copy_name(v)),
        Literal::Quantity(v) => Literal::Quantity(copy_name(v)),
        Literal::Str(v) => Literal::Str(copy_name(v)),
        Literal::Path(v) => Literal::Path(copy_name(v)),
        Literal::Bool(b) => Literal::Bool(Spanned { value: b.value, span: b.span }),
    }
}

/// A copy of a unary form.
fn copy_unary_form(k: &UnaryForm) -> (m: UnaryForm)
    ensures
        m == *k,
{
    match k {
        UnaryForm::Operator { span, op } => UnaryForm::Operator { span: *span, op: copy_name(op) },
        UnaryForm::Paren(s) => UnaryForm::Paren(*s),
        UnaryForm::Try(s) => UnaryForm::Try(*s),
        UnaryForm::Field(s, n) => UnaryForm::Field(*s, copy_name(n)),
    }
}

/// A copy of a binary form.
fn copy_binary_form(k: &BinaryForm) -> (m: BinaryForm)
    ensures
        m == *k,
{
    match k {
        BinaryForm::Operator { span, op } => BinaryForm::Operator { span: *span, op: copy_name(op) },
        BinaryForm::Index => BinaryForm::Index,
    }
}

impl<'a> Rewriter<'a> {
    /// A type path rewritten, or the failure of its qualified spelling.
    fn rewritten_type_path(&mut self, p: &TypePath) -> (r: Result<TypePath, Diagnostics>)
        ensures
            *final(self) == *old(self),
            match r {
                Ok(q) => type_path_failures(context_of(*old(self)), *p).len() == 0
                    && type_path_rewritten(context_of(*old(self)), scope_sets(old(self).scopes@), *p, q),
                Err(d) => type_path_failures(context_of(*old(self)), *p).len() > 0
                    && reports_import(d, type_path_failures(context_of(*old(self)), *p)[0]),
            },
    {
        let mut q = copy_type_path(p);
        proof {
            if p.segments@.len() >= 1 {
                lemma_bound(self.scopes@, p.segments@[0].value@);
            }
        }
        match self.type_path(&mut q) {
            Ok(()) => Ok(q),
            Err(d) => Err(d),
        }
    }

    /// A variant path rewritten, or the failure of its qualifier.
    fn rewritten_variant_path(&mut self, p: &VariantPath) -> (r: Result<VariantPath, Diagnostics>)
        ensures
            *final(self) == *old(self),
            match r {
                Ok(q) => variant_path_failures(context_of(*old(self)), *p).len() == 0
                    && variant_path_rewritten(context_of(*old(self)), scope_sets(old(self).scopes@), *p, q),
                Err(d) => variant_path_failures(context_of(*old(self)), *p).len() > 0
                    && reports_import(d, variant_path_failures(context_of(*old(self)), *p)[0]),
            },
    {
        let mut q = copy_variant_path(p);
        proof { lemma_bound(self.scopes@, p.named_type.value@); }
        match self.variant_path(&mut q) {
            Ok(()) => Ok(q),
            Err(d) => Err(d),
        }
    }

    /// Walk a pattern: its paths rewritten, its names bound into the
    /// innermost scope, part by part.
    pub fn pattern(&mut self, p: &Pattern) -> (r: Result<Pattern, Diagnostics>)
        requires
            old(self).scopes@.len() > 0,
        ensures
            context_of(*final(self)) == context_of(*old(self)),
            final(self).scopes@.len() == old(self).scopes@.len(),
            forall|j: int| 0 <= j < old(self).scopes@.len() - 1 ==> final(self).scopes@[j] == old(self).scopes@[j],
            match r {
                Ok(q) => {
                    &&& pat_failures(context_of(*old(self)), *p).len() == 0
                    &&& pat_rewritten(context_of(*old(self)), scope_sets(old(self).scopes@), *p, q)
                    &&& scopes_extended(old(self).scopes@, final(self).scopes@, pat_names(*p))
                },
                Err(d) => pat_failures(context_of(*old(self)), *p).len() > 0
                    && reports_import(d, pat_failures(context_of(*old(self)), *p)[0]),
            },
        decreases p,
    {
        let ghost c = context_of(*self);
        let ghost s0 = self.scopes@;
        match p {
            Pattern::Inert(i) => {
                assert(s0.last()@.dom().union(Set::empty()) =~= s0.last()@.dom());
                Ok(Pattern::Inert(copy_inert(i)))
            },
            Pattern::Binding(n) => {
                self.bind(n);
                assert(s0.last()@.dom().insert(n.value@) =~= s0.last()@.dom().union(set![n.value@]));
                Ok(Pattern::Binding(copy_name(n)))
            },
            Pattern::Wrapped(w, x) => {
                match self.pattern(x) {
                    Ok(y) => Ok(Pattern::Wrapped(*w, Box::new(y))),
                    Err(d) => Err(d),
                }
            },
            Pattern::Tuple(span, xs) => {
                match self.patterns(xs) {
                    Ok(ys) => Ok(Pattern::Tuple(*span, ys)),
                    Err(d) => Err(d),
                }
            },
            Pattern::Variant { span, path, variant, payload } => {
                let path2 = match self.rewritten_variant_path(path) {
                    Ok(q) => q,
                    Err(d) => return Err(d),
                };
                match payload {
                    Some(xs) => {
                        match self.patterns(xs) {
                            Ok(ys) => Ok(Pattern::Variant { span: *span, path: path2, variant: copy_name(variant), payload: Some(ys) }),
                            Err(d) => Err(d),
                        }
                    },
                    None => {
                        assert(s0.last()@.dom().union(Set::empty()) =~= s0.last()@.dom());
                        Ok(Pattern::Variant { span: *span, path: path2, variant: copy_name(variant), payload: None })
                    },
                }
            },
            Pattern::Record { span, ty, fields, rest } => {
                let ty2 = match self.rewritten_type_path(ty) {
                    Ok(q) => q,
                    Err(d) => return Err(d),
                };
                match self.field_patterns(fields) {
                    Ok(gs) => Ok(Pattern::Record { span: *span, ty: ty2, fields: gs, rest: *rest }),
                    Err(d) => Err(d),
                }
            },
        }
    }

    /// Walk patterns in order, each in the scopes the ones before it bound
    /// into.
    fn patterns(&mut self, xs: &Vec<Pattern>) -> (r: Result<Vec<Pattern>, Diagnostics>)
        requires
            old(self).scopes@.len() > 0,
        ensures
            context_of(*final(self)) == context_of(*old(self)),
            final(self).scopes@.len() == old(self).scopes@.len(),
            forall|j: int| 0 <= j < old(self).scopes@.len() - 1 ==> final(self).scopes@[j] == old(self).scopes@[j],
            match r {
                Ok(ys) => {
                    &&& pats_failures(context_of(*old(self)), xs@, 0).len() == 0
                    &&& pats_rewritten(context_of(*old(self)), scope_sets(old(self).scopes@), xs@, ys@)
                    &&& scopes_extended(old(self).scopes@, final(self).scopes@, pats_names(xs@, xs@.len()))
                },
                Err(d) => pats_failures(context_of(*old(self)), xs@, 0).len() > 0
                    && reports_import(d, pats_failures(context_of(*old(self)), xs@, 0)[0]),
            },
        decreases xs,
    {
        let ghost c = context_of(*self);
        let ghost s0 = self.scopes@;
        let mut ys: Vec<Pattern> = Vec::new();
        let mut i: usize = 0;
        assert(s0.last()@.dom().union(Set::empty()) =~= s0.last()@.dom());
        while i < xs.len()
            invariant
                i <= xs@.len(),
                s0.len() > 0,
                c == context_of(*old(self)),
                s0 == old(self).scopes@,
                context_of(*self) == c,
                self.scopes@.len() == s0.len(),
                forall|j: int| 0 <= j < s0.len() - 1 ==> self.scopes@[j] == s0[j],
                scopes_extended(s0, self.scopes@, pats_names(xs@, i as nat)),
                pats_failures(c, xs@, 0) == pats_failures(c, xs@, i as nat),
                ys@.len() == i,
                forall|k: int| 0 <= k < i ==>
                    pat_rewritten(c, with_names(scope_sets(s0), pats_names(xs@, k as nat)), #[trigger] xs@[k], ys@[k]),
            decreases xs@.len() - i,
        {
            let ghost s1 = self.scopes@;
            proof {
                lemma_extended(s0, s1, pats_names(xs@, i as nat));
                assert(decreases_to!(xs => xs@[i as int]));
            }
            match self.pattern(&xs[i]) {
                Ok(y) => {
                    proof {
                        lemma_extended_twice(s0, s1, self.scopes@, pats_names(xs@, i as nat), pat_names(xs@[i as int]));
                        assert(pats_names(xs@, (i + 1) as nat) == pats_names(xs@, i as nat).union(pat_names(xs@[i as int])));
                        assert(pats_failures(c, xs@, i as nat) =~= pats_failures(c, xs@, (i + 1) as nat));
                    }
                    ys.push(y);
                },
                Err(d) => {
                    proof {
                        assert(pats_failures(c, xs@, i as nat)[0] == pat_failures(c, xs@[i as int])[0]);
                    }
                    return Err(d);
                },
            }
            i = i + 1;
        }
        Ok(ys)
    }

    /// Walk the field patterns of a record pattern in order; a shorthand
    /// field binds its name.
    fn field_patterns(&mut self, fs: &Vec<FieldPattern>) -> (r: Result<Vec<FieldPattern>, Diagnostics>)
        requires
            old(self).scopes@.len() > 0,
        ensures
            context_of(*final(self)) == context_of(*old(self)),
            final(self).scopes@.len() == old(self).scopes@.len(),
            forall|j: int| 0 <= j < old(self).scopes@.len() - 1 ==> final(self).scopes@[j] == old(self).scopes@[j],
            match r {
                Ok(gs) => {
                    &&& fields_failures(context_of(*old(self)), fs@, 0).len() == 0
                    &&& fields_rewritten(context_of(*old(self)), scope_sets(old(self).scopes@), fs@, gs@)
                    &&& scopes_extended(old(self).scopes@, final(self).scopes@, fields_names(fs@, fs@.len()))
                },
                Err(d) => fields_failures(context_of(*old(self)), fs@, 0).len() > 0
                    && reports_import(d, fields_failures(context_of(*old(self)), fs@, 0)[0]),
            },
        decreases fs,
    {
        let ghost c = context_of(*self);
        let ghost s0 = self.scopes@;
        let mut gs: Vec<FieldPattern> = Vec::new();
        let mut i: usize = 0;
        assert(s0.last()@.dom().union(Set::empty()) =~= s0.last()@.dom());
        while i < fs.len()
            invariant
                i <= fs@.len(),
                s0.len() > 0,
                c == context_of(*old(self)),
                s0 == old(self).scopes@,
                context_of(*self) == c,
                self.scopes@.len() == s0.len(),
                forall|j: int| 0 <= j < s0.len() - 1 ==> self.scopes@[j] == s0[j],
                scopes_extended(s0, self.scopes@, fields_names(fs@, i as nat)),
                fields_failures(c, fs@, 0) == fields_failures(c, fs@, i as nat),
                gs@.len() == i,
                forall|k: int| 0 <= k < i ==> {
                    &&& (#[trigger] gs@[k]).name == fs@[k].name
                    &&& match fs@[k].pattern {
                        Some(x) => gs@[k].pattern matches Some(y)
                            && pat_rewritten(c, with_names(scope_sets(s0), fields_names(fs@, k as nat)), x, y),
                        None => gs@[k].pattern is None,
                    }
                },
            decreases fs@.len() - i,
        {
            let ghost s1 = self.scopes@;
            proof { lemma_extended(s0, s1, fields_names(fs@, i as nat)); }
            let f = &fs[i];
            match &f.pattern {
                Some(x) => {
                    proof {
                        assert(decreases_to!(fs => fs@[i as int].pattern->Some_0));
                        assert(field_failures(c, fs@[i as int]) == pat_failures(c, *x));
                    }
                    match self.pattern(x) {
                        Ok(y) => {
                            proof {
                                lemma_extended_twice(s0, s1, self.scopes@, fields_names(fs@, i as nat), pat_names(*x));
                                assert(fields_failures(c, fs@, i as nat) =~= fields_failures(c, fs@, (i + 1) as nat));
                            }
                            gs.push(FieldPattern { name: copy_name(&f.name), pattern: Some(y) });
                        },
                        Err(d) => {
                            proof {
                                assert(fields_failures(c, fs@, i as nat)[0] == pat_failures(c, *x)[0]);
                            }
                            return Err(d);
                        },
                    }
                },
                None => {
                    self.bind(&f.name);
                    proof {
                        assert(field_failures(c, fs@[i as int]) == Seq::<ImportFailure>::empty());
                        assert(s1.last()@.dom().insert(f.name.value@) =~= s1.last()@.dom().union(set![f.name.value@]));
                        lemma_extended_twice(s0, s1, self.scopes@, fields_names(fs@, i as nat), set![f.name.value@]);
                        assert(fields_failures(c, fs@, i as nat) =~= fields_failures(c, fs@, (i + 1) as nat));
                    }
                    gs.push(FieldPattern { name: copy_name(&f.name), pattern: None });
                },
            }
            i = i + 1;
        }
        Ok(gs)
    }
}

/// The variant expression of these parts.
pub open spec fn variant_expr(span: Span, path: VariantPath, variant: Spanned<String>, payload: Option<Vec<Expr>>,
    named: Vec<NamedValue>) -> Expr
{
    Expr::Variant { span, path, variant, payload, named }
}

/// The first failure of `a + b` is `a`'s, or `b`'s when `a` has none.
proof fn lemma_first(a: Seq<ImportFailure>, b: Seq<ImportFailure>)
    ensures
        a.len() > 0 ==> (a + b).len() > 0 && (a + b)[0] == a[0],
        a.len() == 0 ==> a + b == b,
{
    if a.len() == 0 {
        assert(a + b =~= b);
    }
}

/// Opening a scope pushes an empty one onto the view.
proof fn lemma_opened(a: Seq<StrMap<()>>, b: Seq<StrMap<()>>)
    requires
        b.len() == a.len() + 1,
        forall|j: int| 0 <= j < a.len() ==> b[j] == a[j],
        b.last()@ == Map::<Seq<char>, ()>::empty(),
    ensures
        scope_sets(b) == scope_sets(a).push(Set::empty()),
        scopes_extended(b, b, Set::empty()),
{
    assert(scope_sets(b) =~= scope_sets(a).push(Set::empty()));
    assert(b.last()@.dom().union(Set::empty()) =~= b.last()@.dom());
}

/// Closing the scope that was opened restores the scopes.
proof fn lemma_closed(a: Seq<StrMap<()>>, b: Seq<StrMap<()>>)
    requires
        b.len() == a.len() + 1,
        forall|j: int| 0 <= j < a.len() ==> b[j] == a[j],
    ensures
        b.drop_last() == a,
{
    assert(b.drop_last() =~= a);
}

impl<'a> Rewriter<'a> {
    /// Rewrite an expression: every free occurrence of a renamed name takes
    /// its qualified spelling, names bound by an enclosing `let`, arm
    /// pattern or closure parameter are left alone, and module-qualified
    /// calls and names become ordinary ones; or the first failure in walk
    /// order. The scopes are as they were either way.
    pub fn expr(&mut self, e: &Expr) -> (r: Result<Expr, Diagnostics>)
        ensures
            context_of(*final(self)) == context_of(*old(self)),
            final(self).scopes@ == old(self).scopes@,
            match r {
                Ok(f) => expr_failures(context_of(*old(self)), *e).len() == 0
                    && expr_rewritten(context_of(*old(self)), scope_sets(old(self).scopes@), *e, f),
                Err(d) => expr_failures(context_of(*old(self)), *e).len() > 0
                    && reports_import(d, expr_failures(context_of(*old(self)), *e)[0]),
            },
        decreases e, 2nat,
    {
        let ghost c = context_of(*self);
        match e {
            Expr::Identifier(n) => {
                let mut m = copy_name(n);
                proof { lemma_bound(self.scopes@, n.value@); }
                self.reference(&mut m);
                Ok(Expr::Identifier(m))
            },
            Expr::Literal(l) => Ok(Expr::Literal(copy_literal(l))),
            Expr::Command(t) => {
                let mut u = copy_name(t);
                proof { lemma_bound(self.scopes@, t.value@); }
                self.reference(&mut u);
                Ok(Expr::Command(u))
            },
            Expr::Unary(k, x) => match self.expr(x) {
                Ok(y) => Ok(Expr::Unary(copy_unary_form(k), Box::new(y))),
                Err(d) => Err(d),
            },
            Expr::Binary(k, a, b) => {
                proof { lemma_first(expr_failures(c, **a), expr_failures(c, **b)); }
                let a2 = match self.expr(a) {
                    Ok(y) => y,
                    Err(d) => return Err(d),
                };
                match self.expr(b) {
                    Ok(b2) => Ok(Expr::Binary(copy_binary_form(k), Box::new(a2), Box::new(b2))),
                    Err(d) => Err(d),
                }
            },
            Expr::Call { span, callee, args, named } => {
                proof { lemma_first(exprs_failures(c, args@, 0), named_failures(c, named@, 0)); }
                let mut callee2 = copy_name(callee);
                proof { lemma_bound(self.scopes@, callee.value@); }
                self.reference(&mut callee2);
                let args2 = match self.exprs(args) {
                    Ok(ys) => ys,
                    Err(d) => return Err(d),
                };
                match self.named_values(named) {
                    Ok(named2) => Ok(Expr::Call { span: *span, callee: callee2, args: args2, named: named2 }),
                    Err(d) => Err(d),
                }
            },
            Expr::MethodCall { receiver, method, args, named } => {
                proof {
                    lemma_first(expr_failures(c, **receiver), exprs_failures(c, args@, 0));
                    lemma_first(expr_failures(c, **receiver) + exprs_failures(c, args@, 0), named_failures(c, named@, 0));
                }
                let receiver2 = match self.expr(receiver) {
                    Ok(y) => y,
                    Err(d) => return Err(d),
                };
                let args2 = match self.exprs(args) {
                    Ok(ys) => ys,
                    Err(d) => return Err(d),
                };
                match self.named_values(named) {
                    Ok(named2) => Ok(Expr::MethodCall { receiver: Box::new(receiver2), method: copy_name(method),
                        args: args2, named: named2 }),
                    Err(d) => Err(d),
                }
            },
            Expr::Collection(k, s, xs) => match self.exprs(xs) {
                Ok(ys) => Ok(Expr::Collection(*k, *s, ys)),
                Err(d) => Err(d),
            },
            Expr::MapLiteral(rows) => match self.rows(rows) {
                Ok(rows2) => Ok(Expr::MapLiteral(rows2)),
                Err(d) => Err(d),
            },
            Expr::Variant { span, path, variant, payload, named } => self.variant(*span, path, variant, payload, named),
            Expr::Record { ty, spread, fields } => {
                let ghost sf = match spread {
                    Some(x) => expr_failures(c, **x),
                    None => Seq::<ImportFailure>::empty(),
                };
                proof {
                    lemma_first(type_path_failures(c, *ty), sf);
                    lemma_first(type_path_failures(c, *ty) + sf, named_failures(c, fields@, 0));
                }
                let ty2 = match self.rewritten_type_path(ty) {
                    Ok(q) => q,
                    Err(d) => return Err(d),
                };
                let spread2 = match spread {
                    Some(x) => match self.expr(x) {
                        Ok(y) => Some(Box::new(y)),
                        Err(d) => return Err(d),
                    },
                    None => None,
                };
                match self.named_values(fields) {
                    Ok(fields2) => Ok(Expr::Record { ty: ty2, spread: spread2, fields: fields2 }),
                    Err(d) => Err(d),
                }
            },
            Expr::If { condition, consequent, alternative } => {
                let ghost sa = match alternative {
                    Some(x) => expr_failures(c, **x),
                    None => Seq::<ImportFailure>::empty(),
                };
                proof {
                    lemma_first(expr_failures(c, **condition), block_failures(c, *consequent));
                    lemma_first(expr_failures(c, **condition) + block_failures(c, *consequent), sa);
                }
                let condition2 = match self.expr(condition) {
                    Ok(y) => y,
                    Err(d) => return Err(d),
                };
                let consequent2 = match self.block(consequent) {
                    Ok(b2) => b2,
                    Err(d) => return Err(d),
                };
                let alternative2 = match alternative {
                    Some(x) => match self.expr(x) {
                        Ok(y) => Some(Box::new(y)),
                        Err(d) => return Err(d),
                    },
                    None => None,
                };
                Ok(Expr::If { condition: Box::new(condition2), consequent: consequent2, alternative: alternative2 })
            },
            Expr::Match { scrutinee, arms } => {
                proof { lemma_first(expr_failures(c, **scrutinee), arms_failures(c, arms@, 0)); }
                let scrutinee2 = match self.expr(scrutinee) {
                    Ok(y) => y,
                    Err(d) => return Err(d),
                };
                match self.arms(arms) {
                    Ok(arms2) => Ok(Expr::Match { scrutinee: Box::new(scrutinee2), arms: arms2 }),
                    Err(d) => Err(d),
                }
            },
            Expr::Closure { params, body } => {
                proof { lemma_first(pats_failures(c, params@, 0), expr_failures(c, **body)); }
                let ghost s0 = self.scopes@;
                self.scopes.push(StrMap::new());
                let ghost s1 = self.scopes@;
                proof { lemma_opened(s0, s1); }
                let params2 = match self.patterns(params) {
                    Ok(ys) => ys,
                    Err(d) => {
                        self.scopes.pop();
                        proof { lemma_closed(s0, s1); assert(self.scopes@ =~= s0); }
                        return Err(d);
                    },
                };
                proof { lemma_extended(s1, self.scopes@, pats_names(params@, params@.len())); }
                let body2 = self.expr(body);
                self.scopes.pop();
                proof { assert(self.scopes@ =~= s0); }
                match body2 {
                    Ok(y) => Ok(Expr::Closure { params: params2, body: Box::new(y) }),
                    Err(d) => Err(d),
                }
            },
            Expr::Block(b) => match self.block(b) {
                Ok(b2) => Ok(Expr::Block(b2)),
                Err(d) => Err(d),
            },
        }
    }

    /// Rewrite an enum-variant-shaped expression: a module-qualified call or
    /// name becomes an ordinary one, any other variant has its path,
    /// payload and named arguments rewritten.
    fn variant(&mut self, span: Span, path: &VariantPath, variant: &Spanned<String>, payload: &Option<Vec<Expr>>,
        named: &Vec<NamedValue>) -> (r: Result<Expr, Diagnostics>)
        ensures
            context_of(*final(self)) == context_of(*old(self)),
            final(self).scopes@ == old(self).scopes@,
            match r {
                Ok(f) => expr_failures(context_of(*old(self)), variant_expr(span, *path, *variant, *payload, *named)).len() == 0
                    && expr_rewritten(context_of(*old(self)), scope_sets(old(self).scopes@),
                        variant_expr(span, *path, *variant, *payload, *named), f),
                Err(d) => expr_failures(context_of(*old(self)), variant_expr(span, *path, *variant, *payload, *named)).len() > 0
                    && reports_import(d, expr_failures(context_of(*old(self)), variant_expr(span, *path, *variant, *payload, *named))[0]),
            },
        decreases variant_expr(span, *path, *variant, *payload, *named), 1nat,
    {
        let ghost c = context_of(*self);
        if self.available_modules.get_str(path.named_type.value.as_str()).is_some() {
            match payload {
                Some(args) => {
                    proof {
                        lemma_first(qualified_failures(c, path.named_type, *variant), exprs_failures(c, args@, 0));
                        lemma_first(qualified_failures(c, path.named_type, *variant) + exprs_failures(c, args@, 0),
                            named_failures(c, named@, 0));
                    }
                    let callee = match self.qualified_name(&path.named_type, variant) {
                        Ok(q) => q,
                        Err(d) => return Err(d),
                    };
                    let args2 = match self.exprs(args) {
                        Ok(ys) => ys,
                        Err(d) => return Err(d),
                    };
                    proof {
                        let e = variant_expr(span, *path, *variant, *payload, *named);
                        assert(e->Variant_named == *named);
                        assert(decreases_to!(e => *named));
                    }
                    return match self.named_values(named) {
                        Ok(named2) => Ok(Expr::Call { span, callee: Spanned { span: variant.span, value: callee },
                            args: args2, named: named2 }),
                        Err(d) => Err(d),
                    };
                },
                None => {
                    match self.qualified_function_name(&path.named_type, variant) {
                        Ok(Some(f)) => return Ok(Expr::Identifier(Spanned { span, value: f })),
                        Ok(None) => {},
                        Err(d) => return Err(d),
                    }
                },
            }
        }
        let ghost sp = match payload {
            Some(xs) => exprs_failures(c, xs@, 0),
            None => Seq::<ImportFailure>::empty(),
        };
        proof {
            lemma_first(variant_path_failures(c, *path), sp);
            lemma_first(variant_path_failures(c, *path) + sp, named_failures(c, named@, 0));
        }
        let path2 = match self.rewritten_variant_path(path) {
            Ok(q) => q,
            Err(d) => return Err(d),
        };
        let payload2 = match payload {
            Some(xs) => match self.exprs(xs) {
                Ok(ys) => Some(ys),
                Err(d) => return Err(d),
            },
            None => None,
        };
        proof {
            let e = variant_expr(span, *path, *variant, *payload, *named);
            assert(e->Variant_named == *named);
            assert(decreases_to!(e => *named));
        }
        match self.named_values(named) {
            Ok(named2) => Ok(Expr::Variant { span, path: path2, variant: copy_name(variant), payload: payload2,
                named: named2 }),
            Err(d) => Err(d),
        }
    }

    /// Rewrite expressions in order.
    fn exprs(&mut self, xs: &Vec<Expr>) -> (r: Result<Vec<Expr>, Diagnostics>)
        ensures
            context_of(*final(self)) == context_of(*old(self)),
            final(self).scopes@ == old(self).scopes@,
            match r {
                Ok(ys) => exprs_failures(context_of(*old(self)), xs@, 0).len() == 0
                    && exprs_rewritten(context_of(*old(self)), scope_sets(old(self).scopes@), xs@, ys@),
                Err(d) => exprs_failures(context_of(*old(self)), xs@, 0).len() > 0
                    && reports_import(d, exprs_failures(context_of(*old(self)), xs@, 0)[0]),
            },
        decreases xs, 0nat,
    {
        let ghost c = context_of(*self);
        let ghost s0 = self.scopes@;
        let mut ys: Vec<Expr> = Vec::new();
        let mut i: usize = 0;
        while i < xs.len()
            invariant
                i <= xs@.len(),
                c == context_of(*old(self)),
                s0 == old(self).scopes@,
                context_of(*self) == c,
                self.scopes@ == s0,
                exprs_failures(c, xs@, 0) == exprs_failures(c, xs@, i as nat),
                ys@.len() == i,
                forall|k: int| 0 <= k < i ==> expr_rewritten(c, scope_sets(s0), #[trigger] xs@[k], ys@[k]),
            decreases xs@.len() - i,
        {
            proof {
                assert(decreases_to!(xs => xs@[i as int]));
                lemma_first(expr_failures(c, xs@[i as int]), exprs_failures(c, xs@, (i + 1) as nat));
            }
            match self.expr(&xs[i]) {
                Ok(y) => ys.push(y),
                Err(d) => return Err(d),
            }
            i = i + 1;
        }
        Ok(ys)
    }

    /// Rewrite named values in order; a free, renamed shorthand takes an
    /// explicit value of its qualified name.
    fn named_values(&mut self, vs: &Vec<NamedValue>) -> (r: Result<Vec<NamedValue>, Diagnostics>)
        ensures
            context_of(*final(self)) == context_of(*old(self)),
            final(self).scopes@ == old(self).scopes@,
            match r {
                Ok(ws) => named_failures(context_of(*old(self)), vs@, 0).len() == 0
                    && named_rewritten(context_of(*old(self)), scope_sets(old(self).scopes@), vs@, ws@),
                Err(d) => named_failures(context_of(*old(self)), vs@, 0).len() > 0
                    && reports_import(d, named_failures(context_of(*old(self)), vs@, 0)[0]),
            },
        decreases vs, 0nat,
    {
        let ghost c = context_of(*self);
        let ghost s0 = self.scopes@;
        let mut ws: Vec<NamedValue> = Vec::new();
        let mut i: usize = 0;
        while i < vs.len()
            invariant
                i <= vs@.len(),
                c == context_of(*old(self)),
                s0 == old(self).scopes@,
                context_of(*self) == c,
                self.scopes@ == s0,
                named_failures(c, vs@, 0) == named_failures(c, vs@, i as nat),
                ws@.len() == i,
                forall|k: int| 0 <= k < i ==> named_value_rewritten(c, scope_sets(s0), #[trigger] vs@[k], ws@[k]),
            decreases vs@.len() - i,
        {
            let v = &vs[i];
            proof { lemma_first(named_value_failures(c, *v), named_failures(c, vs@, (i + 1) as nat)); }
            match &v.value {
                Some(x) => {
                    proof { assert(decreases_to!(vs => vs@[i as int].value->Some_0)); }
                    match self.expr(x) {
                        Ok(y) => ws.push(NamedValue { name: copy_name(&v.name), value: Some(y) }),
                        Err(d) => return Err(d),
                    }
                },
                None => {
                    proof { lemma_bound(self.scopes@, v.name.value@); }
                    let value = if self.in_scope(v.name.value.as_str()) {
                        None
                    } else {
                        match self.renames.get_str(v.name.value.as_str()) {
                            Some(q) => Some(Expr::Identifier(Spanned { span: v.name.span, value: q.clone() })),
                            None => None,
                        }
                    };
                    ws.push(NamedValue { name: copy_name(&v.name), value });
                },
            }
            i = i + 1;
        }
        Ok(ws)
    }

    /// Rewrite map rows in order, each key before its value.
    fn rows(&mut self, rs: &Vec<MapRow>) -> (r: Result<Vec<MapRow>, Diagnostics>)
        ensures
            context_of(*final(self)) == context_of(*old(self)),
            final(self).scopes@ == old(self).scopes@,
            match r {
                Ok(ts) => rows_failures(context_of(*old(self)), rs@, 0).len() == 0
                    && rows_rewritten(context_of(*old(self)), scope_sets(old(self).scopes@), rs@, ts@),
                Err(d) => rows_failures(context_of(*old(self)), rs@, 0).len() > 0
                    && reports_import(d, rows_failures(context_of(*old(self)), rs@, 0)[0]),
            },
        decreases rs, 0nat,
    {
        let ghost c = context_of(*self);
        let ghost s0 = self.scopes@;
        let mut ts: Vec<MapRow> = Vec::new();
        let mut i: usize = 0;
        while i < rs.len()
            invariant
                i <= rs@.len(),
                c == context_of(*old(self)),
                s0 == old(self).scopes@,
                context_of(*self) == c,
                self.scopes@ == s0,
                rows_failures(c, rs@, 0) == rows_failures(c, rs@, i as nat),
                ts@.len() == i,
                forall|k: int| 0 <= k < i ==> row_rewritten(c, scope_sets(s0), #[trigger] rs@[k], ts@[k]),
            decreases rs@.len() - i,
        {
            let row = &rs[i];
            proof {
                assert(decreases_to!(rs => rs@[i as int].key));
                assert(decreases_to!(rs => rs@[i as int].value));
                lemma_first(row_failures(c, *row), rows_failures(c, rs@, (i + 1) as nat));
                lemma_first(expr_failures(c, row.key), expr_failures(c, row.value));
            }
            let key = match self.expr(&row.key) {
                Ok(y) => y,
                Err(d) => return Err(d),
            };
            match self.expr(&row.value) {
                Ok(y) => ts.push(MapRow { key, value: y }),
                Err(d) => return Err(d),
            }
            i = i + 1;
        }
        Ok(ts)
    }

    /// Rewrite a block in a scope of its own: each `let`'s value, then its
    /// pattern binding into that scope; then the tail.
    pub fn block(&mut self, b: &Block) -> (r: Result<Block, Diagnostics>)
        ensures
            context_of(*final(self)) == context_of(*old(self)),
            final(self).scopes@ == old(self).scopes@,
            match r {
                Ok(b2) => block_failures(context_of(*old(self)), *b).len() == 0
                    && block_rewritten(context_of(*old(self)), scope_sets(old(self).scopes@), *b, b2),
                Err(d) => block_failures(context_of(*old(self)), *b).len() > 0
                    && reports_import(d, block_failures(context_of(*old(self)), *b)[0]),
            },
        decreases b, 0nat,
    {
        let ghost c = context_of(*self);
        let ghost s0 = self.scopes@;
        let ghost ss = b.stmts@;
        self.scopes.push(StrMap::new());
        let ghost s1 = self.scopes@;
        proof { lemma_opened(s0, s1); }
        let mut ts: Vec<Stmt> = Vec::new();
        let mut i: usize = 0;
        while i < b.stmts.len()
            invariant
                i <= ss.len(),
                ss == b.stmts@,
                c == context_of(*old(self)),
                s0 == old(self).scopes@,
                s1.len() == s0.len() + 1,
                forall|j: int| 0 <= j < s0.len() ==> s1[j] == s0[j],
                scope_sets(s1) == scope_sets(s0).push(Set::empty()),
                context_of(*self) == c,
                self.scopes@.len() == s1.len(),
                forall|j: int| 0 <= j < s1.len() - 1 ==> self.scopes@[j] == s1[j],
                scopes_extended(s1, self.scopes@, lets_names(ss, i as nat)),
                stmts_failures(c, ss, 0) == stmts_failures(c, ss, i as nat),
                ts@.len() == i,
                forall|k: int| 0 <= k < i ==> stmt_rewritten(c, with_names(scope_sets(s1), lets_names(ss, k as nat)),
                    #[trigger] ss[k], ts@[k]),
            decreases ss.len() - i,
        {
            let ghost s2 = self.scopes@;
            proof {
                lemma_extended(s1, s2, lets_names(ss, i as nat));
                assert(decreases_to!(b.stmts => ss[i as int]));
                lemma_first(stmt_failures(c, ss[i as int]), stmts_failures(c, ss, (i + 1) as nat));
            }
            match &b.stmts[i] {
                Stmt::Let { pattern, value } => {
                    proof { lemma_first(expr_failures(c, *value), pat_failures(c, *pattern)); }
                    let value2 = match self.expr(value) {
                        Ok(y) => y,
                        Err(d) => {
                            self.scopes.pop();
                            proof { lemma_closed(s0, s2); }
                            return Err(d);
                        },
                    };
                    let pattern2 = match self.pattern(pattern) {
                        Ok(q) => q,
                        Err(d) => {
                            let ghost s3 = self.scopes@;
                            self.scopes.pop();
                            proof { lemma_closed(s0, s3); }
                            return Err(d);
                        },
                    };
                    proof {
                        lemma_extended_twice(s1, s2, self.scopes@, lets_names(ss, i as nat), pat_names(*pattern));
                    }
                    ts.push(Stmt::Let { pattern: pattern2, value: value2 });
                },
                Stmt::Expression(x) => {
                    match self.expr(x) {
                        Ok(y) => ts.push(Stmt::Expression(y)),
                        Err(d) => {
                            self.scopes.pop();
                            proof { lemma_closed(s0, s2); }
                            return Err(d);
                        },
                    }
                    proof {
                        assert(lets_names(ss, i as nat).union(Set::empty()) =~= lets_names(ss, i as nat));
                    }
                },
            }
            proof {
                assert(lets_names(ss, (i + 1) as nat) == lets_names(ss, i as nat).union(match ss[i as int] {
                    Stmt::Let { pattern, .. } => pat_names(pattern),
                    Stmt::Expression(_) => Set::empty(),
                }));
            }
            i = i + 1;
        }
        let ghost s2 = self.scopes@;
        proof {
            lemma_extended(s1, s2, lets_names(ss, ss.len()));
            lemma_first(stmts_failures(c, ss, 0), match &b.tail {
                Some(x) => expr_failures(c, **x),
                None => Seq::<ImportFailure>::empty(),
            });
        }
        let tail = match &b.tail {
            Some(x) => match self.expr(x) {
                Ok(y) => Some(Box::new(y)),
                Err(d) => {
                    self.scopes.pop();
                    proof { lemma_closed(s0, s2); }
                    return Err(d);
                },
            },
            None => None,
        };
        self.scopes.pop();
        proof { lemma_closed(s0, s2); }
        Ok(Block { stmts: ts, tail })
    }

    /// Rewrite match arms, each in a scope of its own.
    fn arms(&mut self, arms: &Vec<MatchArm>) -> (r: Result<Vec<MatchArm>, Diagnostics>)
        ensures
            context_of(*final(self)) == context_of(*old(self)),
            final(self).scopes@ == old(self).scopes@,
            match r {
                Ok(bs) => arms_failures(context_of(*old(self)), arms@, 0).len() == 0
                    && arms_rewritten(context_of(*old(self)), scope_sets(old(self).scopes@), arms@, bs@),
                Err(d) => arms_failures(context_of(*old(self)), arms@, 0).len() > 0
                    && reports_import(d, arms_failures(context_of(*old(self)), arms@, 0)[0]),
            },
        decreases arms, 0nat,
    {
        let ghost c = context_of(*self);
        let ghost s0 = self.scopes@;
        let mut bs: Vec<MatchArm> = Vec::new();
        let mut i: usize = 0;
        while i < arms.len()
            invariant
                i <= arms@.len(),
                c == context_of(*old(self)),
                s0 == old(self).scopes@,
                context_of(*self) == c,
                self.scopes@ == s0,
                arms_failures(c, arms@, 0) == arms_failures(c, arms@, i as nat),
                bs@.len() == i,
                forall|k: int| 0 <= k < i ==> arm_rewritten(c, scope_sets(s0), #[trigger] arms@[k], bs@[k]),
            decreases arms@.len() - i,
        {
            let a = &arms[i];
            let ghost sg = match &a.guard {
                Some(x) => expr_failures(c, *x),
                None => Seq::<ImportFailure>::empty(),
            };
            proof {
                assert(decreases_to!(arms => arms@[i as int].body));
                lemma_first(arm_failures(c, *a), arms_failures(c, arms@, (i + 1) as nat));
                lemma_first(pat_failures(c, a.pattern), sg);
                lemma_first(pat_failures(c, a.pattern) + sg, expr_failures(c, a.body));
            }
            self.scopes.push(StrMap::new());
            let ghost s1 = self.scopes@;
            proof { lemma_opened(s0, s1); }
            let pattern2 = match self.pattern(&a.pattern) {
                Ok(q) => q,
                Err(d) => {
                    let ghost s2 = self.scopes@;
                    self.scopes.pop();
                    proof { lemma_closed(s0, s2); }
                    return Err(d);
                },
            };
            let ghost s2 = self.scopes@;
            proof { lemma_extended(s1, s2, pat_names(a.pattern)); }
            let guard2 = match &a.guard {
                Some(x) => {
                    proof { assert(decreases_to!(arms => arms@[i as int].guard->Some_0)); }
                    match self.expr(x) {
                        Ok(y) => Some(y),
                        Err(d) => {
                            self.scopes.pop();
                            proof { lemma_closed(s0, s2); }
                            return Err(d);
                        },
                    }
                },
                None => None,
            };
            let body2 = self.expr(&a.body);
            self.scopes.pop();
            proof { lemma_closed(s0, s2); }
            match body2 {
                Ok(y) => bs.push(MatchArm { pattern: pattern2, guard: guard2, body: y }),
                Err(d) => return Err(d),
            }
            i = i + 1;
        }
        Ok(bs)
    }
}

} // verus!
