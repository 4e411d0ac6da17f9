//! The command-template grammar of `exec` blocks: whitespace-separated argv
//! elements, where a double-quoted element keeps its interior whitespace and
//! drops its quotes; inside an element, `{name}` splices a typed Int, String
//! or Path value in scope. Each splice becomes an input of the exec plan,
//! numbered from 1 in template order, and renders where it stands.

use vstd::prelude::*;
use crate::compiler::{LoweredValue, is_type_mismatch, is_unsupported, type_mismatch};
use crate::diagnostic::{Diagnostic, DiagnosticCode, DiagnosticPayload, Diagnostics};
use crate::strmap::StrMap;
use crate::support::{Span, Spanned};
use crate::text::{chars_of, is_ws, is_ws_exec, slice_chars, string_of};
use crate::vir::{CommandArgument, CommandPiece, NodeId, Type, spelling};

verus! {

// ---------------------------------------------------------------------------
// Argv elements
// ---------------------------------------------------------------------------

/// Where the argv lexer stands: between elements, inside a bare element, or
/// inside a double-quoted one.
#[derive(Debug, Clone, Copy, PartialEq, Eq)]
pub enum LexMode {
    Between,
    Bare,
    Quoted,
}

/// The template's text: surrounding backquotes dropped when it has both.
pub open spec fn template_body(t: Seq<char>) -> Seq<char> {
    if t.len() >= 2 && t[0] == '`' && t[t.len() - 1] == '`' {
        t.subrange(1, t.len() - 1)
    } else {
        t
    }
}

/// The argv elements of `s`, lexed from `mode` with `word` the element being
/// read and `done` the elements finished; `None` when a quoted element is
/// never closed.
pub open spec fn lex(s: Seq<char>, mode: LexMode, word: Seq<char>, done: Seq<Seq<char>>) -> Option<Seq<Seq<char>>>
    decreases s.len(),
{
    if s.len() == 0 {
        match mode {
            LexMode::Between => Some(done),
            LexMode::Bare => Some(done.push(word)),
            LexMode::Quoted => None,
        }
    } else {
        let c = s[0];
        let rest = s.skip(1);
        match mode {
            LexMode::Between => if is_ws(c) {
                lex(rest, LexMode::Between, word, done)
            } else if c == '"' {
                lex(rest, LexMode::Quoted, seq![], done)
            } else {
                lex(rest, LexMode::Bare, seq![c], done)
            },
            LexMode::Bare => if is_ws(c) {
                lex(rest, LexMode::Between, seq![], done.push(word))
            } else {
                lex(rest, LexMode::Bare, word.push(c), done)
            },
            LexMode::Quoted => if c == '"' {
                lex(rest, LexMode::Between, seq![], done.push(word))
            } else {
                lex(rest, LexMode::Quoted, word.push(c), done)
            },
        }
    }
}

/// The argv elements of a template.
pub open spec fn command_argv(template: Seq<char>) -> Option<Seq<Seq<char>>> {
    lex(template_body(template), LexMode::Between, seq![], seq![])
}

/// The texts of a list of character vectors.
pub open spec fn words_view(v: Seq<Vec<char>>) -> Seq<Seq<char>> {
    v.map_values(|w: Vec<char>| w@)
}

// ---------------------------------------------------------------------------
// Interpolation
// ---------------------------------------------------------------------------

/// A command piece as a value.
pub enum PieceView {
    Literal(Seq<char>),
    Input(nat),
}

/// The value of a command piece.
pub open spec fn piece_view(p: CommandPiece) -> PieceView {
    match p {
        CommandPiece::Literal(s) => PieceView::Literal(s@),
        CommandPiece::Input { index } => PieceView::Input(index as nat),
    }
}

/// The values of a list of pieces.
pub open spec fn pieces_view(v: Seq<CommandPiece>) -> Seq<PieceView> {
    v.map_values(|p: CommandPiece| piece_view(p))
}

/// The values of a list of arguments.
pub open spec fn argv_view(v: Seq<CommandArgument>) -> Seq<Seq<PieceView>> {
    v.map_values(|a: CommandArgument| pieces_view(a.pieces@))
}

/// Why a template is refused.
pub enum TemplateError {
    /// The grammar refuses it, with this message.
    Refused(Seq<char>),
    /// A splice names nothing in scope.
    Unbound(Seq<char>),
    /// A splice's value is not an Int, String or Path; the spelling of its type.
    NotInterpolable(Seq<char>),
    /// More splices than a `u32` input index counts.
    TooManyInputs,
}

/// A type a splice may render.
pub open spec fn interpolable(t: Type) -> bool {
    t is Int || t is String || t is Path
}

/// The pieces of argument `a` read from where `in_name` says (inside a
/// splice or not), with `buf` the text read since the last piece, `pieces`
/// this argument's pieces so far and `nodes` the inputs of the whole template
/// so far.
pub open spec fn interpolate(
    a: Seq<char>,
    in_name: bool,
    buf: Seq<char>,
    b: Map<Seq<char>, LoweredValue>,
    pieces: Seq<PieceView>,
    nodes: Seq<NodeId>,
) -> Result<(Seq<PieceView>, Seq<NodeId>), TemplateError>
    decreases a.len(),
{
    if a.len() == 0 {
        if in_name {
            Err(TemplateError::Refused("unterminated command interpolation"@))
        } else if buf.len() > 0 || pieces.len() == 0 {
            Ok((pieces.push(PieceView::Literal(buf)), nodes))
        } else {
            Ok((pieces, nodes))
        }
    } else {
        let c = a[0];
        let rest = a.skip(1);
        if !in_name {
            if c == '{' {
                interpolate(rest, true, seq![], b,
                    if buf.len() > 0 { pieces.push(PieceView::Literal(buf)) } else { pieces }, nodes)
            } else if c == '}' {
                Err(TemplateError::Refused("unmatched `}` in command interpolation"@))
            } else {
                interpolate(rest, false, buf.push(c), b, pieces, nodes)
            }
        } else if c == '}' {
            if !b.contains_key(buf) {
                Err(TemplateError::Unbound(buf))
            } else if !interpolable(b[buf].ty) {
                Err(TemplateError::NotInterpolable(spelling(b[buf].ty)))
            } else if nodes.len() >= u32::MAX {
                Err(TemplateError::TooManyInputs)
            } else {
                interpolate(rest, false, seq![], b, pieces.push(PieceView::Input(nodes.len() + 1)),
                    nodes.push(b[buf].node))
            }
        } else if c == '{' {
            Err(TemplateError::Refused("nested `{` in command interpolation"@))
        } else {
            interpolate(rest, true, buf.push(c), b, pieces, nodes)
        }
    }
}

/// The pieces of each argument in turn, after `argv` done and `nodes` taken.
pub open spec fn interpolate_all(
    args: Seq<Seq<char>>,
    b: Map<Seq<char>, LoweredValue>,
    argv: Seq<Seq<PieceView>>,
    nodes: Seq<NodeId>,
) -> Result<(Seq<Seq<PieceView>>, Seq<NodeId>), TemplateError>
    decreases args.len(),
{
    if args.len() == 0 {
        Ok((argv, nodes))
    } else {
        match interpolate(args[0], false, seq![], b, seq![], nodes) {
            Ok((pieces, n)) => interpolate_all(args.skip(1), b, argv.push(pieces), n),
            Err(e) => Err(e),
        }
    }
}

/// What a template with bindings `b` lowers to: its arguments' pieces and
/// the nodes of its inputs, in input order, or why it is refused.
pub open spec fn template_outcome(template: Seq<char>, b: Map<Seq<char>, LoweredValue>)
    -> Result<(Seq<Seq<PieceView>>, Seq<NodeId>), TemplateError>
{
    match command_argv(template) {
        None => Err(TemplateError::Refused("unterminated quoted command argument"@)),
        Some(args) => interpolate_all(args, b, seq![], seq![]),
    }
}

/// `d` is the single diagnostic that reports `e` at `span`.
pub open spec fn reports(d: Diagnostics, span: Span, e: TemplateError) -> bool {
    match e {
        TemplateError::Refused(m) => is_unsupported(d, span, m),
        TemplateError::Unbound(name) => {
            &&& d.entries@.len() == 1
            &&& d.entries@[0].code == DiagnosticCode::UnboundIdentifier
            &&& d.entries@[0].primary == span
            &&& d.entries@[0].labels@.len() == 0
            &&& d.entries@[0].payload matches DiagnosticPayload::Name { name: n } && n@ == name
        },
        TemplateError::NotInterpolable(found) =>
            is_type_mismatch(d, span, "Int, String, or Path command interpolation"@, found),
        TemplateError::TooManyInputs => false,
    }
}

/// The argv elements of a template's text.
fn lex_argv(text: &[char]) -> (r: Option<Vec<Vec<char>>>)
    ensures
        match lex(text@, LexMode::Between, seq![], seq![]) {
            None => r is None,
            Some(args) => r matches Some(v) && words_view(v@) == args,
        },
{
    let ghost outcome = lex(text@, LexMode::Between, seq![], seq![]);
    let mut mode = LexMode::Between;
    let mut word: Vec<char> = Vec::new();
    let mut done: Vec<Vec<char>> = Vec::new();
    let mut i: usize = 0;
    assert(text@.skip(0) == text@);
    assert(words_view(done@) =~= Seq::<Seq<char>>::empty());
    assert(word@ =~= Seq::<char>::empty());
    while i < text.len()
        invariant
            i <= text@.len(),
            outcome == lex(text@, LexMode::Between, seq![], seq![]),
            outcome == lex(text@.skip(i as int), mode, word@, words_view(done@)),
        decreases text@.len() - i,
    {
        let c = text[i];
        assert(text@.skip(i as int)[0] == c);
        assert(text@.skip(i as int).skip(1) == text@.skip(i as int + 1));
        let ghost w0 = word@;
        let ghost d0 = words_view(done@);
        let ghost m0 = mode;
        match mode {
            LexMode::Between => {
                if is_ws_exec(c) {
                } else if c == '"' {
                    mode = LexMode::Quoted;
                    word = Vec::new();
                } else {
                    mode = LexMode::Bare;
                    word = Vec::new();
                    word.push(c);
                    assert(word@ =~= seq![c]);
                }
            },
            LexMode::Bare => {
                if is_ws_exec(c) {
                    let w = word;
                    word = Vec::new();
                    done.push(w);
                    assert(words_view(done@) =~= words_view(done@.drop_last()).push(w@));
                    mode = LexMode::Between;
                } else {
                    word.push(c);
                }
            },
            LexMode::Quoted => {
                if c == '"' {
                    let w = word;
                    word = Vec::new();
                    done.push(w);
                    assert(words_view(done@) =~= words_view(done@.drop_last()).push(w@));
                    mode = LexMode::Between;
                } else {
                    word.push(c);
                }
            },
        }
        assert(word@ == (match m0 {
            LexMode::Between => if is_ws(c) { w0 } else if c == '"' { seq![] } else { seq![c] },
            LexMode::Bare => if is_ws(c) { seq![] } else { w0.push(c) },
            LexMode::Quoted => if c == '"' { seq![] } else { w0.push(c) },
        }));
        assert(words_view(done@) == (match m0 {
            LexMode::Between => d0,
            LexMode::Bare => if is_ws(c) { d0.push(w0) } else { d0 },
            LexMode::Quoted => if c == '"' { d0.push(w0) } else { d0 },
        }));
        i = i + 1;
    }
    assert(text@.skip(i as int).len() == 0);
    match mode {
        LexMode::Between => Some(done),
        LexMode::Bare => {
            let ghost before = done@;
            done.push(word);
            assert(words_view(done@) =~= words_view(before).push(done@.last()@));
            Some(done)
        },
        LexMode::Quoted => None,
    }
}

/// The value of one argument's pieces and of the input nodes, after the step.
proof fn lemma_pieces_push(v: Seq<CommandPiece>, p: CommandPiece)
    ensures
        pieces_view(v.push(p)) == pieces_view(v).push(piece_view(p)),
{
    assert(pieces_view(v.push(p)) =~= pieces_view(v).push(piece_view(p)));
}

/// Whether a type may be spliced into a command.
fn interpolable_exec(t: &Type) -> (b: bool)
    ensures
        b == interpolable(*t),
{
    match t {
        Type::Int | Type::String | Type::Path => true,
        _ => false,
    }
}

/// The refusal `message` at `span`.
fn refuse(span: Span, message: &str) -> (d: Diagnostics)
    ensures
        is_unsupported(d, span, message@),
{
    Diagnostics::one(Diagnostic::unsupported(span, message))
}

/// The pieces of one argument; its inputs are appended to `nodes`.
fn interpolate_argument(arg: &[char], bindings: &StrMap<LoweredValue>, nodes: &mut Vec<NodeId>, span: Span)
    -> (r: Result<CommandArgument, Diagnostics>)
    requires
        !(interpolate(arg@, false, seq![], bindings@, seq![], old(nodes)@) matches Err(TemplateError::TooManyInputs)),
    ensures
        match interpolate(arg@, false, seq![], bindings@, seq![], old(nodes)@) {
            Ok((pieces, n)) => r matches Ok(a) && pieces_view(a.pieces@) == pieces && final(nodes)@ == n,
            Err(e) => r matches Err(d) && reports(d, span, e),
        },
{
    let ghost b = bindings@;
    let ghost outcome = interpolate(arg@, false, seq![], b, seq![], nodes@);
    let mut in_name = false;
    let mut buf: Vec<char> = Vec::new();
    let mut pieces: Vec<CommandPiece> = Vec::new();
    let mut j: usize = 0;
    assert(arg@.skip(0) == arg@);
    assert(pieces_view(pieces@) =~= Seq::<PieceView>::empty());
    while j < arg.len()
        invariant
            j <= arg@.len(),
            b == bindings@,
            outcome == interpolate(arg@, false, seq![], bindings@, seq![], old(nodes)@),
            !(outcome matches Err(TemplateError::TooManyInputs)),
            outcome == interpolate(arg@.skip(j as int), in_name, buf@, b, pieces_view(pieces@), nodes@),
        decreases arg@.len() - j,
    {
        let c = arg[j];
        assert(arg@.skip(j as int)[0] == c);
        assert(arg@.skip(j as int).skip(1) == arg@.skip(j as int + 1));
        if !in_name {
            if c == '{' {
                if buf.len() > 0 {
                    let lit = string_of(buf.as_slice());
                    proof { lemma_pieces_push(pieces@, CommandPiece::Literal(lit)); }
                    pieces.push(CommandPiece::Literal(lit));
                }
                buf = Vec::new();
                in_name = true;
            } else if c == '}' {
                return Err(refuse(span, "unmatched `}` in command interpolation"));
            } else {
                buf.push(c);
            }
        } else if c == '}' {
            let name = string_of(buf.as_slice());
            match bindings.get_str(name.as_str()) {
                None => {
                    return Err(Diagnostics::one(Diagnostic {
                        code: DiagnosticCode::UnboundIdentifier,
                        primary: span,
                        labels: Vec::new(),
                        payload: DiagnosticPayload::Name { name },
                    }));
                },
                Some(value) => {
                    if !interpolable_exec(&value.ty) {
                        let found = value.ty.name();
                        return Err(type_mismatch(span, "Int, String, or Path command interpolation", found.as_str()));
                    }
                    nodes.push(value.node);
                    let index = nodes.len() as u32;
                    proof { lemma_pieces_push(pieces@, CommandPiece::Input { index }); }
                    pieces.push(CommandPiece::Input { index });
                    buf = Vec::new();
                    in_name = false;
                },
            }
        } else if c == '{' {
            return Err(refuse(span, "nested `{` in command interpolation"));
        } else {
            buf.push(c);
        }
        j = j + 1;
    }
    assert(arg@.skip(j as int).len() == 0);
    if in_name {
        return Err(refuse(span, "unterminated command interpolation"));
    }
    if buf.len() > 0 || pieces.len() == 0 {
        let lit = string_of(buf.as_slice());
        proof { lemma_pieces_push(pieces@, CommandPiece::Literal(lit)); }
        pieces.push(CommandPiece::Literal(lit));
    }
    Ok(CommandArgument { pieces })
}

/// The argv of a command template and the nodes of its `{name}` splices, in
/// splice order. A template wrapped in backquotes is read without them.
pub fn parse_command_template(template: &Spanned<String>, bindings: &StrMap<LoweredValue>)
    -> (r: Result<(Vec<CommandArgument>, Vec<NodeId>), Diagnostics>)
    requires
        !(template_outcome(template.value@, bindings@) matches Err(TemplateError::TooManyInputs)),
    ensures
        match template_outcome(template.value@, bindings@) {
            Ok((argv, nodes)) => r matches Ok((a, n)) && argv_view(a@) == argv && n@ == nodes,
            Err(e) => r matches Err(d) && reports(d, template.span, e),
        },
{
    let ghost b = bindings@;
    let ghost outcome = template_outcome(template.value@, b);
    let cs = chars_of(template.value.as_str());
    let n = cs.len();
    let body = if n >= 2 && cs[0] == '`' && cs[n - 1] == '`' {
        slice_chars(cs.as_slice(), 1, n - 1)
    } else {
        cs
    };
    assert(body@ == template_body(template.value@));
    let raw = match lex_argv(body.as_slice()) {
        Some(v) => v,
        None => return Err(refuse(template.span, "unterminated quoted command argument")),
    };
    let ghost args = words_view(raw@);
    let mut argv: Vec<CommandArgument> = Vec::new();
    let mut inputs: Vec<NodeId> = Vec::new();
    let mut k: usize = 0;
    assert(args.skip(0) == args);
    assert(argv_view(argv@) =~= Seq::<Seq<PieceView>>::empty());
    while k < raw.len()
        invariant
            k <= raw@.len(),
            b == bindings@,
            args == words_view(raw@),
            outcome == template_outcome(template.value@, bindings@),
            command_argv(template.value@) == Some(args),
            !(outcome matches Err(TemplateError::TooManyInputs)),
            outcome == interpolate_all(args.skip(k as int), b, argv_view(argv@), inputs@),
        decreases raw@.len() - k,
    {
        assert(args.skip(k as int)[0] == raw@[k as int]@);
        assert(args.skip(k as int).skip(1) == args.skip(k as int + 1));
        match interpolate_argument(raw[k].as_slice(), bindings, &mut inputs, template.span) {
            Ok(a) => {
                let ghost before = argv@;
                argv.push(a);
                assert(argv_view(argv@) =~= argv_view(before).push(pieces_view(a.pieces@)));
            },
            Err(d) => return Err(d),
        }
        k = k + 1;
    }
    assert(args.skip(k as int).len() == 0);
    Ok((argv, inputs))
}

} // verus!
