//! Support for the surface lowering: source spans, spanned leaves, and the
//! decoding of literal tokens (quoted strings, path and template literals,
//! booleans) from their raw source text.

use vstd::prelude::*;
use crate::text::{chars_of, chars_eq, owned, push_char, push_str, str_eq, string_of};

verus! {

/// Half-open byte range into the source, carried by every AST node.
#[derive(Debug, Clone, Copy, PartialEq, Eq, Hash, Structural)]
pub struct Span {
    pub start: u32,
    pub end: u32,
}

impl Span {
    /// `offset` lies in `start..end`.
    pub fn contains(&self, offset: u32) -> (r: bool)
        ensures
            r == (self.start <= offset && offset < self.end),
    {
        self.start <= offset && offset < self.end
    }
}

/// A decoded leaf value plus where it came from.
#[derive(Debug, Clone, PartialEq)]
pub struct Spanned<T> {
    pub value: T,
    pub span: Span,
}

/// The character a backslash escape stands for.
pub open spec fn escaped(c: char) -> char {
    if c == 'n' {
        '\n'
    } else if c == 't' {
        '\t'
    } else if c == 'r' {
        '\r'
    } else {
        c
    }
}

/// `s` with its escapes processed: `\n`, `\t`, `\r` become their control
/// characters, a backslash before any other character yields that
/// character, and a trailing lone backslash is dropped.
pub open spec fn unescape(s: Seq<char>) -> Seq<char>
    decreases s.len(),
{
    if s.len() == 0 {
        seq![]
    } else if s[0] == '\\' {
        if s.len() == 1 {
            seq![]
        } else {
            seq![escaped(s[1])] + unescape(s.skip(2))
        }
    } else {
        seq![s[0]] + unescape(s.skip(1))
    }
}

/// The text between a pair of surrounding double quotes, or the text itself
/// when it is not so quoted.
pub open spec fn unquoted(raw: Seq<char>) -> Seq<char> {
    if raw.len() >= 2 && raw[0] == '"' && raw[raw.len() - 1] == '"' {
        raw.subrange(1, raw.len() - 1)
    } else {
        raw
    }
}

/// `raw` without a leading `p`.
pub open spec fn strip_p(raw: Seq<char>) -> Seq<char> {
    if raw.len() > 0 && raw[0] == 'p' { raw.skip(1) } else { raw }
}

/// `raw` without a leading `tmpl`.
pub open spec fn strip_tmpl(raw: Seq<char>) -> Seq<char> {
    if crate::text::has_prefix(raw, "tmpl"@) { raw.skip(4) } else { raw }
}

/// The character an escape stands for.
fn escaped_exec(c: char) -> (r: char)
    ensures
        r == escaped(c),
{
    if c == 'n' {
        '\n'
    } else if c == 't' {
        '\t'
    } else if c == 'r' {
        '\r'
    } else {
        c
    }
}

/// A string literal's contents: surrounding quotes removed, escapes processed.
pub fn unquote(raw: &str) -> (out: String)
    ensures
        out@ == unescape(unquoted(raw@)),
{
    let cs = chars_of(raw);
    let n = cs.len();
    let inner = if n >= 2 && cs[0] == '"' && cs[n - 1] == '"' {
        crate::text::slice_chars(cs.as_slice(), 1, n - 1)
    } else {
        cs
    };
    let ghost s = inner@;
    let mut out = String::new();
    assert(s.skip(0) =~= s);
    assert(out@ + unescape(s.skip(0)) =~= unescape(s));
    let mut i: usize = 0;
    while i < inner.len()
        invariant
            i <= inner@.len(),
            s == inner@,
            out@ + unescape(s.skip(i as int)) == unescape(s),
        decreases inner@.len() - i,
    {
        let c = inner[i];
        let ghost rest = s.skip(i as int);
        assert(rest[0] == c);
        if c == '\\' {
            if i + 1 < inner.len() {
                let e = escaped_exec(inner[i + 1]);
                assert(rest[1] == inner@[i as int + 1]);
                assert(rest.skip(2) == s.skip(i as int + 2));
                push_char(&mut out, e);
                assert(out@ + unescape(s.skip(i as int + 2)) =~= unescape(s));
                i = i + 2;
            } else {
                assert(rest.len() == 1);
                assert(s.skip(i as int + 1).len() == 0);
                i = i + 1;
            }
        } else {
            assert(rest.skip(1) == s.skip(i as int + 1));
            push_char(&mut out, c);
            assert(out@ + unescape(s.skip(i as int + 1)) =~= unescape(s));
            i = i + 1;
        }
    }
    assert(s.skip(inner@.len() as int).len() == 0);
    assert(out@ =~= unescape(s));
    out
}

/// A raw-text leaf (identifier, number, flag, command token) with its span.
pub fn node_text(raw: &str, span: Span) -> (r: Spanned<String>)
    ensures
        r.value@ == raw@,
        r.span == span,
{
    Spanned { value: owned(raw), span }
}

/// A `"…"` string literal's contents, escapes processed.
pub fn decode_string(raw: &str, span: Span) -> (r: Spanned<String>)
    ensures
        r.value@ == unescape(unquoted(raw@)),
        r.span == span,
{
    Spanned { value: unquote(raw), span }
}

/// A `p"…"` path literal's contents, escapes processed.
pub fn decode_path(raw: &str, span: Span) -> (r: Spanned<String>)
    ensures
        r.value@ == unescape(unquoted(strip_p(raw@))),
        r.span == span,
{
    let cs = chars_of(raw);
    let body = if cs.len() > 0 && cs[0] == 'p' {
        string_of(crate::text::slice_chars(cs.as_slice(), 1, cs.len()).as_slice())
    } else {
        owned(raw)
    };
    assert(cs@.subrange(1, cs@.len() as int) == cs@.skip(1));
    Spanned { value: unquote(body.as_str()), span }
}

/// A `tmpl"…"` template literal's contents, escapes processed.
pub fn decode_template(raw: &str, span: Span) -> (r: Spanned<String>)
    ensures
        r.value@ == unescape(unquoted(strip_tmpl(raw@))),
        r.span == span,
{
    let cs = chars_of(raw);
    let prefix = chars_of("tmpl");
    let body = if crate::text::chars_start_with(cs.as_slice(), prefix.as_slice()) {
        proof { reveal_strlit("tmpl"); }
        assert(cs@.subrange(4, cs@.len() as int) == cs@.skip(4));
        string_of(crate::text::slice_chars(cs.as_slice(), 4, cs.len()).as_slice())
    } else {
        owned(raw)
    };
    proof { reveal_strlit("tmpl"); }
    Spanned { value: unquote(body.as_str()), span }
}

/// A boolean literal: `true` exactly when the raw text is `true`.
pub fn decode_bool(raw: &str, span: Span) -> (r: Spanned<bool>)
    ensures
        r.value == (raw@ == "true"@),
        r.span == span,
{
    Spanned { value: str_eq(raw, "true"), span }
}

/// A path the resolved tree lacks.
#[derive(Debug, Clone, PartialEq, Eq)]
pub struct PathMissing {
    pub path: String,
}

impl PathMissing {
    /// The diagnostic text: ``path `…` is missing from resolved tree``.
    pub fn diagnostic(&self) -> (s: String)
        ensures
            s@ == "path `"@ + self.path@ + "` is missing from resolved tree"@,
    {
        let mut s = owned("path `");
        push_str(&mut s, self.path.as_str());
        push_str(&mut s, "` is missing from resolved tree");
        s
    }
}

} // verus!
