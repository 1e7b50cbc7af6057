//! The renderer: turns a token sequence into one styled string for a
//! terminal, and offers the two narrower formatting operations used for
//! structural lines and error messages.
//!
//! Every styled token is wrapped in the fixed style directive of its kind
//! followed by an explicit reset, so that styles never bleed between tokens;
//! identifier, whitespace and other tokens pass through unstyled.

use vstd::prelude::*;

use crate::token::{Token, TokenKind, TokenModel, tokens_view, tokenize, tokenize_model};

verus! {

/// Kinds that receive a style directive.
pub open spec fn is_styled_kind(k: TokenKind) -> bool {
    match k {
        TokenKind::Keyword => true,
        TokenKind::StringLiteral => true,
        TokenKind::Comment => true,
        TokenKind::Number => true,
        TokenKind::Operator => true,
        TokenKind::Identifier => false,
        TokenKind::Whitespace => false,
        TokenKind::Other => false,
    }
}

/// The fixed style directive of each styled kind; empty for the rest.
pub open spec fn style_seq(k: TokenKind) -> Seq<char> {
    match k {
        TokenKind::Keyword => "\u{1b}[1;34m"@,
        TokenKind::StringLiteral => "\u{1b}[32m"@,
        TokenKind::Comment => "\u{1b}[90m"@,
        TokenKind::Number => "\u{1b}[33m"@,
        TokenKind::Operator => "\u{1b}[35m"@,
        TokenKind::Identifier => Seq::empty(),
        TokenKind::Whitespace => Seq::empty(),
        TokenKind::Other => Seq::empty(),
    }
}

/// The reset directive emitted after every styled span.
pub open spec fn reset_seq() -> Seq<char> {
    "\u{1b}[0m"@
}

/// One rendered token: its text, wrapped in style and reset when its kind is
/// styled.
pub open spec fn render_token(t: TokenModel) -> Seq<char> {
    if is_styled_kind(t.kind) {
        style_seq(t.kind) + t.text + reset_seq()
    } else {
        t.text
    }
}

/// The rendering of a whole token sequence.
pub open spec fn render_model(ts: Seq<TokenModel>) -> Seq<char>
    decreases ts.len()
{
    if ts.len() == 0 {
        Seq::empty()
    } else {
        render_model(ts.drop_last()) + render_token(ts.last())
    }
}

fn kind_is_styled(k: TokenKind) -> (b: bool)
    ensures
        b == is_styled_kind(k),
{
    match k {
        TokenKind::Keyword => true,
        TokenKind::StringLiteral => true,
        TokenKind::Comment => true,
        TokenKind::Number => true,
        TokenKind::Operator => true,
        TokenKind::Identifier => false,
        TokenKind::Whitespace => false,
        TokenKind::Other => false,
    }
}

fn style_str(k: TokenKind) -> (r: &'static str)
    ensures
        r@ == style_seq(k),
{
    proof {
        reveal_strlit("");
        assert(""@ =~= Seq::<char>::empty());
    }
    match k {
        TokenKind::Keyword => "\u{1b}[1;34m",
        TokenKind::StringLiteral => "\u{1b}[32m",
        TokenKind::Comment => "\u{1b}[90m",
        TokenKind::Number => "\u{1b}[33m",
        TokenKind::Operator => "\u{1b}[35m",
        TokenKind::Identifier => "",
        TokenKind::Whitespace => "",
        TokenKind::Other => "",
    }
}

/// Renders a token sequence into one styled string.  A pure function of the
/// tokens and the fixed style map.
pub fn render(tokens: &Vec<Token>) -> (r: String)
    ensures
        r@ == render_model(tokens_view(tokens@)),
{
    let ghost tv = tokens_view(tokens@);
    let mut out = String::new();
    let mut i: usize = 0;
    proof {
        assert(tv.take(0) =~= Seq::<TokenModel>::empty());
    }
    while i < tokens.len()
        invariant
            i <= tokens.len(),
            tv == tokens_view(tokens@),
            out@ == render_model(tv.take(i as int)),
        decreases tokens.len() - i,
    {
        let ghost before = out@;
        let t = &tokens[i];
        if kind_is_styled(t.kind) {
            out.append(style_str(t.kind));
            out.append(t.text.as_str());
            out.append("\u{1b}[0m");
        } else {
            out.append(t.text.as_str());
        }
        proof {
            assert(tv.take(i + 1).drop_last() =~= tv.take(i as int));
            assert(tv.take(i + 1).last() == tv[i as int]);
            assert(tv[i as int] == tokens@[i as int]@);
            assert(out@ =~= before + render_token(tv[i as int]));
        }
        i = i + 1;
    }
    proof {
        assert(tv.take(tokens@.len() as int) =~= tv);
    }
    out
}

/// Tokenizes a text span and renders the result in one step.
pub fn highlight(text: &str) -> (r: String)
    ensures
        r@ == render_model(tokenize_model(text@)),
{
    let tokens = tokenize(text);
    render(&tokens)
}

/// The fixed style of a structural header line: one style for an emphasized
/// document title, another for a listing entry.
pub open spec fn format_header_model(t: Seq<char>, emphasized: bool) -> Seq<char> {
    (if emphasized {
        "\u{1b}[1;36m"@
    } else {
        "\u{1b}[36m"@
    }) + t + reset_seq()
}

/// Applies one of two fixed styles to a structural line; no tokenizing.
pub fn format_header(text: &str, emphasized: bool) -> (r: String)
    ensures
        r@ == format_header_model(text@, emphasized),
{
    let mut out = if emphasized {
        String::from_str("\u{1b}[1;36m")
    } else {
        String::from_str("\u{1b}[36m")
    };
    out.append(text);
    out.append("\u{1b}[0m");
    proof {
        assert(out@ =~= format_header_model(text@, emphasized));
    }
    out
}

/// The fixed style of a user-facing error message.
pub open spec fn format_error_model(t: Seq<char>) -> Seq<char> {
    "\u{1b}[1;31m"@ + t + reset_seq()
}

/// Wraps a user-facing error message in the fixed error style; total, never
/// fails.
pub fn format_error(text: &str) -> (r: String)
    ensures
        r@ == format_error_model(text@),
{
    let mut out = String::from_str("\u{1b}[1;31m");
    out.append(text);
    out.append("\u{1b}[0m");
    proof {
        assert(out@ =~= format_error_model(text@));
    }
    out
}

/// Determinism: the rendering is a function of the token sequence alone, so
/// equal token sequences render equally.
pub proof fn lemma_render_deterministic(a: Seq<TokenModel>, b: Seq<TokenModel>)
    requires
        a == b,
    ensures
        render_model(a) == render_model(b),
{
}

/// The characters left visible on a terminal: everything outside the style
/// directives, which run from an escape character to the next `m`.
pub open spec fn strip_styles(s: Seq<char>, in_escape: bool) -> Seq<char>
    decreases s.len()
{
    if s.len() == 0 {
        Seq::empty()
    } else if in_escape {
        strip_styles(s.drop_first(), s[0] != 'm')
    } else if s[0] == '\u{1b}' {
        strip_styles(s.drop_first(), true)
    } else {
        seq![s[0]] + strip_styles(s.drop_first(), false)
    }
}

/// Whether a scan of `s` starting in state `in_escape` ends inside a style
/// directive.
pub open spec fn esc_state(s: Seq<char>, in_escape: bool) -> bool
    decreases s.len()
{
    if s.len() == 0 {
        in_escape
    } else if in_escape {
        esc_state(s.drop_first(), s[0] != 'm')
    } else if s[0] == '\u{1b}' {
        esc_state(s.drop_first(), true)
    } else {
        esc_state(s.drop_first(), false)
    }
}

/// Stripping distributes over concatenation, threading the escape state.
proof fn lemma_strip_concat(a: Seq<char>, b: Seq<char>, f: bool)
    ensures
        strip_styles(a + b, f) == strip_styles(a, f) + strip_styles(b, esc_state(a, f)),
        esc_state(a + b, f) == esc_state(b, esc_state(a, f)),
    decreases a.len(),
{
    if a.len() == 0 {
        assert(a + b =~= b);
        assert(strip_styles(a, f) + strip_styles(b, f) =~= strip_styles(b, f));
    } else {
        let g = if f {
            a[0] != 'm'
        } else {
            a[0] == '\u{1b}'
        };
        lemma_strip_concat(a.drop_first(), b, g);
        assert((a + b).drop_first() =~= a.drop_first() + b);
        assert((a + b)[0] == a[0]);
        if !f && a[0] != '\u{1b}' {
            assert(seq![a[0]] + (strip_styles(a.drop_first(), false) + strip_styles(
                b,
                esc_state(a.drop_first(), false),
            )) =~= (seq![a[0]] + strip_styles(a.drop_first(), false)) + strip_styles(
                b,
                esc_state(a.drop_first(), false),
            ));
        }
    }
}

/// Text free of escape characters passes through stripping unchanged.
proof fn lemma_strip_plain(t: Seq<char>)
    requires
        forall|j: int| 0 <= j < t.len() ==> t[j] != '\u{1b}',
    ensures
        strip_styles(t, false) == t,
        esc_state(t, false) == false,
    decreases t.len(),
{
    if t.len() > 0 {
        lemma_strip_plain(t.drop_first());
        assert(seq![t[0]] + t.drop_first() =~= t);
    }
}

/// A scan inside a directive that closes with `m` consumes it wholly.
proof fn lemma_strip_directive_tail(c: Seq<char>)
    requires
        c.len() >= 1,
        forall|j: int| 0 <= j < c.len() - 1 ==> c[j] != 'm',
        c.last() == 'm',
    ensures
        strip_styles(c, true) == Seq::<char>::empty(),
        esc_state(c, true) == false,
    decreases c.len(),
{
    if c.len() > 1 {
        assert(c[0] != 'm');
        let d = c.drop_first();
        assert forall|j: int| 0 <= j < d.len() - 1 implies d[j] != 'm' by {
            assert(d[j] == c[j + 1]);
        }
        assert(d.last() == c.last());
        lemma_strip_directive_tail(d);
        assert(strip_styles(c, true) == strip_styles(d, true));
        assert(esc_state(c, true) == esc_state(d, true));
    } else {
        assert(c[0] == 'm');
        assert(c.drop_first().len() == 0);
        assert(strip_styles(c, true) == strip_styles(c.drop_first(), false));
        assert(esc_state(c, true) == esc_state(c.drop_first(), false));
        assert(esc_state(c.drop_first(), false) == false);
    }
}

/// A whole style directive — escape, body, closing `m` — strips to nothing.
proof fn lemma_strip_directive(c: Seq<char>)
    requires
        c.len() >= 2,
        c[0] == '\u{1b}',
        forall|j: int| 1 <= j < c.len() - 1 ==> c[j] != 'm',
        c.last() == 'm',
    ensures
        strip_styles(c, false) == Seq::<char>::empty(),
        esc_state(c, false) == false,
{
    assert(c.drop_first().last() == c.last());
    lemma_strip_directive_tail(c.drop_first());
}

/// Every style directive of the fixed style map strips to nothing.
proof fn lemma_style_seq_strips(k: TokenKind)
    requires
        is_styled_kind(k),
    ensures
        strip_styles(style_seq(k), false) == Seq::<char>::empty(),
        esc_state(style_seq(k), false) == false,
{
    reveal_strlit("\u{1b}[1;34m");
    reveal_strlit("\u{1b}[32m");
    reveal_strlit("\u{1b}[90m");
    reveal_strlit("\u{1b}[33m");
    reveal_strlit("\u{1b}[35m");
    lemma_strip_directive(style_seq(k));
}

proof fn lemma_reset_strips()
    ensures
        strip_styles(reset_seq(), false) == Seq::<char>::empty(),
        esc_state(reset_seq(), false) == false,
{
    reveal_strlit("\u{1b}[0m");
    lemma_strip_directive(reset_seq());
}

/// One rendered token strips back to its text.
proof fn lemma_render_token_strips(t: TokenModel)
    requires
        forall|j: int| 0 <= j < t.text.len() ==> t.text[j] != '\u{1b}',
    ensures
        strip_styles(render_token(t), false) == t.text,
        esc_state(render_token(t), false) == false,
{
    lemma_strip_plain(t.text);
    if is_styled_kind(t.kind) {
        lemma_style_seq_strips(t.kind);
        lemma_reset_strips();
        lemma_strip_concat(style_seq(t.kind) + t.text, reset_seq(), false);
        lemma_strip_concat(style_seq(t.kind), t.text, false);
        assert(Seq::<char>::empty() + t.text =~= t.text);
        assert(t.text + Seq::<char>::empty() =~= t.text);
    }
}

/// Concatenating one more token's text extends the concatenation at the end.
proof fn lemma_concat_texts_snoc(ts: Seq<TokenModel>, t: TokenModel)
    ensures
        crate::token::concat_token_texts(ts.push(t)) == crate::token::concat_token_texts(ts)
            + t.text,
    decreases ts.len(),
{
    if ts.len() == 0 {
        assert(ts.push(t)[0] == t);
        assert(ts.push(t).drop_first() =~= Seq::<TokenModel>::empty());
        assert(crate::token::concat_token_texts(Seq::<TokenModel>::empty())
            == Seq::<char>::empty());
        assert(t.text + Seq::<char>::empty() =~= t.text);
        assert(crate::token::concat_token_texts(ts) + t.text =~= t.text);
    } else {
        lemma_concat_texts_snoc(ts.drop_first(), t);
        assert(ts.push(t).drop_first() =~= ts.drop_first().push(t));
        assert(ts.push(t)[0] == ts[0]);
        assert(ts[0].text + (crate::token::concat_token_texts(ts.drop_first()) + t.text) =~= (
        ts[0].text + crate::token::concat_token_texts(ts.drop_first())) + t.text);
    }
}

/// Stripping the style directives from a rendering leaves exactly the
/// concatenated token texts, for tokens whose texts hold no escape character.
pub proof fn lemma_render_visible(ts: Seq<TokenModel>)
    requires
        forall|i: int, j: int|
            0 <= i < ts.len() && 0 <= j < ts[i].text.len() ==> #[trigger] ts[i].text[j]
                != '\u{1b}',
    ensures
        strip_styles(render_model(ts), false) == crate::token::concat_token_texts(ts),
        esc_state(render_model(ts), false) == false,
    decreases ts.len(),
{
    if ts.len() == 0 {
        assert(crate::token::concat_token_texts(ts) == Seq::<char>::empty());
    } else {
        lemma_render_visible(ts.drop_last());
        lemma_render_token_strips(ts.last());
        lemma_strip_concat(render_model(ts.drop_last()), render_token(ts.last()), false);
        assert(ts.drop_last().push(ts.last()) =~= ts);
        lemma_concat_texts_snoc(ts.drop_last(), ts.last());
    }
}

/// For an input free of escape characters, the highlighted rendering shows
/// exactly the input: stripping the style directives gives it back.
pub proof fn lemma_highlight_visible(s: Seq<char>)
    requires
        forall|i: int| 0 <= i < s.len() ==> s[i] != '\u{1b}',
    ensures
        strip_styles(render_model(tokenize_model(s)), false) == s,
{
    crate::token::lemma_tokens_avoid_char(s, 0, '\u{1b}');
    lemma_render_visible(tokenize_model(s));
    crate::token::lemma_tokenizer_exact(s);
}

} // verus!
