//! The lexical tokenizer: scans a text span into classified tokens in one
//! left-to-right pass.
//!
//! Classification precedence at each position: comment marker, then string
//! start (single, double or triple quote), then numeric literal, then
//! keyword or identifier, then operator or punctuation, then whitespace,
//! then anything else.  Every character of the input lands in exactly one
//! token, so concatenating the token texts reproduces the input.

use vstd::prelude::*;

use crate::text::{
    is_digit_char, is_ws_char, is_ident_start_char, is_ident_char, char_is_digit, char_is_ws,
    char_is_ident_start, char_is_ident, line_end, lemma_line_end, find_line_end,
};

verus! {

/// The lexical category of a token.
#[derive(Clone, Copy, Debug, PartialEq, Eq, Structural)]
pub enum TokenKind {
    Keyword,
    Identifier,
    StringLiteral,
    Comment,
    Number,
    Operator,
    Whitespace,
    Other,
}

/// A classified, exact substring of the input.
pub struct Token {
    pub kind: TokenKind,
    pub text: String,
}

/// A token as the specification sees it.
pub struct TokenModel {
    pub kind: TokenKind,
    pub text: Seq<char>,
}

impl View for Token {
    type V = TokenModel;

    open spec fn view(&self) -> TokenModel {
        TokenModel { kind: self.kind, text: self.text@ }
    }
}

/// End of a single- or double-quoted string scanned from `i`: the position
/// after the matching unescaped quote `q`, or the end of the line or of the
/// input for an unterminated string.
pub open spec fn str_lit_end(s: Seq<char>, i: int, q: char) -> int
    decreases s.len() - i when 0 <= i <= s.len()
{
    if i >= s.len() {
        s.len() as int
    } else if s[i] == '\n' {
        i
    } else if s[i] == q {
        i + 1
    } else if s[i] == '\\' && i + 1 < s.len() && s[i + 1] != '\n' {
        str_lit_end(s, i + 2, q)
    } else {
        str_lit_end(s, i + 1, q)
    }
}

/// End of a triple-quoted string scanned from `i`: the position after the
/// next run of three quotes `q`, or the end of the input.
pub open spec fn triple_lit_end(s: Seq<char>, i: int, q: char) -> int
    decreases s.len() - i when 0 <= i
{
    if i + 3 <= s.len() && s[i] == q && s[i + 1] == q && s[i + 2] == q {
        i + 3
    } else if i >= s.len() {
        s.len() as int
    } else {
        triple_lit_end(s, i + 1, q)
    }
}

/// End of a decimal numeric literal scanned from `i`.  `dot_ok` says a
/// decimal point may still appear; `exp_ok` says an exponent marker may
/// still appear.  Underscores are digit separators; an exponent marker may
/// be followed by one sign.
pub open spec fn num_end(s: Seq<char>, i: int, dot_ok: bool, exp_ok: bool) -> int
    decreases s.len() - i when 0 <= i <= s.len()
{
    if i >= s.len() {
        s.len() as int
    } else if is_digit_char(s[i]) || s[i] == '_' {
        num_end(s, i + 1, dot_ok, exp_ok)
    } else if s[i] == '.' && dot_ok && exp_ok {
        num_end(s, i + 1, false, true)
    } else if (s[i] == 'e' || s[i] == 'E') && exp_ok {
        if i + 1 < s.len() && (s[i + 1] == '+' || s[i + 1] == '-') {
            num_end(s, i + 2, false, false)
        } else {
            num_end(s, i + 1, false, false)
        }
    } else {
        i
    }
}

/// Digit of a hexadecimal, octal or binary literal body, or a separator.
pub open spec fn is_radix_char(c: char) -> bool {
    ||| is_digit_char(c)
    ||| ('a' as u32) <= (c as u32) && (c as u32) <= ('f' as u32)
    ||| ('A' as u32) <= (c as u32) && (c as u32) <= ('F' as u32)
    ||| c == '_'
}

/// Base marker letter after a leading zero.
pub open spec fn is_base_prefix_char(c: char) -> bool {
    c == 'x' || c == 'X' || c == 'o' || c == 'O' || c == 'b' || c == 'B'
}

/// End of the body of a prefixed (hexadecimal, octal, binary) literal.
pub open spec fn radix_end(s: Seq<char>, i: int) -> int
    decreases s.len() - i when 0 <= i <= s.len()
{
    if i < s.len() && is_radix_char(s[i]) {
        radix_end(s, i + 1)
    } else {
        i
    }
}

/// End of an identifier run scanned from `i`.
pub open spec fn ident_end(s: Seq<char>, i: int) -> int
    decreases s.len() - i when 0 <= i <= s.len()
{
    if i < s.len() && is_ident_char(s[i]) {
        ident_end(s, i + 1)
    } else {
        i
    }
}

/// End of a whitespace run scanned from `i`.
pub open spec fn ws_end(s: Seq<char>, i: int) -> int
    decreases s.len() - i when 0 <= i <= s.len()
{
    if i < s.len() && is_ws_char(s[i]) {
        ws_end(s, i + 1)
    } else {
        i
    }
}

/// Three-character operator spelling at `p`.
pub open spec fn is_op3(s: Seq<char>, p: int) -> bool {
    p + 3 <= s.len() && {
        let a = s[p];
        let b = s[p + 1];
        let c = s[p + 2];
        ||| a == '*' && b == '*' && c == '='
        ||| a == '/' && b == '/' && c == '='
        ||| a == '>' && b == '>' && c == '='
        ||| a == '<' && b == '<' && c == '='
    }
}

/// Two-character operator spelling.
pub open spec fn is_op2_pair(a: char, b: char) -> bool {
    ||| b == '=' && (a == '=' || a == '!' || a == '<' || a == '>' || a == '+' || a == '-' || a
        == '*' || a == '/' || a == '%' || a == '&' || a == '|' || a == '^' || a == ':')
    ||| a == '-' && b == '>'
    ||| a == '*' && b == '*'
    ||| a == '/' && b == '/'
    ||| a == '>' && b == '>'
    ||| a == '<' && b == '<'
}

pub open spec fn is_op2(s: Seq<char>, p: int) -> bool {
    p + 2 <= s.len() && is_op2_pair(s[p], s[p + 1])
}

/// Single-character operator or punctuation.
pub open spec fn is_punct_char(c: char) -> bool {
    c == '+' || c == '-' || c == '*' || c == '/' || c == '%' || c == '=' || c == '<' || c == '>'
        || c == '(' || c == ')' || c == '[' || c == ']' || c == '{' || c == '}' || c == ',' || c
        == ':' || c == '.' || c == ';' || c == '@' || c == '&' || c == '|' || c == '^' || c == '~'
        || c == '!'
}

/// The fixed closed set of reserved words.
pub open spec fn is_keyword(t: Seq<char>) -> bool {
    ||| t == "False"@
    ||| t == "None"@
    ||| t == "True"@
    ||| t == "and"@
    ||| t == "as"@
    ||| t == "assert"@
    ||| t == "async"@
    ||| t == "await"@
    ||| t == "break"@
    ||| t == "class"@
    ||| t == "continue"@
    ||| t == "def"@
    ||| t == "del"@
    ||| t == "elif"@
    ||| t == "else"@
    ||| t == "except"@
    ||| t == "finally"@
    ||| t == "for"@
    ||| t == "from"@
    ||| t == "global"@
    ||| t == "if"@
    ||| t == "import"@
    ||| t == "in"@
    ||| t == "is"@
    ||| t == "lambda"@
    ||| t == "nonlocal"@
    ||| t == "not"@
    ||| t == "or"@
    ||| t == "pass"@
    ||| t == "raise"@
    ||| t == "return"@
    ||| t == "try"@
    ||| t == "while"@
    ||| t == "with"@
    ||| t == "yield"@
}

/// Kind and raw extent of the token starting at position `p < s.len()`.
pub open spec fn raw_token(s: Seq<char>, p: int) -> (TokenKind, int) {
    let c = s[p];
    if c == '#' {
        (TokenKind::Comment, line_end(s, p))
    } else if c == '"' || c == '\'' {
        if p + 3 <= s.len() && s[p + 1] == c && s[p + 2] == c {
            (TokenKind::StringLiteral, triple_lit_end(s, p + 3, c))
        } else {
            (TokenKind::StringLiteral, str_lit_end(s, p + 1, c))
        }
    } else if is_digit_char(c) {
        if c == '0' && p + 1 < s.len() && is_base_prefix_char(s[p + 1]) {
            (TokenKind::Number, radix_end(s, p + 2))
        } else {
            (TokenKind::Number, num_end(s, p + 1, true, true))
        }
    } else if is_ident_start_char(c) {
        let e = ident_end(s, p + 1);
        if is_keyword(s.subrange(p, e)) {
            (TokenKind::Keyword, e)
        } else {
            (TokenKind::Identifier, e)
        }
    } else if is_op3(s, p) {
        (TokenKind::Operator, p + 3)
    } else if is_op2(s, p) {
        (TokenKind::Operator, p + 2)
    } else if is_punct_char(c) {
        (TokenKind::Operator, p + 1)
    } else if is_ws_char(c) {
        (TokenKind::Whitespace, ws_end(s, p + 1))
    } else {
        (TokenKind::Other, p + 1)
    }
}

/// Extent of the token at `p`, clamped into `(p, s.len()]` so that the scan
/// of `tokenize_from` always advances and stays within the input.
pub open spec fn token_end(s: Seq<char>, p: int) -> int {
    let e = raw_token(s, p).1;
    if e <= p {
        p + 1
    } else if e > s.len() {
        s.len() as int
    } else {
        e
    }
}

/// The token sequence covering `s` from position `p` to the end.
pub open spec fn tokenize_from(s: Seq<char>, p: int) -> Seq<TokenModel>
    decreases s.len() - p when 0 <= p
{
    if p >= s.len() {
        Seq::empty()
    } else {
        seq![
            TokenModel { kind: raw_token(s, p).0, text: s.subrange(p, token_end(s, p)) },
        ] + tokenize_from(s, token_end(s, p))
    }
}

/// The token sequence of a whole input.
pub open spec fn tokenize_model(s: Seq<char>) -> Seq<TokenModel> {
    tokenize_from(s, 0)
}

/// The views of an executable token sequence.
pub open spec fn tokens_view(ts: Seq<Token>) -> Seq<TokenModel> {
    ts.map_values(|t: Token| t@)
}

fn scan_str_lit_end(s: &str, i: usize, q: char, n: usize) -> (r: usize)
    requires
        n == s@.len(),
        i <= n,
    ensures
        r as int == str_lit_end(s@, i as int, q),
        i <= r <= n,
    decreases n - i,
{
    if i >= n {
        return n;
    }
    let c = s.get_char(i);
    if c == '\n' {
        return i;
    }
    if c == q {
        return i + 1;
    }
    if c == '\\' && n - i >= 2 {
        if s.get_char(i + 1) != '\n' {
            return scan_str_lit_end(s, i + 2, q, n);
        }
    }
    scan_str_lit_end(s, i + 1, q, n)
}

fn scan_triple_lit_end(s: &str, i: usize, q: char, n: usize) -> (r: usize)
    requires
        n == s@.len(),
        i <= n,
    ensures
        r as int == triple_lit_end(s@, i as int, q),
        i <= r <= n,
    decreases n - i,
{
    if n - i >= 3 {
        if s.get_char(i) == q && s.get_char(i + 1) == q && s.get_char(i + 2) == q {
            return i + 3;
        }
    }
    if i >= n {
        return n;
    }
    scan_triple_lit_end(s, i + 1, q, n)
}

fn scan_num_end(s: &str, i: usize, dot_ok: bool, exp_ok: bool, n: usize) -> (r: usize)
    requires
        n == s@.len(),
        i <= n,
    ensures
        r as int == num_end(s@, i as int, dot_ok, exp_ok),
        i <= r <= n,
    decreases n - i,
{
    if i >= n {
        return n;
    }
    let c = s.get_char(i);
    if char_is_digit(c) || c == '_' {
        return scan_num_end(s, i + 1, dot_ok, exp_ok, n);
    }
    if c == '.' && dot_ok && exp_ok {
        return scan_num_end(s, i + 1, false, true, n);
    }
    if (c == 'e' || c == 'E') && exp_ok {
        if n - i >= 2 {
            let d = s.get_char(i + 1);
            if d == '+' || d == '-' {
                return scan_num_end(s, i + 2, false, false, n);
            }
        }
        return scan_num_end(s, i + 1, false, false, n);
    }
    i
}

fn char_is_radix(c: char) -> (b: bool)
    ensures
        b == is_radix_char(c),
{
    char_is_digit(c) || (('a' as u32) <= (c as u32) && (c as u32) <= ('f' as u32)) || (('A' as u32)
        <= (c as u32) && (c as u32) <= ('F' as u32)) || c == '_'
}

fn scan_radix_end(s: &str, i: usize, n: usize) -> (r: usize)
    requires
        n == s@.len(),
        i <= n,
    ensures
        r as int == radix_end(s@, i as int),
        i <= r <= n,
    decreases n - i,
{
    if i < n {
        if char_is_radix(s.get_char(i)) {
            return scan_radix_end(s, i + 1, n);
        }
    }
    i
}

fn scan_ident_end(s: &str, i: usize, n: usize) -> (r: usize)
    requires
        n == s@.len(),
        i <= n,
    ensures
        r as int == ident_end(s@, i as int),
        i <= r <= n,
    decreases n - i,
{
    if i < n {
        if char_is_ident(s.get_char(i)) {
            return scan_ident_end(s, i + 1, n);
        }
    }
    i
}

fn scan_ws_end(s: &str, i: usize, n: usize) -> (r: usize)
    requires
        n == s@.len(),
        i <= n,
    ensures
        r as int == ws_end(s@, i as int),
        i <= r <= n,
    decreases n - i,
{
    if i < n {
        if char_is_ws(s.get_char(i)) {
            return scan_ws_end(s, i + 1, n);
        }
    }
    i
}

fn check_op3(s: &str, p: usize, n: usize) -> (b: bool)
    requires
        n == s@.len(),
        p < n,
    ensures
        b == is_op3(s@, p as int),
{
    if n - p < 3 {
        return false;
    }
    let a = s.get_char(p);
    let b0 = s.get_char(p + 1);
    let c = s.get_char(p + 2);
    (a == '*' && b0 == '*' && c == '=') || (a == '/' && b0 == '/' && c == '=') || (a == '>' && b0
        == '>' && c == '=') || (a == '<' && b0 == '<' && c == '=')
}

fn char_is_op2_pair(a: char, b: char) -> (r: bool)
    ensures
        r == is_op2_pair(a, b),
{
    (b == '=' && (a == '=' || a == '!' || a == '<' || a == '>' || a == '+' || a == '-' || a == '*'
        || a == '/' || a == '%' || a == '&' || a == '|' || a == '^' || a == ':')) || (a == '-' && b
        == '>') || (a == '*' && b == '*') || (a == '/' && b == '/') || (a == '>' && b == '>') || (a
        == '<' && b == '<')
}

fn check_op2(s: &str, p: usize, n: usize) -> (b: bool)
    requires
        n == s@.len(),
        p < n,
    ensures
        b == is_op2(s@, p as int),
{
    if n - p < 2 {
        return false;
    }
    char_is_op2_pair(s.get_char(p), s.get_char(p + 1))
}

fn char_is_punct(c: char) -> (b: bool)
    ensures
        b == is_punct_char(c),
{
    c == '+' || c == '-' || c == '*' || c == '/' || c == '%' || c == '=' || c == '<' || c == '>'
        || c == '(' || c == ')' || c == '[' || c == ']' || c == '{' || c == '}' || c == ',' || c
        == ':' || c == '.' || c == ';' || c == '@' || c == '&' || c == '|' || c == '^' || c == '~'
        || c == '!'
}

fn is_keyword_str(t: &str) -> (b: bool)
    ensures
        b == is_keyword(t@),
{
    let u = t.to_owned();
    u == String::from_str("False") || u == String::from_str("None") || u == String::from_str(
        "True",
    ) || u == String::from_str("and") || u == String::from_str("as") || u == String::from_str(
        "assert",
    ) || u == String::from_str("async") || u == String::from_str("await") || u == String::from_str(
        "break",
    ) || u == String::from_str("class") || u == String::from_str("continue") || u
        == String::from_str("def") || u == String::from_str("del") || u == String::from_str(
        "elif",
    ) || u == String::from_str("else") || u == String::from_str("except") || u == String::from_str(
        "finally",
    ) || u == String::from_str("for") || u == String::from_str("from") || u == String::from_str(
        "global",
    ) || u == String::from_str("if") || u == String::from_str("import") || u == String::from_str(
        "in",
    ) || u == String::from_str("is") || u == String::from_str("lambda") || u == String::from_str(
        "nonlocal",
    ) || u == String::from_str("not") || u == String::from_str("or") || u == String::from_str(
        "pass",
    ) || u == String::from_str("raise") || u == String::from_str("return") || u
        == String::from_str("try") || u == String::from_str("while") || u == String::from_str(
        "with",
    ) || u == String::from_str("yield")
}

/// Kind and extent of the token starting at `p`.
fn scan_token(s: &str, p: usize, n: usize) -> (r: (TokenKind, usize))
    requires
        n == s@.len(),
        p < n,
    ensures
        r.0 == raw_token(s@, p as int).0,
        r.1 as int == token_end(s@, p as int),
        p < r.1 <= n,
{
    let c = s.get_char(p);
    if c == '#' {
        let e = find_line_end(s, p, n);
        proof {
            assert(line_end(s@, p as int) == line_end(s@, p as int + 1));
            lemma_line_end(s@, p as int + 1);
        }
        (TokenKind::Comment, e)
    } else if c == '"' || c == '\'' {
        let mut triple = false;
        if n - p >= 3 {
            if s.get_char(p + 1) == c && s.get_char(p + 2) == c {
                triple = true;
            }
        }
        if triple {
            let e = scan_triple_lit_end(s, p + 3, c, n);
            (TokenKind::StringLiteral, e)
        } else {
            let e = scan_str_lit_end(s, p + 1, c, n);
            (TokenKind::StringLiteral, e)
        }
    } else if char_is_digit(c) {
        if c == '0' && n - p >= 2 {
            let d = s.get_char(p + 1);
            if d == 'x' || d == 'X' || d == 'o' || d == 'O' || d == 'b' || d == 'B' {
                let e = scan_radix_end(s, p + 2, n);
                return (TokenKind::Number, e);
            }
        }
        let e = scan_num_end(s, p + 1, true, true, n);
        (TokenKind::Number, e)
    } else if char_is_ident_start(c) {
        let e = scan_ident_end(s, p + 1, n);
        let t = s.substring_char(p, e);
        if is_keyword_str(t) {
            (TokenKind::Keyword, e)
        } else {
            (TokenKind::Identifier, e)
        }
    } else if check_op3(s, p, n) {
        (TokenKind::Operator, p + 3)
    } else if check_op2(s, p, n) {
        (TokenKind::Operator, p + 2)
    } else if char_is_punct(c) {
        (TokenKind::Operator, p + 1)
    } else if char_is_ws(c) {
        let e = scan_ws_end(s, p + 1, n);
        (TokenKind::Whitespace, e)
    } else {
        (TokenKind::Other, p + 1)
    }
}

/// Scans a text span into its finite token sequence, left to right.
pub fn tokenize(text: &str) -> (r: Vec<Token>)
    ensures
        tokens_view(r@) == tokenize_model(text@),
{
    let n = text.unicode_len();
    let ghost s = text@;
    let mut out: Vec<Token> = Vec::new();
    let mut p: usize = 0;
    proof {
        assert(tokens_view(out@) + tokenize_from(s, 0) =~= tokenize_from(s, 0));
    }
    while p < n
        invariant
            n == s.len(),
            s == text@,
            p <= n,
            tokenize_model(s) == tokens_view(out@) + tokenize_from(s, p as int),
        decreases n - p,
    {
        let (kind, e) = scan_token(text, p, n);
        let t = text.substring_char(p, e);
        let tok = Token { kind: kind, text: t.to_owned() };
        proof {
            assert(tok@ == TokenModel {
                kind: raw_token(s, p as int).0,
                text: s.subrange(p as int, token_end(s, p as int)),
            });
            assert(tokenize_from(s, p as int) == seq![tok@] + tokenize_from(s, e as int));
        }
        let ghost prev = out@;
        out.push(tok);
        proof {
            assert(tokens_view(out@) =~= tokens_view(prev).push(tok@));
            assert(tokens_view(prev).push(tok@) + tokenize_from(s, e as int) =~= tokens_view(prev)
                + (seq![tok@] + tokenize_from(s, e as int)));
        }
        p = e;
    }
    proof {
        assert(tokenize_from(s, n as int) =~= Seq::<TokenModel>::empty());
        assert(tokens_view(out@) + Seq::<TokenModel>::empty() =~= tokens_view(out@));
    }
    out
}

/// Concatenation of every token's text, in order.
pub open spec fn concat_token_texts(ts: Seq<TokenModel>) -> Seq<char>
    decreases ts.len()
{
    if ts.len() == 0 {
        Seq::empty()
    } else {
        ts[0].text + concat_token_texts(ts.drop_first())
    }
}

proof fn lemma_tokens_cover(s: Seq<char>, p: int)
    requires
        0 <= p <= s.len(),
    ensures
        concat_token_texts(tokenize_from(s, p)) == s.subrange(p, s.len() as int),
    decreases s.len() - p,
{
    if p >= s.len() {
        assert(tokenize_from(s, p) =~= Seq::<TokenModel>::empty());
        assert(s.subrange(p, s.len() as int) =~= Seq::<char>::empty());
    } else {
        let e = token_end(s, p);
        lemma_tokens_cover(s, e);
        let ts = tokenize_from(s, p);
        assert(ts[0].text == s.subrange(p, e));
        assert(ts.drop_first() =~= tokenize_from(s, e));
        assert(concat_token_texts(ts) == ts[0].text + concat_token_texts(ts.drop_first()));
        assert(s.subrange(p, e) + s.subrange(e, s.len() as int) =~= s.subrange(p, s.len() as int));
    }
}

/// Tokenizer exactness: concatenating the texts of every produced token, in
/// order, reproduces the input exactly.
pub proof fn lemma_tokenizer_exact(s: Seq<char>)
    ensures
        concat_token_texts(tokenize_model(s)) == s,
{
    lemma_tokens_cover(s, 0);
    assert(s.subrange(0, s.len() as int) =~= s);
}

/// Every token's text is made of the input's characters alone: a character
/// absent from the input is absent from every token.
pub proof fn lemma_tokens_avoid_char(s: Seq<char>, p: int, c: char)
    requires
        0 <= p <= s.len(),
        forall|i: int| 0 <= i < s.len() ==> s[i] != c,
    ensures
        forall|i: int, j: int|
            0 <= i < tokenize_from(s, p).len() && 0 <= j < tokenize_from(s, p)[i].text.len()
                ==> #[trigger] tokenize_from(s, p)[i].text[j] != c,
    decreases s.len() - p,
{
    if p < s.len() {
        let e = token_end(s, p);
        lemma_tokens_avoid_char(s, e, c);
        let ts = tokenize_from(s, p);
        assert forall|i: int, j: int|
            0 <= i < ts.len() && 0 <= j < ts[i].text.len() implies #[trigger] ts[i].text[j]
            != c by {
            if i == 0 {
                assert(ts[0].text == s.subrange(p, e));
                assert(ts[0].text[j] == s[p + j]);
            } else {
                assert(ts[i] == tokenize_from(s, e)[i - 1]);
            }
        }
    }
}

/// Determinism: the token sequence is a function of the input text alone, so
/// equal inputs tokenize equally.
pub proof fn lemma_tokenize_deterministic(a: Seq<char>, b: Seq<char>)
    requires
        a == b,
    ensures
        tokenize_model(a) == tokenize_model(b),
{
}

} // verus!
