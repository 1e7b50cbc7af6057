use py_cheat::render::{format_error, format_header, highlight, render};
use py_cheat::token::{tokenize, TokenKind};

fn concat_texts(input: &str) -> String {
    let mut joined = String::new();
    for tok in tokenize(input) {
        joined.push_str(&tok.text);
    }
    joined
}

fn strip_styles(styled: &str) -> String {
    let mut visible = String::new();
    let mut in_escape = false;
    for c in styled.chars() {
        if in_escape {
            if c == 'm' {
                in_escape = false;
            }
        } else if c == '\u{1b}' {
            in_escape = true;
        } else {
            visible.push(c);
        }
    }
    visible
}

#[test]
fn tokenize_concrete_example() {
    let tokens = tokenize("x = 5  # comment");
    let expected = [
        (TokenKind::Identifier, "x"),
        (TokenKind::Whitespace, " "),
        (TokenKind::Operator, "="),
        (TokenKind::Whitespace, " "),
        (TokenKind::Number, "5"),
        (TokenKind::Whitespace, "  "),
        (TokenKind::Comment, "# comment"),
    ];
    assert_eq!(tokens.len(), expected.len());
    for (tok, (kind, text)) in tokens.iter().zip(expected.iter()) {
        assert_eq!(tok.kind, *kind);
        assert_eq!(tok.text, *text);
    }
}

#[test]
fn tokenizer_exactness_on_varied_inputs() {
    let inputs = [
        "",
        "x = 5  # comment",
        "def f(a, b):\n    return a ** b\n",
        "s = 'single' + \"double\"",
        "t = '''triple\nspans lines'''",
        "u = 'unterminated",
        "v = \"escape \\\" stays\"",
        "n = 0xFF_a0 + 0b101 + 1_000.5e-3 + 3.14",
        "ops: a //= b; c <<= d; e != f; g -> h",
        "mixed \t tabs\r\nand breaks",
        "emoji \u{1f600} and box \u{2514}\u{2500} pass through",
    ];
    for input in inputs {
        assert_eq!(concat_texts(input), *input, "failed on {:?}", input);
    }
}

#[test]
fn tokenize_keywords_versus_identifiers() {
    let tokens = tokenize("def definitely else elsewhere None none");
    let words: Vec<_> = tokens.iter().filter(|t| t.kind != TokenKind::Whitespace).collect();
    assert_eq!(words.len(), 6);
    assert_eq!(words[0].kind, TokenKind::Keyword);
    assert_eq!(words[1].kind, TokenKind::Identifier);
    assert_eq!(words[2].kind, TokenKind::Keyword);
    assert_eq!(words[3].kind, TokenKind::Identifier);
    assert_eq!(words[4].kind, TokenKind::Keyword);
    assert_eq!(words[5].kind, TokenKind::Identifier);
}

#[test]
fn tokenize_comment_stops_before_line_break() {
    let tokens = tokenize("# note\nx");
    assert_eq!(tokens[0].kind, TokenKind::Comment);
    assert_eq!(tokens[0].text, "# note");
    assert_eq!(tokens[1].kind, TokenKind::Whitespace);
    assert_eq!(tokens[1].text, "\n");
    assert_eq!(tokens[2].kind, TokenKind::Identifier);
}

#[test]
fn tokenize_string_stops_at_line_end_when_unterminated() {
    let tokens = tokenize("'open\nrest");
    assert_eq!(tokens[0].kind, TokenKind::StringLiteral);
    assert_eq!(tokens[0].text, "'open");
    assert_eq!(tokens[1].text, "\n");
}

#[test]
fn tokenize_triple_string_crosses_lines() {
    let tokens = tokenize("'''a\nb''' x");
    assert_eq!(tokens[0].kind, TokenKind::StringLiteral);
    assert_eq!(tokens[0].text, "'''a\nb'''");
}

#[test]
fn tokenize_number_forms() {
    for (input, number) in [
        ("0x1F", "0x1F"),
        ("0b1010", "0b1010"),
        ("0o755", "0o755"),
        ("3.14", "3.14"),
        ("1e-5", "1e-5"),
        ("2E+10", "2E+10"),
        ("1_000", "1_000"),
    ] {
        let tokens = tokenize(input);
        assert_eq!(tokens[0].kind, TokenKind::Number, "on {:?}", input);
        assert_eq!(tokens[0].text, number, "on {:?}", input);
    }
}

#[test]
fn tokenize_multi_character_operators_are_one_token() {
    let tokens = tokenize("**=");
    assert_eq!(tokens.len(), 1);
    assert_eq!(tokens[0].kind, TokenKind::Operator);
    let tokens = tokenize("->");
    assert_eq!(tokens.len(), 1);
    assert_eq!(tokens[0].kind, TokenKind::Operator);
}

#[test]
fn tokenize_other_for_unclassified_characters() {
    let tokens = tokenize("$");
    assert_eq!(tokens.len(), 1);
    assert_eq!(tokens[0].kind, TokenKind::Other);
    assert_eq!(tokens[0].text, "$");
}

#[test]
fn tokenize_is_deterministic() {
    let input = "def f():\n    return '''x''' + 0xFF  # done";
    let a = tokenize(input);
    let b = tokenize(input);
    assert_eq!(a.len(), b.len());
    for (x, y) in a.iter().zip(b.iter()) {
        assert_eq!(x.kind, y.kind);
        assert_eq!(x.text, y.text);
    }
}

#[test]
fn render_is_deterministic() {
    let input = "x = 5  # comment";
    let a = render(&tokenize(input));
    let b = render(&tokenize(input));
    assert_eq!(a, b);
    assert_eq!(highlight(input), a);
}

#[test]
fn render_wraps_styled_tokens_and_resets() {
    let tokens = tokenize("def");
    let out = render(&tokens);
    assert_eq!(out, "\u{1b}[1;34mdef\u{1b}[0m");
}

#[test]
fn render_passes_unstyled_tokens_through() {
    let tokens = tokenize("plain_name \t");
    let out = render(&tokens);
    assert_eq!(out, "plain_name \t");
}

#[test]
fn highlight_keeps_visible_characters_exact() {
    let inputs = [
        "x = 5  # comment",
        "def f(a):\n    return 'text' + 0b10  # trailing",
        "while True:\n    pass\n",
    ];
    for input in inputs {
        assert_eq!(strip_styles(&highlight(input)), *input, "failed on {:?}", input);
    }
}

#[test]
fn format_header_applies_fixed_styles() {
    assert_eq!(format_header("Basics", true), "\u{1b}[1;36mBasics\u{1b}[0m");
    assert_eq!(format_header("entry", false), "\u{1b}[36mentry\u{1b}[0m");
}

#[test]
fn format_error_applies_error_style() {
    assert_eq!(format_error("boom"), "\u{1b}[1;31mboom\u{1b}[0m");
}
