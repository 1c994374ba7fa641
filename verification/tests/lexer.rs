use neoclr::lexer::{lex, Token};

fn tokens(source: &str) -> Vec<(String, usize, usize)> {
    lex(source).unwrap().into_iter().map(|Token { text, line, column }| (text, line, column)).collect()
}

fn t(text: &str, line: usize, column: usize) -> (String, usize, usize) {
    (text.to_string(), line, column)
}

#[test]
fn words_numbers_and_punctuation() {
    assert_eq!(
        tokens("let x = 42;"),
        vec![t("let", 1, 1), t("x", 1, 5), t("=", 1, 7), t("42", 1, 9), t(";", 1, 11), t("", 1, 12)]
    );
    assert_eq!(
        tokens("a..<b->c==d&&e"),
        vec![
            t("a", 1, 1),
            t("..<", 1, 2),
            t("b", 1, 5),
            t("->", 1, 6),
            t("c", 1, 8),
            t("==", 1, 9),
            t("d", 1, 11),
            t("&&", 1, 12),
            t("e", 1, 14),
            t("", 1, 15),
        ]
    );
    assert_eq!(tokens("x1_y 007"), vec![t("x1_y", 1, 1), t("007", 1, 6), t("", 1, 9)]);
}

#[test]
fn lines_comments_and_whitespace() {
    assert_eq!(
        tokens("a // note\nb"),
        vec![t("a", 1, 1), t("\n", 1, 10), t("b", 2, 1), t("", 2, 2)]
    );
    assert_eq!(tokens("a\u{3000}b"), vec![t("a", 1, 1), t("b", 1, 3), t("", 1, 4)]);
    assert_eq!(tokens(""), vec![t("", 1, 1)]);
    assert_eq!(tokens("// only"), vec![t("", 1, 8)]);
}

#[test]
fn string_literals() {
    assert_eq!(
        tokens("\"a\\\"b\" x"),
        vec![t("\"a\\\"b\"", 1, 1), t("x", 1, 8), t("", 1, 9)]
    );
    assert_eq!(tokens("\"\\\\\""), vec![t("\"\\\\\"", 1, 1), t("", 1, 5)]);
}

#[test]
fn refusals_are_positioned() {
    assert_eq!(lex("x \"abc").unwrap_err().message, "source 1:3: unterminated string literal");
    assert_eq!(
        lex("\n  \"ab\ncd\"").unwrap_err().message,
        "source 2:3: string literal must end on the same line"
    );
    assert_eq!(lex("a # b").unwrap_err().message, "source 1:3: unsupported character '#'");
    let big = "a".repeat(1_048_577);
    assert_eq!(lex(&big).unwrap_err().message, "source exceeds 1 MiB limit");
    assert!(lex(&"a".repeat(1_048_576)).is_ok());
}
