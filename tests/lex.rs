use kal::lex::{CommandLexError, CommandLexer, CommandToken, RawStringPattern};

#[test]
fn lex() {
    for (src, result) in [
        (
            "/hello world",
            Ok(vec![
                CommandToken::RawString("/hello", RawStringPattern::Unrecognized),
                CommandToken::Whitespace(" "),
                CommandToken::RawString("world", RawStringPattern::Unrecognized),
            ]),
        ),
        (
            "/hello    -1 1   2.3\t3a\r4.5b",
            Ok(vec![
                CommandToken::RawString("/hello", RawStringPattern::Unrecognized),
                CommandToken::Whitespace("    "),
                CommandToken::RawString("-1", RawStringPattern::Integer),
                CommandToken::Whitespace(" "),
                CommandToken::RawString("1", RawStringPattern::Integer),
                CommandToken::Whitespace("   "),
                CommandToken::RawString("2.3", RawStringPattern::Float),
                CommandToken::Whitespace("\t"),
                CommandToken::RawString("3a", RawStringPattern::Unrecognized),
                CommandToken::Whitespace("\r"),
                CommandToken::RawString("4.5b", RawStringPattern::Unrecognized),
            ]),
        ),
    ] {
        let tokens: Result<Vec<_>, _> = CommandLexer::new(src).collect_tokens();
        assert_eq!(result, tokens);
    }
}

#[test]
fn lex_quote() {
    for (src, result) in [
        ("\"what", Err(CommandLexError::UnclosedQuote(0, "\"what"))),
        (
            "\"ok\"",
            Ok(vec![CommandToken::QuotedString("\"", "ok".to_string(), "\"")]),
        ),
        (
            "\"ok\" and \"ok\"",
            Ok(vec![
                CommandToken::QuotedString("\"", "ok".to_string(), "\""),
                CommandToken::Whitespace(" "),
                CommandToken::RawString("and", RawStringPattern::Unrecognized),
                CommandToken::Whitespace(" "),
                CommandToken::QuotedString("\"", "ok".to_string(), "\""),
            ]),
        ),
        (
            r#"
                "escape \\ more \"yes\""
            "#
            .trim(),
            Ok(vec![CommandToken::QuotedString(
                "\"",
                "escape \\ more \"yes\"".to_string(),
                "\"",
            )]),
        ),
    ] {
        let tokens: Result<Vec<_>, _> = CommandLexer::new(src).collect_tokens();
        assert_eq!(result, tokens);
    }
}

#[test]
fn lex_named() {
    for (src, result) in [
        ("a=", Err(CommandLexError::NamedProhibitsWhitespace(0, "a="))),
        (
            "a=b",
            Ok(vec![CommandToken::Named(
                "a",
                Box::new(CommandToken::RawString("b", RawStringPattern::Unrecognized)),
            )]),
        ),
        ("a=b=c", Err(CommandLexError::NamedCannotContainNamed(0, "a=b=c"))),
    ] {
        let tokens: Result<Vec<_>, _> = CommandLexer::new(src).collect_tokens();
        assert_eq!(result, tokens);
    }
}

fn pattern_of(word: &str) -> RawStringPattern {
    match CommandLexer::new(word).collect_tokens() {
        Ok(tokens) => match tokens.as_slice() {
            [CommandToken::RawString(_, p)] => *p,
            other => panic!("not one word: {:?}", other),
        },
        Err(e) => panic!("lex error: {:?}", e),
    }
}

#[test]
fn numeric_classification() {
    assert_eq!(pattern_of("1.0"), RawStringPattern::Float);
    assert_eq!(pattern_of("3"), RawStringPattern::Integer);
    assert_eq!(pattern_of("3a"), RawStringPattern::Unrecognized);
    assert_eq!(pattern_of("1.2.3"), RawStringPattern::Unrecognized);
    assert_eq!(pattern_of("+7"), RawStringPattern::Integer);
    // A sign belongs to integers only.
    assert_eq!(pattern_of("-0.5"), RawStringPattern::Unrecognized);
    assert_eq!(pattern_of("+.5"), RawStringPattern::Unrecognized);
    assert_eq!(pattern_of(".5"), RawStringPattern::Float);
    assert_eq!(pattern_of("."), RawStringPattern::Unrecognized);
    assert_eq!(pattern_of("-"), RawStringPattern::Unrecognized);
    assert_eq!(pattern_of("1-2"), RawStringPattern::Unrecognized);
}

#[test]
fn quoted_edge_cases() {
    assert_eq!(
        CommandLexer::new("\"\"").collect_tokens(),
        Ok(vec![CommandToken::QuotedString("\"", String::new(), "\"")])
    );
    assert_eq!(
        CommandLexer::new("'it\\'s'").collect_tokens(),
        Ok(vec![CommandToken::QuotedString("'", "it's".to_string(), "'")])
    );
    // A backslash before any other character is kept.
    assert_eq!(
        CommandLexer::new("\"a\\nb\"").collect_tokens(),
        Ok(vec![CommandToken::QuotedString("\"", "a\\nb".to_string(), "\"")])
    );
    assert_eq!(
        CommandLexer::new("\"abc\\\"").collect_tokens(),
        Err(CommandLexError::UnclosedQuote(0, "\"abc\\\""))
    );
    assert_eq!(
        CommandLexer::new("x \"").collect_tokens(),
        Err(CommandLexError::UnclosedQuote(2, "\""))
    );
}

#[test]
fn named_edge_cases() {
    assert_eq!(
        CommandLexer::new("=b").collect_tokens(),
        Err(CommandLexError::NamedProhibitsWhitespace(0, "=b"))
    );
    assert_eq!(
        CommandLexer::new("a= b").collect_tokens(),
        Err(CommandLexError::NamedProhibitsWhitespace(0, "a= b"))
    );
    assert_eq!(
        CommandLexer::new("k=\"v w\"").collect_tokens(),
        Ok(vec![CommandToken::Named(
            "k",
            Box::new(CommandToken::QuotedString("\"", "v w".to_string(), "\"")),
        )])
    );
    assert_eq!(
        CommandLexer::new("k=\"v").collect_tokens(),
        Err(CommandLexError::UnclosedQuote(2, "\"v"))
    );
}

#[test]
fn error_offsets_count_bytes() {
    assert_eq!(
        CommandLexer::new("é \"x").collect_tokens(),
        Err(CommandLexError::UnclosedQuote(3, "\"x"))
    );
}

#[test]
fn lexer_stops_after_failure() {
    let mut lexer = CommandLexer::new("a \"b");
    assert_eq!(
        lexer.next(),
        Some(Ok(CommandToken::RawString("a", RawStringPattern::Unrecognized)))
    );
    assert_eq!(lexer.next(), Some(Ok(CommandToken::Whitespace(" "))));
    assert_eq!(lexer.next(), Some(Err(CommandLexError::UnclosedQuote(2, "\"b"))));
    assert_eq!(lexer.next(), None);
    assert_eq!(lexer.next(), None);
}

#[test]
fn empty_source_has_no_tokens() {
    assert_eq!(CommandLexer::new("").collect_tokens(), Ok(vec![]));
    let mut lexer = CommandLexer::new("");
    assert_eq!(lexer.next(), None);
}

#[test]
fn unicode_whitespace_is_one_run() {
    assert_eq!(
        CommandLexer::new("a\u{3000}\u{a0}b").collect_tokens(),
        Ok(vec![
            CommandToken::RawString("a", RawStringPattern::Unrecognized),
            CommandToken::Whitespace("\u{3000}\u{a0}"),
            CommandToken::RawString("b", RawStringPattern::Unrecognized),
        ])
    );
}

fn written(token: &CommandToken) -> String {
    match token {
        CommandToken::RawString(s, _) | CommandToken::Whitespace(s) => s.to_string(),
        CommandToken::QuotedString(open, value, close) => {
            let quote = open.chars().next().unwrap();
            let mut out = open.to_string();
            for c in value.chars() {
                if c == quote || c == '\\' {
                    out.push('\\');
                }
                out.push(c);
            }
            out.push_str(close);
            out
        }
        CommandToken::Named(name, inner) => format!("{}={}", name, written(inner)),
    }
}

#[test]
fn lexing_is_lossless() {
    for src in [
        "/hello    -1 1   2.3\t3a\r4.5b",
        "say \"a \\\"b\\\" \\\\ c\" k='v w' x=1.5  ",
        "  'it\\'s' \u{3000}end",
        "",
    ] {
        let tokens = CommandLexer::new(src).collect_tokens().unwrap();
        let joined: String = tokens.iter().map(written).collect();
        assert_eq!(joined, src);
    }
}
