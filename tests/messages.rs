use kal::lex::{CommandLexError, TokenTransformError};
use kal::{CommandArgumentValue, CommandArgumentValueType, CommandParseError, TryFromArgumentValueError};

#[test]
fn lex_error_messages() {
    assert_eq!(
        CommandLexError::UnclosedQuote(0, "\"what").message(),
        "Unclosed quote at position 0 in command: \"what"
    );
    assert_eq!(
        CommandLexError::NamedProhibitsWhitespace(12, "a=").message(),
        "Named argument prohibits whitespace at position 12 in command: a="
    );
    assert_eq!(
        CommandLexError::NamedCannotContainNamed(3, "a=b=c").message(),
        "Named argument cannot contain named argument at position 3 in command: a=b=c"
    );
}

#[test]
fn conversion_error_message() {
    let e = TryFromArgumentValueError {
        expected_type: CommandArgumentValueType::I64,
        actual_value: CommandArgumentValue::String("x".to_string()),
    };
    assert_eq!(e.message(), "Expected type i64 but actual type is String with value x");
    let e = TryFromArgumentValueError {
        expected_type: CommandArgumentValueType::String,
        actual_value: CommandArgumentValue::I64(-105),
    };
    assert_eq!(e.message(), "Expected type String but actual type is i64 with value -105");
}

#[test]
fn parse_error_messages() {
    let name = "c".to_string();
    assert_eq!(CommandParseError::UnknownCommand(&name).message(), "Unknown command: c");
    assert_eq!(
        CommandParseError::MissingArguments(vec!["a", "b", "c"]).message(),
        "Missing arguments: a, b, c"
    );
    assert_eq!(CommandParseError::MissingArguments(vec![]).message(), "Missing arguments: ");
    assert_eq!(CommandParseError::IncompleteCommand.message(), "Incomplete command");
    assert_eq!(CommandParseError::ExecuteTooEarly.message(), "Execute too early");
    assert_eq!(
        CommandParseError::from(TokenTransformError::PositionedAfterNamed).message(),
        "Token transform error: Positioned argument cannot appear after named argument"
    );
    let lex = TokenTransformError::from(CommandLexError::UnclosedQuote(1, "\"x"));
    assert_eq!(
        CommandParseError::from(&lex).message(),
        "Token transform error: Unclosed quote at position 1 in command: \"x"
    );
}
