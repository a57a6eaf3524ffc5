use kal::lex::{TransformHintPart, TransformHintPartKind};
use kal::{
    CommaSeparated, CommandArgumentValue, CommandArgumentValueType, CommandOptionValueKind,
    CommandOptionValueTy, FloatValue, SpaceSeparated, TryFromArgumentValue,
    TryFromArgumentValueError,
};

fn text(s: &str) -> CommandArgumentValue {
    CommandArgumentValue::String(s.to_string())
}

#[test]
fn multiple_f64() {
    assert_eq!(
        SpaceSeparated::<i64>::try_from_argument_value(text("0 1 2"), true),
        Ok(SpaceSeparated(vec![0, 1, 2]))
    );
}

#[test]
fn multiple_word() {
    assert_eq!(
        CommaSeparated::<String>::try_from_argument_value(text("0,1,2"), true),
        Ok(CommaSeparated(vec!["0".to_string(), "1".to_string(), "2".to_string()]))
    );
}

#[test]
fn string_conversion() {
    assert_eq!(String::try_from_argument_value(text("a b"), true), Ok("a b".to_string()));
    assert_eq!(
        String::try_from_argument_value(CommandArgumentValue::I64(-42), false),
        Ok("-42".to_string())
    );
    assert_eq!(
        String::try_from_argument_value(CommandArgumentValue::I64(i64::MIN), false),
        Ok("-9223372036854775808".to_string())
    );
    assert_eq!(
        String::try_from_argument_value(CommandArgumentValue::I64(0), false),
        Ok("0".to_string())
    );
    assert_eq!(
        String::try_from_argument_value(CommandArgumentValue::I64(7), true),
        Err(TryFromArgumentValueError {
            expected_type: CommandArgumentValueType::String,
            actual_value: CommandArgumentValue::I64(7),
        })
    );
    let f = FloatValue::parse("2.5").unwrap();
    assert_eq!(
        String::try_from_argument_value(CommandArgumentValue::F64(f.clone()), false),
        Ok("2.5".to_string())
    );
    assert!(String::try_from_argument_value(CommandArgumentValue::F64(f), true).is_err());
}

#[test]
fn integer_conversion() {
    assert_eq!(i64::try_from_argument_value(CommandArgumentValue::I64(3), true), Ok(3));
    assert_eq!(i64::try_from_argument_value(text("-12"), false), Ok(-12));
    assert_eq!(
        i64::try_from_argument_value(text("12"), true),
        Err(TryFromArgumentValueError {
            expected_type: CommandArgumentValueType::I64,
            actual_value: text("12"),
        })
    );
    assert_eq!(
        i64::try_from_argument_value(text("1.5"), false),
        Err(TryFromArgumentValueError {
            expected_type: CommandArgumentValueType::I64,
            actual_value: text("1.5"),
        })
    );
    let f = CommandArgumentValue::F64(FloatValue::parse("1").unwrap());
    assert_eq!(
        i64::try_from_argument_value(f.clone(), false),
        Err(TryFromArgumentValueError {
            expected_type: CommandArgumentValueType::I64,
            actual_value: f,
        })
    );
}

#[test]
fn float_conversion() {
    let f = FloatValue::parse("1.25").unwrap();
    assert_eq!(f.literal(), "1.25");
    assert_eq!(
        FloatValue::try_from_argument_value(CommandArgumentValue::F64(f.clone()), true),
        Ok(f.clone())
    );
    assert_eq!(FloatValue::try_from_argument_value(text("1.25"), false), Ok(f));
    assert_eq!(
        FloatValue::try_from_argument_value(text("abc"), false),
        Err(TryFromArgumentValueError {
            expected_type: CommandArgumentValueType::F64,
            actual_value: text("abc"),
        })
    );
    assert!(FloatValue::try_from_argument_value(CommandArgumentValue::I64(1), false).is_err());
    assert!(FloatValue::parse("1.2.3").is_none());
    assert_eq!(FloatValue::parse("-1.5").unwrap().literal(), "-1.5");
    assert_eq!(FloatValue::parse("+7").unwrap().literal(), "+7");
    for accepted in ["1e5", "2.5E-3", "-1.e+7", ".5", "inf", "-INF", "Infinity", "NaN", "+nan"] {
        assert_eq!(FloatValue::parse(accepted).unwrap().literal(), accepted);
    }
    for refused in ["-", ".", "1e", "e5", "1e5.0", "1.5x", "infin", "nan1", "1_0", " 1"] {
        assert!(FloatValue::parse(refused).is_none(), "{}", refused);
    }
    assert_eq!(
        CommaSeparated::<FloatValue>::try_from_argument_value(text("1e5,2"), true),
        Ok(CommaSeparated(vec![
            FloatValue::parse("1e5").unwrap(),
            FloatValue::parse("2").unwrap()
        ]))
    );
}

#[test]
fn option_never_fails() {
    assert_eq!(Option::<i64>::try_from_argument_value(text("x"), false), Ok(None));
    assert_eq!(Option::<i64>::try_from_argument_value(text("5"), false), Ok(Some(5)));
}

#[test]
fn list_conversion() {
    assert_eq!(
        SpaceSeparated::<String>::try_from_argument_value(text("  a \t b\n"), false),
        Ok(SpaceSeparated(vec!["a".to_string(), "b".to_string()]))
    );
    assert_eq!(
        SpaceSeparated::<String>::try_from_argument_value(text("   "), false),
        Ok(SpaceSeparated(vec![]))
    );
    assert_eq!(
        CommaSeparated::<String>::try_from_argument_value(text(" a , b ,"), false),
        Ok(CommaSeparated(vec!["a".to_string(), "b".to_string(), String::new()]))
    );
    assert_eq!(
        CommaSeparated::<i64>::try_from_argument_value(text("1, x, y"), false),
        Err(TryFromArgumentValueError {
            expected_type: CommandArgumentValueType::I64,
            actual_value: text("x"),
        })
    );
    // A value that is not a string is a single element.
    assert_eq!(
        SpaceSeparated::<i64>::try_from_argument_value(CommandArgumentValue::I64(4), true),
        Ok(SpaceSeparated(vec![4]))
    );
    assert_eq!(
        Vec::<String>::try_from_argument_value(text("p q"), true),
        Ok(vec!["p".to_string(), "q".to_string()])
    );
}

#[test]
fn blank_lists_are_empty() {
    assert_eq!(
        CommaSeparated::<i64>::try_from_argument_value(text(""), false),
        Ok(CommaSeparated(vec![]))
    );
    assert_eq!(
        CommaSeparated::<i64>::try_from_argument_value(text(" \u{a0} "), true),
        Ok(CommaSeparated(vec![]))
    );
    assert_eq!(
        SpaceSeparated::<i64>::try_from_argument_value(text("\u{3000}"), false),
        Ok(SpaceSeparated(vec![]))
    );
    assert_eq!(
        CommaSeparated::<String>::try_from_argument_value(text(","), false),
        Ok(CommaSeparated(vec![String::new(), String::new()]))
    );
}

#[test]
fn option_kinds() {
    let nested = CommandOptionValueKind::Optional(Box::new(CommandOptionValueKind::Multiple(
        Box::new(CommandOptionValueKind::Integer),
    )));
    assert!(nested.is_optional());
    assert!(!CommandOptionValueKind::Double.is_optional());
    assert_eq!(nested.as_primitive(), CommandOptionValueKind::Integer);
    assert_eq!(
        TransformHintPart::from(nested.clone()),
        TransformHintPart {
            kind: TransformHintPartKind::Integer,
            multiple: false
        }
    );
    assert_eq!(
        <Option<Vec<i64>> as CommandOptionValueTy>::spec_kind(),
        nested
    );
    assert_eq!(<Option<String> as CommandOptionValueTy>::default(), Some(None));
    assert_eq!(<String as CommandOptionValueTy>::default(), None);
    assert_eq!(
        <FloatValue as CommandOptionValueTy>::spec_kind(),
        CommandOptionValueKind::Double
    );
}

#[test]
fn greedy_after_from_kind() {
    for kind in [
        CommandOptionValueKind::Integer,
        CommandOptionValueKind::Double,
        CommandOptionValueKind::Optional(Box::new(CommandOptionValueKind::Integer)),
        CommandOptionValueKind::Multiple(Box::new(CommandOptionValueKind::Double)),
    ] {
        let part = TransformHintPart::from(kind);
        assert_eq!(part.make_greedy(), part);
    }
    let string = TransformHintPart::from(CommandOptionValueKind::Optional(Box::new(
        CommandOptionValueKind::String,
    )));
    assert_eq!(string.kind, TransformHintPartKind::String);
    assert_eq!(string.make_greedy().kind, TransformHintPartKind::StringGreedy);
    assert_eq!(string.make_greedy().make_greedy(), string.make_greedy());
}

#[test]
fn value_types() {
    assert_eq!(
        CommandArgumentValueType::from(&CommandArgumentValue::I64(1)),
        CommandArgumentValueType::I64
    );
    assert_eq!(CommandArgumentValueType::String.name(), "String");
    assert_eq!(CommandArgumentValueType::F64.name(), "f64");
}
