use kal::lex::{
    remove_leading, remove_trailing, CommandLexer, TokenTransformError, TokenTransformer,
    TransformHint, TransformHintPart, TransformHintPartKind,
};
use kal::{CommandArgument, CommandArgumentValue, CommandFragment, FloatValue};

type Stripper = fn(&str) -> Result<&str, TokenTransformError>;

fn slot(kind: TransformHintPartKind) -> TransformHintPart {
    TransformHintPart {
        multiple: false,
        kind,
    }
}

fn float(literal: &str) -> CommandArgumentValue {
    CommandArgumentValue::F64(FloatValue::parse(literal).unwrap())
}

#[test]
fn transform_transform() {
    let transformer = TokenTransformer::command_group(
        |s| remove_leading("/", s).map(|s| remove_trailing("@my_bot", s).unwrap_or(s)),
        TransformHint::Select(vec![(
            "hello",
            TransformHint::Select(vec![("world", TransformHint::Execute(vec![]))]),
        )]),
    );

    let lexer = CommandLexer::new("/hello world");
    let fragments: Result<Vec<_>, _> = transformer.transform(lexer).collect_fragments();
    assert_eq!(
        Ok(vec![
            CommandFragment::Select("hello".to_string()),
            CommandFragment::Select("world".to_string()),
            CommandFragment::Execute(vec![]),
        ]),
        fragments
    );
}

fn argument_transformer(
) -> TokenTransformer<impl Fn(&str) -> Result<&str, TokenTransformError>> {
    TokenTransformer::command_group(
        |s| Ok(s),
        TransformHint::Select(vec![
            (
                "int",
                TransformHint::Execute(vec![slot(TransformHintPartKind::Integer)]),
            ),
            (
                "float",
                TransformHint::Execute(vec![slot(TransformHintPartKind::Float)]),
            ),
            (
                "string",
                TransformHint::Execute(vec![slot(TransformHintPartKind::String)]),
            ),
            (
                "greedy",
                TransformHint::Execute(vec![slot(TransformHintPartKind::StringGreedy)]),
            ),
        ]),
    )
}

#[test]
fn transform_argument() {
    let transformer = argument_transformer();
    for (command, result) in [
        (
            "int 1",
            Ok(vec![
                CommandFragment::Select("int".to_string()),
                CommandFragment::Execute(vec![CommandArgument::Positioned(
                    0,
                    CommandArgumentValue::I64(1),
                )]),
            ]),
        ),
        (
            "int i=1",
            Ok(vec![
                CommandFragment::Select("int".to_string()),
                CommandFragment::Execute(vec![CommandArgument::Named(
                    "i".to_string(),
                    CommandArgumentValue::I64(1),
                )]),
            ]),
        ),
        (
            "float 1.3",
            Ok(vec![
                CommandFragment::Select("float".to_string()),
                CommandFragment::Execute(vec![CommandArgument::Positioned(0, float("1.3"))]),
            ]),
        ),
        (
            "float f=1.3",
            Ok(vec![
                CommandFragment::Select("float".to_string()),
                CommandFragment::Execute(vec![CommandArgument::Named(
                    "f".to_string(),
                    float("1.3"),
                )]),
            ]),
        ),
        (
            "string aaa",
            Ok(vec![
                CommandFragment::Select("string".to_string()),
                CommandFragment::Execute(vec![CommandArgument::Positioned(
                    0,
                    CommandArgumentValue::String("aaa".to_string()),
                )]),
            ]),
        ),
        (
            "greedy aa 1 a= cq \" wa",
            Ok(vec![
                CommandFragment::Select("greedy".to_string()),
                CommandFragment::Execute(vec![CommandArgument::Positioned(
                    0,
                    CommandArgumentValue::String("aa 1 a= cq \" wa".to_string()),
                )]),
            ]),
        ),
    ] {
        let lexer = CommandLexer::new(command);
        let fragments: Result<Vec<_>, _> = transformer.transform(lexer).collect_fragments();
        assert_eq!(result, fragments);
    }
}

fn run(transformer: &TokenTransformer<impl Fn(&str) -> Result<&str, TokenTransformError>>, src: &str)
    -> Result<Vec<CommandFragment>, String> {
    transformer
        .transform(CommandLexer::new(src)).collect_fragments()
        .map_err(|e| format!("{:?}", e))
}

#[test]
fn integer_slot_edge_cases() {
    let transformer = argument_transformer();
    // Too large for 64 bits: kept as a string.
    assert_eq!(
        run(&transformer, "int 99999999999999999999"),
        Ok(vec![
            CommandFragment::Select("int".to_string()),
            CommandFragment::Execute(vec![CommandArgument::Positioned(
                0,
                CommandArgumentValue::String("99999999999999999999".to_string()),
            )]),
        ])
    );
    assert_eq!(
        run(&transformer, "int -9223372036854775808"),
        Ok(vec![
            CommandFragment::Select("int".to_string()),
            CommandFragment::Execute(vec![CommandArgument::Positioned(
                0,
                CommandArgumentValue::I64(i64::MIN),
            )]),
        ])
    );
    assert_eq!(
        run(&transformer, "int 9223372036854775808"),
        Ok(vec![
            CommandFragment::Select("int".to_string()),
            CommandFragment::Execute(vec![CommandArgument::Positioned(
                0,
                CommandArgumentValue::String("9223372036854775808".to_string()),
            )]),
        ])
    );
    // Not a number: passed through as a string.
    assert_eq!(
        run(&transformer, "int x"),
        Ok(vec![
            CommandFragment::Select("int".to_string()),
            CommandFragment::Execute(vec![CommandArgument::Positioned(
                0,
                CommandArgumentValue::String("x".to_string()),
            )]),
        ])
    );
    // A quoted number is a string.
    assert_eq!(
        run(&transformer, "int \"5\""),
        Ok(vec![
            CommandFragment::Select("int".to_string()),
            CommandFragment::Execute(vec![CommandArgument::Positioned(
                0,
                CommandArgumentValue::String("5".to_string()),
            )]),
        ])
    );
    // An integer in a float slot is a float.
    assert_eq!(
        run(&transformer, "float 3"),
        Ok(vec![
            CommandFragment::Select("float".to_string()),
            CommandFragment::Execute(vec![CommandArgument::Positioned(0, float("3"))]),
        ])
    );
}

#[test]
fn greedy_edge_cases() {
    let transformer = argument_transformer();
    // A white-space tail gives no argument.
    assert_eq!(
        run(&transformer, "greedy   "),
        Ok(vec![
            CommandFragment::Select("greedy".to_string()),
            CommandFragment::Execute(vec![]),
        ])
    );
    assert_eq!(
        run(&transformer, "greedy  k=v \"q\\\"r\"  end"),
        Ok(vec![
            CommandFragment::Select("greedy".to_string()),
            CommandFragment::Execute(vec![CommandArgument::Positioned(
                0,
                CommandArgumentValue::String("k=v \"q\"r\"  end".to_string()),
            )]),
        ])
    );
}

#[test]
fn positioned_after_named_fails() {
    let transformer = TokenTransformer::<Stripper>::command_args(TransformHint::Execute(vec![
        slot(TransformHintPartKind::Integer),
        slot(TransformHintPartKind::String),
    ]));
    assert_eq!(
        transformer.transform(CommandLexer::new("a=1 two")).collect_fragments(),
        Err(TokenTransformError::PositionedAfterNamed)
    );
    // Named after positioned is fine.
    assert_eq!(
        transformer.transform(CommandLexer::new("1 b=two")).collect_fragments(),
        Ok(vec![CommandFragment::Execute(vec![
            CommandArgument::Positioned(0, CommandArgumentValue::I64(1)),
            CommandArgument::Named("b".to_string(), CommandArgumentValue::String("two".to_string())),
        ])])
    );
}

#[test]
fn greedy_tail_after_named_fails() {
    let transformer = TokenTransformer::<Stripper>::command_args(TransformHint::Execute(vec![
        slot(TransformHintPartKind::Integer),
        slot(TransformHintPartKind::StringGreedy),
    ]));
    assert_eq!(
        transformer.transform(CommandLexer::new("a=1 rest")).collect_fragments(),
        Err(TokenTransformError::PositionedAfterNamed)
    );
    // An empty greedy tail gives no argument, so nothing is out of order.
    assert_eq!(
        transformer.transform(CommandLexer::new("a=1  ")).collect_fragments(),
        Ok(vec![CommandFragment::Execute(vec![CommandArgument::Named(
            "a".to_string(),
            CommandArgumentValue::I64(1),
        )])])
    );
}

#[test]
fn positioned_after_later_named_fails() {
    let transformer = TokenTransformer::<Stripper>::command_args(TransformHint::Execute(vec![
        slot(TransformHintPartKind::Integer),
        slot(TransformHintPartKind::Integer),
        slot(TransformHintPartKind::Integer),
    ]));
    assert_eq!(
        transformer.transform(CommandLexer::new("1 b=2 3")).collect_fragments(),
        Err(TokenTransformError::PositionedAfterNamed)
    );
    assert_eq!(
        transformer.transform(CommandLexer::new("a=1 b=2 \"3\"")).collect_fragments(),
        Err(TokenTransformError::PositionedAfterNamed)
    );
}

#[test]
fn signed_decimal_in_float_slot_is_a_string() {
    let transformer = argument_transformer();
    assert_eq!(
        transformer.transform(CommandLexer::new("float -1.5")).collect_fragments(),
        Ok(vec![
            CommandFragment::Select("float".to_string()),
            CommandFragment::Execute(vec![CommandArgument::Positioned(
                0,
                CommandArgumentValue::String("-1.5".to_string()),
            )]),
        ])
    );
}

#[test]
fn command_args_without_label() {
    let transformer = TokenTransformer::<Stripper>::command_args(TransformHint::Select(vec![(
        "hello",
        TransformHint::Select(vec![("world", TransformHint::Execute(vec![]))]),
    )]));
    assert_eq!(
        transformer.transform(CommandLexer::new("hello world")).collect_fragments(),
        Ok(vec![
            CommandFragment::Select("hello".to_string()),
            CommandFragment::Select("world".to_string()),
            CommandFragment::Execute(vec![]),
        ])
    );
    // Unknown names are still selected; extra tokens are ignored.
    assert_eq!(
        transformer.transform(CommandLexer::new("bye \"x\"")).collect_fragments(),
        Ok(vec![
            CommandFragment::Select("bye".to_string()),
            CommandFragment::Execute(vec![]),
        ])
    );
}

#[test]
fn label_failures() {
    let transformer = TokenTransformer::command_group(
        |s| remove_leading("/", s),
        TransformHint::Select(vec![("hello", TransformHint::Execute(vec![]))]),
    );
    assert_eq!(
        transformer.transform(CommandLexer::new("hello")).collect_fragments(),
        Err(TokenTransformError::InvalidCommandLabel)
    );
    assert_eq!(
        transformer.transform(CommandLexer::new("\"/hello\"")).collect_fragments(),
        Err(TokenTransformError::InvalidCommandLabel)
    );
    assert_eq!(
        transformer.transform(CommandLexer::new("   ")).collect_fragments(),
        Err(TokenTransformError::InvalidCommandLabel)
    );
    assert_eq!(
        transformer.transform(CommandLexer::new("  /hello")).collect_fragments(),
        Ok(vec![
            CommandFragment::Select("hello".to_string()),
            CommandFragment::Execute(vec![]),
        ])
    );
    assert_eq!(
        transformer.transform(CommandLexer::new("/hello \"x")).collect_fragments(),
        Err(TokenTransformError::LexError(
            kal::lex::CommandLexError::UnclosedQuote(7, "\"x")
        ))
    );
}

#[test]
fn stripper_failure_is_invalid_label() {
    let transformer = TokenTransformer::command_group(
        |_| Err(TokenTransformError::PositionedAfterNamed),
        TransformHint::Execute(vec![]),
    );
    assert_eq!(
        transformer.transform(CommandLexer::new("/x")).collect_fragments(),
        Err(TokenTransformError::InvalidCommandLabel)
    );
}

#[test]
fn strip_helpers() {
    assert_eq!(remove_leading("/", "/hello"), Ok("hello"));
    assert_eq!(
        remove_leading("/", "/"),
        Err(TokenTransformError::InvalidCommandLabel)
    );
    assert_eq!(
        remove_leading("/", "hello"),
        Err(TokenTransformError::InvalidCommandLabel)
    );
    assert_eq!(remove_trailing("@my_bot", "hello@my_bot"), Ok("hello"));
    assert_eq!(
        remove_trailing("@my_bot", "@my_bot"),
        Err(TokenTransformError::InvalidCommandLabel)
    );
    assert_eq!(remove_leading("é", "éa"), Ok("a"));
}

#[test]
fn fragments_come_one_at_a_time() {
    let transformer = argument_transformer();
    let mut handle = transformer.transform(CommandLexer::new("int 7 extra"));
    assert_eq!(handle.next(), Some(Ok(CommandFragment::Select("int".to_string()))));
    assert_eq!(
        handle.next(),
        Some(Ok(CommandFragment::Execute(vec![CommandArgument::Positioned(
            0,
            CommandArgumentValue::I64(7),
        )])))
    );
    assert_eq!(handle.next(), None);
    assert_eq!(handle.next(), None);

    let mut failing = transformer.transform(CommandLexer::new("string \"open"));
    assert_eq!(
        failing.next(),
        Some(Ok(CommandFragment::Select("string".to_string())))
    );
    assert!(matches!(failing.next(), Some(Err(TokenTransformError::LexError(_)))));
    assert_eq!(failing.next(), None);
}

#[derive(Debug, PartialEq)]
struct Hello {
    name: String,
}

impl kal::Command for Hello {
    const NAME: &'static str = "hello";

    fn spec() -> kal::CommandSpec {
        kal::CommandSpec {
            name: Self::NAME,
            description: "greets",
            options: vec![],
            subcommands: vec![],
        }
    }

    fn parse(fragments: &[CommandFragment]) -> Result<Self, kal::CommandParseError<'_>> {
        match fragments {
            [CommandFragment::Execute(args)] => match args.as_slice() {
                [CommandArgument::Positioned(0, CommandArgumentValue::String(name))] => Ok(Hello {
                    name: name.clone(),
                }),
                _ => Err(kal::CommandParseError::MissingArguments(vec!["name"])),
            },
            _ => Err(kal::CommandParseError::IncompleteCommand),
        }
    }
}

#[test]
fn command_parses_its_fragments() {
    let transformer = TokenTransformer::<Stripper>::command_args(TransformHint::Execute(vec![slot(
        TransformHintPartKind::String,
    )]));
    let fragments = transformer
        .transform(CommandLexer::new("world"))
        .collect_fragments()
        .unwrap();
    assert_eq!(
        <Hello as kal::Command>::parse(&fragments),
        Ok(Hello {
            name: "world".to_string()
        })
    );
    assert_eq!(<Hello as kal::Command>::spec().name, "hello");
    assert_eq!(
        <Hello as kal::Command>::parse(&[]),
        Err(kal::CommandParseError::IncompleteCommand)
    );
}
