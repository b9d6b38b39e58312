use query_compiler::ast::Decimal;
use query_compiler::lexer::{tokenize, Token};

#[test]
fn test_basic_tokens() {
    let input = r#"
            source "clientes.csv"
            filter idade > 25 and cidade == "Recife"
            show nome, email
        "#;

    let tokens = tokenize(input);

    for token in &tokens {
        println!("{:?}", token);
    }

    assert!(tokens.contains(&Token::Source));
    assert!(tokens.contains(&Token::Filter));
    assert!(tokens.contains(&Token::Show));
    assert!(tokens.contains(&Token::StringLiteral("clientes.csv".to_string())));
    assert!(tokens.contains(&Token::Ident("idade".to_string())));
}

#[test]
fn parses_keywords_and_identifiers() {
    let input = r#"source "data.csv" show name, age filter age > 18"#;
    let tokens = tokenize(input);

    assert_eq!(tokens[0], Token::Source);
    assert_eq!(tokens[1], Token::StringLiteral("data.csv".into()));
    assert_eq!(tokens[2], Token::Show);
    assert_eq!(tokens[3], Token::Ident("name".into()));
    assert_eq!(tokens[4], Token::Comma);
    assert_eq!(tokens[5], Token::Ident("age".into()));
    assert_eq!(tokens[6], Token::Filter);
    assert_eq!(tokens[7], Token::Ident("age".into()));
    assert_eq!(tokens[8], Token::Gt);
    assert_eq!(tokens[9], Token::Number(18));
}

#[test]
fn skips_whitespace_and_comments() {
    let input = r#"
        # comment
        source   "data.csv"    show name # another comment
    "#;

    let tokens = tokenize(input);
    assert_eq!(tokens[0], Token::Source);
    assert_eq!(tokens[1], Token::StringLiteral("data.csv".into()));
    assert_eq!(tokens[2], Token::Show);
    assert_eq!(tokens[3], Token::Ident("name".into()));
}

#[test]
fn parses_operators_correctly() {
    let input = r#"x == 1 y != 2 z >= 3 w <= 4 a > 5 b < 6"#;
    let tokens = tokenize(input);

    let expected = vec![
        Token::Ident("x".into()), Token::Eq, Token::Number(1),
        Token::Ident("y".into()), Token::NotEq, Token::Number(2),
        Token::Ident("z".into()), Token::Gte, Token::Number(3),
        Token::Ident("w".into()), Token::Lte, Token::Number(4),
        Token::Ident("a".into()), Token::Gt, Token::Number(5),
        Token::Ident("b".into()), Token::Lt, Token::Number(6),
    ];

    assert_eq!(tokens, expected);
}

#[test]
fn tokenize_is_deterministic() {
    let input = "source \"t.csv\" filter a == 1.5 |> cap 3 # done";
    assert_eq!(tokenize(input), tokenize(input));
}

#[test]
fn tokenize_empty_and_blank_text() {
    assert!(tokenize("").is_empty());
    assert!(tokenize(" \t\r\n\x0C # only a comment").is_empty());
}

#[test]
fn unknown_characters_are_dropped() {
    let tokens = tokenize("a ; @ b ! | $ c");
    assert_eq!(
        tokens,
        vec![Token::Ident("a".into()), Token::Ident("b".into()), Token::Ident("c".into())]
    );
}

#[test]
fn multi_character_operators_win() {
    let tokens = tokenize("= == > >= < <= |> ( ) ,");
    assert_eq!(
        tokens,
        vec![
            Token::Assign, Token::Eq, Token::Gt, Token::Gte, Token::Lt, Token::Lte,
            Token::Pipe, Token::LParen, Token::RParen, Token::Comma,
        ]
    );
}

#[test]
fn keywords_are_case_sensitive() {
    let tokens = tokenize("source Source map unique on_error sourced");
    assert_eq!(
        tokens,
        vec![
            Token::Source,
            Token::Ident("Source".into()),
            Token::MapKw,
            Token::Unique,
            Token::OnError,
            Token::Ident("sourced".into()),
        ]
    );
}

#[test]
fn float_and_integer_literals() {
    let tokens = tokenize("3.25 42 7. 0.5");
    assert_eq!(
        tokens,
        vec![
            Token::Float(Decimal { mantissa: 325, scale: 2 }),
            Token::Number(42),
            Token::Number(7),
            Token::Float(Decimal { mantissa: 5, scale: 1 }),
        ]
    );
}

#[test]
fn integer_overflow_reads_as_zero() {
    let tokens = tokenize("9223372036854775807 9223372036854775808");
    assert_eq!(tokens, vec![Token::Number(i64::MAX), Token::Number(0)]);
}

#[test]
fn float_out_of_range_reads_as_zero() {
    let tokens = tokenize("12345678901234567890.5 0.1234567890123456789");
    assert_eq!(
        tokens,
        vec![
            Token::Float(Decimal { mantissa: 0, scale: 0 }),
            Token::Float(Decimal { mantissa: 0, scale: 0 }),
        ]
    );
}

#[test]
fn float_trailing_zeros_are_dropped() {
    let tokens = tokenize("1.0000000000000000000 2.50 7.0");
    assert_eq!(
        tokens,
        vec![
            Token::Float(Decimal { mantissa: 1, scale: 0 }),
            Token::Float(Decimal { mantissa: 25, scale: 1 }),
            Token::Float(Decimal { mantissa: 7, scale: 0 }),
        ]
    );
}

#[test]
fn string_literals_keep_escapes_and_drop_unterminated_quotes() {
    let tokens = tokenize(r#""a\"b" "x"#);
    assert_eq!(
        tokens,
        vec![Token::StringLiteral(r#"a\"b"#.into()), Token::Ident("x".into())]
    );
}
