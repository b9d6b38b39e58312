use query_compiler::ast::{Expr, Query, Sort, SortDirection, Value};
use query_compiler::errors::QueryError;
use query_compiler::lexer::{tokenize, Token};
use query_compiler::parser::{parse, Parser};
use query_compiler::render::render_tokens;

/// Helper to parse valid queries and panic if parsing fails.
fn parse_ok(input: &str) -> Query {
    let tokens = tokenize(input);
    let mut parser = Parser::new(tokens);
    parser.parse_query().expect("should parse")
}

fn parse_err(tokens: Vec<Token>) -> QueryError {
    let mut parser = Parser::new(tokens);
    match parser.parse_query() {
        Ok(q) => panic!("expected an error, parsed {:?}", q),
        Err(e) => e,
    }
}

#[test]
fn parses_basic_query() {
    let query = parse_ok(r#"
        source "data.csv"
        show name, age
        filter age > 20
        sort by age desc
    "#);

    assert_eq!(query.source, "data.csv");
    assert_eq!(query.show, vec!["name", "age"]);
    assert!(matches!(query.filter.as_ref().unwrap(), Expr::Gt(_, _)));
    assert_eq!(query.sort.as_ref().unwrap().column, "age");
    assert!(matches!(query.sort.unwrap().direction, SortDirection::Desc));
}

#[test]
fn parses_and_or_expression() {
    let query = parse_ok(r#"
        source "data.csv"
        show a
        filter a == 1 and b != 2 or c >= 3
    "#);

    match query.filter.unwrap() {
        Expr::Or(left, right) => {
            assert!(matches!(*left, Expr::And(_, _)));
            assert!(matches!(*right, Expr::Gte(_, _)));
        }
        _ => panic!("Expected OR expression"),
    }
}

#[test]
fn parses_order_by_with_implicit_asc() {
    let query = parse_ok(r#"
        source "data.csv"
        show name
        sort by name
    "#);

    assert_eq!(query.sort.unwrap().direction, SortDirection::Asc);
}

#[test]
fn parses_multiple_select_columns() {
    let query = parse_ok(r#"
        source "data.csv"
        show col1, col2, col3
    "#);

    assert_eq!(query.show, vec!["col1", "col2", "col3"]);
}

#[test]
fn fails_when_missing_from_clause() {
    let tokens = tokenize("select x");
    let mut parser = Parser::new(tokens);
    assert!(parser.parse_query().is_err());
}

#[test]
fn missing_source_error_names_the_leading_clause() {
    let err = parse_err(tokenize("select x"));
    assert_eq!(
        err,
        QueryError::Unexpected(
            "Expected token 'source' at the start of the query, found identifier 'select'".into()
        )
    );
}

#[test]
fn tokens_left_after_the_query_are_an_error() {
    for rest in ["show name )", "select x", "map f = a > 1 and b > 2", "merge x"] {
        let text = format!(r#"source "t" {}"#, rest);
        let err = parse_err(tokenize(&text));
        assert!(matches!(err, QueryError::Unexpected(_)), "{}", text);
    }
    let err = parse_err(tokenize(r#"source "t" show name )"#));
    assert_eq!(err.message(), "Expected a clause or the end of the query, found ')'");
}

#[test]
fn parse_of_whole_sequence_rejects_leftovers() {
    assert!(parse(&tokenize(r#"source "t" cap 1 2"#)).is_err());
    assert!(parse(&tokenize(r#"source "t" cap 1"#)).is_ok());
}

#[test]
fn and_or_tree_has_the_exact_shape() {
    let query = parse_ok(r#"source "t" filter a == 1 and b != 2 or c >= 3"#);
    let expected = Expr::Or(
        Box::new(Expr::And(
            Box::new(Expr::Eq("a".into(), Value::Number(1))),
            Box::new(Expr::NotEq("b".into(), Value::Number(2))),
        )),
        Box::new(Expr::Gte("c".into(), Value::Number(3))),
    );
    assert_eq!(query.filter, Some(expected));
}

#[test]
fn parentheses_reset_precedence() {
    let query = parse_ok(r#"source "t" filter a == 1 and (b == 2 OR c == 3)"#);
    let expected = Expr::And(
        Box::new(Expr::Eq("a".into(), Value::Number(1))),
        Box::new(Expr::Or(
            Box::new(Expr::Eq("b".into(), Value::Number(2))),
            Box::new(Expr::Eq("c".into(), Value::Number(3))),
        )),
    );
    assert_eq!(query.filter, Some(expected));
}

#[test]
fn clause_order_does_not_matter() {
    let a = parse_ok(r#"source "t.csv" filter age > 20 show name"#);
    let b = parse_ok(r#"source "t.csv" show name filter age > 20"#);
    assert_eq!(a, b);
}

#[test]
fn sort_with_implicit_ascending_direction() {
    let query = parse_ok(r#"source "t" show name sort by name"#);
    assert_eq!(
        query.sort,
        Some(Sort { column: "name".into(), direction: SortDirection::Asc })
    );
}

#[test]
fn sort_direction_words_are_case_insensitive() {
    let query = parse_ok(r#"source "t" sort by age DESC"#);
    assert_eq!(query.sort.unwrap().direction, SortDirection::Desc);
    let query = parse_ok(r#"source "t" sort by age Asc cap 2"#);
    assert_eq!(query.sort.unwrap().direction, SortDirection::Asc);
    assert_eq!(query.cap, Some(2));
}

#[test]
fn all_clauses_with_pipes() {
    let query = parse_ok(
        r#"source "t" |> filter x < 2.5 |> show a, b |> map big = (x > 3) |> unique |> sort by a |> cap 10"#,
    );
    assert_eq!(query.source, "t");
    assert_eq!(
        query.filter,
        Some(Expr::Lt("x".into(), Value::Float(query_compiler::ast::Decimal { mantissa: 25, scale: 1 })))
    );
    assert_eq!(query.show, vec!["a", "b"]);
    assert_eq!(query.map, Some(("big".to_string(), Expr::Gt("x".into(), Value::Number(3)))));
    assert!(query.unique);
    assert_eq!(query.cap, Some(10));
}

#[test]
fn repeated_clause_last_one_wins() {
    let query = parse_ok(r#"source "t" cap 5 show a cap 2 show b"#);
    assert_eq!(query.cap, Some(2));
    assert_eq!(query.show, vec!["b"]);
}

#[test]
fn show_with_no_identifiers_is_empty() {
    let query = parse_ok(r#"source "t" show filter a == true"#);
    assert!(query.show.is_empty());
    assert_eq!(query.filter, Some(Expr::Eq("a".into(), Value::Bool(true))));
}

#[test]
fn negative_cap_is_rejected() {
    let err = parse_err(vec![
        Token::Source,
        Token::StringLiteral("t".into()),
        Token::Cap,
        Token::Number(-1),
    ]);
    assert!(matches!(err, QueryError::Expected(_)));
}

#[test]
fn cap_zero_parses() {
    let query = parse_ok(r#"source "t" cap 0"#);
    assert_eq!(query.cap, Some(0));
}

#[test]
fn missing_string_after_source_is_an_error() {
    let err = parse_err(tokenize("source t"));
    assert!(matches!(err, QueryError::Expected(_)));
}

#[test]
fn sort_without_by_is_an_error() {
    let err = parse_err(tokenize(r#"source "t" sort age"#));
    assert!(matches!(err, QueryError::Unexpected(_)));
}

#[test]
fn missing_literal_is_an_error() {
    let err = parse_err(tokenize(r#"source "t" filter a =="#));
    assert!(matches!(err, QueryError::Expected(_)));
    let err = parse_err(tokenize(r#"source "t" filter a == b"#));
    assert!(matches!(err, QueryError::Unexpected(_)));
}

#[test]
fn missing_operator_is_an_error() {
    let err = parse_err(tokenize(r#"source "t" filter a 1"#));
    assert!(matches!(err, QueryError::Expected(_)));
}

#[test]
fn unclosed_parenthesis_is_an_error() {
    let err = parse_err(tokenize(r#"source "t" filter (a == 1"#));
    assert!(matches!(err, QueryError::Unexpected(_)));
}

#[test]
fn map_requires_assign() {
    let err = parse_err(tokenize(r#"source "t" map big x > 1"#));
    assert!(matches!(err, QueryError::Unexpected(_)));
}

#[test]
fn parse_expr_moves_the_cursor() {
    let mut parser = Parser::new(tokenize("a > 1 or b < 2"));
    let e = parser.parse_expr().expect("should parse");
    assert_eq!(
        e,
        Expr::Or(
            Box::new(Expr::Gt("a".into(), Value::Number(1))),
            Box::new(Expr::Lt("b".into(), Value::Number(2))),
        )
    );
}

#[test]
fn sort_direction_from_str() {
    assert_eq!(SortDirection::from_str("DeSc"), SortDirection::Desc);
    assert_eq!(SortDirection::from_str("asc"), SortDirection::Asc);
    assert_eq!(SortDirection::from_str("descending"), SortDirection::Asc);
}

#[test]
fn rendered_tokens_parse_back() {
    let q = parse_ok(
        r#"source "t" filter a == 1 and b != "x" or c >= 2.5 show n, m sort by n desc cap 4 map f = (a < 3 or b == true) unique"#,
    );
    let tokens = render_tokens(&q);
    assert_eq!(tokens[0], Token::Source);
    assert!(tokens.contains(&Token::Ident("and".into())));
    assert!(tokens.contains(&Token::Ident("desc".into())));
    assert_eq!(parse(&tokens), Ok(q));
}

#[test]
fn rendered_minimal_query_parses_back() {
    let q = parse_ok(r#"source "only""#);
    let tokens = render_tokens(&q);
    assert_eq!(parse(&tokens), Ok(q));
}

#[test]
fn error_names_the_token_found() {
    let err = parse_err(tokenize("select x"));
    assert!(err.message().contains("select"));
    let err = parse_err(tokenize(r#"source "t" cap"#));
    assert!(err.message().contains("end of the input"));
}
