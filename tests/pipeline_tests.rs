use query_compiler::cli::ExportFormat;
use query_compiler::errors::QueryError;
use query_compiler::lexer::Token;
use query_compiler::run_pipeline;
use query_compiler::table::{Cell, Column, ColumnType, Table};

fn people() -> Table {
    let col = |n: &str, d| Column { name: n.to_string(), dtype: d };
    let s = |x: &str| Cell::Str(x.to_string());
    Table {
        columns: vec![col("name", ColumnType::Str), col("age", ColumnType::Int), col("city", ColumnType::Str)],
        rows: vec![
            vec![s("Alice"), Cell::Int(30), s("Recife")],
            vec![s("Bob"), Cell::Int(22), s("Olinda")],
            vec![s("Carol"), Cell::Int(40), s("Recife")],
        ],
    }
}

#[test]
fn pipeline_runs_example_query() {
    let r = run_pipeline(
        r#"source "t" filter age > 25 show name,age sort by age desc"#,
        Some(people()),
    )
    .expect("should succeed");
    assert_eq!(r.tokens[0], Token::Source);
    assert_eq!(r.ast.source, "t");
    let out = r.output.expect("a table was given");
    assert_eq!(
        out.rows,
        vec![
            vec![Cell::Str("Carol".into()), Cell::Int(40)],
            vec![Cell::Str("Alice".into()), Cell::Int(30)],
        ]
    );
}

#[test]
fn pipeline_without_table_only_parses() {
    let r = run_pipeline(r#"source "t" cap 1"#, None).expect("should parse");
    assert!(r.output.is_none());
    assert_eq!(r.ast.cap, Some(1));
    assert_eq!(r.tokens.len(), 4);
}

#[test]
fn pipeline_reports_parse_errors() {
    let expected = QueryError::Unexpected(
        "Expected token 'source' at the start of the query, found identifier 'select'".into(),
    );
    assert_eq!(run_pipeline("select x", None).err(), Some(expected.clone()));
    assert_eq!(run_pipeline("select x", Some(people())).err(), Some(expected));
}

#[test]
fn pipeline_reports_engine_errors() {
    let r = run_pipeline(r#"source "t" show zip"#, Some(people()));
    match r {
        Err(QueryError::Unexpected(m)) => assert_eq!(m, "unknown column: zip"),
        _ => panic!("expected an engine error"),
    }
}

#[test]
fn export_formats_and_paths() {
    assert_eq!(ExportFormat::from_extension("CSV"), ExportFormat::Csv);
    assert_eq!(ExportFormat::from_extension("json"), ExportFormat::Json);
    assert_eq!(ExportFormat::from_extension("xlsx"), ExportFormat::Unsupported);
    assert_eq!(ExportFormat::Csv.report_path("out.csv"), "reports/csv/out.csv");
    assert_eq!(ExportFormat::Json.report_path("r.json"), "reports/json/r.json");
    assert_eq!(ExportFormat::Unsupported.report_path("r.txt"), "reports/r.txt");
}

#[test]
fn pipeline_sort_without_direction_is_ascending() {
    let mut t = people();
    t.rows.reverse();
    let r = run_pipeline(r#"source "t" show name sort by name"#, Some(t)).expect("should succeed");
    let out = r.output.expect("a table was given");
    assert_eq!(
        out.rows,
        vec![
            vec![Cell::Str("Alice".into())],
            vec![Cell::Str("Bob".into())],
            vec![Cell::Str("Carol".into())],
        ]
    );
}

#[test]
fn pipeline_filter_without_match_keeps_columns() {
    let r = run_pipeline(r#"source "t" filter age > 100"#, Some(people())).expect("should succeed");
    let out = r.output.expect("a table was given");
    assert_eq!(out.rows.len(), 0);
    assert_eq!(out.columns, people().columns);
}

#[test]
fn pipeline_clause_order_is_free() {
    let a = run_pipeline(r#"source "t.csv" filter age > 20 show name"#, None).expect("parses");
    let b = run_pipeline(r#"source "t.csv" show name filter age > 20"#, None).expect("parses");
    assert_eq!(a.ast, b.ast);
}
