use query_compiler::ast::{Decimal, Expr, Query, Sort, SortDirection, Value};
use query_compiler::engine::{execute_query, EngineError};
use query_compiler::table::{Cell, Column, ColumnType, Table};

fn column(name: &str, dtype: ColumnType) -> Column {
    Column { name: name.to_string(), dtype }
}

fn s(x: &str) -> Cell {
    Cell::Str(x.to_string())
}

/// The table `name,age,city` of three people.
fn people() -> Table {
    Table {
        columns: vec![
            column("name", ColumnType::Str),
            column("age", ColumnType::Int),
            column("city", ColumnType::Str),
        ],
        rows: vec![
            vec![s("Alice"), Cell::Int(30), s("Recife")],
            vec![s("Bob"), Cell::Int(22), s("Olinda")],
            vec![s("Carol"), Cell::Int(40), s("Recife")],
        ],
    }
}

fn base_query() -> Query {
    Query {
        source: "t".to_string(),
        filter: None,
        show: vec![],
        sort: None,
        cap: None,
        map: None,
        unique: false,
    }
}

/// Builds a minimal query object for tests.
fn build_query() -> Query {
    Query {
        source: "tests/test_data.csv".to_string(),
        filter: Some(Expr::Gt("age".to_string(), Value::Number(25))),
        show: vec!["name".to_string(), "age".to_string()],
        sort: Some(Sort {
            column: "age".to_string(),
            direction: SortDirection::Desc,
        }),
        cap: None,
        map: None,
        unique: false,
    }
}

fn names(t: &Table, col: usize) -> Vec<Cell> {
    t.rows.iter().map(|r| r[col].clone()).collect()
}

#[test]
fn executes_query_and_returns_filtered_sorted_dataframe() {
    let query = build_query();
    let df = execute_query(&query, people()).expect("should succeed");

    assert_eq!((df.height(), df.width()), (2, 2));
    assert_eq!(df.columns[0].name, "name");
    assert_eq!(df.rows[0][0], s("Carol"));
    assert_eq!(df.columns[1].name, "age");
    assert_eq!(df.rows[0][1], Cell::Int(40));
}

#[test]
fn returns_empty_if_no_rows_match() {
    let mut query = build_query();
    query.filter = Some(Expr::Gt("age".to_string(), Value::Number(100)));

    let df = execute_query(&query, people()).expect("should succeed");

    assert_eq!(df.height(), 0);
}

#[test]
fn filter_show_sort_desc_example() {
    let out = execute_query(&build_query(), people()).expect("should succeed");
    assert_eq!(
        out.rows,
        vec![vec![s("Carol"), Cell::Int(40)], vec![s("Alice"), Cell::Int(30)]]
    );
}

#[test]
fn no_match_keeps_all_columns() {
    let mut q = base_query();
    q.filter = Some(Expr::Gt("age".into(), Value::Number(100)));
    let out = execute_query(&q, people()).expect("should succeed");
    assert_eq!(out.height(), 0);
    assert_eq!(out.columns, people().columns);
}

#[test]
fn sort_ascending_by_name() {
    let mut q = base_query();
    q.show = vec!["name".into()];
    q.sort = Some(Sort { column: "name".into(), direction: SortDirection::Asc });
    let mut t = people();
    t.rows.reverse();
    let out = execute_query(&q, t).expect("should succeed");
    assert_eq!(names(&out, 0), vec![s("Alice"), s("Bob"), s("Carol")]);
}

#[test]
fn sort_is_stable() {
    let mut q = base_query();
    q.sort = Some(Sort { column: "city".into(), direction: SortDirection::Asc });
    let out = execute_query(&q, people()).expect("should succeed");
    assert_eq!(names(&out, 0), vec![s("Bob"), s("Alice"), s("Carol")]);
    q.sort = Some(Sort { column: "city".into(), direction: SortDirection::Desc });
    let out = execute_query(&q, people()).expect("should succeed");
    assert_eq!(names(&out, 0), vec![s("Alice"), s("Carol"), s("Bob")]);
}

#[test]
fn cap_larger_than_rows_keeps_all() {
    let mut q = base_query();
    q.cap = Some(10);
    let out = execute_query(&q, people()).expect("should succeed");
    assert_eq!(out, people());
}

#[test]
fn cap_zero_gives_no_rows() {
    let mut q = base_query();
    q.cap = Some(0);
    let out = execute_query(&q, people()).expect("should succeed");
    assert_eq!(out.height(), 0);
    assert_eq!(out.columns, people().columns);
}

#[test]
fn cap_keeps_leading_rows() {
    let mut q = base_query();
    q.cap = Some(2);
    let out = execute_query(&q, people()).expect("should succeed");
    assert_eq!(names(&out, 0), vec![s("Alice"), s("Bob")]);
}

#[test]
fn map_unique_sort_run_in_order() {
    // Rows repeat once `show city` drops the names; the derived flag is
    // computed after the projection, deduplication follows, then the sort
    // orders the remaining rows by the flag.
    let mut q = base_query();
    q.show = vec!["city".into()];
    q.map = Some(("recife".into(), Expr::Eq("city".into(), Value::String("Recife".into()))));
    q.unique = true;
    q.sort = Some(Sort { column: "recife".into(), direction: SortDirection::Desc });
    let out = execute_query(&q, people()).expect("should succeed");
    assert_eq!(
        out.columns,
        vec![column("city", ColumnType::Str), column("recife", ColumnType::Bool)]
    );
    assert_eq!(
        out.rows,
        vec![vec![s("Recife"), Cell::Bool(true)], vec![s("Olinda"), Cell::Bool(false)]]
    );
}

#[test]
fn map_replaces_a_column_of_the_same_name() {
    let mut q = base_query();
    q.map = Some(("age".into(), Expr::Gt("age".into(), Value::Number(25))));
    let out = execute_query(&q, people()).expect("should succeed");
    assert_eq!(out.width(), 3);
    assert_eq!(out.columns[1], column("age", ColumnType::Bool));
    assert_eq!(names(&out, 1), vec![Cell::Bool(true), Cell::Bool(false), Cell::Bool(true)]);
}

#[test]
fn and_or_masks() {
    let mut q = base_query();
    q.filter = Some(Expr::Or(
        Box::new(Expr::And(
            Box::new(Expr::Eq("city".into(), Value::String("Recife".into()))),
            Box::new(Expr::Lt("age".into(), Value::Number(35))),
        )),
        Box::new(Expr::Eq("name".into(), Value::String("Bob".into()))),
    ));
    let out = execute_query(&q, people()).expect("should succeed");
    assert_eq!(names(&out, 0), vec![s("Alice"), s("Bob")]);
}

#[test]
fn comparisons_on_each_operator() {
    let cases = vec![
        (Expr::Eq("age".into(), Value::Number(30)), vec![s("Alice")]),
        (Expr::NotEq("age".into(), Value::Number(30)), vec![s("Bob"), s("Carol")]),
        (Expr::Gte("age".into(), Value::Number(30)), vec![s("Alice"), s("Carol")]),
        (Expr::Lte("age".into(), Value::Number(30)), vec![s("Alice"), s("Bob")]),
        (Expr::Lt("name".into(), Value::String("Bz".into())), vec![s("Alice"), s("Bob")]),
    ];
    for (e, expected) in cases {
        let mut q = base_query();
        q.filter = Some(e);
        let out = execute_query(&q, people()).expect("should succeed");
        assert_eq!(names(&out, 0), expected);
    }
}

#[test]
fn nulls_satisfy_no_comparison_and_sort_first() {
    let t = Table {
        columns: vec![column("x", ColumnType::Int)],
        rows: vec![vec![Cell::Int(2)], vec![Cell::Null], vec![Cell::Int(1)]],
    };
    let mut q = base_query();
    q.filter = Some(Expr::NotEq("x".into(), Value::Number(5)));
    let out = execute_query(&q, t.clone()).expect("should succeed");
    assert_eq!(out.rows, vec![vec![Cell::Int(2)], vec![Cell::Int(1)]]);
    let mut q = base_query();
    q.sort = Some(Sort { column: "x".into(), direction: SortDirection::Asc });
    let out = execute_query(&q, t.clone()).expect("should succeed");
    assert_eq!(out.rows, vec![vec![Cell::Null], vec![Cell::Int(1)], vec![Cell::Int(2)]]);
    let mut q = base_query();
    q.sort = Some(Sort { column: "x".into(), direction: SortDirection::Desc });
    let out = execute_query(&q, t).expect("should succeed");
    assert_eq!(out.rows, vec![vec![Cell::Null], vec![Cell::Int(2)], vec![Cell::Int(1)]]);
}

#[test]
fn float_comparisons_are_exact() {
    let t = Table {
        columns: vec![column("p", ColumnType::Float)],
        rows: vec![
            vec![Cell::Float(Decimal { mantissa: 25, scale: 1 })],
            vec![Cell::Float(Decimal { mantissa: 2500, scale: 3 })],
            vec![Cell::Float(Decimal { mantissa: 3, scale: 0 })],
            vec![Cell::Float(Decimal { mantissa: -1, scale: 40 })],
        ],
    };
    let mut q = base_query();
    q.filter = Some(Expr::Eq("p".into(), Value::Float(Decimal { mantissa: 250, scale: 2 })));
    let out = execute_query(&q, t.clone()).expect("should succeed");
    assert_eq!(out.height(), 2);
    let mut q = base_query();
    q.filter = Some(Expr::Lt("p".into(), Value::Float(Decimal { mantissa: 0, scale: 0 })));
    let out = execute_query(&q, t).expect("should succeed");
    assert_eq!(out.rows, vec![vec![Cell::Float(Decimal { mantissa: -1, scale: 40 })]]);
}

#[test]
fn unique_keeps_first_occurrences() {
    let t = Table {
        columns: vec![column("x", ColumnType::Int), column("b", ColumnType::Bool)],
        rows: vec![
            vec![Cell::Int(1), Cell::Bool(true)],
            vec![Cell::Int(2), Cell::Bool(true)],
            vec![Cell::Int(1), Cell::Bool(true)],
            vec![Cell::Int(1), Cell::Bool(false)],
        ],
    };
    let mut q = base_query();
    q.unique = true;
    let out = execute_query(&q, t).expect("should succeed");
    assert_eq!(
        out.rows,
        vec![
            vec![Cell::Int(1), Cell::Bool(true)],
            vec![Cell::Int(2), Cell::Bool(true)],
            vec![Cell::Int(1), Cell::Bool(false)],
        ]
    );
}

#[test]
fn unknown_column_is_an_error() {
    let mut q = base_query();
    q.show = vec!["name".into(), "salary".into()];
    assert_eq!(execute_query(&q, people()), Err(EngineError::UnknownColumn("salary".into())));
    let mut q = base_query();
    q.filter = Some(Expr::Eq("zip".into(), Value::Number(1)));
    assert_eq!(execute_query(&q, people()), Err(EngineError::UnknownColumn("zip".into())));
    let mut q = base_query();
    q.sort = Some(Sort { column: "zip".into(), direction: SortDirection::Asc });
    assert_eq!(execute_query(&q, people()), Err(EngineError::UnknownColumn("zip".into())));
}

#[test]
fn type_mismatch_is_an_error() {
    let mut q = base_query();
    q.filter = Some(Expr::Gt("name".into(), Value::Number(3)));
    assert_eq!(execute_query(&q, people()), Err(EngineError::TypeMismatch("name".into())));
}

#[test]
fn unsupported_map_operator_is_an_error() {
    let mut q = base_query();
    q.map = Some(("f".into(), Expr::Gte("age".into(), Value::Number(3))));
    assert_eq!(execute_query(&q, people()), Err(EngineError::UnsupportedMapOperator));
}

#[test]
fn map_expr_in_filter_is_an_error() {
    let mut q = base_query();
    q.filter = Some(Expr::MapExpr(
        Box::new(Expr::Eq("age".into(), Value::Number(3))),
        "f".into(),
    ));
    assert_eq!(execute_query(&q, people()), Err(EngineError::MapExprInFilter));
}

#[test]
fn engine_error_messages() {
    assert_eq!(EngineError::UnknownColumn("zip".into()).message(), "unknown column: zip");
    assert_eq!(
        EngineError::MapExprInFilter.message(),
        "a map expression is not allowed in a filter"
    );
}

#[test]
fn table_shape_check() {
    assert!(people().is_well_formed());
    let mut t = people();
    t.rows[1].pop();
    assert!(!t.is_well_formed());
    let mut t = people();
    t.rows[2][1] = s("forty");
    assert!(!t.is_well_formed());
}

#[test]
fn sort_matches_a_stable_sort_on_many_rows() {
    let mut rows = Vec::new();
    let mut x: i64 = 7;
    for i in 0..300 {
        x = (x * 1103515245 + 12345) % 2147483648;
        rows.push(vec![Cell::Int(x % 17), Cell::Int(i)]);
    }
    let t = Table {
        columns: vec![column("key", ColumnType::Int), column("pos", ColumnType::Int)],
        rows: rows.clone(),
    };
    let mut q = base_query();
    q.sort = Some(Sort { column: "key".into(), direction: SortDirection::Desc });
    let out = execute_query(&q, t).expect("should succeed");
    let key = |r: &Vec<Cell>| match r[0] {
        Cell::Int(n) => n,
        _ => unreachable!(),
    };
    let mut expected = rows;
    expected.sort_by(|a, b| key(b).cmp(&key(a)));
    assert_eq!(out.rows, expected);
}
