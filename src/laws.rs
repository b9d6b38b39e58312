//! Properties that relate several functions of the library.
use vstd::prelude::*;
use vstd::set_lib::{lemma_int_range, lemma_subset_equality, set_int_range};
use crate::ast::{QueryView, SortDirection};
use crate::engine::{
    after_filter, after_show, before, capped, deduplicated, is_sort_order, map_mask,
    query_outcome, sorted_by, with_column, EngineError,
};
use crate::agree::parse_outcome_depends_on_views;
use crate::errors::{ErrorKind, ParseError, QueryError};
use crate::{pipeline_outcome, PipelineResult};
use crate::lexer::{lex, views, Token};
use crate::parser::{at, clauses, parse_spec};
use crate::table::{column_index, lemma_cell_cmp_antisym, Cell, Table, TableView};

verus! {

/// Tokenizing the same text twice gives the same tokens: any two results
/// that meet [`crate::lexer::tokenize`]'s contract for one text agree.
pub proof fn tokenize_is_deterministic(text: Seq<char>, r1: Seq<Token>, r2: Seq<Token>)
    requires
        views(r1) == lex(text),
        views(r2) == lex(text),
    ensures
        views(r1) == views(r2),
{
}

/// A cap at least as large as the row count keeps the table unchanged; a
/// cap of zero keeps no row and every column.
pub proof fn cap_boundary(t: TableView, n: usize)
    ensures
        n >= t.rows.len() ==> capped(t, Some(n)) == t,
        capped(t, Some(0)).rows.len() == 0,
        capped(t, Some(0)).columns == t.columns,
        capped(t, Some(n)).rows.len() == if n < t.rows.len() {
            n as int
        } else {
            t.rows.len() as int
        },
{
}

/// A query whose only clause is `cap n` returns the whole table when `n`
/// is at least its row count, and no row when `n` is zero.
pub proof fn cap_only_query(q: QueryView, t: TableView, r: Result<TableView, EngineError>, n: usize)
    requires
        q.filter is None,
        q.show.len() == 0,
        q.map is None,
        !q.unique,
        q.sort is None,
        q.cap == Some(n),
        query_outcome(q, t, r),
    ensures
        n >= t.rows.len() ==> r == Ok::<TableView, EngineError>(t),
        n == 0 ==> (r matches Ok(u) && u.rows.len() == 0 && u.columns == t.columns),
{
}

/// A negative cap is rejected while parsing.
pub proof fn negative_cap_is_rejected(t: Seq<Token>, pos: int, q: QueryView, n: i64)
    requires
        at(t, pos) == Some(Token::Cap),
        at(t, pos + 1) == Some(Token::Number(n)),
        n < 0,
    ensures
        clauses(t, pos, q) matches Err(e) && e.kind == ErrorKind::Expected,
{
}

/// When a query has a derived column, `unique` and a sort, the sort orders
/// the table after the derived column was added and duplicates were
/// removed, and the cap applies to the sorted table.
pub proof fn sort_sees_mapped_and_deduplicated_rows(
    q: QueryView,
    t: TableView,
    r: Result<TableView, EngineError>,
)
    requires
        q.map is Some,
        q.unique,
        q.sort is Some,
        r is Ok,
        query_outcome(q, t, r),
    ensures
        ({
            let t1 = after_filter(t, q.filter)->Ok_0;
            let t2 = after_show(t1, q.show)->Ok_0;
            let m = map_mask(t2, q.map->Some_0.1)->Ok_0;
            let d = deduplicated(with_column(t2, q.map->Some_0.0, m));
            let k = column_index(d.columns, q.sort->Some_0.column@)->Some_0;
            &&& after_filter(t, q.filter) is Ok
            &&& after_show(t1, q.show) is Ok
            &&& map_mask(t2, q.map->Some_0.1) is Ok
            &&& column_index(d.columns, q.sort->Some_0.column@) is Some
            &&& exists|t5: TableView|
                sorted_by(d, k, q.sort->Some_0.direction == SortDirection::Desc, t5) && r == Ok::<
                    TableView,
                    EngineError,
                >(capped(t5, q.cap))
        }),
{
    let t1 = after_filter(t, q.filter)->Ok_0;
    let t2 = after_show(t1, q.show)->Ok_0;
    let m = map_mask(t2, q.map->Some_0.1)->Ok_0;
    let d = deduplicated(with_column(t2, q.map->Some_0.0, m));
    let k = column_index(d.columns, q.sort->Some_0.column@)->Some_0;
    let t5 = choose|t5: TableView|
        sorted_by(d, k, q.sort->Some_0.direction == SortDirection::Desc, t5) && r->Ok_0 == capped(
            t5,
            q.cap,
        );
    assert(sorted_by(d, k, q.sort->Some_0.direction == SortDirection::Desc, t5));
}

/// A sequence of `n` distinct indices below `n` holds every index below `n`.
proof fn lemma_perm_covers(p: Seq<int>, n: int)
    requires
        p.len() == n,
        p.no_duplicates(),
        forall|a: int| 0 <= a < p.len() ==> 0 <= #[trigger] p[a] < n,
    ensures
        forall|v: int| 0 <= v < n ==> p.contains(v),
{
    p.unique_seq_to_set();
    vstd::seq_lib::seq_to_set_is_finite(p);
    lemma_int_range(0, n);
    assert(p.to_set().subset_of(set_int_range(0, n)));
    lemma_subset_equality(p.to_set(), set_int_range(0, n));
    assert forall|v: int| 0 <= v < n implies p.contains(v) by {
        assert(set_int_range(0, n).contains(v));
        assert(p.to_set().contains(v));
    }
}

proof fn lemma_before_antisym(rows: Seq<Seq<Cell>>, k: int, desc: bool, x: int, y: int)
    requires
        before(rows, k, desc, x, y),
    ensures
        !before(rows, k, desc, y, x),
{
    lemma_cell_cmp_antisym(rows[x][k], rows[y][k]);
    lemma_cell_cmp_antisym(rows[y][k], rows[x][k]);
}

proof fn lemma_orders_agree(rows: Seq<Seq<Cell>>, k: int, desc: bool, order1: Seq<int>, order2: Seq<int>, a: int)
    requires
        is_sort_order(rows, k, desc, order1),
        is_sort_order(rows, k, desc, order2),
        0 <= a <= order1.len(),
    ensures
        forall|b: int| 0 <= b < a ==> order1[b] == order2[b],
    decreases a,
{
    if a > 0 {
        let i = a - 1;
        lemma_orders_agree(rows, k, desc, order1, order2, i);
        lemma_perm_covers(order1, rows.len() as int);
        lemma_perm_covers(order2, rows.len() as int);
        let x = order1[i];
        let y = order2[i];
        if x != y {
            assert(order1.contains(y));
            let c = choose|c: int| 0 <= c < order1.len() && order1[c] == y;
            assert(order2.contains(x));
            let b = choose|b: int| 0 <= b < order2.len() && order2[b] == x;
            if c < i {
                assert(order2[c] == y);
            }
            if b < i {
                assert(order1[b] == x);
            }
            assert(before(rows, k, desc, order1[i], order1[c]));
            assert(before(rows, k, desc, order2[i], order2[b]));
            lemma_before_antisym(rows, k, desc, x, y);
        }
    }
}

/// Sorting has one result: two tables that both sort `t` stably on column
/// `k` are the same table.
pub proof fn sort_result_is_unique(t: TableView, k: int, desc: bool, o1: TableView, o2: TableView)
    requires
        sorted_by(t, k, desc, o1),
        sorted_by(t, k, desc, o2),
    ensures
        o1 == o2,
{
    let order1 = choose|perm: Seq<int>|
        is_sort_order(t.rows, k, desc, perm) && o1.rows == perm.map_values(|i: int| t.rows[i]);
    let order2 = choose|perm: Seq<int>|
        is_sort_order(t.rows, k, desc, perm) && o2.rows == perm.map_values(|i: int| t.rows[i]);
    lemma_orders_agree(t.rows, k, desc, order1, order2, order1.len() as int);
    assert(order1 =~= order2);
    assert(o1.rows =~= o2.rows);
}

/// When the tokens of a text do not parse, the pipeline fails on that text
/// with the parser's own error, kind and message, whether or not a table is
/// given.
pub proof fn pipeline_fails_with_the_parse_error(
    input: Seq<char>,
    toks: Seq<Token>,
    f: ParseError,
    table: Option<Table>,
    r: Result<PipelineResult, QueryError>,
)
    requires
        views(toks) == lex(input),
        parse_spec(toks) == Err::<QueryView, ParseError>(f),
        pipeline_outcome(input, table, r),
    ensures
        r matches Err(e) && e.error_view() == f,
{
    match r {
        Ok(p) => {
            parse_outcome_depends_on_views(toks, p.tokens@);
        },
        Err(e) => {
            let toks2 = choose|toks2: Seq<Token>|
                #![trigger views(toks2)]
                views(toks2) == lex(input) && match parse_spec(toks2) {
                    Err(f2) => e.error_view() == f2,
                    Ok(q) => match table {
                        None => false,
                        Some(t) => exists|x: EngineError|
                            query_outcome(q, t@, Err(x)) && e.kind() == ErrorKind::Unexpected
                                && e.message_view() == x.message_view(),
                    },
                };
            parse_outcome_depends_on_views(toks, toks2);
        },
    }
}

} // verus!
