//! The evaluator: runs a parsed query against a table.
//!
//! The steps run in a fixed order: filter, show, map, unique, sort, cap.
//! Each step is stated as a spec function over [`TableView`]; the
//! executable steps are proved to compute them.
use vstd::prelude::*;
use crate::ast::{Expr, Query, QueryView, SortDirection, Value};
use crate::parser::CmpOp;
use crate::table::{
    cell_cmp, column_index, compare_cells, copy_cell, copy_column, copy_row, find_column,
    lemma_cell_cmp_antisym, lemma_cell_cmp_trans, row_fits, rows_equal, same_row, Cell, Column, ColumnType,
    Table, TableView,
};

verus! {

/// An error of evaluating a query.
#[derive(Debug, Clone, PartialEq)]
pub enum EngineError {
    /// A clause names a column that the table does not have.
    UnknownColumn(String),
    /// A comparison's literal does not have the type of its column.
    TypeMismatch(String),
    /// A derived column uses an operator that derived columns do not support.
    UnsupportedMapOperator,
    /// A tagged map expression stands in a filter.
    MapExprInFilter,
}

impl EngineError {
    /// The text of [`EngineError::message`].
    pub open spec fn message_view(&self) -> Seq<char> {
        match self {
            EngineError::UnknownColumn(c) => "unknown column: "@ + c@,
            EngineError::TypeMismatch(c) => "literal does not match the type of column: "@ + c@,
            EngineError::UnsupportedMapOperator => "map expressions support only ==, >, <, and, or"@,
            EngineError::MapExprInFilter => "a map expression is not allowed in a filter"@,
        }
    }

    /// A message that describes the error.
    pub fn message(&self) -> (r: String)
        ensures
            r@ == self.message_view(),
    {
        match self {
            EngineError::UnknownColumn(c) => {
                let mut m = "unknown column: ".to_owned();
                m.append(c.as_str());
                m
            },
            EngineError::TypeMismatch(c) => {
                let mut m = "literal does not match the type of column: ".to_owned();
                m.append(c.as_str());
                m
            },
            EngineError::UnsupportedMapOperator => {
                "map expressions support only ==, >, <, and, or".to_owned()
            },
            EngineError::MapExprInFilter => "a map expression is not allowed in a filter".to_owned(),
        }
    }
}

// ---------------------------------------------------------------------------
// Comparisons

/// The cell that a literal stands for.
pub open spec fn value_cell(v: Value) -> Cell {
    match v {
        Value::String(s) => Cell::Str(s),
        Value::Number(n) => Cell::Int(n),
        Value::Float(d) => Cell::Float(d),
        Value::Bool(b) => Cell::Bool(b),
    }
}

/// A literal may be compared with a column of type `d` only if it has that type.
pub open spec fn fits(v: Value, d: ColumnType) -> bool {
    match v {
        Value::String(_) => d == ColumnType::Str,
        Value::Number(_) => d == ColumnType::Int,
        Value::Float(_) => d == ColumnType::Float,
        Value::Bool(_) => d == ColumnType::Bool,
    }
}

/// A cell satisfies `cell op literal`; a missing value satisfies no comparison.
pub open spec fn holds(c: Cell, op: CmpOp, lit: Cell) -> bool {
    c != Cell::Null && {
        let o = cell_cmp(c, lit);
        match op {
            CmpOp::Eq => o == 0,
            CmpOp::NotEq => o != 0,
            CmpOp::Gt => o > 0,
            CmpOp::Lt => o < 0,
            CmpOp::Gte => o >= 0,
            CmpOp::Lte => o <= 0,
        }
    }
}

/// The mask of the rows of `t` whose cell in column `col` satisfies `op v`.
pub open spec fn leaf_mask(t: TableView, col: String, v: Value, op: CmpOp) -> Result<Seq<bool>, EngineError> {
    match column_index(t.columns, col@) {
        None => Err(EngineError::UnknownColumn(col)),
        Some(k) => if fits(v, t.columns[k].dtype) {
            Ok(Seq::new(t.rows.len(), |r: int| holds(t.rows[r][k], op, value_cell(v))))
        } else {
            Err(EngineError::TypeMismatch(col))
        },
    }
}

/// Combines two masks row by row: `and` when `conj`, else `or`.
pub open spec fn combine(a: Seq<bool>, b: Seq<bool>, conj: bool) -> Seq<bool> {
    Seq::new(a.len(), |i: int| if conj { a[i] && b[i] } else { a[i] || b[i] })
}

/// Combines the outcomes of the two sides of `and` / `or`; the left error comes first.
pub open spec fn combine_outcomes(
    l: Result<Seq<bool>, EngineError>,
    r: Result<Seq<bool>, EngineError>,
    conj: bool,
) -> Result<Seq<bool>, EngineError> {
    match l {
        Err(x) => Err(x),
        Ok(a) => match r {
            Err(x) => Err(x),
            Ok(b) => Ok(combine(a, b, conj)),
        },
    }
}

/// The mask of the rows of `t` that satisfy the filter `e`. Both sides of
/// `and` / `or` are evaluated for every row.
pub open spec fn filter_mask(t: TableView, e: Expr) -> Result<Seq<bool>, EngineError>
    decreases e,
{
    match e {
        Expr::Eq(c, v) => leaf_mask(t, c, v, CmpOp::Eq),
        Expr::NotEq(c, v) => leaf_mask(t, c, v, CmpOp::NotEq),
        Expr::Gt(c, v) => leaf_mask(t, c, v, CmpOp::Gt),
        Expr::Lt(c, v) => leaf_mask(t, c, v, CmpOp::Lt),
        Expr::Gte(c, v) => leaf_mask(t, c, v, CmpOp::Gte),
        Expr::Lte(c, v) => leaf_mask(t, c, v, CmpOp::Lte),
        Expr::And(l, r) => combine_outcomes(filter_mask(t, *l), filter_mask(t, *r), true),
        Expr::Or(l, r) => combine_outcomes(filter_mask(t, *l), filter_mask(t, *r), false),
        Expr::MapExpr(_, _) => Err(EngineError::MapExprInFilter),
    }
}

/// The values of a derived column defined by `e`: only `==`, `>`, `<`,
/// `and` and `or` are supported there.
pub open spec fn map_mask(t: TableView, e: Expr) -> Result<Seq<bool>, EngineError>
    decreases e,
{
    match e {
        Expr::Eq(c, v) => leaf_mask(t, c, v, CmpOp::Eq),
        Expr::Gt(c, v) => leaf_mask(t, c, v, CmpOp::Gt),
        Expr::Lt(c, v) => leaf_mask(t, c, v, CmpOp::Lt),
        Expr::And(l, r) => combine_outcomes(map_mask(t, *l), map_mask(t, *r), true),
        Expr::Or(l, r) => combine_outcomes(map_mask(t, *l), map_mask(t, *r), false),
        _ => Err(EngineError::UnsupportedMapOperator),
    }
}

// ---------------------------------------------------------------------------
// Table steps

/// The elements of `s` whose place in `mask` is true, in order.
pub open spec fn keep<A>(s: Seq<A>, mask: Seq<bool>) -> Seq<A>
    decreases s.len(),
{
    if s.len() == 0 {
        seq![]
    } else {
        let n = s.len() - 1;
        let init = keep(s.subrange(0, n), mask);
        if mask[n] {
            init.push(s[n])
        } else {
            init
        }
    }
}

/// The rows of `t` that `mask` keeps.
pub open spec fn filtered(t: TableView, mask: Seq<bool>) -> TableView {
    TableView { columns: t.columns, rows: keep(t.rows, mask) }
}

/// The indices of the columns `names`, in order; the first missing name is an error.
pub open spec fn project_indices(cols: Seq<Column>, names: Seq<String>) -> Result<Seq<int>, EngineError>
    decreases names.len(),
{
    if names.len() == 0 {
        Ok(seq![])
    } else {
        match project_indices(cols, names.drop_last()) {
            Err(x) => Err(x),
            Ok(ix) => match column_index(cols, names.last()@) {
                None => Err(EngineError::UnknownColumn(names.last())),
                Some(k) => Ok(ix.push(k)),
            },
        }
    }
}

/// The table made of the columns `ix` of `t`, in that order.
pub open spec fn projected(t: TableView, ix: Seq<int>) -> TableView {
    TableView {
        columns: ix.map_values(|k: int| t.columns[k]),
        rows: t.rows.map_values(|r: Seq<Cell>| ix.map_values(|k: int| r[k])),
    }
}

/// `t` with the boolean column `name` holding `mask`: it replaces the first
/// column of that name, or is appended when there is none.
pub open spec fn with_column(t: TableView, name: String, mask: Seq<bool>) -> TableView {
    let col = Column { name, dtype: ColumnType::Bool };
    match column_index(t.columns, name@) {
        Some(k) => TableView {
            columns: t.columns.update(k, col),
            rows: Seq::new(t.rows.len(), |r: int| t.rows[r].update(k, Cell::Bool(mask[r]))),
        },
        None => TableView {
            columns: t.columns.push(col),
            rows: Seq::new(t.rows.len(), |r: int| t.rows[r].push(Cell::Bool(mask[r]))),
        },
    }
}

/// No earlier row holds the same values as row `i`.
pub open spec fn first_occurrence(rows: Seq<Seq<Cell>>, i: int) -> bool {
    forall|j: int| 0 <= j < i ==> !same_row(#[trigger] rows[j], rows[i])
}

/// `t` with every row that repeats an earlier one removed.
pub open spec fn deduplicated(t: TableView) -> TableView {
    filtered(t, Seq::new(t.rows.len(), |i: int| first_occurrence(t.rows, i)))
}

/// Row `i` comes before row `j` when sorting on column `k`: by
/// [`sort_cmp`] of their cells, and by position between equal cells.
pub open spec fn before(rows: Seq<Seq<Cell>>, k: int, desc: bool, i: int, j: int) -> bool {
    let o = sort_cmp(rows[i][k], rows[j][k], desc);
    o < 0 || (o == 0 && i < j)
}

/// The order of two cells in a sort: missing values come first in either
/// direction; other values follow the cells' order, reversed when `desc`.
pub open spec fn sort_cmp(a: Cell, b: Cell, desc: bool) -> int {
    if desc && a != Cell::Null && b != Cell::Null {
        -cell_cmp(a, b)
    } else {
        cell_cmp(a, b)
    }
}

/// `perm` lists every row index once, each before all that follow it.
pub open spec fn is_sort_order(rows: Seq<Seq<Cell>>, k: int, desc: bool, perm: Seq<int>) -> bool {
    &&& perm.len() == rows.len()
    &&& forall|a: int| 0 <= a < perm.len() ==> 0 <= #[trigger] perm[a] < rows.len()
    &&& perm.no_duplicates()
    &&& forall|a: int, b: int|
        0 <= a < b < perm.len() ==> before(rows, k, desc, #[trigger] perm[a], #[trigger] perm[b])
}

/// `out` is `t` stably sorted on column `k`.
pub open spec fn sorted_by(t: TableView, k: int, desc: bool, out: TableView) -> bool {
    &&& out.columns == t.columns
    &&& exists|perm: Seq<int>|
        is_sort_order(t.rows, k, desc, perm) && out.rows == perm.map_values(|i: int| t.rows[i])
}

/// The leading `cap` rows of `t`, or all of them when there are fewer.
pub open spec fn capped(t: TableView, cap: Option<usize>) -> TableView {
    match cap {
        None => t,
        Some(n) => if n < t.rows.len() {
            TableView { columns: t.columns, rows: t.rows.take(n as int) }
        } else {
            t
        },
    }
}

pub open spec fn after_filter(t: TableView, filter: Option<Expr>) -> Result<TableView, EngineError> {
    match filter {
        None => Ok(t),
        Some(e) => match filter_mask(t, e) {
            Ok(m) => Ok(filtered(t, m)),
            Err(x) => Err(x),
        },
    }
}

pub open spec fn after_show(t: TableView, show: Seq<String>) -> Result<TableView, EngineError> {
    if show.len() == 0 {
        Ok(t)
    } else {
        match project_indices(t.columns, show) {
            Ok(ix) => Ok(projected(t, ix)),
            Err(x) => Err(x),
        }
    }
}

pub open spec fn after_map(t: TableView, map: Option<(String, Expr)>) -> Result<TableView, EngineError> {
    match map {
        None => Ok(t),
        Some((name, e)) => match map_mask(t, e) {
            Ok(m) => Ok(with_column(t, name, m)),
            Err(x) => Err(x),
        },
    }
}

pub open spec fn after_unique(t: TableView, unique: bool) -> TableView {
    if unique {
        deduplicated(t)
    } else {
        t
    }
}

/// The table after the steps before sorting: filter, show, map and unique.
pub open spec fn prepared(q: QueryView, t: TableView) -> Result<TableView, EngineError> {
    match after_filter(t, q.filter) {
        Err(x) => Err(x),
        Ok(t1) => match after_show(t1, q.show) {
            Err(x) => Err(x),
            Ok(t2) => match after_map(t2, q.map) {
                Err(x) => Err(x),
                Ok(t3) => Ok(after_unique(t3, q.unique)),
            },
        },
    }
}

/// `r` is an outcome of running `q` on `t`: the table after filter, show,
/// map and unique, then stably sorted, then capped; or the first error.
pub open spec fn query_outcome(q: QueryView, t: TableView, r: Result<TableView, EngineError>) -> bool {
    match prepared(q, t) {
        Err(x) => r == Err::<TableView, EngineError>(x),
        Ok(t4) => match q.sort {
            None => r == Ok::<TableView, EngineError>(capped(t4, q.cap)),
            Some(s) => match column_index(t4.columns, s.column@) {
                None => r == Err::<TableView, EngineError>(EngineError::UnknownColumn(s.column)),
                Some(k) => match r {
                    Ok(out) => exists|t5: TableView|
                        sorted_by(t4, k, s.direction == SortDirection::Desc, t5) && out == capped(
                            t5,
                            q.cap,
                        ),
                    Err(_) => false,
                },
            },
        },
    }
}

/// [`query_outcome`] for an executable result.
pub open spec fn table_outcome(r: Result<Table, EngineError>) -> Result<TableView, EngineError> {
    match r {
        Ok(t) => Ok(t@),
        Err(x) => Err(x),
    }
}

// ---------------------------------------------------------------------------
// Lemmas

proof fn lemma_keep_wf(rows: Seq<Seq<Cell>>, mask: Seq<bool>, cols: Seq<Column>)
    requires
        forall|i: int| 0 <= i < rows.len() ==> row_fits(#[trigger] rows[i], cols),
    ensures
        forall|j: int| 0 <= j < keep(rows, mask).len() ==> row_fits(#[trigger] keep(rows, mask)[j], cols),
        keep(rows, mask).len() <= rows.len(),
    decreases rows.len(),
{
    if rows.len() > 0 {
        let m = rows.len() - 1;
        lemma_keep_wf(rows.subrange(0, m), mask, cols);
    }
}

/// The rows' cells in column `k` all fit type `d`.
pub open spec fn column_fits(rows: Seq<Seq<Cell>>, k: int, d: ColumnType) -> bool {
    forall|r: int| 0 <= r < rows.len() ==> crate::table::cell_fits(#[trigger] rows[r][k], d)
}

/// Coming before is transitive.
proof fn lemma_sort_cmp_antisym(a: Cell, b: Cell, desc: bool)
    ensures
        sort_cmp(a, b, desc) == -sort_cmp(b, a, desc),
{
    lemma_cell_cmp_antisym(a, b);
}

/// The sort order of cells of one column type is transitive, and strict
/// when either step is.
proof fn lemma_sort_cmp_trans(a: Cell, b: Cell, c: Cell, desc: bool, d: ColumnType)
    requires
        crate::table::cell_fits(a, d),
        crate::table::cell_fits(b, d),
        crate::table::cell_fits(c, d),
        sort_cmp(a, b, desc) <= 0,
        sort_cmp(b, c, desc) <= 0,
    ensures
        sort_cmp(a, c, desc) <= 0,
        sort_cmp(a, b, desc) < 0 || sort_cmp(b, c, desc) < 0 ==> sort_cmp(a, c, desc) < 0,
{
    lemma_cell_cmp_antisym(a, b);
    lemma_cell_cmp_antisym(b, c);
    lemma_cell_cmp_antisym(a, c);
    if desc && a != Cell::Null && b != Cell::Null && c != Cell::Null {
        lemma_cell_cmp_trans(c, b, a, d);
    } else if !desc {
        lemma_cell_cmp_trans(a, b, c, d);
    }
}

/// Coming before is transitive.
proof fn lemma_before_trans(rows: Seq<Seq<Cell>>, k: int, desc: bool, d: ColumnType, i: int, j: int, l: int)
    requires
        column_fits(rows, k, d),
        0 <= i < rows.len(),
        0 <= j < rows.len(),
        0 <= l < rows.len(),
        before(rows, k, desc, i, j),
        before(rows, k, desc, j, l),
    ensures
        before(rows, k, desc, i, l),
{
    let (x, y, z) = (rows[i][k], rows[j][k], rows[l][k]);
    lemma_sort_cmp_trans(x, y, z, desc, d);
    if sort_cmp(x, y, desc) == 0 && sort_cmp(y, z, desc) == 0 {
        lemma_sort_cmp_antisym(x, y, desc);
        lemma_sort_cmp_antisym(y, z, desc);
        lemma_sort_cmp_antisym(x, z, desc);
        lemma_sort_cmp_trans(z, y, x, desc, d);
    }
}

/// Of two different rows, one comes before the other.
proof fn lemma_before_total(rows: Seq<Seq<Cell>>, k: int, desc: bool, i: int, j: int)
    requires
        i != j,
    ensures
        before(rows, k, desc, i, j) || before(rows, k, desc, j, i),
{
    lemma_sort_cmp_antisym(rows[i][k], rows[j][k], desc);
}

// ---------------------------------------------------------------------------
// Executable steps

/// The outcome of computing a mask, seen as a sequence.
pub open spec fn mask_outcome(r: Result<Vec<bool>, EngineError>) -> Result<Seq<bool>, EngineError> {
    match r {
        Ok(m) => Ok(m@),
        Err(x) => Err(x),
    }
}

fn literal_cell(v: &Value) -> (r: Cell)
    ensures
        r == value_cell(*v),
{
    match v {
        Value::String(s) => Cell::Str(s.clone()),
        Value::Number(n) => Cell::Int(*n),
        Value::Float(d) => Cell::Float(*d),
        Value::Bool(b) => Cell::Bool(*b),
    }
}

fn value_fits(v: &Value, d: ColumnType) -> (r: bool)
    ensures
        r == fits(*v, d),
{
    match v {
        Value::String(_) => d == ColumnType::Str,
        Value::Number(_) => d == ColumnType::Int,
        Value::Float(_) => d == ColumnType::Float,
        Value::Bool(_) => d == ColumnType::Bool,
    }
}

fn cell_holds(c: &Cell, op: CmpOp, lit: &Cell) -> (r: bool)
    ensures
        r == holds(*c, op, *lit),
{
    if matches!(c, Cell::Null) {
        return false;
    }
    let o = compare_cells(c, lit);
    match op {
        CmpOp::Eq => o == 0,
        CmpOp::NotEq => o != 0,
        CmpOp::Gt => o > 0,
        CmpOp::Lt => o < 0,
        CmpOp::Gte => o >= 0,
        CmpOp::Lte => o <= 0,
    }
}

fn eval_leaf(t: &Table, col: &String, v: &Value, op: CmpOp) -> (r: Result<Vec<bool>, EngineError>)
    requires
        t@.wf(),
    ensures
        mask_outcome(r) == leaf_mask(t@, *col, *v, op),
        r matches Ok(m) ==> m@.len() == t@.rows.len(),
{
    let k = match find_column(&t.columns, col) {
        Some(k) => k,
        None => {
            return Err(EngineError::UnknownColumn(col.clone()));
        },
    };
    if !value_fits(v, t.columns[k].dtype) {
        return Err(EngineError::TypeMismatch(col.clone()));
    }
    let lit = literal_cell(v);
    let n = t.rows.len();
    let mut m: Vec<bool> = Vec::new();
    let mut i: usize = 0;
    while i < n
        invariant
            n == t@.rows.len(),
            t@.wf(),
            k < t@.columns.len(),
            i <= n,
            m@.len() == i,
            forall|j: int| 0 <= j < i ==> m@[j] == holds(t@.rows[j][k as int], op, lit),
        decreases n - i,
    {
        assert(t@.rows[i as int] == t.rows@[i as int]@);
        m.push(cell_holds(&t.rows[i][k], op, &lit));
        i += 1;
    }
    assert(m@ =~= Seq::new(t@.rows.len(), |j: int| holds(t@.rows[j][k as int], op, value_cell(*v))));
    Ok(m)
}

fn combine_masks(a: &Vec<bool>, b: &Vec<bool>, conj: bool) -> (r: Vec<bool>)
    requires
        a@.len() == b@.len(),
    ensures
        r@ == combine(a@, b@, conj),
{
    let mut r: Vec<bool> = Vec::new();
    let mut i: usize = 0;
    while i < a.len()
        invariant
            a@.len() == b@.len(),
            i <= a@.len(),
            r@.len() == i,
            forall|j: int| 0 <= j < i ==> r@[j] == (if conj { a@[j] && b@[j] } else { a@[j] || b@[j] }),
        decreases a@.len() - i,
    {
        r.push(if conj { a[i] && b[i] } else { a[i] || b[i] });
        i += 1;
    }
    assert(r@ =~= combine(a@, b@, conj));
    r
}

/// Evaluates a filter expression to a mask over the rows of `t`.
fn eval_expr(t: &Table, e: &Expr) -> (r: Result<Vec<bool>, EngineError>)
    requires
        t@.wf(),
    ensures
        mask_outcome(r) == filter_mask(t@, *e),
        r matches Ok(m) ==> m@.len() == t@.rows.len(),
    decreases e,
{
    match e {
        Expr::Eq(c, v) => eval_leaf(t, c, v, CmpOp::Eq),
        Expr::NotEq(c, v) => eval_leaf(t, c, v, CmpOp::NotEq),
        Expr::Gt(c, v) => eval_leaf(t, c, v, CmpOp::Gt),
        Expr::Lt(c, v) => eval_leaf(t, c, v, CmpOp::Lt),
        Expr::Gte(c, v) => eval_leaf(t, c, v, CmpOp::Gte),
        Expr::Lte(c, v) => eval_leaf(t, c, v, CmpOp::Lte),
        Expr::And(l, r) | Expr::Or(l, r) => {
            let conj = matches!(e, Expr::And(_, _));
            let a = match eval_expr(t, l) {
                Ok(a) => a,
                Err(x) => {
                    return Err(x);
                },
            };
            let b = match eval_expr(t, r) {
                Ok(b) => b,
                Err(x) => {
                    return Err(x);
                },
            };
            Ok(combine_masks(&a, &b, conj))
        },
        Expr::MapExpr(_, _) => Err(EngineError::MapExprInFilter),
    }
}

/// Evaluates the expression of a derived column to its values over the rows of `t`.
fn eval_map_expr(t: &Table, e: &Expr) -> (r: Result<Vec<bool>, EngineError>)
    requires
        t@.wf(),
    ensures
        mask_outcome(r) == map_mask(t@, *e),
        r matches Ok(m) ==> m@.len() == t@.rows.len(),
    decreases e,
{
    match e {
        Expr::Eq(c, v) => eval_leaf(t, c, v, CmpOp::Eq),
        Expr::Gt(c, v) => eval_leaf(t, c, v, CmpOp::Gt),
        Expr::Lt(c, v) => eval_leaf(t, c, v, CmpOp::Lt),
        Expr::And(l, r) | Expr::Or(l, r) => {
            let conj = matches!(e, Expr::And(_, _));
            let a = match eval_map_expr(t, l) {
                Ok(a) => a,
                Err(x) => {
                    return Err(x);
                },
            };
            let b = match eval_map_expr(t, r) {
                Ok(b) => b,
                Err(x) => {
                    return Err(x);
                },
            };
            Ok(combine_masks(&a, &b, conj))
        },
        _ => Err(EngineError::UnsupportedMapOperator),
    }
}

/// The rows that `mask` keeps, in order.
fn keep_rows(rows: &Vec<Vec<Cell>>, mask: &Vec<bool>) -> (r: Vec<Vec<Cell>>)
    requires
        mask@.len() == rows@.len(),
    ensures
        r@.map_values(|x: Vec<Cell>| x@) == keep(rows@.map_values(|x: Vec<Cell>| x@), mask@),
{
    let ghost s = rows@.map_values(|x: Vec<Cell>| x@);
    let mut out: Vec<Vec<Cell>> = Vec::new();
    let mut i: usize = 0;
    assert(s.subrange(0, 0) =~= Seq::<Seq<Cell>>::empty());
    while i < rows.len()
        invariant
            i <= rows@.len(),
            mask@.len() == rows@.len(),
            s == rows@.map_values(|x: Vec<Cell>| x@),
            out@.map_values(|x: Vec<Cell>| x@) == keep(s.subrange(0, i as int), mask@),
        decreases rows@.len() - i,
    {
        assert(s.subrange(0, i + 1).subrange(0, i as int) =~= s.subrange(0, i as int));
        let ghost before_push = out@;
        if mask[i] {
            let row = copy_row(&rows[i]);
            out.push(row);
            assert(out@.map_values(|x: Vec<Cell>| x@) =~= before_push.map_values(|x: Vec<Cell>| x@).push(s[i as int]));
        }
        i += 1;
    }
    assert(s.subrange(0, rows@.len() as int) =~= s);
    out
}

/// Keeps the rows that satisfy the filter, if there is one.
fn apply_filter(t: Table, filter: &Option<Expr>) -> (r: Result<Table, EngineError>)
    requires
        t@.wf(),
    ensures
        table_outcome(r) == after_filter(t@, *filter),
        r matches Ok(u) ==> u@.wf(),
{
    match filter {
        None => Ok(t),
        Some(e) => match eval_expr(&t, e) {
            Ok(m) => {
                let rows = keep_rows(&t.rows, &m);
                let u = Table { columns: t.columns, rows };
                proof {
                    lemma_keep_wf(t@.rows, m@, t@.columns);
                    assert(u@ =~= filtered(t@, m@));
                }
                Ok(u)
            },
            Err(x) => Err(x),
        },
    }
}

/// An error on a prefix of the names is the error on all of them.
proof fn lemma_project_prefix_err(cols: Seq<Column>, names: Seq<String>, i: int)
    requires
        0 <= i <= names.len(),
        project_indices(cols, names.subrange(0, i)) is Err,
    ensures
        project_indices(cols, names) == project_indices(cols, names.subrange(0, i)),
    decreases names.len() - i,
{
    if i == names.len() {
        assert(names.subrange(0, i) =~= names);
    } else {
        assert(names.subrange(0, i + 1).drop_last() =~= names.subrange(0, i));
        lemma_project_prefix_err(cols, names, i + 1);
    }
}

/// The indices of the columns `names`; the first missing one is an error.
fn column_indices(cols: &Vec<Column>, names: &Vec<String>) -> (r: Result<Vec<usize>, EngineError>)
    ensures
        match (r, project_indices(cols@, names@)) {
            (Ok(ix), Ok(w)) => ix@.map_values(|k: usize| k as int) == w,
            (Err(x), Err(y)) => x == y,
            _ => false,
        },
        r matches Ok(ix) ==> forall|a: int| 0 <= a < ix@.len() ==> #[trigger] ix@[a] < cols@.len(),
{
    let mut ix: Vec<usize> = Vec::new();
    let mut i: usize = 0;
    assert(names@.subrange(0, 0) =~= Seq::<String>::empty());
    assert(ix@.map_values(|k: usize| k as int) =~= Seq::<int>::empty());
    while i < names.len()
        invariant
            i <= names@.len(),
            project_indices(cols@, names@.subrange(0, i as int)) == Ok::<Seq<int>, EngineError>(
                ix@.map_values(|k: usize| k as int),
            ),
            forall|a: int| 0 <= a < ix@.len() ==> #[trigger] ix@[a] < cols@.len(),
        decreases names@.len() - i,
    {
        let ghost pre = names@.subrange(0, i + 1);
        assert(pre.drop_last() =~= names@.subrange(0, i as int));
        assert(pre.last() == names@[i as int]);
        match find_column(cols, &names[i]) {
            Some(k) => {
                let ghost old_ix = ix@;
                ix.push(k);
                assert(ix@.map_values(|k: usize| k as int) =~= old_ix.map_values(|k: usize| k as int).push(k as int));
            },
            None => {
                proof {
                    lemma_project_prefix_err(cols@, names@, i + 1);
                }
                return Err(EngineError::UnknownColumn(names[i].clone()));
            },
        }
        i += 1;
    }
    assert(names@.subrange(0, names@.len() as int) =~= names@);
    Ok(ix)
}

/// Keeps the columns `ix` of `t`, in that order.
fn project(t: &Table, ix: &Vec<usize>) -> (r: Table)
    requires
        t@.wf(),
        forall|a: int| 0 <= a < ix@.len() ==> #[trigger] ix@[a] < t@.columns.len(),
    ensures
        r@ == projected(t@, ix@.map_values(|k: usize| k as int)),
        r@.wf(),
{
    let ghost w = ix@.map_values(|k: usize| k as int);
    let mut columns: Vec<Column> = Vec::new();
    let mut a: usize = 0;
    while a < ix.len()
        invariant
            a <= ix@.len(),
            w == ix@.map_values(|k: usize| k as int),
            forall|b: int| 0 <= b < ix@.len() ==> #[trigger] ix@[b] < t@.columns.len(),
            columns@ == w.subrange(0, a as int).map_values(|k: int| t@.columns[k]),
        decreases ix@.len() - a,
    {
        columns.push(copy_column(&t.columns[ix[a]]));
        a += 1;
        assert(columns@ =~= w.subrange(0, a as int).map_values(|k: int| t@.columns[k]));
    }
    let mut rows: Vec<Vec<Cell>> = Vec::new();
    let mut i: usize = 0;
    while i < t.rows.len()
        invariant
            i <= t@.rows.len(),
            t@.wf(),
            w == ix@.map_values(|k: usize| k as int),
            forall|b: int| 0 <= b < ix@.len() ==> #[trigger] ix@[b] < t@.columns.len(),
            rows@.len() == i,
            forall|j: int| 0 <= j < i ==> (#[trigger] rows@[j])@ == w.map_values(|k: int| t@.rows[j][k]),
        decreases t@.rows.len() - i,
    {
        let src = &t.rows[i];
        assert(t@.rows[i as int] == src@);
        let mut row: Vec<Cell> = Vec::new();
        let mut b: usize = 0;
        while b < ix.len()
            invariant
                b <= ix@.len(),
                src@.len() == t@.columns.len(),
                src@ == t@.rows[i as int],
                w == ix@.map_values(|k: usize| k as int),
                forall|c: int| 0 <= c < ix@.len() ==> #[trigger] ix@[c] < t@.columns.len(),
                row@ == w.subrange(0, b as int).map_values(|k: int| src@[k]),
            decreases ix@.len() - b,
        {
            row.push(copy_cell(&src[ix[b]]));
            b += 1;
            assert(row@ =~= w.subrange(0, b as int).map_values(|k: int| src@[k]));
        }
        assert(w.subrange(0, ix@.len() as int) =~= w);
        rows.push(row);
        i += 1;
    }
    assert(w.subrange(0, ix@.len() as int) =~= w);
    let r = Table { columns, rows };
    assert(r@.rows =~= t@.rows.map_values(|x: Seq<Cell>| w.map_values(|k: int| x[k])));
    assert(r@ =~= projected(t@, w));
    r
}

/// Projects to the columns `show`, in order, unless it is empty.
fn apply_show(t: Table, show: &Vec<String>) -> (r: Result<Table, EngineError>)
    requires
        t@.wf(),
    ensures
        table_outcome(r) == after_show(t@, show@),
        r matches Ok(u) ==> u@.wf(),
{
    if show.len() == 0 {
        return Ok(t);
    }
    match column_indices(&t.columns, show) {
        Ok(ix) => Ok(project(&t, &ix)),
        Err(x) => Err(x),
    }
}

/// Sets the boolean column `name` to `mask`, replacing a column of that name
/// or appending a new one.
fn add_column(t: Table, name: &String, mask: &Vec<bool>) -> (r: Table)
    requires
        t@.wf(),
        mask@.len() == t@.rows.len(),
    ensures
        r@ == with_column(t@, *name, mask@),
        r@.wf(),
{
    let col = Column { name: name.clone(), dtype: ColumnType::Bool };
    let ghost gcol = col;
    let found = find_column(&t.columns, name);
    let mut columns = t.columns;
    let ghost old_cols = columns@;
    match found {
        Some(k) => {
            columns.set(k, col);
        },
        None => {
            columns.push(col);
        },
    }
    let mut rows: Vec<Vec<Cell>> = Vec::new();
    let mut i: usize = 0;
    while i < t.rows.len()
        invariant
            i <= t@.rows.len(),
            t@.wf(),
            mask@.len() == t@.rows.len(),
            old_cols == t@.columns,
            found matches Some(k) ==> k < t@.columns.len(),
            rows@.len() == i,
            forall|j: int| 0 <= j < i ==> (#[trigger] rows@[j])@ == (match found {
                Some(k) => t@.rows[j].update(k as int, Cell::Bool(mask@[j])),
                None => t@.rows[j].push(Cell::Bool(mask@[j])),
            }),
        decreases t@.rows.len() - i,
    {
        assert(t@.rows[i as int] == t.rows@[i as int]@);
        let mut row = copy_row(&t.rows[i]);
        match found {
            Some(k) => {
                row.set(k, Cell::Bool(mask[i]));
            },
            None => {
                row.push(Cell::Bool(mask[i]));
            },
        }
        rows.push(row);
        i += 1;
    }
    let r = Table { columns, rows };
    proof {
        match found {
            Some(k) => {
                assert(r@.columns =~= t@.columns.update(k as int, gcol));
                assert(r@.rows =~= Seq::new(
                    t@.rows.len(),
                    |j: int| t@.rows[j].update(k as int, Cell::Bool(mask@[j])),
                ));
            },
            None => {
                assert(r@.columns =~= t@.columns.push(gcol));
                assert(r@.rows =~= Seq::new(
                    t@.rows.len(),
                    |j: int| t@.rows[j].push(Cell::Bool(mask@[j])),
                ));
            },
        }
    }
    assert(r@ =~= with_column(t@, *name, mask@));
    r
}

/// Adds the derived column, if there is one.
fn apply_map(t: Table, map: &Option<(String, Expr)>) -> (r: Result<Table, EngineError>)
    requires
        t@.wf(),
    ensures
        table_outcome(r) == after_map(t@, *map),
        r matches Ok(u) ==> u@.wf(),
{
    match map {
        None => Ok(t),
        Some((name, e)) => match eval_map_expr(&t, e) {
            Ok(m) => Ok(add_column(t, name, &m)),
            Err(x) => Err(x),
        },
    }
}

/// Removes every row that repeats an earlier one, if asked to.
fn apply_unique(t: Table, unique: bool) -> (r: Table)
    requires
        t@.wf(),
    ensures
        r@ == after_unique(t@, unique),
        r@.wf(),
{
    if !unique {
        return t;
    }
    let ghost rows = t@.rows;
    let n = t.rows.len();
    let mut mask: Vec<bool> = Vec::new();
    let mut i: usize = 0;
    while i < n
        invariant
            n == rows.len(),
            rows == t@.rows,
            i <= n,
            mask@.len() == i,
            forall|j: int| 0 <= j < i ==> mask@[j] == first_occurrence(rows, j),
        decreases n - i,
    {
        let mut first = true;
        let mut j: usize = 0;
        while j < i
            invariant
                n == rows.len(),
                rows == t@.rows,
                i < n,
                j <= i,
                first == (forall|m: int| 0 <= m < j ==> !same_row(#[trigger] rows[m], rows[i as int])),
            decreases i - j,
        {
            assert(rows[j as int] == t.rows@[j as int]@);
            assert(rows[i as int] == t.rows@[i as int]@);
            if rows_equal(&t.rows[j], &t.rows[i]) {
                first = false;
            }
            j += 1;
        }
        mask.push(first);
        i += 1;
    }
    let kept = keep_rows(&t.rows, &mask);
    proof {
        lemma_keep_wf(t@.rows, mask@, t@.columns);
        assert(mask@ =~= Seq::new(rows.len(), |i: int| first_occurrence(rows, i)));
    }
    let r = Table { columns: t.columns, rows: kept };
    assert(r@ =~= deduplicated(t@));
    r
}

/// Whether row `i` comes before row `j` when sorting on column `k`; see [`before`].
fn row_before(t: &Table, k: usize, desc: bool, i: usize, j: usize) -> (r: bool)
    requires
        t@.wf(),
        k < t@.columns.len(),
        i < t@.rows.len(),
        j < t@.rows.len(),
    ensures
        r == before(t@.rows, k as int, desc, i as int, j as int),
{
    assert(t@.rows[i as int] == t.rows@[i as int]@);
    assert(t@.rows[j as int] == t.rows@[j as int]@);
    let o = compare_cells(&t.rows[i][k], &t.rows[j][k]);
    proof {
        lemma_cell_cmp_antisym(t@.rows[i as int][k as int], t@.rows[j as int][k as int]);
    }
    let o2 = if desc && !matches!(t.rows[i][k], Cell::Null) && !matches!(t.rows[j][k], Cell::Null) {
        -o
    } else {
        o
    };
    o2 < 0 || (o2 == 0 && i < j)
}

/// The order of the rows of `t` stably sorted on column `k`, built by inserting
/// each row after every earlier row that does not come after it; the place
/// is found by bisection.
fn sort_order(t: &Table, k: usize, desc: bool) -> (r: Vec<usize>)
    requires
        t@.wf(),
        k < t@.columns.len(),
    ensures
        is_sort_order(t@.rows, k as int, desc, r@.map_values(|i: usize| i as int)),
{
    let ghost rows = t@.rows;
    let ghost d = t@.columns[k as int].dtype;
    assert(column_fits(rows, k as int, d)) by {
        assert forall|r: int| 0 <= r < rows.len() implies crate::table::cell_fits(
            #[trigger] rows[r][k as int],
            d,
        ) by {
            assert(row_fits(rows[r], t@.columns));
        }
    }
    let n = t.rows.len();
    let mut order: Vec<usize> = Vec::new();
    let mut i: usize = 0;
    while i < n
        invariant
            n == rows.len(),
            rows == t@.rows,
            t@.wf(),
            k < t@.columns.len(),
            column_fits(rows, k as int, d),
            i <= n,
            order@.len() == i,
            forall|a: int| 0 <= a < order@.len() ==> #[trigger] order@[a] < i,
            order@.no_duplicates(),
            forall|a: int, b: int|
                0 <= a < b < order@.len() ==> before(
                    rows,
                    k as int,
                    desc,
                    #[trigger] order@[a] as int,
                    #[trigger] order@[b] as int,
                ),
        decreases n - i,
    {
        // The rows after which row `i` goes form a prefix of `order`: find
        // where it ends by bisection.
        let mut lo: usize = 0;
        let mut hi: usize = order.len();
        while lo < hi
            invariant
                n == rows.len(),
                rows == t@.rows,
                t@.wf(),
                k < t@.columns.len(),
                column_fits(rows, k as int, d),
                i < n,
                lo <= hi <= order@.len(),
                order@.len() == i,
                forall|a: int| 0 <= a < order@.len() ==> #[trigger] order@[a] < i,
                forall|a: int, b: int|
                    0 <= a < b < order@.len() ==> before(
                        rows,
                        k as int,
                        desc,
                        #[trigger] order@[a] as int,
                        #[trigger] order@[b] as int,
                    ),
                forall|a: int| 0 <= a < lo ==> !before(rows, k as int, desc, i as int, #[trigger] order@[a] as int),
                forall|a: int| hi <= a < order@.len() ==> before(rows, k as int, desc, i as int, #[trigger] order@[a] as int),
            decreases hi - lo,
        {
            let mid = lo + (hi - lo) / 2;
            if row_before(t, k, desc, i, order[mid]) {
                proof {
                    assert forall|a: int| mid <= a < order@.len() implies before(
                        rows,
                        k as int,
                        desc,
                        i as int,
                        #[trigger] order@[a] as int,
                    ) by {
                        if a > mid {
                            lemma_before_trans(
                                rows,
                                k as int,
                                desc,
                                d,
                                i as int,
                                order@[mid as int] as int,
                                order@[a] as int,
                            );
                        }
                    }
                }
                hi = mid;
            } else {
                proof {
                    assert forall|a: int| 0 <= a < mid + 1 implies !before(
                        rows,
                        k as int,
                        desc,
                        i as int,
                        #[trigger] order@[a] as int,
                    ) by {
                        if a < mid && before(rows, k as int, desc, i as int, order@[a] as int) {
                            lemma_before_trans(
                                rows,
                                k as int,
                                desc,
                                d,
                                i as int,
                                order@[a] as int,
                                order@[mid as int] as int,
                            );
                        }
                    }
                }
                lo = mid + 1;
            }
        }
        let p = lo;
        let ghost old_order = order@;
        proof {
            old_order.insert_ensures(p as int, i);
        }
        order.insert(p, i);
        proof {
            let new_order = order@;
            assert forall|a: int| 0 <= a < new_order.len() implies #[trigger] new_order[a] < i + 1 by {
                if a > p {
                    assert(new_order[a] == old_order[a - 1]);
                }
            }
            assert forall|x: int, y: int|
                0 <= x < new_order.len() && 0 <= y < new_order.len() && x != y implies new_order[x]
                != new_order[y] by {
                if x > p {
                    assert(new_order[x] == old_order[x - 1]);
                }
                if y > p {
                    assert(new_order[y] == old_order[y - 1]);
                }
            }
            assert forall|x: int, y: int| 0 <= x < y < new_order.len() implies before(
                rows,
                k as int,
                desc,
                #[trigger] new_order[x] as int,
                #[trigger] new_order[y] as int,
            ) by {
                if y < p {
                } else if y == p {
                    lemma_before_total(rows, k as int, desc, i as int, old_order[x] as int);
                } else if x < p {
                    assert(new_order[y] == old_order[y - 1]);
                } else if x == p {
                    assert(new_order[y] == old_order[y - 1]);
                    if y - 1 > p {
                        assert(before(rows, k as int, desc, old_order[p as int] as int, old_order[y - 1] as int));
                        lemma_before_trans(
                            rows,
                            k as int,
                            desc,
                            d,
                            i as int,
                            old_order[p as int] as int,
                            old_order[y - 1] as int,
                        );
                    }
                } else {
                    assert(new_order[x] == old_order[x - 1]);
                    assert(new_order[y] == old_order[y - 1]);
                }
            }
        }
        i += 1;
    }
    let ghost perm = order@.map_values(|i: usize| i as int);
    assert forall|x: int, y: int|
        0 <= x < perm.len() && 0 <= y < perm.len() && x != y implies perm[x] != perm[y] by {
        assert(order@[x] != order@[y]);
    }
    assert forall|a: int, b: int| 0 <= a < b < perm.len() implies before(
        rows,
        k as int,
        desc,
        #[trigger] perm[a],
        #[trigger] perm[b],
    ) by {
        assert(perm[a] == order@[a] as int);
        assert(perm[b] == order@[b] as int);
    }
    order
}

/// The rows of `t` in the order `order`.
fn permute_rows(t: &Table, order: &Vec<usize>) -> (r: Vec<Vec<Cell>>)
    requires
        forall|a: int| 0 <= a < order@.len() ==> #[trigger] order@[a] < t@.rows.len(),
    ensures
        r@.map_values(|x: Vec<Cell>| x@) == order@.map_values(|i: usize| i as int).map_values(
            |i: int| t@.rows[i],
        ),
{
    let mut out: Vec<Vec<Cell>> = Vec::new();
    let mut a: usize = 0;
    while a < order.len()
        invariant
            a <= order@.len(),
            forall|b: int| 0 <= b < order@.len() ==> #[trigger] order@[b] < t@.rows.len(),
            out@.len() == a,
            forall|b: int| 0 <= b < a ==> (#[trigger] out@[b])@ == t@.rows[order@[b] as int],
        decreases order@.len() - a,
    {
        assert(t@.rows[order@[a as int] as int] == t.rows@[order@[a as int] as int]@);
        out.push(copy_row(&t.rows[order[a]]));
        a += 1;
    }
    assert(out@.map_values(|x: Vec<Cell>| x@) =~= order@.map_values(|i: usize| i as int).map_values(
        |i: int| t@.rows[i],
    ));
    out
}

/// Stably sorts the rows on the sort clause's column, if there is one.
fn apply_sort(t: Table, sort: &Option<crate::ast::Sort>) -> (r: Result<Table, EngineError>)
    requires
        t@.wf(),
    ensures
        match sort {
            None => table_outcome(r) == Ok::<TableView, EngineError>(t@),
            Some(s) => match column_index(t@.columns, s.column@) {
                None => table_outcome(r) == Err::<TableView, EngineError>(
                    EngineError::UnknownColumn(s.column),
                ),
                Some(k) => r matches Ok(u) && sorted_by(
                    t@,
                    k,
                    s.direction == SortDirection::Desc,
                    u@,
                ),
            },
        },
        r matches Ok(u) ==> u@.wf(),
{
    match sort {
        None => Ok(t),
        Some(s) => {
            let k = match find_column(&t.columns, &s.column) {
                Some(k) => k,
                None => {
                    return Err(EngineError::UnknownColumn(s.column.clone()));
                },
            };
            let desc = s.direction == SortDirection::Desc;
            let order = sort_order(&t, k, desc);
            let ghost perm = order@.map_values(|i: usize| i as int);
            assert forall|a: int| 0 <= a < order@.len() implies #[trigger] order@[a] < t@.rows.len() by {
                assert(perm[a] == order@[a] as int);
            }
            let rows = permute_rows(&t, &order);
            let u = Table { columns: t.columns, rows };
            assert(u@.rows == perm.map_values(|i: int| t@.rows[i]));
            assert(is_sort_order(t@.rows, k as int, desc, perm));
            assert forall|a: int| 0 <= a < u@.rows.len() implies (#[trigger] u@.rows[a]).len()
                == u@.columns.len() by {
                assert(u@.rows[a] == t@.rows[perm[a]]);
            }
            Ok(u)
        },
    }
}

/// Keeps the leading `cap` rows, if there is a cap.
fn apply_cap(t: Table, cap: Option<usize>) -> (r: Table)
    requires
        t@.wf(),
    ensures
        r@ == capped(t@, cap),
        r@.wf(),
{
    match cap {
        None => t,
        Some(n) => {
            if n < t.rows.len() {
                let mut rows = t.rows;
                let ghost old_rows = rows@;
                rows.truncate(n);
                let u = Table { columns: t.columns, rows };
                assert(u@.rows =~= t@.rows.take(n as int));
                u
            } else {
                t
            }
        },
    }
}

/// Runs `query` on `table`: filter, show, map, unique, sort and cap, in
/// that order; the first failing step gives the error.
pub fn execute_query(query: &Query, table: Table) -> (r: Result<Table, EngineError>)
    requires
        table@.wf(),
    ensures
        query_outcome(query@, table@, table_outcome(r)),
        r matches Ok(u) ==> u@.wf(),
{
    let ghost t0 = table@;
    let t1 = match apply_filter(table, &query.filter) {
        Ok(t) => t,
        Err(x) => {
            return Err(x);
        },
    };
    let t2 = match apply_show(t1, &query.show) {
        Ok(t) => t,
        Err(x) => {
            return Err(x);
        },
    };
    let t3 = match apply_map(t2, &query.map) {
        Ok(t) => t,
        Err(x) => {
            return Err(x);
        },
    };
    let t4 = apply_unique(t3, query.unique);
    assert(prepared(query@, t0) == Ok::<TableView, EngineError>(t4@));
    let t5 = match apply_sort(t4, &query.sort) {
        Ok(t) => t,
        Err(x) => {
            return Err(x);
        },
    };
    let out = apply_cap(t5, query.cap);
    proof {
        if let Some(s) = &query.sort {
            assert(sorted_by(t4@, column_index(t4@.columns, s.column@)->Some_0, s.direction
                == SortDirection::Desc, t5@) && out@ == capped(t5@, query.cap));
        }
    }
    Ok(out)
}

} // verus!
