//! An in-memory table: named, typed columns and rows of cells.
//!
//! The evaluator reads and builds tables of this type; loading one from a
//! file or writing one out is left to the caller.
use vstd::prelude::*;
use crate::ast::Decimal;
use crate::lexer::{lemma_pow10_monotone, lemma_pow10_positive, pow10};

verus! {

/// The type of the values that a column holds.
#[derive(Debug, Clone, Copy, PartialEq, Eq, Structural)]
pub enum ColumnType {
    Str,
    Int,
    Float,
    Bool,
}

/// One value of a table; `Null` stands for a missing value.
#[derive(Debug, Clone, PartialEq)]
pub enum Cell {
    Null,
    Str(String),
    Int(i64),
    Float(Decimal),
    Bool(bool),
}

/// The name and type of a column.
#[derive(Debug, Clone, PartialEq)]
pub struct Column {
    pub name: String,
    pub dtype: ColumnType,
}

/// A table, stored row by row: `rows[r][c]` is the cell of row `r` in column `c`.
#[derive(Debug, Clone, PartialEq)]
pub struct Table {
    pub columns: Vec<Column>,
    pub rows: Vec<Vec<Cell>>,
}

/// A table seen as sequences.
pub struct TableView {
    pub columns: Seq<Column>,
    pub rows: Seq<Seq<Cell>>,
}

impl View for Table {
    type V = TableView;

    open spec fn view(&self) -> TableView {
        TableView { columns: self.columns@, rows: self.rows@.map_values(|r: Vec<Cell>| r@) }
    }
}

/// A cell is missing or holds a value of type `d`.
pub open spec fn cell_fits(c: Cell, d: ColumnType) -> bool {
    match c {
        Cell::Null => true,
        Cell::Str(_) => d == ColumnType::Str,
        Cell::Int(_) => d == ColumnType::Int,
        Cell::Float(_) => d == ColumnType::Float,
        Cell::Bool(_) => d == ColumnType::Bool,
    }
}

/// A row has one cell per column, each fitting its column's type.
pub open spec fn row_fits(row: Seq<Cell>, cols: Seq<Column>) -> bool {
    &&& row.len() == cols.len()
    &&& forall|k: int| 0 <= k < cols.len() ==> cell_fits(#[trigger] row[k], cols[k].dtype)
}

impl TableView {
    /// Every row has one cell per column, each fitting its column's type.
    pub open spec fn wf(self) -> bool {
        forall|r: int| 0 <= r < self.rows.len() ==> row_fits(#[trigger] self.rows[r], self.columns)
    }
}

fn cell_fits_type(c: &Cell, d: ColumnType) -> (r: bool)
    ensures
        r == cell_fits(*c, d),
{
    match c {
        Cell::Null => true,
        Cell::Str(_) => d == ColumnType::Str,
        Cell::Int(_) => d == ColumnType::Int,
        Cell::Float(_) => d == ColumnType::Float,
        Cell::Bool(_) => d == ColumnType::Bool,
    }
}

fn row_fits_columns(row: &Vec<Cell>, cols: &Vec<Column>) -> (r: bool)
    ensures
        r == row_fits(row@, cols@),
{
    if row.len() != cols.len() {
        return false;
    }
    let mut k: usize = 0;
    while k < cols.len()
        invariant
            row@.len() == cols@.len(),
            k <= cols@.len(),
            forall|m: int| 0 <= m < k ==> cell_fits(#[trigger] row@[m], cols@[m].dtype),
        decreases cols@.len() - k,
    {
        if !cell_fits_type(&row[k], cols[k].dtype) {
            return false;
        }
        k += 1;
    }
    true
}

impl Table {
    /// Whether every row has one cell per column, each fitting its column's type.
    pub fn is_well_formed(&self) -> (r: bool)
        ensures
            r == self@.wf(),
    {
        let mut i: usize = 0;
        while i < self.rows.len()
            invariant
                i <= self.rows@.len(),
                forall|r: int| 0 <= r < i ==> row_fits(#[trigger] self@.rows[r], self@.columns),
            decreases self.rows@.len() - i,
        {
            assert(self@.rows[i as int] == self.rows@[i as int]@);
            if !row_fits_columns(&self.rows[i], &self.columns) {
                return false;
            }
            i += 1;
        }
        true
    }

    /// The number of rows.
    pub fn height(&self) -> (r: usize)
        ensures
            r == self@.rows.len(),
    {
        self.rows.len()
    }

    /// The number of columns.
    pub fn width(&self) -> (r: usize)
        ensures
            r == self@.columns.len(),
    {
        self.columns.len()
    }
}

/// The first column from `i` on that is named `name`.
pub open spec fn column_index_from(cols: Seq<Column>, name: Seq<char>, i: int) -> Option<int>
    decreases cols.len() - i,
{
    if i < 0 || i >= cols.len() {
        None
    } else if cols[i].name@ == name {
        Some(i)
    } else {
        column_index_from(cols, name, i + 1)
    }
}

/// The first column named `name`.
pub open spec fn column_index(cols: Seq<Column>, name: Seq<char>) -> Option<int> {
    column_index_from(cols, name, 0)
}

/// Finds the first column named `name`.
pub fn find_column(cols: &Vec<Column>, name: &String) -> (r: Option<usize>)
    ensures
        match r {
            Some(k) => column_index(cols@, name@) == Some(k as int),
            None => column_index(cols@, name@) is None,
        },
        r matches Some(k) ==> k < cols@.len(),
{
    let mut i: usize = 0;
    while i < cols.len()
        invariant
            i <= cols@.len(),
            column_index_from(cols@, name@, i as int) == column_index(cols@, name@),
        decreases cols@.len() - i,
    {
        if cols[i].name == *name {
            return Some(i);
        }
        i += 1;
    }
    None
}

// ---------------------------------------------------------------------------
// Ordering of cells

/// The sign of `x - y`.
pub open spec fn int_cmp(x: int, y: int) -> int {
    if x < y {
        -1
    } else if x > y {
        1
    } else {
        0
    }
}

/// Lexicographic order of two texts from position `i` on: -1, 0 or 1.
pub open spec fn text_cmp_from(a: Seq<char>, b: Seq<char>, i: int) -> int
    decreases a.len() - i,
{
    if i >= a.len() {
        if i >= b.len() {
            0
        } else {
            -1
        }
    } else if i >= b.len() {
        1
    } else if a[i] < b[i] {
        -1
    } else if a[i] > b[i] {
        1
    } else {
        text_cmp_from(a, b, i + 1)
    }
}

/// Lexicographic order of two texts, by character: -1, 0 or 1.
pub open spec fn text_cmp(a: Seq<char>, b: Seq<char>) -> int {
    text_cmp_from(a, b, 0)
}

/// The order of two decimals by value: -1, 0 or 1.
pub open spec fn decimal_cmp(a: Decimal, b: Decimal) -> int {
    int_cmp(a.mantissa * pow10(b.scale as nat), b.mantissa * pow10(a.scale as nat))
}

/// The order of two cells: a missing value comes before any other; values
/// of one type compare by value, `false` before `true`. Cells of different
/// types are not ordered.
pub open spec fn cell_cmp(a: Cell, b: Cell) -> int {
    match (a, b) {
        (Cell::Null, Cell::Null) => 0,
        (Cell::Null, _) => -1,
        (_, Cell::Null) => 1,
        (Cell::Str(x), Cell::Str(y)) => text_cmp(x@, y@),
        (Cell::Int(x), Cell::Int(y)) => int_cmp(x as int, y as int),
        (Cell::Float(x), Cell::Float(y)) => decimal_cmp(x, y),
        (Cell::Bool(x), Cell::Bool(y)) => int_cmp(
            if x {
                1
            } else {
                0
            },
            if y {
                1
            } else {
                0
            },
        ),
        _ => 0,
    }
}

/// Two cells hold the same value.
pub open spec fn same_cell(a: Cell, b: Cell) -> bool {
    match (a, b) {
        (Cell::Str(x), Cell::Str(y)) => x@ == y@,
        _ => a == b,
    }
}

/// Two rows hold the same values.
pub open spec fn same_row(a: Seq<Cell>, b: Seq<Cell>) -> bool {
    &&& a.len() == b.len()
    &&& forall|k: int| 0 <= k < a.len() ==> same_cell(#[trigger] a[k], b[k])
}

proof fn lemma_text_cmp_antisym(a: Seq<char>, b: Seq<char>, i: int)
    ensures
        text_cmp_from(a, b, i) == -text_cmp_from(b, a, i),
    decreases a.len() - i,
{
    if i < a.len() && i < b.len() && a[i] == b[i] {
        lemma_text_cmp_antisym(a, b, i + 1);
    }
}

/// Swapping the cells negates their order.
pub proof fn lemma_cell_cmp_antisym(a: Cell, b: Cell)
    ensures
        cell_cmp(a, b) == -cell_cmp(b, a),
        -1 <= cell_cmp(a, b) <= 1,
{
    match (a, b) {
        (Cell::Str(x), Cell::Str(y)) => {
            lemma_text_cmp_antisym(x@, y@, 0);
            lemma_text_cmp_range(x@, y@, 0);
        },
        _ => {},
    }
}

proof fn lemma_text_cmp_range(a: Seq<char>, b: Seq<char>, i: int)
    ensures
        -1 <= text_cmp_from(a, b, i) <= 1,
    decreases a.len() - i,
{
    if i < a.len() && i < b.len() && a[i] == b[i] {
        lemma_text_cmp_range(a, b, i + 1);
    }
}

proof fn lemma_text_cmp_trans(a: Seq<char>, b: Seq<char>, c: Seq<char>, i: int)
    requires
        text_cmp_from(a, b, i) <= 0,
        text_cmp_from(b, c, i) <= 0,
    ensures
        text_cmp_from(a, c, i) <= 0,
        text_cmp_from(a, b, i) < 0 || text_cmp_from(b, c, i) < 0 ==> text_cmp_from(a, c, i) < 0,
    decreases a.len() - i,
{
    if i < a.len() && i < b.len() && i < c.len() && a[i] == b[i] && b[i] == c[i] {
        lemma_text_cmp_trans(a, b, c, i + 1);
    }
}

proof fn lemma_scaled_trans(ma: int, mb: int, mc: int, pa: int, pb: int, pc: int)
    requires
        pa >= 1,
        pb >= 1,
        pc >= 1,
        ma * pb <= mb * pa,
        mb * pc <= mc * pb,
    ensures
        ma * pc <= mc * pa,
        (ma * pb < mb * pa || mb * pc < mc * pb) ==> ma * pc < mc * pa,
{
    assert((ma * pb) * pc <= (mb * pa) * pc) by (nonlinear_arith)
        requires
            ma * pb <= mb * pa,
            pc >= 1,
    ;
    assert((mb * pc) * pa <= (mc * pb) * pa) by (nonlinear_arith)
        requires
            mb * pc <= mc * pb,
            pa >= 1,
    ;
    assert((ma * pb) * pc == (ma * pc) * pb) by (nonlinear_arith);
    assert((mb * pa) * pc == (mb * pc) * pa) by (nonlinear_arith);
    assert((mc * pb) * pa == (mc * pa) * pb) by (nonlinear_arith);
    assert(ma * pc <= mc * pa) by (nonlinear_arith)
        requires
            (ma * pc) * pb <= (mc * pa) * pb,
            pb >= 1,
    ;
    if ma * pb < mb * pa {
        assert((ma * pb) * pc < (mb * pa) * pc) by (nonlinear_arith)
            requires
                ma * pb < mb * pa,
                pc >= 1,
        ;
        assert(ma * pc < mc * pa) by (nonlinear_arith)
            requires
                (ma * pc) * pb < (mc * pa) * pb,
                pb >= 1,
        ;
    }
    if mb * pc < mc * pb {
        assert((mb * pc) * pa < (mc * pb) * pa) by (nonlinear_arith)
            requires
                mb * pc < mc * pb,
                pa >= 1,
        ;
        assert(ma * pc < mc * pa) by (nonlinear_arith)
            requires
                (ma * pc) * pb < (mc * pa) * pb,
                pb >= 1,
        ;
    }
}

/// The order of cells that fit one column type is transitive, and strict
/// when either step is.
pub proof fn lemma_cell_cmp_trans(a: Cell, b: Cell, c: Cell, d: ColumnType)
    requires
        cell_fits(a, d),
        cell_fits(b, d),
        cell_fits(c, d),
        cell_cmp(a, b) <= 0,
        cell_cmp(b, c) <= 0,
    ensures
        cell_cmp(a, c) <= 0,
        cell_cmp(a, b) < 0 || cell_cmp(b, c) < 0 ==> cell_cmp(a, c) < 0,
{
    match (a, b, c) {
        (Cell::Str(x), Cell::Str(y), Cell::Str(z)) => {
            lemma_text_cmp_trans(x@, y@, z@, 0);
        },
        (Cell::Float(x), Cell::Float(y), Cell::Float(z)) => {
            lemma_pow10_positive(x.scale as nat);
            lemma_pow10_positive(y.scale as nat);
            lemma_pow10_positive(z.scale as nat);
            lemma_scaled_trans(
                x.mantissa as int,
                y.mantissa as int,
                z.mantissa as int,
                pow10(x.scale as nat),
                pow10(y.scale as nat),
                pow10(z.scale as nat),
            );
        },
        _ => {},
    }
}

fn compare_text(a: &String, b: &String) -> (r: i8)
    ensures
        r as int == text_cmp(a@, b@),
{
    let sa = a.as_str();
    let sb = b.as_str();
    let na = sa.unicode_len();
    let nb = sb.unicode_len();
    let mut i: usize = 0;
    while i < na && i < nb
        invariant
            na == a@.len(),
            nb == b@.len(),
            sa@ == a@,
            sb@ == b@,
            i <= na,
            i <= nb,
            text_cmp_from(a@, b@, i as int) == text_cmp(a@, b@),
        decreases na - i,
    {
        let x = sa.get_char(i);
        let y = sb.get_char(i);
        if x < y {
            return -1;
        } else if x > y {
            return 1;
        }
        i += 1;
    }
    if i < na {
        1
    } else if i < nb {
        -1
    } else {
        0
    }
}

proof fn lemma_pow10_add(a: nat, b: nat)
    ensures
        pow10(a + b) == pow10(a) * pow10(b),
    decreases b,
{
    if b > 0 {
        lemma_pow10_add(a, (b - 1) as nat);
        assert(pow10(a + b) == 10 * pow10((a + b - 1) as nat));
        assert(pow10(a) * pow10(b) == pow10(a) * (10 * pow10((b - 1) as nat)));
        assert(pow10(a) * (10 * pow10((b - 1) as nat)) == 10 * (pow10(a) * pow10((b - 1) as nat)))
            by (nonlinear_arith);
    }
}

proof fn lemma_pow10_19()
    ensures
        pow10(19) == 10_000_000_000_000_000_000int,
{
    reveal_with_fuel(pow10, 20);
}

/// Compares `x * 10^d` with `y` exactly.
fn compare_scaled(x: i64, d: u32, y: i64) -> (r: i8)
    ensures
        r as int == int_cmp(x * pow10(d as nat), y as int),
{
    proof {
        lemma_pow10_positive(d as nat);
    }
    if x == 0 {
        assert(x * pow10(d as nat) == 0);
        return if 0 < y {
            -1
        } else if 0 > y {
            1
        } else {
            0
        };
    }
    if d > 18 {
        proof {
            lemma_pow10_19();
            lemma_pow10_monotone(19, d as nat);
            if x > 0 {
                assert(x * pow10(d as nat) >= pow10(d as nat)) by (nonlinear_arith)
                    requires
                        x >= 1,
                        pow10(d as nat) >= 1,
                ;
            } else {
                assert(x * pow10(d as nat) <= -pow10(d as nat)) by (nonlinear_arith)
                    requires
                        x <= -1,
                        pow10(d as nat) >= 1,
                ;
            }
        }
        return if x > 0 {
            1
        } else {
            -1
        };
    }
    let mut p: i128 = 1;
    let mut i: u32 = 0;
    proof {
        lemma_pow10_monotone(d as nat, 18);
        reveal_with_fuel(pow10, 19);
    }
    while i < d
        invariant
            i <= d <= 18,
            p == pow10(i as nat),
            pow10(d as nat) <= 1_000_000_000_000_000_000,
        decreases d - i,
    {
        proof {
            lemma_pow10_monotone((i + 1) as nat, d as nat);
            lemma_pow10_positive(i as nat);
            assert(pow10((i + 1) as nat) == 10 * pow10(i as nat));
        }
        p = p * 10;
        i += 1;
    }
    assert(-(10_000_000_000_000_000_000_000_000_000_000_000_000int) <= (x as int) * (p as int)
        <= 10_000_000_000_000_000_000_000_000_000_000_000_000int) by (nonlinear_arith)
        requires
            -10_000_000_000_000_000_000int <= x <= 10_000_000_000_000_000_000int,
            1 <= p <= 1_000_000_000_000_000_000int,
    ;
    let lhs: i128 = (x as i128) * p;
    let rhs: i128 = y as i128;
    if lhs < rhs {
        -1
    } else if lhs > rhs {
        1
    } else {
        0
    }
}

fn compare_decimal(a: Decimal, b: Decimal) -> (r: i8)
    ensures
        r as int == decimal_cmp(a, b),
{
    if a.scale <= b.scale {
        let d = b.scale - a.scale;
        let r = compare_scaled(a.mantissa, d, b.mantissa);
        proof {
            lemma_pow10_add(a.scale as nat, d as nat);
            lemma_pow10_positive(a.scale as nat);
            lemma_scale_cmp(a.mantissa as int, pow10(d as nat), b.mantissa as int, pow10(a.scale as nat));
            assert(a.mantissa * pow10(b.scale as nat) == (a.mantissa * pow10(d as nat)) * pow10(a.scale as nat))
                by (nonlinear_arith)
                requires
                    pow10(b.scale as nat) == pow10(a.scale as nat) * pow10(d as nat),
            ;
        }
        r
    } else {
        let d = a.scale - b.scale;
        let r = compare_scaled(b.mantissa, d, a.mantissa);
        proof {
            lemma_pow10_add(b.scale as nat, d as nat);
            lemma_pow10_positive(b.scale as nat);
            lemma_scale_cmp(b.mantissa as int, pow10(d as nat), a.mantissa as int, pow10(b.scale as nat));
            assert(b.mantissa * pow10(a.scale as nat) == (b.mantissa * pow10(d as nat)) * pow10(b.scale as nat))
                by (nonlinear_arith)
                requires
                    pow10(a.scale as nat) == pow10(b.scale as nat) * pow10(d as nat),
            ;
        }
        -r
    }
}

/// Scaling both sides of a comparison by a positive factor keeps its outcome.
proof fn lemma_scale_cmp(x: int, p: int, y: int, q: int)
    requires
        q >= 1,
    ensures
        int_cmp((x * p) * q, y * q) == int_cmp(x * p, y),
{
    if x * p < y {
        assert((x * p) * q < y * q) by (nonlinear_arith)
            requires
                x * p < y,
                q >= 1,
        ;
    } else if x * p > y {
        assert((x * p) * q > y * q) by (nonlinear_arith)
            requires
                x * p > y,
                q >= 1,
        ;
    }
}

/// Compares two cells; see [`cell_cmp`].
pub fn compare_cells(a: &Cell, b: &Cell) -> (r: i8)
    ensures
        r as int == cell_cmp(*a, *b),
{
    match (a, b) {
        (Cell::Null, Cell::Null) => 0,
        (Cell::Null, _) => -1,
        (_, Cell::Null) => 1,
        (Cell::Str(x), Cell::Str(y)) => compare_text(x, y),
        (Cell::Int(x), Cell::Int(y)) => if *x < *y {
            -1
        } else if *x > *y {
            1
        } else {
            0
        },
        (Cell::Float(x), Cell::Float(y)) => compare_decimal(*x, *y),
        (Cell::Bool(x), Cell::Bool(y)) => if !*x && *y {
            -1
        } else if *x && !*y {
            1
        } else {
            0
        },
        _ => 0,
    }
}

/// Whether two cells hold the same value.
pub fn cells_equal(a: &Cell, b: &Cell) -> (r: bool)
    ensures
        r == same_cell(*a, *b),
{
    match (a, b) {
        (Cell::Null, Cell::Null) => true,
        (Cell::Str(x), Cell::Str(y)) => *x == *y,
        (Cell::Int(x), Cell::Int(y)) => *x == *y,
        (Cell::Float(x), Cell::Float(y)) => x.mantissa == y.mantissa && x.scale == y.scale,
        (Cell::Bool(x), Cell::Bool(y)) => *x == *y,
        _ => false,
    }
}

/// Whether two rows hold the same values.
pub fn rows_equal(a: &Vec<Cell>, b: &Vec<Cell>) -> (r: bool)
    ensures
        r == same_row(a@, b@),
{
    if a.len() != b.len() {
        return false;
    }
    let mut k: usize = 0;
    while k < a.len()
        invariant
            a@.len() == b@.len(),
            k <= a@.len(),
            forall|m: int| 0 <= m < k ==> same_cell(#[trigger] a@[m], b@[m]),
        decreases a@.len() - k,
    {
        if !cells_equal(&a[k], &b[k]) {
            return false;
        }
        k += 1;
    }
    true
}

/// A copy of a cell.
pub fn copy_cell(c: &Cell) -> (r: Cell)
    ensures
        r == *c,
{
    match c {
        Cell::Null => Cell::Null,
        Cell::Str(s) => Cell::Str(s.clone()),
        Cell::Int(n) => Cell::Int(*n),
        Cell::Float(d) => Cell::Float(*d),
        Cell::Bool(b) => Cell::Bool(*b),
    }
}

/// A copy of a row.
pub fn copy_row(row: &Vec<Cell>) -> (r: Vec<Cell>)
    ensures
        r@ == row@,
{
    let mut r: Vec<Cell> = Vec::new();
    let mut k: usize = 0;
    while k < row.len()
        invariant
            k <= row@.len(),
            r@ == row@.subrange(0, k as int),
        decreases row@.len() - k,
    {
        r.push(copy_cell(&row[k]));
        k += 1;
        assert(r@ =~= row@.subrange(0, k as int));
    }
    assert(r@ =~= row@);
    r
}

/// A copy of a column description.
pub fn copy_column(c: &Column) -> (r: Column)
    ensures
        r == *c,
{
    Column { name: c.name.clone(), dtype: c.dtype }
}

} // verus!
