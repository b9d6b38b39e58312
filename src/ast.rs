//! The abstract syntax tree of a parsed query.
use vstd::prelude::*;

verus! {

/// Direction of a `sort by` clause.
#[derive(Debug, Clone, Copy, PartialEq, Eq, Structural)]
pub enum SortDirection {
    Asc,
    Desc,
}

/// A `sort by` clause: a column and a direction.
#[derive(Debug, Clone, PartialEq)]
pub struct Sort {
    pub column: String,
    pub direction: SortDirection,
}

/// An exact decimal number: `mantissa / 10^scale`.
#[derive(Debug, Clone, Copy, PartialEq, Eq, Structural)]
pub struct Decimal {
    pub mantissa: i64,
    pub scale: u32,
}

/// A literal on the right-hand side of a comparison.
#[derive(Debug, Clone, PartialEq)]
pub enum Value {
    String(String),
    Number(i64),
    Float(Decimal),
    Bool(bool),
}

/// A predicate over the rows of a table.
#[derive(Debug, PartialEq)]
pub enum Expr {
    Eq(String, Value),
    NotEq(String, Value),
    Gt(String, Value),
    Lt(String, Value),
    Gte(String, Value),
    Lte(String, Value),
    And(Box<Expr>, Box<Expr>),
    Or(Box<Expr>, Box<Expr>),
    /// A boolean expression tagged with the name of the field it defines.
    /// It may stand only where a derived column is defined, never in a filter.
    MapExpr(Box<Expr>, String),
}

/// A parsed query. `source` is always present; every other clause is optional.
#[derive(Debug, PartialEq)]
pub struct Query {
    pub source: String,
    pub filter: Option<Expr>,
    /// Columns to keep, in order; empty keeps them all.
    pub show: Vec<String>,
    pub sort: Option<Sort>,
    pub cap: Option<usize>,
    /// A derived column: its name and the expression computed for each row.
    pub map: Option<(String, Expr)>,
    pub unique: bool,
}

/// A query with its list of shown columns seen as a sequence.
pub struct QueryView {
    pub source: String,
    pub filter: Option<Expr>,
    pub show: Seq<String>,
    pub sort: Option<Sort>,
    pub cap: Option<usize>,
    pub map: Option<(String, Expr)>,
    pub unique: bool,
}

impl View for Query {
    type V = QueryView;

    open spec fn view(&self) -> QueryView {
        QueryView {
            source: self.source,
            filter: self.filter,
            show: self.show@,
            sort: self.sort,
            cap: self.cap,
            map: self.map,
            unique: self.unique,
        }
    }
}

/// The ASCII lower-case form of a character; other characters are unchanged.
pub open spec fn ascii_lower(c: char) -> char {
    if 'A' <= c && c <= 'Z' {
        ((c as u8) + 32) as char
    } else {
        c
    }
}

/// Two texts are equal up to ASCII case.
pub open spec fn eq_ignore_ascii_case(a: Seq<char>, b: Seq<char>) -> bool {
    &&& a.len() == b.len()
    &&& forall|i: int| 0 <= i < a.len() ==> ascii_lower(#[trigger] a[i]) == ascii_lower(b[i])
}

fn lower_char(c: char) -> (r: char)
    ensures
        r == ascii_lower(c),
{
    if 'A' <= c && c <= 'Z' {
        ((c as u8) + 32) as char
    } else {
        c
    }
}

/// Compares `a` with `b` up to ASCII case.
pub fn str_eq_ignore_ascii_case(a: &str, b: &str) -> (r: bool)
    ensures
        r == eq_ignore_ascii_case(a@, b@),
{
    let n = a.unicode_len();
    if n != b.unicode_len() {
        return false;
    }
    let mut i: usize = 0;
    while i < n
        invariant
            n == a@.len(),
            n == b@.len(),
            i <= n,
            forall|k: int| 0 <= k < i ==> ascii_lower(#[trigger] a@[k]) == ascii_lower(b@[k]),
        decreases n - i,
    {
        if lower_char(a.get_char(i)) != lower_char(b.get_char(i)) {
            return false;
        }
        i += 1;
    }
    true
}

impl SortDirection {
    /// Reads a direction word: `desc` in any case is descending, anything else ascending.
    pub fn from_str(s: &str) -> (r: Self)
        ensures
            r == (if eq_ignore_ascii_case(s@, "desc"@) {
                SortDirection::Desc
            } else {
                SortDirection::Asc
            }),
    {
        if str_eq_ignore_ascii_case(s, "desc") {
            SortDirection::Desc
        } else {
            SortDirection::Asc
        }
    }
}

} // verus!
