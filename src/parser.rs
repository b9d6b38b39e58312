//! The recursive-descent parser: a sequence of tokens to a [`Query`].
//!
//! Each piece of the grammar is stated as a spec function over the token
//! sequence and a position; it returns what was parsed and the position
//! after it, or the kind of error. The executable parser is proved to give
//! the same outcome.
use vstd::prelude::*;
use crate::ast::{
    eq_ignore_ascii_case, str_eq_ignore_ascii_case, Expr, Query, QueryView, Sort, SortDirection,
    Value,
};
use crate::errors::{ErrorKind, ParseError, QueryError};
use crate::lexer::{Token, TokenView};

verus! {

/// The outcome of parsing a piece of the grammar: the value and the position after it.
pub type Parsed<T> = Result<(T, int), ParseError>;

/// How a token reads in an error message.
pub open spec fn describe_view(v: TokenView) -> Seq<char> {
    match v {
        TokenView::Source => "'source'"@,
        TokenView::Show => "'show'"@,
        TokenView::Filter => "'filter'"@,
        TokenView::Sort => "'sort'"@,
        TokenView::By => "'by'"@,
        TokenView::Cap => "'cap'"@,
        TokenView::MapKw => "'map'"@,
        TokenView::Unique => "'unique'"@,
        TokenView::Merge => "'merge'"@,
        TokenView::Alias => "'alias'"@,
        TokenView::Cluster => "'cluster'"@,
        TokenView::With => "'with'"@,
        TokenView::Exclude => "'exclude'"@,
        TokenView::Fuzzy => "'fuzzy'"@,
        TokenView::Watch => "'watch'"@,
        TokenView::OnError => "'on_error'"@,
        TokenView::True => "'true'"@,
        TokenView::False => "'false'"@,
        TokenView::Eq => "'=='"@,
        TokenView::NotEq => "'!='"@,
        TokenView::Gt => "'>'"@,
        TokenView::Lt => "'<'"@,
        TokenView::Assign => "'='"@,
        TokenView::Gte => "'>='"@,
        TokenView::Lte => "'<='"@,
        TokenView::Comma => "','"@,
        TokenView::LParen => "'('"@,
        TokenView::RParen => "')'"@,
        TokenView::Pipe => "'|>'"@,
        TokenView::StringLiteral(s) => "string \""@ + s + "\""@,
        TokenView::Float(_) => "a decimal literal"@,
        TokenView::Number(_) => "an integer literal"@,
        TokenView::Ident(s) => "identifier '"@ + s + "'"@,
    }
}

/// What an error message says was found at `p`: the token there, or the end.
pub open spec fn found_text(t: Seq<Token>, p: int) -> Seq<char> {
    match at(t, p) {
        Some(tok) => ", found "@ + describe_view(tok@),
        None => ", found the end of the input"@,
    }
}

/// The error of kind `kind` whose message says what was expected and what
/// was found at `p`.
pub open spec fn fail(kind: ErrorKind, expected: Seq<char>, t: Seq<Token>, p: int) -> ParseError {
    ParseError { kind, message: expected + found_text(t, p) }
}

/// The error for a step that consumed no token; the grammar's steps always
/// consume one, so it never arises.
pub open spec fn stalled(t: Seq<Token>, p: int) -> ParseError {
    fail(ErrorKind::Unexpected, "Expected the parser to advance"@, t, p)
}

/// The token at position `p`, if there is one.
pub open spec fn at(t: Seq<Token>, p: int) -> Option<Token> {
    if 0 <= p < t.len() {
        Some(t[p])
    } else {
        None
    }
}

/// The token is an identifier that spells `w` up to ASCII case.
pub open spec fn is_word(t: Option<Token>, w: Seq<char>) -> bool {
    match t {
        Some(Token::Ident(n)) => eq_ignore_ascii_case(n@, w),
        _ => false,
    }
}

/// The comparison operators.
#[derive(Clone, Copy, PartialEq, Eq, Structural)]
pub enum CmpOp {
    Eq,
    NotEq,
    Gt,
    Lt,
    Gte,
    Lte,
}

pub open spec fn comparison_op(t: Option<Token>) -> Option<CmpOp> {
    match t {
        Some(Token::Eq) => Some(CmpOp::Eq),
        Some(Token::NotEq) => Some(CmpOp::NotEq),
        Some(Token::Gt) => Some(CmpOp::Gt),
        Some(Token::Lt) => Some(CmpOp::Lt),
        Some(Token::Gte) => Some(CmpOp::Gte),
        Some(Token::Lte) => Some(CmpOp::Lte),
        _ => None,
    }
}

pub open spec fn make_comparison(op: CmpOp, field: String, v: Value) -> Expr {
    match op {
        CmpOp::Eq => Expr::Eq(field, v),
        CmpOp::NotEq => Expr::NotEq(field, v),
        CmpOp::Gt => Expr::Gt(field, v),
        CmpOp::Lt => Expr::Lt(field, v),
        CmpOp::Gte => Expr::Gte(field, v),
        CmpOp::Lte => Expr::Lte(field, v),
    }
}

/// The literal that a token stands for.
pub open spec fn literal(t: Seq<Token>, pos: int) -> Result<Value, ParseError> {
    match at(t, pos) {
        Some(Token::Float(f)) => Ok(Value::Float(f)),
        Some(Token::Number(n)) => Ok(Value::Number(n)),
        Some(Token::StringLiteral(s)) => Ok(Value::String(s)),
        Some(Token::True) => Ok(Value::Bool(true)),
        Some(Token::False) => Ok(Value::Bool(false)),
        Some(_) => Err(fail(ErrorKind::Unexpected, "Unexpected value: expected a literal"@, t, pos)),
        None => Err(fail(ErrorKind::Expected, "Expected literal value"@, t, pos)),
    }
}

/// `Comparison := '(' Expr ')' | Ident CompOp Literal`
pub open spec fn p_comparison(t: Seq<Token>, pos: int) -> Parsed<Expr>
    decreases t.len() - pos, 0nat,
{
    if at(t, pos) == Some(Token::LParen) {
        match p_or(t, pos + 1) {
            Ok((e, p)) => if at(t, p) == Some(Token::RParen) {
                Ok((e, p + 1))
            } else {
                Err(fail(ErrorKind::Unexpected, "Expected token ')'"@, t, p))
            },
            Err(k) => Err(k),
        }
    } else {
        match at(t, pos) {
            Some(Token::Ident(field)) => match comparison_op(at(t, pos + 1)) {
                Some(op) => match literal(t, pos + 2) {
                    Ok(v) => Ok((make_comparison(op, field, v), pos + 3)),
                    Err(k) => Err(k),
                },
                None => Err(fail(ErrorKind::Expected, "Expected comparison operator"@, t, pos + 1)),
            },
            _ => Err(fail(ErrorKind::Expected, "Expected field name in expression"@, t, pos)),
        }
    }
}

/// The `( 'and' Comparison )*` tail of a conjunction whose left part is `left`.
pub open spec fn and_rest(t: Seq<Token>, p: int, left: Expr) -> Parsed<Expr>
    decreases t.len() - p, 3nat,
{
    if is_word(at(t, p), "and"@) {
        match p_comparison(t, p + 1) {
            Ok((r, next)) => if p < next <= t.len() {
                and_rest(t, next, Expr::And(Box::new(left), Box::new(r)))
            } else {
                Err(stalled(t, p))
            },
            Err(k) => Err(k),
        }
    } else {
        Ok((left, p))
    }
}

/// `AndExpr := Comparison ( 'and' Comparison )*`, left-associative.
pub open spec fn p_and(t: Seq<Token>, pos: int) -> Parsed<Expr>
    decreases t.len() - pos, 1nat,
{
    match p_comparison(t, pos) {
        Ok((l, p)) => if pos < p <= t.len() {
            and_rest(t, p, l)
        } else {
            Err(stalled(t, pos))
        },
        Err(k) => Err(k),
    }
}

/// The `( 'or' AndExpr )*` tail of a disjunction whose left part is `left`.
pub open spec fn or_rest(t: Seq<Token>, p: int, left: Expr) -> Parsed<Expr>
    decreases t.len() - p, 3nat,
{
    if is_word(at(t, p), "or"@) {
        match p_and(t, p + 1) {
            Ok((r, next)) => if p < next <= t.len() {
                or_rest(t, next, Expr::Or(Box::new(left), Box::new(r)))
            } else {
                Err(stalled(t, p))
            },
            Err(k) => Err(k),
        }
    } else {
        Ok((left, p))
    }
}

/// `Expr := OrExpr`, `OrExpr := AndExpr ( 'or' AndExpr )*`, left-associative.
pub open spec fn p_or(t: Seq<Token>, pos: int) -> Parsed<Expr>
    decreases t.len() - pos, 2nat,
{
    match p_and(t, pos) {
        Ok((l, p)) => if pos < p <= t.len() {
            or_rest(t, p, l)
        } else {
            Err(stalled(t, pos))
        },
        Err(k) => Err(k),
    }
}

/// The identifiers of a `show` clause from `pos` on; commas between them are skipped.
pub open spec fn show_fields(t: Seq<Token>, pos: int, acc: Seq<String>) -> (Seq<String>, int)
    decreases t.len() - pos,
{
    match at(t, pos) {
        Some(Token::Ident(n)) => show_fields(t, pos + 1, acc.push(n)),
        Some(Token::Comma) => show_fields(t, pos + 1, acc),
        _ => (acc, pos),
    }
}

/// `'by' Ident [Direction]`, from just after `sort`.
pub open spec fn p_sort(t: Seq<Token>, pos: int) -> Parsed<Sort> {
    if at(t, pos) != Some(Token::By) {
        Err(fail(ErrorKind::Unexpected, "Expected token 'by' after 'sort'"@, t, pos))
    } else {
        match at(t, pos + 1) {
            Some(Token::Ident(column)) => if is_word(at(t, pos + 2), "desc"@) {
                Ok((Sort { column, direction: SortDirection::Desc }, pos + 3))
            } else if is_word(at(t, pos + 2), "asc"@) {
                Ok((Sort { column, direction: SortDirection::Asc }, pos + 3))
            } else {
                Ok((Sort { column, direction: SortDirection::Asc }, pos + 2))
            },
            _ => Err(fail(ErrorKind::Expected, "Expected field name after 'sort by'"@, t, pos + 1)),
        }
    }
}

/// `IntegerLit`, from just after `cap`; a negative number is rejected.
pub open spec fn p_cap(t: Seq<Token>, pos: int) -> Parsed<usize> {
    match at(t, pos) {
        Some(Token::Number(n)) => if n >= 0 {
            Ok((n as usize, pos + 1))
        } else {
            Err(fail(ErrorKind::Expected, "Expected non-negative integer after 'cap'"@, t, pos))
        },
        _ => Err(fail(ErrorKind::Expected, "Expected non-negative integer after 'cap'"@, t, pos)),
    }
}

/// `Ident '=' Comparison`, from just after `map`.
pub open spec fn p_map(t: Seq<Token>, pos: int) -> Parsed<(String, Expr)> {
    match at(t, pos) {
        Some(Token::Ident(field)) => if at(t, pos + 1) == Some(Token::Assign) {
            match p_comparison(t, pos + 2) {
                Ok((e, p)) => Ok(((field, e), p)),
                Err(k) => Err(k),
            }
        } else {
            Err(fail(ErrorKind::Unexpected, "Expected token '=' after the mapped field"@, t, pos + 1))
        },
        _ => Err(fail(ErrorKind::Expected, "Expected field name after 'map'"@, t, pos)),
    }
}

/// The clauses from `pos` on, applied to the query `q` parsed so far.
/// A repeated clause replaces the earlier one. The clauses end at the first
/// token that starts no clause; [`p_query`] then requires the input to end there.
pub open spec fn clauses(t: Seq<Token>, pos: int, q: QueryView) -> Parsed<QueryView>
    decreases t.len() - pos,
{
    match at(t, pos) {
        Some(Token::Filter) => match p_or(t, pos + 1) {
            Ok((e, p)) => if pos < p <= t.len() {
                clauses(t, p, QueryView { filter: Some(e), ..q })
            } else {
                Err(stalled(t, pos))
            },
            Err(k) => Err(k),
        },
        Some(Token::Show) => {
            let (fields, p) = show_fields(t, pos + 1, seq![]);
            if pos < p <= t.len() {
                clauses(t, p, QueryView { show: fields, ..q })
            } else {
                Err(stalled(t, pos))
            }
        },
        Some(Token::Sort) => match p_sort(t, pos + 1) {
            Ok((s, p)) => if pos < p <= t.len() {
                clauses(t, p, QueryView { sort: Some(s), ..q })
            } else {
                Err(stalled(t, pos))
            },
            Err(k) => Err(k),
        },
        Some(Token::Cap) => match p_cap(t, pos + 1) {
            Ok((c, p)) => if pos < p <= t.len() {
                clauses(t, p, QueryView { cap: Some(c), ..q })
            } else {
                Err(stalled(t, pos))
            },
            Err(k) => Err(k),
        },
        Some(Token::MapKw) => match p_map(t, pos + 1) {
            Ok((m, p)) => if pos < p <= t.len() {
                clauses(t, p, QueryView { map: Some(m), ..q })
            } else {
                Err(stalled(t, pos))
            },
            Err(k) => Err(k),
        },
        Some(Token::Unique) => clauses(t, pos + 1, QueryView { unique: true, ..q }),
        Some(Token::Pipe) => clauses(t, pos + 1, q),
        _ => Ok((q, pos)),
    }
}

/// The query with no clause but its source.
pub open spec fn bare_query(source: String) -> QueryView {
    QueryView {
        source,
        filter: None,
        show: seq![],
        sort: None,
        cap: None,
        map: None,
        unique: false,
    }
}

/// The clauses' outcome, provided that no token is left after them.
pub open spec fn at_end(t: Seq<Token>, r: Parsed<QueryView>) -> Parsed<QueryView> {
    match r {
        Ok((q, p)) => if at(t, p) is None {
            Ok((q, p))
        } else {
            Err(fail(ErrorKind::Unexpected, "Expected a clause or the end of the query"@, t, p))
        },
        Err(e) => Err(e),
    }
}

/// `Query := 'source' StringLit Clause*`, from `pos` to the end of the tokens:
/// a token left after the clauses is an error.
pub open spec fn p_query(t: Seq<Token>, pos: int) -> Parsed<QueryView> {
    if at(t, pos) != Some(Token::Source) {
        Err(fail(ErrorKind::Unexpected, "Expected token 'source' at the start of the query"@, t, pos))
    } else {
        match at(t, pos + 1) {
            Some(Token::StringLiteral(s)) => at_end(t, clauses(t, pos + 2, bare_query(s))),
            _ => Err(fail(ErrorKind::Expected, "Expected string after 'source'"@, t, pos + 1)),
        }
    }
}

/// The query that a whole token sequence parses to, or the parse error.
pub open spec fn parse_spec(t: Seq<Token>) -> Result<QueryView, ParseError> {
    match p_query(t, 0) {
        Ok((q, _)) => Ok(q),
        Err(k) => Err(k),
    }
}

/// The executable outcome `r` is the spec outcome `s`: the same value and
/// position, or the same error: its kind and its message.
pub open spec fn same_outcome<T>(r: Result<(T, usize), QueryError>, s: Parsed<T>) -> bool {
    match (r, s) {
        (Ok((v, p)), Ok((w, q))) => v == w && p == q,
        (Err(e), Err(f)) => e.error_view() == f,
        _ => false,
    }
}

/// [`same_outcome`] for a query, compared by its view.
pub open spec fn same_query_outcome(
    r: Result<(Query, usize), QueryError>,
    s: Parsed<QueryView>,
) -> bool {
    match (r, s) {
        (Ok((v, p)), Ok((w, q))) => v@ == w && p == q,
        (Err(e), Err(f)) => e.error_view() == f,
        _ => false,
    }
}

/// The result advanced past `pos` and stayed within the tokens.
pub open spec fn advanced<T>(r: Result<(T, usize), QueryError>, pos: int, len: int) -> bool {
    r matches Ok((_, p)) ==> pos < p <= len
}

// ---------------------------------------------------------------------------
// Executable parser

/// How a token reads in an error message.
fn describe(t: &Token) -> (r: String)
    ensures
        r@ == describe_view(t@),
{
    match t {
        Token::Source => "'source'".to_owned(),
        Token::Show => "'show'".to_owned(),
        Token::Filter => "'filter'".to_owned(),
        Token::Sort => "'sort'".to_owned(),
        Token::By => "'by'".to_owned(),
        Token::Cap => "'cap'".to_owned(),
        Token::MapKw => "'map'".to_owned(),
        Token::Unique => "'unique'".to_owned(),
        Token::Merge => "'merge'".to_owned(),
        Token::Alias => "'alias'".to_owned(),
        Token::Cluster => "'cluster'".to_owned(),
        Token::With => "'with'".to_owned(),
        Token::Exclude => "'exclude'".to_owned(),
        Token::Fuzzy => "'fuzzy'".to_owned(),
        Token::Watch => "'watch'".to_owned(),
        Token::OnError => "'on_error'".to_owned(),
        Token::True => "'true'".to_owned(),
        Token::False => "'false'".to_owned(),
        Token::Eq => "'=='".to_owned(),
        Token::NotEq => "'!='".to_owned(),
        Token::Gt => "'>'".to_owned(),
        Token::Lt => "'<'".to_owned(),
        Token::Assign => "'='".to_owned(),
        Token::Gte => "'>='".to_owned(),
        Token::Lte => "'<='".to_owned(),
        Token::Comma => "','".to_owned(),
        Token::LParen => "'('".to_owned(),
        Token::RParen => "')'".to_owned(),
        Token::Pipe => "'|>'".to_owned(),
        Token::StringLiteral(s) => {
            let mut m = "string \"".to_owned();
            m.append(s.as_str());
            m.append("\"");
            m
        },
        Token::Float(_) => "a decimal literal".to_owned(),
        Token::Number(_) => "an integer literal".to_owned(),
        Token::Ident(s) => {
            let mut m = "identifier '".to_owned();
            m.append(s.as_str());
            m.append("'");
            m
        },
    }
}

/// An error of the given kind: what was expected, and the token found at
/// `pos` (or the end of the input).
fn found_error(kind: ErrorKind, expected: &str, tokens: &Vec<Token>, pos: usize) -> (r: QueryError)
    ensures
        r.error_view() == fail(kind, expected@, tokens@, pos as int),
{
    let mut m = expected.to_owned();
    if pos < tokens.len() {
        m.append(", found ");
        let d = describe(&tokens[pos]);
        m.append(d.as_str());
        assert(m@ =~= expected@ + found_text(tokens@, pos as int));
    } else {
        m.append(", found the end of the input");
        assert(m@ =~= expected@ + found_text(tokens@, pos as int));
    }
    match kind {
        ErrorKind::Unexpected => QueryError::Unexpected(m),
        ErrorKind::Expected => QueryError::Expected(m),
    }
}

fn token_is_lparen(tokens: &Vec<Token>, pos: usize) -> (r: bool)
    ensures
        r == (at(tokens@, pos as int) == Some(Token::LParen)),
{
    pos < tokens.len() && matches!(tokens[pos], Token::LParen)
}

fn token_is_rparen(tokens: &Vec<Token>, pos: usize) -> (r: bool)
    ensures
        r == (at(tokens@, pos as int) == Some(Token::RParen)),
{
    pos < tokens.len() && matches!(tokens[pos], Token::RParen)
}

fn token_is_word(tokens: &Vec<Token>, pos: usize, w: &str) -> (r: bool)
    ensures
        r == is_word(at(tokens@, pos as int), w@),
{
    if pos < tokens.len() {
        match &tokens[pos] {
            Token::Ident(n) => str_eq_ignore_ascii_case(n.as_str(), w),
            _ => false,
        }
    } else {
        false
    }
}

fn read_comparison_op(tokens: &Vec<Token>, pos: usize) -> (r: Option<CmpOp>)
    ensures
        r == comparison_op(at(tokens@, pos as int)),
{
    if pos < tokens.len() {
        match &tokens[pos] {
            Token::Eq => Some(CmpOp::Eq),
            Token::NotEq => Some(CmpOp::NotEq),
            Token::Gt => Some(CmpOp::Gt),
            Token::Lt => Some(CmpOp::Lt),
            Token::Gte => Some(CmpOp::Gte),
            Token::Lte => Some(CmpOp::Lte),
            _ => None,
        }
    } else {
        None
    }
}

fn read_literal(tokens: &Vec<Token>, pos: usize) -> (r: Result<Value, QueryError>)
    ensures
        match (r, literal(tokens@, pos as int)) {
            (Ok(v), Ok(w)) => v == w,
            (Err(e), Err(f)) => e.error_view() == f,
            _ => false,
        },
{
    if pos < tokens.len() {
        match &tokens[pos] {
            Token::Float(f) => Ok(Value::Float(*f)),
            Token::Number(n) => Ok(Value::Number(*n)),
            Token::StringLiteral(s) => Ok(Value::String(s.clone())),
            Token::True => Ok(Value::Bool(true)),
            Token::False => Ok(Value::Bool(false)),
            _ => Err(found_error(ErrorKind::Unexpected, "Unexpected value: expected a literal", tokens, pos)),
        }
    } else {
        Err(found_error(ErrorKind::Expected, "Expected literal value", tokens, pos))
    }
}

fn build_comparison(op: CmpOp, field: String, v: Value) -> (r: Expr)
    ensures
        r == make_comparison(op, field, v),
{
    match op {
        CmpOp::Eq => Expr::Eq(field, v),
        CmpOp::NotEq => Expr::NotEq(field, v),
        CmpOp::Gt => Expr::Gt(field, v),
        CmpOp::Lt => Expr::Lt(field, v),
        CmpOp::Gte => Expr::Gte(field, v),
        CmpOp::Lte => Expr::Lte(field, v),
    }
}

/// Parses a comparison, or a parenthesized expression, at `pos`.
pub fn parse_comparison_expr(tokens: &Vec<Token>, pos: usize) -> (r: Result<(Expr, usize), QueryError>)
    requires
        pos <= tokens@.len(),
    ensures
        same_outcome(r, p_comparison(tokens@, pos as int)),
        advanced(r, pos as int, tokens@.len() as int),
    decreases tokens@.len() - pos, 0nat,
{
    let _len = tokens.len();
    if token_is_lparen(tokens, pos) {
        match parse_or_expr(tokens, pos + 1) {
            Ok((e, p)) => {
                if token_is_rparen(tokens, p) {
                    Ok((e, p + 1))
                } else {
                    Err(found_error(ErrorKind::Unexpected, "Expected token ')'", tokens, p))
                }
            },
            Err(e) => Err(e),
        }
    } else {
        let field = if pos < tokens.len() {
            match &tokens[pos] {
                Token::Ident(name) => name.clone(),
                _ => {
                    return Err(found_error(ErrorKind::Expected, "Expected field name in expression", tokens, pos));
                },
            }
        } else {
            return Err(found_error(ErrorKind::Expected, "Expected field name in expression", tokens, pos));
        };
        let op = match read_comparison_op(tokens, pos + 1) {
            Some(op) => op,
            None => {
                return Err(found_error(ErrorKind::Expected, "Expected comparison operator", tokens, pos + 1));
            },
        };
        match read_literal(tokens, pos + 2) {
            Ok(v) => Ok((build_comparison(op, field, v), pos + 3)),
            Err(e) => Err(e),
        }
    }
}

/// Parses a conjunction of comparisons at `pos`.
pub fn parse_and_expr(tokens: &Vec<Token>, pos: usize) -> (r: Result<(Expr, usize), QueryError>)
    requires
        pos <= tokens@.len(),
    ensures
        same_outcome(r, p_and(tokens@, pos as int)),
        advanced(r, pos as int, tokens@.len() as int),
    decreases tokens@.len() - pos, 1nat,
{
    let _len = tokens.len();
    let (mut left, mut p) = match parse_comparison_expr(tokens, pos) {
        Ok(x) => x,
        Err(e) => {
            return Err(e);
        },
    };
    while token_is_word(tokens, p, "and")
        invariant
            pos < p <= tokens@.len(),
            _len == tokens@.len(),
            and_rest(tokens@, p as int, left) == p_and(tokens@, pos as int),
        decreases tokens@.len() - p,
    {
        match parse_comparison_expr(tokens, p + 1) {
            Ok((r, next)) => {
                left = Expr::And(Box::new(left), Box::new(r));
                p = next;
            },
            Err(e) => {
                return Err(e);
            },
        }
    }
    Ok((left, p))
}

/// Parses a disjunction of conjunctions at `pos`.
pub fn parse_or_expr(tokens: &Vec<Token>, pos: usize) -> (r: Result<(Expr, usize), QueryError>)
    requires
        pos <= tokens@.len(),
    ensures
        same_outcome(r, p_or(tokens@, pos as int)),
        advanced(r, pos as int, tokens@.len() as int),
    decreases tokens@.len() - pos, 2nat,
{
    let _len = tokens.len();
    let (mut left, mut p) = match parse_and_expr(tokens, pos) {
        Ok(x) => x,
        Err(e) => {
            return Err(e);
        },
    };
    while token_is_word(tokens, p, "or")
        invariant
            pos < p <= tokens@.len(),
            _len == tokens@.len(),
            or_rest(tokens@, p as int, left) == p_or(tokens@, pos as int),
        decreases tokens@.len() - p,
    {
        match parse_and_expr(tokens, p + 1) {
            Ok((r, next)) => {
                left = Expr::Or(Box::new(left), Box::new(r));
                p = next;
            },
            Err(e) => {
                return Err(e);
            },
        }
    }
    Ok((left, p))
}

/// Reads the identifiers of a `show` clause, skipping the commas between them.
fn parse_show_fields(tokens: &Vec<Token>, pos: usize) -> (r: (Vec<String>, usize))
    requires
        pos <= tokens@.len(),
    ensures
        (r.0@, r.1 as int) == show_fields(tokens@, pos as int, seq![]),
        pos <= r.1 <= tokens@.len(),
{
    let len = tokens.len();
    let mut fields: Vec<String> = Vec::new();
    let mut p = pos;
    while p < len && (matches!(tokens[p], Token::Ident(_)) || matches!(tokens[p], Token::Comma))
        invariant
            len == tokens@.len(),
            pos <= p <= len,
            show_fields(tokens@, p as int, fields@) == show_fields(tokens@, pos as int, seq![]),
        decreases len - p,
    {
        match &tokens[p] {
            Token::Ident(name) => {
                fields.push(name.clone());
            },
            _ => {},
        }
        p += 1;
    }
    (fields, p)
}

/// Reads `by Ident [Direction]`, from just after `sort`.
fn parse_sort(tokens: &Vec<Token>, pos: usize) -> (r: Result<(Sort, usize), QueryError>)
    requires
        pos <= tokens@.len(),
    ensures
        same_outcome(r, p_sort(tokens@, pos as int)),
        advanced(r, pos as int, tokens@.len() as int),
{
    let len = tokens.len();
    if !(pos < len && matches!(tokens[pos], Token::By)) {
        return Err(found_error(ErrorKind::Unexpected, "Expected token 'by' after 'sort'", tokens, pos));
    }
    let column = if pos + 1 < len {
        match &tokens[pos + 1] {
            Token::Ident(name) => name.clone(),
            _ => {
                return Err(found_error(ErrorKind::Expected, "Expected field name after 'sort by'", tokens, pos + 1));
            },
        }
    } else {
        return Err(found_error(ErrorKind::Expected, "Expected field name after 'sort by'", tokens, pos + 1));
    };
    if token_is_word(tokens, pos + 2, "desc") {
        Ok((Sort { column, direction: SortDirection::Desc }, pos + 3))
    } else if token_is_word(tokens, pos + 2, "asc") {
        Ok((Sort { column, direction: SortDirection::Asc }, pos + 3))
    } else {
        Ok((Sort { column, direction: SortDirection::Asc }, pos + 2))
    }
}

/// Reads the non-negative integer of a `cap` clause.
fn parse_cap(tokens: &Vec<Token>, pos: usize) -> (r: Result<(usize, usize), QueryError>)
    requires
        pos <= tokens@.len(),
    ensures
        same_outcome(r, p_cap(tokens@, pos as int)),
        advanced(r, pos as int, tokens@.len() as int),
{
    if pos < tokens.len() {
        match &tokens[pos] {
            Token::Number(n) => {
                if *n >= 0 {
                    return Ok((*n as usize, pos + 1));
                }
            },
            _ => {},
        }
    }
    Err(found_error(ErrorKind::Expected, "Expected non-negative integer after 'cap'", tokens, pos))
}

/// Reads `Ident '=' Comparison`, from just after `map`.
fn parse_map(tokens: &Vec<Token>, pos: usize) -> (r: Result<((String, Expr), usize), QueryError>)
    requires
        pos <= tokens@.len(),
    ensures
        same_outcome(r, p_map(tokens@, pos as int)),
        advanced(r, pos as int, tokens@.len() as int),
{
    let len = tokens.len();
    let field = if pos < len {
        match &tokens[pos] {
            Token::Ident(name) => name.clone(),
            _ => {
                return Err(found_error(ErrorKind::Expected, "Expected field name after 'map'", tokens, pos));
            },
        }
    } else {
        return Err(found_error(ErrorKind::Expected, "Expected field name after 'map'", tokens, pos));
    };
    if !(pos + 1 < len && matches!(tokens[pos + 1], Token::Assign)) {
        return Err(found_error(ErrorKind::Unexpected, "Expected token '=' after the mapped field", tokens, pos + 1));
    }
    match parse_comparison_expr(tokens, pos + 2) {
        Ok((e, p)) => Ok(((field, e), p)),
        Err(e) => Err(e),
    }
}

pub open spec fn is_clause_start(t: Option<Token>) -> bool {
    match t {
        Some(Token::Filter) | Some(Token::Show) | Some(Token::Sort) | Some(Token::Cap) | Some(
            Token::MapKw,
        ) | Some(Token::Unique) | Some(Token::Pipe) => true,
        _ => false,
    }
}

fn starts_clause(tokens: &Vec<Token>, p: usize) -> (r: bool)
    ensures
        r == is_clause_start(at(tokens@, p as int)),
{
    if p < tokens.len() {
        match &tokens[p] {
            Token::Filter | Token::Show | Token::Sort | Token::Cap | Token::MapKw | Token::Unique
            | Token::Pipe => true,
            _ => false,
        }
    } else {
        false
    }
}

/// Parses a whole query starting at `pos`: `source`, its string, then any
/// clauses, up to the end of the tokens.
pub fn parse_query_at(tokens: &Vec<Token>, pos: usize) -> (r: Result<(Query, usize), QueryError>)
    requires
        pos <= tokens@.len(),
    ensures
        same_query_outcome(r, p_query(tokens@, pos as int)),
        r matches Ok((_, p)) ==> p <= tokens@.len(),
{
    let len = tokens.len();
    if !(pos < len && matches!(tokens[pos], Token::Source)) {
        return Err(found_error(ErrorKind::Unexpected, "Expected token 'source' at the start of the query", tokens, pos));
    }
    let source = if pos + 1 < len {
        match &tokens[pos + 1] {
            Token::StringLiteral(s) => s.clone(),
            _ => {
                return Err(found_error(ErrorKind::Expected, "Expected string after 'source'", tokens, pos + 1));
            },
        }
    } else {
        return Err(found_error(ErrorKind::Expected, "Expected string after 'source'", tokens, pos + 1));
    };
    let mut q = Query {
        source,
        filter: None,
        show: Vec::new(),
        sort: None,
        cap: None,
        map: None,
        unique: false,
    };
    let mut p = pos + 2;
    while starts_clause(tokens, p)
        invariant
            len == tokens@.len(),
            p <= len,
            at_end(tokens@, clauses(tokens@, p as int, q@)) == p_query(tokens@, pos as int),
        decreases len - p,
    {
        match &tokens[p] {
            Token::Filter => match parse_or_expr(tokens, p + 1) {
                Ok((e, next)) => {
                    q.filter = Some(e);
                    p = next;
                },
                Err(e) => {
                    return Err(e);
                },
            },
            Token::Show => {
                let (fields, next) = parse_show_fields(tokens, p + 1);
                q.show = fields;
                p = next;
            },
            Token::Sort => match parse_sort(tokens, p + 1) {
                Ok((s, next)) => {
                    q.sort = Some(s);
                    p = next;
                },
                Err(e) => {
                    return Err(e);
                },
            },
            Token::Cap => match parse_cap(tokens, p + 1) {
                Ok((c, next)) => {
                    q.cap = Some(c);
                    p = next;
                },
                Err(e) => {
                    return Err(e);
                },
            },
            Token::MapKw => match parse_map(tokens, p + 1) {
                Ok((m, next)) => {
                    q.map = Some(m);
                    p = next;
                },
                Err(e) => {
                    return Err(e);
                },
            },
            Token::Unique => {
                q.unique = true;
                p = p + 1;
            },
            _ => {
                p = p + 1;
            },
        }
    }
    if p < len {
        return Err(found_error(ErrorKind::Unexpected, "Expected a clause or the end of the query", tokens, p));
    }
    Ok((q, p))
}

/// Parses a whole token sequence into a query.
pub fn parse(tokens: &Vec<Token>) -> (r: Result<Query, QueryError>)
    ensures
        match (r, parse_spec(tokens@)) {
            (Ok(q), Ok(w)) => q@ == w,
            (Err(e), Err(f)) => e.error_view() == f,
            _ => false,
        },
{
    match parse_query_at(tokens, 0) {
        Ok((q, _)) => Ok(q),
        Err(e) => Err(e),
    }
}

/// A parser: a token sequence and a cursor into it.
#[derive(Debug)]
pub struct Parser {
    tokens: Vec<Token>,
    position: usize,
}

impl Parser {
    /// The tokens being parsed.
    pub closed spec fn token_seq(&self) -> Seq<Token> {
        self.tokens@
    }

    /// The position of the next token to read.
    pub closed spec fn cursor(&self) -> int {
        self.position as int
    }

    /// The cursor lies within the tokens.
    pub open spec fn wf(&self) -> bool {
        0 <= self.cursor() <= self.token_seq().len()
    }

    /// A parser at the start of `tokens`.
    pub fn new(tokens: Vec<Token>) -> (r: Self)
        ensures
            r.token_seq() == tokens@,
            r.cursor() == 0,
            r.wf(),
    {
        Parser { tokens, position: 0 }
    }

    /// Parses a query from the cursor to the end of the tokens. On success
    /// the cursor moves to the end.
    pub fn parse_query(&mut self) -> (r: Result<Query, QueryError>)
        requires
            old(self).wf(),
        ensures
            final(self).wf(),
            final(self).token_seq() == old(self).token_seq(),
            match (r, p_query(old(self).token_seq(), old(self).cursor())) {
                (Ok(q), Ok((w, p))) => q@ == w && final(self).cursor() == p,
                (Err(e), Err(f)) => e.error_view() == f,
                _ => false,
            },
    {
        match parse_query_at(&self.tokens, self.position) {
            Ok((q, p)) => {
                self.position = p;
                Ok(q)
            },
            Err(e) => Err(e),
        }
    }

    /// Parses an expression (`or` of `and` of comparisons) from the cursor on.
    /// On success the cursor moves past it.
    pub fn parse_expr(&mut self) -> (r: Result<Expr, QueryError>)
        requires
            old(self).wf(),
        ensures
            final(self).wf(),
            final(self).token_seq() == old(self).token_seq(),
            match (r, p_or(old(self).token_seq(), old(self).cursor())) {
                (Ok(e), Ok((w, p))) => e == w && final(self).cursor() == p,
                (Err(e), Err(f)) => e.error_view() == f,
                _ => false,
            },
    {
        match parse_or_expr(&self.tokens, self.position) {
            Ok((e, p)) => {
                self.position = p;
                Ok(e)
            },
            Err(e) => Err(e),
        }
    }
}

} // verus!
