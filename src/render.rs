//! A canonical rendering of a query as tokens, which parses back to the query.
use vstd::prelude::*;
use crate::ast::{Expr, Query, QueryView, Sort, SortDirection, Value};
use crate::errors::ParseError;
use crate::lexer::Token;
use crate::parser::{
    and_rest, at, bare_query, clauses, is_word, or_rest, p_and, p_comparison, p_or, p_query,
    parse_spec, show_fields,
};

verus! {

/// The identifiers that the rendering spells out: `and`, `or` and `desc`.
pub struct Words {
    pub and: String,
    pub or: String,
    pub desc: String,
}

pub open spec fn words_ok(w: Words) -> bool {
    &&& w.and@ == "and"@
    &&& w.or@ == "or"@
    &&& w.desc@ == "desc"@
}

pub open spec fn literal_token(v: Value) -> Token {
    match v {
        Value::String(s) => Token::StringLiteral(s),
        Value::Number(n) => Token::Number(n),
        Value::Float(d) => Token::Float(d),
        Value::Bool(b) => if b {
            Token::True
        } else {
            Token::False
        },
    }
}

/// An expression can be rendered: it holds no tagged map expression.
pub open spec fn renderable(e: Expr) -> bool
    decreases e,
{
    match e {
        Expr::And(l, r) => renderable(*l) && renderable(*r),
        Expr::Or(l, r) => renderable(*l) && renderable(*r),
        Expr::MapExpr(_, _) => false,
        _ => true,
    }
}

/// The tokens of an expression: a comparison as `field op literal`, a
/// conjunction or disjunction in parentheses.
pub open spec fn render_expr(e: Expr, w: Words) -> Seq<Token>
    decreases e,
{
    match e {
        Expr::Eq(c, v) => seq![Token::Ident(c), Token::Eq, literal_token(v)],
        Expr::NotEq(c, v) => seq![Token::Ident(c), Token::NotEq, literal_token(v)],
        Expr::Gt(c, v) => seq![Token::Ident(c), Token::Gt, literal_token(v)],
        Expr::Lt(c, v) => seq![Token::Ident(c), Token::Lt, literal_token(v)],
        Expr::Gte(c, v) => seq![Token::Ident(c), Token::Gte, literal_token(v)],
        Expr::Lte(c, v) => seq![Token::Ident(c), Token::Lte, literal_token(v)],
        Expr::And(l, r) => seq![Token::LParen] + render_expr(*l, w) + seq![Token::Ident(w.and)]
            + render_expr(*r, w) + seq![Token::RParen],
        Expr::Or(l, r) => seq![Token::LParen] + render_expr(*l, w) + seq![Token::Ident(w.or)]
            + render_expr(*r, w) + seq![Token::RParen],
        Expr::MapExpr(_, _) => seq![],
    }
}

/// The tokens of the names of a `show` clause, each followed by a comma.
pub open spec fn render_names(names: Seq<String>) -> Seq<Token>
    decreases names.len(),
{
    if names.len() == 0 {
        seq![]
    } else {
        render_names(names.drop_last()) + seq![Token::Ident(names.last()), Token::Comma]
    }
}

pub open spec fn render_filter(f: Option<Expr>, w: Words) -> Seq<Token> {
    match f {
        None => seq![],
        Some(e) => seq![Token::Filter] + render_expr(e, w),
    }
}

pub open spec fn render_show(show: Seq<String>) -> Seq<Token> {
    if show.len() == 0 {
        seq![]
    } else {
        seq![Token::Show] + render_names(show)
    }
}

pub open spec fn render_sort(s: Option<Sort>, w: Words) -> Seq<Token> {
    match s {
        None => seq![],
        Some(s) => match s.direction {
            SortDirection::Asc => seq![Token::Sort, Token::By, Token::Ident(s.column)],
            SortDirection::Desc => seq![
                Token::Sort,
                Token::By,
                Token::Ident(s.column),
                Token::Ident(w.desc),
            ],
        },
    }
}

pub open spec fn render_cap(c: Option<usize>) -> Seq<Token> {
    match c {
        None => seq![],
        Some(n) => seq![Token::Cap, Token::Number(n as i64)],
    }
}

pub open spec fn render_map(m: Option<(String, Expr)>, w: Words) -> Seq<Token> {
    match m {
        None => seq![],
        Some((name, e)) => seq![Token::MapKw, Token::Ident(name), Token::Assign] + render_expr(e, w),
    }
}

pub open spec fn render_unique(u: bool) -> Seq<Token> {
    if u {
        seq![Token::Unique]
    } else {
        seq![]
    }
}

/// A clause slot: a pipe, then the clause's tokens (none when it is absent).
pub open spec fn slot(clause: Seq<Token>) -> Seq<Token> {
    seq![Token::Pipe] + clause
}

/// The canonical tokens of a query: `source` and its string, then one slot
/// for each clause in the order filter, show, sort, cap, map, unique.
pub open spec fn render_query(q: QueryView, w: Words) -> Seq<Token> {
    seq![Token::Source, Token::StringLiteral(q.source)] + slot(render_filter(q.filter, w)) + slot(
        render_show(q.show),
    ) + slot(render_sort(q.sort, w)) + slot(render_cap(q.cap)) + slot(render_map(q.map, w)) + slot(
        render_unique(q.unique),
    )
}

/// A query can be rendered: its expressions hold no tagged map expression
/// and its cap fits a literal.
pub open spec fn query_renderable(q: QueryView) -> bool {
    &&& (q.filter matches Some(e) ==> renderable(e))
    &&& (q.map matches Some((_, e)) ==> renderable(e))
    &&& (q.cap matches Some(n) ==> n <= i64::MAX)
}

/// `t` holds `piece` from position `pos` on.
pub open spec fn holds_at(t: Seq<Token>, pos: int, piece: Seq<Token>) -> bool {
    &&& 0 <= pos
    &&& pos + piece.len() <= t.len()
    &&& forall|i: int| 0 <= i < piece.len() ==> t[pos + i] == #[trigger] piece[i]
}

/// No identifier stands at `p`.
pub open spec fn no_ident_at(t: Seq<Token>, p: int) -> bool {
    !(at(t, p) matches Some(Token::Ident(_)))
}

proof fn lemma_render_expr_len(e: Expr, w: Words)
    requires
        renderable(e),
    ensures
        render_expr(e, w).len() >= 3,
    decreases e,
{
    match e {
        Expr::And(l, r) => {
            lemma_render_expr_len(*l, w);
        },
        Expr::Or(l, r) => {
            lemma_render_expr_len(*l, w);
        },
        _ => {},
    }
}

proof fn lemma_words_differ(w: Words)
    requires
        words_ok(w),
    ensures
        !is_word(Some(Token::Ident(w.or)), "and"@),
        is_word(Some(Token::Ident(w.or)), "or"@),
        is_word(Some(Token::Ident(w.and)), "and"@),
        is_word(Some(Token::Ident(w.desc)), "desc"@),
{
    reveal_strlit("and");
    reveal_strlit("or");
    reveal_strlit("desc");
}

/// A rendered expression parses back as a comparison, whatever follows it.
#[verifier::rlimit(80)]
proof fn lemma_parse_rendered(t: Seq<Token>, pos: int, e: Expr, w: Words)
    requires
        renderable(e),
        words_ok(w),
        holds_at(t, pos, render_expr(e, w)),
    ensures
        p_comparison(t, pos) == Ok::<(Expr, int), ParseError>((e, pos + render_expr(e, w).len())),
    decreases e,
{
    let rr = render_expr(e, w);
    assert(t[pos + 0] == rr[0]);
    match e {
        Expr::And(l, r) | Expr::Or(l, r) => {
            let conj = e is And;
            let rl = render_expr(*l, w);
            let rrt = render_expr(*r, w);
            let word = if conj {
                w.and
            } else {
                w.or
            };
            assert(rr == seq![Token::LParen] + rl + seq![Token::Ident(word)] + rrt + seq![Token::RParen]);
            lemma_render_expr_len(*l, w);
            lemma_render_expr_len(*r, w);
            lemma_words_differ(w);
            let at1 = pos + 1 + rl.len();
            let at2 = at1 + 1 + rrt.len();
            assert forall|i: int| 0 <= i < rl.len() implies t[pos + 1 + i] == #[trigger] rl[i] by {
                assert(rr[1 + i] == rl[i]);
                assert(t[pos + (1 + i)] == rr[1 + i]);
            }
            assert forall|i: int| 0 <= i < rrt.len() implies t[at1 + 1 + i] == #[trigger] rrt[i] by {
                assert(rr[rl.len() + 2 + i] == rrt[i]);
                assert(t[pos + (rl.len() + 2 + i)] == rr[rl.len() + 2 + i]);
            }
            let n1: int = 1 + rl.len() as int;
            assert(rr[n1] == Token::Ident(word));
            assert(t[pos + n1] == rr[n1]);
            assert(rr[rr.len() - 1] == Token::RParen);
            assert(t[pos + (rr.len() - 1)] == rr[rr.len() - 1]);
            assert(at2 == pos + rr.len() - 1);
            lemma_parse_rendered(t, pos + 1, *l, w);
            lemma_parse_rendered(t, at1 + 1, *r, w);
            assert(at(t, at1) == Some(Token::Ident(word)));
            assert(at(t, at2) == Some(Token::RParen));
            if conj {
                assert(and_rest(t, at2, Expr::And(l, r)) == Ok::<(Expr, int), ParseError>((Expr::And(l, r), at2)));
                assert(and_rest(t, at1, *l) == and_rest(t, at2, Expr::And(Box::new(*l), Box::new(*r))));
                assert(p_and(t, pos + 1) == Ok::<(Expr, int), ParseError>((e, at2)));
                assert(or_rest(t, at2, e) == Ok::<(Expr, int), ParseError>((e, at2)));
                assert(p_or(t, pos + 1) == Ok::<(Expr, int), ParseError>((e, at2)));
            } else {
                assert(and_rest(t, at1, *l) == Ok::<(Expr, int), ParseError>((*l, at1)));
                assert(p_and(t, pos + 1) == Ok::<(Expr, int), ParseError>((*l, at1)));
                assert(and_rest(t, at2, *r) == Ok::<(Expr, int), ParseError>((*r, at2)));
                assert(p_and(t, at1 + 1) == Ok::<(Expr, int), ParseError>((*r, at2)));
                assert(or_rest(t, at2, Expr::Or(Box::new(*l), Box::new(*r))) == Ok::<(Expr, int), ParseError>((e, at2)));
                assert(or_rest(t, at1, *l) == Ok::<(Expr, int), ParseError>((e, at2)));
                assert(p_or(t, pos + 1) == Ok::<(Expr, int), ParseError>((e, at2)));
            }
        },
        _ => {
            assert(t[pos + 1] == rr[1]);
            assert(t[pos + 2] == rr[2]);
        },
    }
}

/// A rendered expression parses back as a filter when no identifier follows it.
proof fn lemma_parse_rendered_filter(t: Seq<Token>, pos: int, e: Expr, w: Words)
    requires
        renderable(e),
        words_ok(w),
        holds_at(t, pos, render_expr(e, w)),
        no_ident_at(t, pos + render_expr(e, w).len()),
    ensures
        p_or(t, pos) == Ok::<(Expr, int), ParseError>((e, pos + render_expr(e, w).len())),
{
    lemma_parse_rendered(t, pos, e, w);
    lemma_render_expr_len(e, w);
    let p = pos + render_expr(e, w).len();
    assert(and_rest(t, p, e) == Ok::<(Expr, int), ParseError>((e, p)));
    assert(or_rest(t, p, e) == Ok::<(Expr, int), ParseError>((e, p)));
}

/// Position `p` ends a clause slot: the tokens end there or a pipe follows.
pub open spec fn boundary(t: Seq<Token>, p: int) -> bool {
    at(t, p) is None || at(t, p) == Some(Token::Pipe)
}

proof fn lemma_holds_split(t: Seq<Token>, pos: int, a: Seq<Token>, b: Seq<Token>)
    requires
        holds_at(t, pos, a + b),
    ensures
        holds_at(t, pos, a),
        holds_at(t, pos + a.len(), b),
{
    assert forall|i: int| 0 <= i < a.len() implies t[pos + i] == #[trigger] a[i] by {
        assert((a + b)[i] == a[i]);
    }
    assert forall|i: int| 0 <= i < b.len() implies t[pos + a.len() + i] == #[trigger] b[i] by {
        assert((a + b)[a.len() + i] == b[i]);
        assert(t[pos + (a.len() + i)] == (a + b)[a.len() + i]);
    }
}

proof fn lemma_names_len(names: Seq<String>)
    ensures
        render_names(names).len() == 2 * names.len(),
    decreases names.len(),
{
    if names.len() > 0 {
        lemma_names_len(names.drop_last());
    }
}

/// The rendered names are read back by the `show` clause, in order.
proof fn lemma_show_rendered(t: Seq<Token>, pos: int, names: Seq<String>, acc: Seq<String>)
    requires
        holds_at(t, pos, render_names(names)),
    ensures
        show_fields(t, pos, acc) == show_fields(t, pos + render_names(names).len(), acc + names),
    decreases names.len(),
{
    if names.len() == 0 {
        assert(acc + names =~= acc);
    } else {
        let init = names.drop_last();
        lemma_holds_split(t, pos, render_names(init), seq![Token::Ident(names.last()), Token::Comma]);
        lemma_show_rendered(t, pos, init, acc);
        let p = pos + render_names(init).len();
        assert(t[p + 0] == seq![Token::Ident(names.last()), Token::Comma][0]);
        assert(t[p + 1] == seq![Token::Ident(names.last()), Token::Comma][1]);
        assert((acc + init).push(names.last()) =~= acc + names);
        assert(render_names(names).len() == render_names(init).len() + 2);
        assert(show_fields(t, p, acc + init) == show_fields(t, p + 1, (acc + init).push(names.last())));
        assert(show_fields(t, p + 1, acc + names) == show_fields(t, p + 2, acc + names));
    }
}

/// One clause slot of the rendering is read back into the query.
proof fn lemma_slot_filter(t: Seq<Token>, pos: int, qv: QueryView, w: Words, f: Option<Expr>)
    requires
        words_ok(w),
        f matches Some(e) ==> renderable(e),
        holds_at(t, pos, slot(render_filter(f, w))),
        boundary(t, pos + slot(render_filter(f, w)).len()),
    ensures
        clauses(t, pos, qv) == clauses(
            t,
            pos + slot(render_filter(f, w)).len(),
            match f {
                Some(e) => QueryView { filter: Some(e), ..qv },
                None => qv,
            },
        ),
{
    let c = render_filter(f, w);
    lemma_holds_split(t, pos, seq![Token::Pipe], c);
    assert(t[pos + 0] == seq![Token::Pipe][0]);
    assert(clauses(t, pos, qv) == clauses(t, pos + 1, qv));
    if let Some(e) = f {
        lemma_holds_split(t, pos + 1, seq![Token::Filter], render_expr(e, w));
        assert(t[pos + 1 + 0] == seq![Token::Filter][0]);
        let end = pos + 2 + render_expr(e, w).len();
        assert(end == pos + slot(c).len());
        assert(no_ident_at(t, end));
        lemma_parse_rendered_filter(t, pos + 2, e, w);
        assert(p_or(t, pos + 2) == Ok::<(Expr, int), ParseError>((e, end)));
        assert(clauses(t, pos + 1, qv) == clauses(t, end, QueryView { filter: Some(e), ..qv }));
    }
}

proof fn lemma_slot_show(t: Seq<Token>, pos: int, qv: QueryView, show: Seq<String>)
    requires
        holds_at(t, pos, slot(render_show(show))),
        boundary(t, pos + slot(render_show(show)).len()),
    ensures
        clauses(t, pos, qv) == clauses(
            t,
            pos + slot(render_show(show)).len(),
            if show.len() == 0 {
                qv
            } else {
                QueryView { show, ..qv }
            },
        ),
{
    let c = render_show(show);
    lemma_holds_split(t, pos, seq![Token::Pipe], c);
    assert(t[pos + 0] == seq![Token::Pipe][0]);
    assert(clauses(t, pos, qv) == clauses(t, pos + 1, qv));
    if show.len() > 0 {
        lemma_holds_split(t, pos + 1, seq![Token::Show], render_names(show));
        assert(t[pos + 1 + 0] == seq![Token::Show][0]);
        lemma_show_rendered(t, pos + 2, show, seq![]);
        assert(seq![] + show =~= show);
        lemma_names_len(show);
        let e = pos + 2 + render_names(show).len();
        assert(e == pos + slot(render_show(show)).len());
        assert(show_fields(t, e, show) == (show, e));
        assert(show_fields(t, pos + 2, seq![]) == (show, e));
        assert(clauses(t, pos + 1, qv) == clauses(t, e, QueryView { show, ..qv }));
    }
}

proof fn lemma_slot_sort(t: Seq<Token>, pos: int, qv: QueryView, w: Words, s: Option<Sort>)
    requires
        words_ok(w),
        holds_at(t, pos, slot(render_sort(s, w))),
        boundary(t, pos + slot(render_sort(s, w)).len()),
    ensures
        clauses(t, pos, qv) == clauses(
            t,
            pos + slot(render_sort(s, w)).len(),
            match s {
                Some(s) => QueryView { sort: Some(s), ..qv },
                None => qv,
            },
        ),
{
    let c = render_sort(s, w);
    lemma_holds_split(t, pos, seq![Token::Pipe], c);
    assert(t[pos + 0] == seq![Token::Pipe][0]);
    assert(clauses(t, pos, qv) == clauses(t, pos + 1, qv));
    if let Some(so) = s {
        assert(t[pos + 1 + 0] == c[0]);
        assert(t[pos + 1 + 1] == c[1]);
        assert(t[pos + 1 + 2] == c[2]);
        lemma_words_differ(w);
        reveal_strlit("asc");
        reveal_strlit("desc");
        if so.direction == SortDirection::Desc {
            assert(t[pos + 1 + 3] == c[3]);
            assert(crate::parser::p_sort(t, pos + 2) == Ok::<(Sort, int), ParseError>((so, pos + 5)));
        } else {
            assert(crate::parser::p_sort(t, pos + 2) == Ok::<(Sort, int), ParseError>((so, pos + 4)));
        }
        assert(clauses(t, pos + 1, qv) == clauses(t, pos + 1 + c.len(), QueryView { sort: Some(so), ..qv }));
    }
}

proof fn lemma_slot_cap(t: Seq<Token>, pos: int, qv: QueryView, cap: Option<usize>)
    requires
        cap matches Some(n) ==> n <= i64::MAX,
        holds_at(t, pos, slot(render_cap(cap))),
        boundary(t, pos + slot(render_cap(cap)).len()),
    ensures
        clauses(t, pos, qv) == clauses(
            t,
            pos + slot(render_cap(cap)).len(),
            match cap {
                Some(n) => QueryView { cap: Some(n), ..qv },
                None => qv,
            },
        ),
{
    let c = render_cap(cap);
    lemma_holds_split(t, pos, seq![Token::Pipe], c);
    assert(t[pos + 0] == seq![Token::Pipe][0]);
    assert(clauses(t, pos, qv) == clauses(t, pos + 1, qv));
    if let Some(n) = cap {
        assert(t[pos + 1 + 0] == c[0]);
        assert(t[pos + 1 + 1] == c[1]);
        assert((n as i64) as usize == n);
        assert(crate::parser::p_cap(t, pos + 2) == Ok::<(usize, int), ParseError>((n, pos + 3)));
        assert(clauses(t, pos + 1, qv) == clauses(t, pos + 3, QueryView { cap: Some(n), ..qv }));
    }
}

proof fn lemma_slot_map(t: Seq<Token>, pos: int, qv: QueryView, w: Words, m: Option<(String, Expr)>)
    requires
        words_ok(w),
        m matches Some((_, e)) ==> renderable(e),
        holds_at(t, pos, slot(render_map(m, w))),
        boundary(t, pos + slot(render_map(m, w)).len()),
    ensures
        clauses(t, pos, qv) == clauses(
            t,
            pos + slot(render_map(m, w)).len(),
            match m {
                Some(m) => QueryView { map: Some(m), ..qv },
                None => qv,
            },
        ),
{
    let c = render_map(m, w);
    lemma_holds_split(t, pos, seq![Token::Pipe], c);
    assert(t[pos + 0] == seq![Token::Pipe][0]);
    assert(clauses(t, pos, qv) == clauses(t, pos + 1, qv));
    if let Some((name, e)) = m {
        let head = seq![Token::MapKw, Token::Ident(name), Token::Assign];
        lemma_holds_split(t, pos + 1, head, render_expr(e, w));
        assert(t[pos + 1 + 0] == head[0]);
        assert(t[pos + 1 + 1] == head[1]);
        assert(t[pos + 1 + 2] == head[2]);
        lemma_parse_rendered(t, pos + 4, e, w);
        lemma_render_expr_len(e, w);
        let end = pos + 4 + render_expr(e, w).len();
        assert(end == pos + slot(c).len());
        assert(crate::parser::p_map(t, pos + 2) == Ok::<((String, Expr), int), ParseError>(((name, e), end)));
        assert(clauses(t, pos + 1, qv) == clauses(t, end, QueryView { map: Some((name, e)), ..qv }));
    }
}

proof fn lemma_slot_unique(t: Seq<Token>, pos: int, qv: QueryView, u: bool)
    requires
        holds_at(t, pos, slot(render_unique(u))),
        boundary(t, pos + slot(render_unique(u)).len()),
    ensures
        clauses(t, pos, qv) == clauses(
            t,
            pos + slot(render_unique(u)).len(),
            if u {
                QueryView { unique: true, ..qv }
            } else {
                qv
            },
        ),
{
    let c = render_unique(u);
    lemma_holds_split(t, pos, seq![Token::Pipe], c);
    assert(t[pos + 0] == seq![Token::Pipe][0]);
    assert(clauses(t, pos, qv) == clauses(t, pos + 1, qv));
    if u {
        assert(t[pos + 1 + 0] == c[0]);
        assert(clauses(t, pos + 1, qv) == clauses(t, pos + 2, QueryView { unique: true, ..qv }));
    }
}

/// The slots of the canonical tokens and where each starts.
proof fn lemma_render_layout(q: QueryView, w: Words)
    ensures
        ({
            let t = render_query(q, w);
            let sf = slot(render_filter(q.filter, w));
            let ss = slot(render_show(q.show));
            let so = slot(render_sort(q.sort, w));
            let sc = slot(render_cap(q.cap));
            let sm = slot(render_map(q.map, w));
            let su = slot(render_unique(q.unique));
            let at1: int = 2 + sf.len() as int;
            let at2: int = at1 + ss.len() as int;
            let at3: int = at2 + so.len() as int;
            let at4: int = at3 + sc.len() as int;
            let at5: int = at4 + sm.len() as int;
            &&& at(t, 0) == Some(Token::Source)
            &&& at(t, 1) == Some(Token::StringLiteral(q.source))
            &&& holds_at(t, 2, sf)
            &&& holds_at(t, at1, ss)
            &&& holds_at(t, at2, so)
            &&& holds_at(t, at3, sc)
            &&& holds_at(t, at4, sm)
            &&& holds_at(t, at5, su)
            &&& boundary(t, at1)
            &&& boundary(t, at2)
            &&& boundary(t, at3)
            &&& boundary(t, at4)
            &&& boundary(t, at5)
            &&& boundary(t, at5 + su.len() as int)
            &&& at5 + su.len() == t.len()
        }),
{
    let t = render_query(q, w);
    let h = seq![Token::Source, Token::StringLiteral(q.source)];
    let sf = slot(render_filter(q.filter, w));
    let ss = slot(render_show(q.show));
    let so = slot(render_sort(q.sort, w));
    let sc = slot(render_cap(q.cap));
    let sm = slot(render_map(q.map, w));
    let su = slot(render_unique(q.unique));
    let a1 = h + sf;
    let a2 = a1 + ss;
    let a3 = a2 + so;
    let a4 = a3 + sc;
    let a5 = a4 + sm;
    assert(t == a5 + su);
    assert(holds_at(t, 0, t));
    lemma_holds_split(t, 0, a5, su);
    lemma_holds_split(t, 0, a4, sm);
    lemma_holds_split(t, 0, a3, sc);
    lemma_holds_split(t, 0, a2, so);
    lemma_holds_split(t, 0, a1, ss);
    lemma_holds_split(t, 0, h, sf);
    assert(t[0int + 0] == h[0]);
    assert(t[0int + 1] == h[1]);
    assert(t[a1.len() as int + 0] == ss[0]);
    assert(t[a2.len() as int + 0] == so[0]);
    assert(t[a3.len() as int + 0] == sc[0]);
    assert(t[a4.len() as int + 0] == sm[0]);
    assert(t[a5.len() as int + 0] == su[0]);
}

/// Parsing the canonical tokens of a query gives the query back.
#[verifier::rlimit(100)]
pub proof fn round_trip(q: QueryView, w: Words)
    requires
        query_renderable(q),
        words_ok(w),
    ensures
        parse_spec(render_query(q, w)) == Ok::<QueryView, ParseError>(q),
{
    lemma_render_layout(q, w);
    let t = render_query(q, w);
    let at1: int = 2 + slot(render_filter(q.filter, w)).len() as int;
    let at2: int = at1 + slot(render_show(q.show)).len() as int;
    let at3: int = at2 + slot(render_sort(q.sort, w)).len() as int;
    let at4: int = at3 + slot(render_cap(q.cap)).len() as int;
    let at5: int = at4 + slot(render_map(q.map, w)).len() as int;
    let at6: int = at5 + slot(render_unique(q.unique)).len() as int;
    let q0 = bare_query(q.source);
    let q1 = match q.filter {
        Some(e) => QueryView { filter: Some(e), ..q0 },
        None => q0,
    };
    let q2 = if q.show.len() == 0 {
        q1
    } else {
        QueryView { show: q.show, ..q1 }
    };
    let q3 = match q.sort {
        Some(s) => QueryView { sort: Some(s), ..q2 },
        None => q2,
    };
    let q4 = match q.cap {
        Some(n) => QueryView { cap: Some(n), ..q3 },
        None => q3,
    };
    let q5 = match q.map {
        Some(m) => QueryView { map: Some(m), ..q4 },
        None => q4,
    };
    let q6 = if q.unique {
        QueryView { unique: true, ..q5 }
    } else {
        q5
    };
    lemma_slot_filter(t, 2, q0, w, q.filter);
    lemma_slot_show(t, at1, q1, q.show);
    lemma_slot_sort(t, at2, q2, w, q.sort);
    lemma_slot_cap(t, at3, q3, q.cap);
    lemma_slot_map(t, at4, q4, w, q.map);
    lemma_slot_unique(t, at5, q5, q.unique);
    assert(clauses(t, 2, q0) == clauses(t, at6, q6));
    assert(q6 == q) by {
        assert(q.show.len() == 0 ==> q.show =~= Seq::<String>::empty());
    }
    assert(clauses(t, at6, q) == Ok::<(QueryView, int), ParseError>((q, at6))) by {
        assert(at(t, at6) is None);
    }
    assert(p_query(t, 0) == clauses(t, 2, q0));
}

// ---------------------------------------------------------------------------
// Clauses in any order

/// The kinds of clause.
pub enum ClauseKind {
    Filter,
    Show,
    Sort,
    Cap,
    Derive,
    Unique,
}

/// The slot of `q`'s clause of kind `c`.
pub open spec fn slot_of(q: QueryView, w: Words, c: ClauseKind) -> Seq<Token> {
    match c {
        ClauseKind::Filter => slot(render_filter(q.filter, w)),
        ClauseKind::Show => slot(render_show(q.show)),
        ClauseKind::Sort => slot(render_sort(q.sort, w)),
        ClauseKind::Cap => slot(render_cap(q.cap)),
        ClauseKind::Derive => slot(render_map(q.map, w)),
        ClauseKind::Unique => slot(render_unique(q.unique)),
    }
}

/// The slots of `q`'s clauses in the order `order`.
pub open spec fn render_slots(q: QueryView, w: Words, order: Seq<ClauseKind>) -> Seq<Token>
    decreases order.len(),
{
    if order.len() == 0 {
        seq![]
    } else {
        render_slots(q, w, order.drop_last()) + slot_of(q, w, order.last())
    }
}

/// The tokens of `q` with its clauses in the order `order`.
pub open spec fn render_in_order(q: QueryView, w: Words, order: Seq<ClauseKind>) -> Seq<Token> {
    seq![Token::Source, Token::StringLiteral(q.source)] + render_slots(q, w, order)
}

/// `q` with only the clauses of the kinds in `done`.
pub open spec fn with_clauses(q: QueryView, done: Set<ClauseKind>) -> QueryView {
    QueryView {
        source: q.source,
        filter: if done.contains(ClauseKind::Filter) {
            q.filter
        } else {
            None
        },
        show: if done.contains(ClauseKind::Show) {
            q.show
        } else {
            seq![]
        },
        sort: if done.contains(ClauseKind::Sort) {
            q.sort
        } else {
            None
        },
        cap: if done.contains(ClauseKind::Cap) {
            q.cap
        } else {
            None
        },
        map: if done.contains(ClauseKind::Derive) {
            q.map
        } else {
            None
        },
        unique: done.contains(ClauseKind::Unique) && q.unique,
    }
}

proof fn lemma_slot_any(t: Seq<Token>, pos: int, q: QueryView, w: Words, c: ClauseKind, done: Set<ClauseKind>)
    requires
        query_renderable(q),
        words_ok(w),
        !done.contains(c),
        holds_at(t, pos, slot_of(q, w, c)),
        boundary(t, pos + slot_of(q, w, c).len()),
    ensures
        clauses(t, pos, with_clauses(q, done)) == clauses(
            t,
            pos + slot_of(q, w, c).len(),
            with_clauses(q, done.insert(c)),
        ),
{
    let qv = with_clauses(q, done);
    let after = with_clauses(q, done.insert(c));
    match c {
        ClauseKind::Filter => {
            lemma_slot_filter(t, pos, qv, w, q.filter);
            assert(after == (match q.filter {
                Some(e) => QueryView { filter: Some(e), ..qv },
                None => qv,
            }));
        },
        ClauseKind::Show => {
            lemma_slot_show(t, pos, qv, q.show);
            assert(q.show.len() == 0 ==> q.show =~= Seq::<String>::empty());
            assert(after == (if q.show.len() == 0 {
                qv
            } else {
                QueryView { show: q.show, ..qv }
            }));
        },
        ClauseKind::Sort => {
            lemma_slot_sort(t, pos, qv, w, q.sort);
            assert(after == (match q.sort {
                Some(s) => QueryView { sort: Some(s), ..qv },
                None => qv,
            }));
        },
        ClauseKind::Cap => {
            lemma_slot_cap(t, pos, qv, q.cap);
            assert(after == (match q.cap {
                Some(n) => QueryView { cap: Some(n), ..qv },
                None => qv,
            }));
        },
        ClauseKind::Derive => {
            lemma_slot_map(t, pos, qv, w, q.map);
            assert(after == (match q.map {
                Some(m) => QueryView { map: Some(m), ..qv },
                None => qv,
            }));
        },
        ClauseKind::Unique => {
            lemma_slot_unique(t, pos, qv, q.unique);
            assert(after == (if q.unique {
                QueryView { unique: true, ..qv }
            } else {
                qv
            }));
        },
    }
}

proof fn lemma_slots(t: Seq<Token>, pos: int, q: QueryView, w: Words, order: Seq<ClauseKind>)
    requires
        query_renderable(q),
        words_ok(w),
        order.no_duplicates(),
        holds_at(t, pos, render_slots(q, w, order)),
        boundary(t, pos + render_slots(q, w, order).len()),
    ensures
        clauses(t, pos, with_clauses(q, Set::empty())) == clauses(
            t,
            pos + render_slots(q, w, order).len(),
            with_clauses(q, order.to_set()),
        ),
    decreases order.len(),
{
    if order.len() == 0 {
        assert(order.to_set() =~= Set::<ClauseKind>::empty());
    } else {
        let init = order.drop_last();
        let c = order.last();
        let r0 = render_slots(q, w, init);
        let sc = slot_of(q, w, c);
        lemma_holds_split(t, pos, r0, sc);
        assert(sc[0] == Token::Pipe);
        assert(t[pos + r0.len() + 0] == sc[0]);
        assert(init.no_duplicates());
        lemma_slots(t, pos, q, w, init);
        assert(!init.to_set().contains(c)) by {
            if init.to_set().contains(c) {
                let k = choose|k: int| 0 <= k < init.len() && init[k] == c;
                assert(order[k] == order[order.len() - 1]);
            }
        }
        lemma_slot_any(t, pos + r0.len(), q, w, c, init.to_set());
        assert(init.to_set().insert(c) =~= order.to_set()) by {
            assert forall|x: ClauseKind| order.to_set().contains(x) implies init.to_set().insert(c).contains(x) by {
                let k = choose|k: int| 0 <= k < order.len() && order[k] == x;
                if k < order.len() - 1 {
                    assert(init[k] == x);
                }
            }
            assert forall|x: ClauseKind| init.to_set().insert(c).contains(x) implies order.to_set().contains(x) by {
                if x != c {
                    let k = choose|k: int| 0 <= k < init.len() && init[k] == x;
                    assert(order[k] == x);
                }
                assert(order[order.len() - 1] == c);
            }
        }
    }
}

/// The clauses of a query may come in any order: with its clause slots in
/// any order that lists each kind of clause once, the canonical tokens of a
/// query still parse to that query.
pub proof fn clause_order_is_free(q: QueryView, w: Words, order: Seq<ClauseKind>)
    requires
        query_renderable(q),
        words_ok(w),
        order.no_duplicates(),
        order.contains(ClauseKind::Filter),
        order.contains(ClauseKind::Show),
        order.contains(ClauseKind::Sort),
        order.contains(ClauseKind::Cap),
        order.contains(ClauseKind::Derive),
        order.contains(ClauseKind::Unique),
    ensures
        parse_spec(render_in_order(q, w, order)) == Ok::<QueryView, ParseError>(q),
{
    let t = render_in_order(q, w, order);
    let h = seq![Token::Source, Token::StringLiteral(q.source)];
    let rs = render_slots(q, w, order);
    assert(holds_at(t, 0, t));
    lemma_holds_split(t, 0, h, rs);
    assert(t[0int + 0] == h[0]);
    assert(t[0int + 1] == h[1]);
    let end: int = 2 + rs.len() as int;
    assert(end == t.len());
    lemma_slots(t, 2, q, w, order);
    assert(with_clauses(q, Set::empty()) == crate::parser::bare_query(q.source));
    assert(order.to_set().contains(ClauseKind::Filter));
    assert(order.to_set().contains(ClauseKind::Show));
    assert(order.to_set().contains(ClauseKind::Sort));
    assert(order.to_set().contains(ClauseKind::Cap));
    assert(order.to_set().contains(ClauseKind::Derive));
    assert(order.to_set().contains(ClauseKind::Unique));
    assert(with_clauses(q, order.to_set()) == q);
    assert(clauses(t, end, q) == Ok::<(QueryView, int), ParseError>((q, end)));
    assert(p_query(t, 0) == crate::parser::at_end(t, clauses(t, 2, crate::parser::bare_query(q.source))));
}

// ---------------------------------------------------------------------------
// Executable rendering

fn words() -> (r: Words)
    ensures
        words_ok(r),
{
    Words { and: "and".to_owned(), or: "or".to_owned(), desc: "desc".to_owned() }
}

fn literal_to_token(v: &Value) -> (r: Token)
    ensures
        r == literal_token(*v),
{
    match v {
        Value::String(s) => Token::StringLiteral(s.clone()),
        Value::Number(n) => Token::Number(*n),
        Value::Float(d) => Token::Float(*d),
        Value::Bool(b) => if *b {
            Token::True
        } else {
            Token::False
        },
    }
}

fn push_comparison(out: &mut Vec<Token>, c: &String, op: Token, v: &Value)
    ensures
        final(out)@ == old(out)@ + seq![Token::Ident(*c), op, literal_token(*v)],
{
    let ghost start = out@;
    out.push(Token::Ident(c.clone()));
    out.push(op);
    out.push(literal_to_token(v));
    assert(out@ =~= start + seq![Token::Ident(*c), op, literal_token(*v)]);
}

fn render_expr_into(out: &mut Vec<Token>, e: &Expr, w: &Words)
    ensures
        final(out)@ == old(out)@ + render_expr(*e, *w),
    decreases e,
{
    match e {
        Expr::Eq(c, v) => push_comparison(out, c, Token::Eq, v),
        Expr::NotEq(c, v) => push_comparison(out, c, Token::NotEq, v),
        Expr::Gt(c, v) => push_comparison(out, c, Token::Gt, v),
        Expr::Lt(c, v) => push_comparison(out, c, Token::Lt, v),
        Expr::Gte(c, v) => push_comparison(out, c, Token::Gte, v),
        Expr::Lte(c, v) => push_comparison(out, c, Token::Lte, v),
        Expr::And(l, r) | Expr::Or(l, r) => {
            let ghost start = out@;
            let word = if matches!(e, Expr::And(_, _)) {
                w.and.clone()
            } else {
                w.or.clone()
            };
            out.push(Token::LParen);
            render_expr_into(out, l, w);
            out.push(Token::Ident(word));
            render_expr_into(out, r, w);
            out.push(Token::RParen);
            assert(out@ =~= start + render_expr(*e, *w));
        },
        Expr::MapExpr(_, _) => {
            assert(out@ =~= out@ + render_expr(*e, *w));
        },
    }
}

fn render_names_into(out: &mut Vec<Token>, names: &Vec<String>)
    ensures
        final(out)@ == old(out)@ + render_names(names@),
{
    let ghost start = out@;
    let mut i: usize = 0;
    assert(names@.subrange(0, 0) =~= Seq::<String>::empty());
    assert(out@ =~= start + render_names(names@.subrange(0, 0)));
    while i < names.len()
        invariant
            i <= names@.len(),
            out@ == start + render_names(names@.subrange(0, i as int)),
        decreases names@.len() - i,
    {
        assert(names@.subrange(0, i + 1).drop_last() =~= names@.subrange(0, i as int));
        out.push(Token::Ident(names[i].clone()));
        out.push(Token::Comma);
        i += 1;
        assert(out@ =~= start + render_names(names@.subrange(0, i as int)));
    }
    assert(names@.subrange(0, names@.len() as int) =~= names@);
}

fn filter_slot(out: &mut Vec<Token>, f: &Option<Expr>, w: &Words)
    ensures
        final(out)@ == old(out)@ + slot(render_filter(*f, *w)),
{
    let ghost start = out@;
    out.push(Token::Pipe);
    match f {
        Some(e) => {
            out.push(Token::Filter);
            render_expr_into(out, e, w);
        },
        None => {},
    }
    assert(out@ =~= start + slot(render_filter(*f, *w)));
}

fn show_slot(out: &mut Vec<Token>, show: &Vec<String>)
    ensures
        final(out)@ == old(out)@ + slot(render_show(show@)),
{
    let ghost start = out@;
    out.push(Token::Pipe);
    if show.len() > 0 {
        out.push(Token::Show);
        render_names_into(out, show);
    }
    assert(out@ =~= start + slot(render_show(show@)));
}

fn sort_slot(out: &mut Vec<Token>, s: &Option<Sort>, w: &Words)
    ensures
        final(out)@ == old(out)@ + slot(render_sort(*s, *w)),
{
    let ghost start = out@;
    out.push(Token::Pipe);
    match s {
        Some(s) => {
            out.push(Token::Sort);
            out.push(Token::By);
            out.push(Token::Ident(s.column.clone()));
            if s.direction == SortDirection::Desc {
                out.push(Token::Ident(w.desc.clone()));
            }
        },
        None => {},
    }
    assert(out@ =~= start + slot(render_sort(*s, *w)));
}

fn cap_slot(out: &mut Vec<Token>, cap: Option<usize>)
    ensures
        final(out)@ == old(out)@ + slot(render_cap(cap)),
{
    let ghost start = out@;
    out.push(Token::Pipe);
    match cap {
        Some(n) => {
            out.push(Token::Cap);
            out.push(Token::Number(n as i64));
        },
        None => {},
    }
    assert(out@ =~= start + slot(render_cap(cap)));
}

fn map_slot(out: &mut Vec<Token>, m: &Option<(String, Expr)>, w: &Words)
    ensures
        final(out)@ == old(out)@ + slot(render_map(*m, *w)),
{
    let ghost start = out@;
    out.push(Token::Pipe);
    match m {
        Some((name, e)) => {
            out.push(Token::MapKw);
            out.push(Token::Ident(name.clone()));
            out.push(Token::Assign);
            render_expr_into(out, e, w);
        },
        None => {},
    }
    assert(out@ =~= start + slot(render_map(*m, *w)));
}

fn unique_slot(out: &mut Vec<Token>, u: bool)
    ensures
        final(out)@ == old(out)@ + slot(render_unique(u)),
{
    let ghost start = out@;
    out.push(Token::Pipe);
    if u {
        out.push(Token::Unique);
    }
    assert(out@ =~= start + slot(render_unique(u)));
}

/// The canonical tokens of a query: `source` and its string, then a pipe
/// before each clause slot, in the order filter, show, sort, cap, map and
/// unique. Parsing them gives the query back whenever its expressions hold
/// no tagged map expression and its cap fits a literal.
pub fn render_tokens(q: &Query) -> (r: Vec<Token>)
    ensures
        exists|w: Words| words_ok(w) && r@ == render_query(q@, w),
        query_renderable(q@) ==> parse_spec(r@) == Ok::<QueryView, ParseError>(q@),
{
    let w = words();
    let mut out: Vec<Token> = Vec::new();
    out.push(Token::Source);
    out.push(Token::StringLiteral(q.source.clone()));
    assert(out@ =~= seq![Token::Source, Token::StringLiteral(q.source)]);
    filter_slot(&mut out, &q.filter, &w);
    show_slot(&mut out, &q.show);
    sort_slot(&mut out, &q.sort, &w);
    cap_slot(&mut out, q.cap);
    map_slot(&mut out, &q.map, &w);
    unique_slot(&mut out, q.unique);
    assert(out@ == render_query(q@, w));
    proof {
        if query_renderable(q@) {
            round_trip(q@, w);
        }
    }
    out
}

} // verus!
