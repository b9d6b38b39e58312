//! Parsing depends on the tokens only through their views: two token
//! sequences that look the same fail with the same error, or succeed at the
//! same position.
use vstd::prelude::*;
use crate::ast::QueryView;
use crate::lexer::{views, Token};
use crate::parser::{
    and_rest, at, clauses, comparison_op, found_text, is_clause_start, is_word, literal, or_rest,
    p_and, p_cap, p_comparison, p_map, p_or, p_query, p_sort, parse_spec, show_fields, Parsed,
};

verus! {

/// Both outcomes fail with the same error, or both succeed at the same position.
pub open spec fn agree<A, B>(r1: Parsed<A>, r2: Parsed<B>) -> bool {
    match (r1, r2) {
        (Ok((_, p)), Ok((_, q))) => p == q,
        (Err(e), Err(f)) => e == f,
        _ => false,
    }
}

proof fn lemma_same_at(t1: Seq<Token>, t2: Seq<Token>, p: int)
    requires
        views(t1) == views(t2),
    ensures
        t1.len() == t2.len(),
        at(t1, p) is None <==> at(t2, p) is None,
        (at(t1, p) == Some(Token::LParen)) == (at(t2, p) == Some(Token::LParen)),
        (at(t1, p) == Some(Token::RParen)) == (at(t2, p) == Some(Token::RParen)),
        (at(t1, p) == Some(Token::By)) == (at(t2, p) == Some(Token::By)),
        (at(t1, p) == Some(Token::Assign)) == (at(t2, p) == Some(Token::Assign)),
        (at(t1, p) == Some(Token::Source)) == (at(t2, p) == Some(Token::Source)),
        (at(t1, p) == Some(Token::Filter)) == (at(t2, p) == Some(Token::Filter)),
        (at(t1, p) == Some(Token::Show)) == (at(t2, p) == Some(Token::Show)),
        (at(t1, p) == Some(Token::Sort)) == (at(t2, p) == Some(Token::Sort)),
        (at(t1, p) == Some(Token::Cap)) == (at(t2, p) == Some(Token::Cap)),
        (at(t1, p) == Some(Token::MapKw)) == (at(t2, p) == Some(Token::MapKw)),
        (at(t1, p) == Some(Token::Unique)) == (at(t2, p) == Some(Token::Unique)),
        (at(t1, p) == Some(Token::Pipe)) == (at(t2, p) == Some(Token::Pipe)),
        (at(t1, p) matches Some(Token::Ident(_))) == (at(t2, p) matches Some(Token::Ident(_))),
        (at(t1, p) matches Some(Token::Comma)) == (at(t2, p) matches Some(Token::Comma)),
        (at(t1, p) matches Some(Token::StringLiteral(_))) == (at(t2, p) matches Some(
            Token::StringLiteral(_),
        )),
        at(t1, p) matches Some(Token::Number(n)) ==> at(t2, p) == Some(Token::Number(n)),
        forall|w: Seq<char>| is_word(at(t1, p), w) == is_word(at(t2, p), w),
        comparison_op(at(t1, p)) == comparison_op(at(t2, p)),
        found_text(t1, p) == found_text(t2, p),
        is_clause_start(at(t1, p)) == is_clause_start(at(t2, p)),
        literal(t1, p) is Ok <==> literal(t2, p) is Ok,
        literal(t1, p) is Err ==> literal(t1, p) == literal(t2, p),
{
    assert(t1.len() == views(t1).len());
    assert(t2.len() == views(t2).len());
    if 0 <= p < t1.len() {
        assert(views(t1)[p] == t1[p]@);
        assert(views(t2)[p] == t2[p]@);
        let (a, b) = (t1[p], t2[p]);
        assert(a@ == b@);
        match a {
            Token::Ident(s) => {
                assert(b matches Token::Ident(_));
            },
            Token::StringLiteral(s) => {
                assert(b matches Token::StringLiteral(_));
            },
            _ => {},
        }
    }
}

proof fn lemma_cmp(t1: Seq<Token>, t2: Seq<Token>, pos: int)
    requires
        views(t1) == views(t2),
    ensures
        agree(p_comparison(t1, pos), p_comparison(t2, pos)),
    decreases t1.len() - pos, 0nat,
{
    lemma_same_at(t1, t2, pos);
    lemma_same_at(t1, t2, pos + 1);
    lemma_same_at(t1, t2, pos + 2);
    if at(t1, pos) == Some(Token::LParen) {
        lemma_or(t1, t2, pos + 1);
        if let Ok((_, p)) = p_or(t1, pos + 1) {
            lemma_same_at(t1, t2, p);
        }
    }
}

proof fn lemma_and_rest(t1: Seq<Token>, t2: Seq<Token>, p: int, l1: crate::ast::Expr, l2: crate::ast::Expr)
    requires
        views(t1) == views(t2),
    ensures
        agree(and_rest(t1, p, l1), and_rest(t2, p, l2)),
    decreases t1.len() - p, 3nat,
{
    lemma_same_at(t1, t2, p);
    if is_word(at(t1, p), "and"@) {
        lemma_cmp(t1, t2, p + 1);
        match (p_comparison(t1, p + 1), p_comparison(t2, p + 1)) {
            (Ok((r1, q)), Ok((r2, _))) => {
                if p < q <= t1.len() {
                    lemma_and_rest(
                        t1,
                        t2,
                        q,
                        crate::ast::Expr::And(Box::new(l1), Box::new(r1)),
                        crate::ast::Expr::And(Box::new(l2), Box::new(r2)),
                    );
                }
            },
            _ => {},
        }
    }
}

proof fn lemma_and(t1: Seq<Token>, t2: Seq<Token>, pos: int)
    requires
        views(t1) == views(t2),
    ensures
        agree(p_and(t1, pos), p_and(t2, pos)),
    decreases t1.len() - pos, 1nat,
{
    lemma_same_at(t1, t2, pos);
    lemma_cmp(t1, t2, pos);
    match (p_comparison(t1, pos), p_comparison(t2, pos)) {
        (Ok((l1, p)), Ok((l2, _))) => {
            if pos < p <= t1.len() {
                lemma_and_rest(t1, t2, p, l1, l2);
            }
        },
        _ => {},
    }
}

proof fn lemma_or_rest(t1: Seq<Token>, t2: Seq<Token>, p: int, l1: crate::ast::Expr, l2: crate::ast::Expr)
    requires
        views(t1) == views(t2),
    ensures
        agree(or_rest(t1, p, l1), or_rest(t2, p, l2)),
    decreases t1.len() - p, 3nat,
{
    lemma_same_at(t1, t2, p);
    if is_word(at(t1, p), "or"@) {
        lemma_and(t1, t2, p + 1);
        match (p_and(t1, p + 1), p_and(t2, p + 1)) {
            (Ok((r1, q)), Ok((r2, _))) => {
                if p < q <= t1.len() {
                    lemma_or_rest(
                        t1,
                        t2,
                        q,
                        crate::ast::Expr::Or(Box::new(l1), Box::new(r1)),
                        crate::ast::Expr::Or(Box::new(l2), Box::new(r2)),
                    );
                }
            },
            _ => {},
        }
    }
}

proof fn lemma_or(t1: Seq<Token>, t2: Seq<Token>, pos: int)
    requires
        views(t1) == views(t2),
    ensures
        agree(p_or(t1, pos), p_or(t2, pos)),
    decreases t1.len() - pos, 2nat,
{
    lemma_same_at(t1, t2, pos);
    lemma_and(t1, t2, pos);
    match (p_and(t1, pos), p_and(t2, pos)) {
        (Ok((l1, p)), Ok((l2, _))) => {
            if pos < p <= t1.len() {
                lemma_or_rest(t1, t2, p, l1, l2);
            }
        },
        _ => {},
    }
}

proof fn lemma_show(t1: Seq<Token>, t2: Seq<Token>, pos: int, a1: Seq<String>, a2: Seq<String>)
    requires
        views(t1) == views(t2),
    ensures
        show_fields(t1, pos, a1).1 == show_fields(t2, pos, a2).1,
    decreases t1.len() - pos,
{
    lemma_same_at(t1, t2, pos);
    match at(t1, pos) {
        Some(Token::Ident(n1)) => {
            let n2 = at(t2, pos)->Some_0->Ident_0;
            lemma_show(t1, t2, pos + 1, a1.push(n1), a2.push(n2));
        },
        Some(Token::Comma) => {
            lemma_show(t1, t2, pos + 1, a1, a2);
        },
        _ => {},
    }
}

proof fn lemma_sort(t1: Seq<Token>, t2: Seq<Token>, pos: int)
    requires
        views(t1) == views(t2),
    ensures
        agree(p_sort(t1, pos), p_sort(t2, pos)),
{
    lemma_same_at(t1, t2, pos);
    lemma_same_at(t1, t2, pos + 1);
    lemma_same_at(t1, t2, pos + 2);
}

proof fn lemma_cap(t1: Seq<Token>, t2: Seq<Token>, pos: int)
    requires
        views(t1) == views(t2),
    ensures
        agree(p_cap(t1, pos), p_cap(t2, pos)),
{
    lemma_same_at(t1, t2, pos);
    lemma_same_at(t2, t1, pos);
}

proof fn lemma_map(t1: Seq<Token>, t2: Seq<Token>, pos: int)
    requires
        views(t1) == views(t2),
    ensures
        agree(p_map(t1, pos), p_map(t2, pos)),
{
    lemma_same_at(t1, t2, pos);
    lemma_same_at(t1, t2, pos + 1);
    lemma_cmp(t1, t2, pos + 2);
}

#[verifier::rlimit(40)]
proof fn lemma_clauses(t1: Seq<Token>, t2: Seq<Token>, pos: int, q1: QueryView, q2: QueryView)
    requires
        views(t1) == views(t2),
    ensures
        agree(clauses(t1, pos, q1), clauses(t2, pos, q2)),
    decreases t1.len() - pos,
{
    lemma_same_at(t1, t2, pos);
    match at(t1, pos) {
        Some(Token::Filter) => {
            lemma_or(t1, t2, pos + 1);
            match (p_or(t1, pos + 1), p_or(t2, pos + 1)) {
                (Ok((e1, p)), Ok((e2, _))) => if pos < p <= t1.len() {
                    lemma_clauses(t1, t2, p, QueryView { filter: Some(e1), ..q1 }, QueryView { filter: Some(e2), ..q2 });
                },
                _ => {},
            }
        },
        Some(Token::Show) => {
            lemma_show(t1, t2, pos + 1, seq![], seq![]);
            let (f1, p) = show_fields(t1, pos + 1, seq![]);
            let (f2, _) = show_fields(t2, pos + 1, seq![]);
            if pos < p <= t1.len() {
                lemma_clauses(t1, t2, p, QueryView { show: f1, ..q1 }, QueryView { show: f2, ..q2 });
            }
        },
        Some(Token::Sort) => {
            lemma_sort(t1, t2, pos + 1);
            match (p_sort(t1, pos + 1), p_sort(t2, pos + 1)) {
                (Ok((s1, p)), Ok((s2, _))) => if pos < p <= t1.len() {
                    lemma_clauses(t1, t2, p, QueryView { sort: Some(s1), ..q1 }, QueryView { sort: Some(s2), ..q2 });
                },
                _ => {},
            }
        },
        Some(Token::Cap) => {
            lemma_cap(t1, t2, pos + 1);
            match (p_cap(t1, pos + 1), p_cap(t2, pos + 1)) {
                (Ok((c1, p)), Ok((c2, _))) => if pos < p <= t1.len() {
                    lemma_clauses(t1, t2, p, QueryView { cap: Some(c1), ..q1 }, QueryView { cap: Some(c2), ..q2 });
                },
                _ => {},
            }
        },
        Some(Token::MapKw) => {
            lemma_map(t1, t2, pos + 1);
            match (p_map(t1, pos + 1), p_map(t2, pos + 1)) {
                (Ok((m1, p)), Ok((m2, _))) => if pos < p <= t1.len() {
                    lemma_clauses(t1, t2, p, QueryView { map: Some(m1), ..q1 }, QueryView { map: Some(m2), ..q2 });
                },
                _ => {},
            }
        },
        Some(Token::Unique) => {
            lemma_clauses(t1, t2, pos + 1, QueryView { unique: true, ..q1 }, QueryView { unique: true, ..q2 });
        },
        Some(Token::Pipe) => {
            lemma_clauses(t1, t2, pos + 1, q1, q2);
        },
        _ => {},
    }
}

/// Parsing two token sequences with the same views has the same outcome:
/// both succeed, or both fail with the same error, kind and message. So the
/// error of parsing a text does not depend on which tokens of it were read.
pub proof fn parse_outcome_depends_on_views(t1: Seq<Token>, t2: Seq<Token>)
    requires
        views(t1) == views(t2),
    ensures
        parse_spec(t1) is Ok <==> parse_spec(t2) is Ok,
        parse_spec(t1) is Err ==> parse_spec(t1) == parse_spec(t2),
{
    lemma_same_at(t1, t2, 0);
    lemma_same_at(t1, t2, 1);
    if at(t1, 0) == Some(Token::Source) && at(t1, 1) matches Some(Token::StringLiteral(_)) {
        let s1 = at(t1, 1)->Some_0->StringLiteral_0;
        let s2 = at(t2, 1)->Some_0->StringLiteral_0;
        lemma_clauses(t1, t2, 2, crate::parser::bare_query(s1), crate::parser::bare_query(s2));
        match clauses(t1, 2, crate::parser::bare_query(s1)) {
            Ok((_, p)) => {
                lemma_same_at(t1, t2, p);
            },
            _ => {},
        }
    }
}

} // verus!
