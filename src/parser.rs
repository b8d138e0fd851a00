use vstd::prelude::*;

use crate::error::TodoError;
use crate::expr::{model, Expr, ExprModel, Ops, OpsModel};
use crate::format::{matches_at, occurs_here};
use crate::text::{chars_of, string_of, trimmed, trimmed_text};

verus! {

/// The chars skipped around tokens.
pub open spec fn is_sep(c: char) -> bool {
    c == ' ' || c == '\t' || c == '\r' || c == '\n'
}

/// The position after the separators that start at `p`.
pub open spec fn skip_sep(s: Seq<char>, p: int) -> int
    decreases s.len() - p,
{
    if 0 <= p < s.len() && is_sep(s[p]) {
        skip_sep(s, p + 1)
    } else {
        p
    }
}

/// Some operator token starts at `p`.
pub open spec fn op_at(s: Seq<char>, p: int, o: OpsModel) -> bool {
    matches_at(s, p, o.lp) || matches_at(s, p, o.rp) || matches_at(s, p, o.or) || matches_at(
        s,
        p,
        o.and,
    ) || matches_at(s, p, o.not)
}

/// Where a value that starts at `p` ends: at the next operator token, or at
/// the end of the input.
pub open spec fn value_end(s: Seq<char>, p: int, o: OpsModel) -> int
    decreases s.len() - p,
{
    if p < 0 || p >= s.len() || op_at(s, p, o) {
        p
    } else {
        value_end(s, p + 1, o)
    }
}

/// No operator token is empty.
pub open spec fn ops_ok(o: OpsModel) -> bool {
    o.lp.len() > 0 && o.rp.len() > 0 && o.or.len() > 0 && o.and.len() > 0 && o.not.len() > 0
}

pub proof fn lemma_skip_sep(s: Seq<char>, p: int)
    requires
        0 <= p <= s.len(),
    ensures
        p <= skip_sep(s, p) <= s.len(),
    decreases s.len() - p,
{
    if p < s.len() && is_sep(s[p]) {
        lemma_skip_sep(s, p + 1);
    }
}

pub proof fn lemma_value_end(s: Seq<char>, p: int, o: OpsModel)
    requires
        0 <= p <= s.len(),
    ensures
        p <= value_end(s, p, o) <= s.len(),
    decreases s.len() - p,
{
    if p < s.len() && !op_at(s, p, o) {
        lemma_value_end(s, p + 1, o);
    }
}

/// An expression: terms joined by the OR token, grouped to the left. Gives
/// the expression and the position after it.
pub open spec fn p_expr(s: Seq<char>, o: OpsModel, p: int) -> (ExprModel, int)
    decreases s.len() - p, 4int,
    when 0 <= p <= s.len() && ops_ok(o)
{
    let (t, q) = p_term(s, o, p);
    if p <= q <= s.len() {
        p_or_rest(s, o, t, q)
    } else {
        (t, q)
    }
}

/// The OR chain that follows `acc` at `p`.
pub open spec fn p_or_rest(s: Seq<char>, o: OpsModel, acc: ExprModel, p: int) -> (ExprModel, int)
    decreases s.len() - p, 3int,
    when 0 <= p <= s.len() && ops_ok(o)
{
    if matches_at(s, p, o.or) {
        let (t, q) = p_term(s, o, p + o.or.len());
        if p + o.or.len() <= q <= s.len() {
            p_or_rest(s, o, ExprModel::Or(Box::new(acc), Box::new(t)), q)
        } else {
            (acc, p)
        }
    } else {
        (acc, p)
    }
}

/// A term: factors joined by the AND token, grouped to the left.
pub open spec fn p_term(s: Seq<char>, o: OpsModel, p: int) -> (ExprModel, int)
    decreases s.len() - p, 2int,
    when 0 <= p <= s.len() && ops_ok(o)
{
    let (f, q) = p_factor(s, o, p);
    if p <= q <= s.len() {
        p_and_rest(s, o, f, q)
    } else {
        (f, q)
    }
}

/// The AND chain that follows `acc` at `p`.
pub open spec fn p_and_rest(s: Seq<char>, o: OpsModel, acc: ExprModel, p: int) -> (ExprModel, int)
    decreases s.len() - p, 1int,
    when 0 <= p <= s.len() && ops_ok(o)
{
    if matches_at(s, p, o.and) {
        let (f, q) = p_factor(s, o, p + o.and.len());
        if p + o.and.len() <= q <= s.len() {
            p_and_rest(s, o, ExprModel::And(Box::new(acc), Box::new(f)), q)
        } else {
            (acc, p)
        }
    } else {
        (acc, p)
    }
}

/// A factor, separators around it skipped: an expression in parentheses;
/// else the NOT token and the whole expression after it; else a value.
pub open spec fn p_factor(s: Seq<char>, o: OpsModel, p: int) -> (ExprModel, int)
    decreases s.len() - p, 0int,
    when 0 <= p <= s.len() && ops_ok(o)
{
    let a = skip_sep(s, p);
    proof {
        lemma_skip_sep(s, p);
    }
    let paren: Option<(ExprModel, int)> = if matches_at(s, a, o.lp) {
        proof {
            lemma_skip_sep(s, a + o.lp.len());
        }
        let b = skip_sep(s, a + o.lp.len());
        let (e, c) = p_expr(s, o, b);
        let d = skip_sep(s, c);
        if matches_at(s, d, o.rp) {
            Some((e, skip_sep(s, d + o.rp.len())))
        } else {
            None
        }
    } else {
        None
    };
    match paren {
        Some(r) => r,
        None => if matches_at(s, a, o.not) {
            proof {
                lemma_skip_sep(s, a + o.not.len());
            }
            let b = skip_sep(s, a + o.not.len());
            let (e, c) = p_expr(s, o, b);
            (ExprModel::Not(Box::new(e)), skip_sep(s, c))
        } else {
            let q = value_end(s, a, o);
            (ExprModel::Value(trimmed(s, a, q)), skip_sep(s, q))
        },
    }
}

/// The filter that `s` denotes, if the whole of it is one expression.
pub open spec fn parse_spec(s: Seq<char>, o: OpsModel) -> Option<ExprModel> {
    let (e, q) = p_expr(s, o, 0);
    if q == s.len() {
        Some(e)
    } else {
        None
    }
}

/// The operator tokens as chars.
struct Toks {
    lp: Vec<char>,
    rp: Vec<char>,
    or: Vec<char>,
    and: Vec<char>,
    not: Vec<char>,
}

impl Toks {
    spec fn model(&self) -> OpsModel {
        OpsModel { lp: self.lp@, rp: self.rp@, or: self.or@, and: self.and@, not: self.not@ }
    }
}

fn skip_seps(s: &Vec<char>, p: usize) -> (r: usize)
    requires
        p <= s.len(),
    ensures
        r == skip_sep(s@, p as int),
        p <= r <= s.len(),
{
    let mut i = p;
    while i < s.len() && (s[i] == ' ' || s[i] == '\t' || s[i] == '\r' || s[i] == '\n')
        invariant
            p <= i <= s.len(),
            skip_sep(s@, p as int) == skip_sep(s@, i as int),
        decreases s.len() - i,
    {
        i += 1;
    }
    i
}

fn op_here(s: &Vec<char>, p: usize, t: &Toks) -> (r: bool)
    ensures
        r == op_at(s@, p as int, t.model()),
{
    occurs_here(s, p, &t.lp) || occurs_here(s, p, &t.rp) || occurs_here(s, p, &t.or) || occurs_here(
        s,
        p,
        &t.and,
    ) || occurs_here(s, p, &t.not)
}

fn value_stop(s: &Vec<char>, p: usize, t: &Toks) -> (r: usize)
    requires
        p <= s.len(),
    ensures
        r == value_end(s@, p as int, t.model()),
        p <= r <= s.len(),
{
    let mut i = p;
    while i < s.len() && !op_here(s, i, t)
        invariant
            p <= i <= s.len(),
            value_end(s@, p as int, t.model()) == value_end(s@, i as int, t.model()),
        decreases s.len() - i,
    {
        i += 1;
    }
    i
}

fn parse_expr(s: &Vec<char>, t: &Toks, p: usize) -> (r: (Expr, usize))
    requires
        p <= s.len(),
        ops_ok(t.model()),
    ensures
        (model(&r.0), r.1 as int) == p_expr(s@, t.model(), p as int),
        p <= r.1 <= s.len(),
    decreases s@.len() - p, 4int,
{
    let (e, q) = parse_term(s, t, p);
    parse_or_rest(s, t, e, q)
}

fn parse_or_rest(s: &Vec<char>, t: &Toks, acc: Expr, p: usize) -> (r: (Expr, usize))
    requires
        p <= s.len(),
        ops_ok(t.model()),
    ensures
        (model(&r.0), r.1 as int) == p_or_rest(s@, t.model(), model(&acc), p as int),
        p <= r.1 <= s.len(),
    decreases s@.len() - p, 3int,
{
    if occurs_here(s, p, &t.or) {
        let (e, q) = parse_term(s, t, p + t.or.len());
        parse_or_rest(s, t, Expr::Or(Box::new(acc), Box::new(e)), q)
    } else {
        (acc, p)
    }
}

fn parse_term(s: &Vec<char>, t: &Toks, p: usize) -> (r: (Expr, usize))
    requires
        p <= s.len(),
        ops_ok(t.model()),
    ensures
        (model(&r.0), r.1 as int) == p_term(s@, t.model(), p as int),
        p <= r.1 <= s.len(),
    decreases s@.len() - p, 2int,
{
    let (e, q) = parse_factor(s, t, p);
    parse_and_rest(s, t, e, q)
}

fn parse_and_rest(s: &Vec<char>, t: &Toks, acc: Expr, p: usize) -> (r: (Expr, usize))
    requires
        p <= s.len(),
        ops_ok(t.model()),
    ensures
        (model(&r.0), r.1 as int) == p_and_rest(s@, t.model(), model(&acc), p as int),
        p <= r.1 <= s.len(),
    decreases s@.len() - p, 1int,
{
    if occurs_here(s, p, &t.and) {
        let (e, q) = parse_factor(s, t, p + t.and.len());
        parse_and_rest(s, t, Expr::And(Box::new(acc), Box::new(e)), q)
    } else {
        (acc, p)
    }
}

fn parse_factor(s: &Vec<char>, t: &Toks, p: usize) -> (r: (Expr, usize))
    requires
        p <= s.len(),
        ops_ok(t.model()),
    ensures
        (model(&r.0), r.1 as int) == p_factor(s@, t.model(), p as int),
        p <= r.1 <= s.len(),
    decreases s@.len() - p, 0int,
{
    let a = skip_seps(s, p);
    if occurs_here(s, a, &t.lp) {
        let b = skip_seps(s, a + t.lp.len());
        let (e, c) = parse_expr(s, t, b);
        let d = skip_seps(s, c);
        if occurs_here(s, d, &t.rp) {
            let end = skip_seps(s, d + t.rp.len());
            return (e, end);
        }
    }
    if occurs_here(s, a, &t.not) {
        let b = skip_seps(s, a + t.not.len());
        let (e, c) = parse_expr(s, t, b);
        (Expr::Not(Box::new(e)), skip_seps(s, c))
    } else {
        let q = value_stop(s, a, t);
        (Expr::Value(trimmed_text(s, a, q)), skip_seps(s, q))
    }
}

/// Parses a filter written with the operator tokens of `ops`. Fails with the
/// text that is left over when the input is not one whole expression.
pub fn parse(input: &str, ops: &Ops) -> (r: Result<Expr, TodoError>)
    requires
        ops_ok(ops.model()),
    ensures
        match r {
            Ok(e) => parse_spec(input@, ops.model()) == Some(model(&e)),
            Err(err) => parse_spec(input@, ops.model()) is None && (err matches TodoError::InvalidSyntax {
                rest,
            } && rest@ == input@.subrange(p_expr(input@, ops.model(), 0).1, input@.len() as int)),
        },
{
    let s = chars_of(input);
    let t = Toks {
        lp: chars_of(ops.lp.as_str()),
        rp: chars_of(ops.rp.as_str()),
        or: chars_of(ops.or.as_str()),
        and: chars_of(ops.and.as_str()),
        not: chars_of(ops.not.as_str()),
    };
    assert(t.model() == ops.model());
    let (e, q) = parse_expr(&s, &t, 0);
    if q == s.len() {
        Ok(e)
    } else {
        let mut rest: Vec<char> = Vec::new();
        let mut i = q;
        while i < s.len()
            invariant
                q <= i <= s.len(),
                rest@ == s@.subrange(q as int, i as int),
            decreases s.len() - i,
        {
            rest.push(s[i]);
            i += 1;
            assert(rest@ =~= s@.subrange(q as int, i as int));
        }
        Err(TodoError::InvalidSyntax { rest: string_of(&rest) })
    }
}

} // verus!
