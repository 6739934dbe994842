//! Comparing expressions: the executable side of the order of keys.

use vstd::prelude::*;
use crate::ast::{expression_views, statement_views, Expression, ExpressionView, Statement};
use crate::expression_map::ExpressionMap;
use crate::order::{
    alternative_order, bytes_order, entries_order, entry_order, expression_order,
    expression_rank, expressions_order, int_order, statement_order, statement_rank,
    statements_order, text_order,
};

verus! {

/// Where one value stands with respect to another in an order.
#[derive(Debug, Clone, Copy, PartialEq, Eq, Structural)]
pub enum Placing {
    /// It comes first.
    Before,
    /// The two are equal.
    Same,
    /// It comes last.
    After,
}

impl Placing {
    /// The placing as a sign: -1, 0 or 1.
    pub open spec fn sign(self) -> int {
        match self {
            Placing::Before => -1,
            Placing::Same => 0,
            Placing::After => 1,
        }
    }
}

/// The placing of two lengths, for sequences that agree as far as the shorter
/// goes.
fn compare_lengths(a: usize, b: usize) -> (placing: Placing)
    ensures
        placing.sign() == int_order(a as int, b as int),
{
    if a < b {
        Placing::Before
    } else if a > b {
        Placing::After
    } else {
        Placing::Same
    }
}

/// Compares two byte slices lexicographically.
pub fn compare_bytes(a: &[u8], b: &[u8]) -> (placing: Placing)
    ensures
        placing.sign() == bytes_order(a@, b@),
{
    proof {
        assert(a@.skip(0) == a@);
        assert(b@.skip(0) == b@);
    }
    let mut i: usize = 0;
    while i < a.len() && i < b.len()
        invariant
            i <= a.len(),
            i <= b.len(),
            bytes_order(a@, b@) == bytes_order(a@.skip(i as int), b@.skip(i as int)),
        decreases a.len() - i,
    {
        proof {
            assert(a@.skip(i as int).drop_first() == a@.skip(i + 1));
            assert(b@.skip(i as int).drop_first() == b@.skip(i + 1));
        }
        if a[i] < b[i] {
            return Placing::Before;
        } else if a[i] > b[i] {
            return Placing::After;
        }
        i += 1;
    }
    compare_lengths(a.len(), b.len())
}

/// Compares two texts by their UTF-8 bytes.
pub fn compare_text(a: &str, b: &str) -> (placing: Placing)
    ensures
        placing.sign() == text_order(a@, b@),
{
    compare_bytes(a.as_bytes(), b.as_bytes())
}

/// The place of the variant of `e` among the variants of an expression.
fn rank_of_expression(e: &Expression) -> (rank: u8)
    ensures
        rank == expression_rank(e@),
{
    match e {
        Expression::Identifier(_) => 0,
        Expression::String(_) => 1,
        Expression::Integer(_) => 2,
        Expression::Array(_) => 3,
        Expression::Boolean(_) => 4,
        Expression::HashMap(_) => 5,
        Expression::LParen(_) => 6,
        Expression::IndexExpression { .. } => 7,
        Expression::PrefixExpression { .. } => 8,
        Expression::InfixExpression { .. } => 9,
        Expression::IfExpression { .. } => 10,
        Expression::FunctionLiteral { .. } => 11,
        Expression::CallExpression { .. } => 12,
        Expression::Null => 13,
    }
}

/// The place of the variant of `s` among the variants of a statement.
fn rank_of_statement(s: &Statement) -> (rank: u8)
    ensures
        rank == statement_rank(s@),
{
    match s {
        Statement::LetStatement { .. } => 0,
        Statement::ExpressionStatement(_) => 1,
        Statement::Return(_) => 2,
        Statement::Block(_) => 3,
    }
}

/// Compares two expressions in the order of keys.
pub fn compare_expressions(a: &Expression, b: &Expression) -> (placing: Placing)
    ensures
        placing.sign() == expression_order(a@, b@),
    decreases a,
{
    let rank_a = rank_of_expression(a);
    let rank_b = rank_of_expression(b);
    if rank_a < rank_b {
        return Placing::Before;
    }
    if rank_a > rank_b {
        return Placing::After;
    }
    match (a, b) {
        (Expression::Identifier(x), Expression::Identifier(y)) => compare_text(
            x.as_str(),
            y.as_str(),
        ),
        (Expression::String(x), Expression::String(y)) => compare_text(x.as_str(), y.as_str()),
        (Expression::Integer(x), Expression::Integer(y)) => {
            if *x < *y {
                Placing::Before
            } else if *x > *y {
                Placing::After
            } else {
                Placing::Same
            }
        },
        (Expression::Array(xs), Expression::Array(ys)) => compare_expression_lists(xs, ys),
        (Expression::Boolean(x), Expression::Boolean(y)) => {
            if !*x && *y {
                Placing::Before
            } else if *x && !*y {
                Placing::After
            } else {
                Placing::Same
            }
        },
        (Expression::HashMap(xs), Expression::HashMap(ys)) => compare_maps(xs, ys),
        (Expression::LParen(x), Expression::LParen(y)) => compare_text(x.as_str(), y.as_str()),
        (
            Expression::IndexExpression { array: a1, subscript: s1 },
            Expression::IndexExpression { array: a2, subscript: s2 },
        ) => {
            let first = compare_expressions(a1, a2);
            if first != Placing::Same {
                return first;
            }
            compare_expressions(s1, s2)
        },
        (
            Expression::PrefixExpression { operator: o1, rightExpression: r1 },
            Expression::PrefixExpression { operator: o2, rightExpression: r2 },
        ) => {
            let first = compare_text(o1.as_str(), o2.as_str());
            if first != Placing::Same {
                return first;
            }
            compare_expressions(r1, r2)
        },
        (
            Expression::InfixExpression { leftExpression: l1, operator: o1, rightExpression: r1 },
            Expression::InfixExpression { leftExpression: l2, operator: o2, rightExpression: r2 },
        ) => {
            let first = compare_expressions(l1, l2);
            if first != Placing::Same {
                return first;
            }
            let second = compare_text(o1.as_str(), o2.as_str());
            if second != Placing::Same {
                return second;
            }
            compare_expressions(r1, r2)
        },
        (
            Expression::IfExpression { condition: c1, consequence: t1, alternative: e1 },
            Expression::IfExpression { condition: c2, consequence: t2, alternative: e2 },
        ) => {
            let first = compare_expressions(c1, c2);
            if first != Placing::Same {
                return first;
            }
            let second = compare_statements(t1, t2);
            if second != Placing::Same {
                return second;
            }
            let third = match (e1, e2) {
                (None, None) => Placing::Same,
                (None, Some(_)) => Placing::Before,
                (Some(_), None) => Placing::After,
                (Some(x), Some(y)) => compare_statements(x, y),
            };
            proof {
                match (a@, b@) {
                    (
                        ExpressionView::IfExpression { alternative: x, .. },
                        ExpressionView::IfExpression { alternative: y, .. },
                    ) => {
                        assert(alternative_order(x, y) == third.sign());
                    },
                    _ => {},
                }
            }
            third
        },
        (
            Expression::FunctionLiteral { parameters: k1, body: b1 },
            Expression::FunctionLiteral { parameters: k2, body: b2 },
        ) => {
            let first = compare_expression_lists(k1, k2);
            if first != Placing::Same {
                return first;
            }
            compare_statements(b1, b2)
        },
        (
            Expression::CallExpression { function: f1, body: b1 },
            Expression::CallExpression { function: f2, body: b2 },
        ) => {
            let first = compare_expressions(f1, f2);
            if first != Placing::Same {
                return first;
            }
            compare_expression_lists(b1, b2)
        },
        _ => Placing::Same,
    }
}

/// Compares two sequences of expressions lexicographically.
fn compare_expression_lists(xs: &Vec<Expression>, ys: &Vec<Expression>) -> (placing: Placing)
    ensures
        placing.sign() == expressions_order(expression_views(xs@), expression_views(ys@)),
    decreases xs,
{
    let ghost vx = expression_views(xs@);
    let ghost vy = expression_views(ys@);
    proof {
        assert(vx.skip(0) == vx);
        assert(vy.skip(0) == vy);
    }
    let mut i: usize = 0;
    while i < xs.len() && i < ys.len()
        invariant
            i <= xs.len(),
            i <= ys.len(),
            vx == expression_views(xs@),
            vy == expression_views(ys@),
            expressions_order(vx, vy) == expressions_order(vx.skip(i as int), vy.skip(i as int)),
        decreases xs.len() - i,
    {
        proof {
            assert(vx.skip(i as int).drop_first() == vx.skip(i + 1));
            assert(vy.skip(i as int).drop_first() == vy.skip(i + 1));
        }
        let placing = compare_expressions(&xs[i], &ys[i]);
        if placing != Placing::Same {
            return placing;
        }
        i += 1;
    }
    compare_lengths(xs.len(), ys.len())
}

/// Compares two maps: entry by entry in the order of their keys, each entry
/// by its key and then by its value.
fn compare_maps(xs: &ExpressionMap, ys: &ExpressionMap) -> (placing: Placing)
    ensures
        placing.sign() == entries_order(xs@, ys@),
    decreases xs,
{
    let ghost vx = xs@;
    let ghost vy = ys@;
    let count_x = xs.len();
    let count_y = ys.len();
    proof {
        assert(vx.skip(0) == vx);
        assert(vy.skip(0) == vy);
    }
    let mut i: usize = 0;
    while i < count_x && i < count_y
        invariant
            i <= count_x,
            i <= count_y,
            count_x == vx.len(),
            count_y == vy.len(),
            vx == xs@,
            vy == ys@,
            entries_order(vx, vy) == entries_order(vx.skip(i as int), vy.skip(i as int)),
        decreases count_x - i,
    {
        proof {
            assert(vx.skip(i as int).drop_first() == vx.skip(i + 1));
            assert(vy.skip(i as int).drop_first() == vy.skip(i + 1));
        }
        let (key_x, value_x) = xs.entry(i);
        let (key_y, value_y) = ys.entry(i);
        let by_key = compare_expressions(key_x, key_y);
        if by_key != Placing::Same {
            assert(entry_order(vx[i as int], vy[i as int]) == by_key.sign());
            return by_key;
        }
        let by_value = compare_expressions(value_x, value_y);
        assert(entry_order(vx[i as int], vy[i as int]) == by_value.sign());
        if by_value != Placing::Same {
            return by_value;
        }
        i += 1;
    }
    compare_lengths(count_x, count_y)
}

/// Compares two statements in the order of keys.
pub fn compare_statements(a: &Statement, b: &Statement) -> (placing: Placing)
    ensures
        placing.sign() == statement_order(a@, b@),
    decreases a,
{
    let rank_a = rank_of_statement(a);
    let rank_b = rank_of_statement(b);
    if rank_a < rank_b {
        return Placing::Before;
    }
    if rank_a > rank_b {
        return Placing::After;
    }
    match (a, b) {
        (
            Statement::LetStatement { identifier: i1, value: v1 },
            Statement::LetStatement { identifier: i2, value: v2 },
        ) => {
            let first = compare_expressions(i1, i2);
            if first != Placing::Same {
                return first;
            }
            compare_expressions(v1, v2)
        },
        (Statement::ExpressionStatement(x), Statement::ExpressionStatement(y)) =>
            compare_expressions(x, y),
        (Statement::Return(x), Statement::Return(y)) => compare_expressions(x, y),
        (Statement::Block(xs), Statement::Block(ys)) => compare_statement_lists(xs, ys),
        _ => Placing::Same,
    }
}

/// Compares two sequences of statements lexicographically.
fn compare_statement_lists(xs: &Vec<Statement>, ys: &Vec<Statement>) -> (placing: Placing)
    ensures
        placing.sign() == statements_order(statement_views(xs@), statement_views(ys@)),
    decreases xs,
{
    let ghost vx = statement_views(xs@);
    let ghost vy = statement_views(ys@);
    proof {
        assert(vx.skip(0) == vx);
        assert(vy.skip(0) == vy);
    }
    let mut i: usize = 0;
    while i < xs.len() && i < ys.len()
        invariant
            i <= xs.len(),
            i <= ys.len(),
            vx == statement_views(xs@),
            vy == statement_views(ys@),
            statements_order(vx, vy) == statements_order(vx.skip(i as int), vy.skip(i as int)),
        decreases xs.len() - i,
    {
        proof {
            assert(vx.skip(i as int).drop_first() == vx.skip(i + 1));
            assert(vy.skip(i as int).drop_first() == vy.skip(i + 1));
        }
        let placing = compare_statements(&xs[i], &ys[i]);
        if placing != Placing::Same {
            return placing;
        }
        i += 1;
    }
    compare_lengths(xs.len(), ys.len())
}

} // verus!
