//! The total order over expressions by which a map keeps its keys.
//!
//! Two expressions of different variants are ordered by the place of their
//! variant in the declaration; two of the same variant by their fields, the
//! first field that differs deciding. Text is ordered by its UTF-8 bytes,
//! sequences lexicographically, a prefix before what it is a prefix of.

use vstd::prelude::*;
use vstd::utf8::*;
use crate::ast::{ExpressionView, StatementView};

verus! {

/// The first sign where it decides, else the second.
pub open spec fn sign_then(first: int, second: int) -> int {
    if first != 0 {
        first
    } else {
        second
    }
}

/// The order of the integers as a sign: -1, 0 or 1.
pub open spec fn int_order(a: int, b: int) -> int {
    if a < b {
        -1
    } else if a == b {
        0
    } else {
        1
    }
}

/// The lexicographic order of byte sequences.
pub open spec fn bytes_order(a: Seq<u8>, b: Seq<u8>) -> int
    decreases a.len(),
{
    if a.len() == 0 {
        if b.len() == 0 {
            0
        } else {
            -1
        }
    } else if b.len() == 0 {
        1
    } else {
        sign_then(int_order(a[0] as int, b[0] as int), bytes_order(a.drop_first(), b.drop_first()))
    }
}

/// The order of texts: that of their UTF-8 encodings.
pub open spec fn text_order(a: Seq<char>, b: Seq<char>) -> int {
    bytes_order(encode_utf8(a), encode_utf8(b))
}

/// The place of an expression's variant among the variants.
pub open spec fn expression_rank(e: ExpressionView) -> int {
    match e {
        ExpressionView::Identifier(_) => 0,
        ExpressionView::String(_) => 1,
        ExpressionView::Integer(_) => 2,
        ExpressionView::Array(_) => 3,
        ExpressionView::Boolean(_) => 4,
        ExpressionView::HashMap(_) => 5,
        ExpressionView::LParen(_) => 6,
        ExpressionView::IndexExpression { .. } => 7,
        ExpressionView::PrefixExpression { .. } => 8,
        ExpressionView::InfixExpression { .. } => 9,
        ExpressionView::IfExpression { .. } => 10,
        ExpressionView::FunctionLiteral { .. } => 11,
        ExpressionView::CallExpression { .. } => 12,
        ExpressionView::Null => 13,
    }
}

/// The place of a statement's variant among the variants.
pub open spec fn statement_rank(s: StatementView) -> int {
    match s {
        StatementView::LetStatement { .. } => 0,
        StatementView::ExpressionStatement(_) => 1,
        StatementView::Return(_) => 2,
        StatementView::Block(_) => 3,
    }
}

/// The order of expressions as a sign: -1 where `a` comes first, 0 where the
/// two are equal, 1 where `b` comes first.
pub open spec fn expression_order(a: ExpressionView, b: ExpressionView) -> int
    decreases a,
{
    if expression_rank(a) != expression_rank(b) {
        int_order(expression_rank(a), expression_rank(b))
    } else {
        match (a, b) {
            (ExpressionView::Identifier(x), ExpressionView::Identifier(y)) => text_order(x, y),
            (ExpressionView::String(x), ExpressionView::String(y)) => text_order(x, y),
            (ExpressionView::Integer(x), ExpressionView::Integer(y)) => int_order(x, y),
            (ExpressionView::Array(xs), ExpressionView::Array(ys)) => expressions_order(xs, ys),
            (ExpressionView::Boolean(x), ExpressionView::Boolean(y)) => int_order(
                if x { 1 } else { 0 },
                if y { 1 } else { 0 },
            ),
            (ExpressionView::HashMap(xs), ExpressionView::HashMap(ys)) => entries_order(xs, ys),
            (ExpressionView::LParen(x), ExpressionView::LParen(y)) => text_order(x, y),
            (
                ExpressionView::IndexExpression { array: a1, subscript: s1 },
                ExpressionView::IndexExpression { array: a2, subscript: s2 },
            ) => sign_then(expression_order(*a1, *a2), expression_order(*s1, *s2)),
            (
                ExpressionView::PrefixExpression { operator: o1, rightExpression: r1 },
                ExpressionView::PrefixExpression { operator: o2, rightExpression: r2 },
            ) => sign_then(text_order(o1, o2), expression_order(*r1, *r2)),
            (
                ExpressionView::InfixExpression {
                    leftExpression: l1,
                    operator: o1,
                    rightExpression: r1,
                },
                ExpressionView::InfixExpression {
                    leftExpression: l2,
                    operator: o2,
                    rightExpression: r2,
                },
            ) => sign_then(
                expression_order(*l1, *l2),
                sign_then(text_order(o1, o2), expression_order(*r1, *r2)),
            ),
            (
                ExpressionView::IfExpression { condition: c1, consequence: t1, alternative: e1 },
                ExpressionView::IfExpression { condition: c2, consequence: t2, alternative: e2 },
            ) => sign_then(
                expression_order(*c1, *c2),
                sign_then(statement_order(*t1, *t2), alternative_order(e1, e2)),
            ),
            (
                ExpressionView::FunctionLiteral { parameters: k1, body: b1 },
                ExpressionView::FunctionLiteral { parameters: k2, body: b2 },
            ) => sign_then(expressions_order(k1, k2), statement_order(*b1, *b2)),
            (
                ExpressionView::CallExpression { function: f1, body: b1 },
                ExpressionView::CallExpression { function: f2, body: b2 },
            ) => sign_then(expression_order(*f1, *f2), expressions_order(b1, b2)),
            _ => 0,
        }
    }
}

/// The order of the alternatives of two `if` expressions: none before any.
pub open spec fn alternative_order(
    a: Option<Box<StatementView>>,
    b: Option<Box<StatementView>>,
) -> int
    decreases a,
{
    match (a, b) {
        (None, None) => 0,
        (None, Some(_)) => -1,
        (Some(_), None) => 1,
        (Some(x), Some(y)) => statement_order(*x, *y),
    }
}

/// The lexicographic order of sequences of expressions.
pub open spec fn expressions_order(xs: Seq<ExpressionView>, ys: Seq<ExpressionView>) -> int
    decreases xs,
{
    if xs.len() == 0 {
        if ys.len() == 0 {
            0
        } else {
            -1
        }
    } else if ys.len() == 0 {
        1
    } else {
        sign_then(
            expression_order(xs[0], ys[0]),
            expressions_order(xs.drop_first(), ys.drop_first()),
        )
    }
}

/// The order of two entries: by their keys, then by their values.
pub open spec fn entry_order(
    x: (ExpressionView, ExpressionView),
    y: (ExpressionView, ExpressionView),
) -> int
    decreases x,
{
    sign_then(expression_order(x.0, y.0), expression_order(x.1, y.1))
}

/// The lexicographic order of sequences of entries.
pub open spec fn entries_order(
    xs: Seq<(ExpressionView, ExpressionView)>,
    ys: Seq<(ExpressionView, ExpressionView)>,
) -> int
    decreases xs,
{
    if xs.len() == 0 {
        if ys.len() == 0 {
            0
        } else {
            -1
        }
    } else if ys.len() == 0 {
        1
    } else {
        sign_then(entry_order(xs[0], ys[0]), entries_order(xs.drop_first(), ys.drop_first()))
    }
}

/// The order of statements as a sign.
pub open spec fn statement_order(a: StatementView, b: StatementView) -> int
    decreases a,
{
    if statement_rank(a) != statement_rank(b) {
        int_order(statement_rank(a), statement_rank(b))
    } else {
        match (a, b) {
            (
                StatementView::LetStatement { identifier: i1, value: v1 },
                StatementView::LetStatement { identifier: i2, value: v2 },
            ) => sign_then(expression_order(i1, i2), expression_order(v1, v2)),
            (
                StatementView::ExpressionStatement(x),
                StatementView::ExpressionStatement(y),
            ) => expression_order(x, y),
            (StatementView::Return(x), StatementView::Return(y)) => expression_order(x, y),
            (StatementView::Block(xs), StatementView::Block(ys)) => statements_order(xs, ys),
            _ => 0,
        }
    }
}

/// The lexicographic order of sequences of statements.
pub open spec fn statements_order(xs: Seq<StatementView>, ys: Seq<StatementView>) -> int
    decreases xs,
{
    if xs.len() == 0 {
        if ys.len() == 0 {
            0
        } else {
            -1
        }
    } else if ys.len() == 0 {
        1
    } else {
        sign_then(
            statement_order(xs[0], ys[0]),
            statements_order(xs.drop_first(), ys.drop_first()),
        )
    }
}

/// Transitivity in terms of signs: where neither `first` nor `second` is
/// positive, `whole` is not either, and is 0 only where both are.
pub open spec fn chain(first: int, second: int, whole: int) -> bool {
    first <= 0 && second <= 0 ==> whole <= 0 && (whole == 0 ==> first == 0 && second == 0)
}

/// The order of byte sequences is 0 exactly on equal sequences, and turning
/// its arguments round turns its sign round.
pub proof fn lemma_bytes_order_basic(a: Seq<u8>, b: Seq<u8>)
    ensures
        -1 <= bytes_order(a, b) <= 1,
        bytes_order(b, a) == -bytes_order(a, b),
        (bytes_order(a, b) == 0) == (a == b),
    decreases a.len(),
{
    if a.len() > 0 && b.len() > 0 {
        lemma_bytes_order_basic(a.drop_first(), b.drop_first());
        if bytes_order(a, b) == 0 {
            assert(a =~= seq![a[0]] + a.drop_first());
            assert(b =~= seq![b[0]] + b.drop_first());
        }
    } else if a.len() == 0 && b.len() == 0 {
        assert(a =~= b);
    }
}

/// The order of byte sequences is transitive.
pub proof fn lemma_bytes_order_transitive(a: Seq<u8>, b: Seq<u8>, c: Seq<u8>)
    ensures
        chain(bytes_order(a, b), bytes_order(b, c), bytes_order(a, c)),
    decreases a.len(),
{
    lemma_bytes_order_basic(a, b);
    lemma_bytes_order_basic(b, c);
    lemma_bytes_order_basic(a, c);
    if a.len() > 0 && b.len() > 0 && c.len() > 0 {
        lemma_bytes_order_transitive(a.drop_first(), b.drop_first(), c.drop_first());
    }
}

/// The order of texts is 0 exactly on equal texts, and turning its arguments
/// round turns its sign round.
pub proof fn lemma_text_order_basic(a: Seq<char>, b: Seq<char>)
    ensures
        -1 <= text_order(a, b) <= 1,
        text_order(b, a) == -text_order(a, b),
        (text_order(a, b) == 0) == (a == b),
{
    lemma_bytes_order_basic(encode_utf8(a), encode_utf8(b));
    encode_utf8_decode_utf8(a);
    encode_utf8_decode_utf8(b);
}

/// The order of texts is transitive.
pub proof fn lemma_text_order_transitive(a: Seq<char>, b: Seq<char>, c: Seq<char>)
    ensures
        chain(text_order(a, b), text_order(b, c), text_order(a, c)),
{
    lemma_bytes_order_transitive(encode_utf8(a), encode_utf8(b), encode_utf8(c));
}

/// The order of expressions is 0 exactly on equal expressions, and turning
/// its arguments round turns its sign round: of two different expressions
/// exactly one comes first.
pub proof fn lemma_expression_order_basic(a: ExpressionView, b: ExpressionView)
    ensures
        -1 <= expression_order(a, b) <= 1,
        expression_order(b, a) == -expression_order(a, b),
        (expression_order(a, b) == 0) == (a == b),
    decreases a,
{
    match (a, b) {
        (ExpressionView::Identifier(x), ExpressionView::Identifier(y)) => {
            lemma_text_order_basic(x, y);
        },
        (ExpressionView::String(x), ExpressionView::String(y)) => {
            lemma_text_order_basic(x, y);
        },
        (ExpressionView::Array(xs), ExpressionView::Array(ys)) => {
            lemma_expressions_order_basic(xs, ys);
        },
        (ExpressionView::HashMap(xs), ExpressionView::HashMap(ys)) => {
            lemma_entries_order_basic(xs, ys);
        },
        (ExpressionView::LParen(x), ExpressionView::LParen(y)) => {
            lemma_text_order_basic(x, y);
        },
        (
            ExpressionView::IndexExpression { array: a1, subscript: s1 },
            ExpressionView::IndexExpression { array: a2, subscript: s2 },
        ) => {
            lemma_expression_order_basic(*a1, *a2);
            lemma_expression_order_basic(*s1, *s2);
        },
        (
            ExpressionView::PrefixExpression { operator: o1, rightExpression: r1 },
            ExpressionView::PrefixExpression { operator: o2, rightExpression: r2 },
        ) => {
            lemma_text_order_basic(o1, o2);
            lemma_expression_order_basic(*r1, *r2);
        },
        (
            ExpressionView::InfixExpression { leftExpression: l1, operator: o1, rightExpression: r1 },
            ExpressionView::InfixExpression { leftExpression: l2, operator: o2, rightExpression: r2 },
        ) => {
            lemma_expression_order_basic(*l1, *l2);
            lemma_text_order_basic(o1, o2);
            lemma_expression_order_basic(*r1, *r2);
        },
        (
            ExpressionView::IfExpression { condition: c1, consequence: t1, alternative: e1 },
            ExpressionView::IfExpression { condition: c2, consequence: t2, alternative: e2 },
        ) => {
            lemma_expression_order_basic(*c1, *c2);
            lemma_statement_order_basic(*t1, *t2);
            lemma_alternative_order_basic(e1, e2);
        },
        (
            ExpressionView::FunctionLiteral { parameters: k1, body: b1 },
            ExpressionView::FunctionLiteral { parameters: k2, body: b2 },
        ) => {
            lemma_expressions_order_basic(k1, k2);
            lemma_statement_order_basic(*b1, *b2);
        },
        (
            ExpressionView::CallExpression { function: f1, body: b1 },
            ExpressionView::CallExpression { function: f2, body: b2 },
        ) => {
            lemma_expression_order_basic(*f1, *f2);
            lemma_expressions_order_basic(b1, b2);
        },
        _ => {},
    }
}

/// As [`lemma_expression_order_basic`], for the alternatives of two `if`
/// expressions.
pub proof fn lemma_alternative_order_basic(
    a: Option<Box<StatementView>>,
    b: Option<Box<StatementView>>,
)
    ensures
        -1 <= alternative_order(a, b) <= 1,
        alternative_order(b, a) == -alternative_order(a, b),
        (alternative_order(a, b) == 0) == (a == b),
    decreases a,
{
    match (a, b) {
        (Some(x), Some(y)) => {
            lemma_statement_order_basic(*x, *y);
        },
        _ => {},
    }
}

/// As [`lemma_expression_order_basic`], for sequences of expressions.
pub proof fn lemma_expressions_order_basic(xs: Seq<ExpressionView>, ys: Seq<ExpressionView>)
    ensures
        -1 <= expressions_order(xs, ys) <= 1,
        expressions_order(ys, xs) == -expressions_order(xs, ys),
        (expressions_order(xs, ys) == 0) == (xs == ys),
    decreases xs,
{
    if xs.len() > 0 && ys.len() > 0 {
        lemma_expression_order_basic(xs[0], ys[0]);
        lemma_expressions_order_basic(xs.drop_first(), ys.drop_first());
        if expressions_order(xs, ys) == 0 {
            assert(xs =~= seq![xs[0]] + xs.drop_first());
            assert(ys =~= seq![ys[0]] + ys.drop_first());
        }
    } else if xs.len() == 0 && ys.len() == 0 {
        assert(xs =~= ys);
    }
}

/// As [`lemma_expression_order_basic`], for entries.
pub proof fn lemma_entry_order_basic(
    x: (ExpressionView, ExpressionView),
    y: (ExpressionView, ExpressionView),
)
    ensures
        -1 <= entry_order(x, y) <= 1,
        entry_order(y, x) == -entry_order(x, y),
        (entry_order(x, y) == 0) == (x == y),
    decreases x,
{
    lemma_expression_order_basic(x.0, y.0);
    lemma_expression_order_basic(x.1, y.1);
}

/// As [`lemma_expression_order_basic`], for sequences of entries.
pub proof fn lemma_entries_order_basic(
    xs: Seq<(ExpressionView, ExpressionView)>,
    ys: Seq<(ExpressionView, ExpressionView)>,
)
    ensures
        -1 <= entries_order(xs, ys) <= 1,
        entries_order(ys, xs) == -entries_order(xs, ys),
        (entries_order(xs, ys) == 0) == (xs == ys),
    decreases xs,
{
    if xs.len() > 0 && ys.len() > 0 {
        lemma_entry_order_basic(xs[0], ys[0]);
        lemma_entries_order_basic(xs.drop_first(), ys.drop_first());
        if entries_order(xs, ys) == 0 {
            assert(xs =~= seq![xs[0]] + xs.drop_first());
            assert(ys =~= seq![ys[0]] + ys.drop_first());
        }
    } else if xs.len() == 0 && ys.len() == 0 {
        assert(xs =~= ys);
    }
}

/// As [`lemma_expression_order_basic`], for statements.
pub proof fn lemma_statement_order_basic(a: StatementView, b: StatementView)
    ensures
        -1 <= statement_order(a, b) <= 1,
        statement_order(b, a) == -statement_order(a, b),
        (statement_order(a, b) == 0) == (a == b),
    decreases a,
{
    match (a, b) {
        (
            StatementView::LetStatement { identifier: i1, value: v1 },
            StatementView::LetStatement { identifier: i2, value: v2 },
        ) => {
            lemma_expression_order_basic(i1, i2);
            lemma_expression_order_basic(v1, v2);
        },
        (StatementView::ExpressionStatement(x), StatementView::ExpressionStatement(y)) => {
            lemma_expression_order_basic(x, y);
        },
        (StatementView::Return(x), StatementView::Return(y)) => {
            lemma_expression_order_basic(x, y);
        },
        (StatementView::Block(xs), StatementView::Block(ys)) => {
            lemma_statements_order_basic(xs, ys);
        },
        _ => {},
    }
}

/// As [`lemma_expression_order_basic`], for sequences of statements.
pub proof fn lemma_statements_order_basic(xs: Seq<StatementView>, ys: Seq<StatementView>)
    ensures
        -1 <= statements_order(xs, ys) <= 1,
        statements_order(ys, xs) == -statements_order(xs, ys),
        (statements_order(xs, ys) == 0) == (xs == ys),
    decreases xs,
{
    if xs.len() > 0 && ys.len() > 0 {
        lemma_statement_order_basic(xs[0], ys[0]);
        lemma_statements_order_basic(xs.drop_first(), ys.drop_first());
        if statements_order(xs, ys) == 0 {
            assert(xs =~= seq![xs[0]] + xs.drop_first());
            assert(ys =~= seq![ys[0]] + ys.drop_first());
        }
    } else if xs.len() == 0 && ys.len() == 0 {
        assert(xs =~= ys);
    }
}

/// The order of expressions is transitive: where `a` comes no later than `b`
/// and `b` no later than `c`, `a` comes no later than `c`, and is equal to
/// it only where all three are equal.
pub proof fn lemma_expression_order_transitive(
    a: ExpressionView,
    b: ExpressionView,
    c: ExpressionView,
)
    ensures
        chain(expression_order(a, b), expression_order(b, c), expression_order(a, c)),
    decreases a,
{
    lemma_expression_order_basic(a, b);
    lemma_expression_order_basic(b, c);
    lemma_expression_order_basic(a, c);
    match (a, b, c) {
        (
            ExpressionView::Identifier(x),
            ExpressionView::Identifier(y),
            ExpressionView::Identifier(z),
        ) => {
            lemma_text_order_transitive(x, y, z);
        },
        (ExpressionView::String(x), ExpressionView::String(y), ExpressionView::String(z)) => {
            lemma_text_order_transitive(x, y, z);
        },
        (ExpressionView::Array(xs), ExpressionView::Array(ys), ExpressionView::Array(zs)) => {
            lemma_expressions_order_transitive(xs, ys, zs);
        },
        (
            ExpressionView::HashMap(xs),
            ExpressionView::HashMap(ys),
            ExpressionView::HashMap(zs),
        ) => {
            lemma_entries_order_transitive(xs, ys, zs);
        },
        (ExpressionView::LParen(x), ExpressionView::LParen(y), ExpressionView::LParen(z)) => {
            lemma_text_order_transitive(x, y, z);
        },
        (
            ExpressionView::IndexExpression { array: a1, subscript: s1 },
            ExpressionView::IndexExpression { array: a2, subscript: s2 },
            ExpressionView::IndexExpression { array: a3, subscript: s3 },
        ) => {
            lemma_expression_order_transitive(*a1, *a2, *a3);
            lemma_expression_order_transitive(*s1, *s2, *s3);
            lemma_expression_order_basic(*a1, *a2);
            lemma_expression_order_basic(*a2, *a3);
        },
        (
            ExpressionView::PrefixExpression { operator: o1, rightExpression: r1 },
            ExpressionView::PrefixExpression { operator: o2, rightExpression: r2 },
            ExpressionView::PrefixExpression { operator: o3, rightExpression: r3 },
        ) => {
            lemma_text_order_transitive(o1, o2, o3);
            lemma_expression_order_transitive(*r1, *r2, *r3);
            lemma_text_order_basic(o1, o2);
            lemma_text_order_basic(o2, o3);
        },
        (
            ExpressionView::InfixExpression { leftExpression: l1, operator: o1, rightExpression: r1 },
            ExpressionView::InfixExpression { leftExpression: l2, operator: o2, rightExpression: r2 },
            ExpressionView::InfixExpression { leftExpression: l3, operator: o3, rightExpression: r3 },
        ) => {
            lemma_expression_order_transitive(*l1, *l2, *l3);
            lemma_text_order_transitive(o1, o2, o3);
            lemma_expression_order_transitive(*r1, *r2, *r3);
            lemma_expression_order_basic(*l1, *l2);
            lemma_expression_order_basic(*l2, *l3);
            lemma_text_order_basic(o1, o2);
            lemma_text_order_basic(o2, o3);
        },
        (
            ExpressionView::IfExpression { condition: c1, consequence: t1, alternative: e1 },
            ExpressionView::IfExpression { condition: c2, consequence: t2, alternative: e2 },
            ExpressionView::IfExpression { condition: c3, consequence: t3, alternative: e3 },
        ) => {
            lemma_expression_order_transitive(*c1, *c2, *c3);
            lemma_statement_order_transitive(*t1, *t2, *t3);
            lemma_alternative_order_transitive(e1, e2, e3);
            lemma_expression_order_basic(*c1, *c2);
            lemma_expression_order_basic(*c2, *c3);
            lemma_statement_order_basic(*t1, *t2);
            lemma_statement_order_basic(*t2, *t3);
        },
        (
            ExpressionView::FunctionLiteral { parameters: k1, body: b1 },
            ExpressionView::FunctionLiteral { parameters: k2, body: b2 },
            ExpressionView::FunctionLiteral { parameters: k3, body: b3 },
        ) => {
            lemma_expressions_order_transitive(k1, k2, k3);
            lemma_statement_order_transitive(*b1, *b2, *b3);
            lemma_expressions_order_basic(k1, k2);
            lemma_expressions_order_basic(k2, k3);
        },
        (
            ExpressionView::CallExpression { function: f1, body: b1 },
            ExpressionView::CallExpression { function: f2, body: b2 },
            ExpressionView::CallExpression { function: f3, body: b3 },
        ) => {
            lemma_expression_order_transitive(*f1, *f2, *f3);
            lemma_expressions_order_transitive(b1, b2, b3);
            lemma_expression_order_basic(*f1, *f2);
            lemma_expression_order_basic(*f2, *f3);
        },
        _ => {},
    }
}

/// As [`lemma_expression_order_transitive`], for the alternatives of `if`
/// expressions.
pub proof fn lemma_alternative_order_transitive(
    a: Option<Box<StatementView>>,
    b: Option<Box<StatementView>>,
    c: Option<Box<StatementView>>,
)
    ensures
        chain(alternative_order(a, b), alternative_order(b, c), alternative_order(a, c)),
    decreases a,
{
    match (a, b, c) {
        (Some(x), Some(y), Some(z)) => {
            lemma_statement_order_transitive(*x, *y, *z);
        },
        _ => {},
    }
}

/// As [`lemma_expression_order_transitive`], for sequences of expressions.
pub proof fn lemma_expressions_order_transitive(
    xs: Seq<ExpressionView>,
    ys: Seq<ExpressionView>,
    zs: Seq<ExpressionView>,
)
    ensures
        chain(expressions_order(xs, ys), expressions_order(ys, zs), expressions_order(xs, zs)),
    decreases xs,
{
    lemma_expressions_order_basic(xs, ys);
    lemma_expressions_order_basic(ys, zs);
    lemma_expressions_order_basic(xs, zs);
    if xs.len() > 0 && ys.len() > 0 && zs.len() > 0 {
        lemma_expression_order_transitive(xs[0], ys[0], zs[0]);
        lemma_expression_order_basic(xs[0], ys[0]);
        lemma_expression_order_basic(ys[0], zs[0]);
        lemma_expressions_order_transitive(xs.drop_first(), ys.drop_first(), zs.drop_first());
    }
}

/// As [`lemma_expression_order_transitive`], for entries.
pub proof fn lemma_entry_order_transitive(
    x: (ExpressionView, ExpressionView),
    y: (ExpressionView, ExpressionView),
    z: (ExpressionView, ExpressionView),
)
    ensures
        chain(entry_order(x, y), entry_order(y, z), entry_order(x, z)),
    decreases x,
{
    lemma_expression_order_transitive(x.0, y.0, z.0);
    lemma_expression_order_transitive(x.1, y.1, z.1);
    lemma_expression_order_basic(x.0, y.0);
    lemma_expression_order_basic(y.0, z.0);
}

/// As [`lemma_expression_order_transitive`], for sequences of entries.
pub proof fn lemma_entries_order_transitive(
    xs: Seq<(ExpressionView, ExpressionView)>,
    ys: Seq<(ExpressionView, ExpressionView)>,
    zs: Seq<(ExpressionView, ExpressionView)>,
)
    ensures
        chain(entries_order(xs, ys), entries_order(ys, zs), entries_order(xs, zs)),
    decreases xs,
{
    lemma_entries_order_basic(xs, ys);
    lemma_entries_order_basic(ys, zs);
    lemma_entries_order_basic(xs, zs);
    if xs.len() > 0 && ys.len() > 0 && zs.len() > 0 {
        lemma_entry_order_transitive(xs[0], ys[0], zs[0]);
        lemma_entry_order_basic(xs[0], ys[0]);
        lemma_entry_order_basic(ys[0], zs[0]);
        lemma_entries_order_transitive(xs.drop_first(), ys.drop_first(), zs.drop_first());
    }
}

/// As [`lemma_expression_order_transitive`], for statements.
pub proof fn lemma_statement_order_transitive(a: StatementView, b: StatementView, c: StatementView)
    ensures
        chain(statement_order(a, b), statement_order(b, c), statement_order(a, c)),
    decreases a,
{
    lemma_statement_order_basic(a, b);
    lemma_statement_order_basic(b, c);
    lemma_statement_order_basic(a, c);
    match (a, b, c) {
        (
            StatementView::LetStatement { identifier: i1, value: v1 },
            StatementView::LetStatement { identifier: i2, value: v2 },
            StatementView::LetStatement { identifier: i3, value: v3 },
        ) => {
            lemma_expression_order_transitive(i1, i2, i3);
            lemma_expression_order_transitive(v1, v2, v3);
            lemma_expression_order_basic(i1, i2);
            lemma_expression_order_basic(i2, i3);
        },
        (
            StatementView::ExpressionStatement(x),
            StatementView::ExpressionStatement(y),
            StatementView::ExpressionStatement(z),
        ) => {
            lemma_expression_order_transitive(x, y, z);
        },
        (StatementView::Return(x), StatementView::Return(y), StatementView::Return(z)) => {
            lemma_expression_order_transitive(x, y, z);
        },
        (StatementView::Block(xs), StatementView::Block(ys), StatementView::Block(zs)) => {
            lemma_statements_order_transitive(xs, ys, zs);
        },
        _ => {},
    }
}

/// As [`lemma_expression_order_transitive`], for sequences of statements.
pub proof fn lemma_statements_order_transitive(
    xs: Seq<StatementView>,
    ys: Seq<StatementView>,
    zs: Seq<StatementView>,
)
    ensures
        chain(statements_order(xs, ys), statements_order(ys, zs), statements_order(xs, zs)),
    decreases xs,
{
    lemma_statements_order_basic(xs, ys);
    lemma_statements_order_basic(ys, zs);
    lemma_statements_order_basic(xs, zs);
    if xs.len() > 0 && ys.len() > 0 && zs.len() > 0 {
        lemma_statement_order_transitive(xs[0], ys[0], zs[0]);
        lemma_statement_order_basic(xs[0], ys[0]);
        lemma_statement_order_basic(ys[0], zs[0]);
        lemma_statements_order_transitive(xs.drop_first(), ys.drop_first(), zs.drop_first());
    }
}

} // verus!
