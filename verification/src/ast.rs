//! Binding powers and the syntax tree.

use vstd::prelude::*;
use core::cmp::Ordering;
use crate::expression_map::{map_view, ExpressionMap};

verus! {

/// Binding power of an infix or postfix construct, weakest first.
#[derive(Debug, Clone, Copy, PartialEq, Eq, Structural)]
pub enum Precedence {
    /// Every token that binds nothing.
    LOWEST,
    /// `==` and `!=`
    EQUALS,
    /// `<` and `>`
    LESSGREATER,
    /// `+` and `-`
    SUM,
    /// `*` and `/`
    PRODUCT,
    /// A prefix operator such as `!x` or `-x`
    PREFIX,
    /// Indexing with `[`
    LBRANCKET,
    /// A call with `(`
    CALL,
}

impl Precedence {
    /// Place of a level in the binding order: 0 for the weakest.
    pub open spec fn spec_rank(self) -> nat {
        match self {
            Precedence::LOWEST => 0,
            Precedence::EQUALS => 1,
            Precedence::LESSGREATER => 2,
            Precedence::SUM => 3,
            Precedence::PRODUCT => 4,
            Precedence::PREFIX => 5,
            Precedence::LBRANCKET => 6,
            Precedence::CALL => 7,
        }
    }

    /// Place of a level in the binding order: 0 for the weakest.
    pub fn rank(self) -> (r: u8)
        ensures
            r == self.spec_rank(),
    {
        match self {
            Precedence::LOWEST => 0,
            Precedence::EQUALS => 1,
            Precedence::LESSGREATER => 2,
            Precedence::SUM => 3,
            Precedence::PRODUCT => 4,
            Precedence::PREFIX => 5,
            Precedence::LBRANCKET => 6,
            Precedence::CALL => 7,
        }
    }

}

impl PartialOrd for Precedence {
    /// The order of two levels: that of their ranks.
    fn partial_cmp(&self, other: &Self) -> (order: Option<Ordering>) {
        let a = self.rank();
        let b = other.rank();
        if a < b {
            Some(Ordering::Less)
        } else if a > b {
            Some(Ordering::Greater)
        } else {
            Some(Ordering::Equal)
        }
    }
}

impl vstd::std_specs::cmp::PartialOrdSpecImpl for Precedence {
    open spec fn obeys_partial_cmp_spec() -> bool {
        true
    }

    open spec fn partial_cmp_spec(&self, other: &Self) -> Option<Ordering> {
        if self.spec_rank() < other.spec_rank() {
            Some(Ordering::Less)
        } else if self.spec_rank() > other.spec_rank() {
            Some(Ordering::Greater)
        } else {
            Some(Ordering::Equal)
        }
    }
}

impl Precedence {
    /// Whether `self` binds strictly tighter than `other`: `>` on levels is
    /// the order of their ranks.
    pub fn binds_tighter_than(self, other: Precedence) -> (tighter: bool)
        ensures
            tighter == (self.spec_rank() > other.spec_rank()),
    {
        self > other
    }
}

/// The binding order is total: two levels of the same rank are the same level.
pub proof fn lemma_rank_is_injective(a: Precedence, b: Precedence)
    requires
        a.spec_rank() == b.spec_rank(),
    ensures
        a == b,
{
}

/// A parsed unit: its statements in source order.
#[derive(Debug, PartialEq)]
pub struct Program {
    pub statements: Vec<Statement>,
}

/// A statement.
#[derive(Debug, Eq, PartialEq, Hash, Ord, PartialOrd)]
pub enum Statement {
    /// `let identifier = value;` where `identifier` is to be an
    /// [`Expression::Identifier`].
    LetStatement { identifier: Expression, value: Expression },
    /// An expression standing as a statement.
    ExpressionStatement(Expression),
    /// `return` and the value returned.
    Return(Expression),
    /// A sequence of statements between braces.
    Block(Vec<Statement>),
}

/// An expression.
#[allow(non_snake_case)]
#[allow(inconsistent_fields)]
#[derive(Debug, Eq, PartialEq, Hash, Ord, PartialOrd)]
pub enum Expression {
    /// A name.
    Identifier(String),
    /// A string literal, without its quotes.
    String(String),
    /// An integer literal.
    Integer(i32),
    /// An array literal.
    Array(Vec<Expression>),
    /// `true` or `false`.
    Boolean(bool),
    /// A map literal, its entries in the order of their keys.
    HashMap(ExpressionMap),
    /// The text of a parenthesised group.
    LParen(String),
    /// `array[subscript]`
    IndexExpression { array: Box<Expression>, subscript: Box<Expression> },
    /// An operator before its operand.
    PrefixExpression { operator: String, rightExpression: Box<Expression> },
    /// An operator between two operands.
    InfixExpression {
        leftExpression: Box<Expression>,
        operator: String,
        rightExpression: Box<Expression>,
    },
    /// `if (condition) {consequence}`, with `else {alternative}` where there
    /// is one.
    IfExpression {
        condition: Box<Expression>,
        consequence: Box<Statement>,
        alternative: Option<Box<Statement>>,
    },
    /// A function literal; each of `parameters` is to be an
    /// [`Expression::Identifier`].
    FunctionLiteral { parameters: Vec<Expression>, body: Box<Statement> },
    /// A call: the callee and its arguments.
    CallExpression { function: Box<Expression>, body: Vec<Expression> },
    /// The absent value.
    Null,
}

/// The mathematical value of a [`Statement`].
pub enum StatementView {
    LetStatement { identifier: ExpressionView, value: ExpressionView },
    ExpressionStatement(ExpressionView),
    Return(ExpressionView),
    Block(Seq<StatementView>),
}

/// The mathematical value of an [`Expression`]: text as characters, integers
/// unbounded, sequences in place of vectors, and a map as the sequence of its
/// entries.
#[allow(non_snake_case)]
#[allow(inconsistent_fields)]
pub enum ExpressionView {
    Identifier(Seq<char>),
    String(Seq<char>),
    Integer(int),
    Array(Seq<ExpressionView>),
    Boolean(bool),
    HashMap(Seq<(ExpressionView, ExpressionView)>),
    LParen(Seq<char>),
    IndexExpression { array: Box<ExpressionView>, subscript: Box<ExpressionView> },
    PrefixExpression { operator: Seq<char>, rightExpression: Box<ExpressionView> },
    InfixExpression {
        leftExpression: Box<ExpressionView>,
        operator: Seq<char>,
        rightExpression: Box<ExpressionView>,
    },
    IfExpression {
        condition: Box<ExpressionView>,
        consequence: Box<StatementView>,
        alternative: Option<Box<StatementView>>,
    },
    FunctionLiteral { parameters: Seq<ExpressionView>, body: Box<StatementView> },
    CallExpression { function: Box<ExpressionView>, body: Seq<ExpressionView> },
    Null,
}

/// The value of a statement.
pub open spec fn statement_view(s: Statement) -> StatementView
    decreases s,
{
    match s {
        Statement::LetStatement { identifier, value } => StatementView::LetStatement {
            identifier: expression_view(identifier),
            value: expression_view(value),
        },
        Statement::ExpressionStatement(e) => StatementView::ExpressionStatement(
            expression_view(e),
        ),
        Statement::Return(e) => StatementView::Return(expression_view(e)),
        Statement::Block(statements) => StatementView::Block(statement_views(statements@)),
    }
}

/// The values of a sequence of statements, one by one.
pub open spec fn statement_views(statements: Seq<Statement>) -> Seq<StatementView>
    decreases statements,
{
    Seq::new(
        statements.len(),
        |i: int|
            if 0 <= i < statements.len() {
                statement_view(statements[i])
            } else {
                StatementView::Block(Seq::empty())
            },
    )
}

/// The value of an expression.
pub open spec fn expression_view(e: Expression) -> ExpressionView
    decreases e,
{
    match e {
        Expression::Identifier(name) => ExpressionView::Identifier(name@),
        Expression::String(text) => ExpressionView::String(text@),
        Expression::Integer(value) => ExpressionView::Integer(value as int),
        Expression::Array(items) => ExpressionView::Array(expression_views(items@)),
        Expression::Boolean(value) => ExpressionView::Boolean(value),
        Expression::HashMap(entries) => ExpressionView::HashMap(map_view(entries)),
        Expression::LParen(text) => ExpressionView::LParen(text@),
        Expression::IndexExpression { array, subscript } => ExpressionView::IndexExpression {
            array: Box::new(expression_view(*array)),
            subscript: Box::new(expression_view(*subscript)),
        },
        Expression::PrefixExpression { operator, rightExpression } => {
            ExpressionView::PrefixExpression {
                operator: operator@,
                rightExpression: Box::new(expression_view(*rightExpression)),
            }
        },
        Expression::InfixExpression { leftExpression, operator, rightExpression } => {
            ExpressionView::InfixExpression {
                leftExpression: Box::new(expression_view(*leftExpression)),
                operator: operator@,
                rightExpression: Box::new(expression_view(*rightExpression)),
            }
        },
        Expression::IfExpression { condition, consequence, alternative } => {
            ExpressionView::IfExpression {
                condition: Box::new(expression_view(*condition)),
                consequence: Box::new(statement_view(*consequence)),
                alternative: match alternative {
                    Some(statement) => Some(Box::new(statement_view(*statement))),
                    None => None,
                },
            }
        },
        Expression::FunctionLiteral { parameters, body } => ExpressionView::FunctionLiteral {
            parameters: expression_views(parameters@),
            body: Box::new(statement_view(*body)),
        },
        Expression::CallExpression { function, body } => ExpressionView::CallExpression {
            function: Box::new(expression_view(*function)),
            body: expression_views(body@),
        },
        Expression::Null => ExpressionView::Null,
    }
}

/// The values of a sequence of expressions, one by one.
pub open spec fn expression_views(items: Seq<Expression>) -> Seq<ExpressionView>
    decreases items,
{
    Seq::new(
        items.len(),
        |i: int|
            if 0 <= i < items.len() {
                expression_view(items[i])
            } else {
                ExpressionView::Null
            },
    )
}

impl View for Statement {
    type V = StatementView;

    open spec fn view(&self) -> StatementView {
        statement_view(*self)
    }
}

impl View for Expression {
    type V = ExpressionView;

    open spec fn view(&self) -> ExpressionView {
        expression_view(*self)
    }
}

impl View for Program {
    type V = Seq<StatementView>;

    open spec fn view(&self) -> Seq<StatementView> {
        statement_views(self.statements@)
    }
}

} // verus!
