//! Copies of syntax trees.

use vstd::prelude::*;
use crate::ast::{expression_views, statement_views, Expression, Statement};

verus! {

/// A copy of each of `items`.
fn clone_expressions(items: &Vec<Expression>) -> (copy: Vec<Expression>)
    ensures
        expression_views(copy@) == expression_views(items@),
    decreases items,
{
    let mut copy: Vec<Expression> = Vec::new();
    let mut i: usize = 0;
    while i < items.len()
        invariant
            i <= items.len(),
            copy.len() == i,
            forall|j: int| 0 <= j < i ==> (#[trigger] copy@[j])@ == items@[j]@,
        decreases items.len() - i,
    {
        copy.push(items[i].clone());
        i += 1;
    }
    proof {
        assert(expression_views(copy@) =~= expression_views(items@));
    }
    copy
}

/// A copy of each of `statements`.
fn clone_statements(statements: &Vec<Statement>) -> (copy: Vec<Statement>)
    ensures
        statement_views(copy@) == statement_views(statements@),
    decreases statements,
{
    let mut copy: Vec<Statement> = Vec::new();
    let mut i: usize = 0;
    while i < statements.len()
        invariant
            i <= statements.len(),
            copy.len() == i,
            forall|j: int| 0 <= j < i ==> (#[trigger] copy@[j])@ == statements@[j]@,
        decreases statements.len() - i,
    {
        copy.push(statements[i].clone());
        i += 1;
    }
    proof {
        assert(statement_views(copy@) =~= statement_views(statements@));
    }
    copy
}

impl Clone for Expression {
    /// A copy of this expression, equal to it in value.
    fn clone(&self) -> (copy: Self)
        ensures
            copy@ == self@,
        decreases self,
    {
        match self {
            Expression::Identifier(name) => Expression::Identifier(name.clone()),
            Expression::String(text) => Expression::String(text.clone()),
            Expression::Integer(value) => Expression::Integer(*value),
            Expression::Array(items) => Expression::Array(clone_expressions(items)),
            Expression::Boolean(value) => Expression::Boolean(*value),
            Expression::HashMap(entries) => Expression::HashMap(entries.clone()),
            Expression::LParen(text) => Expression::LParen(text.clone()),
            Expression::IndexExpression { array, subscript } => Expression::IndexExpression {
                array: Box::new((**array).clone()),
                subscript: Box::new((**subscript).clone()),
            },
            Expression::PrefixExpression { operator, rightExpression } => {
                Expression::PrefixExpression {
                    operator: operator.clone(),
                    rightExpression: Box::new((**rightExpression).clone()),
                }
            },
            Expression::InfixExpression { leftExpression, operator, rightExpression } => {
                Expression::InfixExpression {
                    leftExpression: Box::new((**leftExpression).clone()),
                    operator: operator.clone(),
                    rightExpression: Box::new((**rightExpression).clone()),
                }
            },
            Expression::IfExpression { condition, consequence, alternative } => {
                Expression::IfExpression {
                    condition: Box::new((**condition).clone()),
                    consequence: Box::new((**consequence).clone()),
                    alternative: match alternative {
                        Some(statement) => Some(Box::new((**statement).clone())),
                        None => None,
                    },
                }
            },
            Expression::FunctionLiteral { parameters, body } => Expression::FunctionLiteral {
                parameters: clone_expressions(parameters),
                body: Box::new((**body).clone()),
            },
            Expression::CallExpression { function, body } => Expression::CallExpression {
                function: Box::new((**function).clone()),
                body: clone_expressions(body),
            },
            Expression::Null => Expression::Null,
        }
    }
}

impl Clone for Statement {
    /// A copy of this statement, equal to it in value.
    fn clone(&self) -> (copy: Self)
        ensures
            copy@ == self@,
        decreases self,
    {
        match self {
            Statement::LetStatement { identifier, value } => Statement::LetStatement {
                identifier: identifier.clone(),
                value: value.clone(),
            },
            Statement::ExpressionStatement(expression) => Statement::ExpressionStatement(
                expression.clone(),
            ),
            Statement::Return(expression) => Statement::Return(expression.clone()),
            Statement::Block(statements) => Statement::Block(clone_statements(statements)),
        }
    }
}

} // verus!
