//! The canonical printer: the text of every statement and expression.

use vstd::prelude::*;
use vstd::string::StringExecFns;
use crate::ast::{
    expression_view, expression_views, statement_views, Expression, ExpressionView, Program,
    Statement, StatementView,
};
use crate::expression_map::{contents, keys_increase, lemma_entries_are_canonical, ExpressionMap};
use crate::text::{int_text, int_to_string};

verus! {

/// Whether an expression can be printed: every parameter of a function
/// literal and the target of every `let` in it is an identifier.
pub open spec fn expression_well_formed(e: ExpressionView) -> bool
    decreases e,
{
    match e {
        ExpressionView::Identifier(_) => true,
        ExpressionView::String(_) => true,
        ExpressionView::Integer(_) => true,
        ExpressionView::Array(items) => expressions_well_formed(items),
        ExpressionView::Boolean(_) => true,
        ExpressionView::HashMap(entries) => entries_well_formed(entries),
        ExpressionView::LParen(_) => true,
        ExpressionView::IndexExpression { array, subscript } => expression_well_formed(*array)
            && expression_well_formed(*subscript),
        ExpressionView::PrefixExpression { operator, rightExpression } => expression_well_formed(
            *rightExpression,
        ),
        ExpressionView::InfixExpression { leftExpression, operator, rightExpression } =>
            expression_well_formed(*leftExpression) && expression_well_formed(*rightExpression),
        ExpressionView::IfExpression { condition, consequence, alternative } =>
            expression_well_formed(*condition) && statement_well_formed(*consequence) && (
            match alternative {
                Some(statement) => statement_well_formed(*statement),
                None => true,
            }),
        ExpressionView::FunctionLiteral { parameters, body } => (forall|i: int|
            0 <= i < parameters.len() ==> (#[trigger] parameters[i]) is Identifier)
            && statement_well_formed(*body),
        ExpressionView::CallExpression { function, body } => expression_well_formed(*function)
            && expressions_well_formed(body),
        ExpressionView::Null => true,
    }
}

/// Whether each of a sequence of expressions can be printed.
pub open spec fn expressions_well_formed(items: Seq<ExpressionView>) -> bool
    decreases items,
{
    forall|i: int| 0 <= i < items.len() ==> expression_well_formed(#[trigger] items[i])
}

/// Whether the key and the value of each of a sequence of entries can be
/// printed.
pub open spec fn entries_well_formed(entries: Seq<(ExpressionView, ExpressionView)>) -> bool
    decreases entries,
{
    forall|i: int|
        0 <= i < entries.len() ==> expression_well_formed((#[trigger] entries[i]).0)
            && expression_well_formed(entries[i].1)
}

/// Whether a statement can be printed.
pub open spec fn statement_well_formed(s: StatementView) -> bool
    decreases s,
{
    match s {
        StatementView::LetStatement { identifier, value } => identifier is Identifier
            && expression_well_formed(value),
        StatementView::ExpressionStatement(e) => expression_well_formed(e),
        StatementView::Return(e) => expression_well_formed(e),
        StatementView::Block(statements) => statements_well_formed(statements),
    }
}

/// Whether each of a sequence of statements can be printed.
pub open spec fn statements_well_formed(statements: Seq<StatementView>) -> bool
    decreases statements,
{
    forall|i: int| 0 <= i < statements.len() ==> statement_well_formed(#[trigger] statements[i])
}

/// The text of an expression.
pub open spec fn render_expression(e: ExpressionView) -> Seq<char>
    decreases e,
{
    match e {
        ExpressionView::Identifier(name) => name,
        ExpressionView::String(text) => text,
        ExpressionView::Integer(value) => int_text(value),
        ExpressionView::Array(items) => "["@ + render_list(items) + "]"@,
        ExpressionView::Boolean(value) => if value {
            "true"@
        } else {
            "false"@
        },
        ExpressionView::HashMap(entries) => "{"@ + render_entries(entries) + "}"@,
        ExpressionView::LParen(text) => text,
        ExpressionView::IndexExpression { array, subscript } => render_expression(*array) + "["@
            + render_expression(*subscript) + "]"@,
        ExpressionView::PrefixExpression { operator, rightExpression } => operator
            + render_expression(*rightExpression),
        ExpressionView::InfixExpression { leftExpression, operator, rightExpression } =>
            render_expression(*leftExpression) + " "@ + operator + " "@ + render_expression(
                *rightExpression,
            ),
        ExpressionView::IfExpression { condition, consequence, alternative } => {
            let head = "if ("@ + render_expression(*condition) + ") {"@ + render_statement(
                *consequence,
            ) + "}"@;
            match alternative {
                Some(statement) => head + " else {"@ + render_statement(*statement) + "}"@,
                None => head,
            }
        },
        ExpressionView::FunctionLiteral { parameters, body } => "function ("@ + render_list(
            parameters,
        ) + ") {"@ + render_statement(*body) + "}"@,
        ExpressionView::CallExpression { function, body } => render_expression(*function) + "("@
            + render_list(body) + ");"@,
        ExpressionView::Null => "null"@,
    }
}

/// The texts of a sequence of expressions, with `", "` between them.
pub open spec fn render_list(items: Seq<ExpressionView>) -> Seq<char>
    decreases items,
{
    if items.len() == 0 {
        Seq::empty()
    } else if items.len() == 1 {
        render_expression(items[0])
    } else {
        render_list(items.drop_last()) + ", "@ + render_expression(items.last())
    }
}

/// The text of one entry of a map: key, `": "`, value.
pub open spec fn render_entry(entry: (ExpressionView, ExpressionView)) -> Seq<char>
    decreases entry,
{
    render_expression(entry.0) + ": "@ + render_expression(entry.1)
}

/// The texts of the entries of a map, in their order, with `", "` between
/// them.
pub open spec fn render_entries(entries: Seq<(ExpressionView, ExpressionView)>) -> Seq<char>
    decreases entries,
{
    if entries.len() == 0 {
        Seq::empty()
    } else if entries.len() == 1 {
        render_entry(entries[0])
    } else {
        render_entries(entries.drop_last()) + ", "@ + render_entry(entries.last())
    }
}

/// The text of a statement.
pub open spec fn render_statement(s: StatementView) -> Seq<char>
    decreases s,
{
    match s {
        StatementView::LetStatement { identifier, value } => "let "@ + render_expression(
            identifier,
        ) + " = "@ + render_expression(value) + ";"@,
        StatementView::ExpressionStatement(e) => render_expression(e),
        StatementView::Return(e) => "return "@ + render_expression(e),
        StatementView::Block(statements) => render_block(statements),
    }
}

/// The texts of a sequence of statements, one after the other with nothing
/// between them.
pub open spec fn render_block(statements: Seq<StatementView>) -> Seq<char>
    decreases statements,
{
    if statements.len() == 0 {
        Seq::empty()
    } else {
        render_block(statements.drop_last()) + render_statement(statements.last())
    }
}

/// The text of a program: each statement followed by a line feed.
pub open spec fn render_program(statements: Seq<StatementView>) -> Seq<char>
    decreases statements,
{
    if statements.len() == 0 {
        Seq::empty()
    } else {
        render_program(statements.drop_last()) + render_statement(statements.last()) + "\n"@
    }
}

/// A map literal prints by what it maps, not by how it was built: two maps
/// whose keys increase and that map the same keys to the same values print
/// the same text.
pub proof fn lemma_map_prints_by_contents(
    a: Seq<(ExpressionView, ExpressionView)>,
    b: Seq<(ExpressionView, ExpressionView)>,
)
    requires
        keys_increase(a),
        keys_increase(b),
        contents(a) == contents(b),
    ensures
        render_expression(ExpressionView::HashMap(a)) == render_expression(
            ExpressionView::HashMap(b),
        ),
{
    lemma_entries_are_canonical(a, b);
}

/// Whether each of `items` can be printed.
fn all_well_formed(items: &Vec<Expression>) -> (ok: bool)
    ensures
        ok == expressions_well_formed(expression_views(items@)),
    decreases items,
{
    let ghost views = expression_views(items@);
    let mut i: usize = 0;
    while i < items.len()
        invariant
            i <= items.len(),
            views == expression_views(items@),
            forall|j: int| 0 <= j < i ==> expression_well_formed(#[trigger] views[j]),
        decreases items.len() - i,
    {
        if !items[i].is_well_formed() {
            assert(!expression_well_formed(views[i as int]));
            return false;
        }
        i += 1;
    }
    true
}

/// Whether each of `parameters` is an identifier.
fn all_identifiers(parameters: &Vec<Expression>) -> (ok: bool)
    ensures
        ok == (forall|i: int|
            0 <= i < parameters.len() ==> (#[trigger] expression_views(parameters@)[i])
                is Identifier),
{
    let ghost views = expression_views(parameters@);
    let mut i: usize = 0;
    while i < parameters.len()
        invariant
            i <= parameters.len(),
            views == expression_views(parameters@),
            forall|j: int| 0 <= j < i ==> (#[trigger] views[j]) is Identifier,
        decreases parameters.len() - i,
    {
        assert(views[i as int] == expression_view(parameters@[i as int]));
        match &parameters[i] {
            Expression::Identifier(_) => {},
            _ => {
                assert(!(views[i as int] is Identifier));
                return false;
            },
        }
        i += 1;
    }
    true
}

/// Whether the key and the value of each entry of `entries` can be printed.
fn all_entries_well_formed(entries: &ExpressionMap) -> (ok: bool)
    ensures
        ok == entries_well_formed(entries@),
    decreases entries,
{
    let ghost views = entries@;
    let mut i: usize = 0;
    while i < entries.len()
        invariant
            i <= views.len(),
            views == entries@,
            forall|j: int|
                0 <= j < i ==> expression_well_formed((#[trigger] views[j]).0)
                    && expression_well_formed(views[j].1),
        decreases views.len() - i,
    {
        let (key, value) = entries.entry(i);
        if !key.is_well_formed() || !value.is_well_formed() {
            assert(!(expression_well_formed(views[i as int].0) && expression_well_formed(
                views[i as int].1,
            )));
            return false;
        }
        i += 1;
    }
    true
}

/// Whether each of `statements` can be printed.
fn all_statements_well_formed(statements: &Vec<Statement>) -> (ok: bool)
    ensures
        ok == statements_well_formed(statement_views(statements@)),
    decreases statements,
{
    let ghost views = statement_views(statements@);
    let mut i: usize = 0;
    while i < statements.len()
        invariant
            i <= statements.len(),
            views == statement_views(statements@),
            forall|j: int| 0 <= j < i ==> statement_well_formed(#[trigger] views[j]),
        decreases statements.len() - i,
    {
        if !statements[i].is_well_formed() {
            assert(!statement_well_formed(views[i as int]));
            return false;
        }
        i += 1;
    }
    true
}

impl Expression {
    /// Whether this expression can be printed.
    pub fn is_well_formed(&self) -> (ok: bool)
        ensures
            ok == expression_well_formed(self@),
        decreases self,
    {
        match self {
            Expression::Identifier(_) => true,
            Expression::String(_) => true,
            Expression::Integer(_) => true,
            Expression::Array(items) => all_well_formed(items),
            Expression::Boolean(_) => true,
            Expression::HashMap(entries) => all_entries_well_formed(entries),
            Expression::LParen(_) => true,
            Expression::IndexExpression { array, subscript } => array.is_well_formed()
                && subscript.is_well_formed(),
            Expression::PrefixExpression { operator: _, rightExpression } =>
                rightExpression.is_well_formed(),
            Expression::InfixExpression { leftExpression, operator: _, rightExpression } =>
                leftExpression.is_well_formed() && rightExpression.is_well_formed(),
            Expression::IfExpression { condition, consequence, alternative } => {
                if !condition.is_well_formed() || !consequence.is_well_formed() {
                    return false;
                }
                match alternative {
                    Some(statement) => statement.is_well_formed(),
                    None => true,
                }
            },
            Expression::FunctionLiteral { parameters, body } => all_identifiers(parameters)
                && body.is_well_formed(),
            Expression::CallExpression { function, body } => function.is_well_formed()
                && all_well_formed(body),
            Expression::Null => true,
        }
    }
}

impl Statement {
    /// Whether this statement can be printed.
    pub fn is_well_formed(&self) -> (ok: bool)
        ensures
            ok == statement_well_formed(self@),
        decreases self,
    {
        match self {
            Statement::LetStatement { identifier, value } => {
                match identifier {
                    Expression::Identifier(_) => value.is_well_formed(),
                    _ => false,
                }
            },
            Statement::ExpressionStatement(expression) => expression.is_well_formed(),
            Statement::Return(expression) => expression.is_well_formed(),
            Statement::Block(statements) => all_statements_well_formed(statements),
        }
    }
}

impl Program {
    /// Whether every statement of this program can be printed.
    pub fn is_well_formed(&self) -> (ok: bool)
        ensures
            ok == statements_well_formed(self@),
    {
        all_statements_well_formed(&self.statements)
    }
}

/// The texts of `items`, with `", "` between them.
fn join_expressions(items: &Vec<Expression>) -> (text: String)
    requires
        expressions_well_formed(expression_views(items@)),
    ensures
        text@ == render_list(expression_views(items@)),
    decreases items,
{
    let ghost views = expression_views(items@);
    let mut text = String::new();
    let mut i: usize = 0;
    while i < items.len()
        invariant
            i <= items.len(),
            views == expression_views(items@),
            expressions_well_formed(views),
            text@ == render_list(views.take(i as int)),
        decreases items.len() - i,
    {
        if i > 0 {
            text.append(", ");
        }
        assert(expression_well_formed(views[i as int]));
        let piece = items[i].to_string();
        text.append(piece.as_str());
        proof {
            let before = views.take(i as int);
            let now = views.take(i + 1);
            assert(now.drop_last() == before);
            assert(now.last() == views[i as int]);
            if i == 0 {
                assert(text@ == piece@);
            }
        }
        i += 1;
    }
    proof {
        assert(views.take(items.len() as int) == views);
    }
    text
}

/// The texts of the entries of `entries`, with `", "` between them.
fn join_entries(entries: &ExpressionMap) -> (text: String)
    requires
        entries_well_formed(entries@),
    ensures
        text@ == render_entries(entries@),
    decreases entries,
{
    let ghost views = entries@;
    let mut text = String::new();
    let mut i: usize = 0;
    while i < entries.len()
        invariant
            i <= views.len(),
            views == entries@,
            entries_well_formed(views),
            text@ == render_entries(views.take(i as int)),
        decreases views.len() - i,
    {
        if i > 0 {
            text.append(", ");
        }
        let ghost start = text@;
        let (key, value) = entries.entry(i);
        assert(expression_well_formed(views[i as int].0) && expression_well_formed(
            views[i as int].1,
        ));
        let key_text = key.to_string();
        text.append(key_text.as_str());
        text.append(": ");
        let value_text = value.to_string();
        text.append(value_text.as_str());
        proof {
            let before = views.take(i as int);
            let now = views.take(i + 1);
            assert(now.drop_last() == before);
            assert(now.last() == views[i as int]);
            assert(text@ == start + render_entry(views[i as int]));
            if i == 0 {
                assert(text@ == render_entry(views[i as int]));
            }
        }
        i += 1;
    }
    proof {
        assert(views.take(views.len() as int) == views);
    }
    text
}

/// The texts of `statements`, one after the other.
fn join_statements(statements: &Vec<Statement>) -> (text: String)
    requires
        statements_well_formed(statement_views(statements@)),
    ensures
        text@ == render_block(statement_views(statements@)),
    decreases statements,
{
    let ghost views = statement_views(statements@);
    let mut text = String::new();
    let mut i: usize = 0;
    while i < statements.len()
        invariant
            i <= statements.len(),
            views == statement_views(statements@),
            statements_well_formed(views),
            text@ == render_block(views.take(i as int)),
        decreases statements.len() - i,
    {
        assert(statement_well_formed(views[i as int]));
        let piece = statements[i].to_string();
        text.append(piece.as_str());
        proof {
            let before = views.take(i as int);
            let now = views.take(i + 1);
            assert(now.drop_last() == before);
            assert(now.last() == views[i as int]);
        }
        i += 1;
    }
    proof {
        assert(views.take(statements.len() as int) == views);
    }
    text
}

impl Expression {
    /// The canonical text of this expression.
    pub fn to_string(&self) -> (text: String)
        requires
            expression_well_formed(self@),
        ensures
            text@ == render_expression(self@),
        decreases self,
    {
        match self {
            Expression::Identifier(name) => name.clone(),
            Expression::String(value) => value.clone(),
            Expression::Integer(value) => int_to_string(*value),
            Expression::Array(items) => {
                let mut text = "[".to_owned();
                let inner = join_expressions(items);
                text.append(inner.as_str());
                text.append("]");
                text
            },
            Expression::Boolean(value) => {
                if *value {
                    "true".to_owned()
                } else {
                    "false".to_owned()
                }
            },
            Expression::HashMap(entries) => {
                let mut text = "{".to_owned();
                let inner = join_entries(entries);
                text.append(inner.as_str());
                text.append("}");
                text
            },
            Expression::LParen(value) => value.clone(),
            Expression::IndexExpression { array, subscript } => {
                let mut text = array.to_string();
                text.append("[");
                let inner = subscript.to_string();
                text.append(inner.as_str());
                text.append("]");
                text
            },
            Expression::PrefixExpression { operator, rightExpression } => {
                let mut text = operator.clone();
                let operand = rightExpression.to_string();
                text.append(operand.as_str());
                text
            },
            Expression::InfixExpression { leftExpression, operator, rightExpression } => {
                let mut text = leftExpression.to_string();
                text.append(" ");
                text.append(operator.as_str());
                text.append(" ");
                let right = rightExpression.to_string();
                text.append(right.as_str());
                text
            },
            Expression::IfExpression { condition, consequence, alternative } => {
                let mut text = "if (".to_owned();
                let tested = condition.to_string();
                text.append(tested.as_str());
                text.append(") {");
                let taken = consequence.to_string();
                text.append(taken.as_str());
                text.append("}");
                match alternative {
                    Some(statement) => {
                        text.append(" else {");
                        let otherwise = statement.to_string();
                        text.append(otherwise.as_str());
                        text.append("}");
                    },
                    None => {},
                }
                text
            },
            Expression::FunctionLiteral { parameters, body } => {
                let mut text = "function (".to_owned();
                let names = join_parameters(parameters);
                text.append(names.as_str());
                text.append(") {");
                let inner = body.to_string();
                text.append(inner.as_str());
                text.append("}");
                text
            },
            Expression::CallExpression { function, body } => {
                let mut text = function.to_string();
                text.append("(");
                let arguments = join_expressions(body);
                text.append(arguments.as_str());
                text.append(");");
                text
            },
            Expression::Null => "null".to_owned(),
        }
    }
}

/// The names of the parameters of a function literal, with `", "` between
/// them.
fn join_parameters(parameters: &Vec<Expression>) -> (text: String)
    requires
        forall|i: int|
            0 <= i < parameters.len() ==> (#[trigger] expression_views(parameters@)[i])
                is Identifier,
    ensures
        text@ == render_list(expression_views(parameters@)),
{
    let ghost views = expression_views(parameters@);
    let mut text = String::new();
    let mut i: usize = 0;
    while i < parameters.len()
        invariant
            i <= parameters.len(),
            views == expression_views(parameters@),
            forall|j: int| 0 <= j < views.len() ==> (#[trigger] views[j]) is Identifier,
            text@ == render_list(views.take(i as int)),
        decreases parameters.len() - i,
    {
        if i > 0 {
            text.append(", ");
        }
        assert(views[i as int] is Identifier);
        match &parameters[i] {
            Expression::Identifier(name) => {
                text.append(name.as_str());
                proof {
                    let before = views.take(i as int);
                    let now = views.take(i + 1);
                    assert(now.drop_last() == before);
                    assert(now.last() == views[i as int]);
                    assert(views[i as int] == expression_view(parameters@[i as int]));
                    assert(render_expression(views[i as int]) == name@);
                    if i == 0 {
                        assert(text@ == name@);
                    }
                }
            },
            _ => {
                unreached::<()>();
            },
        }
        i += 1;
    }
    proof {
        assert(views.take(parameters.len() as int) == views);
    }
    text
}

impl Statement {
    /// The canonical text of this statement.
    pub fn to_string(&self) -> (text: String)
        requires
            statement_well_formed(self@),
        ensures
            text@ == render_statement(self@),
        decreases self,
    {
        match self {
            Statement::LetStatement { identifier, value } => {
                let mut text = "let ".to_owned();
                let name = identifier.to_string();
                text.append(name.as_str());
                text.append(" = ");
                let bound = value.to_string();
                text.append(bound.as_str());
                text.append(";");
                text
            },
            Statement::ExpressionStatement(expression) => expression.to_string(),
            Statement::Return(expression) => {
                let mut text = "return ".to_owned();
                let returned = expression.to_string();
                text.append(returned.as_str());
                text
            },
            Statement::Block(statements) => join_statements(statements),
        }
    }
}

impl Program {
    /// The text of this program: each statement on a line of its own.
    pub fn to_string(&self) -> (text: String)
        requires
            statements_well_formed(self@),
        ensures
            text@ == render_program(self@),
    {
        let ghost views = self@;
        let mut text = String::new();
        let mut i: usize = 0;
        while i < self.statements.len()
            invariant
                i <= self.statements.len(),
                views == statement_views(self.statements@),
                statements_well_formed(views),
                text@ == render_program(views.take(i as int)),
            decreases self.statements.len() - i,
        {
            assert(statement_well_formed(views[i as int]));
            let piece = self.statements[i].to_string();
            text.append(piece.as_str());
            text.append("\n");
            proof {
                let before = views.take(i as int);
                let now = views.take(i + 1);
                assert(now.drop_last() == before);
                assert(now.last() == views[i as int]);
            }
            i += 1;
        }
        proof {
            assert(views.take(self.statements.len() as int) == views);
        }
        text
    }
}

} // verus!
