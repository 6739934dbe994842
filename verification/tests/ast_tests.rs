use script_syntax::ast::{Expression, Precedence, Program, Statement};
use script_syntax::compare::{compare_expressions, compare_statements, Placing};
use script_syntax::expression_map::ExpressionMap;
use script_syntax::text::{bytes_match, int_to_string, substring, text_equals};

fn ident(name: &str) -> Expression {
    Expression::Identifier(name.to_string())
}

fn num(value: i32) -> Expression {
    Expression::Integer(value)
}

fn boxed(e: Expression) -> Box<Expression> {
    Box::new(e)
}

fn block_of(e: Expression) -> Statement {
    Statement::Block(vec![Statement::ExpressionStatement(e)])
}

#[test]
fn infix_is_spaced() {
    let e = Expression::InfixExpression {
        leftExpression: boxed(num(1)),
        operator: "+".to_string(),
        rightExpression: boxed(num(2)),
    };
    assert_eq!(e.to_string(), "1 + 2");
}

#[test]
fn prefix_is_not_spaced() {
    let e = Expression::PrefixExpression {
        operator: "-".to_string(),
        rightExpression: boxed(num(5)),
    };
    assert_eq!(e.to_string(), "-5");
}

#[test]
fn if_without_alternative() {
    let e = Expression::IfExpression {
        condition: boxed(Expression::Boolean(true)),
        consequence: Box::new(block_of(num(1))),
        alternative: None,
    };
    assert_eq!(e.to_string(), "if (true) {1}");
}

#[test]
fn if_with_alternative() {
    let e = Expression::IfExpression {
        condition: boxed(Expression::InfixExpression {
            leftExpression: boxed(ident("x")),
            operator: "<".to_string(),
            rightExpression: boxed(ident("y")),
        }),
        consequence: Box::new(block_of(ident("x"))),
        alternative: Some(Box::new(block_of(ident("y")))),
    };
    assert_eq!(e.to_string(), "if (x < y) {x} else {y}");
}

#[test]
fn map_prints_in_key_order_not_insertion_order() {
    let mut first = ExpressionMap::new();
    assert!(first.insert(ident("b"), num(1)).is_none());
    assert!(first.insert(ident("a"), num(2)).is_none());
    let mut second = ExpressionMap::new();
    assert!(second.insert(ident("a"), num(2)).is_none());
    assert!(second.insert(ident("b"), num(1)).is_none());
    assert_eq!(Expression::HashMap(first).to_string(), "{a: 2, b: 1}");
    assert_eq!(Expression::HashMap(second).to_string(), "{a: 2, b: 1}");
}

#[test]
fn maps_with_the_same_entries_are_equal() {
    let keys = ["delta", "alpha", "charlie", "bravo", "echo"];
    let mut forward = ExpressionMap::new();
    for (i, k) in keys.iter().enumerate() {
        forward.insert(ident(k), num(i as i32));
    }
    let mut backward = ExpressionMap::new();
    for (i, k) in keys.iter().enumerate().rev() {
        backward.insert(ident(k), num(i as i32));
    }
    assert_eq!(forward, backward);
    assert_eq!(forward.len(), 5);
    assert_eq!(
        Expression::HashMap(forward).to_string(),
        "{alpha: 1, bravo: 3, charlie: 2, delta: 0, echo: 4}"
    );
}

#[test]
fn inserting_a_held_key_replaces_its_value() {
    let mut map = ExpressionMap::new();
    assert!(map.is_empty());
    assert_eq!(map.insert(ident("a"), num(1)), None);
    assert_eq!(map.insert(ident("a"), num(2)), Some(num(1)));
    assert_eq!(map.len(), 1);
    assert!(!map.is_empty());
    assert_eq!(map.get(&ident("a")), Some(&num(2)));
    assert_eq!(map.get(&ident("b")), None);
    assert_eq!(Expression::HashMap(map).to_string(), "{a: 2}");
}

#[test]
fn empty_map_prints_braces() {
    assert_eq!(Expression::HashMap(ExpressionMap::new()).to_string(), "{}");
}

#[test]
fn map_keys_of_different_variants_go_by_variant() {
    let mut map = ExpressionMap::new();
    map.insert(Expression::Null, num(0));
    map.insert(Expression::Boolean(true), num(1));
    map.insert(num(7), num(2));
    map.insert(Expression::String("s".to_string()), num(3));
    map.insert(ident("z"), num(4));
    map.insert(Expression::Boolean(false), num(5));
    map.insert(num(-7), num(6));
    map.insert(Expression::Array(vec![num(1)]), num(7));
    assert_eq!(
        Expression::HashMap(map).to_string(),
        "{z: 4, s: 3, -7: 6, 7: 2, [1]: 7, false: 5, true: 1, null: 0}"
    );
}

#[test]
fn entries_come_out_in_key_order() {
    let mut map = ExpressionMap::new();
    map.insert(num(3), ident("c"));
    map.insert(num(1), ident("a"));
    map.insert(num(2), ident("b"));
    let (key, value) = map.entry(0);
    assert_eq!((key, value), (&num(1), &ident("a")));
    let (key, value) = map.entry(2);
    assert_eq!((key, value), (&num(3), &ident("c")));
}

#[test]
fn comparison_agrees_with_the_derived_order() {
    let samples = vec![
        ident(""),
        ident("a"),
        ident("ab"),
        ident("b"),
        ident("é"),
        Expression::String("a".to_string()),
        num(i32::MIN),
        num(-1),
        num(0),
        num(i32::MAX),
        Expression::Array(vec![]),
        Expression::Array(vec![num(1)]),
        Expression::Array(vec![num(1), num(0)]),
        Expression::Array(vec![num(2)]),
        Expression::Boolean(false),
        Expression::Boolean(true),
        Expression::LParen("(".to_string()),
        Expression::IndexExpression { array: boxed(ident("a")), subscript: boxed(num(0)) },
        Expression::IndexExpression { array: boxed(ident("a")), subscript: boxed(num(1)) },
        Expression::PrefixExpression { operator: "!".to_string(), rightExpression: boxed(num(1)) },
        Expression::PrefixExpression { operator: "-".to_string(), rightExpression: boxed(num(0)) },
        Expression::InfixExpression {
            leftExpression: boxed(num(1)),
            operator: "*".to_string(),
            rightExpression: boxed(num(2)),
        },
        Expression::InfixExpression {
            leftExpression: boxed(num(1)),
            operator: "+".to_string(),
            rightExpression: boxed(num(1)),
        },
        Expression::IfExpression {
            condition: boxed(ident("c")),
            consequence: Box::new(block_of(num(1))),
            alternative: None,
        },
        Expression::IfExpression {
            condition: boxed(ident("c")),
            consequence: Box::new(block_of(num(1))),
            alternative: Some(Box::new(block_of(num(0)))),
        },
        Expression::FunctionLiteral {
            parameters: vec![ident("x")],
            body: Box::new(Statement::Return(ident("x"))),
        },
        Expression::FunctionLiteral {
            parameters: vec![ident("x"), ident("y")],
            body: Box::new(Statement::Block(vec![])),
        },
        Expression::CallExpression { function: boxed(ident("f")), body: vec![] },
        Expression::CallExpression { function: boxed(ident("f")), body: vec![num(1)] },
        Expression::Null,
    ];
    for a in samples.iter() {
        for b in samples.iter() {
            let expected = match a.cmp(b) {
                std::cmp::Ordering::Less => Placing::Before,
                std::cmp::Ordering::Equal => Placing::Same,
                std::cmp::Ordering::Greater => Placing::After,
            };
            assert_eq!(compare_expressions(a, b), expected, "{:?} against {:?}", a, b);
        }
    }
}

#[test]
fn comparison_of_maps_goes_entry_by_entry() {
    let mut small = ExpressionMap::new();
    small.insert(num(1), num(1));
    let mut large = ExpressionMap::new();
    large.insert(num(1), num(1));
    large.insert(num(2), num(0));
    let mut other = ExpressionMap::new();
    other.insert(num(1), num(2));
    let (small, large, other) =
        (Expression::HashMap(small), Expression::HashMap(large), Expression::HashMap(other));
    assert_eq!(compare_expressions(&small, &large), Placing::Before);
    assert_eq!(compare_expressions(&large, &small), Placing::After);
    assert_eq!(compare_expressions(&large, &other), Placing::Before);
    assert_eq!(compare_expressions(&small, &small), Placing::Same);
    assert!(small < large && large < other);
}

#[test]
fn comparison_of_statements_agrees_with_the_derived_order() {
    let samples = vec![
        Statement::LetStatement { identifier: ident("a"), value: num(1) },
        Statement::LetStatement { identifier: ident("a"), value: num(2) },
        Statement::LetStatement { identifier: ident("b"), value: num(0) },
        Statement::ExpressionStatement(num(1)),
        Statement::Return(num(0)),
        Statement::Return(num(1)),
        Statement::Block(vec![]),
        Statement::Block(vec![Statement::Return(num(0))]),
        Statement::Block(vec![Statement::Return(num(0)), Statement::Return(num(0))]),
    ];
    for a in samples.iter() {
        for b in samples.iter() {
            let expected = match a.cmp(b) {
                std::cmp::Ordering::Less => Placing::Before,
                std::cmp::Ordering::Equal => Placing::Same,
                std::cmp::Ordering::Greater => Placing::After,
            };
            assert_eq!(compare_statements(a, b), expected, "{:?} against {:?}", a, b);
        }
    }
}

#[test]
fn leaves_print_their_text() {
    assert_eq!(ident("foo").to_string(), "foo");
    assert_eq!(Expression::String("hello world".to_string()).to_string(), "hello world");
    assert_eq!(Expression::LParen("(".to_string()).to_string(), "(");
    assert_eq!(Expression::Boolean(true).to_string(), "true");
    assert_eq!(Expression::Boolean(false).to_string(), "false");
    assert_eq!(Expression::Null.to_string(), "null");
}

#[test]
fn integers_print_in_decimal() {
    assert_eq!(num(0).to_string(), "0");
    assert_eq!(num(7).to_string(), "7");
    assert_eq!(num(10).to_string(), "10");
    assert_eq!(num(-5).to_string(), "-5");
    assert_eq!(num(1234567890).to_string(), "1234567890");
    assert_eq!(num(i32::MAX).to_string(), "2147483647");
    assert_eq!(num(i32::MIN).to_string(), "-2147483648");
    assert_eq!(int_to_string(-100), "-100");
    assert_eq!(int_to_string(909), "909");
}

#[test]
fn arrays_print_between_brackets() {
    assert_eq!(Expression::Array(vec![]).to_string(), "[]");
    assert_eq!(Expression::Array(vec![num(1)]).to_string(), "[1]");
    assert_eq!(
        Expression::Array(vec![num(1), ident("x"), Expression::Array(vec![num(2), num(3)])])
            .to_string(),
        "[1, x, [2, 3]]"
    );
}

#[test]
fn index_prints_subscript_in_brackets() {
    let e = Expression::IndexExpression {
        array: boxed(ident("xs")),
        subscript: boxed(Expression::InfixExpression {
            leftExpression: boxed(ident("i")),
            operator: "+".to_string(),
            rightExpression: boxed(num(1)),
        }),
    };
    assert_eq!(e.to_string(), "xs[i + 1]");
}

#[test]
fn function_literal_prints_its_parameters_and_body() {
    let e = Expression::FunctionLiteral {
        parameters: vec![ident("x"), ident("y")],
        body: Box::new(block_of(Expression::InfixExpression {
            leftExpression: boxed(ident("x")),
            operator: "+".to_string(),
            rightExpression: boxed(ident("y")),
        })),
    };
    assert_eq!(e.to_string(), "function (x, y) {x + y}");
    let none = Expression::FunctionLiteral {
        parameters: vec![],
        body: Box::new(Statement::Block(vec![])),
    };
    assert_eq!(none.to_string(), "function () {}");
}

#[test]
fn call_prints_with_a_closing_semicolon() {
    let e = Expression::CallExpression {
        function: boxed(ident("add")),
        body: vec![num(1), num(2)],
    };
    assert_eq!(e.to_string(), "add(1, 2);");
    let bare = Expression::CallExpression { function: boxed(ident("f")), body: vec![] };
    assert_eq!(bare.to_string(), "f();");
}

#[test]
fn statements_print_in_their_forms() {
    let binding = Statement::LetStatement { identifier: ident("x"), value: num(5) };
    assert_eq!(binding.to_string(), "let x = 5;");
    assert_eq!(Statement::ExpressionStatement(ident("x")).to_string(), "x");
    assert_eq!(Statement::Return(num(1)).to_string(), "return 1");
    let block = Statement::Block(vec![
        Statement::LetStatement { identifier: ident("x"), value: num(5) },
        Statement::Return(ident("x")),
    ]);
    assert_eq!(block.to_string(), "let x = 5;return x");
    assert_eq!(Statement::Block(vec![]).to_string(), "");
}

#[test]
fn program_prints_a_statement_per_line() {
    let program = Program {
        statements: vec![
            Statement::LetStatement { identifier: ident("x"), value: num(5) },
            Statement::ExpressionStatement(ident("x")),
        ],
    };
    assert_eq!(program.to_string(), "let x = 5;\nx\n");
    assert_eq!(Program { statements: vec![] }.to_string(), "");
}

#[test]
fn well_formed_trees_are_recognised() {
    let good = Expression::FunctionLiteral {
        parameters: vec![ident("x")],
        body: Box::new(Statement::LetStatement { identifier: ident("y"), value: ident("x") }),
    };
    assert!(good.is_well_formed());
    let bad_parameter = Expression::FunctionLiteral {
        parameters: vec![ident("x"), num(1)],
        body: Box::new(Statement::Block(vec![])),
    };
    assert!(!bad_parameter.is_well_formed());
    let bad_binding = Statement::LetStatement { identifier: num(1), value: num(2) };
    assert!(!bad_binding.is_well_formed());
    let nested = Expression::Array(vec![num(1), bad_parameter]);
    assert!(!nested.is_well_formed());
    let mut map = ExpressionMap::new();
    map.insert(ident("k"), Expression::IfExpression {
        condition: boxed(ident("c")),
        consequence: Box::new(bad_binding),
        alternative: None,
    });
    assert!(!Expression::HashMap(map).is_well_formed());
    let program = Program { statements: vec![Statement::Return(good)] };
    assert!(program.is_well_formed());
}

#[test]
fn precedence_levels_rise_from_lowest_to_call() {
    let levels = [
        Precedence::LOWEST,
        Precedence::EQUALS,
        Precedence::LESSGREATER,
        Precedence::SUM,
        Precedence::PRODUCT,
        Precedence::PREFIX,
        Precedence::LBRANCKET,
        Precedence::CALL,
    ];
    for (i, a) in levels.iter().enumerate() {
        assert_eq!(a.rank() as usize, i);
        for (j, b) in levels.iter().enumerate() {
            assert_eq!(a < b, i < j);
            assert_eq!(a.binds_tighter_than(*b), i > j);
        }
    }
}

#[test]
fn text_helpers_work_on_bytes() {
    assert!(text_equals("let", "let"));
    assert!(!text_equals("let", "lets"));
    assert!(!text_equals("let", "lex"));
    assert!(bytes_match(b"", b""));
    assert!(!bytes_match(b"a", b""));
    assert_eq!(substring("héllo", 0, 3), "hé");
    assert_eq!(substring("héllo", 3, 6), "llo");
    assert_eq!(substring("abc", 1, 1), "");
}

#[test]
fn a_clone_is_equal_to_what_it_copies() {
    let mut map = ExpressionMap::new();
    map.insert(ident("k"), Expression::Array(vec![num(1), Expression::Null]));
    let tree = Expression::CallExpression {
        function: boxed(Expression::FunctionLiteral {
            parameters: vec![ident("x")],
            body: Box::new(Statement::Block(vec![
                Statement::LetStatement { identifier: ident("y"), value: Expression::HashMap(map) },
                Statement::Return(Expression::IfExpression {
                    condition: boxed(Expression::PrefixExpression {
                        operator: "!".to_string(),
                        rightExpression: boxed(ident("x")),
                    }),
                    consequence: Box::new(block_of(ident("y"))),
                    alternative: Some(Box::new(block_of(Expression::String("no".to_string())))),
                }),
            ])),
        }),
        body: vec![Expression::Boolean(false), Expression::LParen("(".to_string())],
    };
    let copy = tree.clone();
    assert_eq!(copy, tree);
    assert_eq!(compare_expressions(&copy, &tree), Placing::Same);
    assert_eq!(copy.to_string(), tree.to_string());
    assert_eq!(
        tree.to_string(),
        "function (x) {let y = {k: [1, null]};return if (!x) {y} else {no}}(false, ();"
    );
}
