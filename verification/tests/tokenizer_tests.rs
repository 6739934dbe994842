use script_syntax::token::{Token, Tokens};
use script_syntax::tokenizer::Tokenizer;

fn tok(kind: Token, literal: &str) -> Tokens {
    Tokens { token_type: kind, literal: literal.to_string() }
}

fn scan(input: &str, count: usize) -> Vec<Tokens> {
    let mut tokenizer = Tokenizer::new(input);
    let mut out = Vec::new();
    for _ in 0..count {
        out.push(tokenizer.next_token());
    }
    out
}

#[test]
fn let_statement_scans_to_its_tokens() {
    let tokens = scan("let x = 5;", 8);
    assert_eq!(
        tokens,
        vec![
            tok(Token::LET, "let"),
            tok(Token::IDENT, "x"),
            tok(Token::ASSIGN, "="),
            tok(Token::INT, "5"),
            tok(Token::SEMI_COLON, ";"),
            tok(Token::EOF, ""),
            tok(Token::EOF, ""),
            tok(Token::EOF, ""),
        ]
    );
}

#[test]
fn double_equals_is_one_token() {
    assert_eq!(scan("==", 2), vec![tok(Token::EQUAL, "=="), tok(Token::EOF, "")]);
}

#[test]
fn lone_equals_is_assign() {
    assert_eq!(scan("=", 2), vec![tok(Token::ASSIGN, "="), tok(Token::EOF, "")]);
}

#[test]
fn bang_equals_is_one_token() {
    assert_eq!(scan("!=", 2), vec![tok(Token::NOT_EQ, "!="), tok(Token::EOF, "")]);
}

#[test]
fn lone_bang_is_not() {
    assert_eq!(scan("!", 2), vec![tok(Token::NOT, "!"), tok(Token::EOF, "")]);
}

#[test]
fn equals_runs_pair_up_from_the_left() {
    assert_eq!(
        scan("===!==", 5),
        vec![
            tok(Token::EQUAL, "=="),
            tok(Token::ASSIGN, "="),
            tok(Token::NOT_EQ, "!="),
            tok(Token::ASSIGN, "="),
            tok(Token::EOF, ""),
        ]
    );
}

#[test]
fn every_keyword_is_recognised() {
    assert_eq!(
        scan("function let true false if else return", 8),
        vec![
            tok(Token::FUNCTION, "function"),
            tok(Token::LET, "let"),
            tok(Token::TRUE, "true"),
            tok(Token::FALSE, "false"),
            tok(Token::IF, "if"),
            tok(Token::ELSE, "else"),
            tok(Token::RETURN, "return"),
            tok(Token::EOF, ""),
        ]
    );
}

#[test]
fn other_letter_runs_are_identifiers() {
    assert_eq!(
        scan("foobar _x lets Return", 5),
        vec![
            tok(Token::IDENT, "foobar"),
            tok(Token::IDENT, "_x"),
            tok(Token::IDENT, "lets"),
            tok(Token::IDENT, "Return"),
            tok(Token::EOF, ""),
        ]
    );
}

#[test]
fn digits_end_an_identifier() {
    assert_eq!(
        scan("x1", 3),
        vec![tok(Token::IDENT, "x"), tok(Token::INT, "1"), tok(Token::EOF, "")]
    );
}

#[test]
fn letters_end_a_number() {
    assert_eq!(
        scan("123abc", 3),
        vec![tok(Token::INT, "123"), tok(Token::IDENT, "abc"), tok(Token::EOF, "")]
    );
}

#[test]
fn terminated_string_excludes_its_quotes() {
    assert_eq!(scan("\"hi\"", 2), vec![tok(Token::STRING, "hi"), tok(Token::EOF, "")]);
}

#[test]
fn unterminated_string_runs_to_the_end() {
    assert_eq!(scan("\"hi", 2), vec![tok(Token::STRING, "hi"), tok(Token::EOF, "")]);
}

#[test]
fn empty_string_literal() {
    assert_eq!(scan("\"\"", 2), vec![tok(Token::STRING, ""), tok(Token::EOF, "")]);
}

#[test]
fn lone_quote_is_an_empty_string() {
    assert_eq!(scan("\"", 2), vec![tok(Token::STRING, ""), tok(Token::EOF, "")]);
}

#[test]
fn string_keeps_spaces_and_other_scripts() {
    assert_eq!(
        scan("\"a b\" \"héllo wörld ✓\" x", 4),
        vec![
            tok(Token::STRING, "a b"),
            tok(Token::STRING, "héllo wörld ✓"),
            tok(Token::IDENT, "x"),
            tok(Token::EOF, ""),
        ]
    );
}

#[test]
fn punctuation_maps_byte_by_byte() {
    assert_eq!(
        scan("+-*/<>(),{}[];:", 16),
        vec![
            tok(Token::ADD, "+"),
            tok(Token::SUB, "-"),
            tok(Token::MUL, "*"),
            tok(Token::DIV, "/"),
            tok(Token::LT, "<"),
            tok(Token::GT, ">"),
            tok(Token::L_PAREN, "("),
            tok(Token::R_PAREN, ")"),
            tok(Token::COMMA, ","),
            tok(Token::L_BRACE, "{"),
            tok(Token::R_BRACE, "}"),
            tok(Token::L_BRACKET, "["),
            tok(Token::R_BRACKET, "]"),
            tok(Token::SEMI_COLON, ";"),
            tok(Token::COLON, ":"),
            tok(Token::EOF, ""),
        ]
    );
}

#[test]
fn whitespace_of_all_four_kinds_is_skipped() {
    assert_eq!(
        scan(" \t\r\n a \n\t b\r\n", 3),
        vec![tok(Token::IDENT, "a"), tok(Token::IDENT, "b"), tok(Token::EOF, "")]
    );
}

#[test]
fn unknown_byte_is_illegal() {
    assert_eq!(
        scan("a @ #", 4),
        vec![
            tok(Token::IDENT, "a"),
            tok(Token::ILLEGAL, "@"),
            tok(Token::ILLEGAL, "#"),
            tok(Token::EOF, ""),
        ]
    );
}

#[test]
fn bytes_above_ascii_are_illegal_one_by_one() {
    // U+00E9 is encoded as the two bytes C3 A9.
    assert_eq!(
        scan("é", 3),
        vec![
            tok(Token::ILLEGAL, "\u{c3}"),
            tok(Token::ILLEGAL, "\u{a9}"),
            tok(Token::EOF, ""),
        ]
    );
}

#[test]
fn empty_input_is_eof_at_once() {
    assert_eq!(scan("", 3), vec![tok(Token::EOF, ""), tok(Token::EOF, ""), tok(Token::EOF, "")]);
}

#[test]
fn blank_input_is_eof_at_once() {
    assert_eq!(scan("  \n ", 2), vec![tok(Token::EOF, ""), tok(Token::EOF, "")]);
}

#[test]
fn eof_repeats_for_ever() {
    let mut tokenizer = Tokenizer::new("a");
    assert_eq!(tokenizer.next_token(), tok(Token::IDENT, "a"));
    for _ in 0..1000 {
        assert_eq!(tokenizer.next_token(), tok(Token::EOF, ""));
    }
}

#[test]
fn stream_is_a_prefix_without_eof_then_eof() {
    let input = "let add = function(x, y) { x + y; }; add(1, 2) != \"three\"";
    let tokens = scan(input, input.len() + 5);
    let first_eof = tokens.iter().position(|t| t.token_type == Token::EOF).unwrap();
    assert!(first_eof <= input.len());
    assert_eq!(first_eof, 24);
    assert!(tokens[first_eof..].iter().all(|t| *t == tok(Token::EOF, "")));
}

#[test]
fn zero_byte_yields_eof_for_ever() {
    assert_eq!(
        scan("a\0b", 5),
        vec![
            tok(Token::IDENT, "a"),
            tok(Token::EOF, ""),
            tok(Token::EOF, ""),
            tok(Token::EOF, ""),
            tok(Token::EOF, ""),
        ]
    );
}

#[test]
fn zero_byte_at_the_start_yields_eof_for_ever() {
    assert_eq!(scan("\0x", 3), vec![tok(Token::EOF, ""), tok(Token::EOF, ""), tok(Token::EOF, "")]);
}

#[test]
fn zero_byte_after_whitespace_yields_eof_for_ever() {
    assert_eq!(
        scan("a  \0 b", 4),
        vec![tok(Token::IDENT, "a"), tok(Token::EOF, ""), tok(Token::EOF, ""), tok(Token::EOF, "")]
    );
}

#[test]
fn zero_byte_ends_a_string_and_is_not_passed() {
    assert_eq!(
        scan("\"a\0b", 3),
        vec![tok(Token::STRING, "a"), tok(Token::EOF, ""), tok(Token::EOF, "")]
    );
}

#[test]
fn closing_quote_is_passed() {
    assert_eq!(
        scan("\"a\"b\"\"", 4),
        vec![
            tok(Token::STRING, "a"),
            tok(Token::IDENT, "b"),
            tok(Token::STRING, ""),
            tok(Token::EOF, ""),
        ]
    );
}

#[test]
fn once_eof_always_eof() {
    for input in ["", " ", "a", "a b \0 c", "\"x\0y\" z", "1 + 2;", "\0\0", "\"", "é\0é"] {
        let tokens = scan(input, input.len() + 4);
        let first_eof = tokens.iter().position(|t| t.token_type == Token::EOF).unwrap();
        assert!(first_eof <= input.len());
        assert!(tokens[first_eof..].iter().all(|t| *t == tok(Token::EOF, "")));
    }
}

#[test]
fn new_token_holds_the_byte_as_its_literal() {
    assert_eq!(Tokenizer::new_token(Token::ADD, b'+'), tok(Token::ADD, "+"));
    assert_eq!(Tokenizer::new_token(Token::ILLEGAL, b'@'), tok(Token::ILLEGAL, "@"));
    assert_eq!(Tokenizer::new_token(Token::ILLEGAL, 0xe9), tok(Token::ILLEGAL, "é"));
}

#[test]
fn a_clone_scans_on_from_the_same_place() {
    let mut first = Tokenizer::new("a b c");
    assert_eq!(first.next_token(), tok(Token::IDENT, "a"));
    let mut second = first.clone();
    assert_eq!(first.next_token(), tok(Token::IDENT, "b"));
    assert_eq!(second.next_token(), tok(Token::IDENT, "b"));
    assert_eq!(second.next_token(), tok(Token::IDENT, "c"));
}

#[test]
fn a_small_program_scans_in_full() {
    let input = "if (5 < 10) { return true; } else { return false; }\n[1, 2][0]; {\"k\": 1}";
    let kinds: Vec<Token> = scan(input, 40).into_iter().map(|t| t.token_type).collect();
    let expected = vec![
        Token::IF, Token::L_PAREN, Token::INT, Token::LT, Token::INT, Token::R_PAREN,
        Token::L_BRACE, Token::RETURN, Token::TRUE, Token::SEMI_COLON, Token::R_BRACE,
        Token::ELSE, Token::L_BRACE, Token::RETURN, Token::FALSE, Token::SEMI_COLON,
        Token::R_BRACE, Token::L_BRACKET, Token::INT, Token::COMMA, Token::INT,
        Token::R_BRACKET, Token::L_BRACKET, Token::INT, Token::R_BRACKET, Token::SEMI_COLON,
        Token::L_BRACE, Token::STRING, Token::COLON, Token::INT, Token::R_BRACE,
    ];
    assert_eq!(&kinds[..expected.len()], &expected[..]);
    assert!(kinds[expected.len()..].iter().all(|k| *k == Token::EOF));
}
