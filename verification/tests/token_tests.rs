use script_syntax::ast::Precedence;
use script_syntax::token::{get_keyword, Token, Tokens};

#[test]
fn keywords_map_to_their_kinds() {
    assert_eq!(get_keyword("function"), Token::FUNCTION);
    assert_eq!(get_keyword("let"), Token::LET);
    assert_eq!(get_keyword("true"), Token::TRUE);
    assert_eq!(get_keyword("false"), Token::FALSE);
    assert_eq!(get_keyword("if"), Token::IF);
    assert_eq!(get_keyword("else"), Token::ELSE);
    assert_eq!(get_keyword("return"), Token::RETURN);
}

#[test]
fn other_words_are_identifiers() {
    assert_eq!(get_keyword("foobar"), Token::IDENT);
    assert_eq!(get_keyword("x"), Token::IDENT);
    assert_eq!(get_keyword("Let"), Token::IDENT);
    assert_eq!(get_keyword("lets"), Token::IDENT);
    assert_eq!(get_keyword(""), Token::IDENT);
}

#[test]
fn precedence_of_each_operator() {
    let level = |kind: Token| Tokens { token_type: kind, literal: String::new() }.get_precedence();
    assert_eq!(level(Token::EQUAL), Precedence::EQUALS);
    assert_eq!(level(Token::NOT_EQ), Precedence::EQUALS);
    assert_eq!(level(Token::LT), Precedence::LESSGREATER);
    assert_eq!(level(Token::GT), Precedence::LESSGREATER);
    assert_eq!(level(Token::ADD), Precedence::SUM);
    assert_eq!(level(Token::SUB), Precedence::SUM);
    assert_eq!(level(Token::MUL), Precedence::PRODUCT);
    assert_eq!(level(Token::DIV), Precedence::PRODUCT);
    assert_eq!(level(Token::L_BRACKET), Precedence::LBRANCKET);
    assert_eq!(level(Token::L_PAREN), Precedence::CALL);
    assert_eq!(level(Token::IDENT), Precedence::LOWEST);
    assert_eq!(level(Token::ASSIGN), Precedence::LOWEST);
    assert_eq!(level(Token::EOF), Precedence::LOWEST);
}
