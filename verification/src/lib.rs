//! Lexical front end of a small expression-oriented scripting language:
//! the token vocabulary, a byte-level scanner, and the syntax tree with its
//! canonical printer.

/// Helpers on strings and UTF-8 text shared by the other modules.
pub mod text;

/// Token kinds, tokens, the keyword table and the binding power of a token.
pub mod token;

/// The scanner.
pub mod tokenizer;

/// Binding powers and the syntax tree.
pub mod ast;

/// The map of a map literal.
pub mod expression_map;

/// The total order over expressions.
pub mod order;

/// Comparing expressions in the order of keys.
pub mod compare;

/// Copies of syntax trees.
pub mod duplicate;

/// The canonical printer.
pub mod printer;
