//! The scanner: a cursor over the bytes of a source text that yields one
//! token per call.

use vstd::prelude::*;
use vstd::string::StringSliceAdditionalSpecFns;
use vstd::utf8::*;
use crate::text::{
    all_ascii, ascii_text, lemma_ascii_decodes, lemma_boundary_after_ascii, lemma_boundary_at,
    push_char, substring,
};
use crate::token::{get_keyword, keyword_kind, Token, Tokens};

verus! {

/// The byte under a cursor at `pos`: the source byte, or 0 beyond the end.
pub open spec fn byte_at(src: Seq<u8>, pos: int) -> u8 {
    if 0 <= pos < src.len() {
        src[pos]
    } else {
        0
    }
}

/// The position one byte further on; a cursor at the end stays there.
pub open spec fn advance(src: Seq<u8>, pos: int) -> int {
    if pos < src.len() {
        pos + 1
    } else {
        src.len() as int
    }
}

/// Space, tab, newline and carriage return.
pub open spec fn is_whitespace_byte(b: u8) -> bool {
    b == 0x20 || b == 0x09 || b == 0x0a || b == 0x0d
}

/// The ASCII letters and the underscore.
pub open spec fn is_letter_byte(b: u8) -> bool {
    (0x61 <= b <= 0x7a) || (0x41 <= b <= 0x5a) || b == 0x5f
}

/// The ten decimal digits.
pub open spec fn is_digit_byte(b: u8) -> bool {
    0x30 <= b <= 0x39
}

/// A byte that continues a string literal: anything but the double quote and
/// the zero byte.
pub open spec fn is_string_byte(b: u8) -> bool {
    b != 0x22 && b != 0
}

/// Where the maximal run of bytes of one class that starts at `pos` ends: the
/// first position from `pos` on that holds no byte of the class.
pub open spec fn run_end(src: Seq<u8>, pos: int, class: spec_fn(u8) -> bool) -> int
    decreases src.len() - pos,
{
    if 0 <= pos < src.len() && class(src[pos]) {
        run_end(src, pos + 1, class)
    } else {
        pos
    }
}

/// The kind of a token of one byte that is neither a letter nor a digit, and
/// starts neither a string nor `=` or `!`.
pub open spec fn punctuation_kind(b: u8) -> Token {
    if b == 0x2b {
        Token::ADD
    } else if b == 0x2d {
        Token::SUB
    } else if b == 0x2a {
        Token::MUL
    } else if b == 0x2f {
        Token::DIV
    } else if b == 0x3c {
        Token::LT
    } else if b == 0x3e {
        Token::GT
    } else if b == 0x28 {
        Token::L_PAREN
    } else if b == 0x29 {
        Token::R_PAREN
    } else if b == 0x2c {
        Token::COMMA
    } else if b == 0x7b {
        Token::L_BRACE
    } else if b == 0x7d {
        Token::R_BRACE
    } else if b == 0x5b {
        Token::L_BRACKET
    } else if b == 0x5d {
        Token::R_BRACKET
    } else if b == 0x3b {
        Token::SEMI_COLON
    } else if b == 0x3a {
        Token::COLON
    } else {
        Token::ILLEGAL
    }
}

/// What one scanning step finds: the token's kind, its literal, and the
/// position of the cursor after it.
pub struct Lexeme {
    pub kind: Token,
    pub text: Seq<char>,
    pub end: int,
}

/// The token that starts exactly at `start`.
///
/// A zero byte, like the end of the source, yields `EOF` and is not passed:
/// the cursor stays on it. A string literal runs to its closing quote, which
/// is passed, or to a zero byte or the end of the source, which are not.
pub open spec fn lexeme_at(src: Seq<u8>, start: int) -> Lexeme {
    let b = byte_at(src, start);
    if b == 0 {
        Lexeme { kind: Token::EOF, text: Seq::empty(), end: start }
    } else if b == 0x22 {
        let stop = run_end(src, start + 1, |b: u8| is_string_byte(b));
        Lexeme {
            kind: Token::STRING,
            text: decode_utf8(src.subrange(start + 1, stop)),
            end: if byte_at(src, stop) == 0x22 {
                stop + 1
            } else {
                stop
            },
        }
    } else if b == 0x3d {
        if byte_at(src, start + 1) == 0x3d {
            Lexeme { kind: Token::EQUAL, text: "=="@, end: start + 2 }
        } else {
            Lexeme { kind: Token::ASSIGN, text: seq!['='], end: start + 1 }
        }
    } else if b == 0x21 {
        if byte_at(src, start + 1) == 0x3d {
            Lexeme { kind: Token::NOT_EQ, text: "!="@, end: start + 2 }
        } else {
            Lexeme { kind: Token::NOT, text: seq!['!'], end: start + 1 }
        }
    } else if is_letter_byte(b) {
        let stop = run_end(src, start, |b: u8| is_letter_byte(b));
        let text = ascii_text(src.subrange(start, stop));
        Lexeme { kind: keyword_kind(text), text, end: stop }
    } else if is_digit_byte(b) {
        let stop = run_end(src, start, |b: u8| is_digit_byte(b));
        Lexeme { kind: Token::INT, text: ascii_text(src.subrange(start, stop)), end: stop }
    } else {
        Lexeme { kind: punctuation_kind(b), text: seq![b as char], end: start + 1 }
    }
}

/// The token that a cursor at `pos` yields: the one that starts after the
/// whitespace at `pos`.
pub open spec fn next_lexeme(src: Seq<u8>, pos: int) -> Lexeme {
    lexeme_at(src, run_end(src, pos, |b: u8| is_whitespace_byte(b)))
}

/// A run ends within the source, holds only bytes of its class, and is
/// maximal.
pub proof fn lemma_run_end(src: Seq<u8>, pos: int, class: spec_fn(u8) -> bool)
    requires
        0 <= pos <= src.len(),
    ensures
        pos <= run_end(src, pos, class) <= src.len(),
        forall|i: int| pos <= i < run_end(src, pos, class) ==> class(#[trigger] src[i]),
        run_end(src, pos, class) < src.len() ==> !class(src[run_end(src, pos, class)]),
    decreases src.len() - pos,
{
    if pos < src.len() && class(src[pos]) {
        lemma_run_end(src, pos + 1, class);
    }
}

/// The cursor after `count` tokens have been scanned from `pos`.
pub open spec fn position_after(src: Seq<u8>, pos: int, count: nat) -> int
    decreases count,
{
    if count == 0 {
        pos
    } else {
        position_after(src, next_lexeme(src, pos).end, (count - 1) as nat)
    }
}

/// The token that the call number `index` yields, counting from 0, when the
/// first call finds the cursor at `pos`.
pub open spec fn nth_lexeme(src: Seq<u8>, pos: int, index: nat) -> Lexeme {
    next_lexeme(src, position_after(src, pos, index))
}

/// Whether a lexeme is the end token: `EOF` with an empty literal.
pub open spec fn is_end_token(lexeme: Lexeme) -> bool {
    lexeme.kind == Token::EOF && lexeme.text == Seq::<char>::empty()
}

/// The keyword table yields a keyword or `IDENT`, never another kind.
pub proof fn lemma_keyword_is_not_a_sentinel(text: Seq<char>)
    ensures
        keyword_kind(text) == Token::FUNCTION || keyword_kind(text) == Token::LET || keyword_kind(
            text,
        ) == Token::TRUE || keyword_kind(text) == Token::FALSE || keyword_kind(text) == Token::IF
            || keyword_kind(text) == Token::ELSE || keyword_kind(text) == Token::RETURN
            || keyword_kind(text) == Token::IDENT,
{
}

/// Every scanning step stays within the source. A step that yields a token
/// other than `EOF` consumes at least one byte. A step that yields `EOF`
/// yields the end token and leaves the cursor where the next step yields the
/// same again.
pub proof fn lemma_step_makes_progress(src: Seq<u8>, pos: int)
    requires
        0 <= pos <= src.len(),
    ensures
        pos <= next_lexeme(src, pos).end <= src.len(),
        next_lexeme(src, pos).kind != Token::EOF ==> pos < next_lexeme(src, pos).end,
        next_lexeme(src, pos).kind == Token::EOF ==> is_end_token(next_lexeme(src, pos))
            && next_lexeme(src, next_lexeme(src, pos).end) == next_lexeme(src, pos),
{
    let start = run_end(src, pos, |b: u8| is_whitespace_byte(b));
    lemma_run_end(src, pos, |b: u8| is_whitespace_byte(b));
    if start < src.len() {
        lemma_run_end(src, start + 1, |b: u8| is_string_byte(b));
        lemma_run_end(src, start, |b: u8| is_letter_byte(b));
        lemma_run_end(src, start, |b: u8| is_digit_byte(b));
        lemma_keyword_is_not_a_sentinel(lexeme_at(src, start).text);
    }
    if next_lexeme(src, pos).kind == Token::EOF {
        assert(byte_at(src, start) == 0);
        assert(run_end(src, start, |b: u8| is_whitespace_byte(b)) == start);
    }
}

/// `EOF` is stable: once a call has yielded `EOF`, every later call yields
/// the same end token, whatever the source holds.
pub proof fn lemma_eof_is_stable(src: Seq<u8>, pos: int, index: nat)
    requires
        0 <= pos <= src.len(),
        next_lexeme(src, pos).kind == Token::EOF,
    ensures
        nth_lexeme(src, pos, index) == next_lexeme(src, pos),
        is_end_token(nth_lexeme(src, pos, index)),
    decreases index,
{
    lemma_step_makes_progress(src, pos);
    if index > 0 {
        lemma_eof_is_stable(src, next_lexeme(src, pos).end, (index - 1) as nat);
    }
}

/// Scanning terminates: after as many calls as bytes were left, every further
/// call yields the end token, whatever the source holds.
pub proof fn lemma_scanning_reaches_end(src: Seq<u8>, pos: int, index: nat)
    requires
        0 <= pos <= src.len(),
        index >= src.len() - pos,
    ensures
        is_end_token(nth_lexeme(src, pos, index)),
    decreases index,
{
    lemma_step_makes_progress(src, pos);
    if next_lexeme(src, pos).kind == Token::EOF {
        lemma_eof_is_stable(src, pos, index);
    } else {
        lemma_scanning_reaches_end(src, next_lexeme(src, pos).end, (index - 1) as nat);
    }
}

/// The shape of the token stream of any source: a finite prefix of tokens
/// other than `EOF`, then the end token for ever.
///
/// The length of the prefix is returned; it is at most the number of bytes
/// left from `pos`.
pub proof fn lemma_token_stream(src: Seq<u8>, pos: int) -> (count: nat)
    requires
        0 <= pos <= src.len(),
    ensures
        count <= src.len() - pos,
        forall|i: nat| i < count ==> (#[trigger] nth_lexeme(src, pos, i)).kind != Token::EOF,
        forall|i: nat| i >= count ==> is_end_token(#[trigger] nth_lexeme(src, pos, i)),
    decreases src.len() - pos,
{
    lemma_step_makes_progress(src, pos);
    let first = next_lexeme(src, pos);
    if first.kind == Token::EOF {
        assert forall|i: nat| i >= 0 implies is_end_token(#[trigger] nth_lexeme(src, pos, i)) by {
            lemma_eof_is_stable(src, pos, i);
        }
        0
    } else {
        let rest = lemma_token_stream(src, first.end);
        assert forall|i: nat| i < rest + 1 implies (#[trigger] nth_lexeme(src, pos, i)).kind
            != Token::EOF by {
            if i > 0 {
                assert(nth_lexeme(src, pos, i) == nth_lexeme(src, first.end, (i - 1) as nat));
            }
        }
        assert forall|i: nat| i >= rest + 1 implies is_end_token(
            #[trigger] nth_lexeme(src, pos, i),
        ) by {
            assert(nth_lexeme(src, pos, i) == nth_lexeme(src, first.end, (i - 1) as nat));
        }
        rest + 1
    }
}

/// A scanner over a source text.
///
/// It holds the text, the position of the cursor, the position one byte
/// ahead of it, clamped to the length of the text, and the byte under the
/// cursor (0 beyond the end).
#[derive(Debug)]
pub struct Tokenizer<'a> {
    input: &'a str,
    pos: usize,
    pos_next: usize,
    pos_char: u8,
}

impl<'a> Clone for Tokenizer<'a> {
    /// A second scanner over the same text, with its cursor at the same place.
    fn clone(&self) -> (copy: Self)
        ensures
            copy == *self,
    {
        proof {
            use_type_invariant(self);
        }
        Tokenizer {
            input: self.input,
            pos: self.pos,
            pos_next: self.pos_next,
            pos_char: self.pos_char,
        }
    }
}

impl<'a> Tokenizer<'a> {
    #[verifier::type_invariant]
    spec fn well_formed(self) -> bool {
        &&& self.pos <= self.input.spec_bytes().len()
        &&& self.pos_next == advance(self.input.spec_bytes(), self.pos as int)
        &&& self.pos_char == byte_at(self.input.spec_bytes(), self.pos as int)
    }

    /// The bytes of the text being scanned.
    pub closed spec fn source(&self) -> Seq<u8> {
        self.input.spec_bytes()
    }

    /// The position of the cursor: a byte offset into the source, at most its
    /// length.
    pub closed spec fn position(&self) -> int {
        self.pos as int
    }

    /// A scanner at the start of `input`.
    pub fn new(input: &'a str) -> (tokenizer: Self)
        ensures
            tokenizer.source() == input.spec_bytes(),
            tokenizer.position() == 0,
    {
        let bytes = input.as_bytes();
        if bytes.len() == 0 {
            Tokenizer { input, pos: 0, pos_next: 0, pos_char: 0 }
        } else {
            Tokenizer { input, pos: 0, pos_next: 1, pos_char: bytes[0] }
        }
    }

    /// A token of the given kind whose literal is the one character with the
    /// code of `pos_char`.
    pub fn new_token(token_type: Token, pos_char: u8) -> (token: Tokens)
        ensures
            token.token_type == token_type,
            token.literal@ == seq![pos_char as char],
    {
        let mut literal = String::new();
        push_char(&mut literal, pos_char as char);
        Tokens { token_type, literal }
    }

    /// Moves the cursor one byte on.
    fn read_char(&mut self)
        ensures
            final(self).input == old(self).input,
            final(self).pos == advance(old(self).input.spec_bytes(), old(self).pos as int),
    {
        proof {
            use_type_invariant(&*self);
        }
        let bytes = self.input.as_bytes();
        if self.pos_next >= bytes.len() {
            *self = Tokenizer { input: self.input, pos: bytes.len(), pos_next: bytes.len(), pos_char: 0 };
        } else {
            let at = self.pos_next;
            let after = if at + 1 < bytes.len() { at + 1 } else { bytes.len() };
            *self = Tokenizer { input: self.input, pos: at, pos_next: after, pos_char: bytes[at] };
        }
    }

    /// The byte one position ahead of the cursor, or 0 beyond the end.
    fn peek_char(&self) -> (b: u8)
        ensures
            b == byte_at(self.input.spec_bytes(), self.pos + 1),
    {
        proof {
            use_type_invariant(self);
        }
        let bytes = self.input.as_bytes();
        if self.pos_next >= bytes.len() || self.pos_next <= self.pos {
            0
        } else {
            bytes[self.pos_next]
        }
    }

    /// Whether a byte is an ASCII letter or the underscore.
    fn is_letter(pos_char: &u8) -> (letter: bool)
        ensures
            letter == is_letter_byte(*pos_char),
    {
        let b = *pos_char;
        (0x61 <= b && b <= 0x7a) || (0x41 <= b && b <= 0x5a) || b == 0x5f
    }

    /// Whether a byte is a decimal digit.
    fn is_digit(pos_char: &u8) -> (digit: bool)
        ensures
            digit == is_digit_byte(*pos_char),
    {
        let b = *pos_char;
        0x30 <= b && b <= 0x39
    }

    /// Moves the cursor past the whitespace under it.
    fn skip_whitespace(&mut self)
        ensures
            final(self).input == old(self).input,
            final(self).pos == run_end(
                old(self).input.spec_bytes(),
                old(self).pos as int,
                |b: u8| is_whitespace_byte(b),
            ),
    {
        let ghost src = self.input.spec_bytes();
        let ghost class = |b: u8| is_whitespace_byte(b);
        proof {
            use_type_invariant(&*self);
        }
        while self.pos_char == 0x20 || self.pos_char == 0x09 || self.pos_char == 0x0a
            || self.pos_char == 0x0d
            invariant
                self.input == old(self).input,
                src == self.input.spec_bytes(),
                self.pos <= src.len(),
                self.pos_char == byte_at(src, self.pos as int),
                class == |b: u8| is_whitespace_byte(b),
                run_end(src, self.pos as int, class) == run_end(src, old(self).pos as int, class),
            decreases src.len() - self.pos,
        {
            self.read_char();
            proof {
                use_type_invariant(&*self);
            }
        }
    }

    /// Reads the string literal whose opening quote is under the cursor, and
    /// leaves the cursor on the byte that ends it.
    fn read_string(&mut self) -> (literal: String)
        requires
            old(self).pos_char == 0x22,
        ensures
            final(self).input == old(self).input,
            final(self).pos == run_end(
                old(self).input.spec_bytes(),
                old(self).pos + 1,
                |b: u8| is_string_byte(b),
            ),
            literal@ == decode_utf8(
                old(self).input.spec_bytes().subrange(old(self).pos + 1, final(self).pos as int),
            ),
    {
        let ghost src = self.input.spec_bytes();
        let ghost class = |b: u8| is_string_byte(b);
        proof {
            use_type_invariant(&*self);
        }
        let pos = self.pos + 1;
        self.read_char();
        proof {
            use_type_invariant(&*self);
        }
        while self.pos_char != 0x22 && self.pos_char != 0
            invariant
                self.input == old(self).input,
                src == self.input.spec_bytes(),
                pos <= self.pos <= src.len(),
                self.pos_char == byte_at(src, self.pos as int),
                class == |b: u8| is_string_byte(b),
                run_end(src, self.pos as int, class) == run_end(src, pos as int, class),
            decreases src.len() - self.pos,
        {
            self.read_char();
            proof {
                use_type_invariant(&*self);
            }
        }
        proof {
            encode_utf8_valid_utf8(self.input@);
            lemma_boundary_after_ascii(src, pos - 1);
            lemma_boundary_at(src, self.pos as int);
        }
        substring(self.input, pos, self.pos)
    }

    /// Reads the run of letters under the cursor.
    fn read_identifier(&mut self) -> (literal: String)
        requires
            is_letter_byte(old(self).pos_char),
        ensures
            final(self).input == old(self).input,
            final(self).pos == run_end(
                old(self).input.spec_bytes(),
                old(self).pos as int,
                |b: u8| is_letter_byte(b),
            ),
            literal@ == ascii_text(
                old(self).input.spec_bytes().subrange(old(self).pos as int, final(self).pos as int),
            ),
    {
        let ghost src = self.input.spec_bytes();
        let ghost class = |b: u8| is_letter_byte(b);
        proof {
            use_type_invariant(&*self);
        }
        let pos = self.pos;
        while Self::is_letter(&self.pos_char)
            invariant
                self.input == old(self).input,
                src == self.input.spec_bytes(),
                pos <= self.pos <= src.len(),
                self.pos_char == byte_at(src, self.pos as int),
                class == |b: u8| is_letter_byte(b),
                run_end(src, self.pos as int, class) == run_end(src, pos as int, class),
            decreases src.len() - self.pos,
        {
            self.read_char();
            proof {
                use_type_invariant(&*self);
            }
        }
        proof {
            encode_utf8_valid_utf8(self.input@);
            lemma_run_end(src, pos as int, class);
            lemma_ascii_run(src, pos as int, self.pos as int);
        }
        substring(self.input, pos, self.pos)
    }

    /// Reads the run of digits under the cursor.
    fn read_number(&mut self) -> (literal: String)
        requires
            is_digit_byte(old(self).pos_char),
        ensures
            final(self).input == old(self).input,
            final(self).pos == run_end(
                old(self).input.spec_bytes(),
                old(self).pos as int,
                |b: u8| is_digit_byte(b),
            ),
            literal@ == ascii_text(
                old(self).input.spec_bytes().subrange(old(self).pos as int, final(self).pos as int),
            ),
    {
        let ghost src = self.input.spec_bytes();
        let ghost class = |b: u8| is_digit_byte(b);
        proof {
            use_type_invariant(&*self);
        }
        let pos = self.pos;
        while Self::is_digit(&self.pos_char)
            invariant
                self.input == old(self).input,
                src == self.input.spec_bytes(),
                pos <= self.pos <= src.len(),
                self.pos_char == byte_at(src, self.pos as int),
                class == |b: u8| is_digit_byte(b),
                run_end(src, self.pos as int, class) == run_end(src, pos as int, class),
            decreases src.len() - self.pos,
        {
            self.read_char();
            proof {
                use_type_invariant(&*self);
            }
        }
        proof {
            encode_utf8_valid_utf8(self.input@);
            lemma_run_end(src, pos as int, class);
            lemma_ascii_run(src, pos as int, self.pos as int);
        }
        substring(self.input, pos, self.pos)
    }

    /// Scans the next token: skips whitespace, classifies the byte under the
    /// cursor, and moves the cursor past the token.
    ///
    /// At the end of the source, and at a zero byte in it, every call yields
    /// `EOF` with an empty literal and leaves the cursor where it is.
    pub fn next_token(&mut self) -> (token: Tokens)
        ensures
            final(self).source() == old(self).source(),
            token.token_type == next_lexeme(old(self).source(), old(self).position()).kind,
            token.literal@ == next_lexeme(old(self).source(), old(self).position()).text,
            final(self).position() == next_lexeme(old(self).source(), old(self).position()).end,
            0 <= final(self).position() <= final(self).source().len(),
    {
        let ghost src = self.input.spec_bytes();
        self.skip_whitespace();
        proof {
            use_type_invariant(&*self);
        }
        let ghost start = self.pos as int;
        let token;
        let b = self.pos_char;
        if b == 0x2b {
            token = Self::new_token(Token::ADD, b);
        } else if b == 0x2d {
            token = Self::new_token(Token::SUB, b);
        } else if b == 0x2a {
            token = Self::new_token(Token::MUL, b);
        } else if b == 0x2f {
            token = Self::new_token(Token::DIV, b);
        } else if b == 0x3c {
            token = Self::new_token(Token::LT, b);
        } else if b == 0x3e {
            token = Self::new_token(Token::GT, b);
        } else if b == 0x28 {
            token = Self::new_token(Token::L_PAREN, b);
        } else if b == 0x29 {
            token = Self::new_token(Token::R_PAREN, b);
        } else if b == 0x2c {
            token = Self::new_token(Token::COMMA, b);
        } else if b == 0x7b {
            token = Self::new_token(Token::L_BRACE, b);
        } else if b == 0x7d {
            token = Self::new_token(Token::R_BRACE, b);
        } else if b == 0x5b {
            token = Self::new_token(Token::L_BRACKET, b);
        } else if b == 0x5d {
            token = Self::new_token(Token::R_BRACKET, b);
        } else if b == 0x3b {
            token = Self::new_token(Token::SEMI_COLON, b);
        } else if b == 0x3a {
            token = Self::new_token(Token::COLON, b);
        } else if b == 0x22 {
            let literal = self.read_string();
            proof {
                use_type_invariant(&*self);
                lemma_run_end(src, start + 1, |b: u8| is_string_byte(b));
            }
            if self.pos_char == 0x22 {
                self.read_char();
            }
            proof {
                use_type_invariant(&*self);
            }
            return Tokens { token_type: Token::STRING, literal };
        } else if b == 0x3d {
            if self.peek_char() == 0x3d {
                self.read_char();
                token = Tokens { token_type: Token::EQUAL, literal: "==".to_owned() };
            } else {
                token = Self::new_token(Token::ASSIGN, b);
            }
        } else if b == 0x21 {
            if self.peek_char() == 0x3d {
                self.read_char();
                token = Tokens { token_type: Token::NOT_EQ, literal: "!=".to_owned() };
            } else {
                token = Self::new_token(Token::NOT, b);
            }
        } else if b == 0 {
            return Tokens { token_type: Token::EOF, literal: String::new() };
        } else if Self::is_letter(&b) {
            let ident = self.read_identifier();
            let ident_token = get_keyword(ident.as_str());
            proof {
                use_type_invariant(&*self);
                lemma_run_end(src, start, |b: u8| is_letter_byte(b));
            }
            return Tokens { token_type: ident_token, literal: ident };
        } else if Self::is_digit(&b) {
            let literal = self.read_number();
            proof {
                use_type_invariant(&*self);
                lemma_run_end(src, start, |b: u8| is_digit_byte(b));
            }
            return Tokens { token_type: Token::INT, literal };
        } else {
            token = Self::new_token(Token::ILLEGAL, b);
        }
        self.read_char();
        proof {
            use_type_invariant(&*self);
        }
        token
    }
}

/// A non-empty stretch of ASCII bytes of a valid UTF-8 text can be cut out of it, and
/// spells the characters of the same codes.
proof fn lemma_ascii_run(src: Seq<u8>, from: int, to: int)
    requires
        valid_utf8(src),
        0 <= from <= to <= src.len(),
        from < to,
        forall|i: int| from <= i < to ==> #[trigger] src[i] <= 0x7f,
    ensures
        is_char_boundary(src, from),
        is_char_boundary(src, to),
        decode_utf8(src.subrange(from, to)) == ascii_text(src.subrange(from, to)),
{
    assert(src[from] <= 0x7f);
    lemma_boundary_at(src, from);
    assert(src[to - 1] <= 0x7f);
    lemma_boundary_after_ascii(src, to - 1);
    assert(all_ascii(src.subrange(from, to)));
    lemma_ascii_decodes(src.subrange(from, to));
}

} // verus!
