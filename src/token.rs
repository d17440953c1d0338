use vstd::prelude::*;
use crate::text::{text, text_bytes, bytes_equal, append_bytes, SPACE};

verus! {

/// The lexical category of a token.
#[allow(non_camel_case_types)]
#[derive(Debug, PartialEq, Eq, Structural, Copy, Clone)]
pub enum TokenType {
    LEFT_PAREN,
    RIGHT_PAREN,
    LEFT_BRACE,
    RIGHT_BRACE,
    COMMA,
    DOT,
    MINUS,
    PLUS,
    SEMICOLON,
    SLASH,
    STAR,
    BANG,
    BANG_EQUAL,
    EQUAL,
    EQUAL_EQUAL,
    GREATER,
    GREATER_EQUAL,
    LESS,
    LESS_EQUAL,
    IDENTIFIER,
    STRING,
    NUMBER,
    AND,
    CLASS,
    ELSE,
    FALSE,
    FUN,
    FOR,
    IF,
    NIL,
    OR,
    PRINT,
    RETURN,
    SUPER,
    THIS,
    TRUE,
    VAR,
    WHILE,
    EOF,
}

/// The keyword table: the token kind of a reserved word, if `w` is one.
pub open spec fn keyword_kind(w: Seq<u8>) -> Option<TokenType> {
    if w == text("and") {
        Some(TokenType::AND)
    } else if w == text("class") {
        Some(TokenType::CLASS)
    } else if w == text("else") {
        Some(TokenType::ELSE)
    } else if w == text("false") {
        Some(TokenType::FALSE)
    } else if w == text("for") {
        Some(TokenType::FOR)
    } else if w == text("fun") {
        Some(TokenType::FUN)
    } else if w == text("if") {
        Some(TokenType::IF)
    } else if w == text("nil") {
        Some(TokenType::NIL)
    } else if w == text("or") {
        Some(TokenType::OR)
    } else if w == text("print") {
        Some(TokenType::PRINT)
    } else if w == text("return") {
        Some(TokenType::RETURN)
    } else if w == text("super") {
        Some(TokenType::SUPER)
    } else if w == text("this") {
        Some(TokenType::THIS)
    } else if w == text("true") {
        Some(TokenType::TRUE)
    } else if w == text("var") {
        Some(TokenType::VAR)
    } else if w == text("while") {
        Some(TokenType::WHILE)
    } else {
        None
    }
}

/// Looks `keyword` up in the keyword table.
pub fn try_get_keyword(keyword: &[u8]) -> (r: Option<TokenType>)
    ensures
        r == keyword_kind(keyword@),
{
    if bytes_equal(keyword, "and".as_bytes()) {
        Some(TokenType::AND)
    } else if bytes_equal(keyword, "class".as_bytes()) {
        Some(TokenType::CLASS)
    } else if bytes_equal(keyword, "else".as_bytes()) {
        Some(TokenType::ELSE)
    } else if bytes_equal(keyword, "false".as_bytes()) {
        Some(TokenType::FALSE)
    } else if bytes_equal(keyword, "for".as_bytes()) {
        Some(TokenType::FOR)
    } else if bytes_equal(keyword, "fun".as_bytes()) {
        Some(TokenType::FUN)
    } else if bytes_equal(keyword, "if".as_bytes()) {
        Some(TokenType::IF)
    } else if bytes_equal(keyword, "nil".as_bytes()) {
        Some(TokenType::NIL)
    } else if bytes_equal(keyword, "or".as_bytes()) {
        Some(TokenType::OR)
    } else if bytes_equal(keyword, "print".as_bytes()) {
        Some(TokenType::PRINT)
    } else if bytes_equal(keyword, "return".as_bytes()) {
        Some(TokenType::RETURN)
    } else if bytes_equal(keyword, "super".as_bytes()) {
        Some(TokenType::SUPER)
    } else if bytes_equal(keyword, "this".as_bytes()) {
        Some(TokenType::THIS)
    } else if bytes_equal(keyword, "true".as_bytes()) {
        Some(TokenType::TRUE)
    } else if bytes_equal(keyword, "var".as_bytes()) {
        Some(TokenType::VAR)
    } else if bytes_equal(keyword, "while".as_bytes()) {
        Some(TokenType::WHILE)
    } else {
        None
    }
}

} // verus!

verus! {

/// What a token is, as a mathematical value.
pub struct TokenView {
    pub kind: TokenType,
    pub lexeme: Seq<u8>,
    pub literal: Seq<u8>,
    pub line: nat,
}

/// An atomic lexical unit: its kind, its source text, its decoded literal
/// (`null` for tokens that carry none) and the line it ends on.
pub struct Token {
    pub token_type: TokenType,
    pub lexeme: Vec<u8>,
    pub literal: Vec<u8>,
    pub line: usize,
}

impl View for Token {
    type V = TokenView;

    open spec fn view(&self) -> TokenView {
        TokenView {
            kind: self.token_type,
            lexeme: self.lexeme@,
            literal: self.literal@,
            line: self.line as nat,
        }
    }
}

/// The name of a token kind, as printed in a token line.
pub open spec fn kind_name(k: TokenType) -> Seq<u8> {
    match k {
        TokenType::LEFT_PAREN => text("LEFT_PAREN"),
        TokenType::RIGHT_PAREN => text("RIGHT_PAREN"),
        TokenType::LEFT_BRACE => text("LEFT_BRACE"),
        TokenType::RIGHT_BRACE => text("RIGHT_BRACE"),
        TokenType::COMMA => text("COMMA"),
        TokenType::DOT => text("DOT"),
        TokenType::MINUS => text("MINUS"),
        TokenType::PLUS => text("PLUS"),
        TokenType::SEMICOLON => text("SEMICOLON"),
        TokenType::SLASH => text("SLASH"),
        TokenType::STAR => text("STAR"),
        TokenType::BANG => text("BANG"),
        TokenType::BANG_EQUAL => text("BANG_EQUAL"),
        TokenType::EQUAL => text("EQUAL"),
        TokenType::EQUAL_EQUAL => text("EQUAL_EQUAL"),
        TokenType::GREATER => text("GREATER"),
        TokenType::GREATER_EQUAL => text("GREATER_EQUAL"),
        TokenType::LESS => text("LESS"),
        TokenType::LESS_EQUAL => text("LESS_EQUAL"),
        TokenType::IDENTIFIER => text("IDENTIFIER"),
        TokenType::STRING => text("STRING"),
        TokenType::NUMBER => text("NUMBER"),
        TokenType::AND => text("AND"),
        TokenType::CLASS => text("CLASS"),
        TokenType::ELSE => text("ELSE"),
        TokenType::FALSE => text("FALSE"),
        TokenType::FUN => text("FUN"),
        TokenType::FOR => text("FOR"),
        TokenType::IF => text("IF"),
        TokenType::NIL => text("NIL"),
        TokenType::OR => text("OR"),
        TokenType::PRINT => text("PRINT"),
        TokenType::RETURN => text("RETURN"),
        TokenType::SUPER => text("SUPER"),
        TokenType::THIS => text("THIS"),
        TokenType::TRUE => text("TRUE"),
        TokenType::VAR => text("VAR"),
        TokenType::WHILE => text("WHILE"),
        TokenType::EOF => text("EOF"),
    }
}

/// A token's line in the token listing: `KIND lexeme literal`.
pub open spec fn token_line(t: TokenView) -> Seq<u8> {
    kind_name(t.kind) + seq![SPACE] + t.lexeme + seq![SPACE] + t.literal
}

impl TokenType {
    /// The name of this kind.
    pub fn name(&self) -> (r: &'static str)
        ensures
            text(r) == kind_name(*self),
    {
        match self {
            TokenType::LEFT_PAREN => "LEFT_PAREN",
            TokenType::RIGHT_PAREN => "RIGHT_PAREN",
            TokenType::LEFT_BRACE => "LEFT_BRACE",
            TokenType::RIGHT_BRACE => "RIGHT_BRACE",
            TokenType::COMMA => "COMMA",
            TokenType::DOT => "DOT",
            TokenType::MINUS => "MINUS",
            TokenType::PLUS => "PLUS",
            TokenType::SEMICOLON => "SEMICOLON",
            TokenType::SLASH => "SLASH",
            TokenType::STAR => "STAR",
            TokenType::BANG => "BANG",
            TokenType::BANG_EQUAL => "BANG_EQUAL",
            TokenType::EQUAL => "EQUAL",
            TokenType::EQUAL_EQUAL => "EQUAL_EQUAL",
            TokenType::GREATER => "GREATER",
            TokenType::GREATER_EQUAL => "GREATER_EQUAL",
            TokenType::LESS => "LESS",
            TokenType::LESS_EQUAL => "LESS_EQUAL",
            TokenType::IDENTIFIER => "IDENTIFIER",
            TokenType::STRING => "STRING",
            TokenType::NUMBER => "NUMBER",
            TokenType::AND => "AND",
            TokenType::CLASS => "CLASS",
            TokenType::ELSE => "ELSE",
            TokenType::FALSE => "FALSE",
            TokenType::FUN => "FUN",
            TokenType::FOR => "FOR",
            TokenType::IF => "IF",
            TokenType::NIL => "NIL",
            TokenType::OR => "OR",
            TokenType::PRINT => "PRINT",
            TokenType::RETURN => "RETURN",
            TokenType::SUPER => "SUPER",
            TokenType::THIS => "THIS",
            TokenType::TRUE => "TRUE",
            TokenType::VAR => "VAR",
            TokenType::WHILE => "WHILE",
            TokenType::EOF => "EOF",
        }
    }
}

impl Token {
    pub fn new(token_type: TokenType, lexeme: &[u8], literal: Vec<u8>, line: usize) -> (r: Token)
        ensures
            r@ == (TokenView { kind: token_type, lexeme: lexeme@, literal: literal@, line: line as nat }),
    {
        let mut copy: Vec<u8> = Vec::new();
        append_bytes(&mut copy, lexeme);
        Token { token_type, lexeme: copy, literal, line }
    }

    /// An independent copy of this token.
    pub fn copy(&self) -> (r: Token)
        ensures
            r@ == self@,
    {
        let mut lexeme: Vec<u8> = Vec::new();
        append_bytes(&mut lexeme, self.lexeme.as_slice());
        let mut literal: Vec<u8> = Vec::new();
        append_bytes(&mut literal, self.literal.as_slice());
        Token { token_type: self.token_type, lexeme, literal, line: self.line }
    }

    /// This token's line in the token listing.
    pub fn to_text(&self) -> (r: Vec<u8>)
        ensures
            r@ == token_line(self@),
    {
        let mut out = text_bytes(self.token_type.name());
        out.push(SPACE);
        append_bytes(&mut out, self.lexeme.as_slice());
        out.push(SPACE);
        append_bytes(&mut out, self.literal.as_slice());
        proof {
            assert(out@ =~= token_line(self@));
        }
        out
    }
}

} // verus!
