use vstd::prelude::*;
use crate::text::{append_bytes, text, text_bytes};
use crate::token::{Token, TokenType, TokenView};

verus! {

/// A lexical or syntax error, located at a line: printed as
/// `[line {line}] Error: {context}{message}`.
pub struct Diagnostic {
    pub line: usize,
    pub context: Vec<u8>,
    pub message: Vec<u8>,
}

/// A diagnostic as a mathematical value.
pub struct DiagView {
    pub line: nat,
    pub context: Seq<u8>,
    pub message: Seq<u8>,
}

impl View for Diagnostic {
    type V = DiagView;

    open spec fn view(&self) -> DiagView {
        DiagView { line: self.line as nat, context: self.context@, message: self.message@ }
    }
}

/// Where an error reported at token `t` is: at the end of input, or at its lexeme.
pub open spec fn context_at(t: TokenView) -> Seq<u8> {
    if t.kind == TokenType::EOF {
        text(" at end ")
    } else {
        text(" at '") + t.lexeme + text("' ")
    }
}

/// The diagnostic for an error reported at token `t`.
pub open spec fn error_at(t: TokenView, message: Seq<u8>) -> DiagView {
    DiagView { line: t.line, context: context_at(t), message }
}

impl Diagnostic {
    /// An error with `message` reported at token `token`.
    pub fn at_token(token: &Token, message: Vec<u8>) -> (r: Diagnostic)
        ensures
            r@ == error_at(token@, message@),
    {
        let context = if token.token_type == TokenType::EOF {
            text_bytes(" at end ")
        } else {
            let mut c = text_bytes(" at '");
            append_bytes(&mut c, token.lexeme.as_slice());
            let tail = text_bytes("' ");
            append_bytes(&mut c, tail.as_slice());
            c
        };
        Diagnostic { line: token.line, context, message }
    }
}

} // verus!
