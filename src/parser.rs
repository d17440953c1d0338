use vstd::prelude::*;
use crate::ast::{Declaration, DeclM, Expr, ExprM, If, Object, Statement, StmtM, Val, While, decls_model, expr_text, lemma_block_model};
use crate::number::{literal_number, parse_literal};
use crate::report::{error_at, DiagView, Diagnostic};
use crate::scanner::{diags_view, tokens_view};
use crate::text::{text, text_bytes};
use crate::token::{Token, TokenType, TokenView};

verus! {

broadcast use vstd::std_specs::vec::group_vec_axioms;

/// A parse that succeeded: its value, where parsing resumes, and the
/// errors reported so far.
pub struct Parsed<T> {
    pub value: T,
    pub pos: int,
    pub diags: Seq<DiagView>,
}

/// A token sequence that ends with the end-of-input token.
pub open spec fn tokens_ok(ts: Seq<TokenView>) -> bool {
    ts.len() > 0 && ts.last().kind == TokenType::EOF
}

pub open spec fn valid(ts: Seq<TokenView>, p: int) -> bool {
    tokens_ok(ts) && 0 <= p < ts.len()
}

pub open spec fn at_end(ts: Seq<TokenView>, p: int) -> bool {
    ts[p].kind == TokenType::EOF
}

pub open spec fn check(ts: Seq<TokenView>, p: int, k: TokenType) -> bool {
    !at_end(ts, p) && ts[p].kind == k
}

/// Consumes a token of kind `k`, or reports `msg` at the current token and
/// goes on without consuming.
pub open spec fn consume(ts: Seq<TokenView>, p: int, d: Seq<DiagView>, k: TokenType, msg: Seq<u8>) -> (int, Seq<DiagView>) {
    if check(ts, p, k) {
        (p + 1, d)
    } else {
        (p, d.push(error_at(ts[p], msg)))
    }
}

/// The operators of each binary tier, from `or` (0) to factor (5).
pub open spec fn level_matches(l: int, k: TokenType) -> bool {
    if l == 0 {
        k == TokenType::OR
    } else if l == 1 {
        k == TokenType::AND
    } else if l == 2 {
        k == TokenType::BANG_EQUAL || k == TokenType::EQUAL_EQUAL
    } else if l == 3 {
        k == TokenType::GREATER || k == TokenType::GREATER_EQUAL || k == TokenType::LESS || k
            == TokenType::LESS_EQUAL
    } else if l == 4 {
        k == TokenType::MINUS || k == TokenType::PLUS
    } else {
        k == TokenType::SLASH || k == TokenType::STAR
    }
}

pub open spec fn level_node(l: int, left: ExprM, op: TokenView, right: ExprM) -> ExprM {
    if l <= 1 {
        ExprM::Logical(Box::new(left), op, Box::new(right))
    } else {
        ExprM::Binary(Box::new(left), op, Box::new(right))
    }
}

pub open spec fn p_expression(ts: Seq<TokenView>, p: int, d: Seq<DiagView>) -> Result<Parsed<ExprM>, Seq<DiagView>>
    decreases ts.len() - p, 20int,
{
    if !valid(ts, p) {
        Err(d)
    } else {
        p_assignment(ts, p, d)
    }
}

pub open spec fn p_assignment(ts: Seq<TokenView>, p: int, d: Seq<DiagView>) -> Result<Parsed<ExprM>, Seq<DiagView>>
    decreases ts.len() - p, 19int,
{
    if !valid(ts, p) {
        Err(d)
    } else {
        match p_level(ts, 0, p, d) {
            Err(e) => Err(e),
            Ok(r) => if !(p < r.pos < ts.len()) {
                Err(d)
            } else if check(ts, r.pos, TokenType::EQUAL) {
                match p_assignment(ts, r.pos + 1, r.diags) {
                    Err(e) => Err(e),
                    Ok(v) => match r.value {
                        ExprM::Variable(n) => Ok(
                            Parsed { value: ExprM::Assign(n, Box::new(v.value)), pos: v.pos, diags: v.diags },
                        ),
                        _ => Ok(
                            Parsed {
                                value: r.value,
                                pos: v.pos,
                                diags: v.diags.push(error_at(ts[r.pos], text("Invalid assignment target."))),
                            },
                        ),
                    },
                }
            } else {
                Ok(r)
            },
        }
    }
}

/// A binary tier: an operand, then any number of `op operand` pairs folded
/// to the left.
pub open spec fn p_level(ts: Seq<TokenView>, l: int, p: int, d: Seq<DiagView>) -> Result<Parsed<ExprM>, Seq<DiagView>>
    decreases ts.len() - p, 18 - 2 * l,
{
    if !valid(ts, p) || l < 0 || l > 5 {
        Err(d)
    } else {
        let first = if l == 5 {
            p_unary(ts, p, d)
        } else {
            p_level(ts, l + 1, p, d)
        };
        match first {
            Err(e) => Err(e),
            Ok(r) => if !(p < r.pos < ts.len()) {
                Err(d)
            } else {
                p_level_rest(ts, l, r.value, r.pos, r.diags)
            },
        }
    }
}

pub open spec fn p_level_rest(ts: Seq<TokenView>, l: int, left: ExprM, p: int, d: Seq<DiagView>) -> Result<Parsed<ExprM>, Seq<DiagView>>
    decreases ts.len() - p, 17 - 2 * l,
{
    if !valid(ts, p) || l < 0 || l > 5 {
        Err(d)
    } else if !at_end(ts, p) && level_matches(l, ts[p].kind) {
        let right = if l == 5 {
            p_unary(ts, p + 1, d)
        } else {
            p_level(ts, l + 1, p + 1, d)
        };
        match right {
            Err(e) => Err(e),
            Ok(r) => if !(p + 1 < r.pos < ts.len()) {
                Err(d)
            } else {
                p_level_rest(ts, l, level_node(l, left, ts[p], r.value), r.pos, r.diags)
            },
        }
    } else {
        Ok(Parsed { value: left, pos: p, diags: d })
    }
}

pub open spec fn p_unary(ts: Seq<TokenView>, p: int, d: Seq<DiagView>) -> Result<Parsed<ExprM>, Seq<DiagView>>
    decreases ts.len() - p, 6int,
{
    if !valid(ts, p) {
        Err(d)
    } else if check(ts, p, TokenType::BANG) || check(ts, p, TokenType::MINUS) {
        match p_unary(ts, p + 1, d) {
            Err(e) => Err(e),
            Ok(r) => Ok(Parsed { value: ExprM::Unary(ts[p], Box::new(r.value)), pos: r.pos, diags: r.diags }),
        }
    } else {
        p_primary(ts, p, d)
    }
}

pub open spec fn literal_at(v: Val, p: int, d: Seq<DiagView>) -> Result<Parsed<ExprM>, Seq<DiagView>> {
    Ok(Parsed { value: ExprM::Literal(v), pos: p + 1, diags: d })
}

pub open spec fn p_primary(ts: Seq<TokenView>, p: int, d: Seq<DiagView>) -> Result<Parsed<ExprM>, Seq<DiagView>>
    decreases ts.len() - p, 5int,
{
    if !valid(ts, p) {
        Err(d)
    } else if check(ts, p, TokenType::STRING) {
        literal_at(Val::Str(ts[p].literal), p, d)
    } else if check(ts, p, TokenType::NUMBER) {
        match literal_number(ts[p].lexeme) {
            Some(n) => literal_at(Val::Number(n), p, d),
            None => Err(d.push(error_at(ts[p], text("Number literal out of range.")))),
        }
    } else if check(ts, p, TokenType::TRUE) {
        literal_at(Val::Bool(true), p, d)
    } else if check(ts, p, TokenType::FALSE) {
        literal_at(Val::Bool(false), p, d)
    } else if check(ts, p, TokenType::NIL) {
        literal_at(Val::Nil, p, d)
    } else if check(ts, p, TokenType::IDENTIFIER) {
        Ok(Parsed { value: ExprM::Variable(ts[p].lexeme), pos: p + 1, diags: d })
    } else if check(ts, p, TokenType::LEFT_PAREN) {
        match p_expression(ts, p + 1, d) {
            Err(e) => Err(e),
            Ok(r) => if !(p + 1 < r.pos < ts.len()) {
                Err(d)
            } else {
                let c = consume(ts, r.pos, r.diags, TokenType::RIGHT_PAREN, text("Expect ')' after expression."));
                Ok(Parsed { value: ExprM::Grouping(Box::new(r.value)), pos: c.0, diags: c.1 })
            },
        }
    } else {
        Err(d.push(error_at(ts[p], text("Expect expression."))))
    }
}

} // verus!

verus! {

pub open spec fn p_declaration(ts: Seq<TokenView>, p: int, d: Seq<DiagView>) -> Result<Parsed<DeclM>, Seq<DiagView>>
    decreases ts.len() - p, 40int,
{
    if !valid(ts, p) {
        Err(d)
    } else if check(ts, p, TokenType::VAR) {
        p_var_decl(ts, p + 1, d)
    } else {
        match p_statement(ts, p, d) {
            Err(e) => Err(e),
            Ok(r) => Ok(Parsed { value: DeclM::Stmt(r.value), pos: r.pos, diags: r.diags }),
        }
    }
}

/// The rest of a variable declaration, after `var`.
pub open spec fn p_var_decl(ts: Seq<TokenView>, p: int, d: Seq<DiagView>) -> Result<Parsed<DeclM>, Seq<DiagView>>
    decreases ts.len() - p, 39int,
{
    if !valid(ts, p) {
        Err(d)
    } else if !check(ts, p, TokenType::IDENTIFIER) {
        Err(d.push(error_at(ts[p], text("Expect variable name."))))
    } else if check(ts, p + 1, TokenType::EQUAL) {
        match p_expression(ts, p + 2, d) {
            Err(e) => Err(e),
            Ok(r) => if !(p + 2 < r.pos < ts.len()) {
                Err(d)
            } else {
                let c = consume(ts, r.pos, r.diags, TokenType::SEMICOLON, text("Expect ';' after variable declaration."));
                Ok(Parsed { value: DeclM::Var(ts[p].lexeme, r.value), pos: c.0, diags: c.1 })
            },
        }
    } else {
        let c = consume(ts, p + 1, d, TokenType::SEMICOLON, text("Expect ';' after variable declaration."));
        Ok(Parsed { value: DeclM::Var(ts[p].lexeme, ExprM::Literal(Val::Nil)), pos: c.0, diags: c.1 })
    }
}

/// An expression followed by `;`.
pub open spec fn p_terminated(ts: Seq<TokenView>, p: int, d: Seq<DiagView>, msg: Seq<u8>) -> Result<Parsed<ExprM>, Seq<DiagView>>
    decreases ts.len() - p, 21int,
{
    if !valid(ts, p) {
        Err(d)
    } else {
        match p_expression(ts, p, d) {
            Err(e) => Err(e),
            Ok(r) => if !(p < r.pos < ts.len()) {
                Err(d)
            } else {
                let c = consume(ts, r.pos, r.diags, TokenType::SEMICOLON, msg);
                Ok(Parsed { value: r.value, pos: c.0, diags: c.1 })
            },
        }
    }
}

pub open spec fn p_statement(ts: Seq<TokenView>, p: int, d: Seq<DiagView>) -> Result<Parsed<StmtM>, Seq<DiagView>>
    decreases ts.len() - p, 38int,
{
    if !valid(ts, p) {
        Err(d)
    } else if check(ts, p, TokenType::PRINT) {
        match p_terminated(ts, p + 1, d, text("Expect ';' after value.")) {
            Err(e) => Err(e),
            Ok(r) => Ok(Parsed { value: StmtM::Print(r.value), pos: r.pos, diags: r.diags }),
        }
    } else if check(ts, p, TokenType::LEFT_BRACE) {
        match p_block(ts, p + 1, d) {
            Err(e) => Err(e),
            Ok(r) => Ok(Parsed { value: StmtM::Block(r.value), pos: r.pos, diags: r.diags }),
        }
    } else if check(ts, p, TokenType::IF) {
        p_if(ts, p + 1, d)
    } else if check(ts, p, TokenType::WHILE) {
        p_while(ts, p + 1, d)
    } else if check(ts, p, TokenType::FOR) {
        p_for(ts, p + 1, d)
    } else {
        match p_terminated(ts, p, d, text("Expect ';' after expression.")) {
            Err(e) => Err(e),
            Ok(r) => Ok(Parsed { value: StmtM::Expr(r.value), pos: r.pos, diags: r.diags }),
        }
    }
}

/// The declarations of a block up to its closing brace, after `{`.
pub open spec fn p_block(ts: Seq<TokenView>, p: int, d: Seq<DiagView>) -> Result<Parsed<Seq<DeclM>>, Seq<DiagView>>
    decreases ts.len() - p, 42int,
{
    if !valid(ts, p) {
        Err(d)
    } else {
        match p_block_rest(ts, p, d, Seq::empty()) {
            Err(e) => Err(e),
            Ok(r) => if !(p <= r.pos < ts.len()) {
                Err(d)
            } else {
                let c = consume(ts, r.pos, r.diags, TokenType::RIGHT_BRACE, text("Expect '}' after block."));
                Ok(Parsed { value: r.value, pos: c.0, diags: c.1 })
            },
        }
    }
}

pub open spec fn p_block_rest(ts: Seq<TokenView>, p: int, d: Seq<DiagView>, acc: Seq<DeclM>) -> Result<Parsed<Seq<DeclM>>, Seq<DiagView>>
    decreases ts.len() - p, 41int,
{
    if !valid(ts, p) {
        Err(d)
    } else if !at_end(ts, p) && !check(ts, p, TokenType::RIGHT_BRACE) {
        match p_declaration(ts, p, d) {
            Err(e) => Err(e),
            Ok(r) => if !(p < r.pos < ts.len()) {
                Err(d)
            } else {
                p_block_rest(ts, r.pos, r.diags, acc.push(r.value))
            },
        }
    } else {
        Ok(Parsed { value: acc, pos: p, diags: d })
    }
}

/// The rest of an `if` statement, after `if`.
pub open spec fn p_if(ts: Seq<TokenView>, p: int, d: Seq<DiagView>) -> Result<Parsed<StmtM>, Seq<DiagView>>
    decreases ts.len() - p, 44int,
{
    if !valid(ts, p) {
        Err(d)
    } else {
        let c1 = consume(ts, p, d, TokenType::LEFT_PAREN, text("Expect '(' after 'if'."));
        match p_expression(ts, c1.0, c1.1) {
            Err(e) => Err(e),
            Ok(cond) => if !(p <= c1.0 < cond.pos < ts.len()) {
                Err(d)
            } else {
                let c2 = consume(ts, cond.pos, cond.diags, TokenType::RIGHT_PAREN, text("Expect ')' after if condition."));
                match p_statement(ts, c2.0, c2.1) {
                    Err(e) => Err(e),
                    Ok(t) => if !(c2.0 < t.pos < ts.len()) {
                        Err(d)
                    } else if check(ts, t.pos, TokenType::ELSE) {
                        match p_statement(ts, t.pos + 1, t.diags) {
                            Err(e) => Err(e),
                            Ok(e) => Ok(
                                Parsed {
                                    value: StmtM::If(cond.value, Box::new(t.value), Some(Box::new(e.value))),
                                    pos: e.pos,
                                    diags: e.diags,
                                },
                            ),
                        }
                    } else {
                        Ok(Parsed { value: StmtM::If(cond.value, Box::new(t.value), None), pos: t.pos, diags: t.diags })
                    },
                }
            },
        }
    }
}

/// The rest of a `while` statement, after `while`.
pub open spec fn p_while(ts: Seq<TokenView>, p: int, d: Seq<DiagView>) -> Result<Parsed<StmtM>, Seq<DiagView>>
    decreases ts.len() - p, 44int,
{
    if !valid(ts, p) {
        Err(d)
    } else {
        let c1 = consume(ts, p, d, TokenType::LEFT_PAREN, text("Expect '(' after 'while'."));
        match p_expression(ts, c1.0, c1.1) {
            Err(e) => Err(e),
            Ok(cond) => if !(p <= c1.0 < cond.pos < ts.len()) {
                Err(d)
            } else {
                let c2 = consume(ts, cond.pos, cond.diags, TokenType::RIGHT_PAREN, text("Expect ')' after while condition."));
                match p_statement(ts, c2.0, c2.1) {
                    Err(e) => Err(e),
                    Ok(b) => Ok(Parsed { value: StmtM::While(cond.value, Box::new(b.value)), pos: b.pos, diags: b.diags }),
                }
            },
        }
    }
}

/// A `for` loop as the `while` loop it stands for: the body, then the
/// increment, in a block, repeated while the condition (`true` when
/// omitted) holds, inside a block with the initializer when there is one.
pub open spec fn desugar_for(init: Option<DeclM>, cond: ExprM, incr: Option<ExprM>, body: StmtM) -> StmtM {
    let inner = match incr {
        Some(e) => seq![DeclM::Stmt(body), DeclM::Stmt(StmtM::Expr(e))],
        None => seq![DeclM::Stmt(body)],
    };
    let lp = StmtM::While(cond, Box::new(StmtM::Block(inner)));
    match init {
        Some(i) => StmtM::Block(seq![i, DeclM::Stmt(lp)]),
        None => lp,
    }
}

/// The clauses of a `for` statement, from its `(` to its `)`: the
/// initializer, the condition (`true` when omitted) and the increment.
pub open spec fn p_for_clauses(ts: Seq<TokenView>, p: int, d: Seq<DiagView>) -> Result<
    Parsed<(Option<DeclM>, ExprM, Option<ExprM>)>,
    Seq<DiagView>,
>
    decreases ts.len() - p, 46int,
{
    if !valid(ts, p) {
        Err(d)
    } else {
        let c1 = consume(ts, p, d, TokenType::LEFT_PAREN, text("Expect '(' after 'for'."));
        let init: Result<Parsed<Option<DeclM>>, Seq<DiagView>> = if check(ts, c1.0, TokenType::SEMICOLON) {
            Ok(Parsed { value: None, pos: c1.0 + 1, diags: c1.1 })
        } else {
            match p_declaration(ts, c1.0, c1.1) {
                Err(e) => Err(e),
                Ok(r) => Ok(Parsed { value: Some(r.value), pos: r.pos, diags: r.diags }),
            }
        };
        match init {
            Err(e) => Err(e),
            Ok(i) => if !(p <= c1.0 < i.pos < ts.len()) {
                Err(d)
            } else {
                let cond: Result<Parsed<ExprM>, Seq<DiagView>> = if check(ts, i.pos, TokenType::SEMICOLON) {
                    Ok(Parsed { value: ExprM::Literal(Val::Bool(true)), pos: i.pos, diags: i.diags })
                } else {
                    p_expression(ts, i.pos, i.diags)
                };
                match cond {
                    Err(e) => Err(e),
                    Ok(c) => if !(i.pos <= c.pos < ts.len()) {
                        Err(d)
                    } else {
                        let c2 = consume(ts, c.pos, c.diags, TokenType::SEMICOLON, text("Expect ';' after loop condition."));
                        let incr: Result<Parsed<Option<ExprM>>, Seq<DiagView>> = if check(ts, c2.0, TokenType::RIGHT_PAREN) {
                            Ok(Parsed { value: None, pos: c2.0, diags: c2.1 })
                        } else {
                            match p_expression(ts, c2.0, c2.1) {
                                Err(e) => Err(e),
                                Ok(r) => Ok(Parsed { value: Some(r.value), pos: r.pos, diags: r.diags }),
                            }
                        };
                        match incr {
                            Err(e) => Err(e),
                            Ok(n) => if !(c2.0 <= n.pos < ts.len()) {
                                Err(d)
                            } else {
                                let c3 = consume(ts, n.pos, n.diags, TokenType::RIGHT_PAREN, text("Expect ')' after for clauses."));
                                Ok(Parsed { value: (i.value, c.value, n.value), pos: c3.0, diags: c3.1 })
                            },
                        }
                    },
                }
            },
        }
    }
}

/// The rest of a `for` statement, after `for`.
pub open spec fn p_for(ts: Seq<TokenView>, p: int, d: Seq<DiagView>) -> Result<Parsed<StmtM>, Seq<DiagView>>
    decreases ts.len() - p, 47int,
{
    if !valid(ts, p) {
        Err(d)
    } else {
        match p_for_clauses(ts, p, d) {
            Err(e) => Err(e),
            Ok(h) => if !(p < h.pos < ts.len()) {
                Err(d)
            } else {
                match p_statement(ts, h.pos, h.diags) {
                    Err(e) => Err(e),
                    Ok(b) => Ok(
                        Parsed { value: desugar_for(h.value.0, h.value.1, h.value.2, b.value), pos: b.pos, diags: b.diags },
                    ),
                }
            },
        }
    }
}

/// The declarations of a whole program, up to the end of input.
pub open spec fn p_program(ts: Seq<TokenView>, p: int, d: Seq<DiagView>, acc: Seq<DeclM>) -> Result<Parsed<Seq<DeclM>>, Seq<DiagView>>
    decreases ts.len() - p, 50int,
{
    if !valid(ts, p) {
        Err(d)
    } else if !at_end(ts, p) {
        match p_declaration(ts, p, d) {
            Err(e) => Err(e),
            Ok(r) => if !(p < r.pos < ts.len()) {
                Err(d)
            } else {
                p_program(ts, r.pos, r.diags, acc.push(r.value))
            },
        }
    } else {
        Ok(Parsed { value: acc, pos: p, diags: d })
    }
}

/// The program that the tokens `ts` spell: its declarations and the
/// errors reported on the way, or, when an expression is missing where one
/// is needed, every error up to and including that one.
pub open spec fn parse_program(ts: Seq<TokenView>) -> Result<Parsed<Seq<DeclM>>, Seq<DiagView>> {
    p_program(ts, 0, Seq::empty(), Seq::empty())
}

} // verus!

verus! {

/// Parsing stopped at an error it cannot go past; the error is the last
/// one reported.
pub struct ParseAbort;

pub open spec fn expr_outcome(
    r: Result<(Expr, usize), ParseAbort>,
    d: Seq<DiagView>,
    s: Result<Parsed<ExprM>, Seq<DiagView>>,
) -> bool {
    match s {
        Ok(q) => r matches Ok(x) && x.0@ == q.value && x.1 == q.pos && d == q.diags,
        Err(e) => r is Err && d == e,
    }
}

pub open spec fn stmt_outcome(
    r: Result<(Statement, usize), ParseAbort>,
    d: Seq<DiagView>,
    s: Result<Parsed<StmtM>, Seq<DiagView>>,
) -> bool {
    match s {
        Ok(q) => r matches Ok(x) && x.0@ == q.value && x.1 == q.pos && d == q.diags,
        Err(e) => r is Err && d == e,
    }
}

pub open spec fn decl_outcome(
    r: Result<(Declaration, usize), ParseAbort>,
    d: Seq<DiagView>,
    s: Result<Parsed<DeclM>, Seq<DiagView>>,
) -> bool {
    match s {
        Ok(q) => r matches Ok(x) && x.0@ == q.value && x.1 == q.pos && d == q.diags,
        Err(e) => r is Err && d == e,
    }
}

pub open spec fn decls_outcome(
    r: Result<(Vec<Declaration>, usize), ParseAbort>,
    d: Seq<DiagView>,
    s: Result<Parsed<Seq<DeclM>>, Seq<DiagView>>,
) -> bool {
    match s {
        Ok(q) => r matches Ok(x) && decls_model(x.0@) == q.value && x.1 == q.pos && d == q.diags,
        Err(e) => r is Err && d == e,
    }
}

pub open spec fn opt_decl(o: Option<Declaration>) -> Option<DeclM> {
    match o {
        Some(d) => Some(d@),
        None => None,
    }
}

pub open spec fn opt_expr(o: Option<Expr>) -> Option<ExprM> {
    match o {
        Some(e) => Some(e@),
        None => None,
    }
}

/// Builds the `while` loop that a `for` loop stands for.
#[verifier::rlimit(60)]
fn desugar_for_loop(initializer: Option<Declaration>, condition: Expr, increment: Option<Expr>, body: Statement) -> (r: Statement)
    ensures
        r@ == desugar_for(opt_decl(initializer), condition@, opt_expr(increment), body@),
{
    let ghost body_m = body@;
    let ghost incr_m = opt_expr(increment);
    let ghost init_m = opt_decl(initializer);
    let ghost cond_m = condition@;
    let mut inner: Vec<Declaration> = Vec::new();
    inner.push(Declaration::Statement(body));
    match increment {
        Some(e) => inner.push(Declaration::Statement(Statement::ExprStmt(e))),
        None => {},
    }
    let ghost inner_m = match incr_m {
        Some(e) => seq![DeclM::Stmt(body_m), DeclM::Stmt(StmtM::Expr(e))],
        None => seq![DeclM::Stmt(body_m)],
    };
    proof {
        assert(decls_model(inner@) =~= inner_m);
    }
    let block = Statement::Block(inner);
    proof {
        lemma_block_model(inner);
        assert(block@ == StmtM::Block(inner_m));
    }
    let lp = Statement::WhileStmt(While { condition: Box::new(condition), block: Box::new(block) });
    assert(lp@ == StmtM::While(cond_m, Box::new(StmtM::Block(inner_m))));
    match initializer {
        Some(i) => {
            let mut outer: Vec<Declaration> = Vec::new();
            outer.push(i);
            outer.push(Declaration::Statement(lp));
            proof {
                assert(decls_model(outer@) =~= seq![init_m->0, DeclM::Stmt(lp@)]);
                lemma_block_model(outer);
            }
            Statement::Block(outer)
        },
        None => lp,
    }
}

/// What parsing produced: the declarations, or an abort, and every error
/// reported on the way.
pub struct ParseOutput {
    pub declarations: Result<Vec<Declaration>, ParseAbort>,
    pub errors: Vec<Diagnostic>,
}

/// A recursive-descent parser over a token sequence that ends with the
/// end-of-input token.
pub struct Parser {
    tokens: Vec<Token>,
}

impl Parser {
    #[verifier::type_invariant]
    spec fn inv(&self) -> bool {
        tokens_ok(tokens_view(self.tokens@)) && self.tokens@.len() < usize::MAX
    }

    /// The tokens being parsed.
    pub closed spec fn ts(&self) -> Seq<TokenView> {
        tokens_view(self.tokens@)
    }

    pub fn new(tokens: Vec<Token>) -> (r: Parser)
        requires
            tokens_ok(tokens_view(tokens@)),
            tokens@.len() < usize::MAX,
        ensures
            r.ts() == tokens_view(tokens@),
    {
        Parser { tokens }
    }

    fn is_at_end(&self, pos: usize) -> (r: bool)
        requires
            pos < self.ts().len(),
        ensures
            r == at_end(self.ts(), pos as int),
    {
        self.tokens[pos].token_type == TokenType::EOF
    }

    fn check(&self, pos: usize, token_type: TokenType) -> (r: bool)
        requires
            pos < self.ts().len(),
        ensures
            r == check(self.ts(), pos as int, token_type),
            r ==> pos + 1 < self.ts().len(),
            self.ts().len() <= usize::MAX,
    {
        proof {
            use_type_invariant(self);
        }
        !self.is_at_end(pos) && self.tokens[pos].token_type == token_type
    }

    fn peek(&self, pos: usize) -> (r: &Token)
        requires
            pos < self.ts().len(),
        ensures
            r@ == self.ts()[pos as int],
    {
        &self.tokens[pos]
    }

    fn error(&self, pos: usize, errors: &mut Vec<Diagnostic>, message: &str)
        requires
            pos < self.ts().len(),
        ensures
            diags_view(final(errors)@) == diags_view(old(errors)@).push(
                error_at(self.ts()[pos as int], text(message)),
            ),
    {
        let d = Diagnostic::at_token(self.peek(pos), text_bytes(message));
        let ghost before = errors@;
        errors.push(d);
        assert(diags_view(errors@) =~= diags_view(before).push(d@));
    }

    fn consume(&self, pos: usize, errors: &mut Vec<Diagnostic>, token_type: TokenType, message: &str) -> (r: usize)
        requires
            pos < self.ts().len(),
        ensures
            (r as int, diags_view(final(errors)@)) == consume(
                self.ts(),
                pos as int,
                diags_view(old(errors)@),
                token_type,
                text(message),
            ),
            pos <= r < self.ts().len(),
    {
        if self.check(pos, token_type) {
            pos + 1
        } else {
            self.error(pos, errors, message);
            pos
        }
    }

    fn level_matches(&self, l: u8, pos: usize) -> (r: bool)
        requires
            pos < self.ts().len(),
        ensures
            r == (!at_end(self.ts(), pos as int) && level_matches(l as int, self.ts()[pos as int].kind)),
            r ==> pos + 1 < self.ts().len() <= usize::MAX,
    {
        proof {
            use_type_invariant(self);
        }
        if self.is_at_end(pos) {
            return false;
        }
        let k = self.tokens[pos].token_type;
        if l == 0 {
            k == TokenType::OR
        } else if l == 1 {
            k == TokenType::AND
        } else if l == 2 {
            k == TokenType::BANG_EQUAL || k == TokenType::EQUAL_EQUAL
        } else if l == 3 {
            k == TokenType::GREATER || k == TokenType::GREATER_EQUAL || k == TokenType::LESS || k
                == TokenType::LESS_EQUAL
        } else if l == 4 {
            k == TokenType::MINUS || k == TokenType::PLUS
        } else {
            k == TokenType::SLASH || k == TokenType::STAR
        }
    }

    fn expression(&self, pos: usize, errors: &mut Vec<Diagnostic>) -> (r: Result<(Expr, usize), ParseAbort>)
        requires
            pos < self.ts().len(),
        ensures
            expr_outcome(r, diags_view(final(errors)@), p_expression(self.ts(), pos as int, diags_view(old(errors)@))),
            r matches Ok(x) ==> pos < x.1 < self.ts().len(),
        decreases self.ts().len() - pos, 20int,
    {
        proof {
            use_type_invariant(self);
        }
        self.assignment(pos, errors)
    }

    fn assignment(&self, pos: usize, errors: &mut Vec<Diagnostic>) -> (r: Result<(Expr, usize), ParseAbort>)
        requires
            pos < self.ts().len(),
        ensures
            expr_outcome(r, diags_view(final(errors)@), p_assignment(self.ts(), pos as int, diags_view(old(errors)@))),
            r matches Ok(x) ==> pos < x.1 < self.ts().len(),
        decreases self.ts().len() - pos, 19int,
    {
        proof {
            use_type_invariant(self);
        }
        let (expr, p1) = match self.binary(0, pos, errors) {
            Err(a) => return Err(a),
            Ok(x) => x,
        };
        if self.check(p1, TokenType::EQUAL) {
            match self.assignment(p1 + 1, errors) {
                Err(a) => Err(a),
                Ok((value, p2)) => match expr {
                    Expr::Variable { identifier } => Ok(
                        (Expr::Assign { identifier, value: Box::new(value) }, p2),
                    ),
                    other => {
                        self.error(p1, errors, "Invalid assignment target.");
                        Ok((other, p2))
                    },
                },
            }
        } else {
            Ok((expr, p1))
        }
    }

    /// A binary tier, from `or` (0) to factor (5): operands folded to the
    /// left while an operator of the tier follows.
    fn binary(&self, l: u8, pos: usize, errors: &mut Vec<Diagnostic>) -> (r: Result<(Expr, usize), ParseAbort>)
        requires
            pos < self.ts().len(),
            l <= 5,
        ensures
            expr_outcome(r, diags_view(final(errors)@), p_level(self.ts(), l as int, pos as int, diags_view(old(errors)@))),
            r matches Ok(x) ==> pos < x.1 < self.ts().len(),
        decreases self.ts().len() - pos, 18 - 2 * l,
    {
        proof {
            use_type_invariant(self);
        }
        let ghost ts = self.ts();
        let ghost target = p_level(ts, l as int, pos as int, diags_view(errors@));
        let first = if l == 5 {
            self.unary(pos, errors)
        } else {
            self.binary(l + 1, pos, errors)
        };
        let (mut expr, mut p) = match first {
            Err(a) => return Err(a),
            Ok(x) => x,
        };
        while self.level_matches(l, p)
            invariant
                ts == self.ts(),
                tokens_ok(ts),
                l <= 5,
                pos < p < ts.len(),
                target == p_level(ts, l as int, pos as int, diags_view(old(errors)@)),
                target == p_level_rest(ts, l as int, expr@, p as int, diags_view(errors@)),
            decreases ts.len() - p,
        {
            let operator = self.peek(p).copy();
            let right = if l == 5 {
                self.unary(p + 1, errors)
            } else {
                self.binary(l + 1, p + 1, errors)
            };
            match right {
                Err(a) => return Err(a),
                Ok((r, p2)) => {
                    expr = if l <= 1 {
                        Expr::Logical { left: Box::new(expr), operator, right: Box::new(r) }
                    } else {
                        Expr::Binary { left: Box::new(expr), operator, right: Box::new(r) }
                    };
                    p = p2;
                },
            }
        }
        Ok((expr, p))
    }

    fn unary(&self, pos: usize, errors: &mut Vec<Diagnostic>) -> (r: Result<(Expr, usize), ParseAbort>)
        requires
            pos < self.ts().len(),
        ensures
            expr_outcome(r, diags_view(final(errors)@), p_unary(self.ts(), pos as int, diags_view(old(errors)@))),
            r matches Ok(x) ==> pos < x.1 < self.ts().len(),
        decreases self.ts().len() - pos, 6int,
    {
        proof {
            use_type_invariant(self);
        }
        if self.check(pos, TokenType::BANG) || self.check(pos, TokenType::MINUS) {
            let operator = self.peek(pos).copy();
            match self.unary(pos + 1, errors) {
                Err(a) => Err(a),
                Ok((right, p)) => Ok((Expr::Unary { operator, right: Box::new(right) }, p)),
            }
        } else {
            self.primary(pos, errors)
        }
    }

    fn primary(&self, pos: usize, errors: &mut Vec<Diagnostic>) -> (r: Result<(Expr, usize), ParseAbort>)
        requires
            pos < self.ts().len(),
        ensures
            expr_outcome(r, diags_view(final(errors)@), p_primary(self.ts(), pos as int, diags_view(old(errors)@))),
            r matches Ok(x) ==> pos < x.1 < self.ts().len(),
        decreases self.ts().len() - pos, 5int,
    {
        proof {
            use_type_invariant(self);
        }
        if self.check(pos, TokenType::STRING) {
            let t = self.peek(pos).copy();
            Ok((Expr::Literal { value: Object::String(t.literal) }, pos + 1))
        } else if self.check(pos, TokenType::NUMBER) {
            match parse_literal(self.peek(pos).lexeme.as_slice()) {
                Some(n) => Ok((Expr::Literal { value: Object::Number(n) }, pos + 1)),
                None => {
                    self.error(pos, errors, "Number literal out of range.");
                    Err(ParseAbort)
                },
            }
        } else if self.check(pos, TokenType::TRUE) {
            Ok((Expr::Literal { value: Object::Boolean(true) }, pos + 1))
        } else if self.check(pos, TokenType::FALSE) {
            Ok((Expr::Literal { value: Object::Boolean(false) }, pos + 1))
        } else if self.check(pos, TokenType::NIL) {
            Ok((Expr::Literal { value: Object::Nil }, pos + 1))
        } else if self.check(pos, TokenType::IDENTIFIER) {
            let t = self.peek(pos).copy();
            Ok((Expr::Variable { identifier: t.lexeme }, pos + 1))
        } else if self.check(pos, TokenType::LEFT_PAREN) {
            match self.expression(pos + 1, errors) {
                Err(a) => Err(a),
                Ok((e, p)) => {
                    let p2 = self.consume(p, errors, TokenType::RIGHT_PAREN, "Expect ')' after expression.");
                    Ok((Expr::Grouping { expression: Box::new(e) }, p2))
                },
            }
        } else {
            self.error(pos, errors, "Expect expression.");
            Err(ParseAbort)
        }
    }

    fn declaration(&self, pos: usize, errors: &mut Vec<Diagnostic>) -> (r: Result<(Declaration, usize), ParseAbort>)
        requires
            pos < self.ts().len(),
        ensures
            decl_outcome(r, diags_view(final(errors)@), p_declaration(self.ts(), pos as int, diags_view(old(errors)@))),
            r matches Ok(x) ==> pos < x.1 < self.ts().len(),
        decreases self.ts().len() - pos, 40int,
    {
        proof {
            use_type_invariant(self);
        }
        if self.check(pos, TokenType::VAR) {
            return self.vardecl(pos + 1, errors);
        }
        match self.statement(pos, errors) {
            Err(a) => Err(a),
            Ok((s, p)) => Ok((Declaration::Statement(s), p)),
        }
    }

    /// The rest of a variable declaration, after `var`.
    fn vardecl(&self, pos: usize, errors: &mut Vec<Diagnostic>) -> (r: Result<(Declaration, usize), ParseAbort>)
        requires
            pos < self.ts().len(),
        ensures
            decl_outcome(r, diags_view(final(errors)@), p_var_decl(self.ts(), pos as int, diags_view(old(errors)@))),
            r matches Ok(x) ==> pos < x.1 < self.ts().len(),
        decreases self.ts().len() - pos, 39int,
    {
        proof {
            use_type_invariant(self);
        }
        if !self.check(pos, TokenType::IDENTIFIER) {
            self.error(pos, errors, "Expect variable name.");
            return Err(ParseAbort);
        }
        let name = self.peek(pos).copy().lexeme;
        if self.check(pos + 1, TokenType::EQUAL) {
            match self.expression(pos + 2, errors) {
                Err(a) => Err(a),
                Ok((initializer, p)) => {
                    let p2 = self.consume(p, errors, TokenType::SEMICOLON, "Expect ';' after variable declaration.");
                    Ok((Declaration::VarDecl { name, initializer }, p2))
                },
            }
        } else {
            let p2 = self.consume(pos + 1, errors, TokenType::SEMICOLON, "Expect ';' after variable declaration.");
            Ok((Declaration::VarDecl { name, initializer: Expr::Literal { value: Object::Nil } }, p2))
        }
    }

    /// An expression followed by `;`.
    fn terminated(&self, pos: usize, errors: &mut Vec<Diagnostic>, message: &str) -> (r: Result<(Expr, usize), ParseAbort>)
        requires
            pos < self.ts().len(),
        ensures
            expr_outcome(r, diags_view(final(errors)@), p_terminated(self.ts(), pos as int, diags_view(old(errors)@), text(message))),
            r matches Ok(x) ==> pos < x.1 < self.ts().len(),
        decreases self.ts().len() - pos, 21int,
    {
        proof {
            use_type_invariant(self);
        }
        match self.expression(pos, errors) {
            Err(a) => Err(a),
            Ok((e, p)) => {
                let p2 = self.consume(p, errors, TokenType::SEMICOLON, message);
                Ok((e, p2))
            },
        }
    }

    fn statement(&self, pos: usize, errors: &mut Vec<Diagnostic>) -> (r: Result<(Statement, usize), ParseAbort>)
        requires
            pos < self.ts().len(),
        ensures
            stmt_outcome(r, diags_view(final(errors)@), p_statement(self.ts(), pos as int, diags_view(old(errors)@))),
            r matches Ok(x) ==> pos < x.1 < self.ts().len(),
        decreases self.ts().len() - pos, 38int,
    {
        proof {
            use_type_invariant(self);
        }
        if self.check(pos, TokenType::PRINT) {
            return match self.terminated(pos + 1, errors, "Expect ';' after value.") {
                Err(a) => Err(a),
                Ok((e, p)) => Ok((Statement::PrintStmt(e), p)),
            };
        }
        if self.check(pos, TokenType::LEFT_BRACE) {
            return match self.block(pos + 1, errors) {
                Err(a) => Err(a),
                Ok((decls, p)) => {
                    proof {
                        lemma_block_model(decls);
                    }
                    Ok((Statement::Block(decls), p))
                },
            };
        }
        if self.check(pos, TokenType::IF) {
            return self.if_(pos + 1, errors);
        }
        if self.check(pos, TokenType::WHILE) {
            return self.while_(pos + 1, errors);
        }
        if self.check(pos, TokenType::FOR) {
            return self.for_(pos + 1, errors);
        }
        match self.terminated(pos, errors, "Expect ';' after expression.") {
            Err(a) => Err(a),
            Ok((e, p)) => Ok((Statement::ExprStmt(e), p)),
        }
    }

    /// The declarations of a block up to its closing brace, after `{`.
    fn block(&self, pos: usize, errors: &mut Vec<Diagnostic>) -> (r: Result<(Vec<Declaration>, usize), ParseAbort>)
        requires
            pos < self.ts().len(),
        ensures
            decls_outcome(r, diags_view(final(errors)@), p_block(self.ts(), pos as int, diags_view(old(errors)@))),
            r matches Ok(x) ==> pos <= x.1 < self.ts().len(),
        decreases self.ts().len() - pos, 42int,
    {
        proof {
            use_type_invariant(self);
        }
        let ghost ts = self.ts();
        let ghost target = p_block_rest(ts, pos as int, diags_view(errors@), Seq::empty());
        let mut decls: Vec<Declaration> = Vec::new();
        let mut p = pos;
        assert(decls_model(decls@) =~= Seq::<DeclM>::empty());
        while !self.is_at_end(p) && !self.check(p, TokenType::RIGHT_BRACE)
            invariant
                ts == self.ts(),
                tokens_ok(ts),
                pos <= p < ts.len(),
                target == p_block_rest(ts, pos as int, diags_view(old(errors)@), Seq::empty()),
                target == p_block_rest(ts, p as int, diags_view(errors@), decls_model(decls@)),
            decreases ts.len() - p,
        {
            match self.declaration(p, errors) {
                Err(a) => return Err(a),
                Ok((d, p2)) => {
                    let ghost before = decls@;
                    decls.push(d);
                    assert(decls_model(decls@) =~= decls_model(before).push(d@));
                    p = p2;
                },
            }
        }
        let p2 = self.consume(p, errors, TokenType::RIGHT_BRACE, "Expect '}' after block.");
        Ok((decls, p2))
    }

    /// The rest of an `if` statement, after `if`.
    fn if_(&self, pos: usize, errors: &mut Vec<Diagnostic>) -> (r: Result<(Statement, usize), ParseAbort>)
        requires
            pos < self.ts().len(),
        ensures
            stmt_outcome(r, diags_view(final(errors)@), p_if(self.ts(), pos as int, diags_view(old(errors)@))),
            r matches Ok(x) ==> pos < x.1 < self.ts().len(),
        decreases self.ts().len() - pos, 44int,
    {
        proof {
            use_type_invariant(self);
        }
        let p1 = self.consume(pos, errors, TokenType::LEFT_PAREN, "Expect '(' after 'if'.");
        let (condition, p2) = match self.expression(p1, errors) {
            Err(a) => return Err(a),
            Ok(x) => x,
        };
        let p3 = self.consume(p2, errors, TokenType::RIGHT_PAREN, "Expect ')' after if condition.");
        let (then_branch, p4) = match self.statement(p3, errors) {
            Err(a) => return Err(a),
            Ok(x) => x,
        };
        if self.check(p4, TokenType::ELSE) {
            match self.statement(p4 + 1, errors) {
                Err(a) => Err(a),
                Ok((else_branch, p5)) => Ok(
                    (
                        Statement::IfStmt(
                            If {
                                condition: Box::new(condition),
                                then_branch: Box::new(then_branch),
                                else_branch: Some(Box::new(else_branch)),
                            },
                        ),
                        p5,
                    ),
                ),
            }
        } else {
            Ok(
                (
                    Statement::IfStmt(
                        If { condition: Box::new(condition), then_branch: Box::new(then_branch), else_branch: None },
                    ),
                    p4,
                ),
            )
        }
    }

    /// The rest of a `while` statement, after `while`.
    fn while_(&self, pos: usize, errors: &mut Vec<Diagnostic>) -> (r: Result<(Statement, usize), ParseAbort>)
        requires
            pos < self.ts().len(),
        ensures
            stmt_outcome(r, diags_view(final(errors)@), p_while(self.ts(), pos as int, diags_view(old(errors)@))),
            r matches Ok(x) ==> pos < x.1 < self.ts().len(),
        decreases self.ts().len() - pos, 44int,
    {
        proof {
            use_type_invariant(self);
        }
        let p1 = self.consume(pos, errors, TokenType::LEFT_PAREN, "Expect '(' after 'while'.");
        let (condition, p2) = match self.expression(p1, errors) {
            Err(a) => return Err(a),
            Ok(x) => x,
        };
        let p3 = self.consume(p2, errors, TokenType::RIGHT_PAREN, "Expect ')' after while condition.");
        match self.statement(p3, errors) {
            Err(a) => Err(a),
            Ok((block, p4)) => Ok(
                (Statement::WhileStmt(While { condition: Box::new(condition), block: Box::new(block) }), p4),
            ),
        }
    }

    /// The clauses of a `for` statement, from its `(` to its `)`.
    #[verifier::rlimit(60)]
    fn for_clauses(&self, pos: usize, errors: &mut Vec<Diagnostic>) -> (r: Result<(Option<Declaration>, Expr, Option<Expr>, usize), ParseAbort>)
        requires
            pos < self.ts().len(),
        ensures
            match p_for_clauses(self.ts(), pos as int, diags_view(old(errors)@)) {
                Ok(q) => r matches Ok(x) && x.3 == q.pos && diags_view(final(errors)@) == q.diags
                    && q.value.1 == x.1@
                    && q.value.0 == match x.0 { Some(d) => Some(d@), None => None::<DeclM> }
                    && q.value.2 == match x.2 { Some(e) => Some(e@), None => None::<ExprM> },
                Err(e) => r is Err && diags_view(final(errors)@) == e,
            },
            r matches Ok(x) ==> pos < x.3 < self.ts().len(),
        decreases self.ts().len() - pos, 46int,
    {
        proof {
            use_type_invariant(self);
        }
        let p1 = self.consume(pos, errors, TokenType::LEFT_PAREN, "Expect '(' after 'for'.");
        let (initializer, p2) = if self.check(p1, TokenType::SEMICOLON) {
            (None, p1 + 1)
        } else {
            match self.declaration(p1, errors) {
                Err(a) => return Err(a),
                Ok((d, p)) => (Some(d), p),
            }
        };
        let (condition, p3) = if self.check(p2, TokenType::SEMICOLON) {
            (Expr::Literal { value: Object::Boolean(true) }, p2)
        } else {
            match self.expression(p2, errors) {
                Err(a) => return Err(a),
                Ok(x) => x,
            }
        };
        let p4 = self.consume(p3, errors, TokenType::SEMICOLON, "Expect ';' after loop condition.");
        let (increment, p5) = if self.check(p4, TokenType::RIGHT_PAREN) {
            (None, p4)
        } else {
            match self.expression(p4, errors) {
                Err(a) => return Err(a),
                Ok((e, p)) => (Some(e), p),
            }
        };
        let p6 = self.consume(p5, errors, TokenType::RIGHT_PAREN, "Expect ')' after for clauses.");
        Ok((initializer, condition, increment, p6))
    }

    /// The rest of a `for` statement, after `for`, as the `while` loop it
    /// stands for.
    fn for_(&self, pos: usize, errors: &mut Vec<Diagnostic>) -> (r: Result<(Statement, usize), ParseAbort>)
        requires
            pos < self.ts().len(),
        ensures
            stmt_outcome(r, diags_view(final(errors)@), p_for(self.ts(), pos as int, diags_view(old(errors)@))),
            r matches Ok(x) ==> pos < x.1 < self.ts().len(),
        decreases self.ts().len() - pos, 47int,
    {
        proof {
            use_type_invariant(self);
        }
        let (initializer, condition, increment, p6) = match self.for_clauses(pos, errors) {
            Err(a) => return Err(a),
            Ok(x) => x,
        };
        let (body, p7) = match self.statement(p6, errors) {
            Err(a) => return Err(a),
            Ok(x) => x,
        };
        Ok((desugar_for_loop(initializer, condition, increment, body), p7))
    }
    /// Parses the whole token sequence.
    pub fn parse(&self) -> (r: ParseOutput)
        ensures
            match parse_program(self.ts()) {
                Ok(q) => r.declarations matches Ok(v) && decls_model(v@) == q.value && diags_view(r.errors@) == q.diags,
                Err(e) => r.declarations is Err && diags_view(r.errors@) == e,
            },
    {
        proof {
            use_type_invariant(self);
        }
        let ghost ts = self.ts();
        let mut errors: Vec<Diagnostic> = Vec::new();
        let mut decls: Vec<Declaration> = Vec::new();
        let mut p: usize = 0;
        assert(decls_model(decls@) =~= Seq::<DeclM>::empty());
        assert(diags_view(errors@) =~= Seq::<DiagView>::empty());
        while !self.is_at_end(p)
            invariant
                ts == self.ts(),
                tokens_ok(ts),
                0 <= p < ts.len(),
                parse_program(ts) == p_program(ts, p as int, diags_view(errors@), decls_model(decls@)),
            decreases ts.len() - p,
        {
            match self.declaration(p, &mut errors) {
                Err(a) => return ParseOutput { declarations: Err(a), errors },
                Ok((d, p2)) => {
                    let ghost before = decls@;
                    decls.push(d);
                    assert(decls_model(decls@) =~= decls_model(before).push(d@));
                    p = p2;
                },
            }
        }
        ParseOutput { declarations: Ok(decls), errors }
    }
}

} // verus!

verus! {

/// A token without its position.
pub open spec fn unlined(t: TokenView) -> TokenView {
    TokenView { kind: t.kind, lexeme: t.lexeme, literal: t.literal, line: 0 }
}

pub open spec fn unlined_tokens(ts: Seq<TokenView>) -> Seq<TokenView> {
    ts.map_values(|t: TokenView| unlined(t))
}

/// An expression with the positions of its operators forgotten.
pub open spec fn unlined_expr(e: ExprM) -> ExprM
    decreases e,
{
    match e {
        ExprM::Binary(l, op, r) => ExprM::Binary(Box::new(unlined_expr(*l)), unlined(op), Box::new(unlined_expr(*r))),
        ExprM::Grouping(x) => ExprM::Grouping(Box::new(unlined_expr(*x))),
        ExprM::Literal(v) => ExprM::Literal(v),
        ExprM::Unary(op, r) => ExprM::Unary(unlined(op), Box::new(unlined_expr(*r))),
        ExprM::Variable(n) => ExprM::Variable(n),
        ExprM::Assign(n, v) => ExprM::Assign(n, Box::new(unlined_expr(*v))),
        ExprM::Logical(l, op, r) => ExprM::Logical(Box::new(unlined_expr(*l)), unlined(op), Box::new(unlined_expr(*r))),
    }
}

/// Two parses agree but for positions: both fail, or both succeed at the
/// same place with the same tree.
pub open spec fn same_parse(a: Result<Parsed<ExprM>, Seq<DiagView>>, b: Result<Parsed<ExprM>, Seq<DiagView>>) -> bool {
    match (a, b) {
        (Ok(x), Ok(y)) => x.pos == y.pos && unlined_expr(x.value) == unlined_expr(y.value),
        (Err(_), Err(_)) => true,
        _ => false,
    }
}

proof fn lemma_token_at(ts1: Seq<TokenView>, ts2: Seq<TokenView>, p: int)
    requires
        unlined_tokens(ts1) == unlined_tokens(ts2),
    ensures
        ts1.len() == ts2.len(),
        0 <= p < ts1.len() ==> ts1[p].kind == ts2[p].kind && ts1[p].lexeme == ts2[p].lexeme && ts1[p].literal
            == ts2[p].literal && unlined(ts1[p]) == unlined(ts2[p]),
        tokens_ok(ts1) == tokens_ok(ts2),
{
    assert(unlined_tokens(ts1).len() == ts1.len());
    assert(unlined_tokens(ts2).len() == ts2.len());
    assert(unlined_tokens(ts1).len() == unlined_tokens(ts2).len());
    if 0 <= p < ts1.len() {
        assert(unlined_tokens(ts1)[p] == unlined(ts1[p]));
        assert(unlined_tokens(ts2)[p] == unlined(ts2[p]));
        assert(unlined(ts1[p]) == unlined(ts2[p]));
    }
    if ts1.len() > 0 {
        assert(unlined_tokens(ts1)[ts1.len() - 1] == unlined(ts1[ts1.len() - 1]));
        assert(unlined_tokens(ts2)[ts2.len() - 1] == unlined(ts2[ts2.len() - 1]));
    }
}

proof fn lemma_expression_lines(ts1: Seq<TokenView>, ts2: Seq<TokenView>, p: int, d1: Seq<DiagView>, d2: Seq<DiagView>)
    requires
        unlined_tokens(ts1) == unlined_tokens(ts2),
    ensures
        same_parse(p_expression(ts1, p, d1), p_expression(ts2, p, d2)),
    decreases ts1.len() - p, 20int,
{
    lemma_token_at(ts1, ts2, p);
    if valid(ts1, p) {
        lemma_assignment_lines(ts1, ts2, p, d1, d2);
    }
}

proof fn lemma_assignment_lines(ts1: Seq<TokenView>, ts2: Seq<TokenView>, p: int, d1: Seq<DiagView>, d2: Seq<DiagView>)
    requires
        unlined_tokens(ts1) == unlined_tokens(ts2),
    ensures
        same_parse(p_assignment(ts1, p, d1), p_assignment(ts2, p, d2)),
    decreases ts1.len() - p, 19int,
{
    lemma_token_at(ts1, ts2, p);
    if valid(ts1, p) {
        lemma_level_lines(ts1, ts2, 0, p, d1, d2);
        match (p_level(ts1, 0, p, d1), p_level(ts2, 0, p, d2)) {
            (Ok(r1), Ok(r2)) => {
                lemma_token_at(ts1, ts2, r1.pos);
                if p < r1.pos < ts1.len() && check(ts1, r1.pos, TokenType::EQUAL) {
                    lemma_assignment_lines(ts1, ts2, r1.pos + 1, r1.diags, r2.diags);
                }
            },
            _ => {},
        }
    }
}

proof fn lemma_level_lines(ts1: Seq<TokenView>, ts2: Seq<TokenView>, l: int, p: int, d1: Seq<DiagView>, d2: Seq<DiagView>)
    requires
        unlined_tokens(ts1) == unlined_tokens(ts2),
    ensures
        same_parse(p_level(ts1, l, p, d1), p_level(ts2, l, p, d2)),
    decreases ts1.len() - p, 18 - 2 * l,
{
    lemma_token_at(ts1, ts2, p);
    if valid(ts1, p) && 0 <= l <= 5 {
        if l == 5 {
            lemma_unary_lines(ts1, ts2, p, d1, d2);
        } else {
            lemma_level_lines(ts1, ts2, l + 1, p, d1, d2);
        }
        let f1 = if l == 5 { p_unary(ts1, p, d1) } else { p_level(ts1, l + 1, p, d1) };
        let f2 = if l == 5 { p_unary(ts2, p, d2) } else { p_level(ts2, l + 1, p, d2) };
        match (f1, f2) {
            (Ok(r1), Ok(r2)) => {
                if p < r1.pos < ts1.len() {
                    lemma_level_rest_lines(ts1, ts2, l, r1.value, r2.value, r1.pos, r1.diags, r2.diags);
                }
            },
            _ => {},
        }
    }
}

proof fn lemma_level_rest_lines(
    ts1: Seq<TokenView>,
    ts2: Seq<TokenView>,
    l: int,
    left1: ExprM,
    left2: ExprM,
    p: int,
    d1: Seq<DiagView>,
    d2: Seq<DiagView>,
)
    requires
        unlined_tokens(ts1) == unlined_tokens(ts2),
        unlined_expr(left1) == unlined_expr(left2),
    ensures
        same_parse(p_level_rest(ts1, l, left1, p, d1), p_level_rest(ts2, l, left2, p, d2)),
    decreases ts1.len() - p, 17 - 2 * l,
{
    lemma_token_at(ts1, ts2, p);
    if valid(ts1, p) && 0 <= l <= 5 && !at_end(ts1, p) && level_matches(l, ts1[p].kind) {
        if l == 5 {
            lemma_unary_lines(ts1, ts2, p + 1, d1, d2);
        } else {
            lemma_level_lines(ts1, ts2, l + 1, p + 1, d1, d2);
        }
        let f1 = if l == 5 { p_unary(ts1, p + 1, d1) } else { p_level(ts1, l + 1, p + 1, d1) };
        let f2 = if l == 5 { p_unary(ts2, p + 1, d2) } else { p_level(ts2, l + 1, p + 1, d2) };
        match (f1, f2) {
            (Ok(r1), Ok(r2)) => {
                if p + 1 < r1.pos < ts1.len() {
                    let n1 = level_node(l, left1, ts1[p], r1.value);
                    let n2 = level_node(l, left2, ts2[p], r2.value);
                    assert(unlined_expr(n1) == unlined_expr(n2));
                    lemma_level_rest_lines(ts1, ts2, l, n1, n2, r1.pos, r1.diags, r2.diags);
                }
            },
            _ => {},
        }
    }
}

proof fn lemma_unary_lines(ts1: Seq<TokenView>, ts2: Seq<TokenView>, p: int, d1: Seq<DiagView>, d2: Seq<DiagView>)
    requires
        unlined_tokens(ts1) == unlined_tokens(ts2),
    ensures
        same_parse(p_unary(ts1, p, d1), p_unary(ts2, p, d2)),
    decreases ts1.len() - p, 6int,
{
    lemma_token_at(ts1, ts2, p);
    if valid(ts1, p) {
        if check(ts1, p, TokenType::BANG) || check(ts1, p, TokenType::MINUS) {
            lemma_unary_lines(ts1, ts2, p + 1, d1, d2);
        } else {
            lemma_primary_lines(ts1, ts2, p, d1, d2);
        }
    }
}

proof fn lemma_primary_lines(ts1: Seq<TokenView>, ts2: Seq<TokenView>, p: int, d1: Seq<DiagView>, d2: Seq<DiagView>)
    requires
        unlined_tokens(ts1) == unlined_tokens(ts2),
    ensures
        same_parse(p_primary(ts1, p, d1), p_primary(ts2, p, d2)),
    decreases ts1.len() - p, 5int,
{
    lemma_token_at(ts1, ts2, p);
    if valid(ts1, p) && check(ts1, p, TokenType::LEFT_PAREN) {
        lemma_expression_lines(ts1, ts2, p + 1, d1, d2);
        match (p_expression(ts1, p + 1, d1), p_expression(ts2, p + 1, d2)) {
            (Ok(r1), Ok(r2)) => {
                lemma_token_at(ts1, ts2, r1.pos);
            },
            _ => {},
        }
    }
}

/// The printed form of an expression does not depend on where its
/// operators stand.
pub proof fn lemma_text_ignores_lines(e: ExprM)
    ensures
        expr_text(unlined_expr(e)) == expr_text(e),
    decreases e,
{
    match e {
        ExprM::Binary(l, _, r) => {
            lemma_text_ignores_lines(*l);
            lemma_text_ignores_lines(*r);
        },
        ExprM::Grouping(x) => lemma_text_ignores_lines(*x),
        ExprM::Unary(_, r) => lemma_text_ignores_lines(*r),
        ExprM::Assign(_, v) => lemma_text_ignores_lines(*v),
        ExprM::Logical(l, _, r) => {
            lemma_text_ignores_lines(*l);
            lemma_text_ignores_lines(*r);
        },
        _ => {},
    }
}

/// Parsing an expression and printing it again gives a text that depends
/// only on the kinds, lexemes and literals of the tokens, not on the lines
/// they stand on: two layouts of the same tokens parse alike (to the same
/// place, or both fail) and print the same.
pub proof fn lemma_reprint_ignores_layout(ts1: Seq<TokenView>, ts2: Seq<TokenView>)
    requires
        unlined_tokens(ts1) == unlined_tokens(ts2),
    ensures
        p_expression(ts1, 0, Seq::empty()) is Ok <==> p_expression(ts2, 0, Seq::empty()) is Ok,
        p_expression(ts1, 0, Seq::empty()) is Ok ==> ({
            let a = p_expression(ts1, 0, Seq::empty())->Ok_0;
            let b = p_expression(ts2, 0, Seq::empty())->Ok_0;
            a.pos == b.pos && expr_text(a.value) == expr_text(b.value)
        }),
{
    lemma_expression_lines(ts1, ts2, 0, Seq::empty(), Seq::empty());
    match (p_expression(ts1, 0, Seq::empty()), p_expression(ts2, 0, Seq::empty())) {
        (Ok(a), Ok(b)) => {
            lemma_text_ignores_lines(a.value);
            lemma_text_ignores_lines(b.value);
        },
        _ => {},
    }
}

} // verus!
