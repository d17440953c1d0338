use vstd::prelude::*;
use crate::number::{number_display, number_text, Number};
use crate::text::{append_bytes, push_text, text, text_bytes};
use crate::token::{Token, TokenView};

verus! {

broadcast use vstd::std_specs::vec::group_vec_axioms;

/// A runtime value.
pub enum Object {
    Number(Number),
    String(Vec<u8>),
    Boolean(bool),
    Nil,
}

/// An expression node; each node owns its children.
#[allow(inconsistent_fields)]
pub enum Expr {
    Binary { left: Box<Expr>, operator: Token, right: Box<Expr> },
    Grouping { expression: Box<Expr> },
    Literal { value: Object },
    Unary { operator: Token, right: Box<Expr> },
    Variable { identifier: Vec<u8> },
    Assign { identifier: Vec<u8>, value: Box<Expr> },
    Logical { left: Box<Expr>, operator: Token, right: Box<Expr> },
}

pub struct If {
    pub condition: Box<Expr>,
    pub then_branch: Box<Statement>,
    pub else_branch: Option<Box<Statement>>,
}

pub struct While {
    pub condition: Box<Expr>,
    pub block: Box<Statement>,
}

pub enum Statement {
    ExprStmt(Expr),
    PrintStmt(Expr),
    IfStmt(If),
    WhileStmt(While),
    Block(Vec<Declaration>),
}

/// A program unit: a variable declaration (with `nil` as the initializer
/// when none is written) or a statement.
pub enum Declaration {
    VarDecl { name: Vec<u8>, initializer: Expr },
    Statement(Statement),
}

/// A runtime value, as a mathematical value.
pub enum Val {
    Number(Number),
    Str(Seq<u8>),
    Bool(bool),
    Nil,
}

/// The model of an expression.
pub enum ExprM {
    Binary(Box<ExprM>, TokenView, Box<ExprM>),
    Grouping(Box<ExprM>),
    Literal(Val),
    Unary(TokenView, Box<ExprM>),
    Variable(Seq<u8>),
    Assign(Seq<u8>, Box<ExprM>),
    Logical(Box<ExprM>, TokenView, Box<ExprM>),
}

/// The model of a statement.
pub enum StmtM {
    Expr(ExprM),
    Print(ExprM),
    If(ExprM, Box<StmtM>, Option<Box<StmtM>>),
    While(ExprM, Box<StmtM>),
    Block(Seq<DeclM>),
}

/// The model of a declaration.
pub enum DeclM {
    Var(Seq<u8>, ExprM),
    Stmt(StmtM),
}

pub open spec fn object_model(o: Object) -> Val {
    match o {
        Object::Number(n) => Val::Number(n),
        Object::String(s) => Val::Str(s@),
        Object::Boolean(b) => Val::Bool(b),
        Object::Nil => Val::Nil,
    }
}

pub open spec fn expr_model(e: Expr) -> ExprM
    decreases e,
{
    match e {
        Expr::Binary { left, operator, right } => ExprM::Binary(
            Box::new(expr_model(*left)),
            operator@,
            Box::new(expr_model(*right)),
        ),
        Expr::Grouping { expression } => ExprM::Grouping(Box::new(expr_model(*expression))),
        Expr::Literal { value } => ExprM::Literal(object_model(value)),
        Expr::Unary { operator, right } => ExprM::Unary(operator@, Box::new(expr_model(*right))),
        Expr::Variable { identifier } => ExprM::Variable(identifier@),
        Expr::Assign { identifier, value } => ExprM::Assign(identifier@, Box::new(expr_model(*value))),
        Expr::Logical { left, operator, right } => ExprM::Logical(
            Box::new(expr_model(*left)),
            operator@,
            Box::new(expr_model(*right)),
        ),
    }
}

pub open spec fn stmt_model(s: Statement) -> StmtM
    decreases s,
{
    match s {
        Statement::ExprStmt(e) => StmtM::Expr(expr_model(e)),
        Statement::PrintStmt(e) => StmtM::Print(expr_model(e)),
        Statement::IfStmt(i) => StmtM::If(
            expr_model(*i.condition),
            Box::new(stmt_model(*i.then_branch)),
            match i.else_branch {
                Some(b) => Some(Box::new(stmt_model(*b))),
                None => None,
            },
        ),
        Statement::WhileStmt(w) => StmtM::While(expr_model(*w.condition), Box::new(stmt_model(*w.block))),
        Statement::Block(v) => StmtM::Block(
            Seq::new(
                v@.len(),
                |i: int|
                    if 0 <= i < v.len() {
                        decl_model(v[i])
                    } else {
                        DeclM::Stmt(StmtM::Block(Seq::empty()))
                    },
            ),
        ),
    }
}

pub open spec fn decl_model(d: Declaration) -> DeclM
    decreases d,
{
    match d {
        Declaration::VarDecl { name, initializer } => DeclM::Var(name@, expr_model(initializer)),
        Declaration::Statement(s) => DeclM::Stmt(stmt_model(s)),
    }
}

impl View for Object {
    type V = Val;

    open spec fn view(&self) -> Val {
        object_model(*self)
    }
}

impl View for Expr {
    type V = ExprM;

    open spec fn view(&self) -> ExprM {
        expr_model(*self)
    }
}

impl View for Statement {
    type V = StmtM;

    open spec fn view(&self) -> StmtM {
        stmt_model(*self)
    }
}

impl View for Declaration {
    type V = DeclM;

    open spec fn view(&self) -> DeclM {
        decl_model(*self)
    }
}

pub open spec fn decls_model(v: Seq<Declaration>) -> Seq<DeclM> {
    Seq::new(v.len(), |i: int| decl_model(v[i]))
}

/// A value as an expression printer shows it: numbers in canonical form.
pub open spec fn val_text(v: Val) -> Seq<u8> {
    match v {
        Val::Number(n) => number_text(n),
        Val::Str(s) => s,
        Val::Bool(b) => if b {
            text("true")
        } else {
            text("false")
        },
        Val::Nil => text("nil"),
    }
}

/// A value as a running program prints it: integers without a fraction.
pub open spec fn val_display(v: Val) -> Seq<u8> {
    match v {
        Val::Number(n) => number_display(n),
        _ => val_text(v),
    }
}

/// The parenthesized prefix rendering of an expression.
pub open spec fn expr_text(e: ExprM) -> Seq<u8>
    decreases e,
{
    match e {
        ExprM::Binary(l, op, r) => text("(") + op.lexeme + text(" ") + expr_text(*l) + text(" ")
            + expr_text(*r) + text(")"),
        ExprM::Grouping(x) => text("(group ") + expr_text(*x) + text(")"),
        ExprM::Literal(v) => val_text(v),
        ExprM::Unary(op, r) => text("(") + op.lexeme + text(" ") + expr_text(*r) + text(")"),
        ExprM::Variable(n) => text("variable ") + n,
        ExprM::Assign(n, v) => text("variable \"") + n + text("\" = ") + expr_text(*v),
        ExprM::Logical(l, op, r) => text("(") + op.lexeme + text(" ") + expr_text(*l) + text(" ")
            + expr_text(*r) + text(")"),
    }
}

/// The rendering of a statement.
pub open spec fn stmt_text(s: StmtM) -> Seq<u8>
    decreases s,
{
    match s {
        StmtM::Expr(e) => expr_text(e) + text(";"),
        StmtM::Print(e) => text("print ") + expr_text(e) + text(";"),
        StmtM::If(c, t, e) => text("if (") + expr_text(c) + text(")\nthen ") + stmt_text(*t)
            + text("\n") + match e {
            Some(b) => text("else ") + stmt_text(*b) + text("\n"),
            None => Seq::empty(),
        },
        StmtM::While(c, b) => text("while (") + expr_text(c) + text(")\n") + stmt_text(*b) + text(
            "\n",
        ),
        StmtM::Block(ds) => block_text(ds, ds.len() as int),
    }
}

/// The rendering of the first `n` declarations of a block.
pub open spec fn block_text(ds: Seq<DeclM>, n: int) -> Seq<u8>
    decreases ds, n,
{
    if n <= 0 || n > ds.len() {
        Seq::empty()
    } else {
        block_text(ds, n - 1) + text(" { ") + decl_text(ds[n - 1]) + text(" }")
    }
}

/// The rendering of a declaration.
pub open spec fn decl_text(d: DeclM) -> Seq<u8>
    decreases d,
{
    match d {
        DeclM::Var(n, e) => text("(var (= variable ") + n + text(" ") + expr_text(e) + text("));"),
        DeclM::Stmt(s) => stmt_text(s),
    }
}

} // verus!

verus! {

impl Object {
    /// An independent copy of this value.
    pub fn copy(&self) -> (r: Object)
        ensures
            r@ == self@,
    {
        match self {
            Object::Number(n) => Object::Number(*n),
            Object::String(s) => {
                let mut c: Vec<u8> = Vec::new();
                append_bytes(&mut c, s.as_slice());
                Object::String(c)
            },
            Object::Boolean(b) => Object::Boolean(*b),
            Object::Nil => Object::Nil,
        }
    }

    /// The value as an expression printer shows it.
    pub fn to_text(&self) -> (r: Vec<u8>)
        ensures
            r@ == val_text(self@),
    {
        match self {
            Object::Number(n) => n.to_text(),
            Object::String(s) => {
                let mut c: Vec<u8> = Vec::new();
                append_bytes(&mut c, s.as_slice());
                c
            },
            Object::Boolean(b) => if *b {
                text_bytes("true")
            } else {
                text_bytes("false")
            },
            Object::Nil => text_bytes("nil"),
        }
    }

    /// The value as a running program prints it.
    pub fn to_display(&self) -> (r: Vec<u8>)
        ensures
            r@ == val_display(self@),
    {
        match self {
            Object::Number(n) => n.to_display(),
            _ => self.to_text(),
        }
    }
}

impl Expr {
    fn write_text(&self, out: &mut Vec<u8>)
        ensures
            final(out)@ == old(out)@ + expr_text(self@),
        decreases self,
    {
        let ghost start = out@;
        match self {
            Expr::Binary { left, operator, right } | Expr::Logical { left, operator, right } => {
                push_text(out, "(");
                append_bytes(out, operator.lexeme.as_slice());
                push_text(out, " ");
                left.write_text(out);
                push_text(out, " ");
                right.write_text(out);
                push_text(out, ")");
            },
            Expr::Grouping { expression } => {
                push_text(out, "(group ");
                expression.write_text(out);
                push_text(out, ")");
            },
            Expr::Literal { value } => {
                let t = value.to_text();
                append_bytes(out, t.as_slice());
            },
            Expr::Unary { operator, right } => {
                push_text(out, "(");
                append_bytes(out, operator.lexeme.as_slice());
                push_text(out, " ");
                right.write_text(out);
                push_text(out, ")");
            },
            Expr::Variable { identifier } => {
                push_text(out, "variable ");
                append_bytes(out, identifier.as_slice());
            },
            Expr::Assign { identifier, value } => {
                push_text(out, "variable \"");
                append_bytes(out, identifier.as_slice());
                push_text(out, "\" = ");
                value.write_text(out);
            },
        }
        assert(out@ =~= start + expr_text(self@));
    }

    /// The parenthesized prefix rendering of this expression.
    pub fn to_text(&self) -> (r: Vec<u8>)
        ensures
            r@ == expr_text(self@),
    {
        let mut out: Vec<u8> = Vec::new();
        self.write_text(&mut out);
        assert(out@ =~= expr_text(self@));
        out
    }
}

impl Statement {
    #[verifier::rlimit(40)]
    fn write_text(&self, out: &mut Vec<u8>)
        ensures
            final(out)@ == old(out)@ + stmt_text(self@),
        decreases self,
    {
        let ghost start = out@;
        match self {
            Statement::ExprStmt(e) => {
                e.write_text(out);
                push_text(out, ";");
            },
            Statement::PrintStmt(e) => {
                push_text(out, "print ");
                e.write_text(out);
                push_text(out, ";");
            },
            Statement::IfStmt(i) => {
                push_text(out, "if (");
                i.condition.write_text(out);
                push_text(out, ")\nthen ");
                i.then_branch.write_text(out);
                push_text(out, "\n");
                match &i.else_branch {
                    Some(b) => {
                        push_text(out, "else ");
                        b.write_text(out);
                        push_text(out, "\n");
                    },
                    None => {},
                }
            },
            Statement::WhileStmt(w) => {
                push_text(out, "while (");
                w.condition.write_text(out);
                push_text(out, ")\n");
                w.block.write_text(out);
                push_text(out, "\n");
            },
            Statement::Block(decls) => {
                assert(self@->Block_0 =~= decls_model(decls@));
                write_block(decls, out);
            },
        }
        assert(out@ =~= start + stmt_text(self@));
    }

    /// The rendering of this statement.
    pub fn to_text(&self) -> (r: Vec<u8>)
        ensures
            r@ == stmt_text(self@),
    {
        let mut out: Vec<u8> = Vec::new();
        self.write_text(&mut out);
        assert(out@ =~= stmt_text(self@));
        out
    }
}

fn write_block(decls: &Vec<Declaration>, out: &mut Vec<u8>)
    ensures
        final(out)@ == old(out)@ + block_text(decls_model(decls@), decls@.len() as int),
    decreases decls,
{
    let ghost start = out@;
    let ghost ds = decls_model(decls@);
    let mut i: usize = 0;
    while i < decls.len()
        invariant
            0 <= i <= decls@.len() == ds.len(),
            ds == decls_model(decls@),
            out@ == start + block_text(ds, i as int),
        decreases decls@.len() - i,
    {
        push_text(out, " { ");
        proof {
            assert(decreases_to!(*decls => decls[i as int]));
        }
        decls[i].write_text(out);
        push_text(out, " }");
        i += 1;
        assert(out@ =~= start + block_text(ds, i as int));
    }
}

impl Declaration {
    fn write_text(&self, out: &mut Vec<u8>)
        ensures
            final(out)@ == old(out)@ + decl_text(self@),
        decreases self,
    {
        let ghost start = out@;
        match self {
            Declaration::VarDecl { name, initializer } => {
                push_text(out, "(var (= variable ");
                append_bytes(out, name.as_slice());
                push_text(out, " ");
                initializer.write_text(out);
                push_text(out, "));");
            },
            Declaration::Statement(s) => {
                s.write_text(out);
            },
        }
        assert(out@ =~= start + decl_text(self@));
    }

    /// The rendering of this declaration.
    pub fn to_text(&self) -> (r: Vec<u8>)
        ensures
            r@ == decl_text(self@),
    {
        let mut out: Vec<u8> = Vec::new();
        self.write_text(&mut out);
        assert(out@ =~= decl_text(self@));
        out
    }
}

} // verus!

verus! {

pub proof fn lemma_block_model(v: Vec<Declaration>)
    ensures
        Statement::Block(v)@ == StmtM::Block(decls_model(v@)),
{
    assert(Statement::Block(v)@->Block_0 =~= decls_model(v@));
}

} // verus!

verus! {

/// Operators print fully parenthesized: a binary, logical or unary
/// expression prints as `(op ...)`, a grouping as `(group ...)`.
pub proof fn lemma_operators_parenthesized(e: ExprM)
    ensures
        (e is Binary || e is Logical || e is Unary) ==> exists|inner: Seq<u8>|
            expr_text(e) == text("(") + inner + text(")"),
        e is Grouping ==> exists|inner: Seq<u8>| expr_text(e) == text("(group ") + inner + text(")"),
{
    match e {
        ExprM::Binary(l, op, r) | ExprM::Logical(l, op, r) => {
            let inner = op.lexeme + text(" ") + expr_text(*l) + text(" ") + expr_text(*r);
            assert(expr_text(e) =~= text("(") + inner + text(")"));
        },
        ExprM::Unary(op, r) => {
            let inner = op.lexeme + text(" ") + expr_text(*r);
            assert(expr_text(e) =~= text("(") + inner + text(")"));
        },
        ExprM::Grouping(x) => {
            assert(expr_text(e) =~= text("(group ") + expr_text(*x) + text(")"));
        },
        _ => {},
    }
}

} // verus!
