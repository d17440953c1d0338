use vstd::prelude::*;
use crate::ast::{Declaration, DeclM, Expr, ExprM, Object, Statement, StmtM, Val, While, decls_model, lemma_block_model};
use crate::environment::{EnvM, Environment, empty_env, env_assign, env_define, env_enter, env_exit, env_lookup};
use crate::number::{Number, num_add, num_div, num_eq, num_lt, num_mul, num_neg, num_sub};
use crate::text::{append_bytes, bytes_equal, copy_bytes, text, text_bytes};
use crate::token::{TokenType, TokenView};

verus! {

/// An error met while running a program: its message, and the kind of the
/// operator or keyword it arose at.
pub struct RuntimeError {
    message: Vec<u8>,
    operator: TokenType,
}

/// A runtime error as a mathematical value.
pub struct RtErr {
    pub message: Seq<u8>,
    pub operator: TokenType,
}

impl View for RuntimeError {
    type V = RtErr;

    closed spec fn view(&self) -> RtErr {
        RtErr { message: self.message@, operator: self.operator }
    }
}

pub open spec fn undefined_variable(name: Seq<u8>) -> RtErr {
    RtErr { message: text("Undefined variable ") + name + text("."), operator: TokenType::VAR }
}

impl RuntimeError {
    pub fn new(message: Vec<u8>, operator: TokenType) -> (r: RuntimeError)
        ensures
            r@ == (RtErr { message: message@, operator }),
    {
        RuntimeError { message, operator }
    }

    /// The error for a name that no scope declares.
    pub fn undefined(name: &[u8]) -> (r: RuntimeError)
        ensures
            r@ == undefined_variable(name@),
    {
        let mut message = text_bytes("Undefined variable ");
        append_bytes(&mut message, name);
        let dot = text_bytes(".");
        append_bytes(&mut message, dot.as_slice());
        RuntimeError { message, operator: TokenType::VAR }
    }

    pub fn message(&self) -> (r: &Vec<u8>)
        ensures
            r@ == self@.message,
    {
        &self.message
    }

    pub fn operator(&self) -> (r: TokenType)
        ensures
            r == self@.operator,
    {
        self.operator
    }
}

/// Only `nil` and `false` are false.
pub open spec fn truthy(v: Val) -> bool {
    match v {
        Val::Nil => false,
        Val::Bool(b) => b,
        _ => true,
    }
}

pub open spec fn unary_op(k: TokenType, v: Val) -> Result<Val, Seq<u8>> {
    if k == TokenType::BANG {
        Ok(Val::Bool(!truthy(v)))
    } else if k == TokenType::MINUS {
        match v {
            Val::Number(n) => Ok(Val::Number(num_neg(n))),
            _ => Err(text("Operand must be a number.")),
        }
    } else {
        Err(text("Invalid unary operator."))
    }
}

/// The result of an arithmetic operation, or an error when it is out of range.
pub open spec fn arith(o: Option<Number>) -> Result<Val, Seq<u8>> {
    match o {
        Some(n) => Ok(Val::Number(n)),
        None => Err(text("Number out of range.")),
    }
}

pub open spec fn number_op(k: TokenType, x: Number, y: Number) -> Result<Val, Seq<u8>> {
    if k == TokenType::PLUS {
        arith(num_add(x, y))
    } else if k == TokenType::MINUS {
        arith(num_sub(x, y))
    } else if k == TokenType::STAR {
        arith(num_mul(x, y))
    } else if k == TokenType::SLASH {
        if y.numer() == 0 {
            Err(text("Division by zero."))
        } else {
            arith(num_div(x, y))
        }
    } else if k == TokenType::LESS {
        Ok(Val::Bool(num_lt(x, y)))
    } else if k == TokenType::LESS_EQUAL {
        Ok(Val::Bool(!num_lt(y, x)))
    } else if k == TokenType::GREATER {
        Ok(Val::Bool(num_lt(y, x)))
    } else if k == TokenType::GREATER_EQUAL {
        Ok(Val::Bool(!num_lt(x, y)))
    } else if k == TokenType::EQUAL_EQUAL {
        Ok(Val::Bool(num_eq(x, y)))
    } else if k == TokenType::BANG_EQUAL {
        Ok(Val::Bool(!num_eq(x, y)))
    } else {
        Err(text("Invalid binary operator for numbers."))
    }
}

pub open spec fn string_op(k: TokenType, x: Seq<u8>, y: Seq<u8>) -> Result<Val, Seq<u8>> {
    if k == TokenType::PLUS {
        Ok(Val::Str(x + y))
    } else if k == TokenType::EQUAL_EQUAL {
        Ok(Val::Bool(x == y))
    } else if k == TokenType::BANG_EQUAL {
        Ok(Val::Bool(x != y))
    } else {
        Err(text("Invalid binary operator for strings."))
    }
}

/// Equality of two values of another kind: by value for booleans and
/// `nil`, never equal across kinds.
pub open spec fn other_op(k: TokenType, a: Val, b: Val) -> Result<Val, Seq<u8>> {
    let same = match (a, b) {
        (Val::Bool(x), Val::Bool(y)) => x == y,
        (Val::Nil, Val::Nil) => true,
        _ => false,
    };
    if k == TokenType::EQUAL_EQUAL {
        Ok(Val::Bool(same))
    } else if k == TokenType::BANG_EQUAL {
        Ok(Val::Bool(!same))
    } else {
        Err(text("Invalid operands for binary operator."))
    }
}

pub open spec fn binary_op(k: TokenType, a: Val, b: Val) -> Result<Val, Seq<u8>> {
    match (a, b) {
        (Val::Number(x), Val::Number(y)) => number_op(k, x, y),
        (Val::Str(x), Val::Str(y)) => string_op(k, x, y),
        _ => other_op(k, a, b),
    }
}

/// The value of `e` and the variables after it, or the error it meets.
/// Operands are evaluated left to right; `and` and `or` evaluate their
/// right operand only when the left one does not decide.
pub open spec fn eval(env: EnvM, e: ExprM) -> Result<(Val, EnvM), RtErr>
    decreases e,
{
    match e {
        ExprM::Literal(v) => Ok((v, env)),
        ExprM::Grouping(x) => eval(env, *x),
        ExprM::Variable(n) => match env_lookup(env, n) {
            Some(v) => Ok((v, env)),
            None => Err(undefined_variable(n)),
        },
        ExprM::Assign(n, x) => match eval(env, *x) {
            Err(err) => Err(err),
            Ok((v, env1)) => match env_assign(env1, n, v) {
                Some(env2) => Ok((v, env2)),
                None => Err(undefined_variable(n)),
            },
        },
        ExprM::Unary(op, x) => match eval(env, *x) {
            Err(err) => Err(err),
            Ok((v, env1)) => match unary_op(op.kind, v) {
                Ok(r) => Ok((r, env1)),
                Err(m) => Err(RtErr { message: m, operator: op.kind }),
            },
        },
        ExprM::Binary(l, op, r) => match eval(env, *l) {
            Err(err) => Err(err),
            Ok((a, env1)) => match eval(env1, *r) {
                Err(err) => Err(err),
                Ok((b, env2)) => match binary_op(op.kind, a, b) {
                    Ok(v) => Ok((v, env2)),
                    Err(m) => Err(RtErr { message: m, operator: op.kind }),
                },
            },
        },
        ExprM::Logical(l, op, r) => match eval(env, *l) {
            Err(err) => Err(err),
            Ok((a, env1)) => if (op.kind == TokenType::OR && truthy(a)) || (op.kind == TokenType::AND
                && !truthy(a)) {
                Ok((a, env1))
            } else {
                eval(env1, *r)
            },
        },
    }
}

pub open spec fn limit_error() -> RtErr {
    RtErr { message: text("Loop iteration limit reached."), operator: TokenType::WHILE }
}

/// What running code produced: the values it output and the variables
/// after it, or the values it output before the error that stopped it.
pub open spec fn after(o: Seq<Val>, r: Result<(Seq<Val>, EnvM), (Seq<Val>, RtErr)>) -> Result<(Seq<Val>, EnvM), (Seq<Val>, RtErr)> {
    match r {
        Ok((o2, env)) => Ok((o + o2, env)),
        Err((o2, err)) => Err((o + o2, err)),
    }
}

/// Running a statement. An expression statement and a `print` output the
/// value of their expression; a block runs in a scope of its own; a loop
/// may run at most `fuel` iterations each time it starts.
pub open spec fn exec_stmt(env: EnvM, s: StmtM, fuel: nat) -> Result<(Seq<Val>, EnvM), (Seq<Val>, RtErr)>
    decreases s, 0nat,
{
    match s {
        StmtM::Expr(e) => match eval(env, e) {
            Ok((v, env1)) => Ok((seq![v], env1)),
            Err(err) => Err((Seq::empty(), err)),
        },
        StmtM::Print(e) => match eval(env, e) {
            Ok((v, env1)) => Ok((seq![v], env1)),
            Err(err) => Err((Seq::empty(), err)),
        },
        StmtM::If(c, t, e) => match eval(env, c) {
            Err(err) => Err((Seq::empty(), err)),
            Ok((v, env1)) => if truthy(v) {
                exec_stmt(env1, *t, fuel)
            } else {
                match e {
                    Some(b) => exec_stmt(env1, *b, fuel),
                    None => Ok((Seq::empty(), env1)),
                }
            },
        },
        StmtM::While(c, b) => exec_while(env, c, *b, fuel, fuel),
        StmtM::Block(ds) => match exec_decls(env_enter(env), ds, ds.len() as int, fuel) {
            Ok((o, env1)) => Ok((o, env_exit(env1))),
            Err(x) => Err(x),
        },
    }
}

/// A `while` loop with `left` iterations left.
pub open spec fn exec_while(env: EnvM, c: ExprM, b: StmtM, fuel: nat, left: nat) -> Result<(Seq<Val>, EnvM), (Seq<Val>, RtErr)>
    decreases b, left + 1,
{
    match eval(env, c) {
        Err(err) => Err((Seq::empty(), err)),
        Ok((v, env1)) => if !truthy(v) {
            Ok((Seq::empty(), env1))
        } else if left == 0 {
            Err((Seq::empty(), limit_error()))
        } else {
            match exec_stmt(env1, b, fuel) {
                Err(x) => Err(x),
                Ok((o, env2)) => after(o, exec_while(env2, c, b, fuel, (left - 1) as nat)),
            }
        },
    }
}

pub open spec fn exec_decl(env: EnvM, d: DeclM, fuel: nat) -> Result<(Seq<Val>, EnvM), (Seq<Val>, RtErr)>
    decreases d, 0nat,
{
    match d {
        DeclM::Var(n, init) => match eval(env, init) {
            Ok((v, env1)) => Ok((Seq::empty(), env_define(env1, n, v))),
            Err(err) => Err((Seq::empty(), err)),
        },
        DeclM::Stmt(s) => exec_stmt(env, s, fuel),
    }
}

/// Running the first `n` declarations of `ds` in order.
pub open spec fn exec_decls(env: EnvM, ds: Seq<DeclM>, n: int, fuel: nat) -> Result<(Seq<Val>, EnvM), (Seq<Val>, RtErr)>
    decreases ds, n,
{
    if n <= 0 || n > ds.len() {
        Ok((Seq::empty(), env))
    } else {
        match exec_decls(env, ds, n - 1, fuel) {
            Err(x) => Err(x),
            Ok((o, env1)) => after(o, exec_decl(env1, ds[n - 1], fuel)),
        }
    }
}

} // verus!

verus! {

pub open spec fn vals(v: Seq<Object>) -> Seq<Val> {
    v.map_values(|o: Object| o@)
}

pub open spec fn val_result(r: Result<Object, Vec<u8>>, s: Result<Val, Seq<u8>>) -> bool {
    match s {
        Ok(v) => r matches Ok(o) && o@ == v,
        Err(m) => r matches Err(x) && x@ == m,
    }
}

/// Running code took the outputs from `out0` to `out1` and the variables
/// to `env1`, as `s` says.
pub open spec fn ran(
    out0: Seq<Val>,
    out1: Seq<Val>,
    env1: EnvM,
    r: Result<(), RuntimeError>,
    s: Result<(Seq<Val>, EnvM), (Seq<Val>, RtErr)>,
) -> bool {
    match s {
        Ok((o, env)) => r is Ok && out1 == out0 + o && env1 == env,
        Err((o, err)) => r matches Err(x) && x@ == err && out1 == out0 + o,
    }
}

pub fn is_truthy(v: &Object) -> (r: bool)
    ensures
        r == truthy(v@),
{
    match v {
        Object::Nil => false,
        Object::Boolean(b) => *b,
        _ => true,
    }
}

fn unary(k: TokenType, v: Object) -> (r: Result<Object, Vec<u8>>)
    ensures
        val_result(r, unary_op(k, v@)),
{
    if k == TokenType::BANG {
        Ok(Object::Boolean(!is_truthy(&v)))
    } else if k == TokenType::MINUS {
        match v {
            Object::Number(n) => Ok(Object::Number(n.neg())),
            _ => Err(text_bytes("Operand must be a number.")),
        }
    } else {
        Err(text_bytes("Invalid unary operator."))
    }
}

fn arith_result(o: Option<Number>) -> (r: Result<Object, Vec<u8>>)
    ensures
        val_result(r, arith(o)),
{
    match o {
        Some(n) => Ok(Object::Number(n)),
        None => Err(text_bytes("Number out of range.")),
    }
}

fn number_binary(k: TokenType, x: Number, y: Number) -> (r: Result<Object, Vec<u8>>)
    ensures
        val_result(r, number_op(k, x, y)),
{
    if k == TokenType::PLUS {
        arith_result(x.add(&y))
    } else if k == TokenType::MINUS {
        arith_result(x.sub(&y))
    } else if k == TokenType::STAR {
        arith_result(x.mul(&y))
    } else if k == TokenType::SLASH {
        if y.is_zero() {
            Err(text_bytes("Division by zero."))
        } else {
            arith_result(x.div(&y))
        }
    } else if k == TokenType::LESS {
        Ok(Object::Boolean(x.lt(&y)))
    } else if k == TokenType::LESS_EQUAL {
        Ok(Object::Boolean(!y.lt(&x)))
    } else if k == TokenType::GREATER {
        Ok(Object::Boolean(y.lt(&x)))
    } else if k == TokenType::GREATER_EQUAL {
        Ok(Object::Boolean(!x.lt(&y)))
    } else if k == TokenType::EQUAL_EQUAL {
        Ok(Object::Boolean(x.same(&y)))
    } else if k == TokenType::BANG_EQUAL {
        Ok(Object::Boolean(!x.same(&y)))
    } else {
        Err(text_bytes("Invalid binary operator for numbers."))
    }
}

fn string_binary(k: TokenType, x: Vec<u8>, y: Vec<u8>) -> (r: Result<Object, Vec<u8>>)
    ensures
        val_result(r, string_op(k, x@, y@)),
{
    if k == TokenType::PLUS {
        let mut s = x;
        append_bytes(&mut s, y.as_slice());
        Ok(Object::String(s))
    } else if k == TokenType::EQUAL_EQUAL {
        Ok(Object::Boolean(bytes_equal(x.as_slice(), y.as_slice())))
    } else if k == TokenType::BANG_EQUAL {
        Ok(Object::Boolean(!bytes_equal(x.as_slice(), y.as_slice())))
    } else {
        Err(text_bytes("Invalid binary operator for strings."))
    }
}

fn binary(k: TokenType, a: Object, b: Object) -> (r: Result<Object, Vec<u8>>)
    ensures
        val_result(r, binary_op(k, a@, b@)),
{
    match (a, b) {
        (Object::Number(x), Object::Number(y)) => number_binary(k, x, y),
        (Object::String(x), Object::String(y)) => string_binary(k, x, y),
        (a, b) => {
            let same = match (&a, &b) {
                (Object::Boolean(x), Object::Boolean(y)) => *x == *y,
                (Object::Nil, Object::Nil) => true,
                _ => false,
            };
            if k == TokenType::EQUAL_EQUAL {
                Ok(Object::Boolean(same))
            } else if k == TokenType::BANG_EQUAL {
                Ok(Object::Boolean(!same))
            } else {
                Err(text_bytes("Invalid operands for binary operator."))
            }
        },
    }
}

/// What running a program produced: the values it output, in order, and
/// the error that stopped it, if one did.
pub struct Interpretation {
    pub output: Vec<Object>,
    pub error: Option<RuntimeError>,
}

pub proof fn lemma_after_after(a: Seq<Val>, b: Seq<Val>, r: Result<(Seq<Val>, EnvM), (Seq<Val>, RtErr)>)
    ensures
        after(a, after(b, r)) == after(a + b, r),
{
    match r {
        Ok((o, env)) => {
            assert(a + (b + o) =~= (a + b) + o);
        },
        Err((o, err)) => {
            assert(a + (b + o) =~= (a + b) + o);
        },
    }
}

proof fn lemma_decls_stop(env: EnvM, ds: Seq<DeclM>, k: int, n: int, fuel: nat)
    requires
        0 <= k <= n <= ds.len(),
        exec_decls(env, ds, k, fuel) is Err,
    ensures
        exec_decls(env, ds, n, fuel) == exec_decls(env, ds, k, fuel),
    decreases n - k,
{
    if k < n {
        lemma_decls_stop(env, ds, k, n - 1, fuel);
    }
}

/// Runs programs over variables that persist from one run to the next.
pub struct Interpreter {
    environment: Environment,
    max_iterations: u64,
}

impl Interpreter {
    /// The variables in scope.
    pub closed spec fn env(&self) -> EnvM {
        self.environment@
    }

    /// How many iterations a loop may run each time it starts.
    pub closed spec fn fuel(&self) -> nat {
        self.max_iterations as nat
    }

    pub fn new(max_iterations: u64) -> (r: Interpreter)
        ensures
            r.env() == empty_env(),
            r.fuel() == max_iterations,
    {
        Interpreter { environment: Environment::new(), max_iterations }
    }

    /// Evaluates an expression.
    pub fn evaluate(&mut self, e: &Expr) -> (r: Result<Object, RuntimeError>)
        ensures
            final(self).fuel() == old(self).fuel(),
            match eval(old(self).env(), e@) {
                Ok((v, env)) => r matches Ok(o) && o@ == v && final(self).env() == env,
                Err(err) => r matches Err(x) && x@ == err,
            },
        decreases e,
    {
        match e {
            Expr::Literal { value } => Ok(value.copy()),
            Expr::Grouping { expression } => self.evaluate(expression),
            Expr::Variable { identifier } => self.environment.get(identifier.as_slice()),
            Expr::Assign { identifier, value } => {
                let v = match self.evaluate(value) {
                    Err(x) => return Err(x),
                    Ok(v) => v,
                };
                match self.environment.set(copy_bytes(identifier.as_slice()), v.copy()) {
                    Ok(()) => Ok(v),
                    Err(x) => Err(x),
                }
            },
            Expr::Unary { operator, right } => {
                let v = match self.evaluate(right) {
                    Err(x) => return Err(x),
                    Ok(v) => v,
                };
                match unary(operator.token_type, v) {
                    Ok(r) => Ok(r),
                    Err(m) => Err(RuntimeError::new(m, operator.token_type)),
                }
            },
            Expr::Binary { left, operator, right } => {
                let a = match self.evaluate(left) {
                    Err(x) => return Err(x),
                    Ok(v) => v,
                };
                let b = match self.evaluate(right) {
                    Err(x) => return Err(x),
                    Ok(v) => v,
                };
                match binary(operator.token_type, a, b) {
                    Ok(r) => Ok(r),
                    Err(m) => Err(RuntimeError::new(m, operator.token_type)),
                }
            },
            Expr::Logical { left, operator, right } => {
                let a = match self.evaluate(left) {
                    Err(x) => return Err(x),
                    Ok(v) => v,
                };
                if (operator.token_type == TokenType::OR && is_truthy(&a)) || (operator.token_type
                    == TokenType::AND && !is_truthy(&a)) {
                    Ok(a)
                } else {
                    self.evaluate(right)
                }
            },
        }
    }

    fn execute(&mut self, s: &Statement, out: &mut Vec<Object>) -> (r: Result<(), RuntimeError>)
        ensures
            final(self).fuel() == old(self).fuel(),
            ran(vals(old(out)@), vals(final(out)@), final(self).env(), r, exec_stmt(old(self).env(), s@, old(self).fuel())),
        decreases s, 0nat,
    {
        match s {
            Statement::ExprStmt(e) | Statement::PrintStmt(e) => match self.evaluate(e) {
                Ok(v) => {
                    let ghost before = out@;
                    out.push(v);
                    assert(vals(out@) =~= vals(before) + seq![v@]);
                    Ok(())
                },
                Err(x) => {
                    assert(vals(out@) =~= vals(out@) + Seq::<Val>::empty());
                    Err(x)
                },
            },
            Statement::IfStmt(i) => {
                let c = match self.evaluate(&i.condition) {
                    Err(x) => {
                        assert(vals(out@) =~= vals(out@) + Seq::<Val>::empty());
                        return Err(x);
                    },
                    Ok(v) => v,
                };
                if is_truthy(&c) {
                    self.execute(&i.then_branch, out)
                } else {
                    match &i.else_branch {
                        Some(b) => self.execute(b, out),
                        None => {
                            assert(vals(out@) =~= vals(out@) + Seq::<Val>::empty());
                            Ok(())
                        },
                    }
                }
            },
            Statement::WhileStmt(w) => self.execute_while(w, out),
            Statement::Block(decls) => {
                proof {
                    lemma_block_model(*decls);
                }
                self.environment.enter_scope();
                let r = self.execute_declarations(decls, out);
                self.environment.exit_scope();
                r
            },
        }
    }

    /// Runs a `while` loop: at most `fuel` iterations, then an error.
    fn execute_while(&mut self, w: &While, out: &mut Vec<Object>) -> (r: Result<(), RuntimeError>)
        ensures
            final(self).fuel() == old(self).fuel(),
            ran(
                vals(old(out)@),
                vals(final(out)@),
                final(self).env(),
                r,
                exec_while(old(self).env(), w.condition@, w.block@, old(self).fuel(), old(self).fuel()),
            ),
        decreases *w.block, 1nat,
    {
        let ghost c = w.condition@;
        let ghost b = w.block@;
        let ghost fuel = self.fuel();
        let ghost target = exec_while(self.env(), c, b, fuel, fuel);
        let ghost out0 = vals(out@);
        let ghost mut produced: Seq<Val> = Seq::empty();
        let mut left: u64 = self.max_iterations;
        assert(out0 + produced =~= out0);
        assert(after(produced, exec_while(self.env(), c, b, fuel, left as nat)) == target) by {
            let r = exec_while(self.env(), c, b, fuel, left as nat);
            match r {
                Ok((o, e)) => {
                    assert(produced + o =~= o);
                },
                Err((o, e)) => {
                    assert(produced + o =~= o);
                },
            }
        }
        loop
            invariant
                fuel == self.fuel(),
                fuel == old(self).fuel(),
                c == w.condition@,
                b == w.block@,
                vals(out@) == out0 + produced,
                out0 == vals(old(out)@),
                target == exec_while(old(self).env(), c, b, fuel, fuel),
                target == after(produced, exec_while(self.env(), c, b, fuel, left as nat)),
            decreases left,
        {
            let ghost e0 = self.env();
            let cv = match self.evaluate(&w.condition) {
                Err(x) => {
                    assert(vals(out@) =~= out0 + (produced + Seq::<Val>::empty()));
                    return Err(x);
                },
                Ok(v) => v,
            };
            let ghost e1 = self.env();
            if !is_truthy(&cv) {
                assert(vals(out@) =~= out0 + (produced + Seq::<Val>::empty()));
                return Ok(());
            }
            if left == 0 {
                assert(vals(out@) =~= out0 + (produced + Seq::<Val>::empty()));
                return Err(RuntimeError::new(text_bytes("Loop iteration limit reached."), TokenType::WHILE));
            }
            let ghost before = vals(out@);
            match self.execute(&w.block, out) {
                Err(x) => {
                    proof {
                        let step = exec_stmt(e1, b, fuel);
                        match step {
                            Err((o, err)) => {
                                assert(vals(out@) =~= out0 + (produced + o));
                            },
                            Ok(_) => {},
                        }
                    }
                    return Err(x);
                },
                Ok(()) => {},
            }
            proof {
                let step = exec_stmt(e1, b, fuel);
                match step {
                    Ok((o, e2)) => {
                        lemma_after_after(produced, o, exec_while(e2, c, b, fuel, (left - 1) as nat));
                        assert(vals(out@) =~= out0 + (produced + o));
                        produced = produced + o;
                    },
                    Err(_) => {},
                }
            }
            left -= 1;
        }
    }

    /// Runs declarations in order, in the current scope.
    fn execute_declarations(&mut self, decls: &Vec<Declaration>, out: &mut Vec<Object>) -> (r: Result<(), RuntimeError>)
        ensures
            final(self).fuel() == old(self).fuel(),
            ran(
                vals(old(out)@),
                vals(final(out)@),
                final(self).env(),
                r,
                exec_decls(old(self).env(), decls_model(decls@), decls@.len() as int, old(self).fuel()),
            ),
        decreases decls, 0nat,
    {
        let ghost ds = decls_model(decls@);
        let ghost fuel = self.fuel();
        let ghost env0 = self.env();
        let ghost out0 = vals(out@);
        let ghost mut produced: Seq<Val> = Seq::empty();
        let mut i: usize = 0;
        assert(out0 + produced =~= out0);
        while i < decls.len()
            invariant
                0 <= i <= decls@.len() == ds.len(),
                ds == decls_model(decls@),
                fuel == self.fuel(),
                fuel == old(self).fuel(),
                env0 == old(self).env(),
                out0 == vals(old(out)@),
                vals(out@) == out0 + produced,
                exec_decls(env0, ds, i as int, fuel) == Ok::<(Seq<Val>, EnvM), (Seq<Val>, RtErr)>((produced, self.env())),
            decreases decls@.len() - i,
        {
            let ghost e1 = self.env();
            proof {
                assert(decreases_to!(*decls => decls[i as int]));
            }
            let r = self.execute_declaration(&decls[i], out);
            match r {
                Err(x) => {
                    proof {
                        match exec_decl(e1, ds[i as int], fuel) {
                            Err((o, err)) => {
                                assert(vals(out@) =~= out0 + (produced + o));
                            },
                            Ok(_) => {},
                        }
                        lemma_decls_stop(env0, ds, i + 1, ds.len() as int, fuel);
                    }
                    return Err(x);
                },
                Ok(()) => {},
            }
            proof {
                match exec_decl(e1, ds[i as int], fuel) {
                    Ok((o, e2)) => {
                        assert(vals(out@) =~= out0 + (produced + o));
                        produced = produced + o;
                    },
                    Err(_) => {},
                }
            }
            i += 1;
        }
        Ok(())
    }

    fn execute_declaration(&mut self, d: &Declaration, out: &mut Vec<Object>) -> (r: Result<(), RuntimeError>)
        ensures
            final(self).fuel() == old(self).fuel(),
            ran(vals(old(out)@), vals(final(out)@), final(self).env(), r, exec_decl(old(self).env(), d@, old(self).fuel())),
        decreases d, 0nat,
    {
        match d {
            Declaration::VarDecl { name, initializer } => {
                assert(vals(out@) =~= vals(out@) + Seq::<Val>::empty());
                match self.evaluate(initializer) {
                    Err(x) => Err(x),
                    Ok(v) => {
                        self.environment.define(copy_bytes(name.as_slice()), v);
                        Ok(())
                    },
                }
            },
            Declaration::Statement(s) => self.execute(s, out),
        }
    }

    /// Runs a program: its declarations in order, until one meets an error.
    pub fn interpret(&mut self, decls: &Vec<Declaration>) -> (r: Interpretation)
        ensures
            final(self).fuel() == old(self).fuel(),
            match exec_decls(old(self).env(), decls_model(decls@), decls@.len() as int, old(self).fuel()) {
                Ok((o, env)) => r.error is None && vals(r.output@) == o && final(self).env() == env,
                Err((o, err)) => r.error matches Some(x) && x@ == err && vals(r.output@) == o,
            },
    {
        let mut output: Vec<Object> = Vec::new();
        assert(vals(output@) =~= Seq::<Val>::empty());
        let r = self.execute_declarations(decls, &mut output);
        proof {
            match exec_decls(old(self).env(), decls_model(decls@), decls@.len() as int, old(self).fuel()) {
                Ok((o, env)) => {
                    assert(vals(output@) =~= o);
                },
                Err((o, err)) => {
                    assert(vals(output@) =~= o);
                },
            }
        }
        match r {
            Ok(()) => Interpretation { output, error: None },
            Err(x) => Interpretation { output, error: Some(x) },
        }
    }
}

} // verus!

verus! {

/// The expression assigns to no variable.
pub open spec fn assigns_nothing(e: ExprM) -> bool
    decreases e,
{
    match e {
        ExprM::Binary(l, _, r) => assigns_nothing(*l) && assigns_nothing(*r),
        ExprM::Grouping(x) => assigns_nothing(*x),
        ExprM::Literal(_) => true,
        ExprM::Unary(_, r) => assigns_nothing(*r),
        ExprM::Variable(_) => true,
        ExprM::Assign(_, _) => false,
        ExprM::Logical(l, _, r) => assigns_nothing(*l) && assigns_nothing(*r),
    }
}

/// An expression that assigns nothing leaves the variables as they were.
pub proof fn lemma_eval_keeps_env(env: EnvM, e: ExprM)
    requires
        assigns_nothing(e),
    ensures
        eval(env, e) matches Ok((v, env1)) ==> env1 == env,
    decreases e,
{
    match e {
        ExprM::Binary(l, _, r) => {
            lemma_eval_keeps_env(env, *l);
            lemma_eval_keeps_env(env, *r);
        },
        ExprM::Grouping(x) => lemma_eval_keeps_env(env, *x),
        ExprM::Unary(_, r) => lemma_eval_keeps_env(env, *r),
        ExprM::Logical(l, _, r) => {
            lemma_eval_keeps_env(env, *l);
            lemma_eval_keeps_env(env, *r);
        },
        _ => {},
    }
}

/// `and` and `or` do not evaluate their right operand when the left one
/// decides: `false and r` is `false` and `true or r` is `true`, whatever
/// `r` would do, even fail.
pub proof fn lemma_short_circuit(env: EnvM, op: TokenView, left: ExprM, right: ExprM)
    ensures
        op.kind == TokenType::AND ==> eval(
            env,
            ExprM::Logical(Box::new(ExprM::Literal(Val::Bool(false))), op, Box::new(right)),
        ) == Ok::<(Val, EnvM), RtErr>((Val::Bool(false), env)),
        op.kind == TokenType::OR ==> eval(
            env,
            ExprM::Logical(Box::new(ExprM::Literal(Val::Bool(true))), op, Box::new(right)),
        ) == Ok::<(Val, EnvM), RtErr>((Val::Bool(true), env)),
        (eval(env, left) matches Ok((v, env1)) && (op.kind == TokenType::AND && !truthy(v) || op.kind
            == TokenType::OR && truthy(v))) ==> eval(
            env,
            ExprM::Logical(Box::new(left), op, Box::new(right)),
        ) == eval(env, left),
{
    reveal_with_fuel(eval, 2);
}

/// A `print` statement outputs its value and, when its expression assigns
/// nothing, leaves the variables as they were: what follows it runs as if
/// it were not there.
pub proof fn lemma_print_is_output_only(env: EnvM, e: ExprM, next: DeclM, fuel: nat)
    requires
        assigns_nothing(e),
        eval(env, e) is Ok,
    ensures
        exec_stmt(env, StmtM::Print(e), fuel) == Ok::<(Seq<Val>, EnvM), (Seq<Val>, RtErr)>(
            (seq![eval(env, e)->Ok_0.0], env),
        ),
        exec_decls(env, seq![DeclM::Stmt(StmtM::Print(e)), next], 2, fuel) == after(
            seq![eval(env, e)->Ok_0.0],
            exec_decl(env, next, fuel),
        ),
{
    lemma_eval_keeps_env(env, e);
    let ds = seq![DeclM::Stmt(StmtM::Print(e)), next];
    let v = eval(env, e)->Ok_0.0;
    assert(exec_decls(env, ds, 0, fuel) == Ok::<(Seq<Val>, EnvM), (Seq<Val>, RtErr)>((Seq::<Val>::empty(), env)));
    assert(Seq::<Val>::empty() + seq![v] =~= seq![v]);
    assert(ds[0] == DeclM::Stmt(StmtM::Print(e)));
    assert(ds[1] == next);
    assert(exec_stmt(env, StmtM::Print(e), fuel) == Ok::<(Seq<Val>, EnvM), (Seq<Val>, RtErr)>((seq![v], env)));
    assert(exec_decl(env, ds[0], fuel) == Ok::<(Seq<Val>, EnvM), (Seq<Val>, RtErr)>((seq![v], env)));
    assert(exec_decls(env, ds, 1, fuel) == Ok::<(Seq<Val>, EnvM), (Seq<Val>, RtErr)>((seq![v], env)));
}

} // verus!
