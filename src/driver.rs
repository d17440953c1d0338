use vstd::prelude::*;
use crate::ast::{decl_text, decls_model, val_display, DeclM, Declaration, Object, Val};
use crate::environment::empty_env;
use crate::interpreter::{exec_decls, vals, Interpreter};
use crate::number::{digits_of, push_digits};
use crate::parser::{parse_program, Parser};
use crate::report::{DiagView, Diagnostic};
use crate::scanner::{diags_view, lemma_scan_count, scan, scan_errors_of, scan_tokens_of, tokens_view};
use crate::text::{append_bytes, push_text, text};
use crate::token::{token_line, Token, TokenView};

verus! {

/// Exit status after a lexical or syntax error.
pub const EXIT_SYNTAX_ERROR: i32 = 65;

/// Exit status after a runtime error.
pub const EXIT_RUNTIME_ERROR: i32 = 70;

/// What to do with a source file.
#[derive(PartialEq, Eq, Structural, Copy, Clone, Debug)]
pub enum Command {
    /// List its tokens.
    Tokenize,
    /// Print the declarations it parses into.
    Parse,
    /// Run it.
    Evaluate,
}

/// What a run writes to standard output and standard error, line by line,
/// and the status it exits with.
pub struct RunOutcome {
    pub stdout: Vec<Vec<u8>>,
    pub stderr: Vec<Vec<u8>>,
    pub exit_code: i32,
}

/// A run's output as mathematical values.
pub struct RunView {
    pub stdout: Seq<Seq<u8>>,
    pub stderr: Seq<Seq<u8>>,
    pub exit_code: int,
}

pub open spec fn lines_view(v: Seq<Vec<u8>>) -> Seq<Seq<u8>> {
    v.map_values(|l: Vec<u8>| l@)
}

impl View for RunOutcome {
    type V = RunView;

    open spec fn view(&self) -> RunView {
        RunView { stdout: lines_view(self.stdout@), stderr: lines_view(self.stderr@), exit_code: self.exit_code as int }
    }
}

/// A diagnostic as printed: `[line N] Error: {context}{message}`.
pub open spec fn diag_text(d: DiagView) -> Seq<u8> {
    text("[line ") + digits_of(d.line) + text("] Error: ") + d.context + d.message
}

pub open spec fn diag_lines(ds: Seq<DiagView>) -> Seq<Seq<u8>> {
    ds.map_values(|d: DiagView| diag_text(d))
}

/// What running `command` on `source` writes and exits with. A lexical or
/// syntax error stops the run before any evaluation, with status 65; a
/// runtime error stops evaluation, after the output made so far, with
/// status 70. Loops run without a practical bound.
pub open spec fn run_model(command: Command, source: Seq<u8>) -> RunView {
    let ts = scan_tokens_of(source);
    let se = scan_errors_of(source);
    match command {
        Command::Tokenize => RunView {
            stdout: ts.map_values(|t: TokenView| token_line(t)),
            stderr: diag_lines(se),
            exit_code: if se.len() > 0 { EXIT_SYNTAX_ERROR as int } else { 0 },
        },
        _ => match parse_program(ts) {
            Err(pe) => RunView { stdout: Seq::empty(), stderr: diag_lines(se + pe), exit_code: EXIT_SYNTAX_ERROR as int },
            Ok(q) => if se.len() + q.diags.len() > 0 {
                RunView { stdout: Seq::empty(), stderr: diag_lines(se + q.diags), exit_code: EXIT_SYNTAX_ERROR as int }
            } else if command == Command::Parse {
                RunView { stdout: q.value.map_values(|d: DeclM| decl_text(d)), stderr: Seq::empty(), exit_code: 0 }
            } else {
                match exec_decls(empty_env(), q.value, q.value.len() as int, u64::MAX as nat) {
                    Ok((o, _)) => RunView {
                        stdout: o.map_values(|v: Val| val_display(v)),
                        stderr: Seq::empty(),
                        exit_code: 0,
                    },
                    Err((o, err)) => RunView {
                        stdout: o.map_values(|v: Val| val_display(v)),
                        stderr: seq![err.message],
                        exit_code: EXIT_RUNTIME_ERROR as int,
                    },
                }
            },
        },
    }
}

impl Diagnostic {
    /// The diagnostic as printed.
    pub fn to_text(&self) -> (r: Vec<u8>)
        ensures
            r@ == diag_text(self@),
    {
        let mut out: Vec<u8> = Vec::new();
        push_text(&mut out, "[line ");
        push_digits(&mut out, self.line as u64);
        push_text(&mut out, "] Error: ");
        append_bytes(&mut out, self.context.as_slice());
        append_bytes(&mut out, self.message.as_slice());
        assert(out@ =~= diag_text(self@));
        out
    }
}

fn push_diag_lines(out: &mut Vec<Vec<u8>>, ds: &Vec<Diagnostic>)
    ensures
        lines_view(final(out)@) == lines_view(old(out)@) + diag_lines(diags_view(ds@)),
{
    let mut i: usize = 0;
    while i < ds.len()
        invariant
            0 <= i <= ds@.len(),
            out@.len() == old(out)@.len() + i,
            forall|k: int| 0 <= k < old(out)@.len() ==> #[trigger] out@[k] == old(out)@[k],
            forall|k: int| 0 <= k < i ==> #[trigger] out@[old(out)@.len() + k]@ == diag_text(ds@[k]@),
        decreases ds@.len() - i,
    {
        out.push(ds[i].to_text());
        i += 1;
    }
    let ghost n = old(out)@.len() as int;
    assert forall|j: int| n <= j < out@.len() implies #[trigger] out@[j]@ == diag_text(ds@[j - n]@) by {
        assert(out@[n + (j - n)]@ == diag_text(ds@[j - n]@));
    }
    assert(lines_view(out@) =~= lines_view(old(out)@) + diag_lines(diags_view(ds@)));
}

fn token_lines(ts: &Vec<Token>) -> (r: Vec<Vec<u8>>)
    ensures
        lines_view(r@) == tokens_view(ts@).map_values(|t: TokenView| token_line(t)),
{
    let mut out: Vec<Vec<u8>> = Vec::new();
    let mut i: usize = 0;
    while i < ts.len()
        invariant
            0 <= i <= ts@.len(),
            out@.len() == i,
            forall|k: int| 0 <= k < i ==> #[trigger] out@[k]@ == token_line(ts@[k]@),
        decreases ts@.len() - i,
    {
        out.push(ts[i].to_text());
        i += 1;
    }
    assert(lines_view(out@) =~= tokens_view(ts@).map_values(|t: TokenView| token_line(t)));
    out
}

fn declaration_lines(ds: &Vec<Declaration>) -> (r: Vec<Vec<u8>>)
    ensures
        lines_view(r@) == decls_model(ds@).map_values(|d: DeclM| decl_text(d)),
{
    let mut out: Vec<Vec<u8>> = Vec::new();
    let mut i: usize = 0;
    while i < ds.len()
        invariant
            0 <= i <= ds@.len(),
            out@.len() == i,
            forall|k: int| 0 <= k < i ==> #[trigger] out@[k]@ == decl_text(ds@[k]@),
        decreases ds@.len() - i,
    {
        out.push(ds[i].to_text());
        i += 1;
    }
    assert(lines_view(out@) =~= decls_model(ds@).map_values(|d: DeclM| decl_text(d)));
    out
}

fn value_lines(vs: &Vec<Object>) -> (r: Vec<Vec<u8>>)
    ensures
        lines_view(r@) == vals(vs@).map_values(|v: Val| val_display(v)),
{
    let mut out: Vec<Vec<u8>> = Vec::new();
    let mut i: usize = 0;
    while i < vs.len()
        invariant
            0 <= i <= vs@.len(),
            out@.len() == i,
            forall|k: int| 0 <= k < i ==> #[trigger] out@[k]@ == val_display(vs@[k]@),
        decreases vs@.len() - i,
    {
        out.push(vs[i].to_display());
        i += 1;
    }
    assert(lines_view(out@) =~= vals(vs@).map_values(|v: Val| val_display(v)));
    out
}

/// Runs `command` on `source`.
pub fn run(command: Command, source: &[u8]) -> (r: RunOutcome)
    requires
        source@.len() < usize::MAX - 1,
    ensures
        r@ == run_model(command, source@),
{
    let scanned = scan(source);
    let mut stderr: Vec<Vec<u8>> = Vec::new();
    assert(lines_view(stderr@) =~= Seq::<Seq<u8>>::empty());
    push_diag_lines(&mut stderr, &scanned.errors);
    let had_scan_errors = scanned.errors.len() > 0;
    if command == Command::Tokenize {
        let stdout = token_lines(&scanned.tokens);
        assert(lines_view(stderr@) =~= diag_lines(scan_errors_of(source@)));
        return RunOutcome { stdout, stderr, exit_code: if had_scan_errors { EXIT_SYNTAX_ERROR } else { 0 } };
    }
    proof {
        lemma_scan_count(source@, 0, 1);
    }
    let parser = Parser::new(scanned.tokens);
    let parsed = parser.parse();
    let ghost se = scan_errors_of(source@);
    push_diag_lines(&mut stderr, &parsed.errors);
    proof {
        assert(Seq::<Seq<u8>>::empty() + diag_lines(se) + diag_lines(diags_view(parsed.errors@)) =~= diag_lines(se + diags_view(parsed.errors@)));
    }
    let decls = match parsed.declarations {
        Err(_) => {
            return RunOutcome { stdout: Vec::new(), stderr, exit_code: EXIT_SYNTAX_ERROR };
        },
        Ok(d) => d,
    };
    if had_scan_errors || parsed.errors.len() > 0 {
        return RunOutcome { stdout: Vec::new(), stderr, exit_code: EXIT_SYNTAX_ERROR };
    }
    if command == Command::Parse {
        let stdout = declaration_lines(&decls);
        return RunOutcome { stdout, stderr, exit_code: 0 };
    }
    let mut interpreter = Interpreter::new(u64::MAX);
    let result = interpreter.interpret(&decls);
    let stdout = value_lines(&result.output);
    match result.error {
        None => RunOutcome { stdout, stderr, exit_code: 0 },
        Some(e) => {
            let mut lines: Vec<Vec<u8>> = Vec::new();
            let mut message: Vec<u8> = Vec::new();
            append_bytes(&mut message, e.message().as_slice());
            lines.push(message);
            assert(lines_view(lines@) =~= seq![e@.message]);
            RunOutcome { stdout, stderr: lines, exit_code: EXIT_RUNTIME_ERROR }
        },
    }
}

} // verus!
