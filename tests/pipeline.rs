use lox::driver::{run, Command};
use lox::environment::Environment;
use lox::interpreter::{Interpreter, RuntimeError};
use lox::number::Number;
use lox::parser::Parser;
use lox::scanner::scan;
use lox::ast::Object;
use lox::token::TokenType;

fn lines(v: &[Vec<u8>]) -> Vec<String> {
    v.iter().map(|l| String::from_utf8_lossy(l).into_owned()).collect()
}

fn run_text(command: Command, source: &str) -> (Vec<String>, Vec<String>, i32) {
    let r = run(command, source.as_bytes());
    (lines(&r.stdout), lines(&r.stderr), r.exit_code)
}

#[test]
fn each_punctuation_character_is_one_token() {
    let cases = [
        ("(", "LEFT_PAREN"),
        (")", "RIGHT_PAREN"),
        ("{", "LEFT_BRACE"),
        ("}", "RIGHT_BRACE"),
        (",", "COMMA"),
        (".", "DOT"),
        ("-", "MINUS"),
        ("+", "PLUS"),
        (";", "SEMICOLON"),
        ("*", "STAR"),
        ("/", "SLASH"),
        ("!", "BANG"),
        ("=", "EQUAL"),
        ("<", "LESS"),
        (">", "GREATER"),
    ];
    for (c, kind) in cases {
        let (out, err, code) = run_text(Command::Tokenize, c);
        assert_eq!(out, vec![format!("{} {} null", kind, c), "EOF  null".to_string()]);
        assert!(err.is_empty());
        assert_eq!(code, 0);
    }
}

#[test]
fn punctuation_run_gives_one_token_per_character() {
    let (out, _, code) = run_text(Command::Tokenize, "(){};,.-+*");
    assert_eq!(out.len(), 11);
    assert_eq!(out[0], "LEFT_PAREN ( null");
    assert_eq!(out[4], "SEMICOLON ; null");
    assert_eq!(out[5], "COMMA , null");
    assert_eq!(out[9], "STAR * null");
    assert_eq!(out[10], "EOF  null");
    assert_eq!(code, 0);
}

#[test]
fn two_character_operators() {
    let (out, _, _) = run_text(Command::Tokenize, "!= == <= >= // comment\n/");
    assert_eq!(
        out,
        vec!["BANG_EQUAL != null", "EQUAL_EQUAL == null", "LESS_EQUAL <= null", "GREATER_EQUAL >= null", "SLASH / null", "EOF  null"]
    );
}

#[test]
fn number_literals_render_canonically() {
    let (out, _, _) = run_text(Command::Tokenize, "4 1.50 007.250 3.0 12.");
    assert_eq!(
        out,
        vec!["NUMBER 4 4.0", "NUMBER 1.50 1.5", "NUMBER 007.250 7.25", "NUMBER 3.0 3.0", "NUMBER 12 12.0", "DOT . null", "EOF  null"]
    );
}

#[test]
fn parsing_then_printing_a_number() {
    let (out, err, code) = run_text(Command::Parse, "4;");
    assert_eq!(out, vec!["4.0;"]);
    assert!(err.is_empty());
    assert_eq!(code, 0);
    let (out, _, _) = run_text(Command::Parse, "2.50;");
    assert_eq!(out, vec!["2.5;"]);
}

#[test]
fn strings_identifiers_and_keywords() {
    let (out, _, code) = run_text(Command::Tokenize, "var name = \"hi there\";");
    assert_eq!(
        out,
        vec!["VAR var null", "IDENTIFIER name name", "EQUAL = null", "STRING \"hi there\" hi there", "SEMICOLON ; null", "EOF  null"]
    );
    assert_eq!(code, 0);
}

#[test]
fn empty_source_has_only_the_end() {
    let (out, err, code) = run_text(Command::Tokenize, "");
    assert_eq!(out, vec!["EOF  null"]);
    assert!(err.is_empty());
    assert_eq!(code, 0);
}

#[test]
fn unterminated_string_is_a_lexical_error() {
    let (out, err, code) = run_text(Command::Tokenize, "\"abc");
    assert_eq!(code, 65);
    assert_eq!(err, vec!["[line 1] Error: Unterminated string."]);
    assert_eq!(out, vec!["EOF  null"]);
}

#[test]
fn unexpected_character_is_reported_and_scanning_goes_on() {
    let (out, err, code) = run_text(Command::Tokenize, "@\n+");
    assert_eq!(code, 65);
    assert_eq!(err, vec!["[line 1] Error: Unexpected character: @"]);
    assert_eq!(out, vec!["PLUS + null", "EOF  null"]);
}

#[test]
fn line_numbers_follow_newlines() {
    let s = scan(b"1\n\"a\nb\"\nx");
    let lines: Vec<usize> = s.tokens.iter().map(|t| t.line).collect();
    assert_eq!(lines, vec![1, 3, 4, 4]);
    assert!(s.errors.is_empty());
}

#[test]
fn printing_is_independent_of_whitespace() {
    let a = run_text(Command::Parse, "1 + 2 * 3;");
    let b = run_text(Command::Parse, "1+2*3;");
    let c = run_text(Command::Parse, "  1 +\n\t2 *   3 ;");
    assert_eq!(a.0, vec!["(+ 1.0 (* 2.0 3.0));"]);
    assert_eq!(a, b);
    assert_eq!(a, c);
}

#[test]
fn printing_groups_unary_and_logic() {
    let (out, _, _) = run_text(Command::Parse, "-(1 - 2) / !true or x and \"s\";");
    assert_eq!(out, vec!["(or (/ (- (group (- 1.0 2.0))) (! true)) (and variable x s));"]);
}

#[test]
fn precedence_and_left_associativity() {
    let (out, _, _) = run_text(Command::Parse, "1 - 2 - 3 < 4 == true;");
    assert_eq!(out, vec!["(== (< (- (- 1.0 2.0) 3.0) 4.0) true);"]);
}

#[test]
fn arithmetic_scenario() {
    let (out, err, code) = run_text(Command::Evaluate, "1 + 2 * 3;");
    assert_eq!(out, vec!["7"]);
    assert!(err.is_empty());
    assert_eq!(code, 0);
}

#[test]
fn block_declaration_shadows_outer_variable() {
    let (out, err, code) = run_text(Command::Evaluate, "var a = 1; { var a = 2; } print a;");
    assert_eq!(out, vec!["1"]);
    assert!(err.is_empty());
    assert_eq!(code, 0);
}

#[test]
fn assignment_in_block_reaches_outer_variable() {
    let (out, _, _) = run_text(Command::Evaluate, "var a = 1; { a = 2; } print a;");
    assert_eq!(out, vec!["2", "2"]);
}

#[test]
fn division_by_zero_is_a_runtime_error() {
    let (out, err, code) = run_text(Command::Evaluate, "10 / 0;");
    assert_eq!(code, 70);
    assert!(out.is_empty());
    assert_eq!(err.len(), 1);
    assert!(err[0].contains("Division by zero."));
}

#[test]
fn and_or_short_circuit() {
    let (out, err, code) = run_text(Command::Evaluate, "false and (1/0);");
    assert_eq!(out, vec!["false"]);
    assert!(err.is_empty());
    assert_eq!(code, 0);
    let (out, _, code) = run_text(Command::Evaluate, "true or (1/0);");
    assert_eq!(out, vec!["true"]);
    assert_eq!(code, 0);
    let (out, _, _) = run_text(Command::Evaluate, "nil or \"x\"; 1 and 2;");
    assert_eq!(out, vec!["x", "2"]);
}

#[test]
fn print_leaves_later_statements_unchanged() {
    let (with_print, _, _) = run_text(Command::Evaluate, "var b = 2; print b + 1; print b;");
    let (without, _, _) = run_text(Command::Evaluate, "var b = 2; print b;");
    assert_eq!(with_print, vec!["3", "2"]);
    assert_eq!(without, vec!["2"]);
}

#[test]
fn output_before_a_runtime_error_is_kept() {
    let (out, err, code) = run_text(Command::Evaluate, "print 1; print x; print 2;");
    assert_eq!(out, vec!["1"]);
    assert_eq!(err, vec!["Undefined variable x."]);
    assert_eq!(code, 70);
}

#[test]
fn runtime_type_errors() {
    let (_, err, code) = run_text(Command::Evaluate, "-\"a\";");
    assert_eq!(err, vec!["Operand must be a number."]);
    assert_eq!(code, 70);
    let (_, err, _) = run_text(Command::Evaluate, "1 + \"a\";");
    assert_eq!(err, vec!["Invalid operands for binary operator."]);
    let (_, err, _) = run_text(Command::Evaluate, "\"a\" - \"b\";");
    assert_eq!(err, vec!["Invalid binary operator for strings."]);
    let (_, err, _) = run_text(Command::Evaluate, "y = 1;");
    assert_eq!(err, vec!["Undefined variable y."]);
}

#[test]
fn equality_across_kinds() {
    let (out, _, code) = run_text(Command::Evaluate, "1 == \"1\"; 1 != \"1\"; nil == nil; true == true; \"a\" == \"a\"; 2 == 2.0;");
    assert_eq!(out, vec!["false", "true", "true", "true", "true", "true"]);
    assert_eq!(code, 0);
}

#[test]
fn numbers_are_exact_rationals() {
    let (out, _, _) = run_text(Command::Evaluate, "7 / 2; 1 / 3; 0.1 + 0.2; -3; 2 * 1.5; 1 / 4 < 0.3;");
    assert_eq!(out, vec!["3.5", "0.333333333333333333", "0.3", "-3", "3", "true"]);
}

#[test]
fn number_out_of_range_is_an_error() {
    let (_, err, code) = run_text(Command::Evaluate, "9223372036854775807 + 1;");
    assert_eq!(err, vec!["Number out of range."]);
    assert_eq!(code, 70);
}

#[test]
fn strings_concatenate() {
    let (out, _, _) = run_text(Command::Evaluate, "var s = \"ab\"; s = s + \"cd\"; print s;");
    assert_eq!(out, vec!["abcd", "abcd"]);
}

#[test]
fn if_else_and_while_and_for() {
    let src = "var i = 0; while (i < 3) { print i; i = i + 1; } if (i == 3) print \"done\"; else print \"no\";";
    let (out, _, code) = run_text(Command::Evaluate, src);
    assert_eq!(out, vec!["0", "1", "1", "2", "2", "3", "done"]);
    assert_eq!(code, 0);
    let (out, _, _) = run_text(Command::Evaluate, "for (var j = 0; j < 2; j = j + 1) print j;");
    assert_eq!(out, vec!["0", "1", "1", "2"]);
    let (out, _, _) = run_text(Command::Evaluate, "var k = 0; for (; k < 1;) k = k + 1; print k;");
    assert_eq!(out, vec!["1", "1"]);
}

#[test]
fn for_loop_prints_as_while_loop() {
    let (out, _, _) = run_text(Command::Parse, "for (;;) print 1;");
    assert_eq!(out, vec!["while (true)\n { print 1.0; }\n"]);
}

#[test]
fn syntax_errors_stop_before_evaluation() {
    let (out, err, code) = run_text(Command::Evaluate, "print 1");
    assert_eq!(code, 65);
    assert!(out.is_empty());
    assert_eq!(err, vec!["[line 1] Error:  at end Expect ';' after value."]);
    let (_, err, code) = run_text(Command::Parse, "1 + ;");
    assert_eq!(code, 65);
    assert_eq!(err, vec!["[line 1] Error:  at ';' Expect expression."]);
    let (_, err, _) = run_text(Command::Parse, "1 = 2;");
    assert_eq!(err, vec!["[line 1] Error:  at '=' Invalid assignment target."]);
    let (_, err, _) = run_text(Command::Parse, "{ 1;");
    assert_eq!(err, vec!["[line 1] Error:  at end Expect '}' after block."]);
}

#[test]
fn loop_budget_stops_an_endless_loop() {
    let scanned = scan(b"var n = 0; while (true) n = n + 1;");
    let parser = Parser::new(scanned.tokens);
    let decls = parser.parse().declarations.ok().unwrap();
    let mut interpreter = Interpreter::new(3);
    let result = interpreter.interpret(&decls);
    assert_eq!(result.output.len(), 3);
    let e = result.error.unwrap();
    assert_eq!(e.message().clone(), b"Loop iteration limit reached.".to_vec());
    assert_eq!(e.operator(), TokenType::WHILE);
}

#[test]
fn variables_persist_between_runs() {
    let mut interpreter = Interpreter::new(10);
    let first = Parser::new(scan(b"var x = 5;").tokens).parse().declarations.ok().unwrap();
    let second = Parser::new(scan(b"print x * 2;").tokens).parse().declarations.ok().unwrap();
    assert!(interpreter.interpret(&first).error.is_none());
    let r = interpreter.interpret(&second);
    assert_eq!(r.output.len(), 1);
    assert_eq!(r.output[0].to_display(), b"10".to_vec());
}

#[test]
fn environment_scopes() {
    let mut env = Environment::new();
    env.define(b"a".to_vec(), Object::Number(Number::from_int(1)));
    env.enter_scope();
    env.define(b"a".to_vec(), Object::Boolean(true));
    assert_eq!(env.get(b"a").ok().unwrap().to_display(), b"true".to_vec());
    env.exit_scope();
    assert_eq!(env.get(b"a").ok().unwrap().to_display(), b"1".to_vec());
    assert!(env.set(b"b".to_vec(), Object::Nil).is_err());
    assert!(env.get(b"b").is_err());
}

#[test]
fn runtime_error_keeps_message_and_operator() {
    let e = RuntimeError::new(b"boom".to_vec(), TokenType::SLASH);
    assert_eq!(e.message().clone(), b"boom".to_vec());
    assert_eq!(e.operator(), TokenType::SLASH);
}

#[test]
fn rational_arithmetic() {
    let a = Number::from_int(6);
    let b = Number::from_int(4);
    let q = a.div(&b).unwrap();
    assert_eq!((q.numerator(), q.denominator()), (3, 2));
    assert_eq!(q.to_text(), b"1.5".to_vec());
    let w = Number::from_int(5);
    assert_eq!(w.to_text(), b"5.0".to_vec());
    assert_eq!(w.to_display(), b"5".to_vec());
    assert!(Number::from_int(i64::MAX).add(&Number::from_int(1)).is_none());
    assert!(b.lt(&a));
    assert!(q.same(&Number::from_int(3).div(&Number::from_int(2)).unwrap()));
}

#[test]
fn blank_between_lexemes_changes_no_command() {
    for command in [Command::Tokenize, Command::Parse, Command::Evaluate] {
        assert_eq!(run_text(command, "print 1+2;"), run_text(command, "print 1+ 2;"));
        assert_eq!(run_text(command, "print 1+2;"), run_text(command, "print\t1+2 ;"));
    }
    let (a, _, _) = run_text(Command::Parse, "(1+2)*3;");
    let (b, _, _) = run_text(Command::Parse, "(1\n+2)*3;");
    assert_eq!(a, vec!["(* (group (+ 1.0 2.0)) 3.0);"]);
    assert_eq!(a, b);
}
