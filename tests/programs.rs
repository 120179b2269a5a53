use nhotyp::{execute_program, exit_code, format_runtime_err, Error, Io};

const BUDGET: u64 = u64::MAX;

fn source(text: &str) -> Vec<String> {
    text.split('\n').map(String::from).collect()
}

fn run_with(text: &str, input: &[&str]) -> (Result<i64, Error>, String) {
    let mut io = Io::new(input.iter().map(|s| s.to_string()).collect());
    let r = execute_program(&source(text), &mut io, BUDGET);
    (r, io.output().clone())
}

fn run(text: &str) -> (Result<i64, Error>, String) {
    run_with(text, &[])
}

fn failure(text: &str) -> String {
    match run(text).0 {
        Ok(v) => panic!("expected a failure, got {}", v),
        Err(e) => e.debug(),
    }
}

#[test]
fn identity_main() {
    let (r, out) = run("function main as\n return 42\nend function");
    assert_eq!(r.ok(), Some(42));
    assert_eq!(out, "");
}

#[test]
fn arithmetic_print() {
    let (r, out) = run("function main as\n let r = + 2 * 3 4\n print r\n return r\nend function");
    assert_eq!(r.ok(), Some(14));
    assert_eq!(out, "  . 14\n");
}

#[test]
fn loop_and_condition() {
    let (r, out) = run(
        "function main as\n let i = 0\n let s = 0\n while < i 5 do\n  let s = + s i\n  let i = + i 1\n end while\n print s\n return s\nend function",
    );
    assert_eq!(r.ok(), Some(10));
    assert_eq!(out, "  . 10\n");
}

#[test]
fn function_call() {
    let (r, _) = run("function add a b as\n return + a b\nend function\nfunction main as\n return add 3 4\nend function");
    assert_eq!(r.ok(), Some(7));
}

#[test]
fn variable_shadows_function() {
    let text = "function f as\n return 1\nend function\nfunction main as\n let f = 2\n return f\nend function";
    assert_eq!(failure(text), "DuplicateToken(4, \"f\")");
}

#[test]
fn division_on_negatives() {
    assert_eq!(run("function main as\n return / -7 2\nend function").0.ok(), Some(-4));
    assert_eq!(run("function main as\n return % -7 2\nend function").0.ok(), Some(1));
    assert_eq!(run("function main as\n return / 5 0\nend function").0.ok(), Some(0));
    assert_eq!(run("function main as\n return % 5 0\nend function").0.ok(), Some(0));
}

#[test]
fn print_several_and_negative() {
    let (r, out) = run("function main as\n let a = - 0 5\n let b = 7\n print a b\n print\n return 0\nend function");
    assert_eq!(r.ok(), Some(0));
    assert_eq!(out, "  . -5 7\n  .\n");
}

#[test]
fn comparisons_and_logic() {
    // `!` is not a token character, so `!=` cannot be written
    assert_eq!(failure("function main as\n return != 3 3\nend function"), "IllegalChar(1, '!')");
    let text = "function main as\n let a = == 3 3\n let b = == 3 4\n let c = <= 2 3\n let d = >= 2 3\n let e = and 1 0\n let f = or 1 0\n let g = xor 1 1\n let h = not 0\n let i = > 4 1\n print a b c d e f g h i\n return 0\nend function";
    let (r, out) = run(text);
    assert_eq!(r.err().map(|e| e.debug()), None);
    assert_eq!(out, "  . 1 0 1 0 0 1 0 1 1\n");
}

#[test]
fn positive_values_wrap_at_48_bits() {
    // 2^47 * 2 = 2^48, whose low 48 bits are zero
    let text = "function main as\n let x = * 140737488355328 2\n let y = + 281474976710655 2\n print x y\n return 0\nend function";
    assert_eq!(run(text).1, "  . 0 1\n");
}

#[test]
fn negative_values_are_not_masked() {
    let text = "function main as\n let x = - 0 281474976710655\n let y = * x 2\n print y\n return 0\nend function";
    assert_eq!(run(text).1, "  . -562949953421310\n");
}

#[test]
fn recursion() {
    let text = "function fact n as\n let r = 1\n if > n 1 then\n  let r = * n fact - n 1\n end if\n return r\nend function\nfunction main as\n return fact 10\nend function";
    assert_eq!(run(text).0.ok(), Some(3628800));
}

#[test]
fn variable_before_function_in_expressions() {
    let text = "function g as\n return 5\nend function\nfunction main as\n let x = g\n return + x 1\nend function";
    assert_eq!(run(text).0.ok(), Some(6));
}

#[test]
fn scan_reads_input_lines() {
    let (r, out) = run_with("function main as\n let a = scan\n let b = scan\n return + a b\nend function", &["3", "-1"]);
    assert_eq!(r.ok(), Some(2));
    assert_eq!(out, "  >   > ");
}

#[test]
fn scan_without_input_reads_as_end() {
    let mut io = Io::new(vec![]);
    let r = execute_program(&source("function main as\n return scan\nend function"), &mut io, BUDGET);
    assert_eq!(r.err().unwrap().debug(), "InputError(1, \"\")");
    assert!(io.starved());
    assert_eq!(io.stop(), 4);
}

#[test]
fn scan_bad_input() {
    let (r, _) = run_with("function main as\n return scan\nend function", &["abc"]);
    assert_eq!(r.err().unwrap().debug(), "InputError(1, \"abc\")");
}

#[test]
fn comments_and_spaces_are_ignored() {
    let plain = run("function main as\n let x = + 1 2\n print x\n return x\nend function");
    let noisy = run("# header\nfunction   main as   # start\n   let  x =   + 1    2\n print x#show\n return x\nend function # done");
    assert_eq!(plain.0.ok(), noisy.0.ok());
    assert_eq!(plain.1, noisy.1);
}

#[test]
fn exit_code_low_bits() {
    assert_eq!(exit_code(42), 42);
    assert_eq!(exit_code(4294967297), 1);
    assert_eq!(exit_code(-1), -1);
    assert_eq!(exit_code(2147483648), -2147483648);
    let (r, _) = run("function main as\n return 4294967338\nend function");
    assert_eq!(exit_code(r.ok().unwrap()), 42);
}

#[test]
fn error_illegal_char() {
    assert_eq!(failure("function main as\n let x = 5$\n return x\nend function"), "IllegalChar(1, '$')");
}

#[test]
fn error_token_too_long() {
    let name = "a".repeat(64);
    let text = format!("function main as\n let {} = 1\n return 1\nend function", name);
    assert_eq!(failure(&text), "TokenTooLong(1, 64)");
}

#[test]
fn error_unknown_token() {
    assert_eq!(failure("function main as\n foo bar\nend function"), "UnknownToken(1, \"foo\")");
}

#[test]
fn error_malformed_statements() {
    assert_eq!(failure("function main as\n let x\nend function"), "MalformedAssign(1)");
    assert_eq!(failure("function main as\n if x\nend function"), "MalformedCond(1)");
    assert_eq!(failure("function main as\n while x\nend function"), "MalformedLoop(1)");
    assert_eq!(failure("function main as\n return\nend function"), "MalformedRet(1)");
    assert_eq!(failure("function main\nend function"), "MalformedFunc(0)");
    assert_eq!(failure("end if"), "MalformedEnd(0)");
}

#[test]
fn error_too_many_parameters() {
    let text = "function f a b c d e f g h i j k l m n o p q as\n return 1\nend function";
    assert_eq!(failure(text), "MalformedFunc(0)");
}

#[test]
fn error_reserved_parameter() {
    assert_eq!(failure("function f while as\n return 1\nend function"), "DuplicateToken(0, \"while\")");
}

#[test]
fn error_unclosed_block() {
    assert_eq!(failure("function main as\n return 1"), "UnclosedBlock");
}

#[test]
fn error_duplicate_function() {
    let text = "function f as\n return 1\nend function\nfunction f as\n return 2\nend function";
    assert_eq!(failure(text), "DuplicateToken(3, \"f\")");
}

#[test]
fn error_wild_statement() {
    assert_eq!(failure("let x = 1"), "WildStatement(0)");
}

#[test]
fn error_wild_function() {
    let text = "function main as\n function g as\n  return 1\n end function\n return 0\nend function";
    assert_eq!(failure(text), "WildFunction(1)");
}

#[test]
fn error_misplaced_return() {
    assert_eq!(failure("function main as\n print\nend function"), "MisplacedRet(0)");
    assert_eq!(failure("function main as\n return 1\n return 2\nend function"), "MisplacedRet(1)");
    assert_eq!(failure("function main as\nend function"), "MisplacedRet(0)");
}

#[test]
fn error_undeclared() {
    assert_eq!(failure("function f as\n return 1\nend function"), "UndeclaredToken(0, main)");
    assert_eq!(failure("function main as\n return y\nend function"), "UndeclaredToken(1, y)");
    assert_eq!(failure("function main as\n print y\n return 0\nend function"), "UndeclaredToken(1, y)");
}

#[test]
fn error_bad_expression() {
    assert_eq!(failure("function main as\n return 1 2\nend function"), "BadExpression(1)");
    assert_eq!(failure("function main as\n return + 1\nend function"), "BadExpression(1)");
}

#[test]
fn error_step_limit() {
    let mut io = Io::new(vec![]);
    let text = "function main as\n while 1 do\n end while\n return 0\nend function";
    let r = execute_program(&source(text), &mut io, 100);
    assert_eq!(r.err().unwrap().debug(), "StepLimit(1)");
}

#[test]
fn error_messages() {
    assert_eq!(Error::IllegalChar { line: 3, value: '$' }.format(), "unexpected character '$'");
    assert_eq!(Error::TokenTooLong { line: 3, value: 70 }.format(), "token length exceeded (70 of 63)");
    assert_eq!(Error::UnknownToken { line: 0, value: String::from("foo") }.format(), "unexpected statement token \"foo\"");
    assert_eq!(Error::UndeclaredToken { line: 0, value: String::from("y") }.format(), "token \"y\" undeclared");
    assert_eq!(Error::UnclosedBlock.format(), "code block unclosed");
    assert_eq!(Error::UnclosedBlock.line(), 0);
    assert_eq!(Error::MalformedEnd { line: 9 }.line(), 9);
}

#[test]
fn runtime_error_report() {
    let lines = source("function main as\n   return y   \nend function");
    let mut io = Io::new(vec![]);
    let e = execute_program(&lines, &mut io, BUDGET).err().unwrap();
    let text = format_runtime_err(Some("prog.nh"), &lines, &e, 1);
    assert_eq!(text, "prog.nh:2: error: token \"y\" undeclared\n                > return y\n");
    let text = format_runtime_err(None, &lines, &e, 0);
    assert_eq!(text, "stdin:1: error: token \"y\" undeclared\n              > return y\n");
}
