use nhotyp::{is_reserved_kw, parse_node, Repl, Io, Statement, Token, Variable};

const BUDGET: u64 = u64::MAX;

fn v(data: i128) -> Variable {
    Variable { data }
}

#[test]
fn remainder_and_quotient() {
    assert_eq!(v(-7).quotient(v(2)).data, -4);
    assert_eq!(v(-7).modulo(v(2)).data, 1);
    assert_eq!(v(5).quotient(v(0)).data, 0);
    assert_eq!(v(5).modulo(v(0)).data, 0);
    assert_eq!(v(7).modulo(v(-2)).data, 1);
    assert_eq!(v(7).quotient(v(-2)).data, 3);
    assert_eq!(v(-8).modulo(v(3)).data, 1);
    assert_eq!(v(-8).quotient(v(3)).data, -3);
}

#[test]
fn ceiling_applies_to_positive_results() {
    assert_eq!(Variable::from(0x1_0000_0000_0005).data, 5);
    assert_eq!(Variable::from(-0x1_0000_0000_0005).data, -0x1_0000_0000_0005);
    assert_eq!(v(0x8000_0000_0000).plus(v(0x8000_0000_0000)).data, 0);
    assert_eq!(v(-3).times(v(-5)).data, 15);
    assert_eq!(v(3).minus(v(5)).data, -2);
}

#[test]
fn tokens() {
    assert!(Token::from_var(0, "abc_d").is_ok());
    assert_eq!(Token::from_var(2, "ab1").err().unwrap().debug(), "IllegalChar(2, '1')");
    assert!(Token::from_any(0, "<=").is_ok());
    assert!(Token::from_any(0, "-12").is_ok());
    assert_eq!(Token::from_any(4, "a.b").err().unwrap().debug(), "IllegalChar(4, '.')");
    assert_eq!(Token::from_any(1, &"x".repeat(63)).ok().map(|t| t.value.len()), Some(63));
    assert_eq!(Token::from(&"x".repeat(64), 5, true).err().unwrap().debug(), "TokenTooLong(5, 64)");
    assert!(is_reserved_kw("scan"));
    assert!(is_reserved_kw("end"));
    assert!(!is_reserved_kw("main"));
}

#[test]
fn parse_function_shape() {
    let lines: Vec<String> = vec!["function f a b as".into(), " print a".into(), " return + a b".into(), "end function".into()];
    let (node, next) = parse_node(&lines, 0, "").ok().unwrap();
    assert_eq!(next, 4);
    assert_eq!(node.stmts.len(), 1);
    match &node.stmts[0] {
        Statement::Func { name, params, child, line } => {
            assert_eq!(name.value, "f");
            assert_eq!(params.len(), 2);
            assert_eq!(*line, 0);
            assert_eq!(child.stmts.len(), 2);
            assert_eq!(child.stmts[1].line(), 2);
            assert!(matches!(child.stmts[1], Statement::Ret { .. }));
        }
        _ => panic!("expected a function"),
    }
}

#[test]
fn nested_block_lines() {
    let lines: Vec<String> = vec!["function main as".into(), " if 1 then".into(), "  print".into(), " end if".into(), " return 0".into(), "end function".into()];
    let (node, _) = parse_node(&lines, 0, "").ok().unwrap();
    match &node.stmts[0] {
        Statement::Func { child, .. } => {
            assert_eq!(child.stmts[0].line(), 1);
            assert_eq!(child.stmts[1].line(), 4);
        }
        _ => panic!("expected a function"),
    }
}

fn feed(repl: &mut Repl, io: &mut Io, line: &str) -> Result<(), String> {
    repl.feed(line.to_string(), io, BUDGET).map_err(|e| e.debug())
}

#[test]
fn repl_multi_line() {
    let mut repl = Repl::new();
    let mut io = Io::new(vec![]);
    assert_eq!(repl.prompt(), ">>> ");
    assert_eq!(feed(&mut repl, &mut io, "function g as"), Err("UnclosedBlock".to_string()));
    assert_eq!(repl.prompt(), "... ");
    assert_eq!(feed(&mut repl, &mut io, "return 1"), Err("UnclosedBlock".to_string()));
    assert_eq!(repl.prompt(), "... ");
    assert_eq!(feed(&mut repl, &mut io, "end function"), Ok(()));
    assert_eq!(repl.prompt(), ">>> ");
    assert_eq!(feed(&mut repl, &mut io, "print g"), Err("UndeclaredToken(4, g)".to_string()));
    assert_eq!(io.output(), "stdin:4: error: token \"g\" undeclared\n              > print g\n");
    assert_eq!(feed(&mut repl, &mut io, "let x = g"), Ok(()));
    assert_eq!(feed(&mut repl, &mut io, "print x"), Ok(()));
    assert!(io.output().ends_with("  . 1\n"));
}

#[test]
fn repl_shadowing_leaves_no_trace() {
    let mut repl = Repl::new();
    let mut io = Io::new(vec![]);
    assert_eq!(feed(&mut repl, &mut io, "function f as"), Err("UnclosedBlock".to_string()));
    assert_eq!(feed(&mut repl, &mut io, "return 1"), Err("UnclosedBlock".to_string()));
    assert_eq!(feed(&mut repl, &mut io, "end function"), Ok(()));
    let lines_before = repl.lines.len();
    let stmts_before = repl.main_stmts.len();
    assert_eq!(feed(&mut repl, &mut io, "let f = 2"), Err("DuplicateToken(4, \"f\")".to_string()));
    assert_eq!(repl.lines.len(), lines_before);
    assert_eq!(repl.main_stmts.len(), stmts_before);
    assert_eq!(repl.prompt(), ">>> ");
    assert_eq!(feed(&mut repl, &mut io, "let y = f"), Ok(()));
    assert_eq!(feed(&mut repl, &mut io, "print y"), Ok(()));
    assert!(io.output().ends_with("  . 1\n"));
}

#[test]
fn repl_failed_line_is_rolled_back() {
    let mut repl = Repl::new();
    let mut io = Io::new(vec![]);
    assert_eq!(feed(&mut repl, &mut io, "let a = 1"), Ok(()));
    // a definition followed by a failing statement: neither stays
    assert_eq!(feed(&mut repl, &mut io, "bogus"), Err("UnknownToken(2, \"bogus\")".to_string()));
    assert_eq!(feed(&mut repl, &mut io, "let a = + a 1"), Ok(()));
    assert_eq!(feed(&mut repl, &mut io, "let b = / 1 0"), Ok(()));
    assert_eq!(feed(&mut repl, &mut io, "print a b"), Ok(()));
    assert!(io.output().ends_with("  . 2 0\n"));
    assert_eq!(repl.prog.names.len(), 0);
}

#[test]
fn repl_return_at_top_is_wild() {
    let mut repl = Repl::new();
    let mut io = Io::new(vec![]);
    assert_eq!(feed(&mut repl, &mut io, "return 1"), Err("WildStatement(1)".to_string()));
    assert_eq!(repl.lines.len(), 1);
}

#[test]
fn repl_runtime_failure_keeps_scope() {
    let mut repl = Repl::new();
    let mut io = Io::new(vec![]);
    assert_eq!(feed(&mut repl, &mut io, "let a = 5"), Ok(()));
    assert_eq!(feed(&mut repl, &mut io, "let a = + a missing"), Err("UndeclaredToken(2, missing)".to_string()));
    assert_eq!(feed(&mut repl, &mut io, "print a"), Ok(()));
    assert!(io.output().ends_with("  . 5\n"));
}

#[test]
fn describe_syntax_tree() {
    let lines: Vec<String> = vec![
        "function f a b as".into(),
        " let x = + a b".into(),
        " while < x 3 do".into(),
        "  print x".into(),
        " end while".into(),
        " return x".into(),
        "end function".into(),
    ];
    let (node, _) = parse_node(&lines, 0, "").ok().unwrap();
    assert_eq!(
        node.describe(),
        "[def(f -> [a, b] => [let(x <- [+, a, b] @ 1), while([<, x, 3] => [print([x] @ 3)] @ 2), ret([x] @ 5)] @ 0)]"
    );
    assert_eq!(node.stmts[0].describe().len() + 2, node.describe().len());
}
