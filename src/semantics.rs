//! The meaning of programs: expression values, statement effects and calls.
//!
//! Every evaluation carries a budget `d`: each nesting level (operand, call,
//! statement, loop round) takes one unit, and a run that uses it up fails
//! with `StepLimit`. With a large budget this stands where an unbounded
//! machine would run out of stack or time.
use vstd::prelude::*;
use crate::error::ErrorView;
use crate::numeral::int_literal;
use crate::runtime::{Funcs, IoView, Vars};
use crate::syntax::Stmt;
use crate::text::decimal;
use crate::token::{reserved, token_result};
use crate::value::{ceiling, div_value, rem_value};

verus! {

/// The number of operands of a built-in operator; `None` for any other token.
pub open spec fn builtin_arity(op: Seq<char>) -> Option<nat> {
    if op == "scan"@ {
        Some(0)
    } else if op == "+"@ || op == "-"@ || op == "*"@ || op == "%"@ || op == "/"@ || op == "=="@
        || op == "<"@ || op == ">"@ || op == "<="@ || op == ">="@ || op == "!="@ || op == "and"@
        || op == "or"@ || op == "xor"@ {
        Some(2)
    } else if op == "not"@ {
        Some(1)
    } else {
        None
    }
}

/// `1` for true, `0` for false.
pub open spec fn truth(b: bool) -> i128 {
    if b {
        1
    } else {
        0
    }
}

/// The value of an operator of one or two operands (`b` is unused by `not`).
pub open spec fn apply_op(op: Seq<char>, a: i128, b: i128) -> i128 {
    if op == "+"@ {
        ceiling(a.wrapping_add(b) as int) as i128
    } else if op == "-"@ {
        ceiling(a.wrapping_sub(b) as int) as i128
    } else if op == "*"@ {
        ceiling(a.wrapping_mul(b) as int) as i128
    } else if op == "%"@ {
        rem_value(a, b) as i128
    } else if op == "/"@ {
        div_value(a, b) as i128
    } else if op == "=="@ {
        truth(a == b)
    } else if op == "<"@ {
        truth(a < b)
    } else if op == ">"@ {
        truth(a > b)
    } else if op == "<="@ {
        truth(a <= b)
    } else if op == ">="@ {
        truth(a >= b)
    } else if op == "!="@ {
        truth(a != b)
    } else if op == "and"@ {
        truth(a != 0 && b != 0)
    } else if op == "or"@ {
        truth(a != 0 || b != 0)
    } else if op == "xor"@ {
        truth((a != 0) != (b != 0))
    } else {
        truth(a == 0)
    }
}

/// The console with `extra` written.
pub open spec fn written(io: IoView, extra: Seq<char>) -> IoView {
    IoView { input: io.input, consumed: io.consumed, output: io.output + extra, starved: io.starved, stop: io.stop }
}

/// `scan`: writes the prompt, then reads the next input line as an integer.
/// With no line left it reads an empty line, marks the console starved and
/// records the length of the output.
pub open spec fn scan_line(io: IoView, line: usize) -> (Result<i128, ErrorView>, IoView) {
    let io1 = written(io, "  > "@);
    if io.consumed < io.input.len() {
        let s = io.input[io.consumed as int];
        let io2 = IoView {
            input: io1.input,
            consumed: io1.consumed + 1,
            output: io1.output,
            starved: io1.starved,
            stop: io1.stop,
        };
        match int_literal(s) {
            Some(v) => (Ok(ceiling(v) as i128), io2),
            None => (Err(ErrorView::InputError { line, value: s }), io2),
        }
    } else {
        let io2 = IoView {
            input: io1.input,
            consumed: io1.consumed,
            output: io1.output,
            starved: true,
            stop: io1.output.len(),
        };
        (Err(ErrorView::InputError { line, value: Seq::empty() }), io2)
    }
}

/// The text `print` writes after its `  .` prefix: a space and the value of
/// each name; or the first name not in scope.
pub open spec fn print_items(vars: Vars, names: Seq<Seq<char>>) -> Result<Seq<char>, Seq<char>>
    decreases names.len(),
{
    if names.len() == 0 {
        Ok(Seq::empty())
    } else {
        match print_items(vars, names.drop_last()) {
            Err(n) => Err(n),
            Ok(t) => if vars.contains_key(names.last()) {
                Ok(t + " "@ + decimal(vars[names.last()] as int))
            } else {
                Err(names.last())
            },
        }
    }
}

/// The effect of `print` with `names` on line `line`.
pub open spec fn print_result(vars: Vars, io: IoView, names: Seq<Seq<char>>, line: usize) -> (Result<(), ErrorView>, IoView) {
    match print_items(vars, names) {
        Err(n) => (Err(ErrorView::UndeclaredToken { line, value: n }), io),
        Ok(t) => (Ok(()), written(io, "  ."@ + t + "\n"@)),
    }
}

/// The scope of a new call: each parameter bound to its argument, from the
/// `i`-th on; a parameter named like a function is refused.
pub open spec fn bind_params(p: Funcs, params: Seq<Seq<char>>, args: Seq<i128>, i: int, vars: Vars, fline: usize) -> Result<Vars, ErrorView>
    decreases args.len() - i,
{
    if i < 0 || i >= args.len() || i >= params.len() {
        Ok(vars)
    } else if p.contains_key(params[i]) {
        Err(ErrorView::DuplicateToken { line: fline, value: params[i] })
    } else {
        bind_params(p, params, args, i + 1, vars.insert(params[i], args[i]), fline)
    }
}

/// Evaluates the sub-expression that starts at token `pos`: its value and the
/// index of its last token.
pub open spec fn sem_eval(p: Funcs, vars: Vars, io: IoView, toks: Seq<Seq<char>>, pos: int, line: usize, d: nat)
    -> (Result<(i128, int), ErrorView>, IoView)
    decreases d, 0int, 0int,
{
    if d == 0 {
        (Err(ErrorView::StepLimit { line }), io)
    } else if pos < 0 || pos >= toks.len() {
        (Err(ErrorView::BadExpression { line }), io)
    } else {
        let op = toks[pos];
        match builtin_arity(op) {
            Some(n) => match sem_args(p, vars, io, toks, pos, n, line, (d - 1) as nat) {
                (Err(e), io1) => (Err(e), io1),
                (Ok((args, q)), io1) => if n == 0 {
                    match scan_line(io1, line) {
                        (Ok(v), io2) => (Ok((v, q)), io2),
                        (Err(e), io2) => (Err(e), io2),
                    }
                } else {
                    (Ok((apply_op(op, args[0], if n == 2 { args[1] } else { 0 }), q)), io1)
                },
            },
            None => match int_literal(op) {
                Some(v) => (Ok((ceiling(v) as i128, pos)), io),
                None => match token_result(op, line, false) {
                    Err(e) => (Err(e), io),
                    Ok(_) => if vars.contains_key(op) {
                        (Ok((vars[op], pos)), io)
                    } else if p.contains_key(op) {
                        match sem_args(p, vars, io, toks, pos, p[op].params.len(), line, (d - 1) as nat) {
                            (Err(e), io1) => (Err(e), io1),
                            (Ok((args, q)), io1) => match sem_call(p, op, args, io1, line, (d - 1) as nat) {
                                (Ok(v), io2) => (Ok((v, q)), io2),
                                (Err(e), io2) => (Err(e), io2),
                            },
                        }
                    } else {
                        (Err(ErrorView::UndeclaredToken { line, value: op }), io)
                    },
                },
            },
        }
    }
}

/// Evaluates `n` operands one after another, the first starting after token `pos`.
pub open spec fn sem_args(p: Funcs, vars: Vars, io: IoView, toks: Seq<Seq<char>>, pos: int, n: nat, line: usize, d: nat)
    -> (Result<(Seq<i128>, int), ErrorView>, IoView)
    decreases d, 1int, n,
{
    if n == 0 {
        (Ok((Seq::empty(), pos)), io)
    } else {
        match sem_eval(p, vars, io, toks, pos + 1, line, d) {
            (Err(e), io1) => (Err(e), io1),
            (Ok((v, q)), io1) => match sem_args(p, vars, io1, toks, q, (n - 1) as nat, line, d) {
                (Err(e), io2) => (Err(e), io2),
                (Ok((vs, r)), io2) => (Ok((seq![v] + vs, r)), io2),
            },
        }
    }
}

/// Evaluates a whole expression; tokens left over are an error.
pub open spec fn sem_expr(p: Funcs, vars: Vars, io: IoView, toks: Seq<Seq<char>>, line: usize, d: nat)
    -> (Result<i128, ErrorView>, IoView)
    decreases d, 2int, 0int,
{
    match sem_eval(p, vars, io, toks, 0, line, d) {
        (Err(e), io1) => (Err(e), io1),
        (Ok((v, q)), io1) => if q + 1 < toks.len() {
            (Err(ErrorView::BadExpression { line }), io1)
        } else {
            (Ok(v), io1)
        },
    }
}

/// Calls function `name` with `args` from line `line`.
pub open spec fn sem_call(p: Funcs, name: Seq<char>, args: Seq<i128>, io: IoView, line: usize, d: nat)
    -> (Result<i128, ErrorView>, IoView)
    decreases d, 0int, 0int,
{
    if d == 0 {
        (Err(ErrorView::StepLimit { line }), io)
    } else if !p.contains_key(name) {
        (Err(ErrorView::UndeclaredToken { line, value: name }), io)
    } else {
        let f = p[name];
        match bind_params(p, f.params, args, 0, Map::empty(), f.line) {
            Err(e) => (Err(e), io),
            Ok(vars) => if f.body.len() < 1 {
                (Err(ErrorView::MisplacedRet { line: f.line }), io)
            } else {
                match sem_block(p, vars, io, f.body, 0, f.body.len() - 1, (d - 1) as nat) {
                    (Err(e), _, io1) => (Err(e), io1),
                    (Ok(()), vars1, io1) => match f.body.last() {
                        Stmt::Ret { expr, line: rl } => sem_expr(p, vars1, io1, expr, rl, (d - 1) as nat),
                        _ => (Err(ErrorView::MisplacedRet { line: f.line }), io1),
                    },
                }
            },
        }
    }
}

/// Executes one statement.
pub open spec fn sem_stmt(p: Funcs, vars: Vars, io: IoView, s: Stmt, d: nat) -> (Result<(), ErrorView>, Vars, IoView)
    decreases d, 0int, 0int,
{
    if d == 0 {
        (Err(ErrorView::StepLimit { line: s.line_of() }), vars, io)
    } else {
        match s {
            Stmt::Assign { var, expr, line } => if reserved(var) || p.contains_key(var) {
                (Err(ErrorView::DuplicateToken { line, value: var }), vars, io)
            } else {
                match sem_expr(p, vars, io, expr, line, (d - 1) as nat) {
                    (Err(e), io1) => (Err(e), vars, io1),
                    (Ok(v), io1) => (Ok(()), vars.insert(var, v), io1),
                }
            },
            Stmt::Cond { expr, body, line } => match sem_expr(p, vars, io, expr, line, (d - 1) as nat) {
                (Err(e), io1) => (Err(e), vars, io1),
                (Ok(v), io1) => if v != 0 {
                    sem_block(p, vars, io1, body, 0, body.len() as int, (d - 1) as nat)
                } else {
                    (Ok(()), vars, io1)
                },
            },
            Stmt::Loop { expr, body, line } => sem_loop(p, vars, io, expr, body, line, (d - 1) as nat),
            Stmt::Print { vars: names, line } => {
                let (r, io1) = print_result(vars, io, names, line);
                (r, vars, io1)
            },
            Stmt::Ret { line, .. } => (Err(ErrorView::MisplacedRet { line }), vars, io),
            Stmt::Func { line, .. } => (Err(ErrorView::WildFunction { line }), vars, io),
        }
    }
}

/// Executes `body[i..end]` in order, stopping at the first failure.
pub open spec fn sem_block(p: Funcs, vars: Vars, io: IoView, body: Seq<Stmt>, i: int, end: int, d: nat)
    -> (Result<(), ErrorView>, Vars, IoView)
    decreases d, 1int, end - i,
{
    if i < 0 || i >= end {
        (Ok(()), vars, io)
    } else {
        match sem_stmt(p, vars, io, body[i], d) {
            (Err(e), v1, io1) => (Err(e), v1, io1),
            (Ok(()), v1, io1) => sem_block(p, v1, io1, body, i + 1, end, d),
        }
    }
}

/// Runs a `while` loop: while the condition is not zero, the body.
pub open spec fn sem_loop(p: Funcs, vars: Vars, io: IoView, cond: Seq<Seq<char>>, body: Seq<Stmt>, line: usize, d: nat)
    -> (Result<(), ErrorView>, Vars, IoView)
    decreases d, 3int, 0int,
{
    if d == 0 {
        (Err(ErrorView::StepLimit { line }), vars, io)
    } else {
        match sem_expr(p, vars, io, cond, line, (d - 1) as nat) {
            (Err(e), io1) => (Err(e), vars, io1),
            (Ok(v), io1) => if v == 0 {
                (Ok(()), vars, io1)
            } else {
                match sem_block(p, vars, io1, body, 0, body.len() as int, (d - 1) as nat) {
                    (Err(e), v2, io2) => (Err(e), v2, io2),
                    (Ok(()), v2, io2) => sem_loop(p, v2, io2, cond, body, line, (d - 1) as nat),
                }
            },
        }
    }
}

} // verus!
