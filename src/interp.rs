//! The evaluator and executor, proved to follow the semantics.
use vstd::prelude::*;
use crate::error::{Error, ErrorView};
use crate::numeral::parse_int;
use crate::runtime::{Io, Program, Scope};
use crate::semantics::{apply_op, builtin_arity, bind_params, print_items, print_result, scan_line, sem_args, sem_block, sem_call, sem_eval, sem_expr, sem_loop, sem_stmt, truth};
use crate::syntax::{Expr, Node, Statement, token_texts};
use crate::parser::stmts_view;
use crate::text::decimal_string;
use crate::token::{Token, is_reserved_kw, same_text};
use crate::value::Variable;

verus! {

broadcast use vstd::std_specs::vec::group_vec_axioms;

/// The mathematical form of an executable outcome (and likewise below).
pub open spec fn value_outcome(r: Result<Variable, Error>) -> Result<i128, ErrorView> {
    match r {
        Ok(v) => Ok(v.data),
        Err(e) => Err(e@),
    }
}

pub open spec fn eval_outcome(r: Result<(Variable, usize), Error>) -> Result<(i128, int), ErrorView> {
    match r {
        Ok((v, q)) => Ok((v.data, q as int)),
        Err(e) => Err(e@),
    }
}

pub open spec fn values_view(v: Seq<Variable>) -> Seq<i128> {
    v.map_values(|x: Variable| x.data)
}

pub open spec fn args_outcome(r: Result<(Vec<Variable>, usize), Error>) -> Result<(Seq<i128>, int), ErrorView> {
    match r {
        Ok((v, q)) => Ok((values_view(v@), q as int)),
        Err(e) => Err(e@),
    }
}

pub open spec fn unit_outcome(r: Result<(), Error>) -> Result<(), ErrorView> {
    match r {
        Ok(()) => Ok(()),
        Err(e) => Err(e@),
    }
}

/// The number of operands of `op` when it is a built-in operator.
fn builtin_arity_of(op: &str) -> (r: Option<usize>)
    ensures
        match builtin_arity(op@) {
            Some(n) => r == Some(n as usize),
            None => r is None,
        },
{
    if same_text(op, "scan") {
        Some(0)
    } else if same_text(op, "+") || same_text(op, "-") || same_text(op, "*") || same_text(op, "%")
        || same_text(op, "/") || same_text(op, "==") || same_text(op, "<") || same_text(op, ">")
        || same_text(op, "<=") || same_text(op, ">=") || same_text(op, "!=") || same_text(op, "and")
        || same_text(op, "or") || same_text(op, "xor") {
        Some(2)
    } else if same_text(op, "not") {
        Some(1)
    } else {
        None
    }
}

/// The value of operator `op` on `a` and `b`.
fn apply(op: &str, a: Variable, b: Variable) -> (r: Variable)
    ensures
        r.data == apply_op(op@, a.data, b.data),
{
    let t = |c: bool| -> (r: Variable)
        ensures
            r.data == truth(c),
        { if c { Variable { data: 1 } } else { Variable { data: 0 } } };
    if same_text(op, "+") {
        a.plus(b)
    } else if same_text(op, "-") {
        a.minus(b)
    } else if same_text(op, "*") {
        a.times(b)
    } else if same_text(op, "%") {
        a.modulo(b)
    } else if same_text(op, "/") {
        a.quotient(b)
    } else if same_text(op, "==") {
        t(a.data == b.data)
    } else if same_text(op, "<") {
        t(a.data < b.data)
    } else if same_text(op, ">") {
        t(a.data > b.data)
    } else if same_text(op, "<=") {
        t(a.data <= b.data)
    } else if same_text(op, ">=") {
        t(a.data >= b.data)
    } else if same_text(op, "!=") {
        t(a.data != b.data)
    } else if same_text(op, "and") {
        t(a.data != 0 && b.data != 0)
    } else if same_text(op, "or") {
        t(a.data != 0 || b.data != 0)
    } else if same_text(op, "xor") {
        t((a.data != 0) != (b.data != 0))
    } else {
        t(a.data == 0)
    }
}

/// `scan`: prompts, then reads the next input line as an integer.
fn scan(io: &mut Io, line: usize) -> (r: Result<Variable, Error>)
    requires
        old(io).wf(),
    ensures
        final(io).wf(),
        (value_outcome(r), final(io)@) == scan_line(old(io)@, line),
{
    io.output.append("  > ");
    if io.consumed < io.input.len() {
        let i = io.consumed;
        io.consumed = i + 1;
        match parse_int(io.input[i].as_str()) {
            Some(v) => Ok(Variable::from(v)),
            None => Err(Error::InputError { line, value: io.input[i].clone() }),
        }
    } else {
        io.starved = true;
        io.stop = io.output.as_str().unicode_len();
        Err(Error::InputError { line, value: String::new() })
    }
}

/// `print`: writes the values of `vars` on one line.
fn print_vars(scope: &Scope, io: &mut Io, vars: &Vec<Token>, line: usize) -> (r: Result<(), Error>)
    requires
        scope.wf(),
        old(io).wf(),
    ensures
        final(io).wf(),
        (unit_outcome(r), final(io)@) == print_result(scope@, old(io)@, token_texts(vars@), line),
{
    let ghost names = token_texts(vars@);
    let mut text = String::new();
    let mut i: usize = 0;
    while i < vars.len()
        invariant
            i <= vars@.len(),
            names == token_texts(vars@),
            print_items(scope@, names.subrange(0, i as int)) == Ok::<Seq<char>, Seq<char>>(text@),
            scope.wf(),
            io@ == old(io)@,
            io.wf(),
        decreases vars@.len() - i,
    {
        let name = vars[i].value.as_str();
        proof {
            assert(names.subrange(0, i + 1).drop_last() =~= names.subrange(0, i as int));
            assert(names.subrange(0, i + 1).last() == name@);
        }
        match scope.get(name) {
            Some(v) => {
                text.append(" ");
                text.append(decimal_string(v).as_str());
            },
            None => {
                proof {
                    lemma_print_prefix_error(scope@, names, i as int + 1);
                }
                return Err(Error::UndeclaredToken { line, value: String::from_str(name) });
            },
        }
        i = i + 1;
    }
    proof {
        assert(names.subrange(0, i as int) =~= names);
    }
    let ghost before = io.output@;
    io.output.append("  .");
    io.output.append(text.as_str());
    io.output.append("\n");
    proof {
        assert(io.output@ =~= before + ("  ."@ + text@ + "\n"@));
    }
    Ok(())
}

/// A name missing from a prefix is the first failure of the whole list.
proof fn lemma_print_prefix_error(vars: crate::runtime::Vars, names: Seq<Seq<char>>, k: int)
    requires
        0 < k <= names.len(),
        print_items(vars, names.subrange(0, k)) is Err,
    ensures
        print_items(vars, names) == print_items(vars, names.subrange(0, k)),
    decreases names.len() - k,
{
    if k < names.len() {
        let t = names.subrange(0, k + 1);
        assert(t.drop_last() =~= names.subrange(0, k));
        lemma_print_prefix_error(vars, names, k + 1);
    } else {
        assert(names.subrange(0, k) =~= names);
    }
}

/// Evaluates the `n` operands that follow token `ptr`.
fn eval_args(prog: &Program, scope: &Scope, io: &mut Io, expr: &Expr, ptr: usize, n: usize, line: usize, depth: u64)
    -> (r: Result<(Vec<Variable>, usize), Error>)
    requires
        prog.wf(),
        scope.wf(),
        old(io).wf(),
        ptr < expr.tokens@.len(),
    ensures
        final(io).wf(),
        (args_outcome(r), final(io)@) == sem_args(prog@, scope@, old(io)@, expr@, ptr as int, n as nat, line, depth as nat),
        r is Ok ==> ptr <= r->Ok_0.1 < expr.tokens@.len() && r->Ok_0.0@.len() == n,
    decreases depth, 1int, n,
{
    if n == 0 {
        let out: Vec<Variable> = Vec::new();
        proof {
            assert(values_view(out@) =~= Seq::<i128>::empty());
        }
        return Ok((out, ptr));
    }
    let _ = expr.tokens.len();
    match eval_expr_func(prog, scope, io, expr, ptr + 1, line, depth) {
        Err(e) => Err(e),
        Ok((v, q)) => match eval_args(prog, scope, io, expr, q, n - 1, line, depth) {
            Err(e) => Err(e),
            Ok((vs, r)) => {
                let mut out = vs;
                out.insert(0, v);
                proof {
                    assert(values_view(out@) =~= seq![v.data] + values_view(vs@));
                }
                Ok((out, r))
            },
        },
    }
}

/// Evaluates the sub-expression that starts at token `ptr`: its value and
/// the index of its last token.
fn eval_expr_func(prog: &Program, scope: &Scope, io: &mut Io, expr: &Expr, ptr: usize, line: usize, depth: u64)
    -> (r: Result<(Variable, usize), Error>)
    requires
        prog.wf(),
        scope.wf(),
        old(io).wf(),
        ptr <= expr.tokens@.len(),
    ensures
        final(io).wf(),
        (eval_outcome(r), final(io)@) == sem_eval(prog@, scope@, old(io)@, expr@, ptr as int, line, depth as nat),
        r is Ok ==> ptr <= r->Ok_0.1 < expr.tokens@.len(),
    decreases depth, 0int, 0int,
{
    if depth == 0 {
        return Err(Error::StepLimit { line });
    }
    if ptr >= expr.tokens.len() {
        return Err(Error::BadExpression { line });
    }
    let op = expr.tokens[ptr].value.as_str();
    proof {
        assert(expr@[ptr as int] == op@);
    }
    match builtin_arity_of(op) {
        Some(n) => {
            let (args, q) = match eval_args(prog, scope, io, expr, ptr, n, line, depth - 1) {
                Ok(x) => x,
                Err(e) => return Err(e),
            };
            if n == 0 {
                match scan(io, line) {
                    Ok(v) => Ok((v, q)),
                    Err(e) => Err(e),
                }
            } else {
                let b = if n == 2 { args[1] } else { Variable { data: 0 } };
                Ok((apply(op, args[0], b), q))
            }
        },
        None => {
            match parse_int(op) {
                Some(v) => return Ok((Variable::from(v), ptr)),
                None => {},
            }
            match Token::from_var(line, op) {
                Err(e) => return Err(e),
                Ok(_) => {},
            }
            match scope.get(op) {
                Some(v) => return Ok((Variable { data: v }, ptr)),
                None => {},
            }
            match prog.lookup(op) {
                Some(f) => {
                    let n = f.params.len();
                    proof {
                        assert(token_texts(f.params@).len() == n);
                    }
                    let (args, q) = match eval_args(prog, scope, io, expr, ptr, n, line, depth - 1) {
                        Ok(x) => x,
                        Err(e) => return Err(e),
                    };
                    match call_function(prog, op, args, io, line, depth - 1) {
                        Ok(v) => Ok((v, q)),
                        Err(e) => Err(e),
                    }
                },
                None => Err(Error::UndeclaredToken { line, value: String::from_str(op) }),
            }
        },
    }
}

/// Evaluates a whole expression of line `from_line`; tokens left over are an error.
pub fn eval_expr(prog: &Program, scope: &Scope, io: &mut Io, expr: &Expr, from_line: usize, depth: u64)
    -> (r: Result<Variable, Error>)
    requires
        prog.wf(),
        scope.wf(),
        old(io).wf(),
    ensures
        final(io).wf(),
        (value_outcome(r), final(io)@) == sem_expr(prog@, scope@, old(io)@, expr@, from_line, depth as nat),
    decreases depth, 2int, 0int,
{
    let (res, ptr) = match eval_expr_func(prog, scope, io, expr, 0, from_line, depth) {
        Ok(x) => x,
        Err(e) => return Err(e),
    };
    let len = expr.tokens.len();
    if ptr + 1 < len {
        return Err(Error::BadExpression { line: from_line });
    }
    Ok(res)
}

/// Calls the function named `token` with the values `params`, from line `from_line`.
pub fn call_function(prog: &Program, token: &str, params: Vec<Variable>, io: &mut Io, from_line: usize, depth: u64)
    -> (r: Result<Variable, Error>)
    requires
        prog.wf(),
        old(io).wf(),
    ensures
        final(io).wf(),
        (value_outcome(r), final(io)@) == sem_call(prog@, token@, values_view(params@), old(io)@, from_line, depth as nat),
    decreases depth, 0int, 0int,
{
    if depth == 0 {
        return Err(Error::StepLimit { line: from_line });
    }
    let func = match prog.lookup(token) {
        Some(f) => f,
        None => return Err(Error::UndeclaredToken { line: from_line, value: String::from_str(token) }),
    };
    let ghost fv = func@;
    let ghost args = values_view(params@);
    // bind the parameters in a fresh scope
    let mut scope = Scope::new();
    let mut i: usize = 0;
    while i < params.len() && i < func.params.len()
        invariant
            prog.wf(),
            scope.wf(),
            i <= params@.len(),
            fv == func@,
            prog@.contains_key(token@) && prog@[token@] == fv,
            depth > 0,
            args == values_view(params@),
            io@ == old(io)@,
            io.wf(),
            bind_params(prog@, fv.params, args, 0, Map::empty(), fv.line)
                == bind_params(prog@, fv.params, args, i as int, scope@, fv.line),
        decreases params@.len() - i,
    {
        let key = func.params[i].value.as_str();
        proof {
            assert(fv.params[i as int] == key@);
            assert(args.len() == params@.len());
            assert(fv.params.len() == func.params@.len());
        }
        if prog.contains(key) {
            return Err(Error::DuplicateToken { line: func.line, value: String::from_str(key) });
        }
        scope.set(key, params[i].data);
        i = i + 1;
    }
    let stmts = &func.root.stmts;
    proof {
        assert(fv.body =~= stmts_view(stmts@));
    }
    if stmts.len() < 1 {
        return Err(Error::MisplacedRet { line: func.line });
    }
    let last = stmts.len() - 1;
    match exec_range(prog, &mut scope, io, stmts, 0, last, depth - 1) {
        Ok(()) => {},
        Err(e) => return Err(e),
    }
    match &stmts[last] {
        Statement::Ret { expr, line } => eval_expr(prog, &scope, io, expr, *line, depth - 1),
        _ => Err(Error::MisplacedRet { line: func.line }),
    }
}

/// Executes one statement.
fn exec_statement(prog: &Program, scope: &mut Scope, io: &mut Io, stmt: &Statement, depth: u64) -> (r: Result<(), Error>)
    requires
        prog.wf(),
        old(scope).wf(),
        old(io).wf(),
    ensures
        final(scope).wf(),
        final(io).wf(),
        (unit_outcome(r), final(scope)@, final(io)@) == sem_stmt(prog@, old(scope)@, old(io)@, stmt.view(), depth as nat),
    decreases depth, 0int, 0int,
{
    if depth == 0 {
        return Err(Error::StepLimit { line: stmt.line() });
    }
    match stmt {
        Statement::Assign { var, expr, line } => {
            let name = var.value.as_str();
            if is_reserved_kw(name) || prog.contains(name) {
                return Err(Error::DuplicateToken { line: *line, value: var.value.clone() });
            }
            let v = match eval_expr(prog, scope, io, expr, *line, depth - 1) {
                Ok(v) => v,
                Err(e) => return Err(e),
            };
            scope.set(name, v.data);
            Ok(())
        },
        Statement::Cond { expr, child, line } => {
            let c = match eval_expr(prog, scope, io, expr, *line, depth - 1) {
                Ok(v) => v,
                Err(e) => return Err(e),
            };
            if c.data != 0 {
                exec_node(prog, scope, io, child, depth - 1)
            } else {
                Ok(())
            }
        },
        Statement::Loop { expr, child, line } => exec_loop(prog, scope, io, expr, child, *line, depth - 1),
        Statement::Print { vars, line } => print_vars(scope, io, vars, *line),
        Statement::Ret { line, .. } => Err(Error::MisplacedRet { line: *line }),
        Statement::Func { line, .. } => Err(Error::WildFunction { line: *line }),
    }
}

/// Executes `stmts[start..end]` in order, stopping at the first failure.
pub(crate) fn exec_range(prog: &Program, scope: &mut Scope, io: &mut Io, stmts: &Vec<Statement>, start: usize, end: usize, depth: u64)
    -> (r: Result<(), Error>)
    requires
        prog.wf(),
        old(scope).wf(),
        old(io).wf(),
        start <= end <= stmts@.len(),
    ensures
        final(scope).wf(),
        final(io).wf(),
        (unit_outcome(r), final(scope)@, final(io)@) == sem_block(prog@, old(scope)@, old(io)@, stmts_view(stmts@), start as int, end as int, depth as nat),
    decreases depth, 1int, 0int,
{
    let ghost body = stmts_view(stmts@);
    let mut i = start;
    while i < end
        invariant
            start <= i <= end <= stmts@.len(),
            prog.wf(),
            scope.wf(),
            io.wf(),
            body == stmts_view(stmts@),
            sem_block(prog@, old(scope)@, old(io)@, body, start as int, end as int, depth as nat)
                == sem_block(prog@, scope@, io@, body, i as int, end as int, depth as nat),
        decreases end - i,
    {
        match exec_statement(prog, scope, io, &stmts[i], depth) {
            Ok(()) => {},
            Err(e) => return Err(e),
        }
        i = i + 1;
    }
    Ok(())
}

/// Executes a block.
pub fn exec_node(prog: &Program, scope: &mut Scope, io: &mut Io, node: &Node, depth: u64) -> (r: Result<(), Error>)
    requires
        prog.wf(),
        old(scope).wf(),
        old(io).wf(),
    ensures
        final(scope).wf(),
        final(io).wf(),
        (unit_outcome(r), final(scope)@, final(io)@) == sem_block(prog@, old(scope)@, old(io)@, node.view(), 0, node.view().len() as int, depth as nat),
    decreases depth, 2int, 0int,
{
    proof {
        assert(node.view() =~= stmts_view(node.stmts@));
    }
    exec_range(prog, scope, io, &node.stmts, 0, node.stmts.len(), depth)
}

/// Runs a `while` loop of line `line`.
fn exec_loop(prog: &Program, scope: &mut Scope, io: &mut Io, expr: &Expr, child: &Node, line: usize, depth: u64)
    -> (r: Result<(), Error>)
    requires
        prog.wf(),
        old(scope).wf(),
        old(io).wf(),
    ensures
        final(scope).wf(),
        final(io).wf(),
        (unit_outcome(r), final(scope)@, final(io)@) == sem_loop(prog@, old(scope)@, old(io)@, expr@, child.view(), line, depth as nat),
    decreases depth, 3int, 0int,
{
    let mut d = depth;
    loop
        invariant
            d <= depth,
            prog.wf(),
            scope.wf(),
            io.wf(),
            sem_loop(prog@, old(scope)@, old(io)@, expr@, child.view(), line, depth as nat)
                == sem_loop(prog@, scope@, io@, expr@, child.view(), line, d as nat),
        decreases d,
    {
        if d == 0 {
            return Err(Error::StepLimit { line });
        }
        let c = match eval_expr(prog, scope, io, expr, line, d - 1) {
            Ok(v) => v,
            Err(e) => return Err(e),
        };
        if c.data == 0 {
            return Ok(());
        }
        match exec_node(prog, scope, io, child, d - 1) {
            Ok(()) => {},
            Err(e) => return Err(e),
        }
        d = d - 1;
    }
}

} // verus!
