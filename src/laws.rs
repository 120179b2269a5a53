//! Laws of the interpreter, stated over the specifications and proved.
use vstd::prelude::*;
use crate::driver::wrap_signed;
use crate::lexer::{code_part, line_words, scan_words, source_words, words};
use crate::parser::{block_from, first_param_error, first_token_error, parse_source, statement_at};
use crate::token::token_result;
use crate::repl::{ReplView, feed_step};
use crate::runtime::{Funcs, IoView, Vars};
use crate::semantics::{apply_op, bind_params, print_items, scan_line, sem_args, sem_block, sem_call, sem_eval, sem_expr, sem_loop, sem_stmt};
use crate::driver::{register, run_source};
use crate::syntax::Stmt;
use crate::value::{VARIABLE_LIMIT, ceiling, rem_value};

verus! {

proof fn lemma_ceiling_bounded(v: int)
    ensures
        ceiling(v) > 0 ==> ceiling(v) < VARIABLE_LIMIT,
{
}

/// Every value an operator produces stays under the ceiling when positive.
pub proof fn lemma_values_bounded(op: Seq<char>, a: i128, b: i128)
    ensures
        apply_op(op, a, b) > 0 ==> apply_op(op, a, b) < VARIABLE_LIMIT,
{
    lemma_ceiling_bounded(a.wrapping_add(b) as int);
    lemma_ceiling_bounded(a.wrapping_sub(b) as int);
    lemma_ceiling_bounded(a.wrapping_mul(b) as int);
    lemma_ceiling_bounded((a as int) % crate::value::abs(b as int));
    if b != 0 {
        let r = rem_value(a, b);
        lemma_ceiling_bounded(crate::value::trunc_div(ceiling(a.wrapping_sub(r as i128) as int), crate::value::abs(b as int)));
    }
}

/// A line that fails, fed while no lines are pending, leaves the session
/// exactly as it was: the same as if the line had never been fed.
pub proof fn lemma_repl_atomic(st: ReplView, line: String, io: IoView, d: nat)
    requires
        st.ptr == st.lines.len(),
        !st.in_block,
        feed_step(st, line, io, d).0 is Err,
        !(feed_step(st, line, io, d).0->Err_0 is UnclosedBlock),
    ensures
        feed_step(st, line, io, d).1 == st,
{
    assert(st.lines.push(line).subrange(0, st.ptr) =~= st.lines);
}

/// The exit status of a file run is congruent to `main`'s result modulo 2^32:
/// the result is taken to 64 bits, then to its low 32.
pub proof fn lemma_exit_status(v: int)
    ensures
        (wrap_signed(wrap_signed(v, 0x1_0000_0000_0000_0000), 0x1_0000_0000) - v) % 0x1_0000_0000 == 0,
{
    let m: int = 0x1_0000_0000;
    let w = wrap_signed(v, m * m);
    let r = wrap_signed(w, m);
    crate::driver::lemma_wrap_congruent(v, m * m);
    crate::driver::lemma_wrap_congruent(w, m);
    vstd::arithmetic::div_mod::lemma_fundamental_div_mod(w - v, m * m);
    vstd::arithmetic::div_mod::lemma_fundamental_div_mod(r - w, m);
    let k1 = (w - v) / (m * m);
    let k2 = (r - w) / m;
    assert(r - v == (k1 * m + k2) * m) by (nonlinear_arith)
        requires w - v == (m * m) * k1, r - w == m * k2;
    vstd::arithmetic::div_mod::lemma_mod_multiples_basic(k1 * m + k2, m);
}

proof fn lemma_code_part_idempotent(s: Seq<char>)
    ensures
        code_part(code_part(s)) == code_part(s),
    decreases s.len(),
{
    if s.len() > 0 && s[0] != '#' {
        lemma_code_part_idempotent(s.drop_first());
        let c = code_part(s);
        assert(c[0] == s[0]);
        assert(c.drop_first() =~= code_part(s.drop_first()));
    }
}

/// Dropping every comment (from `#` to the end of its line) before parsing
/// changes nothing in the result.
pub proof fn lemma_comments_ignored(a: Seq<String>, b: Seq<String>)
    requires
        a.len() == b.len(),
        forall|i: int| 0 <= i < a.len() ==> #[trigger] b[i]@ == code_part(a[i]@),
    ensures
        parse_source(a) == parse_source(b),
{
    assert forall|i: int| 0 <= i < a.len() implies #[trigger] source_words(a)[i] == source_words(b)[i] by {
        lemma_code_part_idempotent(a[i]@);
    }
    assert(source_words(a) =~= source_words(b));
}

/// A block that runs to completion holds no `return` and no definition in
/// the range it ran.
proof fn lemma_block_shape(p: Funcs, vars: Vars, io: IoView, body: Seq<Stmt>, i: int, end: int, d: nat)
    requires
        0 <= i,
        sem_block(p, vars, io, body, i, end, d).0 is Ok,
    ensures
        forall|j: int| i <= j < end ==> !(#[trigger] body[j] is Ret) && !(body[j] is Func),
    decreases end - i,
{
    if i < end {
        let (r, v1, io1) = sem_stmt(p, vars, io, body[i], d);
        lemma_block_shape(p, v1, io1, body, i + 1, end, d);
    }
}

/// A call that returns a value ran a function whose body ends in `return`,
/// with no other `return` and no definition among its top-level statements.
pub proof fn lemma_call_shape(p: Funcs, name: Seq<char>, args: Seq<i128>, io: IoView, line: usize, d: nat)
    requires
        sem_call(p, name, args, io, line, d).0 is Ok,
    ensures
        p.contains_key(name),
        p[name].body.len() >= 1,
        p[name].body.last() is Ret,
        forall|j: int| 0 <= j < p[name].body.len() - 1 ==> !(#[trigger] p[name].body[j] is Ret) && !(p[name].body[j] is Func),
{
    let f = p[name];
    let vars = crate::semantics::bind_params(p, f.params, args, 0, Map::empty(), f.line)->Ok_0;
    lemma_block_shape(p, vars, io, f.body, 0, f.body.len() - 1, (d - 1) as nat);
}

/// `s` with each run of spaces shortened to a single space.
pub open spec fn collapse_spaces(s: Seq<char>) -> Seq<char>
    decreases s.len(),
{
    if s.len() == 0 {
        s
    } else {
        let c = collapse_spaces(s.drop_last());
        if s.last() == ' ' && c.len() > 0 && c.last() == ' ' {
            c
        } else {
            c.push(s.last())
        }
    }
}

/// Whether `s` holds no `#`.
pub open spec fn hash_free(s: Seq<char>) -> bool {
    forall|i: int| 0 <= i < s.len() ==> #[trigger] s[i] != '#'
}

proof fn lemma_scan_collapse(s: Seq<char>)
    ensures
        scan_words(collapse_spaces(s)) == scan_words(s),
    decreases s.len(),
{
    if s.len() > 0 {
        let t = s.drop_last();
        let c = collapse_spaces(t);
        lemma_scan_collapse(t);
        if s.last() == ' ' && c.len() > 0 && c.last() == ' ' {
            assert(scan_words(c).1.len() == 0);
        } else {
            assert(c.push(s.last()).drop_last() =~= c);
        }
    }
}

proof fn lemma_code_part_hash_free(s: Seq<char>)
    ensures
        hash_free(code_part(s)),
        hash_free(s) ==> code_part(s) == s,
    decreases s.len(),
{
    if s.len() > 0 && s[0] != '#' {
        lemma_code_part_hash_free(s.drop_first());
        let c = code_part(s);
        assert forall|i: int| 0 <= i < c.len() implies #[trigger] c[i] != '#' by {
            if i > 0 {
                assert(c[i] == code_part(s.drop_first())[i - 1]);
            }
        }
        if hash_free(s) {
            assert(hash_free(s.drop_first())) by {
                assert forall|i: int| 0 <= i < s.drop_first().len() implies #[trigger] s.drop_first()[i] != '#' by {
                    assert(s.drop_first()[i] == s[i + 1]);
                }
            }
            assert(c =~= s);
        }
    } else if s.len() > 0 {
        assert(hash_free(s) ==> s[0] != '#');
    }
}

proof fn lemma_collapse_hash_free(s: Seq<char>)
    requires
        hash_free(s),
    ensures
        hash_free(collapse_spaces(s)),
    decreases s.len(),
{
    if s.len() > 0 {
        let t = s.drop_last();
        assert(hash_free(t)) by {
            assert forall|i: int| 0 <= i < t.len() implies #[trigger] t[i] != '#' by {
                assert(t[i] == s[i]);
            }
        }
        lemma_collapse_hash_free(t);
        let c = collapse_spaces(t);
        assert(s[s.len() - 1] != '#');
        assert forall|i: int| 0 <= i < c.push(s.last()).len() implies #[trigger] c.push(s.last())[i] != '#' by {
            if i < c.len() {
                assert(c.push(s.last())[i] == c[i]);
            }
        }
    }
}

proof fn lemma_collapse_prefix(u: Seq<char>, v: Seq<char>)
    ensures
        collapse_spaces(u).len() <= collapse_spaces(u + v).len(),
        collapse_spaces(u + v).subrange(0, collapse_spaces(u).len() as int) == collapse_spaces(u),
    decreases v.len(),
{
    if v.len() == 0 {
        assert(u + v =~= u);
        assert(collapse_spaces(u).subrange(0, collapse_spaces(u).len() as int) =~= collapse_spaces(u));
    } else {
        let w = u + v;
        assert(w.drop_last() =~= u + v.drop_last());
        lemma_collapse_prefix(u, v.drop_last());
        let c = collapse_spaces(w.drop_last());
        let k = collapse_spaces(u).len() as int;
        assert(c.push(w.last()).subrange(0, k) =~= c.subrange(0, k));
    }
}

proof fn lemma_code_part_split(s: Seq<char>)
    ensures
        code_part(s).len() <= s.len(),
        s.subrange(0, code_part(s).len() as int) == code_part(s),
        code_part(s).len() < s.len() ==> s[code_part(s).len() as int] == '#',
    decreases s.len(),
{
    if s.len() > 0 && s[0] != '#' {
        let t = s.drop_first();
        lemma_code_part_split(t);
        let k = code_part(t).len() as int;
        assert(s.subrange(0, k + 1) =~= seq![s[0]] + t.subrange(0, k));
        if k < t.len() {
            assert(s[k + 1] == t[k]);
        }
    } else if s.len() > 0 {
        assert(s.subrange(0, 0) =~= Seq::<char>::empty());
    } else {
        assert(s.subrange(0, 0) =~= Seq::<char>::empty());
    }
}

proof fn lemma_code_part_stop(h: Seq<char>, r: Seq<char>)
    requires
        hash_free(h),
        r.len() > 0,
        r[0] == '#',
    ensures
        code_part(h + r) == h,
    decreases h.len(),
{
    if h.len() == 0 {
        assert(h + r =~= r);
        assert(h =~= Seq::<char>::empty());
    } else {
        let t = h.drop_first();
        assert(hash_free(t)) by {
            assert forall|i: int| 0 <= i < t.len() implies #[trigger] t[i] != '#' by {
                assert(t[i] == h[i + 1]);
            }
        }
        lemma_code_part_stop(t, r);
        assert((h + r).drop_first() =~= t + r);
        assert((h + r)[0] == h[0]);
        assert(h[0] != '#');
        assert(h =~= seq![h[0]] + t);
    }
}

proof fn lemma_line_collapse(s: Seq<char>)
    ensures
        line_words(collapse_spaces(s)) == line_words(s),
{
    let x = code_part(s);
    let k = x.len() as int;
    lemma_code_part_split(s);
    lemma_code_part_hash_free(s);
    lemma_collapse_hash_free(x);
    lemma_scan_collapse(x);
    let cx = collapse_spaces(x);
    if k == s.len() {
        assert(x =~= s);
        lemma_code_part_hash_free(cx);
    } else {
        let u = s.subrange(0, k + 1);
        let v = s.subrange(k + 1, s.len() as int);
        assert(s =~= u + v);
        assert(u.drop_last() =~= x);
        assert(u.last() == '#');
        assert(collapse_spaces(u) == cx.push('#'));
        lemma_collapse_prefix(u, v);
        let cs = collapse_spaces(s);
        let r = cs.subrange(cx.len() as int, cs.len() as int);
        assert(cs.subrange(0, cx.len() as int + 1) == cx.push('#'));
        assert(cs[cx.len() as int] == cs.subrange(0, cx.len() as int + 1)[cx.len() as int]);
        assert(cs.len() >= cx.len() + 1);
        assert forall|i: int| 0 <= i < cs.len() implies #[trigger] cs[i] == (cx + r)[i] by {
            if i < cx.len() {
                assert(cs.subrange(0, cx.len() as int + 1)[i] == cs[i]);
                assert(cx.push('#')[i] == cx[i]);
            }
        }
        assert(cs =~= cx + r);
        lemma_code_part_stop(cx, r);
    }
}

/// Shortening every run of spaces in every line to a single space before
/// parsing changes nothing in the result.
pub proof fn lemma_spaces_collapsed(a: Seq<String>, b: Seq<String>)
    requires
        a.len() == b.len(),
        forall|i: int| 0 <= i < a.len() ==> #[trigger] b[i]@ == collapse_spaces(a[i]@),
    ensures
        parse_source(a) == parse_source(b),
{
    assert forall|i: int| 0 <= i < a.len() implies #[trigger] source_words(a)[i] == source_words(b)[i] by {
        lemma_line_collapse(a[i]@);
    }
    assert(source_words(a) =~= source_words(b));
}

proof fn lemma_token_error_line(ws: Seq<Seq<char>>, lo: int, hi: int, line: usize, lit: bool)
    requires
        first_token_error(ws, lo, hi, line, lit) is Some,
    ensures
        first_token_error(ws, lo, hi, line, lit)->Some_0.line_of() == line,
        !(first_token_error(ws, lo, hi, line, lit)->Some_0 is UnclosedBlock),
    decreases hi - lo,
{
    if lo < hi && token_result(ws[lo], line, lit) is Ok {
        lemma_token_error_line(ws, lo + 1, hi, line, lit);
    }
}

proof fn lemma_param_error_line(ws: Seq<Seq<char>>, lo: int, hi: int, line: usize)
    requires
        first_param_error(ws, lo, hi, line) is Some,
    ensures
        first_param_error(ws, lo, hi, line)->Some_0.line_of() == line,
        !(first_param_error(ws, lo, hi, line)->Some_0 is UnclosedBlock),
    decreases hi - lo,
{
    if lo < hi && token_result(ws[lo], line, false) is Ok && !crate::token::reserved(ws[lo]) {
        lemma_param_error_line(ws, lo + 1, hi, line);
    }
}

/// A parse failure other than an unclosed block names a line at or after
/// where parsing began, holding words: the line of the offending construct.
pub proof fn lemma_parse_error_line(wl: Seq<Seq<Seq<char>>>, ptr: int, term: Seq<char>)
    requires
        0 <= ptr,
        wl.len() <= usize::MAX,
        block_from(wl, ptr, term) is Err,
        !(block_from(wl, ptr, term)->Err_0 is UnclosedBlock),
    ensures
        ptr <= block_from(wl, ptr, term)->Err_0.line_of() < wl.len(),
        wl[block_from(wl, ptr, term)->Err_0.line_of() as int].len() > 0,
    decreases wl.len() - ptr, 1int,
{
    if ptr < wl.len() {
        let ws = wl[ptr];
        if ws.len() == 0 {
            lemma_parse_error_line(wl, ptr + 1, term);
        } else if ws[0] != "end"@ {
            match statement_at(wl, ptr) {
                Err(e) => lemma_stmt_error_line(wl, ptr),
                Ok((s, p)) => if ptr < p <= wl.len() {
                    lemma_parse_error_line(wl, p, term);
                },
            }
        }
    }
}

/// A failure of the statement that line `l` opens names a line at or after
/// `l`, holding words.
pub proof fn lemma_stmt_error_line(wl: Seq<Seq<Seq<char>>>, l: int)
    requires
        0 <= l,
        wl.len() <= usize::MAX,
        statement_at(wl, l) is Err,
        !(statement_at(wl, l)->Err_0 is UnclosedBlock),
    ensures
        l <= statement_at(wl, l)->Err_0.line_of() < wl.len(),
        wl[statement_at(wl, l)->Err_0.line_of() as int].len() > 0,
    decreases wl.len() - l, 0int,
{
    let ws = wl[l];
    let n = ws.len() as int;
    let line = l as usize;
    if 0 <= l < wl.len() && ws.len() > 0 {
        if first_token_error(ws, 3, n, line, true) is Some {
            lemma_token_error_line(ws, 3, n, line, true);
        }
        if first_token_error(ws, 1, n - 1, line, true) is Some {
            lemma_token_error_line(ws, 1, n - 1, line, true);
        }
        if first_token_error(ws, 1, n, line, true) is Some {
            lemma_token_error_line(ws, 1, n, line, true);
        }
        if first_token_error(ws, 1, n, line, false) is Some {
            lemma_token_error_line(ws, 1, n, line, false);
        }
        if first_param_error(ws, 2, n - 1, line) is Some {
            lemma_param_error_line(ws, 2, n - 1, line);
        }
        if block_from(wl, l + 1, ws[0]) is Err && !(block_from(wl, l + 1, ws[0])->Err_0 is UnclosedBlock) {
            lemma_parse_error_line(wl, l + 1, ws[0]);
        }
        if block_from(wl, l + 1, "function"@) is Err && !(block_from(wl, l + 1, "function"@)->Err_0 is UnclosedBlock) {
            lemma_parse_error_line(wl, l + 1, "function"@);
        }
    }
}

/// The keyword that opens a statement.
pub open spec fn head_of(s: Stmt) -> Seq<char> {
    match s {
        Stmt::Assign { .. } => "let"@,
        Stmt::Cond { .. } => "if"@,
        Stmt::Loop { .. } => "while"@,
        Stmt::Print { .. } => "print"@,
        Stmt::Ret { .. } => "return"@,
        Stmt::Func { .. } => "function"@,
    }
}

/// Whether `s`, and every statement nested in it, carries the index of a
/// source line that opens it with its keyword.
pub open spec fn placed(wl: Seq<Seq<Seq<char>>>, s: Stmt) -> bool
    decreases s, 0int,
{
    &&& s.line_of() < wl.len()
    &&& wl[s.line_of() as int].len() > 0
    &&& wl[s.line_of() as int][0] == head_of(s)
    &&& match s {
        Stmt::Cond { body, .. } => all_placed(wl, body),
        Stmt::Loop { body, .. } => all_placed(wl, body),
        Stmt::Func { body, .. } => all_placed(wl, body),
        _ => true,
    }
}

/// Whether every statement of `body` is placed.
pub open spec fn all_placed(wl: Seq<Seq<Seq<char>>>, body: Seq<Stmt>) -> bool
    decreases body, 1int,
{
    body.len() == 0 || (placed(wl, body[0]) && all_placed(wl, body.drop_first()))
}

/// Every statement of a parsed block, nested ones included, carries the index
/// of the source line that opens it.
pub proof fn lemma_block_placed(wl: Seq<Seq<Seq<char>>>, ptr: int, term: Seq<char>)
    requires
        0 <= ptr,
        wl.len() <= usize::MAX,
        block_from(wl, ptr, term) is Ok,
    ensures
        all_placed(wl, block_from(wl, ptr, term)->Ok_0.0),
    decreases wl.len() - ptr, 1int,
{
    if ptr < wl.len() {
        let ws = wl[ptr];
        if ws.len() == 0 {
            lemma_block_placed(wl, ptr + 1, term);
        } else if ws[0] != "end"@ {
            match statement_at(wl, ptr) {
                Err(e) => {},
                Ok((s, p)) => if ptr < p <= wl.len() {
                    lemma_stmt_placed(wl, ptr);
                    lemma_block_placed(wl, p, term);
                    let rest = block_from(wl, p, term)->Ok_0.0;
                    let b = block_from(wl, ptr, term)->Ok_0.0;
                    assert(b == seq![s] + rest);
                    assert(b.drop_first() =~= rest);
                },
            }
        }
    }
}

/// The statement that line `l` opens carries `l` and is placed.
pub proof fn lemma_stmt_placed(wl: Seq<Seq<Seq<char>>>, l: int)
    requires
        0 <= l,
        wl.len() <= usize::MAX,
        statement_at(wl, l) is Ok,
    ensures
        statement_at(wl, l)->Ok_0.0.line_of() == l,
        placed(wl, statement_at(wl, l)->Ok_0.0),
    decreases wl.len() - l, 0int,
{
    reveal_strlit("let");
    reveal_strlit("if");
    reveal_strlit("while");
    reveal_strlit("print");
    reveal_strlit("return");
    reveal_strlit("function");
    let ws = wl[l];
    if 0 <= l < wl.len() && ws.len() > 0 {
        if block_from(wl, l + 1, ws[0]) is Ok {
            lemma_block_placed(wl, l + 1, ws[0]);
        }
        if block_from(wl, l + 1, "function"@) is Ok {
            lemma_block_placed(wl, l + 1, "function"@);
        }
    }
}

/// Whether line `l` exists and holds code.
pub open spec fn holds_code(wl: Seq<Seq<Seq<char>>>, l: usize) -> bool {
    l < wl.len() && wl[l as int].len() > 0
}

/// Whether every function of `p` is defined on a line holding code, with a placed body.
pub open spec fn funcs_placed(wl: Seq<Seq<Seq<char>>>, p: Funcs) -> bool {
    forall|k: Seq<char>| #[trigger] p.contains_key(k) ==> holds_code(wl, p[k].line) && all_placed(wl, p[k].body)
}

proof fn lemma_all_placed_index(wl: Seq<Seq<Seq<char>>>, body: Seq<Stmt>)
    requires
        all_placed(wl, body),
    ensures
        forall|i: int| 0 <= i < body.len() ==> #[trigger] placed(wl, body[i]),
    decreases body.len(),
{
    if body.len() > 0 {
        lemma_all_placed_index(wl, body.drop_first());
        assert forall|i: int| 0 <= i < body.len() implies #[trigger] placed(wl, body[i]) by {
            if i > 0 {
                assert(body[i] == body.drop_first()[i - 1]);
            }
        }
    }
}

proof fn lemma_eval_line(wl: Seq<Seq<Seq<char>>>, p: Funcs, vars: Vars, io: IoView, toks: Seq<Seq<char>>, pos: int, line: usize, d: nat)
    requires
        holds_code(wl, line),
        funcs_placed(wl, p),
    ensures
        sem_eval(p, vars, io, toks, pos, line, d).0 is Err ==> holds_code(wl, sem_eval(p, vars, io, toks, pos, line, d).0->Err_0.line_of()),
    decreases d, 0int, 0int,
{
    if d > 0 && 0 <= pos < toks.len() {
        let op = toks[pos];
        match crate::semantics::builtin_arity(op) {
            Some(n) => {
                lemma_args_line(wl, p, vars, io, toks, pos, n, line, (d - 1) as nat);
            },
            None => {
                if p.contains_key(op) {
                    let n = p[op].params.len();
                    lemma_args_line(wl, p, vars, io, toks, pos, n, line, (d - 1) as nat);
                    match sem_args(p, vars, io, toks, pos, n, line, (d - 1) as nat) {
                        (Ok((args, q)), io1) => lemma_call_line(wl, p, op, args, io1, line, (d - 1) as nat),
                        _ => {},
                    }
                }
            },
        }
    }
}

proof fn lemma_args_line(wl: Seq<Seq<Seq<char>>>, p: Funcs, vars: Vars, io: IoView, toks: Seq<Seq<char>>, pos: int, n: nat, line: usize, d: nat)
    requires
        holds_code(wl, line),
        funcs_placed(wl, p),
    ensures
        sem_args(p, vars, io, toks, pos, n, line, d).0 is Err ==> holds_code(wl, sem_args(p, vars, io, toks, pos, n, line, d).0->Err_0.line_of()),
    decreases d, 1int, n,
{
    if n > 0 {
        lemma_eval_line(wl, p, vars, io, toks, pos + 1, line, d);
        match sem_eval(p, vars, io, toks, pos + 1, line, d) {
            (Ok((v, q)), io1) => lemma_args_line(wl, p, vars, io1, toks, q, (n - 1) as nat, line, d),
            _ => {},
        }
    }
}

proof fn lemma_expr_line(wl: Seq<Seq<Seq<char>>>, p: Funcs, vars: Vars, io: IoView, toks: Seq<Seq<char>>, line: usize, d: nat)
    requires
        holds_code(wl, line),
        funcs_placed(wl, p),
    ensures
        sem_expr(p, vars, io, toks, line, d).0 is Err ==> holds_code(wl, sem_expr(p, vars, io, toks, line, d).0->Err_0.line_of()),
    decreases d, 2int, 0int,
{
    lemma_eval_line(wl, p, vars, io, toks, 0, line, d);
}

proof fn lemma_bind_line(p: Funcs, params: Seq<Seq<char>>, args: Seq<i128>, i: int, vars: Vars, fline: usize)
    ensures
        bind_params(p, params, args, i, vars, fline) is Err ==> bind_params(p, params, args, i, vars, fline)->Err_0.line_of() == fline,
    decreases args.len() - i,
{
    if 0 <= i < args.len() && i < params.len() && !p.contains_key(params[i]) {
        lemma_bind_line(p, params, args, i + 1, vars.insert(params[i], args[i]), fline);
    }
}

proof fn lemma_call_line(wl: Seq<Seq<Seq<char>>>, p: Funcs, name: Seq<char>, args: Seq<i128>, io: IoView, line: usize, d: nat)
    requires
        holds_code(wl, line),
        funcs_placed(wl, p),
    ensures
        sem_call(p, name, args, io, line, d).0 is Err ==> holds_code(wl, sem_call(p, name, args, io, line, d).0->Err_0.line_of()),
    decreases d, 0int, 1int,
{
    if d > 0 && p.contains_key(name) {
        lemma_call_body_line(wl, p, name, args, io, line, d);
    }
}

/// The part of a call after the lookup: binding, body, `return`.
proof fn lemma_call_body_line(wl: Seq<Seq<Seq<char>>>, p: Funcs, name: Seq<char>, args: Seq<i128>, io: IoView, line: usize, d: nat)
    requires
        d > 0,
        p.contains_key(name),
        funcs_placed(wl, p),
    ensures
        sem_call(p, name, args, io, line, d).0 is Err ==> holds_code(wl, sem_call(p, name, args, io, line, d).0->Err_0.line_of()),
    decreases d, 0int, 0int,
{
    let f = p[name];
    assert(holds_code(wl, f.line) && all_placed(wl, f.body));
    lemma_bind_line(p, f.params, args, 0, Map::empty(), f.line);
    lemma_all_placed_index(wl, f.body);
    match bind_params(p, f.params, args, 0, Map::empty(), f.line) {
        Err(_) => {},
        Ok(vars) => if f.body.len() >= 1 {
            lemma_block_line(wl, p, vars, io, f.body, 0, f.body.len() - 1, (d - 1) as nat);
            match sem_block(p, vars, io, f.body, 0, f.body.len() - 1, (d - 1) as nat) {
                (Ok(()), vars1, io1) => match f.body.last() {
                    Stmt::Ret { expr, line: rl } => {
                        assert(placed(wl, f.body[f.body.len() - 1]));
                        lemma_expr_line(wl, p, vars1, io1, expr, rl, (d - 1) as nat);
                    },
                    _ => {},
                },
                _ => {},
            }
        },
    }
}

proof fn lemma_stmt_line(wl: Seq<Seq<Seq<char>>>, p: Funcs, vars: Vars, io: IoView, s: Stmt, d: nat)
    requires
        placed(wl, s),
        funcs_placed(wl, p),
    ensures
        sem_stmt(p, vars, io, s, d).0 is Err ==> holds_code(wl, sem_stmt(p, vars, io, s, d).0->Err_0.line_of()),
    decreases d, 0int, 0int,
{
    if d > 0 {
        match s {
            Stmt::Assign { var, expr, line } => lemma_expr_line(wl, p, vars, io, expr, line, (d - 1) as nat),
            Stmt::Cond { expr, body, line } => {
                lemma_expr_line(wl, p, vars, io, expr, line, (d - 1) as nat);
                lemma_all_placed_index(wl, body);
                match sem_expr(p, vars, io, expr, line, (d - 1) as nat) {
                    (Ok(v), io1) => lemma_block_line(wl, p, vars, io1, body, 0, body.len() as int, (d - 1) as nat),
                    _ => {},
                }
            },
            Stmt::Loop { expr, body, line } => {
                lemma_all_placed_index(wl, body);
                lemma_loop_line(wl, p, vars, io, expr, body, line, (d - 1) as nat);
            },
            _ => {},
        }
    }
}

proof fn lemma_block_line(wl: Seq<Seq<Seq<char>>>, p: Funcs, vars: Vars, io: IoView, body: Seq<Stmt>, i: int, end: int, d: nat)
    requires
        end <= body.len(),
        forall|j: int| 0 <= j < body.len() ==> #[trigger] placed(wl, body[j]),
        funcs_placed(wl, p),
    ensures
        sem_block(p, vars, io, body, i, end, d).0 is Err ==> holds_code(wl, sem_block(p, vars, io, body, i, end, d).0->Err_0.line_of()),
    decreases d, 1int, end - i,
{
    if 0 <= i < end {
        lemma_stmt_line(wl, p, vars, io, body[i], d);
        match sem_stmt(p, vars, io, body[i], d) {
            (Ok(()), v1, io1) => lemma_block_line(wl, p, v1, io1, body, i + 1, end, d),
            _ => {},
        }
    }
}

proof fn lemma_loop_line(wl: Seq<Seq<Seq<char>>>, p: Funcs, vars: Vars, io: IoView, cond: Seq<Seq<char>>, body: Seq<Stmt>, line: usize, d: nat)
    requires
        holds_code(wl, line),
        forall|j: int| 0 <= j < body.len() ==> #[trigger] placed(wl, body[j]),
        funcs_placed(wl, p),
    ensures
        sem_loop(p, vars, io, cond, body, line, d).0 is Err ==> holds_code(wl, sem_loop(p, vars, io, cond, body, line, d).0->Err_0.line_of()),
    decreases d, 3int, 0int,
{
    if d > 0 {
        lemma_expr_line(wl, p, vars, io, cond, line, (d - 1) as nat);
        match sem_expr(p, vars, io, cond, line, (d - 1) as nat) {
            (Ok(v), io1) => if v != 0 {
                lemma_block_line(wl, p, vars, io1, body, 0, body.len() as int, (d - 1) as nat);
                match sem_block(p, vars, io1, body, 0, body.len() as int, (d - 1) as nat) {
                    (Ok(()), v2, io2) => lemma_loop_line(wl, p, v2, io2, cond, body, line, (d - 1) as nat),
                    _ => {},
                }
            },
            _ => {},
        }
    }
}

proof fn lemma_register_line(wl: Seq<Seq<Seq<char>>>, p: Funcs, stmts: Seq<Stmt>, i: int)
    requires
        0 <= i,
        forall|j: int| 0 <= j < stmts.len() ==> #[trigger] placed(wl, stmts[j]),
        funcs_placed(wl, p),
    ensures
        register(p, stmts, i) is Err ==> holds_code(wl, register(p, stmts, i)->Err_0.line_of()),
        register(p, stmts, i) is Ok ==> funcs_placed(wl, register(p, stmts, i)->Ok_0),
    decreases stmts.len() - i,
{
    if i < stmts.len() {
        assert(placed(wl, stmts[i]));
        match stmts[i] {
            Stmt::Func { name, params, body, line } => if !(crate::token::reserved(name) || p.contains_key(name)) {
                let p_next = p.insert(name, crate::runtime::FuncView { params, body, line });
                assert forall|k: Seq<char>| #[trigger] p_next.contains_key(k) implies holds_code(wl, p_next[k].line) && all_placed(wl, p_next[k].body) by {
                    if k != name {
                        assert(p.contains_key(k));
                    }
                }
                lemma_register_line(wl, p_next, stmts, i + 1);
            },
            _ => {},
        }
    }
}

/// Every failure of a file run reports a source line that holds code (the
/// line of the offending construct), but for an unclosed block and for the
/// two failures of the initial call of `main` itself, which report line 0:
/// `main` missing, or a budget of zero.
pub proof fn lemma_run_error_line(lines: Seq<String>, io: IoView, d: nat)
    requires
        lines.len() <= usize::MAX,
        run_source(lines, io, d).0 is Err,
    ensures
        ({
            let e = run_source(lines, io, d).0->Err_0;
            ||| e is UnclosedBlock
            ||| holds_code(source_words(lines), e.line_of())
            ||| (e.line_of() == 0 && (e is UndeclaredToken || e is StepLimit))
        }),
{
    let wl = source_words(lines);
    let empty: Seq<char> = Seq::empty();
    match block_from(wl, 0, empty) {
        Err(e) => {
            if !(e is UnclosedBlock) {
                lemma_parse_error_line(wl, 0, empty);
            }
        },
        Ok((b, q)) => {
            lemma_block_placed(wl, 0, empty);
            lemma_all_placed_index(wl, b);
            let no_funcs = Map::<Seq<char>, crate::runtime::FuncView>::empty();
            lemma_register_line(wl, no_funcs, b, 0);
            match register(no_funcs, b, 0) {
                Err(_) => {},
                Ok(p) => {
                    if d > 0 && p.contains_key("main"@) {
                        lemma_call_body_line(wl, p, "main"@, Seq::empty(), io, 0, d);
                    }
                },
            }
        },
    }
}

} // verus!
