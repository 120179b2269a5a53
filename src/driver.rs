//! Running a whole source file: building the registry, calling `main`,
//! reporting failures and computing the exit status.
use vstd::prelude::*;
use crate::error::{Error, ErrorView};
use crate::interp::{call_function, values_view};
use crate::parser::{parse_node, parse_source, stmts_view};
use crate::runtime::{FuncView, Funcs, Function, Io, IoView, Program};
use crate::semantics::sem_call;
use crate::syntax::{Statement, Stmt};
use crate::text::{decimal, decimal_string, push_spaces, spaces, trim, trimmed};
use crate::token::{is_reserved_kw, reserved};
use crate::value::Variable;

verus! {

broadcast use vstd::std_specs::vec::group_vec_axioms;

/// The registry that the top-level statements `stmts[i..]` define on top of
/// `p`; anything but a function definition at the top is refused.
pub open spec fn register(p: Funcs, stmts: Seq<Stmt>, i: int) -> Result<Funcs, ErrorView>
    decreases stmts.len() - i,
{
    if i < 0 || i >= stmts.len() {
        Ok(p)
    } else {
        match stmts[i] {
            Stmt::Func { name, params, body, line } => if reserved(name) || p.contains_key(name) {
                Err(ErrorView::DuplicateToken { line, value: name })
            } else {
                register(p.insert(name, FuncView { params, body, line }), stmts, i + 1)
            },
            other => Err(ErrorView::WildStatement { line: other.line_of() }),
        }
    }
}

/// Running a source: parse it, build the registry, call `main` with no
/// arguments; the value `main` returns, or the failure.
pub open spec fn run_source(lines: Seq<String>, io: IoView, d: nat) -> (Result<i128, ErrorView>, IoView) {
    match parse_source(lines) {
        Err(e) => (Err(e), io),
        Ok(b) => match register(Map::empty(), b, 0) {
            Err(e) => (Err(e), io),
            Ok(p) => sem_call(p, "main"@, Seq::empty(), io, 0, d),
        },
    }
}

/// `v` reduced to a signed integer of `m` values (`m` even): the one congruent
/// to `v` modulo `m` in `[-m/2, m/2)`.
pub open spec fn wrap_signed(v: int, m: int) -> int {
    if v % m >= m / 2 {
        v % m - m
    } else {
        v % m
    }
}

/// The reduction is congruent to `v` modulo `m`.
pub proof fn lemma_wrap_congruent(v: int, m: int)
    requires
        m > 0,
    ensures
        (wrap_signed(v, m) - v) % m == 0,
{
    let q = v / m;
    vstd::arithmetic::div_mod::lemma_fundamental_div_mod(v, m);
    if v % m >= m / 2 {
        assert(wrap_signed(v, m) - v == (-q - 1) * m) by (nonlinear_arith)
            requires v == m * q + v % m, wrap_signed(v, m) == v % m - m;
        vstd::arithmetic::div_mod::lemma_mod_multiples_basic(-q - 1, m);
    } else {
        assert(wrap_signed(v, m) - v == (-q) * m) by (nonlinear_arith)
            requires v == m * q + v % m, wrap_signed(v, m) == v % m;
        vstd::arithmetic::div_mod::lemma_mod_multiples_basic(-q, m);
    }
}

/// `v mod m` for `0 < m <= 2^64`, computed without overflow.
fn euclid_mod(v: i128, m: u128) -> (r: u128)
    requires
        0 < m <= 0x1_0000_0000_0000_0000,
    ensures
        r as int == (v as int) % (m as int),
{
    if v >= 0 {
        (v as u128) % m
    } else {
        let n = (-(v + 1)) as u128;
        proof {
            crate::value::lemma_neg_mod(n as int, m as int);
        }
        m - 1 - (n % m)
    }
}

/// The low 64 bits of `v`, as a signed number.
pub fn wrap_i64(v: i128) -> (r: i64)
    ensures
        r as int == wrap_signed(v as int, 0x1_0000_0000_0000_0000),
{
    let m = euclid_mod(v, 0x1_0000_0000_0000_0000) as i128;
    if m >= 0x8000_0000_0000_0000 {
        (m - 0x1_0000_0000_0000_0000) as i64
    } else {
        m as i64
    }
}

/// The exit status for a `main` result: its low 32 bits, as a signed number.
pub fn exit_code(v: i64) -> (r: i32)
    ensures
        r as int == wrap_signed(v as int, 0x1_0000_0000),
        (r as int - v as int) % 0x1_0000_0000 == 0,
{
    proof {
        lemma_wrap_congruent(v as int, 0x1_0000_0000);
    }
    let m = euclid_mod(v as i128, 0x1_0000_0000) as i64;
    if m >= 0x8000_0000 {
        (m - 0x1_0000_0000) as i32
    } else {
        m as i32
    }
}

/// Runs `content` as a program: parses it, builds the function registry and
/// calls `main`, within a budget of `depth` nesting levels and loop rounds.
/// Gives `main`'s result in 64 bits.
pub fn execute_program(content: &Vec<String>, io: &mut Io, depth: u64) -> (r: Result<i64, Error>)
    requires
        old(io).wf(),
    ensures
        final(io).wf(),
        match r {
            Ok(w) => exists|v: i128| run_source(content@, old(io)@, depth as nat) == (Ok::<i128, ErrorView>(v), final(io)@)
                && w as int == wrap_signed(v as int, 0x1_0000_0000_0000_0000),
            Err(e) => run_source(content@, old(io)@, depth as nat) == (Err::<i128, ErrorView>(e@), final(io)@),
        },
{
    // parse file for functions
    proof {
        reveal_strlit("");
        assert(""@ =~= Seq::<char>::empty());
    }
    let (node, _) = match parse_node(content, 0, "") {
        Ok(x) => x,
        Err(e) => return Err(e),
    };
    let ghost top = node.view();
    proof {
        assert(top =~= stmts_view(node.stmts@));
    }
    // check for wild statements at global scope and construct program
    let mut prog = Program::new();
    let mut rest = node.stmts;
    let count = rest.len();
    let mut k: usize = 0;
    while rest.len() > 0
        invariant
            prog.wf(),
            k <= top.len(),
            count == top.len(),
            k + rest@.len() == count,
            stmts_view(rest@) == top.subrange(k as int, top.len() as int),
            parse_source(content@) == Ok::<Seq<Stmt>, ErrorView>(top),
            io@ == old(io)@,
            io.wf(),
            register(Map::empty(), top, 0) == register(prog@, top, k as int),
        decreases rest@.len(),
    {
        let ghost before = rest@;
        let stmt = rest.remove(0);
        proof {
            assert(stmts_view(before).len() == before.len());
            assert(stmts_view(before) == top.subrange(k as int, top.len() as int));
            assert(before.len() == top.len() - k);
            assert(stmts_view(before)[0] == stmt.view());
            assert(rest@ =~= before.subrange(1, before.len() as int));
            assert forall|j: int| 0 <= j < rest@.len() implies #[trigger] stmts_view(rest@)[j] == top.subrange(k + 1, top.len() as int)[j] by {
                assert(rest@[j] == before[j + 1]);
                assert(stmts_view(rest@)[j] == rest@[j].view());
                assert(stmts_view(before)[j + 1] == before[j + 1].view());
                assert(stmts_view(before)[j + 1] == top.subrange(k as int, top.len() as int)[j + 1]);
                assert(before.len() == top.len() - k);
                assert(top.subrange(k as int, top.len() as int)[j + 1] == top[k + j + 1]);
                assert(top.subrange(k + 1, top.len() as int)[j] == top[k + 1 + j]);
            }
            assert(stmts_view(rest@) =~= top.subrange(k + 1, top.len() as int));
        }
        match stmt {
            Statement::Func { name, params, child, line } => {
                let n = name.value.as_str();
                if is_reserved_kw(n) || prog.contains(n) {
                    return Err(Error::DuplicateToken { line, value: name.value });
                }
                prog.define(n, Function { params, root: child, line });
            },
            other => {
                return Err(Error::WildStatement { line: other.line() });
            },
        }
        k = k + 1;
    }
    proof {
        assert(k == top.len());
    }
    // check if main function exists and call
    let main_name = "main";
    let args: Vec<Variable> = Vec::new();
    proof {
        assert(values_view(args@) =~= Seq::<i128>::empty());
    }
    match call_function(&prog, main_name, args, io, 0, depth) {
        Ok(v) => Ok(wrap_i64(v.data)),
        Err(e) => Err(e),
    }
}

/// The name a report starts with: the file's, or `stdin`.
pub open spec fn source_name(filename: Option<&str>) -> Seq<char> {
    match filename {
        Some(f) => f@,
        None => "stdin"@,
    }
}

/// The report of a failure: `<source>:<line>: error: <message>`, then the
/// offending source line, trimmed, under a `>` aligned with the message.
pub open spec fn runtime_err_text(name: Seq<char>, lines: Seq<String>, e: ErrorView, line_offset: usize) -> Seq<char> {
    let line = e.line_of();
    let header = name + ":"@ + decimal(line + line_offset) + ": error: "@;
    let src = if line < lines.len() {
        trim(lines[line as int]@)
    } else {
        Seq::empty()
    };
    header + e.message() + "\n"@ + spaces((header.len() - 2) as nat) + "> "@ + src + "\n"@
}

/// Formats a failure for the user; `line_offset` is added to the reported line.
pub fn format_runtime_err(filename: Option<&str>, lines: &Vec<String>, err: &Error, line_offset: usize) -> (r: String)
    ensures
        r@ == runtime_err_text(source_name(filename), lines@, err@, line_offset),
{
    let line = err.line();
    let mut header = match filename {
        Some(v) => String::from_str(v),
        None => String::from_str("stdin"),
    };
    header.append(":");
    header.append(decimal_string(line as i128 + line_offset as i128).as_str());
    header.append(": error: ");
    proof {
        reveal_strlit(": error: ");
    }
    let width = header.as_str().unicode_len();
    let mut out = header.clone();
    out.append(err.format().as_str());
    out.append("\n");
    push_spaces(&mut out, width - 2);
    out.append("> ");
    let ghost before = out@;
    if line < lines.len() {
        out.append(trimmed(lines[line].as_str()).as_str());
    } else {
        proof {
            assert(out@ =~= before + Seq::<char>::empty());
        }
    }
    out.append("\n");
    out
}

} // verus!
