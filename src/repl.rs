//! The interactive session: lines fed one at a time, blocks buffered until
//! closed, and every line either fully absorbed or without effect.
use vstd::prelude::*;
use crate::driver::{format_runtime_err, runtime_err_text};
use crate::error::{Error, ErrorView};
use crate::interp::exec_range;
use crate::lexer::source_words;
use crate::parser::{block_from, parse_node, stmts_view};
use crate::runtime::{FuncView, Funcs, Function, Io, IoView, Program, Scope, Vars};
use crate::semantics::{sem_block, written};
use crate::syntax::{Statement, Stmt};
use crate::token::{is_reserved_kw, reserved};

verus! {

broadcast use vstd::std_specs::vec::group_vec_axioms;

/// The mathematical form of a session.
pub struct ReplView {
    /// Every line kept so far; the first is an empty placeholder, so that
    /// fed lines are numbered from one.
    pub lines: Seq<String>,
    /// The first line not yet absorbed.
    pub ptr: int,
    pub funcs: Funcs,
    pub vars: Vars,
    /// The top-level statements absorbed so far.
    pub stmts: Seq<Stmt>,
    /// The number of those statements already executed.
    pub exec_ptr: int,
    /// Whether a block is open and more lines are awaited.
    pub in_block: bool,
}

/// Takes the statements `new[i..]` into a session: definitions join the
/// registry `p`, other statements join `s`; a top-level `return` is refused.
pub open spec fn assimilate(p: Funcs, s: Seq<Stmt>, new: Seq<Stmt>, i: int) -> Result<(Funcs, Seq<Stmt>), ErrorView>
    decreases new.len() - i,
{
    if i < 0 || i >= new.len() {
        Ok((p, s))
    } else {
        match new[i] {
            Stmt::Func { name, params, body, line } => if reserved(name) || p.contains_key(name) {
                Err(ErrorView::DuplicateToken { line, value: name })
            } else {
                assimilate(p.insert(name, FuncView { params, body, line }), s, new, i + 1)
            },
            Stmt::Ret { line, .. } => Err(ErrorView::WildStatement { line }),
            other => assimilate(p, s.push(other), new, i + 1),
        }
    }
}

/// Absorbing the lines from `st.ptr` on: parse them, take in the statements,
/// and execute those not yet executed; the new session, or the failure.
pub open spec fn block_step(st: ReplView, io: IoView, d: nat) -> (Result<ReplView, ErrorView>, IoView) {
    match block_from(source_words(st.lines), st.ptr, Seq::empty()) {
        Err(e) => (Err(e), io),
        Ok((new, q)) => match assimilate(st.funcs, st.stmts, new, 0) {
            Err(e) => (Err(e), io),
            Ok((p_next, s_next)) => match sem_block(p_next, st.vars, io, s_next, st.exec_ptr, s_next.len() as int, d) {
                (Err(e), _, io1) => (Err(e), io1),
                (Ok(()), v2, io1) => (
                    Ok(ReplView {
                        lines: st.lines,
                        ptr: q,
                        funcs: p_next,
                        vars: v2,
                        stmts: s_next,
                        exec_ptr: s_next.len() as int,
                        in_block: st.in_block,
                    }),
                    io1,
                ),
            },
        },
    }
}

/// Feeding one line: it is absorbed; or it leaves a block open and is kept
/// for later; or it fails, the failure is reported, and the session is as it
/// was before the line, with any open block dropped.
pub open spec fn feed_step(st: ReplView, line: String, io: IoView, d: nat) -> (Result<(), ErrorView>, ReplView, IoView) {
    let st1 = ReplView {
        lines: st.lines.push(line),
        ptr: st.ptr,
        funcs: st.funcs,
        vars: st.vars,
        stmts: st.stmts,
        exec_ptr: st.exec_ptr,
        in_block: st.in_block,
    };
    match block_step(st1, io, d) {
        (Ok(st2), io1) => (
            Ok(()),
            ReplView {
                lines: st2.lines,
                ptr: st2.ptr,
                funcs: st2.funcs,
                vars: st2.vars,
                stmts: st2.stmts,
                exec_ptr: st2.exec_ptr,
                in_block: false,
            },
            io1,
        ),
        (Err(e), io1) => if e is UnclosedBlock {
            (
                Err(e),
                ReplView {
                    lines: st1.lines,
                    ptr: st.ptr,
                    funcs: st.funcs,
                    vars: st.vars,
                    stmts: st.stmts,
                    exec_ptr: st.exec_ptr,
                    in_block: true,
                },
                io1,
            )
        } else {
            (
                Err(e),
                ReplView {
                    lines: st1.lines.subrange(0, st.ptr),
                    ptr: st.ptr,
                    funcs: st.funcs,
                    vars: st.vars,
                    stmts: st.stmts,
                    exec_ptr: st.exec_ptr,
                    in_block: false,
                },
                written(io1, runtime_err_text("stdin"@, st1.lines, e, 0)),
            )
        },
    }
}

/// An interactive session.
pub struct Repl {
    pub lines: Vec<String>,
    pub ptr: usize,
    pub prog: Program,
    pub scope: Scope,
    pub main_stmts: Vec<Statement>,
    pub exec_ptr: usize,
    pub in_block: bool,
}

impl View for Repl {
    type V = ReplView;

    open spec fn view(&self) -> ReplView {
        ReplView {
            lines: self.lines@,
            ptr: self.ptr as int,
            funcs: self.prog@,
            vars: self.scope@,
            stmts: stmts_view(self.main_stmts@),
            exec_ptr: self.exec_ptr as int,
            in_block: self.in_block,
        }
    }
}

impl Repl {
    pub open spec fn wf(&self) -> bool {
        &&& self.prog.wf()
        &&& self.scope.wf()
        &&& self.ptr <= self.lines@.len()
        &&& self.exec_ptr <= self.main_stmts@.len()
    }

    /// A fresh session: one placeholder line, nothing defined or run.
    pub fn new() -> (r: Repl)
        ensures
            r.wf(),
            r@.lines.len() == 1,
            r@.lines[0]@ == Seq::<char>::empty(),
            r@.ptr == 1,
            r@.funcs == Map::<Seq<char>, FuncView>::empty(),
            r@.vars == Map::<Seq<char>, i128>::empty(),
            r@.stmts == Seq::<Stmt>::empty(),
            r@.exec_ptr == 0,
            !r@.in_block,
    {
        let mut lines: Vec<String> = Vec::new();
        lines.push(String::new());
        let main_stmts: Vec<Statement> = Vec::new();
        let r = Repl {
            lines,
            ptr: 1,
            prog: Program::new(),
            scope: Scope::new(),
            main_stmts,
            exec_ptr: 0,
            in_block: false,
        };
        proof {
            assert(stmts_view(r.main_stmts@) =~= Seq::<Stmt>::empty());
        }
        r
    }

    /// The prompt for the next line: `... ` inside an open block, `>>> ` otherwise.
    pub fn prompt(&self) -> (r: &'static str)
        ensures
            r@ == (if self@.in_block { "... "@ } else { ">>> "@ }),
    {
        if self.in_block {
            "... "
        } else {
            ">>> "
        }
    }

    /// Drops the definitions and statements added after the first `base` and `base_s`.
    fn roll_back(&mut self, base: usize, base_s: usize)
        requires
            old(self).wf(),
            base <= old(self).prog.names@.len(),
            base_s <= old(self).main_stmts@.len(),
            old(self).exec_ptr <= base_s,
        ensures
            final(self).wf(),
            final(self).prog.names@ == old(self).prog.names@.subrange(0, base as int),
            final(self).prog.funcs@ == old(self).prog.funcs@.subrange(0, base as int),
            final(self).main_stmts@ == old(self).main_stmts@.subrange(0, base_s as int),
            final(self).lines@ == old(self).lines@,
            final(self).ptr == old(self).ptr,
            final(self).scope@ == old(self).scope@,
            final(self).exec_ptr == old(self).exec_ptr,
            final(self).in_block == old(self).in_block,
    {
        self.prog.truncate(base);
        self.main_stmts.truncate(base_s);
    }

    /// Absorbs the lines from `ptr` on: parses them, takes in the definitions
    /// and statements, and executes the statements not yet executed, within a
    /// budget of `depth`. On failure the session is left as it was.
    pub fn execute_block(&mut self, io: &mut Io, depth: u64) -> (r: Result<(), Error>)
        requires
            old(self).wf(),
            old(io).wf(),
        ensures
            final(self).wf(),
            final(io).wf(),
            match r {
                Ok(()) => block_step(old(self)@, old(io)@, depth as nat) == (Ok::<ReplView, ErrorView>(final(self)@), final(io)@),
                Err(e) => block_step(old(self)@, old(io)@, depth as nat) == (Err::<ReplView, ErrorView>(e@), final(io)@)
                    && final(self)@ == old(self)@,
            },
    {
        proof {
            reveal_strlit("");
            assert(""@ =~= Seq::<char>::empty());
        }
        // try to parse node into statements
        let (node, q) = match parse_node(&self.lines, self.ptr, "") {
            Ok(x) => x,
            Err(e) => return Err(e),
        };
        let ghost new = node.view();
        let ghost st0 = self@;
        let ghost names0 = self.prog.names@;
        let ghost funcs0 = self.prog.funcs@;
        let ghost mains0 = self.main_stmts@;
        proof {
            assert(new =~= stmts_view(node.stmts@));
        }
        let base = self.prog.names.len();
        let base_s = self.main_stmts.len();
        // validate all statements, adding functions, denying return
        let mut rest = node.stmts;
        let count = rest.len();
        let mut k: usize = 0;
        while rest.len() > 0
            invariant
                self.wf(),
                k <= new.len(),
                count == new.len(),
                k + rest@.len() == count,
                stmts_view(rest@) == new.subrange(k as int, new.len() as int),
                block_from(source_words(st0.lines), st0.ptr, Seq::empty()) == Ok::<(Seq<Stmt>, int), ErrorView>((new, q as int)),
                assimilate(st0.funcs, st0.stmts, new, 0) == assimilate(self.prog@, stmts_view(self.main_stmts@), new, k as int),
                base <= self.prog.names@.len(),
                self.prog.names@.subrange(0, base as int) == names0,
                self.prog.funcs@.subrange(0, base as int) == funcs0,
                base_s <= self.main_stmts@.len(),
                self.main_stmts@.subrange(0, base_s as int) == mains0,
                names0.len() == base,
                mains0.len() == base_s,
                self.lines@ == st0.lines,
                self.ptr == st0.ptr,
                self.scope@ == st0.vars,
                self.exec_ptr == st0.exec_ptr,
                self.exec_ptr <= base_s,
                self.in_block == st0.in_block,
                st0.funcs == old(self).prog@,
                st0.stmts == stmts_view(mains0),
                funcs0 == old(self).prog.funcs@,
                names0 == old(self).prog.names@,
                st0 == old(self)@,
                io@ == old(io)@,
                io.wf(),
            decreases rest@.len(),
        {
            let ghost before = rest@;
            let stmt = rest.remove(0);
            proof {
                assert(stmts_view(before).len() == before.len());
                assert(before.len() == new.len() - k);
                assert(stmts_view(before)[0] == stmt.view());
                assert(rest@ =~= before.subrange(1, before.len() as int));
                assert forall|j: int| 0 <= j < rest@.len() implies #[trigger] stmts_view(rest@)[j] == new.subrange(k + 1, new.len() as int)[j] by {
                    assert(rest@[j] == before[j + 1]);
                    assert(stmts_view(before)[j + 1] == before[j + 1].view());
                    assert(new.subrange(k as int, new.len() as int)[j + 1] == new[k + j + 1]);
                }
                assert(stmts_view(rest@) =~= new.subrange(k + 1, new.len() as int));
            }
            match stmt {
                Statement::Func { name, params, child, line } => {
                    let n = name.value.as_str();
                    if is_reserved_kw(n) || self.prog.contains(n) {
                        self.roll_back(base, base_s);
                        proof {
                            assert(self.prog.names@ =~= names0);
                            assert(self.prog.funcs@ =~= funcs0);
                            assert(self.main_stmts@ =~= mains0);
                        }
                        return Err(Error::DuplicateToken { line, value: name.value });
                    }
                    self.prog.define(n, Function { params, root: child, line });
                    proof {
                        assert(self.prog.names@.subrange(0, base as int) =~= names0);
                        assert(self.prog.funcs@.subrange(0, base as int) =~= funcs0);
                    }
                },
                Statement::Ret { line, .. } => {
                    self.roll_back(base, base_s);
                    proof {
                        assert(self.prog.names@ =~= names0);
                        assert(self.prog.funcs@ =~= funcs0);
                        assert(self.main_stmts@ =~= mains0);
                    }
                    return Err(Error::WildStatement { line });
                },
                other => {
                    let ghost sv = other.view();
                    let ghost prev = self.main_stmts@;
                    self.main_stmts.push(other);
                    proof {
                        assert(stmts_view(self.main_stmts@) =~= stmts_view(prev).push(sv));
                        assert(self.main_stmts@.subrange(0, base_s as int) =~= mains0);
                    }
                },
            }
            k = k + 1;
        }
        // attempt execution on a copy of the scope
        let mut scope = self.scope.copy();
        let end = self.main_stmts.len();
        match exec_range(&self.prog, &mut scope, io, &self.main_stmts, self.exec_ptr, end, depth) {
            Ok(()) => {},
            Err(e) => {
                self.roll_back(base, base_s);
                proof {
                    assert(self.prog.names@ =~= names0);
                    assert(self.prog.funcs@ =~= funcs0);
                    assert(self.main_stmts@ =~= mains0);
                }
                return Err(e);
            },
        }
        // write back state
        self.scope = scope;
        self.ptr = q;
        self.exec_ptr = end;
        Ok(())
    }

    /// Feeds one input line to the session, within a budget of `depth`.
    /// A failure other than an open block is reported on `io` and leaves the
    /// session as it was before the line, any open block dropped.
    pub fn feed(&mut self, line: String, io: &mut Io, depth: u64) -> (r: Result<(), Error>)
        requires
            old(self).wf(),
            old(io).wf(),
        ensures
            final(self).wf(),
            final(io).wf(),
            (match r {
                Ok(()) => Ok::<(), ErrorView>(()),
                Err(e) => Err::<(), ErrorView>(e@),
            }, final(self)@, final(io)@) == feed_step(old(self)@, line, old(io)@, depth as nat),
    {
        self.lines.push(line);
        match self.execute_block(io, depth) {
            Ok(()) => {
                self.in_block = false;
                Ok(())
            },
            Err(e) => {
                let unclosed = match e {
                    Error::UnclosedBlock => true,
                    _ => false,
                };
                if unclosed {
                    self.in_block = true;
                    return Err(e);
                }
                let msg = format_runtime_err(None, &self.lines, &e, 0);
                io.output.append(msg.as_str());
                self.lines.truncate(self.ptr);
                self.in_block = false;
                Err(e)
            },
        }
    }
}

} // verus!
