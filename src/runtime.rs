//! Run-time state: variable scopes, the function registry and the console buffers.
use vstd::prelude::*;
use crate::syntax::{Node, Stmt, string_texts, token_texts};
use crate::token::Token;

verus! {

broadcast use vstd::std_specs::vec::group_vec_axioms;

/// Variables in scope, by name.
pub type Vars = Map<Seq<char>, i128>;

/// The mathematical form of a function definition.
pub struct FuncView {
    pub params: Seq<Seq<char>>,
    pub body: Seq<Stmt>,
    pub line: usize,
}

/// Defined functions, by name.
pub type Funcs = Map<Seq<char>, FuncView>;

/// The index of the first `k` in `names` from `i` on; `-1` when there is none.
pub open spec fn position(names: Seq<Seq<char>>, k: Seq<char>, i: int) -> int
    decreases names.len() - i,
{
    if i < 0 || i >= names.len() {
        -1
    } else if names[i] == k {
        i
    } else {
        position(names, k, i + 1)
    }
}

/// A found position holds the name sought.
pub proof fn lemma_position(names: Seq<Seq<char>>, k: Seq<char>, i: int)
    requires
        0 <= i,
    ensures
        position(names, k, i) == -1 || (i <= position(names, k, i) < names.len()
            && names[position(names, k, i)] == k),
    decreases names.len() - i,
{
    if i < names.len() && names[i] != k {
        lemma_position(names, k, i + 1);
    }
}

/// Appending a name leaves earlier positions as they were.
pub proof fn lemma_position_push(names: Seq<Seq<char>>, k: Seq<char>, x: Seq<char>, i: int)
    requires
        0 <= i <= names.len(),
    ensures
        position(names.push(k), x, i) == if position(names, x, i) >= 0 {
            position(names, x, i)
        } else if x == k {
            names.len() as int
        } else {
            -1
        },
    decreases names.len() - i,
{
    assert(names.push(k).len() == names.len() + 1);
    if i < names.len() {
        assert(names.push(k)[i] == names[i]);
        if names[i] != x {
            lemma_position_push(names, k, x, i + 1);
        }
    } else {
        assert(names.push(k)[i] == k);
        assert(position(names.push(k), x, i + 1) == -1);
    }
}

/// Finds `k` in `names`.
pub fn find_name(names: &Vec<String>, k: &str) -> (r: Option<usize>)
    ensures
        match r {
            Some(j) => position(string_texts(names@), k@, 0) == j as int && j < names@.len(),
            None => position(string_texts(names@), k@, 0) == -1,
        },
{
    let ghost ns = string_texts(names@);
    let mut i: usize = 0;
    while i < names.len()
        invariant
            i <= names@.len(),
            ns == string_texts(names@),
            position(ns, k@, 0) == position(ns, k@, i as int),
        decreases names@.len() - i,
    {
        if crate::token::same_text(names[i].as_str(), k) {
            return Some(i);
        }
        i = i + 1;
    }
    None
}

/// The variables of one call frame.
pub struct Scope {
    pub names: Vec<String>,
    pub vals: Vec<i128>,
}

impl View for Scope {
    type V = Vars;

    open spec fn view(&self) -> Vars {
        Map::new(
            |k: Seq<char>| position(string_texts(self.names@), k, 0) >= 0,
            |k: Seq<char>| self.vals@[position(string_texts(self.names@), k, 0)],
        )
    }
}

impl Scope {
    pub open spec fn wf(&self) -> bool {
        self.names@.len() == self.vals@.len()
    }

    /// An empty scope.
    pub fn new() -> (r: Scope)
        ensures
            r.wf(),
            r@ == Map::<Seq<char>, i128>::empty(),
    {
        let r = Scope { names: Vec::new(), vals: Vec::new() };
        proof {
            assert(r@ =~= Map::<Seq<char>, i128>::empty());
        }
        r
    }

    /// The value bound to `k`, if any.
    pub fn get(&self, k: &str) -> (r: Option<i128>)
        requires
            self.wf(),
        ensures
            match r {
                Some(v) => self@.contains_key(k@) && self@[k@] == v,
                None => !self@.contains_key(k@),
            },
    {
        match find_name(&self.names, k) {
            Some(j) => Some(self.vals[j]),
            None => None,
        }
    }

    /// Binds `k` to `v`, replacing an earlier binding.
    pub fn set(&mut self, k: &str, v: i128)
        requires
            old(self).wf(),
        ensures
            final(self).wf(),
            final(self)@ == old(self)@.insert(k@, v),
    {
        let ghost before = self@;
        let ghost ns = string_texts(self.names@);
        match find_name(&self.names, k) {
            Some(j) => {
                self.vals.set(j, v);
                proof {
                    assert forall|x: Seq<char>| #[trigger] self@.contains_key(x) == before.insert(k@, v).contains_key(x)
                        && (self@.contains_key(x) ==> self@[x] == before.insert(k@, v)[x]) by {
                        lemma_position(ns, x, 0);
                        lemma_position(ns, k@, 0);
                    }
                    assert(self@ =~= before.insert(k@, v));
                }
            },
            None => {
                self.names.push(String::from_str(k));
                self.vals.push(v);
                proof {
                    let ns2 = string_texts(self.names@);
                    assert(ns2 =~= ns.push(k@));
                    assert forall|x: Seq<char>| #[trigger] self@.contains_key(x) == before.insert(k@, v).contains_key(x)
                        && (self@.contains_key(x) ==> self@[x] == before.insert(k@, v)[x]) by {
                        lemma_position_push(ns, k@, x, 0);
                        lemma_position(ns, x, 0);
                    }
                    assert(self@ =~= before.insert(k@, v));
                }
            },
        }
    }

    /// A scope with the same bindings.
    pub fn copy(&self) -> (r: Scope)
        requires
            self.wf(),
        ensures
            r.wf(),
            r@ == self@,
    {
        let mut names: Vec<String> = Vec::new();
        let mut i: usize = 0;
        while i < self.names.len()
            invariant
                i <= self.names@.len(),
                names@.len() == i,
                forall|j: int| 0 <= j < i ==> #[trigger] names@[j]@ == self.names@[j]@,
            decreases self.names@.len() - i,
        {
            names.push(self.names[i].clone());
            i = i + 1;
        }
        let r = Scope { names, vals: self.vals.clone() };
        proof {
            assert(string_texts(r.names@) =~= string_texts(self.names@));
            assert(r.vals@ =~= self.vals@);
            assert(r@ =~= self@);
        }
        r
    }
}

/// A defined function.
pub struct Function {
    pub params: Vec<Token>,
    pub root: Node,
    pub line: usize,
}

impl View for Function {
    type V = FuncView;

    open spec fn view(&self) -> FuncView {
        FuncView { params: token_texts(self.params@), body: self.root.view(), line: self.line }
    }
}

/// The function registry.
pub struct Program {
    pub names: Vec<String>,
    pub funcs: Vec<Function>,
}

impl View for Program {
    type V = Funcs;

    open spec fn view(&self) -> Funcs {
        Map::new(
            |k: Seq<char>| position(string_texts(self.names@), k, 0) >= 0,
            |k: Seq<char>| self.funcs@[position(string_texts(self.names@), k, 0)]@,
        )
    }
}

impl Program {
    pub open spec fn wf(&self) -> bool {
        self.names@.len() == self.funcs@.len()
    }

    /// An empty registry.
    pub fn new() -> (r: Program)
        ensures
            r.wf(),
            r@ == Map::<Seq<char>, FuncView>::empty(),
    {
        let r = Program { names: Vec::new(), funcs: Vec::new() };
        proof {
            assert(r@ =~= Map::<Seq<char>, FuncView>::empty());
        }
        r
    }

    /// Whether a function named `k` is defined.
    pub fn contains(&self, k: &str) -> (r: bool)
        requires
            self.wf(),
        ensures
            r == self@.contains_key(k@),
    {
        find_name(&self.names, k).is_some()
    }

    /// The function named `k`, if defined.
    pub fn lookup(&self, k: &str) -> (r: Option<&Function>)
        requires
            self.wf(),
        ensures
            match r {
                Some(f) => self@.contains_key(k@) && self@[k@] == f@,
                None => !self@.contains_key(k@),
            },
    {
        match find_name(&self.names, k) {
            Some(j) => Some(&self.funcs[j]),
            None => None,
        }
    }

    /// Adds a function under a name not yet defined.
    pub fn define(&mut self, k: &str, f: Function)
        requires
            old(self).wf(),
            !old(self)@.contains_key(k@),
        ensures
            final(self).wf(),
            final(self)@ == old(self)@.insert(k@, f@),
            final(self).names@.len() == old(self).names@.len() + 1,
            final(self).names@.subrange(0, old(self).names@.len() as int) == old(self).names@,
            final(self).funcs@.subrange(0, old(self).funcs@.len() as int) == old(self).funcs@,
    {
        let ghost before = self@;
        let ghost ns = string_texts(self.names@);
        let ghost fv = f@;
        self.names.push(String::from_str(k));
        self.funcs.push(f);
        proof {
            let ns2 = string_texts(self.names@);
            assert(ns2 =~= ns.push(k@));
            assert forall|x: Seq<char>| #[trigger] self@.contains_key(x) == before.insert(k@, fv).contains_key(x)
                && (self@.contains_key(x) ==> self@[x] == before.insert(k@, fv)[x]) by {
                lemma_position_push(ns, k@, x, 0);
                lemma_position(ns, x, 0);
            }
            assert(self@ =~= before.insert(k@, fv));
            assert(self.names@.subrange(0, old(self).names@.len() as int) =~= old(self).names@);
            assert(self.funcs@.subrange(0, old(self).funcs@.len() as int) =~= old(self).funcs@);
        }
    }

    /// Removes the functions defined after the first `n`.
    pub fn truncate(&mut self, n: usize)
        requires
            old(self).wf(),
            n <= old(self).names@.len(),
        ensures
            final(self).wf(),
            final(self).names@ == old(self).names@.subrange(0, n as int),
            final(self).funcs@ == old(self).funcs@.subrange(0, n as int),
    {
        self.names.truncate(n);
        self.funcs.truncate(n);
    }
}

/// The mathematical form of the console: lines offered to `scan`, how many
/// were read, what was written, whether `scan` found no line left, and how
/// much had been written at that moment.
pub struct IoView {
    pub input: Seq<Seq<char>>,
    pub consumed: nat,
    pub output: Seq<char>,
    pub starved: bool,
    pub stop: nat,
}

/// The console of a run: the input lines that `scan` reads in order, and the
/// text written by `print` and by the `scan` prompt. When `scan` finds no line
/// left it reads as at end of input, `starved` is set and `stop` records the
/// length of the output (in characters) at that moment, so that a driver may
/// show the output up to there, supply more input and run again.
pub struct Io {
    pub input: Vec<String>,
    pub consumed: usize,
    pub output: String,
    pub starved: bool,
    pub stop: usize,
}

impl View for Io {
    type V = IoView;

    open spec fn view(&self) -> IoView {
        IoView {
            input: string_texts(self.input@),
            consumed: self.consumed as nat,
            output: self.output@,
            starved: self.starved,
            stop: self.stop as nat,
        }
    }
}

impl Io {
    pub open spec fn wf(&self) -> bool {
        self.consumed <= self.input@.len()
    }

    /// A console offering `input` to `scan`, with nothing written yet.
    pub fn new(input: Vec<String>) -> (r: Io)
        ensures
            r.wf(),
            r@ == (IoView { input: string_texts(input@), consumed: 0, output: Seq::empty(), starved: false, stop: 0 }),
    {
        Io { input, consumed: 0, output: String::new(), starved: false, stop: 0 }
    }

    /// Everything written so far.
    pub fn output(&self) -> (r: &String)
        ensures
            r@ == self@.output,
    {
        &self.output
    }

    /// Whether `scan` found no line left.
    pub fn starved(&self) -> (r: bool)
        ensures
            r == self@.starved,
    {
        self.starved
    }

    /// The length of the output, in characters, when `scan` found no line left.
    pub fn stop(&self) -> (r: usize)
        ensures
            r == self@.stop,
    {
        self.stop
    }
}

} // verus!
