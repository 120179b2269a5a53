//! The syntax tree: expressions, statements and blocks, with their mathematical views.
use vstd::prelude::*;
use crate::text::{decimal, decimal_string};
use crate::token::Token;

verus! {

broadcast use vstd::std_specs::vec::group_vec_axioms;

/// The texts of a sequence of tokens.
pub open spec fn token_texts(v: Seq<Token>) -> Seq<Seq<char>> {
    v.map_values(|t: Token| t@)
}

/// The texts of a sequence of strings.
pub open spec fn string_texts(v: Seq<String>) -> Seq<Seq<char>> {
    v.map_values(|s: String| s@)
}

/// An expression: tokens in prefix order.
pub struct Expr {
    pub tokens: Vec<Token>,
}

impl View for Expr {
    type V = Seq<Seq<char>>;

    open spec fn view(&self) -> Seq<Seq<char>> {
        token_texts(self.tokens@)
    }
}

/// The mathematical form of a statement.
pub enum Stmt {
    Assign { var: Seq<char>, expr: Seq<Seq<char>>, line: usize },
    Cond { expr: Seq<Seq<char>>, body: Seq<Stmt>, line: usize },
    Loop { expr: Seq<Seq<char>>, body: Seq<Stmt>, line: usize },
    Print { vars: Seq<Seq<char>>, line: usize },
    Ret { expr: Seq<Seq<char>>, line: usize },
    Func { name: Seq<char>, params: Seq<Seq<char>>, body: Seq<Stmt>, line: usize },
}

impl Stmt {
    pub open spec fn line_of(self) -> usize {
        match self {
            Stmt::Assign { line, .. } => line,
            Stmt::Cond { line, .. } => line,
            Stmt::Loop { line, .. } => line,
            Stmt::Print { line, .. } => line,
            Stmt::Ret { line, .. } => line,
            Stmt::Func { line, .. } => line,
        }
    }
}

/// A statement; `line` is the index of the source line that opens it.
pub enum Statement {
    Assign { var: Token, expr: Expr, line: usize },
    Cond { expr: Expr, child: Node, line: usize },
    Loop { expr: Expr, child: Node, line: usize },
    Print { vars: Vec<Token>, line: usize },
    Ret { expr: Expr, line: usize },
    Func { name: Token, params: Vec<Token>, child: Node, line: usize },
}

/// A block: statements in order.
pub struct Node {
    pub stmts: Vec<Statement>,
}

impl Statement {
    pub open spec fn view(&self) -> Stmt
        decreases self,
    {
        match self {
            Statement::Assign { var, expr, line } => Stmt::Assign { var: var@, expr: expr@, line: *line },
            Statement::Cond { expr, child, line } => Stmt::Cond { expr: expr@, body: child.view(), line: *line },
            Statement::Loop { expr, child, line } => Stmt::Loop { expr: expr@, body: child.view(), line: *line },
            Statement::Print { vars, line } => Stmt::Print { vars: token_texts(vars@), line: *line },
            Statement::Ret { expr, line } => Stmt::Ret { expr: expr@, line: *line },
            Statement::Func { name, params, child, line } => Stmt::Func {
                name: name@,
                params: token_texts(params@),
                body: child.view(),
                line: *line,
            },
        }
    }

    /// The line of the statement.
    pub fn line(&self) -> (r: usize)
        ensures
            r == self.view().line_of(),
    {
        match self {
            Statement::Assign { line, .. } => *line,
            Statement::Cond { line, .. } => *line,
            Statement::Loop { line, .. } => *line,
            Statement::Print { line, .. } => *line,
            Statement::Ret { line, .. } => *line,
            Statement::Func { line, .. } => *line,
        }
    }
}

impl Node {
    pub open spec fn view(&self) -> Seq<Stmt>
        decreases self,
    {
        Seq::new(
            self.stmts@.len(),
            |i: int|
                if 0 <= i < self.stmts.len() {
                    self.stmts[i].view()
                } else {
                    Stmt::Print { vars: Seq::empty(), line: 0 }
                },
        )
    }
}

/// Items separated by `, `.
pub open spec fn joined(items: Seq<Seq<char>>) -> Seq<char>
    decreases items.len(),
{
    if items.len() == 0 {
        Seq::empty()
    } else if items.len() == 1 {
        items[0]
    } else {
        joined(items.drop_last()) + ", "@ + items.last()
    }
}

/// A list written as `[a, b, c]`.
pub open spec fn list_text(items: Seq<Seq<char>>) -> Seq<char> {
    "["@ + joined(items) + "]"@
}

/// The debugging text of a statement, e.g. `let(x <- [+, x, 1] @ 3)`.
pub open spec fn stmt_text(s: Stmt) -> Seq<char>
    decreases s, 2int,
{
    match s {
        Stmt::Assign { var, expr, line } => "let("@ + var + " <- "@ + list_text(expr) + " @ "@ + decimal(line as int) + ")"@,
        Stmt::Cond { expr, body, line } => "if("@ + list_text(expr) + " => "@ + block_text(body) + " @ "@ + decimal(line as int) + ")"@,
        Stmt::Loop { expr, body, line } => "while("@ + list_text(expr) + " => "@ + block_text(body) + " @ "@ + decimal(line as int) + ")"@,
        Stmt::Print { vars, line } => "print("@ + list_text(vars) + " @ "@ + decimal(line as int) + ")"@,
        Stmt::Ret { expr, line } => "ret("@ + list_text(expr) + " @ "@ + decimal(line as int) + ")"@,
        Stmt::Func { name, params, body, line } => "def("@ + name + " -> "@ + list_text(params) + " => "@ + block_text(body) + " @ "@
            + decimal(line as int) + ")"@,
    }
}

/// The debugging text of a block: its statements as a list.
pub open spec fn block_text(b: Seq<Stmt>) -> Seq<char>
    decreases b, 1int,
{
    "["@ + block_items(b) + "]"@
}

/// The statements' texts separated by `, `.
pub open spec fn block_items(b: Seq<Stmt>) -> Seq<char>
    decreases b, 0int,
{
    if b.len() == 0 {
        Seq::empty()
    } else if b.len() == 1 {
        stmt_text(b[0])
    } else {
        block_items(b.drop_last()) + ", "@ + stmt_text(b.last())
    }
}

/// Writes `[t1, t2, ...]` for the texts of `v`.
fn tokens_text(v: &Vec<Token>) -> (r: String)
    ensures
        r@ == list_text(token_texts(v@)),
{
    let ghost items = token_texts(v@);
    let mut out = String::new();
    let mut i: usize = 0;
    while i < v.len()
        invariant
            i <= v@.len(),
            items == token_texts(v@),
            out@ == joined(items.subrange(0, i as int)),
        decreases v@.len() - i,
    {
        proof {
            assert(items.subrange(0, i + 1).drop_last() =~= items.subrange(0, i as int));
        }
        if i > 0 {
            out.append(", ");
        }
        out.append(v[i].value.as_str());
        proof {
            if i == 0 {
                assert(out@ =~= items.subrange(0, 1)[0]);
            }
        }
        i = i + 1;
    }
    proof {
        assert(items.subrange(0, i as int) =~= items);
    }
    let mut r = String::from_str("[");
    r.append(out.as_str());
    r.append("]");
    r
}

/// ` @ line)`.
fn close_text(r: &mut String, line: usize)
    ensures
        final(r)@ == old(r)@ + " @ "@ + decimal(line as int) + ")"@,
{
    r.append(" @ ");
    r.append(decimal_string(line as i128).as_str());
    r.append(")");
}

impl Statement {
    /// The statement's debugging text, e.g. `let(x <- [+, x, 1] @ 3)`.
    pub fn describe(&self) -> (r: String)
        ensures
            r@ == stmt_text(self.view()),
        decreases self,
    {
        match self {
            Statement::Assign { var, expr, line } => {
                let mut r = String::from_str("let(");
                r.append(var.value.as_str());
                r.append(" <- ");
                r.append(tokens_text(&expr.tokens).as_str());
                close_text(&mut r, *line);
                proof {
                    assert(r@ =~= stmt_text(self.view()));
                }
                r
            },
            Statement::Cond { expr, child, line } => {
                let mut r = String::from_str("if(");
                r.append(tokens_text(&expr.tokens).as_str());
                r.append(" => ");
                r.append(child.describe().as_str());
                close_text(&mut r, *line);
                proof {
                    assert(r@ =~= stmt_text(self.view()));
                }
                r
            },
            Statement::Loop { expr, child, line } => {
                let mut r = String::from_str("while(");
                r.append(tokens_text(&expr.tokens).as_str());
                r.append(" => ");
                r.append(child.describe().as_str());
                close_text(&mut r, *line);
                proof {
                    assert(r@ =~= stmt_text(self.view()));
                }
                r
            },
            Statement::Print { vars, line } => {
                let mut r = String::from_str("print(");
                r.append(tokens_text(vars).as_str());
                close_text(&mut r, *line);
                proof {
                    assert(r@ =~= stmt_text(self.view()));
                }
                r
            },
            Statement::Ret { expr, line } => {
                let mut r = String::from_str("ret(");
                r.append(tokens_text(&expr.tokens).as_str());
                close_text(&mut r, *line);
                proof {
                    assert(r@ =~= stmt_text(self.view()));
                }
                r
            },
            Statement::Func { name, params, child, line } => {
                let mut r = String::from_str("def(");
                r.append(name.value.as_str());
                r.append(" -> ");
                r.append(tokens_text(params).as_str());
                r.append(" => ");
                r.append(child.describe().as_str());
                close_text(&mut r, *line);
                proof {
                    assert(r@ =~= stmt_text(self.view()));
                }
                r
            },
        }
    }
}

impl Node {
    /// The block's debugging text: its statements as a list.
    pub fn describe(&self) -> (r: String)
        ensures
            r@ == block_text(self.view()),
        decreases self,
    {
        let ghost b = self.view();
        let mut out = String::new();
        let mut i: usize = 0;
        while i < self.stmts.len()
            invariant
                i <= self.stmts@.len(),
                b == self.view(),
                b.len() == self.stmts@.len(),
                out@ == block_items(b.subrange(0, i as int)),
            decreases self.stmts@.len() - i,
        {
            proof {
                assert(b.subrange(0, i + 1).drop_last() =~= b.subrange(0, i as int));
                assert(b[i as int] == self.stmts@[i as int].view());
            }
            if i > 0 {
                out.append(", ");
            }
            out.append(self.stmts[i].describe().as_str());
            proof {
                if i == 0 {
                    assert(b.subrange(0, 1)[0] == b[0]);
                }
            }
            i = i + 1;
        }
        proof {
            assert(b.subrange(0, i as int) =~= b);
        }
        let mut r = String::from_str("[");
        r.append(out.as_str());
        r.append("]");
        r
    }
}

} // verus!
