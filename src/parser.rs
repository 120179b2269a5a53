//! The parser: source lines to a block of statements.
use vstd::prelude::*;
use crate::error::{Error, ErrorView};
use crate::lexer::{source_words, split_words};
use crate::syntax::{Expr, Node, Statement, Stmt, string_texts, token_texts};
use crate::token::{Token, token_result, reserved, is_reserved_kw, same_text};

verus! {

broadcast use vstd::std_specs::vec::group_vec_axioms;

/// Most parameters a function may declare.
pub const PARAM_MAX: usize = 16;

/// A parse outcome: the value and the index of the first line after it, or the failure.
pub type Parsed<T> = Result<(T, int), ErrorView>;

/// The first failure among the tokens `ws[lo..hi]` of line `line`, if any.
pub open spec fn first_token_error(ws: Seq<Seq<char>>, lo: int, hi: int, line: usize, lit: bool) -> Option<ErrorView>
    decreases hi - lo,
{
    if lo >= hi {
        None
    } else {
        match token_result(ws[lo], line, lit) {
            Err(e) => Some(e),
            Ok(_) => first_token_error(ws, lo + 1, hi, line, lit),
        }
    }
}

/// The first failure among the parameters `ws[lo..hi]`: a bad identifier or a reserved word.
pub open spec fn first_param_error(ws: Seq<Seq<char>>, lo: int, hi: int, line: usize) -> Option<ErrorView>
    decreases hi - lo,
{
    if lo >= hi {
        None
    } else {
        match token_result(ws[lo], line, false) {
            Err(e) => Some(e),
            Ok(_) => if reserved(ws[lo]) {
                Some(ErrorView::DuplicateToken { line, value: ws[lo] })
            } else {
                first_param_error(ws, lo + 1, hi, line)
            },
        }
    }
}

/// Parses the statements from line `ptr` on, up to the line `end <term>`;
/// with an empty `term`, up to the end of the source. `wl` holds the words of each line.
pub open spec fn block_from(wl: Seq<Seq<Seq<char>>>, ptr: int, term: Seq<char>) -> Parsed<Seq<Stmt>>
    decreases wl.len() - ptr, 1int,
{
    if ptr < 0 || ptr >= wl.len() {
        if term.len() == 0 {
            Ok((Seq::empty(), ptr))
        } else {
            Err(ErrorView::UnclosedBlock)
        }
    } else {
        let ws = wl[ptr];
        if ws.len() == 0 {
            block_from(wl, ptr + 1, term)
        } else if ws[0] == "end"@ {
            if ws.len() == 2 && ws[1] == term {
                Ok((Seq::empty(), ptr + 1))
            } else {
                Err(ErrorView::MalformedEnd { line: ptr as usize })
            }
        } else {
            match statement_at(wl, ptr) {
                Err(e) => Err(e),
                Ok((s, p)) => if p <= ptr || p > wl.len() {
                    // a statement always takes at least its own line
                    Err(ErrorView::UnclosedBlock)
                } else {
                    match block_from(wl, p, term) {
                        Err(e) => Err(e),
                        Ok((rest, q)) => Ok((seq![s] + rest, q)),
                    }
                },
            }
        }
    }
}

/// Parses the statement that line `l` opens (its words are not empty and do not start with `end`).
pub open spec fn statement_at(wl: Seq<Seq<Seq<char>>>, l: int) -> Parsed<Stmt>
    decreases wl.len() - l, 0int,
{
    if l < 0 || l >= wl.len() || wl[l].len() == 0 {
        Err(ErrorView::UnclosedBlock)
    } else {
        let ws = wl[l];
        let n = ws.len() as int;
        let line = l as usize;
        if ws[0] == "let"@ {
            if n < 4 {
                Err(ErrorView::MalformedAssign { line })
            } else {
                match token_result(ws[1], line, false) {
                    Err(e) => Err(e),
                    Ok(v) => match first_token_error(ws, 3, n, line, true) {
                        Some(e) => Err(e),
                        None => Ok((Stmt::Assign { var: v, expr: ws.subrange(3, n), line }, l + 1)),
                    },
                }
            }
        } else if ws[0] == "if"@ || ws[0] == "while"@ {
            let is_if = ws[0] == "if"@;
            if n < 3 || ws[n - 1] != (if is_if { "then"@ } else { "do"@ }) {
                if is_if {
                    Err(ErrorView::MalformedCond { line })
                } else {
                    Err(ErrorView::MalformedLoop { line })
                }
            } else {
                match first_token_error(ws, 1, n - 1, line, true) {
                    Some(e) => Err(e),
                    None => match block_from(wl, l + 1, ws[0]) {
                        Err(e) => Err(e),
                        Ok((body, p)) => if is_if {
                            Ok((Stmt::Cond { expr: ws.subrange(1, n - 1), body, line }, p))
                        } else {
                            Ok((Stmt::Loop { expr: ws.subrange(1, n - 1), body, line }, p))
                        },
                    },
                }
            }
        } else if ws[0] == "print"@ {
            match first_token_error(ws, 1, n, line, false) {
                Some(e) => Err(e),
                None => Ok((Stmt::Print { vars: ws.subrange(1, n), line }, l + 1)),
            }
        } else if ws[0] == "return"@ {
            if n < 2 {
                Err(ErrorView::MalformedRet { line })
            } else {
                match first_token_error(ws, 1, n, line, true) {
                    Some(e) => Err(e),
                    None => Ok((Stmt::Ret { expr: ws.subrange(1, n), line }, l + 1)),
                }
            }
        } else if ws[0] == "function"@ {
            if n < 3 || ws[n - 1] != "as"@ {
                Err(ErrorView::MalformedFunc { line })
            } else {
                match token_result(ws[1], line, false) {
                    Err(e) => Err(e),
                    Ok(name) => match first_param_error(ws, 2, n - 1, line) {
                        Some(e) => Err(e),
                        None => if n - 3 > PARAM_MAX {
                            Err(ErrorView::MalformedFunc { line })
                        } else {
                            match block_from(wl, l + 1, "function"@) {
                                Err(e) => Err(e),
                                Ok((body, p)) => Ok((Stmt::Func { name, params: ws.subrange(2, n - 1), body, line }, p)),
                            }
                        },
                    },
                }
            }
        } else {
            Err(ErrorView::UnknownToken { line, value: ws[0] })
        }
    }
}

/// The whole source parsed as one top-level block.
pub open spec fn parse_source(lines: Seq<String>) -> Result<Seq<Stmt>, ErrorView> {
    match block_from(source_words(lines), 0, Seq::empty()) {
        Ok((b, _)) => Ok(b),
        Err(e) => Err(e),
    }
}

/// The views of a sequence of statements.
pub open spec fn stmts_view(v: Seq<Statement>) -> Seq<Stmt> {
    Seq::new(v.len(), |i: int| v[i].view())
}

/// The mathematical form of an executable parse outcome (and likewise below).
pub open spec fn stmt_outcome(r: Result<(Statement, usize), Error>) -> Parsed<Stmt> {
    match r {
        Ok((s, p)) => Ok((s.view(), p as int)),
        Err(e) => Err(e@),
    }
}

pub open spec fn node_outcome(r: Result<(Node, usize), Error>) -> Parsed<Seq<Stmt>> {
    match r {
        Ok((n, p)) => Ok((n.view(), p as int)),
        Err(e) => Err(e@),
    }
}

/// A parse outcome with `acc` put before its statements.
pub open spec fn prepend(acc: Seq<Stmt>, r: Parsed<Seq<Stmt>>) -> Parsed<Seq<Stmt>> {
    match r {
        Ok((rest, q)) => Ok((acc + rest, q)),
        Err(e) => Err(e),
    }
}

proof fn lemma_prepend_push(acc: Seq<Stmt>, s: Stmt, r: Parsed<Seq<Stmt>>)
    ensures
        prepend(acc, prepend(seq![s], r)) == prepend(acc.push(s), r),
{
    match r {
        Ok((rest, q)) => {
            assert(acc + (seq![s] + rest) =~= acc.push(s) + rest);
        },
        Err(e) => {},
    }
}

/// The statement heads differ in their first character.
proof fn lemma_heads()
    ensures
        "let"@.len() == 3 && "let"@[0] == 'l',
        "if"@.len() == 2 && "if"@[0] == 'i',
        "while"@.len() == 5 && "while"@[0] == 'w',
        "print"@.len() == 5 && "print"@[0] == 'p',
        "return"@.len() == 6 && "return"@[0] == 'r',
        "function"@.len() == 8 && "function"@[0] == 'f',
        "end"@.len() == 3 && "end"@[0] == 'e',
{
    reveal_strlit("let");
    reveal_strlit("if");
    reveal_strlit("while");
    reveal_strlit("print");
    reveal_strlit("return");
    reveal_strlit("function");
    reveal_strlit("end");
}

/// The tokens `words[lo..hi]` of line `line`.
fn tokens_of(words: &Vec<String>, lo: usize, hi: usize, line: usize, lit: bool) -> (r: Result<Vec<Token>, Error>)
    requires
        lo <= hi <= words@.len(),
    ensures
        match r {
            Ok(v) => first_token_error(string_texts(words@), lo as int, hi as int, line, lit) is None
                && token_texts(v@) == string_texts(words@).subrange(lo as int, hi as int),
            Err(e) => first_token_error(string_texts(words@), lo as int, hi as int, line, lit) == Some(e@),
        },
{
    let ghost ws = string_texts(words@);
    let mut out: Vec<Token> = Vec::new();
    let mut i = lo;
    while i < hi
        invariant
            lo <= i <= hi <= words@.len(),
            ws == string_texts(words@),
            first_token_error(ws, lo as int, hi as int, line, lit) == first_token_error(ws, i as int, hi as int, line, lit),
            token_texts(out@) == ws.subrange(lo as int, i as int),
        decreases hi - i,
    {
        match Token::from(words[i].as_str(), line, lit) {
            Err(e) => {
                return Err(e);
            },
            Ok(t) => {
                let ghost prev = out@;
                out.push(t);
                proof {
                    assert(token_texts(out@) =~= token_texts(prev).push(ws[i as int]));
                    assert(ws.subrange(lo as int, i + 1) =~= ws.subrange(lo as int, i as int).push(ws[i as int]));
                }
            },
        }
        i = i + 1;
    }
    Ok(out)
}

fn parse_stmt_assign(lines: &Vec<String>, l: usize, words: &Vec<String>) -> (r: Result<(Statement, usize), Error>)
    requires
        l < lines@.len(),
        string_texts(words@) == source_words(lines@)[l as int],
        words@.len() > 0,
        words@[0]@ == "let"@,
    ensures
        stmt_outcome(r) == statement_at(source_words(lines@), l as int),
{
    // let <variable> = <expression>
    let _ = lines.len();
    let len = words.len();
    if len < 4 {
        return Err(Error::MalformedAssign { line: l });
    }
    let var = match Token::from_var(l, words[1].as_str()) {
        Ok(t) => t,
        Err(e) => return Err(e),
    };
    let tokens = match tokens_of(words, 3, len, l, true) {
        Ok(v) => v,
        Err(e) => return Err(e),
    };
    Ok((Statement::Assign { var, expr: Expr { tokens }, line: l }, l + 1))
}

fn parse_stmt_print(lines: &Vec<String>, l: usize, words: &Vec<String>) -> (r: Result<(Statement, usize), Error>)
    requires
        l < lines@.len(),
        string_texts(words@) == source_words(lines@)[l as int],
        words@.len() > 0,
        words@[0]@ == "print"@,
    ensures
        stmt_outcome(r) == statement_at(source_words(lines@), l as int),
{
    // print <var1> <var2> ... <varn>, possibly none
    proof {
        lemma_heads();
    }
    let _ = lines.len();
    let vars = match tokens_of(words, 1, words.len(), l, false) {
        Ok(v) => v,
        Err(e) => return Err(e),
    };
    Ok((Statement::Print { vars, line: l }, l + 1))
}

fn parse_stmt_ret(lines: &Vec<String>, l: usize, words: &Vec<String>) -> (r: Result<(Statement, usize), Error>)
    requires
        l < lines@.len(),
        string_texts(words@) == source_words(lines@)[l as int],
        words@.len() > 0,
        words@[0]@ == "return"@,
    ensures
        stmt_outcome(r) == statement_at(source_words(lines@), l as int),
{
    // return <expression>
    proof {
        lemma_heads();
    }
    let _ = lines.len();
    let len = words.len();
    if len < 2 {
        return Err(Error::MalformedRet { line: l });
    }
    let tokens = match tokens_of(words, 1, len, l, true) {
        Ok(v) => v,
        Err(e) => return Err(e),
    };
    Ok((Statement::Ret { expr: Expr { tokens }, line: l }, l + 1))
}

/// The parameters `words[lo..hi]` of a function head on line `line`.
fn params_of(words: &Vec<String>, lo: usize, hi: usize, line: usize) -> (r: Result<Vec<Token>, Error>)
    requires
        lo <= hi <= words@.len(),
    ensures
        match r {
            Ok(v) => first_param_error(string_texts(words@), lo as int, hi as int, line) is None
                && token_texts(v@) == string_texts(words@).subrange(lo as int, hi as int),
            Err(e) => first_param_error(string_texts(words@), lo as int, hi as int, line) == Some(e@),
        },
{
    let ghost ws = string_texts(words@);
    let mut out: Vec<Token> = Vec::new();
    let mut i = lo;
    while i < hi
        invariant
            lo <= i <= hi <= words@.len(),
            ws == string_texts(words@),
            first_param_error(ws, lo as int, hi as int, line) == first_param_error(ws, i as int, hi as int, line),
            token_texts(out@) == ws.subrange(lo as int, i as int),
        decreases hi - i,
    {
        let token = match Token::from_var(line, words[i].as_str()) {
            Err(e) => {
                return Err(e);
            },
            Ok(t) => t,
        };
        if is_reserved_kw(token.value.as_str()) {
            return Err(Error::DuplicateToken { line, value: token.value });
        }
        let ghost prev = out@;
        out.push(token);
        proof {
            assert(token_texts(out@) =~= token_texts(prev).push(ws[i as int]));
            assert(ws.subrange(lo as int, i + 1) =~= ws.subrange(lo as int, i as int).push(ws[i as int]));
        }
        i = i + 1;
    }
    Ok(out)
}

fn parse_stmt_cond(lines: &Vec<String>, l: usize, words: &Vec<String>) -> (r: Result<(Statement, usize), Error>)
    requires
        l < lines@.len(),
        string_texts(words@) == source_words(lines@)[l as int],
        words@.len() > 0,
        words@[0]@ == "if"@,
    ensures
        stmt_outcome(r) == statement_at(source_words(lines@), l as int),
        r is Ok ==> l < r->Ok_0.1 <= lines@.len(),
    decreases lines@.len() - l, 0int,
{
    // if <expression> then
    //     <code block>
    // end if
    proof {
        lemma_heads();
    }
    let _ = lines.len();
    let len = words.len();
    if len < 3 || !same_text(words[len - 1].as_str(), "then") {
        return Err(Error::MalformedCond { line: l });
    }
    let tokens = match tokens_of(words, 1, len - 1, l, true) {
        Ok(v) => v,
        Err(e) => return Err(e),
    };
    let (child, p) = match parse_node(lines, l + 1, "if") {
        Ok(v) => v,
        Err(e) => return Err(e),
    };
    Ok((Statement::Cond { expr: Expr { tokens }, child, line: l }, p))
}

fn parse_stmt_loop(lines: &Vec<String>, l: usize, words: &Vec<String>) -> (r: Result<(Statement, usize), Error>)
    requires
        l < lines@.len(),
        string_texts(words@) == source_words(lines@)[l as int],
        words@.len() > 0,
        words@[0]@ == "while"@,
    ensures
        stmt_outcome(r) == statement_at(source_words(lines@), l as int),
        r is Ok ==> l < r->Ok_0.1 <= lines@.len(),
    decreases lines@.len() - l, 0int,
{
    // while <expression> do
    //     <code block>
    // end while
    proof {
        lemma_heads();
    }
    let _ = lines.len();
    let len = words.len();
    if len < 3 || !same_text(words[len - 1].as_str(), "do") {
        return Err(Error::MalformedLoop { line: l });
    }
    let tokens = match tokens_of(words, 1, len - 1, l, true) {
        Ok(v) => v,
        Err(e) => return Err(e),
    };
    let (child, p) = match parse_node(lines, l + 1, "while") {
        Ok(v) => v,
        Err(e) => return Err(e),
    };
    Ok((Statement::Loop { expr: Expr { tokens }, child, line: l }, p))
}

fn parse_stmt_func(lines: &Vec<String>, l: usize, words: &Vec<String>) -> (r: Result<(Statement, usize), Error>)
    requires
        l < lines@.len(),
        string_texts(words@) == source_words(lines@)[l as int],
        words@.len() > 0,
        words@[0]@ == "function"@,
    ensures
        stmt_outcome(r) == statement_at(source_words(lines@), l as int),
        r is Ok ==> l < r->Ok_0.1 <= lines@.len(),
    decreases lines@.len() - l, 0int,
{
    // function <name> <param1> <param2> ... <paramn> as
    //     <code block>
    // end function
    proof {
        lemma_heads();
    }
    let _ = lines.len();
    let len = words.len();
    if len < 3 || !same_text(words[len - 1].as_str(), "as") {
        return Err(Error::MalformedFunc { line: l });
    }
    let name = match Token::from_var(l, words[1].as_str()) {
        Ok(t) => t,
        Err(e) => return Err(e),
    };
    let params = match params_of(words, 2, len - 1, l) {
        Ok(v) => v,
        Err(e) => return Err(e),
    };
    proof {
        assert(token_texts(params@).len() == params@.len());
        assert(params@.len() == len - 3);
    }
    if params.len() > PARAM_MAX {
        return Err(Error::MalformedFunc { line: l });
    }
    let (child, p) = match parse_node(lines, l + 1, "function") {
        Ok(v) => v,
        Err(e) => return Err(e),
    };
    Ok((Statement::Func { name, params, child, line: l }, p))
}

/// Parses the statement that line `l` opens; `words` are that line's words.
fn parse_stmt(lines: &Vec<String>, l: usize, words: &Vec<String>) -> (r: Result<(Statement, usize), Error>)
    requires
        l < lines@.len(),
        string_texts(words@) == source_words(lines@)[l as int],
        words@.len() > 0,
        words@[0]@ != "end"@,
    ensures
        stmt_outcome(r) == statement_at(source_words(lines@), l as int),
        r is Ok ==> l < r->Ok_0.1 <= lines@.len(),
    decreases lines@.len() - l, 1int,
{
    proof {
        lemma_heads();
    }
    let head = words[0].as_str();
    if same_text(head, "let") {
        parse_stmt_assign(lines, l, words)
    } else if same_text(head, "if") {
        parse_stmt_cond(lines, l, words)
    } else if same_text(head, "while") {
        parse_stmt_loop(lines, l, words)
    } else if same_text(head, "print") {
        parse_stmt_print(lines, l, words)
    } else if same_text(head, "return") {
        parse_stmt_ret(lines, l, words)
    } else if same_text(head, "function") {
        parse_stmt_func(lines, l, words)
    } else {
        Err(Error::UnknownToken { line: l, value: String::from_str(head) })
    }
}

/// Parses the statements from line `ptr` on, up to the line `end <term>`;
/// with an empty `term`, up to the end of the source. Gives the block and
/// the index of the first line after it.
pub fn parse_node(lines: &Vec<String>, ptr: usize, term: &str) -> (r: Result<(Node, usize), Error>)
    requires
        ptr <= lines@.len(),
    ensures
        node_outcome(r) == block_from(source_words(lines@), ptr as int, term@),
        r is Ok ==> ptr <= r->Ok_0.1 <= lines@.len(),
        r is Ok && term@.len() > 0 ==> ptr < r->Ok_0.1,
    decreases lines@.len() - ptr, 2int,
{
    let ghost wl = source_words(lines@);
    let n = lines.len();
    let mut stmts: Vec<Statement> = Vec::new();
    let mut cur = ptr;
    proof {
        lemma_heads();
        assert(stmts_view(stmts@) + Seq::<Stmt>::empty() =~= Seq::<Stmt>::empty());
        match block_from(wl, ptr as int, term@) {
            Ok((b, q)) => assert(Seq::<Stmt>::empty() + b =~= b),
            Err(_) => {},
        }
    }
    while cur < n
        invariant
            n == lines@.len(),
            wl == source_words(lines@),
            ptr <= cur <= n,
            block_from(wl, ptr as int, term@) == prepend(stmts_view(stmts@), block_from(wl, cur as int, term@)),
        decreases n - cur,
    {
        let words = split_words(&lines[cur]);
        if words.len() == 0 {
            cur = cur + 1;
            continue;
        }
        if same_text(words[0].as_str(), "end") {
            if words.len() == 2 && same_text(words[1].as_str(), term) {
                proof {
                    assert(Node { stmts }.view() =~= stmts_view(stmts@) + Seq::<Stmt>::empty());
                }
                return Ok((Node { stmts }, cur + 1));
            }
            return Err(Error::MalformedEnd { line: cur });
        }
        match parse_stmt(lines, cur, &words) {
            Ok((s, p)) => {
                proof {
                    lemma_prepend_push(stmts_view(stmts@), s.view(), block_from(wl, p as int, term@));
                }
                let ghost prev = stmts@;
                stmts.push(s);
                proof {
                    assert(stmts_view(stmts@) =~= stmts_view(prev).push(s.view()));
                }
                cur = p;
            },
            Err(e) => {
                return Err(e);
            },
        }
    }
    if term.unicode_len() == 0 {
        proof {
            assert(Node { stmts }.view() =~= stmts_view(stmts@) + Seq::<Stmt>::empty());
        }
        Ok((Node { stmts }, cur))
    } else {
        Err(Error::UnclosedBlock)
    }
}

} // verus!
