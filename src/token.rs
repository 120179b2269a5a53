//! Tokens: validated identifiers, literals and operator glyphs.
use vstd::prelude::*;
use crate::error::{Error, ErrorView};

verus! {

/// The longest token accepted.
pub const TOKEN_MAX: usize = 63;

/// Whether `c` may stand in a token: `[a-z_]` always; digits and the glyphs
/// `< = > + - * % /` only when literals are allowed.
pub open spec fn allowed_char(c: char, literals: bool) -> bool {
    ||| ('a' <= c && c <= 'z')
    ||| c == '_'
    ||| (literals && (('0' <= c && c <= '9') || c == '<' || c == '=' || c == '>' || c == '+'
        || c == '-' || c == '*' || c == '%' || c == '/'))
}

/// The index of the first character of `s`, from `i` on, that is not allowed;
/// `s.len()` when there is none.
pub open spec fn first_illegal(s: Seq<char>, literals: bool, i: int) -> int
    decreases s.len() - i,
{
    if i >= s.len() || i < 0 {
        s.len() as int
    } else if !allowed_char(s[i], literals) {
        i
    } else {
        first_illegal(s, literals, i + 1)
    }
}

/// What validating `s` as a token on line `line` gives: the text itself, or
/// the failure.
pub open spec fn token_result(s: Seq<char>, line: usize, literals: bool) -> Result<Seq<char>, ErrorView> {
    if s.len() > TOKEN_MAX {
        Err(ErrorView::TokenTooLong { line, value: s.len() as usize })
    } else if first_illegal(s, literals, 0) < s.len() {
        Err(ErrorView::IllegalChar { line, value: s[first_illegal(s, literals, 0)] })
    } else {
        Ok(s)
    }
}

/// The reserved words of the language.
pub open spec fn reserved(w: Seq<char>) -> bool {
    ||| w == "and"@
    ||| w == "or"@
    ||| w == "xor"@
    ||| w == "not"@
    ||| w == "scan"@
    ||| w == "let"@
    ||| w == "if"@
    ||| w == "then"@
    ||| w == "while"@
    ||| w == "do"@
    ||| w == "function"@
    ||| w == "as"@
    ||| w == "return"@
    ||| w == "end"@
    ||| w == "print"@
}

/// Whether two strings hold the same characters.
pub fn same_text(a: &str, b: &str) -> (r: bool)
    ensures
        r == (a@ == b@),
{
    let n = a.unicode_len();
    if n != b.unicode_len() {
        return false;
    }
    let mut i: usize = 0;
    while i < n
        invariant
            n == a@.len(),
            n == b@.len(),
            i <= n,
            a@.subrange(0, i as int) == b@.subrange(0, i as int),
        decreases n - i,
    {
        if a.get_char(i) != b.get_char(i) {
            return false;
        }
        proof {
            assert(a@.subrange(0, i + 1) =~= a@.subrange(0, i as int).push(a@[i as int]));
            assert(b@.subrange(0, i + 1) =~= b@.subrange(0, i as int).push(b@[i as int]));
        }
        i = i + 1;
    }
    proof {
        assert(a@ =~= a@.subrange(0, n as int));
        assert(b@ =~= b@.subrange(0, n as int));
    }
    true
}

/// Whether `token` is a reserved word.
pub fn is_reserved_kw(token: &str) -> (r: bool)
    ensures
        r == reserved(token@),
{
    same_text(token, "and") || same_text(token, "or") || same_text(token, "xor")
        || same_text(token, "not") || same_text(token, "scan") || same_text(token, "let")
        || same_text(token, "if") || same_text(token, "then") || same_text(token, "while")
        || same_text(token, "do") || same_text(token, "function") || same_text(token, "as")
        || same_text(token, "return") || same_text(token, "end") || same_text(token, "print")
}

/// A validated token.
pub struct Token {
    pub value: String,
}

impl View for Token {
    type V = Seq<char>;

    open spec fn view(&self) -> Seq<char> {
        self.value@
    }
}

impl Token {
    /// Validates `s` as a token of line `ptr`; with `allow_const`, digits and
    /// operator glyphs are accepted too.
    pub fn from(s: &str, ptr: usize, allow_const: bool) -> (r: Result<Token, Error>)
        ensures
            match r {
                Ok(t) => token_result(s@, ptr, allow_const) == Ok::<Seq<char>, ErrorView>(t@),
                Err(e) => token_result(s@, ptr, allow_const) == Err::<Seq<char>, ErrorView>(e@),
            },
    {
        let n = s.unicode_len();
        if n > TOKEN_MAX {
            return Err(Error::TokenTooLong { line: ptr, value: n });
        }
        let mut i: usize = 0;
        while i < n
            invariant
                n == s@.len(),
                n <= TOKEN_MAX,
                i <= n,
                first_illegal(s@, allow_const, 0) == first_illegal(s@, allow_const, i as int),
            decreases n - i,
        {
            let c = s.get_char(i);
            let ok = ('a' <= c && c <= 'z') || c == '_' || (allow_const && (('0' <= c && c <= '9')
                || c == '<' || c == '=' || c == '>' || c == '+' || c == '-' || c == '*' || c == '%'
                || c == '/'));
            if !ok {
                assert(first_illegal(s@, allow_const, i as int) == i as int);
                return Err(Error::IllegalChar { line: ptr, value: c });
            }
            i = i + 1;
        }
        Ok(Token { value: String::from_str(s) })
    }

    /// A token that may also be a literal or an operator.
    pub fn from_any(ptr: usize, s: &str) -> (r: Result<Token, Error>)
        ensures
            match r {
                Ok(t) => token_result(s@, ptr, true) == Ok::<Seq<char>, ErrorView>(t@),
                Err(e) => token_result(s@, ptr, true) == Err::<Seq<char>, ErrorView>(e@),
            },
    {
        Self::from(s, ptr, true)
    }

    /// A token that must be an identifier.
    pub fn from_var(ptr: usize, s: &str) -> (r: Result<Token, Error>)
        ensures
            match r {
                Ok(t) => token_result(s@, ptr, false) == Ok::<Seq<char>, ErrorView>(t@),
                Err(e) => token_result(s@, ptr, false) == Err::<Seq<char>, ErrorView>(e@),
            },
    {
        Self::from(s, ptr, false)
    }

    /// A token with the same text.
    pub fn copy(&self) -> (r: Token)
        ensures
            r@ == self@,
    {
        Token { value: self.value.clone() }
    }
}

} // verus!
