//! Typed failures of parsing and execution, with the source line they concern.
use vstd::prelude::*;
use crate::text::{char_debug, char_debug_text, decimal, decimal_string, str_debug, str_debug_text};

verus! {

/// A failure of parsing or execution. `line` is the index of the source line
/// concerned, counted from zero.
pub enum Error {
    IllegalChar { line: usize, value: char },
    TokenTooLong { line: usize, value: usize },
    UnknownToken { line: usize, value: String },
    MalformedAssign { line: usize },
    MalformedCond { line: usize },
    MalformedLoop { line: usize },
    MalformedRet { line: usize },
    MalformedFunc { line: usize },
    MalformedEnd { line: usize },
    UnclosedBlock,
    DuplicateToken { line: usize, value: String },
    WildStatement { line: usize },
    WildFunction { line: usize },
    MisplacedRet { line: usize },
    UndeclaredToken { line: usize, value: String },
    BadExpression { line: usize },
    InputError { line: usize, value: String },
    /// The budget of calls and loop rounds given to a run was used up; it
    /// stands where an unbounded run would exhaust the machine.
    StepLimit { line: usize },
}

/// The mathematical form of an `Error`: its text values as character sequences.
pub enum ErrorView {
    IllegalChar { line: usize, value: char },
    TokenTooLong { line: usize, value: usize },
    UnknownToken { line: usize, value: Seq<char> },
    MalformedAssign { line: usize },
    MalformedCond { line: usize },
    MalformedLoop { line: usize },
    MalformedRet { line: usize },
    MalformedFunc { line: usize },
    MalformedEnd { line: usize },
    UnclosedBlock,
    DuplicateToken { line: usize, value: Seq<char> },
    WildStatement { line: usize },
    WildFunction { line: usize },
    MisplacedRet { line: usize },
    UndeclaredToken { line: usize, value: Seq<char> },
    BadExpression { line: usize },
    InputError { line: usize, value: Seq<char> },
    StepLimit { line: usize },
}

impl View for Error {
    type V = ErrorView;

    open spec fn view(&self) -> ErrorView {
        match self {
            Error::IllegalChar { line, value } => ErrorView::IllegalChar { line: *line, value: *value },
            Error::TokenTooLong { line, value } => ErrorView::TokenTooLong { line: *line, value: *value },
            Error::UnknownToken { line, value } => ErrorView::UnknownToken { line: *line, value: value@ },
            Error::MalformedAssign { line } => ErrorView::MalformedAssign { line: *line },
            Error::MalformedCond { line } => ErrorView::MalformedCond { line: *line },
            Error::MalformedLoop { line } => ErrorView::MalformedLoop { line: *line },
            Error::MalformedRet { line } => ErrorView::MalformedRet { line: *line },
            Error::MalformedFunc { line } => ErrorView::MalformedFunc { line: *line },
            Error::MalformedEnd { line } => ErrorView::MalformedEnd { line: *line },
            Error::UnclosedBlock => ErrorView::UnclosedBlock,
            Error::DuplicateToken { line, value } => ErrorView::DuplicateToken { line: *line, value: value@ },
            Error::WildStatement { line } => ErrorView::WildStatement { line: *line },
            Error::WildFunction { line } => ErrorView::WildFunction { line: *line },
            Error::MisplacedRet { line } => ErrorView::MisplacedRet { line: *line },
            Error::UndeclaredToken { line, value } => ErrorView::UndeclaredToken { line: *line, value: value@ },
            Error::BadExpression { line } => ErrorView::BadExpression { line: *line },
            Error::InputError { line, value } => ErrorView::InputError { line: *line, value: value@ },
            Error::StepLimit { line } => ErrorView::StepLimit { line: *line },
        }
    }
}

/// `name(line)`.
pub open spec fn tag_text(name: Seq<char>, line: usize) -> Seq<char> {
    name + "("@ + decimal(line as int) + ")"@
}

/// `name(line, extra)`.
pub open spec fn tag2_text(name: Seq<char>, line: usize, extra: Seq<char>) -> Seq<char> {
    name + "("@ + decimal(line as int) + ", "@ + extra + ")"@
}

fn tag(name: &str, line: usize) -> (r: String)
    ensures
        r@ == tag_text(name@, line),
{
    let mut s = String::from_str(name);
    s.append("(");
    s.append(decimal_string(line as i128).as_str());
    s.append(")");
    s
}

fn tag2(name: &str, line: usize, extra: &str) -> (r: String)
    ensures
        r@ == tag2_text(name@, line, extra@),
{
    let mut s = String::from_str(name);
    s.append("(");
    s.append(decimal_string(line as i128).as_str());
    s.append(", ");
    s.append(extra);
    s.append(")");
    s
}

fn joined(a: &str, b: &str) -> (r: String)
    ensures
        r@ == a@ + b@,
{
    let mut s = String::from_str(a);
    s.append(b);
    s
}

impl ErrorView {
    /// The debugging form: the kind, its line and its value.
    pub open spec fn debug_text(&self) -> Seq<char> {
        match self {
            ErrorView::IllegalChar { line, value } => tag2_text("IllegalChar"@, *line, char_debug_text(*value)),
            ErrorView::TokenTooLong { line, value } => tag2_text("TokenTooLong"@, *line, decimal(*value as int)),
            ErrorView::UnknownToken { line, value } => tag2_text("UnknownToken"@, *line, str_debug_text(*value)),
            ErrorView::MalformedAssign { line } => tag_text("MalformedAssign"@, *line),
            ErrorView::MalformedCond { line } => tag_text("MalformedCond"@, *line),
            ErrorView::MalformedLoop { line } => tag_text("MalformedLoop"@, *line),
            ErrorView::MalformedRet { line } => tag_text("MalformedRet"@, *line),
            ErrorView::MalformedFunc { line } => tag_text("MalformedFunc"@, *line),
            ErrorView::MalformedEnd { line } => tag_text("MalformedEnd"@, *line),
            ErrorView::UnclosedBlock => "UnclosedBlock"@,
            ErrorView::DuplicateToken { line, value } => tag2_text("DuplicateToken"@, *line, str_debug_text(*value)),
            ErrorView::WildStatement { line } => tag_text("WildStatement"@, *line),
            ErrorView::WildFunction { line } => tag_text("WildFunction"@, *line),
            ErrorView::MisplacedRet { line } => tag_text("MisplacedRet"@, *line),
            ErrorView::UndeclaredToken { line, value } => tag2_text("UndeclaredToken"@, *line, *value),
            ErrorView::BadExpression { line } => tag_text("BadExpression"@, *line),
            ErrorView::InputError { line, value } => tag2_text("InputError"@, *line, str_debug_text(*value)),
            ErrorView::StepLimit { line } => tag_text("StepLimit"@, *line),
        }
    }

    /// The message shown to a user.
    pub open spec fn message(&self) -> Seq<char> {
        match self {
            ErrorView::IllegalChar { value, .. } => "unexpected character "@ + char_debug_text(*value),
            ErrorView::TokenTooLong { value, .. } => "token length exceeded ("@ + decimal(*value as int) + " of 63)"@,
            ErrorView::UnknownToken { value, .. } => "unexpected statement token "@ + str_debug_text(*value),
            ErrorView::MalformedAssign { .. } => "malformed assignment statement"@,
            ErrorView::MalformedCond { .. } => "malformed conditional statement"@,
            ErrorView::MalformedLoop { .. } => "malformed loop statement"@,
            ErrorView::MalformedRet { .. } => "malformed return statement"@,
            ErrorView::MalformedFunc { .. } => "bad function definition"@,
            ErrorView::MalformedEnd { .. } => "illegal code block end"@,
            ErrorView::UnclosedBlock => "code block unclosed"@,
            ErrorView::DuplicateToken { value, .. } => "conflict token "@ + str_debug_text(*value),
            ErrorView::WildStatement { .. } => "statements should appear in functions"@,
            ErrorView::WildFunction { .. } => "function should not appear in functions"@,
            ErrorView::MisplacedRet { .. } => "always return at end of function"@,
            ErrorView::UndeclaredToken { value, .. } => "token "@ + str_debug_text(*value) + " undeclared"@,
            ErrorView::BadExpression { .. } => "expression having misplaced tokens"@,
            ErrorView::InputError { value, .. } => "invalid input "@ + str_debug_text(*value),
            ErrorView::StepLimit { .. } => "step limit reached"@,
        }
    }

    /// The line the failure concerns; zero for an unclosed block.
    pub open spec fn line_of(&self) -> usize {
        match self {
            ErrorView::IllegalChar { line, .. } => *line,
            ErrorView::TokenTooLong { line, .. } => *line,
            ErrorView::UnknownToken { line, .. } => *line,
            ErrorView::MalformedAssign { line } => *line,
            ErrorView::MalformedCond { line } => *line,
            ErrorView::MalformedLoop { line } => *line,
            ErrorView::MalformedRet { line } => *line,
            ErrorView::MalformedFunc { line } => *line,
            ErrorView::MalformedEnd { line } => *line,
            ErrorView::UnclosedBlock => 0,
            ErrorView::DuplicateToken { line, .. } => *line,
            ErrorView::WildStatement { line } => *line,
            ErrorView::WildFunction { line } => *line,
            ErrorView::MisplacedRet { line } => *line,
            ErrorView::UndeclaredToken { line, .. } => *line,
            ErrorView::BadExpression { line } => *line,
            ErrorView::InputError { line, .. } => *line,
            ErrorView::StepLimit { line } => *line,
        }
    }
}

impl Error {
    pub fn debug(&self) -> (r: String)
        ensures
            r@ == self@.debug_text(),
    {
        match self {
            Error::IllegalChar { line, value } => tag2("IllegalChar", *line, char_debug(*value).as_str()),
            Error::TokenTooLong { line, value } => tag2("TokenTooLong", *line, decimal_string(*value as i128).as_str()),
            Error::UnknownToken { line, value } => tag2("UnknownToken", *line, str_debug(value.as_str()).as_str()),
            Error::MalformedAssign { line } => tag("MalformedAssign", *line),
            Error::MalformedCond { line } => tag("MalformedCond", *line),
            Error::MalformedLoop { line } => tag("MalformedLoop", *line),
            Error::MalformedRet { line } => tag("MalformedRet", *line),
            Error::MalformedFunc { line } => tag("MalformedFunc", *line),
            Error::MalformedEnd { line } => tag("MalformedEnd", *line),
            Error::UnclosedBlock => String::from_str("UnclosedBlock"),
            Error::DuplicateToken { line, value } => tag2("DuplicateToken", *line, str_debug(value.as_str()).as_str()),
            Error::WildStatement { line } => tag("WildStatement", *line),
            Error::WildFunction { line } => tag("WildFunction", *line),
            Error::MisplacedRet { line } => tag("MisplacedRet", *line),
            Error::UndeclaredToken { line, value } => tag2("UndeclaredToken", *line, value.as_str()),
            Error::BadExpression { line } => tag("BadExpression", *line),
            Error::InputError { line, value } => tag2("InputError", *line, str_debug(value.as_str()).as_str()),
            Error::StepLimit { line } => tag("StepLimit", *line),
        }
    }

    /// The message shown to a user.
    pub fn format(&self) -> (r: String)
        ensures
            r@ == self@.message(),
    {
        match self {
            Error::IllegalChar { value, .. } => joined("unexpected character ", char_debug(*value).as_str()),
            Error::TokenTooLong { value, .. } => {
                let mut s = String::from_str("token length exceeded (");
                s.append(decimal_string(*value as i128).as_str());
                s.append(" of 63)");
                s
            },
            Error::UnknownToken { value, .. } => joined("unexpected statement token ", str_debug(value.as_str()).as_str()),
            Error::MalformedAssign { .. } => String::from_str("malformed assignment statement"),
            Error::MalformedCond { .. } => String::from_str("malformed conditional statement"),
            Error::MalformedLoop { .. } => String::from_str("malformed loop statement"),
            Error::MalformedRet { .. } => String::from_str("malformed return statement"),
            Error::MalformedFunc { .. } => String::from_str("bad function definition"),
            Error::MalformedEnd { .. } => String::from_str("illegal code block end"),
            Error::UnclosedBlock => String::from_str("code block unclosed"),
            Error::DuplicateToken { value, .. } => joined("conflict token ", str_debug(value.as_str()).as_str()),
            Error::WildStatement { .. } => String::from_str("statements should appear in functions"),
            Error::WildFunction { .. } => String::from_str("function should not appear in functions"),
            Error::MisplacedRet { .. } => String::from_str("always return at end of function"),
            Error::UndeclaredToken { value, .. } => {
                let mut s = String::from_str("token ");
                s.append(str_debug(value.as_str()).as_str());
                s.append(" undeclared");
                s
            },
            Error::BadExpression { .. } => String::from_str("expression having misplaced tokens"),
            Error::InputError { value, .. } => joined("invalid input ", str_debug(value.as_str()).as_str()),
            Error::StepLimit { .. } => String::from_str("step limit reached"),
        }
    }

    /// The line the failure concerns; zero for an unclosed block.
    pub fn line(&self) -> (r: usize)
        ensures
            r == self@.line_of(),
    {
        match self {
            Error::IllegalChar { line, .. } => *line,
            Error::TokenTooLong { line, .. } => *line,
            Error::UnknownToken { line, .. } => *line,
            Error::MalformedAssign { line } => *line,
            Error::MalformedCond { line } => *line,
            Error::MalformedLoop { line } => *line,
            Error::MalformedRet { line } => *line,
            Error::MalformedFunc { line } => *line,
            Error::MalformedEnd { line } => *line,
            Error::UnclosedBlock => 0,
            Error::DuplicateToken { line, .. } => *line,
            Error::WildStatement { line } => *line,
            Error::WildFunction { line } => *line,
            Error::MisplacedRet { line } => *line,
            Error::UndeclaredToken { line, .. } => *line,
            Error::BadExpression { line } => *line,
            Error::InputError { line, .. } => *line,
            Error::StepLimit { line } => *line,
        }
    }
}

} // verus!
