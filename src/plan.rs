//! Argument reading shared by the input and output evaluators, and the errors
//! they report.
use vstd::prelude::*;
use crate::ast::ArgError;
use crate::ast::Expr;
use crate::ast::ExprV;
use crate::ast::int_value;
use crate::ast::render;
use crate::text::chars_of;

verus! {

/// Why an expression could not be turned into a source or sink.
#[derive(Clone, Debug, PartialEq, Eq)]
pub enum EvalError {
    /// A bare name that no shorthand covers.
    UnknownInput(String),
    /// A function outside the closed set of operations.
    UnknownFunction(String),
    /// The function needs more arguments.
    MissingArgument(String),
    /// The function's arguments have the wrong shape.
    BadArguments(String),
    /// An argument is not an integer (its canonical text).
    NotAnInteger(String),
    /// An argument is not a plain string (its canonical text).
    NotAString(String),
    /// The Opus encoder does not take this sample rate.
    InvalidOpusRate(u32),
    /// The Opus encoder does not take this channel count.
    InvalidOpusChannels(u16),
    /// The Opus encoder has no such application mode.
    InvalidOpusMode(String),
    /// A generator parameter with an unknown key.
    UnknownKey(String),
    /// A generator parameter that should be a number but is not.
    BadNumber(String),
}

/// The mathematical value of an [`EvalError`].
pub ghost enum EvalFault {
    UnknownInput(Seq<char>),
    UnknownFunction(Seq<char>),
    MissingArgument(Seq<char>),
    BadArguments(Seq<char>),
    NotAnInteger(Seq<char>),
    NotAString(Seq<char>),
    InvalidOpusRate(u32),
    InvalidOpusChannels(u16),
    InvalidOpusMode(Seq<char>),
    UnknownKey(Seq<char>),
    BadNumber(Seq<char>),
}

impl EvalError {
    pub open spec fn view(&self) -> EvalFault {
        match self {
            EvalError::UnknownInput(s) => EvalFault::UnknownInput(s@),
            EvalError::UnknownFunction(s) => EvalFault::UnknownFunction(s@),
            EvalError::MissingArgument(s) => EvalFault::MissingArgument(s@),
            EvalError::BadArguments(s) => EvalFault::BadArguments(s@),
            EvalError::NotAnInteger(s) => EvalFault::NotAnInteger(s@),
            EvalError::NotAString(s) => EvalFault::NotAString(s@),
            EvalError::InvalidOpusRate(r) => EvalFault::InvalidOpusRate(*r),
            EvalError::InvalidOpusChannels(c) => EvalFault::InvalidOpusChannels(*c),
            EvalError::InvalidOpusMode(s) => EvalFault::InvalidOpusMode(s@),
            EvalError::UnknownKey(s) => EvalFault::UnknownKey(s@),
            EvalError::BadNumber(s) => EvalFault::BadNumber(s@),
        }
    }
}

/// An argument read as an integer.
pub open spec fn int_arg(e: ExprV) -> Result<int, EvalFault> {
    match int_value(e) {
        Some(v) => Ok(v),
        None => Err(EvalFault::NotAnInteger(render(e))),
    }
}

/// An argument read as a plain string.
pub open spec fn str_arg(e: ExprV) -> Result<Seq<char>, EvalFault> {
    match e {
        ExprV::Name(n) => Ok(n),
        ExprV::Fn(_, _) => Err(EvalFault::NotAString(render(e))),
    }
}

/// The optional integer argument at position `i`.
pub open spec fn opt_int_arg(args: Seq<ExprV>, i: int) -> Result<Option<int>, EvalFault> {
    if i < args.len() {
        match int_arg(args[i]) {
            Ok(v) => Ok(Some(v)),
            Err(f) => Err(f),
        }
    } else {
        Ok(None)
    }
}

/// `s` ends with `suffix`.
pub open spec fn ends_with(s: Seq<char>, suffix: Seq<char>) -> bool {
    s.len() >= suffix.len() && s.subrange(s.len() - suffix.len(), s.len() as int) == suffix
}

pub fn int_arg_of(e: &Expr) -> (r: Result<i64, EvalError>)
    ensures
        match (r, int_arg(e.view_expr())) {
            (Ok(v), Ok(w)) => v == w,
            (Err(x), Err(y)) => x@ == y,
            _ => false,
        },
{
    match e.to_i64() {
        Ok(v) => Ok(v),
        Err(ArgError::NotAnInteger(t)) => Err(EvalError::NotAnInteger(t)),
        Err(ArgError::NotAString(t)) => Err(EvalError::NotAnInteger(t)),
    }
}

pub fn str_arg_of(e: &Expr) -> (r: Result<&str, EvalError>)
    ensures
        match (r, str_arg(e.view_expr())) {
            (Ok(v), Ok(w)) => v@ == w,
            (Err(x), Err(y)) => x@ == y,
            _ => false,
        },
{
    match e.to_str() {
        Ok(s) => Ok(s),
        Err(ArgError::NotAString(t)) => Err(EvalError::NotAString(t)),
        Err(ArgError::NotAnInteger(t)) => Err(EvalError::NotAString(t)),
    }
}

pub fn opt_int_arg_of(args: &Vec<Expr>, i: usize) -> (r: Result<Option<i64>, EvalError>)
    ensures
        match (r, opt_int_arg(crate::ast::view_exprs(args@), i as int)) {
            (Ok(Some(v)), Ok(Some(w))) => v == w,
            (Ok(None), Ok(None)) => true,
            (Err(x), Err(y)) => x@ == y,
            _ => false,
        },
{
    if i < args.len() {
        match int_arg_of(&args[i]) {
            Ok(v) => Ok(Some(v)),
            Err(e) => Err(e),
        }
    } else {
        Ok(None)
    }
}

/// Whether `s` ends with the characters of `suffix`.
pub fn str_ends_with(s: &str, suffix: &str) -> (r: bool)
    ensures
        r == ends_with(s@, suffix@),
{
    let a = chars_of(s);
    let b = chars_of(suffix);
    if a.len() < b.len() {
        return false;
    }
    let alen = a.len();
    let off = alen - b.len();
    let mut i: usize = 0;
    while i < b.len()
        invariant
            alen == a@.len(),
            a@ == s@,
            b@ == suffix@,
            off == a@.len() - b@.len(),
            i <= b@.len(),
            forall|k: int| 0 <= k < i ==> a@[off + k] == b@[k],
        decreases b@.len() - i,
    {
        if a[off + i] != b[i] {
            assert(a@.subrange(off as int, a@.len() as int)[i as int] != b@[i as int]);
            return false;
        }
        i += 1;
    }
    assert(a@.subrange(off as int, a@.len() as int) =~= b@);
    true
}

/// Whether a string equals `lit`.
pub fn str_is(s: &str, lit: &str) -> (r: bool)
    ensures
        r == (s@ == lit@),
{
    let v = chars_of(s);
    crate::ast::chars_equal(&v, lit)
}

/// Owned copy of a string slice.
pub fn owned(s: &str) -> (r: String)
    ensures
        r@ == s@,
{
    String::from_str(s)
}

} // verus!
