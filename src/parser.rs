//! Parser of the pipeline expression language.
//!
//! A name is an unquoted run of characters up to `(`, `,`, `)` or a quote, or
//! a quoted string (`'...'` or `"..."`, with `\n`, `\t`, `\\` and quote
//! escapes). A call is `name(arg, arg, ...)`. White space around separators is
//! insignificant. Errors report byte offsets into the text.
use vstd::prelude::*;
use crate::ast::Expr;
use crate::ast::ExprV;
use crate::ast::view_exprs;
use crate::text::all_space;
use crate::text::char_is_space;
use crate::text::chars_of;
use crate::text::is_space;
use crate::text::string_of;
use crate::text::trim_end;
use vstd::utf8::encode_utf8;

verus! {

/// What went wrong while parsing.
#[derive(Clone, Copy, Debug, PartialEq, Eq)]
pub enum ParseErrorKind {
    UnterminatedQuote,
    UnexpectedComma,
    MissingComma,
    MissingClose,
    EmptyFunctionName,
    EmptyName,
    UnexpectedContent,
}

pub open spec fn kind_text(k: ParseErrorKind) -> Seq<char> {
    match k {
        ParseErrorKind::UnterminatedQuote => "quoted string does not end"@,
        ParseErrorKind::UnexpectedComma => "unexpected comma"@,
        ParseErrorKind::MissingComma => "missing comma (',')"@,
        ParseErrorKind::MissingClose => "missing ')' to end argument list"@,
        ParseErrorKind::EmptyFunctionName => "function name cannot be empty"@,
        ParseErrorKind::EmptyName => "unquoted string cannot be empty"@,
        ParseErrorKind::UnexpectedContent => "unexpected content"@,
    }
}

impl ParseErrorKind {
    /// The human-readable summary of this kind of error.
    pub fn message(&self) -> (r: &'static str)
        ensures
            r@ == kind_text(*self),
    {
        match self {
            ParseErrorKind::UnterminatedQuote => "quoted string does not end",
            ParseErrorKind::UnexpectedComma => "unexpected comma",
            ParseErrorKind::MissingComma => "missing comma (',')",
            ParseErrorKind::MissingClose => "missing ')' to end argument list",
            ParseErrorKind::EmptyFunctionName => "function name cannot be empty",
            ParseErrorKind::EmptyName => "unquoted string cannot be empty",
            ParseErrorKind::UnexpectedContent => "unexpected content",
        }
    }
}

/// A failure: the offending range of the text and its kind.
pub type FaultV = (int, int, ParseErrorKind);

/// A parse failure, with the offending byte range and a message that shows
/// the text with that range highlighted.
#[derive(Clone, Debug, PartialEq, Eq)]
pub struct ParseError {
    pub start: usize,
    pub end: usize,
    pub kind: ParseErrorKind,
    pub message: String,
}

/// A failure inside the parser, before its message is rendered.
#[derive(Clone, Copy)]
struct Fault {
    start: usize,
    end: usize,
    kind: ParseErrorKind,
}

impl Fault {
    spec fn view(self) -> FaultV {
        (self.start as int, self.end as int, self.kind)
    }
}

pub open spec fn is_quote(c: char) -> bool {
    c == '"' || c == '\''
}

pub open spec fn is_delim(c: char) -> bool {
    c == '(' || c == ',' || c == ')' || is_quote(c)
}

/// The first position at or after `i` that does not hold white space.
pub open spec fn skip_space(s: Seq<char>, i: int) -> int
    decreases s.len() - i,
{
    if 0 <= i < s.len() && is_space(s[i]) {
        skip_space(s, i + 1)
    } else {
        i
    }
}

/// The first position at or after `i` that holds a delimiter.
pub open spec fn find_delim(s: Seq<char>, i: int) -> int
    decreases s.len() - i,
{
    if 0 <= i < s.len() && !is_delim(s[i]) {
        find_delim(s, i + 1)
    } else {
        i
    }
}

/// The characters that an escape `\c` stands for.
pub open spec fn unescape(c: char) -> Seq<char> {
    if c == 'n' {
        seq!['\n']
    } else if c == 't' {
        seq!['\t']
    } else if c == '"' || c == '\'' || c == '\\' {
        seq![c]
    } else {
        seq!['\\', c]
    }
}

/// The body of a quoted string from position `i` up to the closing quote `q`,
/// and that quote's position.
pub open spec fn quoted(s: Seq<char>, i: int, q: char) -> Option<(Seq<char>, int)>
    decreases s.len() - i,
{
    if i < 0 || i >= s.len() {
        None
    } else if s[i] == q {
        Some((Seq::empty(), i))
    } else if s[i] == '\\' {
        if i + 1 >= s.len() {
            None
        } else {
            prepend(unescape(s[i + 1]), quoted(s, i + 2, q))
        }
    } else {
        prepend(seq![s[i]], quoted(s, i + 1, q))
    }
}

pub open spec fn prepend(p: Seq<char>, r: Option<(Seq<char>, int)>) -> Option<(Seq<char>, int)> {
    match r {
        Some((t, e)) => Some((p + t, e)),
        None => None,
    }
}

/// A name starting at `p`: the string and the position after it.
pub open spec fn name_at(s: Seq<char>, p: int) -> Result<(Seq<char>, int), FaultV> {
    let j = skip_space(s, p);
    if 0 <= j < s.len() && is_quote(s[j]) {
        match quoted(s, j + 1, s[j]) {
            Some((t, e)) => Ok((t, e + 1)),
            None => Err((j + 1, s.len() as int, ParseErrorKind::UnterminatedQuote)),
        }
    } else {
        let k = find_delim(s, j);
        Ok((trim_end(s.subrange(j, k)), k))
    }
}

/// An expression starting at `p`, and the position after it.
pub open spec fn expr_at(s: Seq<char>, p: int) -> Result<(ExprV, int), FaultV>
    decreases s.len() - p, 0int,
{
    match name_at(s, p) {
        Err(f) => Err(f),
        Ok((name, end)) => {
            let k = skip_space(s, end);
            if 0 <= p <= k < s.len() && s[k] == '(' {
                if name.len() == 0 {
                    Err((p, p + (k - end) + 1, ParseErrorKind::EmptyFunctionName))
                } else {
                    match args_at(s, k + 1, k + 1, false, Seq::empty()) {
                        Err(f) => Err(f),
                        Ok((args, c)) => Ok((ExprV::Fn(name, args), c + 1)),
                    }
                }
            } else if end == p {
                Err((p, p + 1, ParseErrorKind::EmptyName))
            } else {
                Ok((ExprV::Name(name), end))
            }
        },
    }
}

/// The rest of an argument list, scanned from `p`; `seg` is where the
/// current segment (after the last argument) began, `acc` the arguments read
/// so far. Returns the arguments and the position of the closing `)`.
pub open spec fn args_at(s: Seq<char>, seg: int, p: int, need_comma: bool, acc: Seq<ExprV>) -> Result<
    (Seq<ExprV>, int),
    FaultV,
>
    decreases s.len() - p, 1int,
{
    if p < 0 || p >= s.len() {
        Err((seg, s.len() as int, ParseErrorKind::MissingClose))
    } else if is_space(s[p]) {
        args_at(s, seg, p + 1, need_comma, acc)
    } else if s[p] == ',' {
        if need_comma {
            args_at(s, seg, p + 1, false, acc)
        } else {
            Err((p, p + 1, ParseErrorKind::UnexpectedComma))
        }
    } else if s[p] == ')' {
        Ok((acc, p))
    } else if need_comma {
        Err((seg, p + 1, ParseErrorKind::MissingComma))
    } else {
        match expr_at(s, p) {
            Err(f) => Err(f),
            Ok((e, end)) => if p < end <= s.len() {
                args_at(s, end, end, true, acc.push(e))
            } else {
                Err((p, p + 1, ParseErrorKind::EmptyName))
            },
        }
    }
}

/// The whole text as one expression, with nothing but white space after it.
pub open spec fn parse_spec(s: Seq<char>) -> Result<ExprV, FaultV> {
    match expr_at(s, 0) {
        Err(f) => Err(f),
        Ok((e, end)) => if 0 <= end <= s.len() && all_space(s.subrange(end, s.len() as int)) {
            Ok(e)
        } else {
            Err((end, s.len() as int, ParseErrorKind::UnexpectedContent))
        },
    }
}

/// The diagnostic text for a failure over `start..end` of `s`: the message,
/// then the text with the range wrapped in highlighting escapes.
pub open spec fn error_text(s: Seq<char>, start: int, end: int, msg: Seq<char>) -> Seq<char> {
    let e0 = if start >= end { start + 1 } else { end };
    let e = if e0 > s.len() { s.len() as int } else { e0 };
    let before = s.subrange(0, start);
    let hl = s.subrange(start, e);
    let after = s.subrange(e, s.len() as int);
    let shown = if after.len() == 0 && hl.len() == 0 { seq![' '] } else { hl };
    msg + ": "@ + before + "\x1b[97;41m"@ + shown + "\x1b[0m"@ + after
}

/// The byte offset, in the UTF-8 encoding of `s`, of character position
/// `k`; a position past the end counts one byte per position.
pub open spec fn byte_pos(s: Seq<char>, k: int) -> int {
    if k <= s.len() {
        encode_utf8(s.subrange(0, k)).len() as int
    } else {
        encode_utf8(s).len() + (k - s.len())
    }
}

/// The encoding of a concatenation is the concatenation of the encodings.
pub proof fn lemma_encode_len_concat(a: Seq<char>, b: Seq<char>)
    ensures
        encode_utf8(a + b).len() == encode_utf8(a).len() + encode_utf8(b).len(),
    decreases a.len(),
{
    if a.len() == 0 {
        assert(a + b =~= b);
    } else {
        assert((a + b).drop_first() =~= a.drop_first() + b);
        assert((a + b)[0] == a[0]);
        lemma_encode_len_concat(a.drop_first(), b);
    }
}

/// `r` is what parsing `s` gives.
pub open spec fn parse_matches(s: Seq<char>, r: Result<Expr, ParseError>) -> bool {
    match (r, parse_spec(s)) {
        (Ok(e), Ok(v)) => e.view_expr() == v,
        (Err(err), Err(f)) => err.start == byte_pos(s, f.0) && err.end == byte_pos(s, f.1) && err.kind == f.2
            && err.message@ == error_text(s, f.0, f.1, kind_text(f.2)),
        _ => false,
    }
}

proof fn lemma_skip_space(s: Seq<char>, i: int)
    requires
        0 <= i <= s.len(),
    ensures
        i <= skip_space(s, i) <= s.len(),
        skip_space(s, i) < s.len() ==> !is_space(s[skip_space(s, i)]),
    decreases s.len() - i,
{
    if i < s.len() && is_space(s[i]) {
        lemma_skip_space(s, i + 1);
    }
}

proof fn lemma_find_delim(s: Seq<char>, i: int)
    requires
        0 <= i <= s.len(),
    ensures
        i <= find_delim(s, i) <= s.len(),
    decreases s.len() - i,
{
    if i < s.len() && !is_delim(s[i]) {
        lemma_find_delim(s, i + 1);
    }
}

/// A parser over one text.
pub struct Parser<'a> {
    text: &'a str,
    chars: Vec<char>,
}

/// Parses a whole expression.
pub fn parse(text: &str) -> (r: Result<Expr, ParseError>)
    requires
        text@.len() < usize::MAX,
        encode_utf8(text@).len() < usize::MAX,
    ensures
        parse_matches(text@, r),
{
    let parser = Parser::new(text);
    parser.parse_full_expr()
}

impl<'a> Parser<'a> {
    pub closed spec fn wf(&self) -> bool {
        self.chars@ == self.text@ && self.chars.len() < usize::MAX && encode_utf8(self.text@).len()
            < usize::MAX
    }

    pub closed spec fn text_view(&self) -> Seq<char> {
        self.text@
    }

    pub fn new(text: &'a str) -> (r: Self)
        requires
            text@.len() < usize::MAX,
            encode_utf8(text@).len() < usize::MAX,
        ensures
            r.wf(),
            r.text_view() == text@,
    {
        Parser { text, chars: chars_of(text) }
    }

    /// The diagnostic text for `msg` over `start..end`.
    pub fn error(&self, start: usize, end: usize, msg: &str) -> (r: String)
        requires
            self.wf(),
            start <= self.text_view().len(),
        ensures
            r@ == error_text(self.text_view(), start as int, end as int, msg@),
    {
        let n = self.chars.len();
        let mut e = end;
        if start >= e {
            e = if start < n { start + 1 } else { n };
        }
        if e > n {
            e = n;
        }
        let before = self.text.substring_char(0, start);
        let hl = self.text.substring_char(start, e);
        let after = self.text.substring_char(e, n);
        let mut out = String::from_str(msg);
        out.append(": ");
        out.append(before);
        out.append("\x1b[97;41m");
        if e == n && start == e {
            out.append(" ");
        } else {
            out.append(hl);
        }
        out.append("\x1b[0m");
        out.append(after);
        proof {
            reveal_strlit(" ");
        }
        assert(out@ =~= error_text(self.text_view(), start as int, end as int, msg@));
        out
    }

    /// The byte offset of character position `k`.
    fn byte_pos_of(&self, k: usize) -> (r: usize)
        requires
            self.wf(),
            k <= self.text_view().len() + 1,
        ensures
            r == byte_pos(self.text_view(), k as int),
    {
        let n = self.chars.len();
        let ghost s = self.text@;
        if k <= n {
            let prefix = self.text.substring_char(0, k);
            proof {
                assert(s =~= s.subrange(0, k as int) + s.subrange(k as int, s.len() as int));
                lemma_encode_len_concat(s.subrange(0, k as int), s.subrange(k as int, s.len() as int));
            }
            prefix.len()
        } else {
            self.text.len() + (k - n)
        }
    }

    fn report(&self, f: Fault) -> (r: ParseError)
        requires
            self.wf(),
            f.start <= self.text_view().len(),
            f.end <= self.text_view().len() + 1,
        ensures
            r.start == byte_pos(self.text_view(), f.start as int) && r.end == byte_pos(
                self.text_view(),
                f.end as int,
            ) && r.kind == f.kind,
            r.message@ == error_text(self.text_view(), f.start as int, f.end as int, kind_text(f.kind)),
    {
        let message = self.error(f.start, f.end, f.kind.message());
        let start = self.byte_pos_of(f.start);
        let end = self.byte_pos_of(f.end);
        ParseError { start, end, kind: f.kind, message }
    }

    /// Reads a quoted string whose body starts at `start`; returns the body
    /// and the position of the closing quote.
    fn parse_quoted_string(&self, start: usize, quote: char) -> (r: Result<(Vec<char>, usize), Fault>)
        requires
            self.wf(),
            start <= self.chars.len(),
        ensures
            match (r, quoted(self.chars@, start as int, quote)) {
                (Ok((v, e)), Some((t, se))) => v@ == t && e == se,
                (Err(f), None) => f@ == (start as int, self.chars.len() as int, ParseErrorKind::UnterminatedQuote),
                _ => false,
            },
    {
        let s = &self.chars;
        let mut out: Vec<char> = Vec::new();
        let mut i: usize = start;
        while i < s.len()
            invariant
                s@ == self.chars@,
                start <= i <= s.len(),
                quoted(s@, start as int, quote) == prepend(out@, quoted(s@, i as int, quote)),
            decreases s.len() - i,
        {
            let ch = s[i];
            if ch == quote {
                assert(out@ + Seq::<char>::empty() =~= out@);
                return Ok((out, i));
            }
            if ch == '\\' {
                if i + 1 >= s.len() {
                    return Err(Fault { start, end: s.len(), kind: ParseErrorKind::UnterminatedQuote });
                }
                let c = s[i + 1];
                let ghost old_out = out@;
                if c == 'n' {
                    out.push('\n');
                } else if c == 't' {
                    out.push('\t');
                } else if c == '"' || c == '\'' || c == '\\' {
                    out.push(c);
                } else {
                    out.push('\\');
                    out.push(c);
                }
                proof {
                    assert(out@ =~= old_out + unescape(c));
                    match quoted(s@, i + 2, quote) {
                        Some((t, e)) => assert(old_out + (unescape(c) + t) =~= out@ + t),
                        None => {},
                    }
                }
                i = i + 2;
            } else {
                let ghost old_out = out@;
                out.push(ch);
                proof {
                    match quoted(s@, i + 1, quote) {
                        Some((t, e)) => assert(old_out + (seq![ch] + t) =~= out@ + t),
                        None => {},
                    }
                }
                i = i + 1;
            }
        }
        Err(Fault { start, end: s.len(), kind: ParseErrorKind::UnterminatedQuote })
    }

    /// Reads a name starting at `start`; returns it and the position after it.
    fn parse_string(&self, start: usize) -> (r: Result<(Vec<char>, usize), Fault>)
        requires
            self.wf(),
            start <= self.chars.len(),
        ensures
            match (r, name_at(self.chars@, start as int)) {
                (Ok((v, e)), Ok((t, se))) => v@ == t && e == se,
                (Err(f), Err(sf)) => f@ == sf,
                _ => false,
            },
            r matches Ok((_, e)) ==> start <= e <= self.chars.len(),
            r matches Err(f) ==> f.start <= self.chars.len() && f.end <= self.chars.len() + 1,
    {
        let s = &self.chars;
        let mut j: usize = start;
        while j < s.len() && char_is_space(s[j])
            invariant
                s@ == self.chars@,
                start <= j <= s.len(),
                skip_space(s@, j as int) == skip_space(s@, start as int),
            decreases s.len() - j,
        {
            j += 1;
        }
        if j < s.len() && (s[j] == '"' || s[j] == '\'') {
            let q = s[j];
            match self.parse_quoted_string(j + 1, q) {
                Ok((body, e)) => {
                    proof {
                        lemma_quoted_end(s@, j + 1, q);
                    }
                    return Ok((body, e + 1));
                },
                Err(f) => return Err(f),
            }
        }
        let mut out: Vec<char> = Vec::new();
        let mut k: usize = j;
        while k < s.len() && !(s[k] == '(' || s[k] == ',' || s[k] == ')' || s[k] == '"' || s[k] == '\'')
            invariant
                s@ == self.chars@,
                j <= k <= s.len(),
                find_delim(s@, k as int) == find_delim(s@, j as int),
                out@ == s@.subrange(j as int, k as int),
            decreases s.len() - k,
        {
            out.push(s[k]);
            k += 1;
        }
        crate::text::trim_end_in_place(&mut out);
        Ok((out, k))
    }

    /// Reads an argument list whose first argument may start at `start`;
    /// returns the arguments and the position of the closing `)`.
    fn parse_args(&self, start: usize) -> (r: Result<(Vec<Expr>, usize), Fault>)
        requires
            self.wf(),
            start <= self.chars.len(),
        ensures
            match (r, args_at(self.chars@, start as int, start as int, false, Seq::empty())) {
                (Ok((v, e)), Ok((t, se))) => view_exprs(v@) == t && e == se,
                (Err(f), Err(sf)) => f@ == sf,
                _ => false,
            },
            r matches Ok((_, e)) ==> start <= e < self.chars.len(),
            r matches Err(f) ==> f.start <= self.chars.len() && f.end <= self.chars.len() + 1,
        decreases self.chars.len() - start, 1int,
    {
        let s = &self.chars;
        let mut out: Vec<Expr> = Vec::new();
        let mut need_comma = false;
        let mut seg: usize = start;
        let mut p: usize = start;
        assert(view_exprs(out@) =~= Seq::empty());
        while p < s.len()
            invariant
                self.wf(),
                s == &self.chars,
                start <= seg <= p <= s.len(),
                args_at(s@, start as int, start as int, false, Seq::empty()) == args_at(
                    s@,
                    seg as int,
                    p as int,
                    need_comma,
                    view_exprs(out@),
                ),
            decreases s.len() - p,
        {
            let ch = s[p];
            if char_is_space(ch) {
                p += 1;
            } else if ch == ',' {
                if need_comma {
                    need_comma = false;
                    p += 1;
                } else {
                    return Err(Fault { start: p, end: p + 1, kind: ParseErrorKind::UnexpectedComma });
                }
            } else if ch == ')' {
                return Ok((out, p));
            } else if need_comma {
                return Err(Fault { start: seg, end: p + 1, kind: ParseErrorKind::MissingComma });
            } else {
                match self.parse_expr(p) {
                    Ok((e, end)) => {
                        let ghost old_out = out@;
                        out.push(e);
                        assert(view_exprs(out@) =~= view_exprs(old_out).push(e.view_expr()));
                        need_comma = true;
                        seg = end;
                        p = end;
                    },
                    Err(f) => return Err(f),
                }
            }
        }
        Err(Fault { start: seg, end: s.len(), kind: ParseErrorKind::MissingClose })
    }

    /// Reads an expression starting at `start`; returns it and the position
    /// after it.
    fn parse_expr(&self, start: usize) -> (r: Result<(Expr, usize), Fault>)
        requires
            self.wf(),
            start <= self.chars.len(),
        ensures
            match (r, expr_at(self.chars@, start as int)) {
                (Ok((v, e)), Ok((t, se))) => v.view_expr() == t && e == se,
                (Err(f), Err(sf)) => f@ == sf,
                _ => false,
            },
            r matches Ok((_, e)) ==> start < e <= self.chars.len(),
            r matches Err(f) ==> f.start <= self.chars.len() && f.end <= self.chars.len() + 1,
        decreases self.chars.len() - start, 0int,
    {
        let s = &self.chars;
        let (name, end) = match self.parse_string(start) {
            Ok(x) => x,
            Err(f) => return Err(f),
        };
        let mut k: usize = end;
        while k < s.len() && char_is_space(s[k])
            invariant
                s@ == self.chars@,
                end <= k <= s.len(),
                skip_space(s@, k as int) == skip_space(s@, end as int),
            decreases s.len() - k,
        {
            k += 1;
        }
        if k < s.len() && s[k] == '(' {
            if name.len() == 0 {
                return Err(
                    Fault { start, end: start + (k - end) + 1, kind: ParseErrorKind::EmptyFunctionName },
                );
            }
            let (args, close) = match self.parse_args(k + 1) {
                Ok(x) => x,
                Err(f) => return Err(f),
            };
            let fname = string_of(name.as_slice());
            let ghost gargs = args@;
            let e = Expr::Fn(fname, args);
            proof {
                assert(e.view_expr()->Fn_1 =~= view_exprs(gargs));
                assert(e.view_expr() == ExprV::Fn(name@, view_exprs(gargs)));
            }
            return Ok((e, close + 1));
        }
        if end == start {
            return Err(Fault { start, end: start + 1, kind: ParseErrorKind::EmptyName });
        }
        Ok((Expr::Name(string_of(name.as_slice())), end))
    }

    fn parse_full_expr(&self) -> (r: Result<Expr, ParseError>)
        requires
            self.wf(),
        ensures
            parse_matches(self.text_view(), r),
    {
        let s = &self.chars;
        let (e, end) = match self.parse_expr(0) {
            Ok(x) => x,
            Err(f) => return Err(self.report(f)),
        };
        if crate::text::rest_is_space(s, end) {
            Ok(e)
        } else {
            Err(self.report(Fault { start: end, end: s.len(), kind: ParseErrorKind::UnexpectedContent }))
        }
    }
}

proof fn lemma_quoted_end(s: Seq<char>, i: int, q: char)
    requires
        0 <= i,
    ensures
        quoted(s, i, q) matches Some((_, e)) ==> i <= e < s.len(),
    decreases s.len() - i,
{
    if 0 <= i < s.len() && s[i] != q {
        if s[i] == '\\' {
            if i + 1 < s.len() {
                lemma_quoted_end(s, i + 2, q);
            }
        } else {
            lemma_quoted_end(s, i + 1, q);
        }
    }
}

} // verus!
