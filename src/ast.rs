//! The expression tree of the pipeline language.
use vstd::prelude::*;
use crate::parser;
use crate::parser::ParseError;
use crate::text::string_of;

verus! {

/// A node of a parsed expression.
#[derive(Debug)]
pub enum Expr {
    /// A plain string name.
    Name(String),
    /// A function call with its ordered arguments.
    Fn(String, Vec<Expr>),
}

/// The mathematical value of an [`Expr`].
pub ghost enum ExprV {
    Name(Seq<char>),
    Fn(Seq<char>, Seq<ExprV>),
}

impl Expr {
    pub open spec fn view_expr(self) -> ExprV
        decreases self,
    {
        match self {
            Expr::Name(n) => ExprV::Name(n@),
            Expr::Fn(f, args) => ExprV::Fn(
                f@,
                Seq::new(
                    args.len() as nat,
                    |i: int|
                        if 0 <= i < args.len() {
                            args[i].view_expr()
                        } else {
                            ExprV::Name(Seq::empty())
                        },
                ),
            ),
        }
    }
}

/// The views of a list of expressions.
pub open spec fn view_exprs(v: Seq<Expr>) -> Seq<ExprV> {
    Seq::new(v.len(), |i: int| v[i].view_expr())
}

/// The canonical call syntax of an expression: a name as it is, a call as
/// `name()` or `name(arg, arg, ...)`.
pub open spec fn render(e: ExprV) -> Seq<char>
    decreases e, 0nat,
{
    match e {
        ExprV::Name(n) => n,
        ExprV::Fn(f, args) => f + seq!['('] + render_args(args, 0) + seq![')'],
    }
}

/// The arguments from `i` on, separated by `", "`.
pub open spec fn render_args(args: Seq<ExprV>, i: int) -> Seq<char>
    decreases args, args.len() - i,
{
    if 0 <= i < args.len() {
        let sep = if i == 0 { Seq::<char>::empty() } else { seq![',', ' '] };
        sep + render(args[i]) + render_args(args, i + 1)
    } else {
        Seq::empty()
    }
}

/// The named size aliases that an integer argument may use.
pub open spec fn alias_value(s: Seq<char>) -> Option<int> {
    if s == "48k"@ {
        Some(48000)
    } else if s == "44k"@ {
        Some(44100)
    } else if s == "32k"@ {
        Some(32000)
    } else if s == "24k"@ {
        Some(24000)
    } else if s == "16k"@ {
        Some(16000)
    } else if s == "8k"@ {
        Some(8000)
    } else if s == "mono"@ {
        Some(1)
    } else if s == "stereo"@ {
        Some(2)
    } else {
        None
    }
}

pub open spec fn is_digit(c: char) -> bool {
    48 <= c as u32 <= 57
}

pub open spec fn all_digits(s: Seq<char>) -> bool {
    forall|i: int| 0 <= i < s.len() ==> is_digit(#[trigger] s[i])
}

/// The value of a run of decimal digits.
pub open spec fn digits_value(s: Seq<char>) -> int
    decreases s.len(),
{
    if s.len() == 0 {
        0
    } else {
        digits_value(s.drop_last()) * 10 + (s.last() as u32 - 48)
    }
}

/// The integer that `s` writes in decimal, with an optional sign, as `i64`'s
/// `FromStr` reads it (range aside).
pub open spec fn decimal_value(s: Seq<char>) -> Option<int> {
    if s.len() > 0 && (s[0] == '-' || s[0] == '+') {
        let rest = s.subrange(1, s.len() as int);
        if rest.len() > 0 && all_digits(rest) {
            Some(if s[0] == '-' { -digits_value(rest) } else { digits_value(rest) })
        } else {
            None
        }
    } else if s.len() > 0 && all_digits(s) {
        Some(digits_value(s))
    } else {
        None
    }
}

/// What an expression means as an integer argument, when it means one.
pub open spec fn int_value(e: ExprV) -> Option<int> {
    match e {
        ExprV::Name(n) => match alias_value(n) {
            Some(v) => Some(v),
            None => match decimal_value(n) {
                Some(v) => if i64::MIN <= v <= i64::MAX {
                    Some(v)
                } else {
                    None
                },
                None => None,
            },
        },
        ExprV::Fn(_, _) => None,
    }
}

/// Why an argument could not be read as the expected kind of value.
#[derive(Clone, Debug, PartialEq, Eq)]
pub enum ArgError {
    /// The argument (in canonical form) is not an integer.
    NotAnInteger(String),
    /// The argument (in canonical form) is not a plain string.
    NotAString(String),
}

pub proof fn lemma_digits_push(s: Seq<char>, c: char)
    ensures
        digits_value(s.push(c)) == digits_value(s) * 10 + (c as u32 - 48),
{
    assert(s.push(c).drop_last() =~= s);
}

pub proof fn lemma_digits_nonneg(s: Seq<char>)
    requires
        all_digits(s),
    ensures
        digits_value(s) >= 0,
    decreases s.len(),
{
    if s.len() > 0 {
        assert(all_digits(s.drop_last()));
        lemma_digits_nonneg(s.drop_last());
    }
}

/// The value of the decimal digits `v[from..]`, when it is at most `limit`.
fn read_digits(v: &Vec<char>, from: usize, limit: u64) -> (r: Option<u64>)
    requires
        from < v.len(),
        limit >= 9,
    ensures
        all_digits(v@.subrange(from as int, v.len() as int)) && digits_value(
            v@.subrange(from as int, v.len() as int),
        ) <= limit <==> r is Some,
        r matches Some(x) ==> x == digits_value(v@.subrange(from as int, v.len() as int)),
{
    let mut acc: u64 = 0;
    let mut i: usize = from;
    while i < v.len()
        invariant
            from <= i <= v.len(),
            all_digits(v@.subrange(from as int, i as int)),
            acc == digits_value(v@.subrange(from as int, i as int)),
            acc <= limit,
            limit >= 9,
        decreases v.len() - i,
    {
        let c = v[i];
        proof {
            assert(v@.subrange(from as int, i + 1) =~= v@.subrange(from as int, i as int).push(c));
            lemma_digits_push(v@.subrange(from as int, i as int), c);
        }
        let u = c as u32;
        if !(48 <= u && u <= 57) {
            assert(v@.subrange(from as int, v.len() as int)[i - from] == c);
            return None;
        }
        let d = (u - 48) as u64;
        if acc > (limit - d) / 10 {
            proof {
                let t = v@.subrange(from as int, i + 1);
                assert(digits_value(t) > limit);
                lemma_digits_prefix_bound(v@.subrange(from as int, v.len() as int), (i + 1 - from) as int);
                assert(v@.subrange(from as int, v.len() as int).subrange(0, i + 1 - from) =~= t);
            }
            return None;
        }
        acc = acc * 10 + d;
        i += 1;
    }
    Some(acc)
}

/// A digit run is worth at least as much as any of its prefixes.
pub proof fn lemma_digits_prefix_bound(s: Seq<char>, k: int)
    requires
        0 <= k <= s.len(),
    ensures
        all_digits(s) ==> digits_value(s.subrange(0, k)) <= digits_value(s),
    decreases s.len() - k,
{
    if k < s.len() && all_digits(s) {
        lemma_digits_prefix_bound(s, k + 1);
        let t = s.subrange(0, k);
        assert(s.subrange(0, k + 1) =~= t.push(s[k]));
        lemma_digits_push(t, s[k]);
        assert(all_digits(t));
        lemma_digits_nonneg(t);
    } else if k == s.len() {
        assert(s.subrange(0, k) =~= s);
    }
}

impl Expr {
    /// Parses an expression from text.
    pub fn parse(s: &str) -> (r: Result<Expr, ParseError>)
        requires
            s@.len() < usize::MAX,
            vstd::utf8::encode_utf8(s@).len() < usize::MAX,
        ensures
            parser::parse_matches(s@, r),
    {
        parser::parse(s)
    }

    /// Appends the canonical call syntax of this expression to `out`.
    pub fn render_into(&self, out: &mut Vec<char>)
        ensures
            final(out)@ == old(out)@ + render(self.view_expr()),
        decreases self.view_expr(),
    {
        match self {
            Expr::Name(n) => {
                let cs = crate::text::chars_of(n.as_str());
                let mut i: usize = 0;
                let ghost start = out@;
                while i < cs.len()
                    invariant
                        i <= cs.len(),
                        out@ == start + cs@.subrange(0, i as int),
                    decreases cs.len() - i,
                {
                    out.push(cs[i]);
                    i += 1;
                }
                assert(cs@.subrange(0, cs.len() as int) =~= cs@);
            },
            Expr::Fn(f, args) => {
                let ghost start = out@;
                let ghost av = match self.view_expr() {
                    ExprV::Fn(_, a) => a,
                    _ => Seq::empty(),
                };
                let fc = crate::text::chars_of(f.as_str());
                let mut i: usize = 0;
                while i < fc.len()
                    invariant
                        i <= fc.len(),
                        out@ == start + fc@.subrange(0, i as int),
                    decreases fc.len() - i,
                {
                    out.push(fc[i]);
                    i += 1;
                }
                assert(fc@.subrange(0, fc.len() as int) =~= fc@);
                out.push('(');
                let mut j: usize = 0;
                while j < args.len()
                    invariant
                        j <= args.len(),
                        av.len() == args.len(),
                        self.view_expr() is Fn,
                        self.view_expr()->Fn_1 == av,
                        forall|k: int| 0 <= k < args.len() ==> av[k] == (#[trigger] args[k]).view_expr(),
                        out@ + render_args(av, j as int) == start + f@ + seq!['('] + render_args(
                            av,
                            0,
                        ),
                    decreases args.len() - j,
                {
                    let ghost before = out@;
                    if j > 0 {
                        out.push(',');
                        out.push(' ');
                    }
                    proof {
                        let v = self.view_expr();
                        assert(v is Fn);
                        assert(v->Fn_1 == av);
                        assert(0 <= j < av.len());
                        assert(decreases_to!(v => v->Fn_1));
                        assert(decreases_to!(v->Fn_1 => v->Fn_1[j as int]));
                    }
                    args[j].render_into(out);
                    proof {
                        let sep = if j == 0 { Seq::<char>::empty() } else { seq![',', ' '] };
                        assert(out@ =~= before + sep + render(av[j as int]));
                        assert(render_args(av, j as int) == sep + render(av[j as int]) + render_args(av, j + 1));
                        assert(out@ + render_args(av, j + 1) =~= before + render_args(av, j as int));
                    }
                    j += 1;
                }
                out.push(')');
                proof {
                    assert(render_args(av, j as int) == Seq::<char>::empty());
                    assert(self.view_expr() == ExprV::Fn(f@, av));
                    assert(out@ =~= start + (f@ + seq!['('] + render_args(av, 0) + seq![')']));
                }
            },
        }
    }

    /// A copy of this expression, node by node.
    pub fn duplicate(&self) -> (r: Expr)
        ensures
            r.view_expr() == self.view_expr(),
        decreases self.view_expr(),
    {
        match self {
            Expr::Name(n) => Expr::Name(n.clone()),
            Expr::Fn(f, args) => {
                let ghost av = match self.view_expr() {
                    ExprV::Fn(_, a) => a,
                    _ => Seq::empty(),
                };
                let mut out: Vec<Expr> = Vec::new();
                let mut j: usize = 0;
                while j < args.len()
                    invariant
                        j <= args.len(),
                        av.len() == args.len(),
                        self.view_expr() is Fn,
                        self.view_expr()->Fn_1 == av,
                        forall|k: int| 0 <= k < args.len() ==> av[k] == (#[trigger] args[k]).view_expr(),
                        out@.len() == j,
                        forall|k: int| 0 <= k < j ==> (#[trigger] out@[k]).view_expr() == av[k],
                    decreases args.len() - j,
                {
                    proof {
                        let v = self.view_expr();
                        assert(decreases_to!(v => v->Fn_1));
                        assert(decreases_to!(v->Fn_1 => v->Fn_1[j as int]));
                    }
                    let e = args[j].duplicate();
                    out.push(e);
                    j += 1;
                }
                let r = Expr::Fn(f.clone(), out);
                proof {
                    assert(r.view_expr()->Fn_1 =~= av);
                }
                r
            },
        }
    }

    /// The canonical call syntax of this expression.
    pub fn to_text(&self) -> (r: String)
        ensures
            r@ == render(self.view_expr()),
    {
        let mut out: Vec<char> = Vec::new();
        self.render_into(&mut out);
        assert(out@ =~= render(self.view_expr()));
        string_of(out.as_slice())
    }

    /// Reads the expression as an integer: a plain name that is a size alias
    /// (`48k`, `44k`, `32k`, `24k`, `16k`, `8k`, `mono`, `stereo`) or a decimal
    /// `i64`.
    pub fn to_i64(&self) -> (r: Result<i64, ArgError>)
        ensures
            r is Ok <==> int_value(self.view_expr()) is Some,
            r matches Ok(v) ==> int_value(self.view_expr()) == Some(v as int),
            r matches Err(e) ==> e == ArgError::NotAnInteger(e->NotAnInteger_0) && e->NotAnInteger_0@
                == render(self.view_expr()),
    {
        match self {
            Expr::Name(n) => {
                let s = n.as_str();
                proof {
                    reveal_strlit("48k");
                    reveal_strlit("44k");
                    reveal_strlit("32k");
                    reveal_strlit("24k");
                    reveal_strlit("16k");
                    reveal_strlit("8k");
                    reveal_strlit("mono");
                    reveal_strlit("stereo");
                }
                let v = crate::text::chars_of(s);
                if let Some(a) = size_alias(&v) {
                    return Ok(a);
                }
                if v.len() > 0 && (v[0] == '-' || v[0] == '+') {
                    if v.len() == 1 {
                        return Err(ArgError::NotAnInteger(self.to_text()));
                    }
                    let neg = v[0] == '-';
                    let limit: u64 = if neg { 0x8000_0000_0000_0000 } else { 0x7fff_ffff_ffff_ffff };
                    match read_digits(&v, 1, limit) {
                        Some(x) => {
                            if neg {
                                if x == 0x8000_0000_0000_0000 {
                                    return Ok(i64::MIN);
                                }
                                return Ok(-(x as i64));
                            }
                            return Ok(x as i64);
                        },
                        None => {
                            proof {
                                let rest = v@.subrange(1, v.len() as int);
                                if all_digits(rest) {
                                    lemma_digits_nonneg(rest);
                                }
                            }
                            return Err(ArgError::NotAnInteger(self.to_text()));
                        },
                    }
                }
                if v.len() == 0 {
                    return Err(ArgError::NotAnInteger(self.to_text()));
                }
                match read_digits(&v, 0, 0x7fff_ffff_ffff_ffff) {
                    Some(x) => {
                        assert(v@.subrange(0, v.len() as int) =~= v@);
                        Ok(x as i64)
                    },
                    None => {
                        assert(v@.subrange(0, v.len() as int) =~= v@);
                        proof {
                            if all_digits(v@) {
                                lemma_digits_nonneg(v@);
                            }
                        }
                        Err(ArgError::NotAnInteger(self.to_text()))
                    },
                }
            },
            Expr::Fn(_, _) => Err(ArgError::NotAnInteger(self.to_text())),
        }
    }

    /// Reads the expression as a plain string.
    pub fn to_str(&self) -> (r: Result<&str, ArgError>)
        ensures
            match self.view_expr() {
                ExprV::Name(n) => r matches Ok(s) && s@ == n,
                ExprV::Fn(_, _) => r matches Err(ArgError::NotAString(t)) && t@ == render(
                    self.view_expr(),
                ),
            },
    {
        match self {
            Expr::Name(n) => Ok(n.as_str()),
            Expr::Fn(_, _) => Err(ArgError::NotAString(self.to_text())),
        }
    }
}

/// Whether `v` equals the characters of `lit`.
pub fn chars_equal(v: &Vec<char>, lit: &str) -> (r: bool)
    ensures
        r == (v@ == lit@),
{
    let w = crate::text::chars_of(lit);
    if v.len() != w.len() {
        return false;
    }
    let mut i: usize = 0;
    while i < v.len()
        invariant
            w@ == lit@,
            v.len() == w.len(),
            i <= v.len(),
            forall|k: int| 0 <= k < i ==> v@[k] == w@[k],
        decreases v.len() - i,
    {
        if v[i] != w[i] {
            assert(v@[i as int] != w@[i as int]);
            return false;
        }
        i += 1;
    }
    assert(v@ =~= w@);
    true
}

fn size_alias(v: &Vec<char>) -> (r: Option<i64>)
    ensures
        r matches Some(x) ==> alias_value(v@) == Some(x as int),
        r is None ==> alias_value(v@) is None,
{
    if chars_equal(v, "48k") {
        Some(48000)
    } else if chars_equal(v, "44k") {
        Some(44100)
    } else if chars_equal(v, "32k") {
        Some(32000)
    } else if chars_equal(v, "24k") {
        Some(24000)
    } else if chars_equal(v, "16k") {
        Some(16000)
    } else if chars_equal(v, "8k") {
        Some(8000)
    } else if chars_equal(v, "mono") {
        Some(1)
    } else if chars_equal(v, "stereo") {
        Some(2)
    } else {
        None
    }
}

impl Clone for Expr {
    fn clone(&self) -> Self {
        self.duplicate()
    }
}

} // verus!
