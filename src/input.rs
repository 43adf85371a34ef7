//! The input evaluator: turns an expression into a plan of sources and
//! transforms, resolving shorthand names and reading arguments.
use vstd::prelude::*;
use crate::ast::Expr;
use crate::ast::ExprV;
use crate::ast::all_digits;
use crate::ast::digits_value;
use crate::ast::view_exprs;
use crate::plan::EvalError;
use crate::plan::EvalFault;
use crate::plan::ends_with;
use crate::plan::int_arg;
use crate::plan::int_arg_of;
use crate::plan::opt_int_arg;
use crate::plan::opt_int_arg_of;
use crate::plan::owned;
use crate::plan::str_arg;
use crate::plan::str_arg_of;
use crate::plan::str_ends_with;
use crate::plan::str_is;
use crate::text::chars_of;

verus! {

/// A source, as the expression describes it.
#[derive(Debug)]
pub enum InputPlan {
    /// Capture device by index, with an optional channel limit.
    Device { index: u32, max_channels: Option<i32> },
    /// Sine generator with its parameter text.
    Sin { params: String },
    /// Endless silence.
    Silence,
    /// Sources mixed together; the first one's rate is the others' target.
    Mix(Vec<InputPlan>),
    /// A source downmixed to mono.
    Mono(Box<InputPlan>),
    /// A source converted to another rate, with an optional quality.
    Resample { input: Box<InputPlan>, sample_rate: u32, quality: Option<usize> },
    /// A source with its level changed by the decibel text.
    Level { input: Box<InputPlan>, db: String },
    /// An MP3 file.
    Mp3 { path: String },
    /// An Ogg Opus file.
    Opus { path: String },
}

/// The mathematical value of an [`InputPlan`].
pub ghost enum InputPlanV {
    Device { index: u32, max_channels: Option<i32> },
    Sin { params: Seq<char> },
    Silence,
    Mix(Seq<InputPlanV>),
    Mono(Box<InputPlanV>),
    Resample { input: Box<InputPlanV>, sample_rate: u32, quality: Option<usize> },
    Level { input: Box<InputPlanV>, db: Seq<char> },
    Mp3 { path: Seq<char> },
    Opus { path: Seq<char> },
}

impl InputPlan {
    pub open spec fn view_plan(self) -> InputPlanV
        decreases self,
    {
        match self {
            InputPlan::Device { index, max_channels } => InputPlanV::Device { index, max_channels },
            InputPlan::Sin { params } => InputPlanV::Sin { params: params@ },
            InputPlan::Silence => InputPlanV::Silence,
            InputPlan::Mix(v) => InputPlanV::Mix(
                Seq::new(
                    v.len() as nat,
                    |i: int|
                        if 0 <= i < v.len() {
                            v[i].view_plan()
                        } else {
                            InputPlanV::Silence
                        },
                ),
            ),
            InputPlan::Mono(b) => InputPlanV::Mono(Box::new((*b).view_plan())),
            InputPlan::Resample { input, sample_rate, quality } => InputPlanV::Resample {
                input: Box::new((*input).view_plan()),
                sample_rate,
                quality,
            },
            InputPlan::Level { input, db } => InputPlanV::Level {
                input: Box::new((*input).view_plan()),
                db: db@,
            },
            InputPlan::Mp3 { path } => InputPlanV::Mp3 { path: path@ },
            InputPlan::Opus { path } => InputPlanV::Opus { path: path@ },
        }
    }
}

pub open spec fn view_plans(v: Seq<InputPlan>) -> Seq<InputPlanV> {
    Seq::new(v.len(), |i: int| v[i].view_plan())
}

/// The value of an unsigned integer as `FromStr` reads it: an optional `+`
/// and decimal digits worth at most `max`.
pub open spec fn unsigned_value(s: Seq<char>, max: int) -> Option<int> {
    let digits = if s.len() > 0 && s[0] == '+' { s.subrange(1, s.len() as int) } else { s };
    if digits.len() > 0 && all_digits(digits) && digits_value(digits) <= max {
        Some(digits_value(digits))
    } else {
        None
    }
}

/// The text as a `u16`.
pub open spec fn u16_value(s: Seq<char>) -> Option<int> {
    unsigned_value(s, 65535)
}

/// `c` in ASCII lower case.
pub open spec fn ascii_lower(c: char) -> char {
    if 'A' <= c && c <= 'Z' {
        ((c as u32) + 32) as char
    } else {
        c
    }
}

/// `s` is `nul` in any ASCII case.
pub open spec fn is_nul(s: Seq<char>) -> bool {
    s.len() == 3 && ascii_lower(s[0]) == 'n' && ascii_lower(s[1]) == 'u' && ascii_lower(s[2]) == 'l'
}

/// The source a bare name stands for: `x.mp3` is `mp3(x.mp3)`, `x.opus` is
/// `opus(x.opus)`, a `u16` number `n` is `dev(n)`, `nul` is `silence()`.
pub open spec fn sugar_input(n: Seq<char>) -> Result<InputPlanV, EvalFault> {
    if ends_with(n, ".mp3"@) {
        Ok(InputPlanV::Mp3 { path: n })
    } else if ends_with(n, ".opus"@) {
        Ok(InputPlanV::Opus { path: n })
    } else if u16_value(n) is Some {
        Ok(InputPlanV::Device { index: u16_value(n)->Some_0 as u32, max_channels: None })
    } else if is_nul(n) {
        Ok(InputPlanV::Silence)
    } else {
        Err(EvalFault::UnknownInput(n))
    }
}

/// The plan that an input expression describes.
pub open spec fn input_plan(e: ExprV) -> Result<InputPlanV, EvalFault>
    decreases e, 0nat,
{
    match e {
        ExprV::Name(n) => sugar_input(n),
        ExprV::Fn(f, args) => if f == "dev"@ {
            if args.len() == 0 {
                Err(EvalFault::MissingArgument(f))
            } else {
                match int_arg(args[0]) {
                    Err(x) => Err(x),
                    Ok(i) => match opt_int_arg(args, 1) {
                        Err(x) => Err(x),
                        Ok(mc) => Ok(
                            InputPlanV::Device {
                                index: i as u32,
                                max_channels: match mc {
                                    Some(v) => Some(v as i32),
                                    None => None,
                                },
                            },
                        ),
                    },
                }
            }
        } else if f == "sin"@ {
            if args.len() == 1 && args[0] is Name {
                Ok(InputPlanV::Sin { params: args[0]->Name_0 })
            } else {
                Err(EvalFault::BadArguments(f))
            }
        } else if f == "silence"@ {
            Ok(InputPlanV::Silence)
        } else if f == "mix"@ {
            match input_plans(args, 0) {
                Err(x) => Err(x),
                Ok(v) => Ok(InputPlanV::Mix(v)),
            }
        } else if f == "mono"@ {
            if args.len() == 0 {
                Err(EvalFault::MissingArgument(f))
            } else {
                match input_plan(args[0]) {
                    Err(x) => Err(x),
                    Ok(p) => Ok(InputPlanV::Mono(Box::new(p))),
                }
            }
        } else if f == "resample"@ {
            if args.len() < 2 {
                Err(EvalFault::MissingArgument(f))
            } else {
                match int_arg(args[1]) {
                    Err(x) => Err(x),
                    Ok(rate) => match opt_int_arg(args, 2) {
                        Err(x) => Err(x),
                        Ok(q) => match input_plan(args[0]) {
                            Err(x) => Err(x),
                            Ok(p) => Ok(
                                InputPlanV::Resample {
                                    input: Box::new(p),
                                    sample_rate: rate as u32,
                                    quality: match q {
                                        Some(v) => Some(v as usize),
                                        None => None,
                                    },
                                },
                            ),
                        },
                    },
                }
            }
        } else if f == "level"@ {
            if args.len() < 2 {
                Err(EvalFault::MissingArgument(f))
            } else {
                match str_arg(args[1]) {
                    Err(x) => Err(x),
                    Ok(db) => match input_plan(args[0]) {
                        Err(x) => Err(x),
                        Ok(p) => Ok(InputPlanV::Level { input: Box::new(p), db }),
                    },
                }
            }
        } else if f == "mp3"@ || f == "opus"@ {
            if args.len() == 0 {
                Err(EvalFault::MissingArgument(f))
            } else {
                match str_arg(args[0]) {
                    Err(x) => Err(x),
                    Ok(path) => Ok(
                        if f == "mp3"@ {
                            InputPlanV::Mp3 { path }
                        } else {
                            InputPlanV::Opus { path }
                        },
                    ),
                }
            }
        } else {
            Err(EvalFault::UnknownFunction(f))
        },
    }
}

/// The plans of `args[i..]`, or the first error among them.
pub open spec fn input_plans(args: Seq<ExprV>, i: int) -> Result<Seq<InputPlanV>, EvalFault>
    decreases args, args.len() - i,
{
    if 0 <= i < args.len() {
        match input_plan(args[i]) {
            Err(x) => Err(x),
            Ok(p) => match input_plans(args, i + 1) {
                Err(x) => Err(x),
                Ok(rest) => Ok(seq![p] + rest),
            },
        }
    } else {
        Ok(Seq::empty())
    }
}

/// `r` is what evaluating `e` as an input gives.
pub open spec fn input_matches(e: ExprV, r: Result<InputPlan, EvalError>) -> bool {
    match (r, input_plan(e)) {
        (Ok(p), Ok(v)) => p.view_plan() == v,
        (Err(x), Err(y)) => x@ == y,
        _ => false,
    }
}

/// The value of an optional `+` and decimal digits, when it fits `u16`.
fn parse_u16(s: &str) -> (r: Option<u16>)
    ensures
        match (r, u16_value(s@)) {
            (Some(v), Some(w)) => v == w,
            (None, None) => true,
            _ => false,
        },
{
    let v = chars_of(s);
    match parse_unsigned(&v, 65535) {
        Some(x) => Some(x as u16),
        None => None,
    }
}

/// The value of an optional `+` and decimal digits, when it is at most `max`.
fn parse_unsigned(v: &Vec<char>, max: u32) -> (r: Option<u32>)
    ensures
        match (r, unsigned_value(v@, max as int)) {
            (Some(x), Some(w)) => x == w,
            (None, None) => true,
            _ => false,
        },
{
    let ghost s = v@;
    let start: usize = if v.len() > 0 && v[0] == '+' { 1 } else { 0 };
    let ghost digits = if v@.len() > 0 && v@[0] == '+' { v@.subrange(1, v@.len() as int) } else { v@ };
    if start >= v.len() {
        assert(digits.len() == 0);
        return None;
    }
    let mut acc: u64 = 0;
    let mut i: usize = start;
    assert(v@.subrange(start as int, v@.len() as int) =~= digits);
    while i < v.len()
        invariant
            v@ == s,
            start <= i <= v@.len(),
            digits == v@.subrange(start as int, v@.len() as int),
            digits == (if s.len() > 0 && s[0] == '+' { s.subrange(1, s.len() as int) } else { s }),
            all_digits(v@.subrange(start as int, i as int)),
            acc == digits_value(v@.subrange(start as int, i as int)),
            acc <= max,
        decreases v@.len() - i,
    {
        let c = v[i];
        let u = c as u32;
        proof {
            assert(v@.subrange(start as int, i + 1) =~= v@.subrange(start as int, i as int).push(c));
            assert(v@.subrange(start as int, i + 1).drop_last() =~= v@.subrange(start as int, i as int));
        }
        if !(48 <= u && u <= 57) {
            assert(digits[i - start] == c);
            assert(!crate::ast::is_digit(c));
            assert(!all_digits(digits));
            return None;
        }
        acc = acc * 10 + (u - 48) as u64;
        proof {
            let t = v@.subrange(start as int, i + 1);
            assert(t.last() == c);
            assert(acc == digits_value(t));
            assert(all_digits(t));
        }
        if acc > max as u64 {
            proof {
                crate::ast::lemma_digits_prefix_bound(digits, (i + 1 - start) as int);
                assert(digits.subrange(0, i + 1 - start) =~= v@.subrange(start as int, i + 1));
                assert(all_digits(digits) ==> digits_value(digits) > max);
            }
            return None;
        }
        i += 1;
    }
    assert(v@.subrange(start as int, v@.len() as int) =~= digits);
    Some(acc as u32)
}

fn is_nul_text(s: &str) -> (r: bool)
    ensures
        r == is_nul(s@),
{
    let v = chars_of(s);
    if v.len() != 3 {
        return false;
    }
    lower(v[0]) == 'n' && lower(v[1]) == 'u' && lower(v[2]) == 'l'
}

fn lower(c: char) -> (r: char)
    ensures
        r == ascii_lower(c),
{
    if 'A' <= c && c <= 'Z' {
        let u = (c as u32) + 32;
        proof {
            assert(0x61 <= u <= 0x7a);
        }
        char_from_ascii(u)
    } else {
        c
    }
}

/// The character with an ASCII code.
fn char_from_ascii(u: u32) -> (r: char)
    requires
        u < 128,
    ensures
        r == u as char,
{
    let b = u as u8;
    let r = b as char;
    assert(r == u as char);
    r
}

/// The plan of a shorthand name.
fn plan_name(n: &String) -> (r: Result<InputPlan, EvalError>)
    ensures
        match (r, sugar_input(n@)) {
            (Ok(p), Ok(v)) => p.view_plan() == v,
            (Err(x), Err(y)) => x@ == y,
            _ => false,
        },
{
    let s = n.as_str();
    if str_ends_with(s, ".mp3") {
        Ok(InputPlan::Mp3 { path: n.clone() })
    } else if str_ends_with(s, ".opus") {
        Ok(InputPlan::Opus { path: n.clone() })
    } else if let Some(i) = parse_u16(s) {
        Ok(InputPlan::Device { index: i as u32, max_channels: None })
    } else if is_nul_text(s) {
        Ok(InputPlan::Silence)
    } else {
        Err(EvalError::UnknownInput(n.clone()))
    }
}

/// Evaluates an input expression into a plan.
pub fn eval_input(expr: &Expr) -> (r: Result<InputPlan, EvalError>)
    ensures
        input_matches(expr.view_expr(), r),
    decreases expr.view_expr(),
{
    match expr {
        Expr::Name(n) => plan_name(n),
        Expr::Fn(f, args) => {
            let ghost av = view_exprs(args@);
            assert(expr.view_expr() == ExprV::Fn(f@, av)) by {
                assert(expr.view_expr()->Fn_1 =~= av);
            }
            let name = f.as_str();
            if str_is(name, "dev") {
                if args.len() == 0 {
                    return Err(EvalError::MissingArgument(f.clone()));
                }
                let i = int_arg_of(&args[0])?;
                let mc = opt_int_arg_of(args, 1)?;
                let max_channels = match mc {
                    Some(v) => Some(v as i32),
                    None => None,
                };
                Ok(InputPlan::Device { index: i as u32, max_channels })
            } else if str_is(name, "sin") {
                if args.len() == 1 {
                    if let Expr::Name(p) = &args[0] {
                        return Ok(InputPlan::Sin { params: p.clone() });
                    }
                }
                Err(EvalError::BadArguments(f.clone()))
            } else if str_is(name, "silence") {
                Ok(InputPlan::Silence)
            } else if str_is(name, "mix") {
                let mut plans: Vec<InputPlan> = Vec::new();
                let mut j: usize = 0;
                while j < args.len()
                    invariant
                        j <= args.len(),
                        av == view_exprs(args@),
                        expr.view_expr() == ExprV::Fn(f@, av),
                        f@ == "mix"@,
                        f@ != "dev"@ && f@ != "sin"@ && f@ != "silence"@,
                        input_plans(av, 0) == match input_plans(av, j as int) {
                            Err(x) => Err(x),
                            Ok(rest) => Ok(view_plans(plans@) + rest),
                        },
                    decreases args.len() - j,
                {
                    proof {
                        let v = expr.view_expr();
                        assert(decreases_to!(v => v->Fn_1));
                        assert(decreases_to!(v->Fn_1 => v->Fn_1[j as int]));
                    }
                    let p = match eval_input(&args[j]) {
                        Ok(p) => p,
                        Err(x) => {
                            proof {
                                assert(input_plans(av, j as int) == Err::<Seq<InputPlanV>, EvalFault>(x@));
                            }
                            return Err(x);
                        },
                    };
                    let ghost before = plans@;
                    plans.push(p);
                    proof {
                        assert(view_plans(plans@) =~= view_plans(before).push(p.view_plan()));
                        match input_plans(av, j + 1) {
                            Err(x) => {},
                            Ok(rest) => {
                                assert(view_plans(before) + (seq![p.view_plan()] + rest) =~= view_plans(plans@) + rest);
                            },
                        }
                    }
                    j += 1;
                }
                proof {
                    assert(view_plans(plans@) + Seq::<InputPlanV>::empty() =~= view_plans(plans@));
                }
                let r = InputPlan::Mix(plans);
                proof {
                    assert(r.view_plan()->Mix_0 =~= view_plans(plans@));
                }
                Ok(r)
            } else if str_is(name, "mono") {
                if args.len() == 0 {
                    return Err(EvalError::MissingArgument(f.clone()));
                }
                proof {
                    let v = expr.view_expr();
                    assert(decreases_to!(v => v->Fn_1));
                    assert(decreases_to!(v->Fn_1 => v->Fn_1[0]));
                }
                let p = eval_input(&args[0])?;
                Ok(InputPlan::Mono(Box::new(p)))
            } else if str_is(name, "resample") {
                if args.len() < 2 {
                    return Err(EvalError::MissingArgument(f.clone()));
                }
                let rate = int_arg_of(&args[1])?;
                let q = opt_int_arg_of(args, 2)?;
                proof {
                    let v = expr.view_expr();
                    assert(decreases_to!(v => v->Fn_1));
                    assert(decreases_to!(v->Fn_1 => v->Fn_1[0]));
                }
                let p = eval_input(&args[0])?;
                let quality = match q {
                    Some(v) => Some(v as usize),
                    None => None,
                };
                Ok(InputPlan::Resample { input: Box::new(p), sample_rate: rate as u32, quality })
            } else if str_is(name, "level") {
                if args.len() < 2 {
                    return Err(EvalError::MissingArgument(f.clone()));
                }
                let db = str_arg_of(&args[1])?;
                proof {
                    let v = expr.view_expr();
                    assert(decreases_to!(v => v->Fn_1));
                    assert(decreases_to!(v->Fn_1 => v->Fn_1[0]));
                }
                let p = eval_input(&args[0])?;
                Ok(InputPlan::Level { input: Box::new(p), db: owned(db) })
            } else if str_is(name, "mp3") || str_is(name, "opus") {
                if args.len() == 0 {
                    return Err(EvalError::MissingArgument(f.clone()));
                }
                let path = owned(str_arg_of(&args[0])?);
                if str_is(name, "mp3") {
                    Ok(InputPlan::Mp3 { path })
                } else {
                    Ok(InputPlan::Opus { path })
                }
            } else {
                Err(EvalError::UnknownFunction(f.clone()))
            }
        },
    }
}

/// Settings of the sine generator that its parameter text gives; the rest
/// take their defaults. Frequency and power stay text, read as decimals by
/// the generator.
#[derive(Debug)]
pub struct SinParams {
    pub freq: Option<String>,
    pub power: Option<String>,
    pub sample_rate: Option<u32>,
    pub channels: Option<u16>,
}

pub ghost struct SinParamsV {
    pub freq: Option<Seq<char>>,
    pub power: Option<Seq<char>>,
    pub sample_rate: Option<u32>,
    pub channels: Option<u16>,
}

impl SinParams {
    pub open spec fn view_params(&self) -> SinParamsV {
        SinParamsV {
            freq: match self.freq {
                Some(f) => Some(f@),
                None => None,
            },
            power: match self.power {
                Some(p) => Some(p@),
                None => None,
            },
            sample_rate: self.sample_rate,
            channels: self.channels,
        }
    }
}

/// The sine generator's settings after defaults: 440 Hz at half power,
/// the rate hint (else 48000 Hz), one channel. Frequency and power stay text.
#[derive(Debug)]
pub struct SinSettings {
    pub freq: String,
    pub power: String,
    pub sample_rate: u32,
    pub channels: u16,
}

impl SinParams {
    /// Fills in the defaults for what the parameter text left out.
    pub fn settings(self, sample_rate_hint: Option<u32>) -> (r: SinSettings)
        ensures
            r.freq@ == (match self.freq {
                Some(f) => f@,
                None => "440"@,
            }),
            r.power@ == (match self.power {
                Some(p) => p@,
                None => "0.5"@,
            }),
            r.sample_rate == (match self.sample_rate {
                Some(v) => v,
                None => match sample_rate_hint {
                    Some(h) => h,
                    None => 48000,
                },
            }),
            r.channels == (match self.channels {
                Some(c) => c,
                None => 1,
            }),
    {
        let freq = match self.freq {
            Some(f) => f,
            None => owned("440"),
        };
        let power = match self.power {
            Some(p) => p,
            None => owned("0.5"),
        };
        let sample_rate = match self.sample_rate {
            Some(v) => v,
            None => match sample_rate_hint {
                Some(h) => h,
                None => 48000,
            },
        };
        let channels = match self.channels {
            Some(c) => c,
            None => 1,
        };
        SinSettings { freq, power, sample_rate, channels }
    }
}

/// The rate hint for the inputs of a mix: the first input's rate once it is
/// known, else the hint the mix itself was given.
pub fn mix_child_hint(hint: Option<u32>, first_rate: Option<u32>) -> (r: Option<u32>)
    ensures
        r == (match first_rate {
            Some(f) => Some(f),
            None => hint,
        }),
{
    match first_rate {
        Some(f) => Some(f),
        None => hint,
    }
}

/// The first position at or after `i` that holds `c`, or the length.
pub open spec fn find_char(s: Seq<char>, i: int, c: char) -> int
    decreases s.len() - i,
{
    if 0 <= i < s.len() && s[i] != c {
        find_char(s, i + 1, c)
    } else {
        i
    }
}

/// One `;`-separated parameter applied: `key=value` sets that key, a bare
/// value sets the frequency.
pub open spec fn apply_param(seg: Seq<char>, acc: SinParamsV) -> Result<SinParamsV, EvalFault> {
    let k = find_char(seg, 0, '=');
    if k < seg.len() {
        let key = seg.subrange(0, k);
        let value = seg.subrange(k + 1, seg.len() as int);
        if key == "freq"@ {
            Ok(SinParamsV { freq: Some(value), ..acc })
        } else if key == "power"@ {
            Ok(SinParamsV { power: Some(value), ..acc })
        } else if key == "samplerate"@ {
            match unsigned_value(value, u32::MAX as int) {
                Some(v) => Ok(SinParamsV { sample_rate: Some(v as u32), ..acc }),
                None => Err(EvalFault::BadNumber(value)),
            }
        } else if key == "channel"@ {
            match unsigned_value(value, 65535) {
                Some(v) => Ok(SinParamsV { channels: Some(v as u16), ..acc }),
                None => Err(EvalFault::BadNumber(value)),
            }
        } else {
            Err(EvalFault::UnknownKey(key))
        }
    } else {
        Ok(SinParamsV { freq: Some(seg), ..acc })
    }
}

/// The parameters from position `i` on, applied in order over `acc`.
pub open spec fn sin_params_from(s: Seq<char>, i: int, acc: SinParamsV) -> Result<SinParamsV, EvalFault>
    decreases s.len() - i,
{
    let e = find_char(s, i, ';');
    if i < 0 || e < i {
        Err(EvalFault::BadNumber(s))
    } else {
        match apply_param(s.subrange(i, e), acc) {
            Err(x) => Err(x),
            Ok(a) => if e < s.len() {
                sin_params_from(s, e + 1, a)
            } else {
                Ok(a)
            },
        }
    }
}

/// The sine generator's parameters: `440`, or `freq=440;samplerate=44100`.
pub open spec fn sin_params(s: Seq<char>) -> Result<SinParamsV, EvalFault> {
    sin_params_from(s, 0, SinParamsV { freq: None, power: None, sample_rate: None, channels: None })
}

proof fn lemma_find_char(s: Seq<char>, i: int, c: char)
    requires
        0 <= i <= s.len(),
    ensures
        i <= find_char(s, i, c) <= s.len(),
    decreases s.len() - i,
{
    if i < s.len() && s[i] != c {
        lemma_find_char(s, i + 1, c);
    }
}

fn find_char_exec(v: &Vec<char>, from: usize, c: char) -> (r: usize)
    requires
        from <= v@.len(),
    ensures
        r == find_char(v@, from as int, c),
        from <= r <= v@.len(),
{
    let mut i = from;
    while i < v.len() && v[i] != c
        invariant
            from <= i <= v@.len(),
            find_char(v@, i as int, c) == find_char(v@, from as int, c),
        decreases v@.len() - i,
    {
        i += 1;
    }
    i
}

fn apply_param_exec(seg: &Vec<char>, acc: SinParams) -> (r: Result<SinParams, EvalError>)
    ensures
        match (r, apply_param(seg@, acc.view_params())) {
            (Ok(p), Ok(v)) => p.view_params() == v,
            (Err(x), Err(y)) => x@ == y,
            _ => false,
        },
{
    let k = find_char_exec(seg, 0, '=');
    if k < seg.len() {
        let key_chars = crate::text::slice_chars(seg, 0, k);
        let value_chars = crate::text::slice_chars(seg, k + 1, seg.len());
        let key = crate::text::string_of(key_chars.as_slice());
        let value = crate::text::string_of(value_chars.as_slice());
        if crate::ast::chars_equal(&key_chars, "freq") {
            Ok(SinParams { freq: Some(value), ..acc })
        } else if crate::ast::chars_equal(&key_chars, "power") {
            Ok(SinParams { power: Some(value), ..acc })
        } else if crate::ast::chars_equal(&key_chars, "samplerate") {
            match parse_unsigned(&value_chars, u32::MAX) {
                Some(v) => Ok(SinParams { sample_rate: Some(v), ..acc }),
                None => Err(EvalError::BadNumber(value)),
            }
        } else if crate::ast::chars_equal(&key_chars, "channel") {
            match parse_unsigned(&value_chars, 65535) {
                Some(v) => Ok(SinParams { channels: Some(v as u16), ..acc }),
                None => Err(EvalError::BadNumber(value)),
            }
        } else {
            Err(EvalError::UnknownKey(key))
        }
    } else {
        Ok(SinParams { freq: Some(crate::text::string_of(seg.as_slice())), ..acc })
    }
}

/// Reads the sine generator's parameter text.
pub fn parse_sin_params(params: &str) -> (r: Result<SinParams, EvalError>)
    ensures
        match (r, sin_params(params@)) {
            (Ok(p), Ok(v)) => p.view_params() == v,
            (Err(x), Err(y)) => x@ == y,
            _ => false,
        },
{
    let s = chars_of(params);
    let mut acc = SinParams { freq: None, power: None, sample_rate: None, channels: None };
    let mut i: usize = 0;
    loop
        invariant
            s@ == params@,
            i <= s@.len(),
            sin_params(params@) == sin_params_from(s@, i as int, acc.view_params()),
        decreases s@.len() - i,
    {
        let e = find_char_exec(&s, i, ';');
        let seg = crate::text::slice_chars(&s, i, e);
        acc = match apply_param_exec(&seg, acc) {
            Ok(a) => a,
            Err(x) => return Err(x),
        };
        if e < s.len() {
            i = e + 1;
        } else {
            return Ok(acc);
        }
    }
}

/// A bare name ending in `.mp3` means the same source as `mp3` called with
/// that name as a plain string.
pub proof fn lemma_mp3_alias(n: Seq<char>)
    requires
        ends_with(n, ".mp3"@),
    ensures
        input_plan(ExprV::Name(n)) == input_plan(ExprV::Fn("mp3"@, seq![ExprV::Name(n)])),
{
    reveal_strlit("mp3");
    reveal_strlit("dev");
    reveal_strlit("sin");
    reveal_strlit("silence");
    reveal_strlit("mix");
    reveal_strlit("mono");
    reveal_strlit("resample");
    reveal_strlit("level");
    assert("mp3"@[0] != "dev"@[0]);
    assert("mp3"@[0] != "sin"@[0]);
    assert("mp3"@.len() != "silence"@.len());
    assert("mp3"@[1] != "mix"@[1]);
    assert("mp3"@.len() != "mono"@.len());
    assert("mp3"@.len() != "resample"@.len());
    assert("mp3"@.len() != "level"@.len());
}

} // verus!
