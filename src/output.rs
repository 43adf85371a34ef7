//! The output evaluator: turns an expression into a plan of a sink,
//! resolving shorthand names, defaults and encoder settings.
use vstd::prelude::*;
use crate::ast::Expr;
use crate::ast::ExprV;
use crate::ast::view_exprs;
use crate::mixer::StreamInfo;
use crate::plan::EvalError;
use crate::plan::EvalFault;
use crate::plan::ends_with;
use crate::plan::int_arg;
use crate::plan::int_arg_of;
use crate::plan::opt_int_arg;
use crate::plan::opt_int_arg_of;
use crate::plan::owned;
use crate::plan::str_arg;
use crate::plan::str_arg_of;
use crate::plan::str_ends_with;
use crate::plan::str_is;

verus! {

/// A playback device, by index or by a part of its name.
#[derive(Debug)]
pub enum DeviceRef {
    Index(u32),
    Named(String),
}

/// The Opus encoder's application mode.
#[derive(Clone, Copy, Debug, PartialEq, Eq)]
pub enum OpusMode {
    Audio,
    Voip,
}

/// A sink, as the expression describes it.
#[derive(Debug)]
pub enum OutputPlan {
    /// Playback device with an optional channel limit.
    Device { device: DeviceRef, max_channels: Option<i32> },
    /// Ogg Opus file encoded at the given parameters.
    Opus { path: String, info: StreamInfo, mode: OpusMode },
    /// 16-bit PCM WAV file.
    Wav { path: String },
    /// TCP server streaming 16-bit little-endian samples.
    Tcp { port: u16, info: StreamInfo },
    /// 16-bit little-endian samples on standard output.
    Stdout { info: StreamInfo },
    /// Level meters on the terminal.
    Stats,
}

pub ghost enum DeviceRefV {
    Index(u32),
    Named(Seq<char>),
}

/// The mathematical value of an [`OutputPlan`].
pub ghost enum OutputPlanV {
    Device { device: DeviceRefV, max_channels: Option<i32> },
    Opus { path: Seq<char>, info: StreamInfo, mode: OpusMode },
    Wav { path: Seq<char> },
    Tcp { port: u16, info: StreamInfo },
    Stdout { info: StreamInfo },
    Stats,
}

impl OutputPlan {
    pub open spec fn view_plan(&self) -> OutputPlanV {
        match self {
            OutputPlan::Device { device, max_channels } => OutputPlanV::Device {
                device: match device {
                    DeviceRef::Index(i) => DeviceRefV::Index(*i),
                    DeviceRef::Named(s) => DeviceRefV::Named(s@),
                },
                max_channels: *max_channels,
            },
            OutputPlan::Opus { path, info, mode } => OutputPlanV::Opus { path: path@, info: *info, mode: *mode },
            OutputPlan::Wav { path } => OutputPlanV::Wav { path: path@ },
            OutputPlan::Tcp { port, info } => OutputPlanV::Tcp { port: *port, info: *info },
            OutputPlan::Stdout { info } => OutputPlanV::Stdout { info: *info },
            OutputPlan::Stats => OutputPlanV::Stats,
        }
    }
}

/// Sample rates the Opus encoder takes.
pub open spec fn opus_rate_ok(r: u32) -> bool {
    r == 8000 || r == 12000 || r == 16000 || r == 24000 || r == 48000
}

/// An Opus file sink, after the encoder's checks on its settings.
pub open spec fn opus_plan(path: Seq<char>, rate: int, channels: int, mode: Seq<char>) -> Result<OutputPlanV, EvalFault> {
    let info = StreamInfo { sample_rate: rate as u32, channels: channels as u16 };
    if !opus_rate_ok(info.sample_rate) {
        Err(EvalFault::InvalidOpusRate(info.sample_rate))
    } else if !(info.channels == 1 || info.channels == 2) {
        Err(EvalFault::InvalidOpusChannels(info.channels))
    } else if mode == "voip"@ {
        Ok(OutputPlanV::Opus { path, info, mode: OpusMode::Voip })
    } else if mode == "audio"@ {
        Ok(OutputPlanV::Opus { path, info, mode: OpusMode::Audio })
    } else {
        Err(EvalFault::InvalidOpusMode(mode))
    }
}

/// The integer argument at `i`, or `default` when there is none.
pub open spec fn int_or(args: Seq<ExprV>, i: int, default: int) -> Result<int, EvalFault> {
    match opt_int_arg(args, i) {
        Err(x) => Err(x),
        Ok(Some(v)) => Ok(v),
        Ok(None) => Ok(default),
    }
}

/// A device given by an argument: its index when the argument is an
/// integer, else the name to look for.
pub open spec fn device_arg(e: ExprV) -> Result<DeviceRefV, EvalFault> {
    match int_arg(e) {
        Ok(v) => Ok(DeviceRefV::Index(v as u32)),
        Err(_) => match str_arg(e) {
            Ok(s) => Ok(DeviceRefV::Named(s)),
            Err(x) => Err(x),
        },
    }
}

/// A device sink from `dev`'s arguments.
pub open spec fn device_plan(args: Seq<ExprV>) -> Result<OutputPlanV, EvalFault> {
    match device_arg(args[0]) {
        Err(x) => Err(x),
        Ok(d) => match opt_int_arg(args, 1) {
            Err(x) => Err(x),
            Ok(mc) => Ok(
                OutputPlanV::Device {
                    device: d,
                    max_channels: match mc {
                        Some(v) => Some(v as i32),
                        None => None,
                    },
                },
            ),
        },
    }
}

/// The plan that an output expression describes. Bare names: `x.opus` is
/// `opus(x.opus)`, `x.wav` is `wav(x.wav)`, `-` is `stats()`, anything else
/// is `dev(x)`.
pub open spec fn output_plan(e: ExprV) -> Result<OutputPlanV, EvalFault> {
    match e {
        ExprV::Name(n) => if ends_with(n, ".opus"@) {
            opus_plan(n, 16000, 1, "audio"@)
        } else if ends_with(n, ".wav"@) {
            Ok(OutputPlanV::Wav { path: n })
        } else if n == "-"@ {
            Ok(OutputPlanV::Stats)
        } else {
            device_plan(seq![e])
        },
        ExprV::Fn(f, args) => if f == "dev"@ {
            if args.len() == 0 {
                Err(EvalFault::MissingArgument(f))
            } else {
                device_plan(args)
            }
        } else if f == "opus"@ {
            if args.len() == 0 {
                Err(EvalFault::MissingArgument(f))
            } else {
                match str_arg(args[0]) {
                    Err(x) => Err(x),
                    Ok(path) => match int_or(args, 1, 16000) {
                        Err(x) => Err(x),
                        Ok(rate) => match int_or(args, 2, 1) {
                            Err(x) => Err(x),
                            Ok(ch) => opus_plan(
                                path,
                                rate,
                                ch,
                                if args.len() > 3 && args[3] is Name {
                                    args[3]->Name_0
                                } else {
                                    "audio"@
                                },
                            ),
                        },
                    },
                }
            }
        } else if f == "wav"@ {
            if args.len() == 0 {
                Err(EvalFault::MissingArgument(f))
            } else {
                match str_arg(args[0]) {
                    Err(x) => Err(x),
                    Ok(path) => Ok(OutputPlanV::Wav { path }),
                }
            }
        } else if f == "tcp16le"@ {
            if args.len() == 0 {
                Err(EvalFault::MissingArgument(f))
            } else {
                match int_arg(args[0]) {
                    Err(x) => Err(x),
                    Ok(port) => match int_or(args, 1, 16000) {
                        Err(x) => Err(x),
                        Ok(rate) => match int_or(args, 2, 1) {
                            Err(x) => Err(x),
                            Ok(ch) => Ok(
                                OutputPlanV::Tcp {
                                    port: port as u16,
                                    info: StreamInfo { sample_rate: rate as u32, channels: ch as u16 },
                                },
                            ),
                        },
                    },
                }
            }
        } else if f == "out16le"@ {
            match int_or(args, 0, 16000) {
                Err(x) => Err(x),
                Ok(rate) => match int_or(args, 1, 1) {
                    Err(x) => Err(x),
                    Ok(ch) => Ok(
                        OutputPlanV::Stdout {
                            info: StreamInfo { sample_rate: rate as u32, channels: ch as u16 },
                        },
                    ),
                },
            }
        } else if f == "stats"@ {
            Ok(OutputPlanV::Stats)
        } else {
            Err(EvalFault::UnknownFunction(f))
        },
    }
}

/// `r` is what evaluating `e` as an output gives.
pub open spec fn output_matches(e: ExprV, r: Result<OutputPlan, EvalError>) -> bool {
    match (r, output_plan(e)) {
        (Ok(p), Ok(v)) => p.view_plan() == v,
        (Err(x), Err(y)) => x@ == y,
        _ => false,
    }
}

/// Checks an Opus file sink's settings.
pub fn opus_settings(path: &str, rate: i64, channels: i64, mode: &str) -> (r: Result<OutputPlan, EvalError>)
    ensures
        match (r, opus_plan(path@, rate as int, channels as int, mode@)) {
            (Ok(p), Ok(v)) => p.view_plan() == v,
            (Err(x), Err(y)) => x@ == y,
            _ => false,
        },
{
    let info = StreamInfo { sample_rate: rate as u32, channels: channels as u16 };
    let r = info.sample_rate;
    if !(r == 8000 || r == 12000 || r == 16000 || r == 24000 || r == 48000) {
        return Err(EvalError::InvalidOpusRate(r));
    }
    if !(info.channels == 1 || info.channels == 2) {
        return Err(EvalError::InvalidOpusChannels(info.channels));
    }
    if str_is(mode, "voip") {
        Ok(OutputPlan::Opus { path: owned(path), info, mode: OpusMode::Voip })
    } else if str_is(mode, "audio") {
        Ok(OutputPlan::Opus { path: owned(path), info, mode: OpusMode::Audio })
    } else {
        Err(EvalError::InvalidOpusMode(owned(mode)))
    }
}

fn int_or_of(args: &Vec<Expr>, i: usize, default: i64) -> (r: Result<i64, EvalError>)
    ensures
        match (r, int_or(view_exprs(args@), i as int, default as int)) {
            (Ok(v), Ok(w)) => v == w,
            (Err(x), Err(y)) => x@ == y,
            _ => false,
        },
{
    match opt_int_arg_of(args, i)? {
        Some(v) => Ok(v),
        None => Ok(default),
    }
}

fn device_plan_of(arg: &Expr, args: &Vec<Expr>) -> (r: Result<OutputPlan, EvalError>)
    requires
        args@.len() == 0 || args@[0] == arg,
    ensures
        match (r, device_plan(if args@.len() == 0 { seq![arg.view_expr()] } else { view_exprs(args@) })) {
            (Ok(p), Ok(v)) => p.view_plan() == v,
            (Err(x), Err(y)) => x@ == y,
            _ => false,
        },
{
    let ghost av = if args@.len() == 0 { seq![arg.view_expr()] } else { view_exprs(args@) };
    let device = match int_arg_of(arg) {
        Ok(v) => DeviceRef::Index(v as u32),
        Err(_) => DeviceRef::Named(owned(str_arg_of(arg)?)),
    };
    let mc = if args.len() > 1 {
        opt_int_arg_of(args, 1)?
    } else {
        None
    };
    let max_channels = match mc {
        Some(v) => Some(v as i32),
        None => None,
    };
    Ok(OutputPlan::Device { device, max_channels })
}

/// Evaluates an output expression into a plan.
pub fn eval_output(expr: &Expr) -> (r: Result<OutputPlan, EvalError>)
    ensures
        output_matches(expr.view_expr(), r),
{
    match expr {
        Expr::Name(n) => {
            let s = n.as_str();
            if str_ends_with(s, ".opus") {
                proof {
                    reveal_strlit("audio");
                }
                opus_settings(s, 16000, 1, "audio")
            } else if str_ends_with(s, ".wav") {
                Ok(OutputPlan::Wav { path: n.clone() })
            } else if str_is(s, "-") {
                Ok(OutputPlan::Stats)
            } else {
                let none: Vec<Expr> = Vec::new();
                device_plan_of(expr, &none)
            }
        },
        Expr::Fn(f, args) => {
            let ghost av = view_exprs(args@);
            assert(expr.view_expr() == ExprV::Fn(f@, av)) by {
                assert(expr.view_expr()->Fn_1 =~= av);
            }
            let name = f.as_str();
            if str_is(name, "dev") {
                if args.len() == 0 {
                    return Err(EvalError::MissingArgument(f.clone()));
                }
                device_plan_of(&args[0], args)
            } else if str_is(name, "opus") {
                if args.len() == 0 {
                    return Err(EvalError::MissingArgument(f.clone()));
                }
                let path = str_arg_of(&args[0])?;
                let rate = int_or_of(args, 1, 16000)?;
                let ch = int_or_of(args, 2, 1)?;
                let mode: &str = if args.len() > 3 {
                    match &args[3] {
                        Expr::Name(m) => m.as_str(),
                        Expr::Fn(_, _) => "audio",
                    }
                } else {
                    "audio"
                };
                opus_settings(path, rate, ch, mode)
            } else if str_is(name, "wav") {
                if args.len() == 0 {
                    return Err(EvalError::MissingArgument(f.clone()));
                }
                let path = owned(str_arg_of(&args[0])?);
                Ok(OutputPlan::Wav { path })
            } else if str_is(name, "tcp16le") {
                if args.len() == 0 {
                    return Err(EvalError::MissingArgument(f.clone()));
                }
                let port = int_arg_of(&args[0])?;
                let rate = int_or_of(args, 1, 16000)?;
                let ch = int_or_of(args, 2, 1)?;
                Ok(OutputPlan::Tcp { port: port as u16, info: StreamInfo { sample_rate: rate as u32, channels: ch as u16 } })
            } else if str_is(name, "out16le") {
                let rate = int_or_of(args, 0, 16000)?;
                let ch = int_or_of(args, 1, 1)?;
                Ok(OutputPlan::Stdout { info: StreamInfo { sample_rate: rate as u32, channels: ch as u16 } })
            } else if str_is(name, "stats") {
                Ok(OutputPlan::Stats)
            } else {
                Err(EvalError::UnknownFunction(f.clone()))
            }
        },
    }
}

/// The bare name `-` means the same sink as `stats()`.
pub proof fn lemma_stats_alias()
    ensures
        output_plan(ExprV::Name("-"@)) == output_plan(ExprV::Fn("stats"@, Seq::empty())),
{
    reveal_strlit("-");
    reveal_strlit(".opus");
    reveal_strlit(".wav");
    reveal_strlit("stats");
    reveal_strlit("dev");
    reveal_strlit("opus");
    reveal_strlit("wav");
    reveal_strlit("tcp16le");
    reveal_strlit("out16le");
    assert(!ends_with("-"@, ".opus"@));
    assert(!ends_with("-"@, ".wav"@));
    assert("stats"@ != "dev"@);
    assert("stats"@ != "opus"@);
    assert("stats"@ != "wav"@);
    assert("stats"@ != "tcp16le"@);
    assert("stats"@ != "out16le"@);
}

} // verus!
