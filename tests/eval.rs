use sndcat::input::mix_child_hint;
use sndcat::ast::Expr;
use sndcat::input::eval_input;
use sndcat::input::parse_sin_params;
use sndcat::input::InputPlan;
use sndcat::output::eval_output;
use sndcat::output::DeviceRef;
use sndcat::output::OpusMode;
use sndcat::output::OutputPlan;
use sndcat::plan::EvalError;

fn input(s: &str) -> Result<InputPlan, EvalError> {
    eval_input(&Expr::parse(s).unwrap())
}

fn output(s: &str) -> Result<OutputPlan, EvalError> {
    eval_output(&Expr::parse(s).unwrap())
}

#[test]
fn mp3_alias_equals_mp3_call() {
    let a = format!("{:?}", input("1.mp3"));
    let b = format!("{:?}", input("mp3('1.mp3')"));
    assert_eq!(a, b);
    match input("1.mp3").unwrap() {
        InputPlan::Mp3 { path } => assert_eq!(path, "1.mp3"),
        other => panic!("unexpected plan {:?}", other),
    }
}

#[test]
fn dash_alias_equals_stats_call() {
    assert!(matches!(output("-").unwrap(), OutputPlan::Stats));
    assert!(matches!(output("stats()").unwrap(), OutputPlan::Stats));
}

#[test]
fn input_aliases() {
    assert!(matches!(input("a.opus").unwrap(), InputPlan::Opus { .. }));
    assert!(matches!(
        input("12").unwrap(),
        InputPlan::Device {
            index: 12,
            max_channels: None
        }
    ));
    assert!(matches!(input("NUL").unwrap(), InputPlan::Silence));
    assert!(matches!(input("nul").unwrap(), InputPlan::Silence));
    assert_eq!(input("70000").unwrap_err(), EvalError::UnknownInput("70000".to_string()));
    assert_eq!(input("foo").unwrap_err(), EvalError::UnknownInput("foo".to_string()));
}

#[test]
fn input_calls() {
    match input("resample(sin(440), 16k, 3)").unwrap() {
        InputPlan::Resample {
            input,
            sample_rate,
            quality,
        } => {
            assert_eq!(sample_rate, 16000);
            assert_eq!(quality, Some(3));
            match *input {
                InputPlan::Sin { params } => assert_eq!(params, "440"),
                other => panic!("unexpected plan {:?}", other),
            }
        }
        other => panic!("unexpected plan {:?}", other),
    }
    match input("mix(a.mp3, nul, mono(3))").unwrap() {
        InputPlan::Mix(v) => {
            assert_eq!(v.len(), 3);
            assert!(matches!(v[1], InputPlan::Silence));
            assert!(matches!(v[2], InputPlan::Mono(_)));
        }
        other => panic!("unexpected plan {:?}", other),
    }
    match input("level(sin(440), -3)").unwrap() {
        InputPlan::Level { db, .. } => assert_eq!(db, "-3"),
        other => panic!("unexpected plan {:?}", other),
    }
    assert!(matches!(
        input("dev(2, 1)").unwrap(),
        InputPlan::Device {
            index: 2,
            max_channels: Some(1)
        }
    ));
}

#[test]
fn input_errors() {
    assert_eq!(input("bar(1)").unwrap_err(), EvalError::UnknownFunction("bar".to_string()));
    assert_eq!(input("dev()").unwrap_err(), EvalError::MissingArgument("dev".to_string()));
    assert_eq!(input("resample(x.mp3)").unwrap_err(), EvalError::MissingArgument("resample".to_string()));
    assert_eq!(input("resample(x.mp3, abc)").unwrap_err(), EvalError::NotAnInteger("abc".to_string()));
    assert_eq!(input("mp3(f(x))").unwrap_err(), EvalError::NotAString("f(x)".to_string()));
    assert_eq!(input("sin(a, b)").unwrap_err(), EvalError::BadArguments("sin".to_string()));
    assert_eq!(input("mix(a.mp3, zzz)").unwrap_err(), EvalError::UnknownInput("zzz".to_string()));
}

#[test]
fn output_aliases_and_defaults() {
    match output("x.opus").unwrap() {
        OutputPlan::Opus { path, info, mode } => {
            assert_eq!(path, "x.opus");
            assert_eq!((info.sample_rate, info.channels), (16000, 1));
            assert_eq!(mode, OpusMode::Audio);
        }
        other => panic!("unexpected plan {:?}", other),
    }
    assert!(matches!(output("x.wav").unwrap(), OutputPlan::Wav { .. }));
    match output("3").unwrap() {
        OutputPlan::Device { device: DeviceRef::Index(3), max_channels: None } => {}
        other => panic!("unexpected plan {:?}", other),
    }
    match output("speakers").unwrap() {
        OutputPlan::Device { device: DeviceRef::Named(n), .. } => assert_eq!(n, "speakers"),
        other => panic!("unexpected plan {:?}", other),
    }
    match output("tcp16le(8080)").unwrap() {
        OutputPlan::Tcp { port, info } => {
            assert_eq!(port, 8080);
            assert_eq!((info.sample_rate, info.channels), (16000, 1));
        }
        other => panic!("unexpected plan {:?}", other),
    }
    match output("out16le()").unwrap() {
        OutputPlan::Stdout { info } => assert_eq!((info.sample_rate, info.channels), (16000, 1)),
        other => panic!("unexpected plan {:?}", other),
    }
}

#[test]
fn output_opus_settings() {
    match output("opus(a.opus, 24k, stereo, voip)").unwrap() {
        OutputPlan::Opus { info, mode, .. } => {
            assert_eq!((info.sample_rate, info.channels), (24000, 2));
            assert_eq!(mode, OpusMode::Voip);
        }
        other => panic!("unexpected plan {:?}", other),
    }
    assert_eq!(output("opus(a.opus, 44100)").unwrap_err(), EvalError::InvalidOpusRate(44100));
    assert_eq!(output("opus(a.opus, 16k, 3)").unwrap_err(), EvalError::InvalidOpusChannels(3));
    assert_eq!(output("opus(a.opus, 16k, 1, music)").unwrap_err(), EvalError::InvalidOpusMode("music".to_string()));
    assert_eq!(output("wav()").unwrap_err(), EvalError::MissingArgument("wav".to_string()));
    assert_eq!(output("speaker(1)").unwrap_err(), EvalError::UnknownFunction("speaker".to_string()));
}

#[test]
fn sin_params_bare_and_keyed() {
    let p = parse_sin_params("440").unwrap();
    assert_eq!(p.freq.as_deref(), Some("440"));
    assert_eq!(p.sample_rate, None);
    let p = parse_sin_params("freq=220;samplerate=44100;channel=2;power=0.1").unwrap();
    assert_eq!(p.freq.as_deref(), Some("220"));
    assert_eq!(p.power.as_deref(), Some("0.1"));
    assert_eq!(p.sample_rate, Some(44100));
    assert_eq!(p.channels, Some(2));
}

#[test]
fn sin_params_errors() {
    assert_eq!(parse_sin_params("foo=1").unwrap_err(), EvalError::UnknownKey("foo".to_string()));
    assert_eq!(parse_sin_params("samplerate=x").unwrap_err(), EvalError::BadNumber("x".to_string()));
    assert_eq!(parse_sin_params("channel=70000").unwrap_err(), EvalError::BadNumber("70000".to_string()));
}

#[test]
fn sin_settings_defaults() {
    let s = parse_sin_params("freq=220").unwrap().settings(Some(16000));
    assert_eq!((s.freq.as_str(), s.power.as_str(), s.sample_rate, s.channels), ("220", "0.5", 16000, 1));
    let s = parse_sin_params("channel=2").unwrap().settings(None);
    assert_eq!((s.freq.as_str(), s.sample_rate, s.channels), ("440", 48000, 2));
}

#[test]
fn mix_children_follow_first_rate() {
    assert_eq!(mix_child_hint(Some(8000), None), Some(8000));
    assert_eq!(mix_child_hint(Some(8000), Some(44100)), Some(44100));
    assert_eq!(mix_child_hint(None, None), None);
}
