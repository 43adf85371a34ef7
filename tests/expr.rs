use sndcat::ast::ArgError;
use sndcat::ast::Expr;
use sndcat::parser::parse;
use sndcat::parser::ParseErrorKind;
use sndcat::parser::Parser;

fn text_of(s: &str) -> String {
    Expr::parse(s).unwrap().to_text()
}

#[test]
fn parse_call_with_number_argument() {
    let e = Expr::parse("dev(10)").unwrap();
    match e {
        Expr::Fn(name, args) => {
            assert_eq!(name, "dev");
            assert_eq!(args.len(), 1);
            match &args[0] {
                Expr::Name(n) => assert_eq!(n, "10"),
                other => panic!("unexpected argument {:?}", other),
            }
        }
        other => panic!("unexpected expression {:?}", other),
    }
}

#[test]
fn parse_call_without_arguments_is_a_call() {
    match Expr::parse("silence()").unwrap() {
        Expr::Fn(name, args) => {
            assert_eq!(name, "silence");
            assert!(args.is_empty());
        }
        other => panic!("unexpected expression {:?}", other),
    }
}

#[test]
fn parse_nested_calls_and_whitespace() {
    assert_eq!(text_of(" mix( a , b( c ) ) "), "mix(a, b(c))");
    assert_eq!(text_of("resample(sin(440),16k)"), "resample(sin(440), 16k)");
}

#[test]
fn parse_quoted_names_with_escapes() {
    match Expr::parse(r#"'a\nb\'c\\d\q'"#).unwrap() {
        Expr::Name(n) => assert_eq!(n, "a\nb'c\\d\\q"),
        other => panic!("unexpected expression {:?}", other),
    }
    assert_eq!(text_of("opus(\"my file.opus\", 24k)"), "opus(my file.opus, 24k)");
}

#[test]
fn parse_unterminated_argument_list_fails_at_end() {
    let err = Expr::parse("mix(sin(440)").unwrap_err();
    assert_eq!(err.kind, ParseErrorKind::MissingClose);
    assert_eq!(err.start, 12);
    assert_eq!(err.end, 12);
}

#[test]
fn parse_error_kinds() {
    assert_eq!(parse("'abc").unwrap_err().kind, ParseErrorKind::UnterminatedQuote);
    let e = parse("f(,a)").unwrap_err();
    assert_eq!((e.kind, e.start, e.end), (ParseErrorKind::UnexpectedComma, 2, 3));
    let e = parse("f(a(1) b)").unwrap_err();
    assert_eq!((e.kind, e.start, e.end), (ParseErrorKind::MissingComma, 6, 8));
    let e = parse("(a)").unwrap_err();
    assert_eq!((e.kind, e.start, e.end), (ParseErrorKind::EmptyFunctionName, 0, 1));
    let e = parse("").unwrap_err();
    assert_eq!((e.kind, e.start, e.end), (ParseErrorKind::EmptyName, 0, 1));
    let e = parse("a)").unwrap_err();
    assert_eq!((e.kind, e.start, e.end), (ParseErrorKind::UnexpectedContent, 1, 2));
}

#[test]
fn parse_error_message_highlights_range() {
    let e = parse("a)").unwrap_err();
    assert_eq!(e.message, "unexpected content: a\x1b[97;41m)\x1b[0m");
    let e = parse("mix(").unwrap_err();
    assert_eq!(
        e.message,
        "missing ')' to end argument list: mix(\x1b[97;41m \x1b[0m"
    );
}

#[test]
fn parser_error_renders_range() {
    let p = Parser::new("abcdef");
    assert_eq!(p.error(1, 3, "oops"), "oops: a\x1b[97;41mbc\x1b[0mdef");
    assert_eq!(p.error(2, 2, "x"), "x: ab\x1b[97;41mc\x1b[0mdef");
}

#[test]
fn to_i64_reads_aliases_and_decimals() {
    let v = |s: &str| Expr::parse(s).unwrap().to_i64();
    assert_eq!(v("48k"), Ok(48000));
    assert_eq!(v("44k"), Ok(44100));
    assert_eq!(v("8k"), Ok(8000));
    assert_eq!(v("mono"), Ok(1));
    assert_eq!(v("stereo"), Ok(2));
    assert_eq!(v("-5"), Ok(-5));
    assert_eq!(v("+7"), Ok(7));
    assert_eq!(v("-9223372036854775808"), Ok(i64::MIN));
    assert_eq!(v("9223372036854775807"), Ok(i64::MAX));
    assert_eq!(v("9223372036854775808"), Err(ArgError::NotAnInteger("9223372036854775808".to_string())));
    assert_eq!(v("abc"), Err(ArgError::NotAnInteger("abc".to_string())));
    assert_eq!(v("f(1)"), Err(ArgError::NotAnInteger("f(1)".to_string())));
}

#[test]
fn to_str_reads_names_only() {
    assert_eq!(Expr::parse("a.mp3").unwrap().to_str(), Ok("a.mp3"));
    assert_eq!(
        Expr::parse("f()").unwrap().to_str(),
        Err(ArgError::NotAString("f()".to_string()))
    );
}

#[test]
fn parse_error_range_is_in_bytes() {
    let e = parse("é)").unwrap_err();
    assert_eq!((e.kind, e.start, e.end), (ParseErrorKind::UnexpectedContent, 2, 3));
    let e = Expr::parse("mix(é").unwrap_err();
    assert_eq!((e.kind, e.start, e.end), (ParseErrorKind::MissingClose, 6, 6));
}

#[test]
fn unquoted_name_is_trimmed_at_end_of_input() {
    match Expr::parse("x.wav  ").unwrap() {
        Expr::Name(n) => assert_eq!(n, "x.wav"),
        other => panic!("unexpected expression {:?}", other),
    }
}

#[test]
fn expr_clone_keeps_the_tree() {
    let e = Expr::parse("mix(a, b(c, 'd e'))").unwrap();
    let c = e.clone();
    assert_eq!(c.to_text(), e.to_text());
    assert_eq!(c.to_text(), "mix(a, b(c, d e))");
}
