use blacklog::fmt::Alignment;
use blacklog::grammar::FormatSpec;
use blacklog::grammar::ProcessType;
use blacklog::grammar::SeverityType;
use blacklog::grammar::Timezone;
use blacklog::grammar::Token;
use blacklog::grammar::parse;

#[test]
fn grammar_empty() {
    let expected: Vec<Token> = vec![];
    assert_eq!(expected, parse("").unwrap());
}

#[test]
fn grammar_piece() {
    let tokens = parse("hello").unwrap();

    assert_eq!(vec![Token::Piece("hello".to_string())], tokens);
}

#[test]
fn grammar_message() {
    let tokens = parse("{message}").unwrap();

    assert_eq!(vec![Token::Message(None)], tokens);
}

#[test]
fn message_spec() {
    let tokens = parse("{message:.<10.8}").unwrap();

    let spec = FormatSpec {
        fill: '.',
        align: Alignment::AlignLeft,
        flags: 0,
        precision: Some(8),
        width: 10,
    };
    assert_eq!(vec![Token::Message(Some(spec))], tokens);
}

#[test]
fn grammar_severity() {
    let tokens = parse("{severity}").unwrap();

    assert_eq!(vec![Token::Severity(None, SeverityType::String)], tokens);
}

#[test]
fn severity_string() {
    let tokens = parse("{severity:s}").unwrap();

    assert_eq!(vec![Token::Severity(None, SeverityType::String)], tokens);
}

#[test]
fn grammar_severity_num() {
    let tokens = parse("{severity:d}").unwrap();

    assert_eq!(vec![Token::Severity(None, SeverityType::Num)], tokens);
}

#[test]
fn severity_ext() {
    let tokens = parse("{severity:<10}").unwrap();

    let spec = FormatSpec {
        fill: ' ',
        align: Alignment::AlignLeft,
        flags: 0,
        precision: None,
        width: 10,
    };
    assert_eq!(vec![Token::Severity(Some(spec), SeverityType::String)], tokens);
}

#[test]
fn severity_ext_with_fill() {
    let tokens = parse("{severity:.^16}").unwrap();

    let spec = FormatSpec {
        fill: '.',
        align: Alignment::AlignCenter,
        flags: 0,
        precision: None,
        width: 16,
    };
    assert_eq!(vec![Token::Severity(Some(spec), SeverityType::String)], tokens);
}

#[test]
fn severity_ext_with_fill_num() {
    let tokens = parse("{severity:.^16d}").unwrap();

    let spec = FormatSpec {
        fill: '.',
        align: Alignment::AlignCenter,
        flags: 0,
        precision: None,
        width: 16,
    };
    assert_eq!(vec![Token::Severity(Some(spec), SeverityType::Num)], tokens);
}

#[test]
fn severity_ext_with_fill_string() {
    let tokens = parse("{severity:.^16s}").unwrap();

    let spec = FormatSpec {
        fill: '.',
        align: Alignment::AlignCenter,
        flags: 0,
        precision: None,
        width: 16,
    };
    assert_eq!(vec![Token::Severity(Some(spec), SeverityType::String)], tokens);
}

#[test]
fn severity_with_precision() {
    let tokens = parse("{severity:.1}").unwrap();

    let spec = FormatSpec {
        fill: ' ',
        align: Alignment::AlignLeft,
        flags: 0,
        precision: Some(1),
        width: 0,
    };
    assert_eq!(vec![Token::Severity(Some(spec), SeverityType::String)], tokens);
}

#[test]
fn grammar_timestamp() {
    let tokens = parse("{timestamp}").unwrap();

    assert_eq!(vec![Token::Timestamp(None, "%+".to_string(), Timezone::Utc)], tokens);
}

#[test]
fn grammar_timestamp_num() {
    let tokens = parse("{timestamp:d}").unwrap();

    assert_eq!(vec![Token::TimestampNum(None)], tokens);
}

#[test]
fn timestamp_utc() {
    let tokens = parse("{timestamp:s}").unwrap();

    assert_eq!(vec![Token::Timestamp(None, "%+".to_string(), Timezone::Utc)], tokens);
}

#[test]
fn grammar_timestamp_local() {
    let tokens = parse("{timestamp:l}").unwrap();

    assert_eq!(vec![Token::Timestamp(None, "%+".to_string(), Timezone::Local)], tokens);
}

#[test]
fn timestamp_ext_num() {
    let tokens = parse("{timestamp:^20d}").unwrap();

    let spec = FormatSpec {
        fill: ' ',
        align: Alignment::AlignCenter,
        flags: 0,
        precision: None,
        width: 20,
    };
    assert_eq!(vec![Token::TimestampNum(Some(spec))], tokens);
}

#[test]
fn timestamp_ext_num_with_fill() {
    let tokens = parse("{timestamp:.<d}").unwrap();

    let spec = FormatSpec {
        fill: '.',
        align: Alignment::AlignLeft,
        flags: 0,
        precision: None,
        width: 0,
    };
    assert_eq!(vec![Token::TimestampNum(Some(spec))], tokens);
}

#[test]
fn timestamp_with_pattern_utc() {
    let tokens = parse("{timestamp:{%Y-%m-%d}s}").unwrap();

    assert_eq!(vec![Token::Timestamp(None, "%Y-%m-%d".to_string(), Timezone::Utc)], tokens);
}

#[test]
fn timestamp_with_pattern_local() {
    let tokens = parse("{timestamp:{%Y-%m-%d}l}").unwrap();

    assert_eq!(vec![Token::Timestamp(None, "%Y-%m-%d".to_string(), Timezone::Local)], tokens);
}

#[test]
fn timestamp_with_pattern_utc_and_braces() {
    let tokens = parse("{timestamp:{%Y-%m-%d {{T}} %H:%M:%S.%.6f}s}").unwrap();

    let expected = vec![
        Token::Timestamp(None, "%Y-%m-%d {T} %H:%M:%S.%.6f".to_string(), Timezone::Utc),
    ];
    assert_eq!(expected, tokens);
}

#[test]
fn timestamp_with_pattern_utc_and_braces_limit() {
    let tokens = parse("{timestamp:{{{%Y-%m-%dT%H:%M:%S.%.6f}}}s}").unwrap();

    let expected = vec![
        Token::Timestamp(None, "{%Y-%m-%dT%H:%M:%S.%.6f}".to_string(), Timezone::Utc),
    ];
    assert_eq!(expected, tokens);
}

#[test]
fn timestamp_ext_with_pattern_and_fill_utc() {
    let tokens = parse("{timestamp:{%Y-%m-%d}.<s}").unwrap();

    let spec = FormatSpec {
        fill: '.',
        align: Alignment::AlignLeft,
        flags: 0,
        precision: None,
        width: 0,
    };
    assert_eq!(
        vec![Token::Timestamp(Some(spec), "%Y-%m-%d".to_string(), Timezone::Utc)],
        tokens
    );
}

#[test]
fn timestamp_ext_with_pattern_local() {
    let tokens = parse("{timestamp:{%Y-%m-%dT%H:%M:%S.%.6f}>50l}").unwrap();

    let spec = FormatSpec {
        fill: ' ',
        align: Alignment::AlignRight,
        flags: 0,
        precision: None,
        width: 50,
    };
    let exp = vec![
        Token::Timestamp(Some(spec), "%Y-%m-%dT%H:%M:%S.%.6f".to_string(), Timezone::Local),
    ];
    assert_eq!(exp, tokens);
}

#[test]
fn grammar_line() {
    let tokens = parse("{line}").unwrap();

    assert_eq!(vec![Token::Line(None)], tokens);
}

#[test]
fn line_spec() {
    let tokens = parse("{line:/^20}").unwrap();

    let spec = FormatSpec {
        fill: '/',
        align: Alignment::AlignCenter,
        flags: 0,
        precision: None,
        width: 20,
    };
    assert_eq!(vec![Token::Line(Some(spec))], tokens);
}

#[test]
fn grammar_module() {
    let tokens = parse("{module}").unwrap();

    assert_eq!(vec![Token::Module(None)], tokens);
}

#[test]
fn module_spec() {
    let tokens = parse("{module:/^20.16}").unwrap();

    let spec = FormatSpec {
        fill: '/',
        align: Alignment::AlignCenter,
        flags: 0,
        precision: Some(16),
        width: 20,
    };
    assert_eq!(vec![Token::Module(Some(spec))], tokens);
}

#[test]
fn process() {
    let tokens = parse("{process}").unwrap();

    assert_eq!(vec![Token::Process(None, ProcessType::Id)], tokens);
}

#[test]
fn process_with_spec() {
    let tokens = parse("{process:/^8d}").unwrap();

    let spec = FormatSpec {
        fill: '/',
        align: Alignment::AlignCenter,
        flags: 0,
        precision: None,
        width: 8,
    };
    assert_eq!(vec![Token::Process(Some(spec), ProcessType::Id)], tokens);
}

#[test]
fn meta() {
    let tokens = parse("{hello}").unwrap();

    let expected = vec![Token::Meta("hello".to_string(), None)];
    assert_eq!(expected, tokens);
}

#[test]
fn meta_spec() {
    let spec = FormatSpec {
        fill: '/',
        align: Alignment::AlignCenter,
        flags: 0,
        precision: Some(2),
        width: 6,
    };
    assert_eq!(vec![Token::Meta("pi".to_string(), Some(spec))], parse("{pi:/^6.2}").unwrap());
}

#[test]
fn metalist() {
    assert_eq!(vec![Token::MetaList(None)], parse("{...}").unwrap());
}

#[test]
fn fail_unbalanced_brace() {
    assert!(parse("{").is_err());
    assert!(parse("}").is_err());
    assert!(parse("{message").is_err());
    assert!(parse("hello }world").is_err());
}

#[test]
fn fail_bad_clause() {
    assert!(parse("{message:5x}").is_err());
    assert!(parse("{severity:.}").is_err());
    assert!(parse("{timestamp:x}").is_err());
}

#[test]
fn fail_width_overflow() {
    assert!(parse("{message:99999999999999999999999999}").is_err());
}

#[test]
fn parse_is_pure() {
    let a = parse("a {message:.<10.8} b").unwrap();
    let b = parse("a {message:.<10.8} b").unwrap();
    assert_eq!(a, b);
}
