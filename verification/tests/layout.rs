use blacklog::DefaultSevMap;
use blacklog::Meta;
use blacklog::MetaLink;
use blacklog::PatternLayout;
use blacklog::Record;
use blacklog::Sink;
use blacklog::Value;
use blacklog::grammar::SeverityType;
use blacklog::record::SevFormat;

#[test]
fn mod_empty() {
    let layout = PatternLayout::new("").unwrap();

    let mut buf = Sink::new();
    let metalink = MetaLink::new(vec![]);
    let rec = Record::new(0, 0, "", metalink);
    layout.format(&rec, &mut buf).unwrap();

    assert_eq!("", buf.as_str());
}

#[test]
fn mod_piece() {
    let layout = PatternLayout::new("hello").unwrap();

    let mut buf = Sink::new();
    let metalink = MetaLink::new(vec![]);
    let rec = Record::new(0, 0, "", metalink);
    layout.format(&rec, &mut buf).unwrap();

    assert_eq!("hello", buf.as_str());
}

#[test]
fn piece_with_braces() {
    let layout = PatternLayout::new("hello {{ world }}").unwrap();

    let mut buf = Sink::new();
    let metalink = MetaLink::new(vec![]);
    let rec = Record::new(0, 0, "", metalink);
    layout.format(&rec, &mut buf).unwrap();

    assert_eq!("hello { world }", buf.as_str());
}

#[test]
fn mod_message() {
    let layout = PatternLayout::new("message: {message}").unwrap();

    let mut buf = Sink::new();
    let metalink = MetaLink::new(vec![]);
    let mut rec = Record::new(0, 0, "", metalink);
    rec.activate("value".to_string());
    layout.format(&rec, &mut buf).unwrap();

    assert_eq!("message: value", buf.as_str());
}

#[test]
fn message_in_brackets() {
    let layout = PatternLayout::new("[{message}]").unwrap();

    let mut buf = Sink::new();
    let metalink = MetaLink::new(vec![]);
    let mut rec = Record::new(0, 0, "", metalink);
    rec.activate("value".to_string());
    layout.format(&rec, &mut buf).unwrap();

    assert_eq!("[value]", buf.as_str());
}

#[test]
fn message_with_spec() {
    let layout = PatternLayout::new("[{message:<10}]").unwrap();

    let mut buf = Sink::new();
    let metalink = MetaLink::new(vec![]);
    let mut rec = Record::new(0, 0, "", metalink);
    rec.activate("value".to_string());
    layout.format(&rec, &mut buf).unwrap();

    assert_eq!("[value     ]", buf.as_str());
}

#[test]
fn message_with_spec_fill() {
    let layout = PatternLayout::new("[{message:.<10}]").unwrap();

    let mut buf = Sink::new();
    let metalink = MetaLink::new(vec![]);
    let mut rec = Record::new(0, 0, "", metalink);
    rec.activate("value".to_string());
    layout.format(&rec, &mut buf).unwrap();

    assert_eq!("[value.....]", buf.as_str());
}

#[test]
fn message_with_spec_width_less_than_length() {
    let layout = PatternLayout::new("[{message:<0}]").unwrap();

    let mut buf = Sink::new();
    let metalink = MetaLink::new(vec![]);
    let mut rec = Record::new(0, 0, "", metalink);
    rec.activate("value".to_string());
    layout.format(&rec, &mut buf).unwrap();

    assert_eq!("[value]", buf.as_str());
}

#[test]
fn message_with_spec_full() {
    let layout = PatternLayout::new("{message:/^6.4}").unwrap();

    let mut buf = Sink::new();
    let metalink = MetaLink::new(vec![]);
    let mut rec = Record::new(0, 0, "", metalink);
    rec.activate("100500".to_string());
    layout.format(&rec, &mut buf).unwrap();

    assert_eq!("/1005/", buf.as_str());
}

#[test]
fn mod_severity() {
    // No severity mapping installed: the display form falls back to the
    // numeric one.
    let layout = PatternLayout::new("[{severity}]").unwrap();

    let mut buf = Sink::new();
    let metalink = MetaLink::new(vec![]);
    let rec = Record::new(0, 0, "", metalink);
    layout.format(&rec, &mut buf).unwrap();

    assert_eq!("[0]", buf.as_str());
}

#[test]
fn mod_severity_num() {
    let layout = PatternLayout::new("[{severity:d}]").unwrap();

    let mut buf = Sink::new();
    let metalink = MetaLink::new(vec![]);
    let rec = Record::new(4, 0, "", metalink);
    layout.format(&rec, &mut buf).unwrap();

    assert_eq!("[4]", buf.as_str());
}

#[test]
fn severity_num_with_spec() {
    let layout = PatternLayout::new("[{severity:/^3d}]").unwrap();

    let mut buf = Sink::new();
    let metalink = MetaLink::new(vec![]);
    let rec = Record::new(4, 0, "", metalink);
    layout.format(&rec, &mut buf).unwrap();

    assert_eq!("[/4/]", buf.as_str());
}

#[test]
fn severity_with_message() {
    let layout = PatternLayout::new("{severity:d}: {message}").unwrap();

    let mut buf = Sink::new();
    let metalink = MetaLink::new(vec![]);
    let mut rec = Record::new(2, 0, "", metalink);
    rec.activate("value".to_string());
    layout.format(&rec, &mut buf).unwrap();

    assert_eq!("2: value", buf.as_str());
}

#[test]
fn severity_with_table() {
    let table = vec![
        "Trace".to_string(),
        "Debug".to_string(),
        "Info".to_string(),
        "Warn".to_string(),
        "Error".to_string(),
    ];
    let layout = PatternLayout::new("[{severity}]").unwrap();

    let mut buf = Sink::new();
    let metalink = MetaLink::new(vec![]);
    let rec = Record::new(1, 0, "", metalink).with_sev_format(SevFormat::Table(table));
    layout.format(&rec, &mut buf).unwrap();

    assert_eq!("[Debug]", buf.as_str());
}

#[test]
fn severity_with_table_out_of_range() {
    let table = vec!["Trace".to_string()];
    let layout = PatternLayout::new("[{severity}]").unwrap();

    let mut buf = Sink::new();
    let metalink = MetaLink::new(vec![]);
    let rec = Record::new(7, 0, "", metalink).with_sev_format(SevFormat::Table(table));
    layout.format(&rec, &mut buf).unwrap();

    assert_eq!("[7]", buf.as_str());
}

#[test]
fn fail_format_small_buffer() {
    let layout = PatternLayout::new("[{message}]").unwrap();

    let mut buf = Sink::with_capacity(1);

    let metalink = MetaLink::new(vec![]);
    let mut rec = Record::new(0, 0, "", metalink);
    rec.activate("value".to_string());
    assert!(layout.format(&rec, &mut buf).is_err());
}

#[test]
fn mod_timestamp() {
    let metalink = MetaLink::new(vec![]);
    let mut rec = Record::new(0, 0, "", metalink);
    rec.activate("".to_string());

    // By default the %+ pattern is used.
    let layout = PatternLayout::new("{timestamp}").unwrap();

    let mut buf = Sink::new();
    layout.format(&rec, &mut buf).unwrap();

    let ts = rec.datetime();
    let dt = chrono::DateTime::<chrono::Utc>::from_timestamp(ts.secs, ts.nanos).unwrap();
    assert_eq!(format!("{}", dt.format("%+")), buf.as_str());
}

#[test]
fn mod_timestamp_local() {
    let metalink = MetaLink::new(vec![]);
    let mut rec = Record::new(0, 0, "", metalink);
    rec.activate("".to_string());

    // By default the %+ pattern is used.
    let layout = PatternLayout::new("{timestamp:l}").unwrap();

    let mut buf = Sink::new();
    layout.format(&rec, &mut buf).unwrap();

    let ts = rec.datetime();
    let dt = chrono::DateTime::<chrono::Utc>::from_timestamp(ts.secs, ts.nanos).unwrap();
    assert_eq!(
        format!("{}", dt.with_timezone(&chrono::Local).format("%+")),
        buf.as_str()
    );
}

#[test]
fn mod_timestamp_num() {
    let metalink = MetaLink::new(vec![]);
    let mut rec = Record::new(0, 0, "", metalink);
    rec.activate("".to_string());

    let layout = PatternLayout::new("{timestamp:d}").unwrap();

    let mut buf = Sink::new();
    layout.format(&rec, &mut buf).unwrap();

    let ts = rec.datetime();
    let value = ts.secs * 1000000 + ts.nanos as i64 / 1000;
    assert_eq!(format!("{}", value), buf.as_str());
}

#[test]
fn timestamp_with_spec() {
    let metalink = MetaLink::new(vec![]);
    let mut rec = Record::new(0, 0, "", metalink);
    rec.activate("".to_string());

    // By default the %+ pattern is used; precision 4 keeps the year,
    // width 6 centers it between the fill characters.
    let layout = PatternLayout::new("{timestamp:/^6.4s}").unwrap();

    let mut buf = Sink::new();
    layout.format(&rec, &mut buf).unwrap();

    let ts = rec.datetime();
    let dt = chrono::DateTime::<chrono::Utc>::from_timestamp(ts.secs, ts.nanos).unwrap();
    assert_eq!(format!("/{}/", dt.format("%Y")), buf.as_str());
}

#[test]
fn timestamp_local_with_spec() {
    let metalink = MetaLink::new(vec![]);
    let mut rec = Record::new(0, 0, "", metalink);
    rec.activate("".to_string());

    let layout = PatternLayout::new("{timestamp:{%H:%M}/^4.2l}").unwrap();

    let mut buf = Sink::new();
    layout.format(&rec, &mut buf).unwrap();

    let ts = rec.datetime();
    let dt = chrono::DateTime::<chrono::Utc>::from_timestamp(ts.secs, ts.nanos).unwrap();
    assert_eq!(
        format!("/{}/", dt.with_timezone(&chrono::Local).format("%H")),
        buf.as_str()
    );
}

#[test]
fn timestamp_num_with_spec() {
    let metalink = MetaLink::new(vec![]);
    let mut rec = Record::new(0, 0, "", metalink);
    rec.activate("".to_string());

    let layout = PatternLayout::new("{timestamp:/^18d}").unwrap();

    let mut buf = Sink::new();
    layout.format(&rec, &mut buf).unwrap();

    let ts = rec.datetime();
    let value = ts.secs * 1000000 + ts.nanos as i64 / 1000;
    assert_eq!(format!("/{}/", value), buf.as_str());
}

#[test]
fn meta_bool() {
    let layout = PatternLayout::new("{flag}").unwrap();

    let meta = vec![Meta::new("flag", Value::Bool(false))];
    let metalink = MetaLink::new(meta);
    let rec = Record::new(0, 0, "", metalink);

    let mut buf = Sink::new();
    layout.format(&rec, &mut buf).unwrap();

    assert_eq!("false", buf.as_str());
}

#[test]
fn fail_meta_not_found() {
    let layout = PatternLayout::new("{flag}").unwrap();

    let metalink = MetaLink::new(vec![]);
    let rec = Record::new(0, 0, "", metalink);

    let mut buf = Sink::new();
    assert!(layout.format(&rec, &mut buf).is_err());
}

#[test]
fn mod_metalist() {
    let layout = PatternLayout::new("{...}").unwrap();

    let meta = vec![
        Meta::new("num", Value::I64(42)),
        Meta::new("name", Value::Str("Vasya".to_string())),
    ];
    let metalink = MetaLink::new(meta);
    let rec = Record::new(0, 0, "", metalink);

    let mut buf = Sink::new();
    layout.format(&rec, &mut buf).unwrap();

    assert_eq!("num: 42, name: Vasya", buf.as_str());
}

#[test]
fn mod_module() {
    let layout = PatternLayout::new("{module}").unwrap();

    let mut buf = Sink::new();
    let metalink = MetaLink::new(vec![]);
    let rec = Record::new(0, 0, "blacklog::layout::pattern::tests", metalink);
    layout.format(&rec, &mut buf).unwrap();

    assert_eq!("blacklog::layout::pattern::tests", buf.as_str());
}

#[test]
fn module_with_spec() {
    let layout = PatternLayout::new("{module:/^14.12}").unwrap();

    let mut buf = Sink::new();
    let metalink = MetaLink::new(vec![]);
    let rec = Record::new(0, 0, "blacklog::layout::pattern::tests", metalink);
    layout.format(&rec, &mut buf).unwrap();

    assert_eq!("/blacklog::la/", buf.as_str());
}

#[test]
fn mod_line() {
    let layout = PatternLayout::new("{line}").unwrap();

    let mut buf = Sink::new();
    let metalink = MetaLink::new(vec![]);
    let rec = Record::new(0, 666, "", metalink);
    layout.format(&rec, &mut buf).unwrap();

    assert_eq!("666", buf.as_str());
}

#[test]
fn line_with_spec() {
    let layout = PatternLayout::new("{line:/^5}").unwrap();

    let mut buf = Sink::new();
    let metalink = MetaLink::new(vec![]);
    let rec = Record::new(0, 555, "", metalink);
    layout.format(&rec, &mut buf).unwrap();

    assert_eq!("/555/", buf.as_str());
}

#[test]
fn duplicate_names_earliest_wins() {
    // Duplicate names stack; the lookup scans the chain in attach
    // order, so the earliest-attached attribute wins.
    let layout = PatternLayout::new("{path}").unwrap();

    let meta1 = vec![Meta::new("path", Value::Str("/home".to_string()))];
    let meta2 = vec![Meta::new("path", Value::Str("/home/esafronov".to_string()))];
    let metalink1 = MetaLink::new(meta1);
    let metalink2 = MetaLink::with_link(meta2, metalink1);
    let rec = Record::new(0, 0, "", metalink2);

    let mut buf = Sink::new();
    layout.format(&rec, &mut buf).unwrap();

    assert_eq!("/home", buf.as_str());
}

#[test]
fn same_layout_twice_same_output() {
    let layout = PatternLayout::new("{severity:d} | {message} | {...}").unwrap();

    let meta = vec![Meta::new("num", Value::U64(7))];
    let metalink = MetaLink::new(meta);
    let mut rec = Record::new(3, 0, "", metalink);
    rec.activate("stable".to_string());

    let mut one = Sink::new();
    layout.format(&rec, &mut one).unwrap();
    let mut two = Sink::new();
    layout.format(&rec, &mut two).unwrap();

    assert_eq!(one.as_str(), two.as_str());
    assert_eq!("3 | stable | num: 7", one.as_str());
}

#[test]
fn fail_unsupported_placeholder() {
    // The process placeholder parses but cannot be rendered, so layout
    // construction refuses it rather than failing at render time.
    assert!(PatternLayout::new("{process}").is_err());
}

#[test]
fn error_variants() {
    // A missing attribute is MetaNotFound; a sink out of room is Io,
    // and what fit stays written.
    let layout = PatternLayout::new("{flag}").unwrap();
    let rec = Record::new(0, 0, "", MetaLink::new(vec![]));
    let mut buf = Sink::new();
    assert_eq!(Err(blacklog::fmt::Error::MetaNotFound), layout.format(&rec, &mut buf));

    let layout2 = PatternLayout::new("xyz").unwrap();
    let mut small = Sink::with_capacity(1);
    assert_eq!(Err(blacklog::fmt::Error::Io), layout2.format(&rec, &mut small));
    assert_eq!("x", small.as_str());
}

#[test]
fn default_sev_map() {
    let spec = blacklog::grammar::FormatSpec {
        fill: '/',
        align: blacklog::fmt::Alignment::AlignCenter,
        flags: 0,
        precision: None,
        width: 3,
    };
    let rec = Record::new(4, 0, "", MetaLink::new(vec![]));
    let mut buf = Sink::new();
    DefaultSevMap.map(&rec, spec, SeverityType::Num, &mut buf).unwrap();
    assert_eq!("/4/", buf.as_str());
}

#[test]
fn multibyte_fill_and_truncation() {
    // Precision counts characters, never bytes, so truncating and
    // padding multi-byte text stays on character boundaries.
    let layout = PatternLayout::new("{message:\u{e9}^6.4}").unwrap();

    let mut buf = Sink::new();
    let metalink = MetaLink::new(vec![]);
    let mut rec = Record::new(0, 0, "", metalink);
    rec.activate("a\u{f1}ejo".to_string());
    layout.format(&rec, &mut buf).unwrap();

    assert_eq!("\u{e9}a\u{f1}ej\u{e9}", buf.as_str());
}
