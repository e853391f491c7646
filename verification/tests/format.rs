use blacklog::Format;
use blacklog::Formatter;
use blacklog::Sink;
use blacklog::fmt::Alignment;
use blacklog::fmt::FormatSpec;

#[test]
fn format_spec_default() {
    let spec = FormatSpec::default();

    assert_eq!(' ', spec.fill);
    assert_eq!(Alignment::AlignUnknown, spec.align);
    assert_eq!(0, spec.flags);
    assert_eq!(None, spec.precision);
    assert_eq!(0, spec.width);
    assert_eq!(None, spec.ty);
}

#[test]
fn format_i64() {
    let spec = FormatSpec::default();

    let mut f = Formatter::new(Sink::new(), spec);
    let val = 42i64;
    val.format(&mut f).unwrap();

    assert_eq!("42", f.into_sink().as_str());
}

#[test]
fn format_i64_neg() {
    let spec = FormatSpec::default();

    let mut f = Formatter::new(Sink::new(), spec);
    let val = -42i64;
    val.format(&mut f).unwrap();

    assert_eq!("-42", f.into_sink().as_str());
}

#[test]
fn format_i64_max_bin() {
    let mut spec = FormatSpec::default();
    spec.flags = 0b111;
    spec.ty = Some('b');

    let mut f = Formatter::new(Sink::new(), spec);
    let val = 9223372036854775807i64;
    val.format(&mut f).unwrap();

    assert_eq!(
        "+0b111111111111111111111111111111111111111111111111111111111111111",
        f.into_sink().as_str()
    );
}

#[test]
fn format_i64_min_bin() {
    let mut spec = FormatSpec::default();
    spec.flags = 0b111;
    spec.ty = Some('b');

    let mut f = Formatter::new(Sink::new(), spec);
    let val = -9223372036854775808i64;
    val.format(&mut f).unwrap();

    assert_eq!(
        "-0b1000000000000000000000000000000000000000000000000000000000000000",
        f.into_sink().as_str()
    );
}

#[test]
fn format_i64_spec() {
    let spec = FormatSpec {
        fill: '/',
        align: Alignment::AlignCenter,
        flags: 0,
        precision: None,
        width: 10,
        ty: None,
    };

    let mut f = Formatter::new(Sink::new(), spec);
    let val = 42i64;
    val.format(&mut f).unwrap();

    assert_eq!("////42////", f.into_sink().as_str());
}

#[test]
fn format_i64_full_spec() {
    let spec = FormatSpec {
        fill: ' ',
        align: Alignment::AlignRight,
        flags: 0b111,
        precision: None,
        width: 10,
        ty: Some('x'),
    };

    let mut f = Formatter::new(Sink::new(), spec);
    let val = 42i64;
    val.format(&mut f).unwrap();

    assert_eq!("+0x000002a", f.into_sink().as_str());
}

#[test]
fn format_i64_full_spec_left_aligned() {
    let spec = FormatSpec {
        fill: ' ',
        align: Alignment::AlignLeft,
        flags: 0b111,
        precision: None,
        width: 10,
        ty: Some('x'),
    };

    let mut f = Formatter::new(Sink::new(), spec);
    let val = 42i64;
    val.format(&mut f).unwrap();

    assert_eq!("+0x2a00000", f.into_sink().as_str());
}

#[test]
fn format_i32() {
    let spec = FormatSpec::default();

    let mut f = Formatter::new(Sink::new(), spec);
    let val = 42i32;
    val.format(&mut f).unwrap();

    assert_eq!("42", f.into_sink().as_str());
}

#[test]
fn format_u64_max_bin() {
    let mut spec = FormatSpec::default();
    spec.flags = 0b111;
    spec.ty = Some('b');

    let mut f = Formatter::new(Sink::new(), spec);
    let val = 18446744073709551615u64;
    val.format(&mut f).unwrap();

    assert_eq!(
        "+0b1111111111111111111111111111111111111111111111111111111111111111",
        f.into_sink().as_str()
    );
}

#[test]
fn format_str() {
    let spec = FormatSpec::default();

    let mut f = Formatter::new(Sink::new(), spec);
    let val = "le message";
    val.format(&mut f).unwrap();

    assert_eq!("le message", f.into_sink().as_str());
}

#[test]
fn format_str_with_spec() {
    let mut spec = FormatSpec::default();
    spec.fill = '/';
    spec.align = Alignment::AlignCenter;
    spec.width = 12;

    let mut f = Formatter::new(Sink::new(), spec);
    let val = "le message";
    val.format(&mut f).unwrap();

    assert_eq!("/le message/", f.into_sink().as_str());
}

#[test]
fn format_str_with_spec_with_precision() {
    let mut spec = FormatSpec::default();
    spec.fill = '/';
    spec.align = Alignment::AlignCenter;
    spec.width = 10;
    spec.precision = Some(8);

    let mut f = Formatter::new(Sink::new(), spec);
    let val = "le message";
    val.format(&mut f).unwrap();

    assert_eq!("/le messa/", f.into_sink().as_str());
}

#[test]
fn format_bool() {
    let spec = FormatSpec::default();

    let mut f = Formatter::new(Sink::new(), spec);
    true.format(&mut f).unwrap();
    let mut s = f.into_sink();
    s.write_char(' ').unwrap();
    let mut f2 = Formatter::new(s, spec);
    false.format(&mut f2).unwrap();

    assert_eq!("true false", f2.into_sink().as_str());
}

#[test]
fn format_i64_octal_alternate() {
    let mut spec = FormatSpec::default();
    spec.flags = 0b10;
    spec.ty = Some('o');

    let mut f = Formatter::new(Sink::new(), spec);
    let val = 42i64;
    val.format(&mut f).unwrap();

    assert_eq!("0o52", f.into_sink().as_str());
}

#[test]
fn format_u64_hex_upper() {
    let mut spec = FormatSpec::default();
    spec.ty = Some('X');

    let mut f = Formatter::new(Sink::new(), spec);
    let val = 48879u64;
    val.format(&mut f).unwrap();

    assert_eq!("BEEF", f.into_sink().as_str());
}

#[test]
fn sink_keeps_what_fit() {
    let mut sink = Sink::with_capacity(3);
    assert!(sink.write("value").is_err());
    assert_eq!("val", sink.as_str());
    assert!(sink.write("x").is_err());
    assert_eq!("val", sink.as_str());
}
