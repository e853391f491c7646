use blacklog::Meta;
use blacklog::MetaLink;
use blacklog::Record;
use blacklog::RecordBuf;
use blacklog::Value;

#[test]
fn record_severity() {
    assert_eq!(0, Record::new(0, 0, "", MetaLink::new(vec![])).severity());
}

#[test]
fn iter() {
    assert_eq!(
        4,
        Record::new(
            0,
            0,
            "",
            MetaLink::new(vec![
                Meta::new("n#1", Value::Str("v#1".to_string())),
                Meta::new("n#2", Value::Str("v#2".to_string())),
                Meta::new("n#3", Value::Str("v#3".to_string())),
                Meta::new("n#4", Value::Str("v#4".to_string())),
            ])
        )
        .iter()
        .count()
    );
}

#[test]
fn iter_with_nested_lists() {
    let meta1 = vec![Meta::new("n#1", Value::I64(42)), Meta::new("n#2", Value::I64(42))];
    let meta2 = vec![Meta::new("n#3", Value::I64(42)), Meta::new("n#4", Value::I64(42))];
    let metalink1 = MetaLink::new(meta1);
    let metalink2 = MetaLink::with_link(meta2, metalink1);

    let rec = Record::new(0, 0, "", metalink2);
    let mut iter = rec.iter();

    assert_eq!("n#1", iter.next().unwrap().name);
    assert_eq!("n#2", iter.next().unwrap().name);
    assert_eq!("n#3", iter.next().unwrap().name);
    assert_eq!("n#4", iter.next().unwrap().name);
    assert!(iter.next().is_none());
}

#[test]
fn to_owned() {
    let meta = vec![Meta::new("n#1", Value::I64(42)), Meta::new("n#2", Value::I64(42))];
    let metalist = MetaLink::new(meta);

    let mut rec = Record::new(1, 2, "mod", metalist);
    rec.activate("message".to_string());

    let owned = RecordBuf::from_record(&rec);
    let borrow = owned.to_record();

    assert_eq!(1, borrow.severity());
    assert_eq!("message", borrow.message());
    assert_eq!(rec.datetime(), borrow.datetime());
    assert_eq!(2, borrow.line());
    assert_eq!("mod", borrow.module());
    assert_eq!(rec.thread(), borrow.thread());

    let mut iter = borrow.iter();
    assert_eq!("n#1", iter.next().unwrap().name);
    assert_eq!("n#2", iter.next().unwrap().name);
}

#[test]
fn activation_stamps_time() {
    let mut rec = Record::new(0, 0, "", MetaLink::new(vec![]));
    assert_eq!(0, rec.datetime().secs);

    rec.activate("hi".to_string());
    // The stamped time is the wall clock, so it is well past the epoch.
    assert!(rec.datetime().secs > 1_500_000_000);
    assert!(rec.datetime().nanos < 2_000_000_000);
}
