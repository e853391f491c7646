use blacklog::Meta;
use blacklog::MetaLink;
use blacklog::Value;
use blacklog::meta::LinkIter;

#[test]
fn meta_name() {
    let meta = Meta::new("n#1", Value::I64(42));

    assert_eq!("n#1", meta.name);
}

#[test]
fn link_iter_single() {
    let metalink = MetaLink::new(vec![]);

    assert_eq!(0, LinkIter::new(&metalink).next().unwrap().id);
    assert_eq!(1, LinkIter::new(&metalink).count());
}

#[test]
fn link_iter() {
    let metalink1 = MetaLink::new(vec![]);
    let metalink2 = MetaLink::with_link(vec![], metalink1);
    let metalink3 = MetaLink::with_link(vec![], metalink2);

    let mut iter = LinkIter::new(&metalink3);

    assert_eq!(0, iter.next().unwrap().id);
    assert_eq!(1, iter.next().unwrap().id);
    assert_eq!(2, iter.next().unwrap().id);
    assert!(iter.next().is_none());

    assert_eq!(3, LinkIter::new(&metalink3).count());
}

#[test]
fn metalink_iter_empty() {
    let metalink = MetaLink::new(vec![]);

    assert!(metalink.iter().next().is_none());
    assert_eq!(0, metalink.iter().count());
}

#[test]
fn metalink_iter_order_x() {
    let meta = vec![
        Meta::new("n#1", Value::Str("".to_string())),
        Meta::new("n#2", Value::Str("".to_string())),
    ];
    let metalink = MetaLink::new(meta);

    let mut iter = metalink.iter();

    assert_eq!("n#1", iter.next().unwrap().name);
    assert_eq!("n#2", iter.next().unwrap().name);
    assert!(iter.next().is_none());
}

#[test]
fn metalink_iter_order_xy() {
    let meta1 = vec![
        Meta::new("n#1", Value::Str("".to_string())),
        Meta::new("n#2", Value::Str("".to_string())),
    ];
    let metalink1 = MetaLink::new(meta1);

    let meta2 = vec![
        Meta::new("n#3", Value::Str("".to_string())),
        Meta::new("n#4", Value::Str("".to_string())),
    ];
    let metalink2 = MetaLink::with_link(meta2, metalink1);

    let meta3 = vec![
        Meta::new("n#5", Value::Str("".to_string())),
        Meta::new("n#6", Value::Str("".to_string())),
        Meta::new("n#7", Value::Str("".to_string())),
    ];
    let metalink3 = MetaLink::with_link(meta3, metalink2);

    let mut iter = metalink3.iter();

    assert_eq!("n#1", iter.next().unwrap().name);
    assert_eq!("n#2", iter.next().unwrap().name);
    assert_eq!("n#3", iter.next().unwrap().name);
    assert_eq!("n#4", iter.next().unwrap().name);
    assert_eq!("n#5", iter.next().unwrap().name);
    assert_eq!("n#6", iter.next().unwrap().name);
    assert_eq!("n#7", iter.next().unwrap().name);
    assert!(iter.next().is_none());
}

#[test]
fn metalink_iter_order_xy_with_empty_itermediate_link() {
    let meta1 = vec![
        Meta::new("n#1", Value::Str("".to_string())),
        Meta::new("n#2", Value::Str("".to_string())),
    ];
    let metalink1 = MetaLink::new(meta1);

    let metalink2 = MetaLink::with_link(vec![], metalink1);

    let meta3 = vec![
        Meta::new("n#5", Value::Str("".to_string())),
        Meta::new("n#6", Value::Str("".to_string())),
        Meta::new("n#7", Value::Str("".to_string())),
    ];
    let metalink3 = MetaLink::with_link(meta3, metalink2);

    let mut iter = metalink3.iter();

    assert_eq!("n#1", iter.next().unwrap().name);
    assert_eq!("n#2", iter.next().unwrap().name);
    assert_eq!("n#5", iter.next().unwrap().name);
    assert_eq!("n#6", iter.next().unwrap().name);
    assert_eq!("n#7", iter.next().unwrap().name);
    assert!(iter.next().is_none());
}

#[test]
fn metalink_iter_order_xy_with_empty_first_link() {
    let metalink1 = MetaLink::new(vec![]);

    let meta2 = vec![
        Meta::new("n#1", Value::Str("".to_string())),
        Meta::new("n#2", Value::Str("".to_string())),
    ];
    let metalink2 = MetaLink::with_link(meta2, metalink1);

    let meta3 = vec![
        Meta::new("n#3", Value::Str("".to_string())),
        Meta::new("n#4", Value::Str("".to_string())),
        Meta::new("n#5", Value::Str("".to_string())),
    ];
    let metalink3 = MetaLink::with_link(meta3, metalink2);

    let mut iter = metalink3.iter();

    assert_eq!("n#1", iter.next().unwrap().name);
    assert_eq!("n#2", iter.next().unwrap().name);
    assert_eq!("n#3", iter.next().unwrap().name);
    assert_eq!("n#4", iter.next().unwrap().name);
    assert_eq!("n#5", iter.next().unwrap().name);
    assert!(iter.next().is_none());
}
