use blacklog::Filter;
use blacklog::FilterAction;
use blacklog::MetaLink;
use blacklog::NullFilter;
use blacklog::NullOutput;
use blacklog::Output;
use blacklog::Record;
use blacklog::Severity;
use blacklog::logger::Logger;
use blacklog::logger::SeverityFilteredLoggerAdapter;

struct CountingLogger {
    seen: usize,
}

impl Logger for CountingLogger {
    fn log(&mut self, _rec: &mut Record, _message: String) {
        self.seen += 1;
    }
}

#[test]
fn null_filter_is_neutral() {
    let rec = Record::new(0, 0, "", MetaLink::new(vec![]));
    assert_eq!(FilterAction::Neutral, NullFilter.filter(&rec));
}

#[test]
fn null_output_never_fails() {
    let rec = Record::new(0, 0, "", MetaLink::new(vec![]));
    assert!(NullOutput.write(&rec, "anything").is_ok());
}

#[test]
fn severity_filter_threshold() {
    let mut adapter = SeverityFilteredLoggerAdapter::new(CountingLogger { seen: 0 });
    assert!(adapter.should_log(0));
    assert!(adapter.should_log(5));

    adapter.filter(3);
    assert!(!adapter.should_log(2));
    assert!(adapter.should_log(3));
}

#[test]
fn severity_filter_drops_low_records() {
    let mut adapter = SeverityFilteredLoggerAdapter::new(CountingLogger { seen: 0 });
    adapter.filter(2);

    let mut low = Record::new(1, 0, "", MetaLink::new(vec![]));
    adapter.log(&mut low, "dropped".to_string());

    let mut high = Record::new(2, 0, "", MetaLink::new(vec![]));
    adapter.log(&mut high, "kept".to_string());

    assert_eq!(1, adapter.into_inner().seen);
}

#[test]
fn severity_of_i32() {
    assert_eq!(3, 3i32.as_i32());

    let mut f = blacklog::Formatter::new(
        blacklog::Sink::new(),
        blacklog::fmt::FormatSpec::default(),
    );
    <i32 as Severity>::format(-7, &mut f).unwrap();
    assert_eq!("-7", f.into_sink().as_str());
}
