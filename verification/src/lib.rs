//! Pattern-based log rendering: a grammar that compiles a pattern string
//! into tokens, a value-formatting engine driven by fill/align/width/
//! precision specs, and the record/attribute data model the renderer
//! walks to turn one log event into text.

pub mod filter;
pub mod fmt;
pub mod grammar;
pub mod layout;
pub mod logger;
pub mod meta;
pub mod output;
pub mod record;
pub mod severity;

pub use filter::Filter;
pub use filter::FilterAction;
pub use filter::NullFilter;
pub use fmt::Format;
pub use fmt::Formatter;
pub use fmt::Sink;
pub use grammar::parse;
pub use layout::DefaultSevMap;
pub use layout::PatternLayout;
pub use logger::Logger;
pub use meta::Meta;
pub use meta::MetaBuf;
pub use meta::MetaLink;
pub use meta::Value;
pub use output::NullOutput;
pub use output::Output;
pub use record::Record;
pub use record::RecordBuf;
pub use severity::Severity;
