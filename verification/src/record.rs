//! One log event: created inactive and cheap, activated exactly once
//! with its formatted message and a timestamp, then read-only. The
//! record borrows nothing here: it owns its attribute chain, and an
//! owned twin (`RecordBuf`) carries it across scopes.

use vstd::prelude::*;
use vstd::string::StringExecFns;

use crate::fmt::Error;
use crate::fmt::Format;
use crate::fmt::FormatSpec;
use crate::fmt::Formatter;
use crate::fmt::spec_render_int;
use crate::fmt::spec_render_str;
use crate::fmt::wrote;
use crate::meta::Meta;
use crate::meta::MetaBuf;
use crate::meta::MetaLink;
use crate::meta::MetaLinkIter;

verus! {

/// A point in time: seconds since the Unix epoch and the nanoseconds
/// within that second.
#[derive(Debug, Clone, Copy, PartialEq, Eq, Structural)]
pub struct Timestamp {
    pub secs: i64,
    pub nanos: u32,
}

/// The range of timestamps the external clock and calendar can
/// represent: roughly two hundred and sixty thousand years around the
/// epoch, with room for a leap second.
pub open spec fn ts_wf(t: Timestamp) -> bool {
    &&& -8_400_000_000_000 <= t.secs <= 8_400_000_000_000
    &&& t.nanos < 2_000_000_000
}

/// A timestamp as microseconds since the epoch.
pub open spec fn ts_micros(t: Timestamp) -> int {
    t.secs * 1_000_000 + t.nanos / 1000
}

/// The epoch itself, the defined fallback of an inactive record.
pub open spec fn ts_epoch() -> Timestamp {
    Timestamp { secs: 0, nanos: 0 }
}

/// Relies on chrono's `Utc::now`, `DateTime::timestamp` and
/// `DateTime::timestamp_subsec_nanos`: of the current time nothing is
/// assumed but chrono's own documented range (about 262,000 years
/// around the epoch; nanoseconds may reach 1,999,999,999 on a leap
/// second).
#[verifier::external_body]
fn clock_now() -> (r: (i64, u32))
    ensures
        -8_400_000_000_000 <= r.0 <= 8_400_000_000_000,
        r.1 < 2_000_000_000,
{
    let now = chrono::Utc::now();
    (now.timestamp(), now.timestamp_subsec_nanos())
}

/// Where the event was created: the source line, the module path and
/// the thread.
#[derive(Debug, Clone, Copy)]
pub struct Context {
    pub line: u32,
    pub module: &'static str,
    pub thread: usize,
}

/// How a record's severity number renders as text: as the number
/// itself, or through a table of names indexed by the number, falling
/// back to the number outside the table.
#[derive(Debug)]
pub enum SevFormat {
    Num,
    Table(Vec<String>),
}

/// What the severity `sev` renders to under `fs` for a given severity
/// format.
pub open spec fn sev_text(sf: SevFormat, sev: int, fs: FormatSpec) -> Seq<char> {
    match sf {
        SevFormat::Num => spec_render_int(sev, fs),
        SevFormat::Table(t) => if 0 <= sev && sev < t@.len() {
            spec_render_str(t@[sev]@, fs)
        } else {
            spec_render_int(sev, fs)
        },
    }
}

impl SevFormat {
    /// A copy that renders every severity exactly as this one does.
    pub fn dup(&self) -> (r: SevFormat)
        ensures
            forall|sev: int, fs: FormatSpec| #[trigger]
                sev_text(r, sev, fs) == sev_text(*self, sev, fs),
    {
        match self {
            SevFormat::Num => SevFormat::Num,
            SevFormat::Table(t) => {
                let mut c: Vec<String> = Vec::new();
                let mut j: usize = 0;
                while j < t.len()
                    invariant
                        j <= t@.len(),
                        c@ == t@.take(j as int),
                    decreases t@.len() - j,
                {
                    c.push(t[j].clone());
                    j = j + 1;
                    proof {
                        assert(c@ =~= t@.take(j as int));
                    }
                }
                proof {
                    assert(t@.take(t@.len() as int) =~= t@);
                }
                SevFormat::Table(c)
            },
        }
    }
}

/// Renders a severity number's display form under the given severity
/// format.
pub fn render_severity(sf: &SevFormat, sev: i32, f: &mut Formatter) -> (r: Result<(), Error>)
    ensures
        final (f).fspec == old(f).fspec,
        wrote(old(f).sink, final (f).sink, sev_text(*sf, sev as int, old(f).fspec)),
        (r is Ok) == old(f).sink.accepts(sev_text(*sf, sev as int, old(f).fspec).len()),
        r is Err ==> r == Result::<(), Error>::Err(Error::Io),
{
    match sf {
        SevFormat::Num => sev.format(f),
        SevFormat::Table(t) => {
            if 0 <= sev && (sev as usize) < t.len() {
                let s = &t[sev as usize];
                s.format(f)
            } else {
                sev.format(f)
            }
        },
    }
}

/// One log event. Inactive on creation: no message, no timestamp, no
/// allocation beyond what the caller already owns. Activation installs
/// the formatted message and stamps the current time, once.
#[derive(Debug)]
pub struct Record {
    sev: i32,
    sev_format: SevFormat,
    message: Option<String>,
    timestamp: Option<Timestamp>,
    context: Context,
    metalink: MetaLink,
}

impl Record {
    /// The record's validity: its chain is well formed and its
    /// timestamp, if stamped, is in the clock's range.
    pub closed spec fn inv(self) -> bool {
        &&& self.metalink.wf()
        &&& match self.timestamp {
            Option::Some(t) => ts_wf(t),
            Option::None => true,
        }
    }

    pub closed spec fn spec_severity(self) -> i32 {
        self.sev
    }

    pub closed spec fn spec_sev_format(self) -> SevFormat {
        self.sev_format
    }

    /// The message text; empty until activation.
    pub closed spec fn spec_message(self) -> Seq<char> {
        match self.message {
            Option::Some(m) => m@,
            Option::None => Seq::empty(),
        }
    }

    pub closed spec fn activated(self) -> bool {
        self.message is Some
    }

    /// The stamped time, or the epoch while inactive.
    pub closed spec fn spec_timestamp(self) -> Timestamp {
        match self.timestamp {
            Option::Some(t) => t,
            Option::None => ts_epoch(),
        }
    }

    pub closed spec fn spec_line(self) -> u32 {
        self.context.line
    }

    pub closed spec fn spec_module(self) -> Seq<char> {
        self.context.module@
    }

    pub closed spec fn spec_thread(self) -> usize {
        self.context.thread
    }

    /// The record's attributes in chronological attach order.
    pub closed spec fn metas(self) -> Seq<Meta> {
        self.metalink.flat()
    }

    /// An inactive record: severity, call site and attribute chain,
    /// with the numeric severity format and no thread recorded.
    pub fn new(sev: i32, line: u32, module: &'static str, metalink: MetaLink) -> (r: Record)
        requires
            metalink.wf(),
        ensures
            r.inv(),
            r.spec_severity() == sev,
            r.spec_sev_format() == SevFormat::Num,
            r.spec_message() == Seq::<char>::empty(),
            !r.activated(),
            r.spec_timestamp() == ts_epoch(),
            r.spec_line() == line,
            r.spec_module() == module@,
            r.spec_thread() == 0,
            r.metas() == metalink.flat(),
    {
        Record {
            sev: sev,
            sev_format: SevFormat::Num,
            message: None,
            timestamp: None,
            context: Context { line: line, module: module, thread: 0 },
            metalink: metalink,
        }
    }

    /// The same record with the given severity format installed.
    pub fn with_sev_format(self, sf: SevFormat) -> (r: Record)
        ensures
            r.inv() == self.inv(),
            r.spec_sev_format() == sf,
            r.spec_severity() == self.spec_severity(),
            r.spec_message() == self.spec_message(),
            r.activated() == self.activated(),
            r.spec_timestamp() == self.spec_timestamp(),
            r.spec_line() == self.spec_line(),
            r.spec_module() == self.spec_module(),
            r.spec_thread() == self.spec_thread(),
            r.metas() == self.metas(),
    {
        Record { sev_format: sf, ..self }
    }

    /// The same record with the creating thread recorded.
    pub fn with_thread(self, thread: usize) -> (r: Record)
        ensures
            r.inv() == self.inv(),
            r.spec_thread() == thread,
            r.spec_severity() == self.spec_severity(),
            r.spec_sev_format() == self.spec_sev_format(),
            r.spec_message() == self.spec_message(),
            r.activated() == self.activated(),
            r.spec_timestamp() == self.spec_timestamp(),
            r.spec_line() == self.spec_line(),
            r.spec_module() == self.spec_module(),
            r.metas() == self.metas(),
    {
        let c = Context { line: self.context.line, module: self.context.module, thread: thread };
        Record { context: c, ..self }
    }

    /// The severity number set at creation.
    pub fn severity(&self) -> (r: i32)
        ensures
            r == self.spec_severity(),
    {
        self.sev
    }

    /// How this record's severity renders as text.
    pub fn severity_format(&self) -> (r: &SevFormat)
        ensures
            *r == self.spec_sev_format(),
    {
        &self.sev_format
    }

    /// Whether the record has been activated.
    pub fn is_active(&self) -> (r: bool)
        ensures
            r == self.activated(),
    {
        self.message.is_some()
    }

    /// The activated message, or the empty string while inactive.
    pub fn message(&self) -> (r: &str)
        ensures
            r@ == self.spec_message(),
    {
        match &self.message {
            Some(m) => m.as_str(),
            None => {
                proof {
                    reveal_strlit("");
                    assert(""@ =~= Seq::<char>::empty());
                }
                ""
            },
        }
    }

    /// The stamped time, or the epoch while inactive: a defined,
    /// non-panicking fallback.
    pub fn datetime(&self) -> (r: Timestamp)
        ensures
            r == self.spec_timestamp(),
            self.inv() ==> ts_wf(r),
    {
        match self.timestamp {
            Some(t) => t,
            None => Timestamp { secs: 0, nanos: 0 },
        }
    }

    /// Where the event was created.
    pub fn context(&self) -> (r: &Context)
        ensures
            r.line == self.spec_line(),
            r.module@ == self.spec_module(),
            r.thread == self.spec_thread(),
    {
        &self.context
    }

    pub fn line(&self) -> (r: u32)
        ensures
            r == self.spec_line(),
    {
        self.context.line
    }

    pub fn module(&self) -> (r: &'static str)
        ensures
            r@ == self.spec_module(),
    {
        self.context.module
    }

    pub fn thread(&self) -> (r: usize)
        ensures
            r == self.spec_thread(),
    {
        self.context.thread
    }

    /// An iterator over the attributes in chronological attach order.
    pub fn iter(&self) -> (it: MetaLinkIter)
        requires
            self.inv(),
        ensures
            it.items@ == self.metas(),
            it.pos == 0,
    {
        self.metalink.iter()
    }

    /// Installs the formatted message and stamps the current time.
    /// Called once, after filtering has accepted the record.
    pub fn activate(&mut self, message: String)
        requires
            !old(self).activated(),
        ensures
            old(self).inv() ==> final (self).inv(),
            final (self).activated(),
            final (self).spec_message() == message@,
            ts_wf(final (self).spec_timestamp()),
            final (self).spec_severity() == old(self).spec_severity(),
            final (self).spec_sev_format() == old(self).spec_sev_format(),
            final (self).spec_line() == old(self).spec_line(),
            final (self).spec_module() == old(self).spec_module(),
            final (self).spec_thread() == old(self).spec_thread(),
            final (self).metas() == old(self).metas(),
    {
        self.message = Some(message);
        let (s, n) = clock_now();
        self.timestamp = Some(Timestamp { secs: s, nanos: n });
    }
}

/// The owning twin of `Record`, for crossing scopes: every attribute
/// value is copied into an owned form. Built only from an activated
/// record.
#[derive(Debug)]
pub struct RecordBuf {
    timestamp: Timestamp,
    sev: i32,
    sev_format: SevFormat,
    context: Context,
    message: String,
    meta: Vec<MetaBuf>,
}

impl RecordBuf {
    pub closed spec fn inv(self) -> bool {
        ts_wf(self.timestamp)
    }

    pub closed spec fn spec_severity(self) -> i32 {
        self.sev
    }

    pub closed spec fn spec_sev_format(self) -> SevFormat {
        self.sev_format
    }

    pub closed spec fn spec_message(self) -> Seq<char> {
        self.message@
    }

    pub closed spec fn spec_timestamp(self) -> Timestamp {
        self.timestamp
    }

    /// The owned attributes, in the record's chronological order.
    pub closed spec fn spec_metas(self) -> Seq<MetaBuf> {
        self.meta@
    }

    /// Copies an activated record into its owned form; each attribute
    /// value is copied, in chronological order.
    pub fn from_record(rec: &Record) -> (r: RecordBuf)
        requires
            rec.inv(),
            rec.activated(),
        ensures
            r.inv(),
            r.spec_severity() == rec.spec_severity(),
            r.spec_message() == rec.spec_message(),
            r.spec_timestamp() == rec.spec_timestamp(),
            forall|sev: int, fs: FormatSpec| #[trigger]
                sev_text(r.spec_sev_format(), sev, fs) == sev_text(
                    rec.spec_sev_format(),
                    sev,
                    fs,
                ),
            r.spec_metas().map_values(|b: MetaBuf| b.name@) == rec.metas().map_values(
                |m: Meta| m.name@,
            ),
            r.spec_metas().map_values(|b: MetaBuf| b.value) == rec.metas().map_values(
                |m: Meta| m.value,
            ),
    {
        let items = rec.iter().items;
        let mut bufs: Vec<MetaBuf> = Vec::new();
        let mut j: usize = 0;
        while j < items.len()
            invariant
                j <= items@.len(),
                bufs@.len() == j,
                forall|k: int|
                    0 <= k < j ==> bufs@[k].name == items@[k].name && bufs@[k].value
                        == items@[k].value,
            decreases items@.len() - j,
        {
            let m = &items[j];
            bufs.push(MetaBuf::new(m.name, m.value.dup()));
            j = j + 1;
        }
        let r = RecordBuf {
            timestamp: rec.datetime(),
            sev: rec.severity(),
            sev_format: rec.severity_format().dup(),
            context: *rec.context(),
            message: String::from_str(rec.message()),
            meta: bufs,
        };
        proof {
            assert(r.spec_metas().map_values(|b: MetaBuf| b.name@) =~= rec.metas().map_values(
                |m: Meta| m.name@,
            ));
            assert(r.spec_metas().map_values(|b: MetaBuf| b.value) =~= rec.metas().map_values(
                |m: Meta| m.value,
            ));
        }
        r
    }

    /// A borrowed view of this owned record: an activated record with
    /// the same severity, message, timestamp, call site and attributes.
    pub fn to_record(&self) -> (r: Record)
        requires
            self.inv(),
        ensures
            r.inv(),
            r.activated(),
            r.spec_severity() == self.spec_severity(),
            r.spec_message() == self.spec_message(),
            r.spec_timestamp() == self.spec_timestamp(),
            forall|sev: int, fs: FormatSpec| #[trigger]
                sev_text(r.spec_sev_format(), sev, fs) == sev_text(
                    self.spec_sev_format(),
                    sev,
                    fs,
                ),
            r.metas().map_values(|m: Meta| m.name@) == self.spec_metas().map_values(
                |b: MetaBuf| b.name@,
            ),
            r.metas().map_values(|m: Meta| m.value) == self.spec_metas().map_values(
                |b: MetaBuf| b.value,
            ),
    {
        let mut metas: Vec<Meta> = Vec::new();
        let mut j: usize = 0;
        while j < self.meta.len()
            invariant
                j <= self.meta@.len(),
                metas@.len() == j,
                forall|k: int|
                    0 <= k < j ==> metas@[k].name == self.meta@[k].name && metas@[k].value
                        == self.meta@[k].value,
            decreases self.meta@.len() - j,
        {
            metas.push(self.meta[j].to_meta());
            j = j + 1;
        }
        let link = MetaLink::new(metas);
        let r = Record {
            sev: self.sev,
            sev_format: self.sev_format.dup(),
            message: Some(self.message.clone()),
            timestamp: Some(self.timestamp),
            context: self.context,
            metalink: link,
        };
        proof {
            assert(r.metas().map_values(|m: Meta| m.name@) =~= self.spec_metas().map_values(
                |b: MetaBuf| b.name@,
            ));
            assert(r.metas().map_values(|m: Meta| m.value) =~= self.spec_metas().map_values(
                |b: MetaBuf| b.value,
            ));
        }
        r
    }
}

} // verus!
