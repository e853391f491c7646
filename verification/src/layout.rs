//! The pattern interpreter: a layout compiled once from a pattern
//! string, holding its token sequence immutably, and a `format` call
//! that walks the tokens, pulls data out of a record and drives the
//! format engine into a sink. The first failing token stops the call;
//! bytes already written stay in the sink.

use vstd::prelude::*;

use crate::fmt::Error;
use crate::fmt::FormatSpec;
use crate::fmt::Sink;
use crate::fmt::default_format_spec;
use crate::fmt::fmt_value;
use crate::fmt::lemma_wrote_fail;
use crate::fmt::lemma_wrote_trans;
use crate::fmt::spec_render_int;
use crate::fmt::spec_render_str;
use crate::fmt::wrote;
use crate::grammar::ParseError;
use crate::grammar::SeverityType;
use crate::grammar::Timezone;
use crate::grammar::TokM;
use crate::grammar::Token;
use crate::grammar::TokenBuf;
use crate::grammar::parse;
use crate::grammar::parse_m;
use crate::grammar::spec_to_fmt;
use crate::meta::Meta;
use crate::meta::value_rendering;
use crate::record::Record;
use crate::record::SevFormat;
use crate::record::sev_text;
use crate::record::ts_micros;

verus! {

/// What chrono renders a UTC timestamp to under a date pattern: a
/// function of the timestamp and the pattern alone, left unstated here
/// because the calendar's rules are the external collaborator's.
pub uninterp spec fn strftime_utc_of(secs: int, nanos: int, pattern: Seq<char>) -> Seq<char>;

/// Relies on chrono: `DateTime::from_timestamp`, `DateTime::format` and
/// `DelayedFormat::write_to`. UTC rendering under a date pattern is
/// locale-independent, so the text is a function of the timestamp and
/// the pattern alone; a timestamp or pattern chrono cannot handle
/// yields a defined (possibly empty) text rather than a panic.
#[verifier::external_body]
fn strftime_utc(secs: i64, nanos: u32, pattern: &str) -> (r: String)
    ensures
        r@ == strftime_utc_of(secs as int, nanos as int, pattern@),
{
    let mut out = std::string::String::new();
    if let Some(dt) = chrono::DateTime::<chrono::Utc>::from_timestamp(secs, nanos) {
        let _ = dt.format(pattern).write_to(&mut out);
    }
    out
}

/// Relies on chrono: `DateTime::from_timestamp`, `with_timezone` to
/// `chrono::Local`, `DateTime::format` and `DelayedFormat::write_to`.
/// The text depends on the machine's time zone, so nothing is promised
/// of it.
#[verifier::external_body]
fn strftime_local(secs: i64, nanos: u32, pattern: &str) -> String {
    let mut out = std::string::String::new();
    if let Some(dt) = chrono::DateTime::<chrono::Utc>::from_timestamp(secs, nanos) {
        let local = dt.with_timezone(&chrono::Local);
        let _ = local.format(pattern).write_to(&mut out);
    }
    out
}

/// The engine spec a placeholder's optional clause stands for: the
/// clause itself, or the all-default spec.
pub open spec fn opt_spec(o: Option<crate::grammar::FormatSpec>) -> FormatSpec {
    match o {
        Option::Some(g) => spec_to_fmt(g),
        Option::None => default_format_spec(),
    }
}

/// Whether a token renders a local-zone timestamp, the one token whose
/// text depends on the machine rather than on the record.
pub open spec fn is_local_ts(t: TokM) -> bool {
    match t {
        TokM::Timestamp(_, _, Timezone::Local) => true,
        _ => false,
    }
}

/// A token the interpreter supports: process placeholders and a spec on
/// the whole attribute list are not implemented, and a layout holding
/// them is refused at construction.
pub open spec fn renderable_tok(t: TokM) -> bool {
    match t {
        TokM::Process(_, _) => false,
        TokM::MetaList(o) => o is None,
        _ => true,
    }
}

pub open spec fn renderable(toks: Seq<TokM>) -> bool {
    forall|i: int| 0 <= i < toks.len() ==> renderable_tok(#[trigger] toks[i])
}

/// The first attribute with the given name, scanning the chain in
/// chronological order: on duplicate names the earliest-attached one
/// wins.
pub open spec fn meta_lookup(metas: Seq<Meta>, name: Seq<char>) -> Option<Meta>
    decreases metas.len(),
{
    if metas.len() == 0 {
        Option::None
    } else if metas[0].name@ == name {
        Option::Some(metas[0])
    } else {
        meta_lookup(metas.skip(1), name)
    }
}

/// One attribute as the list placeholder shows it.
pub open spec fn metalist_entry(m: Meta) -> Seq<char> {
    m.name@ + seq![':', ' '] + value_rendering(m.value, default_format_spec())
}

/// Every attribute as `name: value`, joined by `, `, in chain order.
pub open spec fn metalist_text(metas: Seq<Meta>) -> Seq<char>
    decreases metas.len(),
{
    if metas.len() == 0 {
        Seq::empty()
    } else if metas.len() == 1 {
        metalist_entry(metas[0])
    } else {
        metalist_entry(metas[0]) + seq![',', ' '] + metalist_text(metas.skip(1))
    }
}

/// What one token writes for a record, and whether it succeeds. `ls`
/// stands for the text the machine's local calendar produced, for the
/// one token kind that depends on it.
pub open spec fn tok_out(t: TokM, rec: Record, ls: Seq<char>) -> (Seq<char>, bool) {
    match t {
        TokM::Piece(p) => (p, true),
        TokM::Message(o) => match o {
            Option::None => (rec.spec_message(), true),
            Option::Some(g) => (spec_render_str(rec.spec_message(), spec_to_fmt(g)), true),
        },
        TokM::Severity(o, ty) => match ty {
            SeverityType::Num => (spec_render_int(rec.spec_severity() as int, opt_spec(o)), true),
            SeverityType::String => (
                sev_text(rec.spec_sev_format(), rec.spec_severity() as int, opt_spec(o)),
                true,
            ),
        },
        TokM::Timestamp(o, pat, tz) => {
            let raw = match tz {
                Timezone::Utc => strftime_utc_of(
                    rec.spec_timestamp().secs as int,
                    rec.spec_timestamp().nanos as int,
                    pat,
                ),
                Timezone::Local => ls,
            };
            match o {
                Option::None => (raw, true),
                Option::Some(g) => (spec_render_str(raw, spec_to_fmt(g)), true),
            }
        },
        TokM::TimestampNum(o) => (
            spec_render_int(ts_micros(rec.spec_timestamp()), opt_spec(o)),
            true,
        ),
        TokM::Line(o) => (spec_render_int(rec.spec_line() as int, opt_spec(o)), true),
        TokM::Module(o) => match o {
            Option::None => (rec.spec_module(), true),
            Option::Some(g) => (spec_render_str(rec.spec_module(), spec_to_fmt(g)), true),
        },
        TokM::Meta(name, o) => match meta_lookup(rec.metas(), name) {
            Option::Some(m) => (value_rendering(m.value, opt_spec(o)), true),
            Option::None => (Seq::empty(), false),
        },
        TokM::MetaList(_) => (metalist_text(rec.metas()), true),
        TokM::Process(_, _) => (Seq::empty(), true),
    }
}

/// How many local-timestamp tokens a sequence holds.
pub open spec fn spec_n_locals(toks: Seq<TokM>) -> nat
    decreases toks.len(),
{
    if toks.len() == 0 {
        0
    } else {
        (if is_local_ts(toks[0]) {
            1nat
        } else {
            0nat
        }) + spec_n_locals(toks.skip(1))
    }
}

/// The full walk over a token sequence: the text the tokens write, in
/// order, and whether every placeholder resolved. A failing token
/// writes nothing and stops the walk; `locals` supplies, in order, the
/// text of each local-timestamp token.
pub open spec fn walk(toks: Seq<TokM>, rec: Record, locals: Seq<Seq<char>>) -> (Seq<char>, bool)
    decreases toks.len(),
{
    if toks.len() == 0 {
        (Seq::empty(), true)
    } else {
        let ls = if is_local_ts(toks[0]) && locals.len() > 0 {
            locals[0]
        } else {
            Seq::empty()
        };
        let head = tok_out(toks[0], rec, ls);
        if !head.1 {
            (Seq::empty(), false)
        } else {
            let rest = walk(
                toks.skip(1),
                rec,
                if is_local_ts(toks[0]) {
                    locals.skip(1)
                } else {
                    locals
                },
            );
            (head.0 + rest.0, rest.1)
        }
    }
}

/// A walk splits around any cut: the first part's text comes first, and
/// the second part decides success, as long as the first part succeeds
/// and consumed exactly its own local texts.
pub proof fn lemma_walk_append(
    done: Seq<TokM>,
    rest: Seq<TokM>,
    rec: Record,
    l1: Seq<Seq<char>>,
    l2: Seq<Seq<char>>,
)
    requires
        walk(done, rec, l1).1,
        spec_n_locals(done) == l1.len(),
    ensures
        walk(done + rest, rec, l1 + l2) == (
            walk(done, rec, l1).0 + walk(rest, rec, l2).0,
            walk(rest, rec, l2).1,
        ),
    decreases done.len(),
{
    if done.len() == 0 {
        assert(done + rest =~= rest);
        assert(l1 + l2 =~= l2);
        assert(walk(done, rec, l1).0 + walk(rest, rec, l2).0 =~= walk(rest, rec, l2).0);
    } else {
        let t0 = done[0];
        let all = done + rest;
        assert(all[0] == t0);
        assert(all.skip(1) =~= done.skip(1) + rest);
        if is_local_ts(t0) {
            assert(l1.len() > 0);
            let ls = l1[0];
            assert((l1 + l2)[0] == ls);
            assert((l1 + l2).len() > 0);
            assert((l1 + l2).skip(1) =~= l1.skip(1) + l2);
            lemma_walk_append(done.skip(1), rest, rec, l1.skip(1), l2);
            let h = tok_out(t0, rec, ls);
            assert(h.0 + (walk(done.skip(1), rec, l1.skip(1)).0 + walk(rest, rec, l2).0) =~= (h.0
                + walk(done.skip(1), rec, l1.skip(1)).0) + walk(rest, rec, l2).0);
        } else {
            let ls = if l1.len() > 0 {
                l1[0]
            } else {
                Seq::<char>::empty()
            };
            let lsa = if (l1 + l2).len() > 0 {
                (l1 + l2)[0]
            } else {
                Seq::<char>::empty()
            };
            lemma_tok_out_no_ls(t0, rec, ls, lsa);
            lemma_walk_append(done.skip(1), rest, rec, l1, l2);
            assert(tok_out(t0, rec, ls).0 + (walk(done.skip(1), rec, l1).0 + walk(
                rest,
                rec,
                l2,
            ).0) =~= (tok_out(t0, rec, ls).0 + walk(done.skip(1), rec, l1).0) + walk(
                rest,
                rec,
                l2,
            ).0);
        }
    }
}

/// What any token but the local timestamp writes does not depend on the
/// machine's local text.
pub proof fn lemma_tok_out_no_ls(t: TokM, rec: Record, a: Seq<char>, b: Seq<char>)
    requires
        !is_local_ts(t),
    ensures
        tok_out(t, rec, a) == tok_out(t, rec, b),
{
}

proof fn lemma_n_locals_snoc(s: Seq<TokM>, t: TokM)
    ensures
        spec_n_locals(s.push(t)) == spec_n_locals(s) + (if is_local_ts(t) {
            1nat
        } else {
            0nat
        }),
    decreases s.len(),
{
    if s.len() > 0 {
        assert(s.push(t).skip(1) =~= s.skip(1).push(t));
        assert(s.push(t)[0] == s[0]);
        lemma_n_locals_snoc(s.skip(1), t);
        assert(spec_n_locals(s.push(t)) == (if is_local_ts(s[0]) {
            1nat
        } else {
            0nat
        }) + spec_n_locals(s.skip(1).push(t)));
        assert(spec_n_locals(s) == (if is_local_ts(s[0]) {
            1nat
        } else {
            0nat
        }) + spec_n_locals(s.skip(1)));
    } else {
        assert(s.push(t).skip(1) =~= Seq::<TokM>::empty());
        assert(s.push(t)[0] == t);
        assert(spec_n_locals(s.push(t)) == (if is_local_ts(t) {
            1nat
        } else {
            0nat
        }) + spec_n_locals(Seq::<TokM>::empty()));
    }
}

proof fn lemma_prefix_trans(a: Seq<char>, b: Seq<char>, c: Seq<char>)
    requires
        a.is_prefix_of(b),
        b.is_prefix_of(c),
    ensures
        a.is_prefix_of(c),
{
    assert(a =~= c.subrange(0, a.len() as int));
}

proof fn lemma_metalist_take_succ(metas: Seq<Meta>, j: int)
    requires
        0 <= j < metas.len(),
    ensures
        metalist_text(metas.take(j + 1)) == if j == 0 {
            metalist_entry(metas[0])
        } else {
            metalist_text(metas.take(j)) + seq![',', ' '] + metalist_entry(metas[j])
        },
    decreases j,
{
    if j == 0 {
        assert(metas.take(1) =~= seq![metas[0]]);
    } else {
        let tail = metas.skip(1);
        assert(metas.take(j + 1).skip(1) =~= tail.take(j));
        assert(metas.take(j).skip(1) =~= tail.take(j - 1));
        assert(metas.take(j + 1)[0] == metas[0]);
        assert(metas.take(j)[0] == metas[0]);
        assert(tail[j - 1] == metas[j]);
        lemma_metalist_take_succ(tail, j - 1);
        if j == 1 {
            assert(metalist_text(metas.take(2)) == metalist_entry(metas[0]) + seq![',', ' ']
                + metalist_text(tail.take(1)));
            assert(metalist_text(metas.take(1)) == metalist_entry(metas[0]));
        } else {
            assert(metalist_text(metas.take(j + 1)) == metalist_entry(metas[0]) + seq![',', ' ']
                + metalist_text(tail.take(j)));
            assert(metalist_text(metas.take(j)) == metalist_entry(metas[0]) + seq![',', ' ']
                + metalist_text(tail.take(j - 1)));
            assert((metalist_entry(metas[0]) + seq![',', ' ']) + (metalist_text(tail.take(j - 1))
                + seq![',', ' '] + metalist_entry(metas[j])) =~= ((metalist_entry(metas[0]) + seq![
                ',',
                ' ',
            ]) + metalist_text(tail.take(j - 1))) + seq![',', ' '] + metalist_entry(metas[j]));
        }
    }
}

proof fn lemma_metalist_take_prefix(metas: Seq<Meta>, j: int)
    requires
        0 <= j <= metas.len(),
    ensures
        metalist_text(metas.take(j)).is_prefix_of(metalist_text(metas)),
    decreases metas.len() - j,
{
    if j < metas.len() {
        lemma_metalist_take_succ(metas, j);
        lemma_metalist_take_prefix(metas, j + 1);
        assert(metalist_text(metas.take(j)).is_prefix_of(metalist_text(metas.take(j + 1))));
        lemma_prefix_trans(
            metalist_text(metas.take(j)),
            metalist_text(metas.take(j + 1)),
            metalist_text(metas),
        );
    } else {
        assert(metas.take(j) =~= metas);
    }
}

/// Whether two strings hold the same characters.
fn str_eq(a: &str, b: &str) -> (r: bool)
    ensures
        r == (a@ == b@),
{
    let n = a.unicode_len();
    if n != b.unicode_len() {
        return false;
    }
    let mut j: usize = 0;
    while j < n
        invariant
            j <= n,
            n == a@.len(),
            n == b@.len(),
            forall|k: int| 0 <= k < j ==> a@[k] == b@[k],
        decreases n - j,
    {
        if a.get_char(j) != b.get_char(j) {
            return false;
        }
        j = j + 1;
    }
    proof {
        assert(a@ =~= b@);
    }
    true
}

/// Finds the first attribute with the given name, scanning the chain
/// forward: the earliest-attached of duplicate names wins.
fn lookup_meta(rec: &Record, name: &str) -> (r: Option<Meta>)
    requires
        rec.inv(),
    ensures
        r == meta_lookup(rec.metas(), name@),
{
    let it = rec.iter();
    let items = it.items;
    proof {
        assert(items@.skip(0) =~= items@);
    }
    let mut j: usize = 0;
    while j < items.len()
        invariant
            j <= items@.len(),
            items@ == rec.metas(),
            meta_lookup(rec.metas(), name@) == meta_lookup(items@.skip(j as int), name@),
        decreases items@.len() - j,
    {
        proof {
            assert(items@.skip(j as int)[0] == items@[j as int]);
        }
        if str_eq(items[j].name, name) {
            return Some(items[j].dup());
        }
        proof {
            assert(items@.skip(j as int).skip(1) =~= items@.skip(j as int + 1));
        }
        j = j + 1;
    }
    proof {
        assert(items@.skip(j as int).len() == 0);
    }
    None
}

fn opt_exec(o: &Option<crate::grammar::FormatSpec>) -> (r: FormatSpec)
    ensures
        r == opt_spec(*o),
{
    match o {
        Some(g) => g.to_format_spec(),
        None => FormatSpec::default(),
    }
}

/// Renders a severity's display form straight into a sink.
fn sev_to_sink(sf: &SevFormat, sev: i32, wr: &mut Sink, fs: FormatSpec) -> (r: Result<(), Error>)
    ensures
        wrote(*old(wr), *final (wr), sev_text(*sf, sev as int, fs)),
        (r is Ok) == old(wr).accepts(sev_text(*sf, sev as int, fs).len()),
        r is Err ==> r == Result::<(), Error>::Err(Error::Io),
{
    let mut s = Sink::new();
    std::mem::swap(wr, &mut s);
    let mut f = crate::fmt::Formatter::new(s, fs);
    let res = crate::record::render_severity(sf, sev, &mut f);
    let mut s2 = f.into_sink();
    std::mem::swap(wr, &mut s2);
    res
}

/// Maps a record's severity to text: the numeric form for `d`, the
/// record's own display form for `s`, under the clause's spec.
pub struct DefaultSevMap;

impl DefaultSevMap {
    /// What this map writes for a record's severity.
    pub open spec fn mapped(
        rec: Record,
        fspec: crate::grammar::FormatSpec,
        ty: SeverityType,
    ) -> Seq<char> {
        match ty {
            SeverityType::Num => spec_render_int(rec.spec_severity() as int, spec_to_fmt(fspec)),
            SeverityType::String => sev_text(
                rec.spec_sev_format(),
                rec.spec_severity() as int,
                spec_to_fmt(fspec),
            ),
        }
    }

    pub fn map(
        &self,
        rec: &Record,
        fspec: crate::grammar::FormatSpec,
        ty: SeverityType,
        wr: &mut Sink,
    ) -> (r: Result<(), Error>)
        ensures
            wrote(*old(wr), *final (wr), DefaultSevMap::mapped(*rec, fspec, ty)),
            (r is Ok) == old(wr).accepts(DefaultSevMap::mapped(*rec, fspec, ty).len()),
            r is Err ==> r == Result::<(), Error>::Err(Error::Io),
    {
        match ty {
            SeverityType::Num => {
                let sev = rec.severity();
                fmt_value(&sev, wr, fspec.to_format_spec())
            },
            SeverityType::String => sev_to_sink(
                rec.severity_format(),
                rec.severity(),
                wr,
                fspec.to_format_spec(),
            ),
        }
    }
}

/// Writes every attribute as `name: value` joined by `, `, in chain
/// order, the values under the default spec.
#[verifier::rlimit(100)]
fn render_metalist(rec: &Record, wr: &mut Sink) -> (r: Result<(), Error>)
    requires
        rec.inv(),
    ensures
        wrote(*old(wr), *final (wr), metalist_text(rec.metas())),
        (r is Ok) == old(wr).accepts(metalist_text(rec.metas()).len()),
        r is Err ==> r == Result::<(), Error>::Err(Error::Io),
{
    let ghost pre = *wr;
    let ghost metas = rec.metas();
    let it = rec.iter();
    let items = it.items;
    let mut j: usize = 0;
    while j < items.len()
        invariant
            j <= items@.len(),
            items@ == metas,
            metas == rec.metas(),
            pre == *old(wr),
            rec.inv(),
            wrote(pre, *wr, metalist_text(metas.take(j as int))),
            pre.accepts(metalist_text(metas.take(j as int)).len()),
        decreases items@.len() - j,
    {
        let ghost sofar = metalist_text(metas.take(j as int));
        let ghost full = metalist_text(metas);
        let ghost entry = metalist_entry(metas[j as int]);
        let ghost sep: Seq<char> = if j == 0 {
            Seq::empty()
        } else {
            seq![',', ' ']
        };
        proof {
            lemma_metalist_take_succ(metas, j as int);
            lemma_metalist_take_prefix(metas, j as int + 1);
            if j == 0 {
                assert(sofar =~= Seq::<char>::empty());
                assert(sofar + sep =~= sofar);
                assert(metalist_text(metas.take(1)) == entry);
                assert((sofar + sep) + entry =~= entry);
            }
            assert(metalist_text(metas.take(j as int + 1)) == (sofar + sep) + entry);
        }
        let ghost target = metalist_text(metas.take(j as int + 1));
        if j > 0 {
            let ghost s0 = *wr;
            let r1 = wr.write(", ");
            proof {
                reveal_strlit(", ");
                assert(", "@ =~= sep);
                lemma_wrote_trans(pre, s0, *wr, sofar, sep);
            }
            if r1.is_err() {
                proof {
                    assert((sofar + sep).is_prefix_of(target));
                    lemma_prefix_trans(sofar + sep, target, full);
                    lemma_wrote_fail(pre, *wr, sofar + sep, full);
                }
                return Err(Error::Io);
            }
        } else {
            proof {
                assert(sofar + sep =~= sofar);
                assert(wrote(pre, *wr, sofar + sep));
            }
        }
        let m = &items[j];
        let ghost s1 = *wr;
        let r2 = wr.write(m.name);
        proof {
            lemma_wrote_trans(pre, s1, *wr, sofar + sep, m.name@);
        }
        if r2.is_err() {
            proof {
                assert(target =~= ((sofar + sep) + m.name@) + (seq![':', ' '] + value_rendering(
                    m.value,
                    default_format_spec(),
                )));
                assert(((sofar + sep) + m.name@).is_prefix_of(target));
                lemma_prefix_trans((sofar + sep) + m.name@, target, full);
                lemma_wrote_fail(pre, *wr, (sofar + sep) + m.name@, full);
            }
            return Err(Error::Io);
        }
        let ghost s2 = *wr;
        let r3 = wr.write(": ");
        proof {
            reveal_strlit(": ");
            assert(": "@ =~= seq![':', ' ']);
            lemma_wrote_trans(pre, s2, *wr, (sofar + sep) + m.name@, seq![':', ' ']);
        }
        if r3.is_err() {
            proof {
                assert(target =~= (((sofar + sep) + m.name@) + seq![':', ' ']) + value_rendering(
                    m.value,
                    default_format_spec(),
                ));
                assert((((sofar + sep) + m.name@) + seq![':', ' ']).is_prefix_of(target));
                lemma_prefix_trans(((sofar + sep) + m.name@) + seq![':', ' '], target, full);
                lemma_wrote_fail(pre, *wr, ((sofar + sep) + m.name@) + seq![':', ' '], full);
            }
            return Err(Error::Io);
        }
        let ghost s3 = *wr;
        let fs = FormatSpec::default();
        let r4 = fmt_value(&m.value, wr, fs);
        proof {
            lemma_wrote_trans(
                pre,
                s3,
                *wr,
                ((sofar + sep) + m.name@) + seq![':', ' '],
                value_rendering(m.value, default_format_spec()),
            );
            assert((((sofar + sep) + m.name@) + seq![':', ' ']) + value_rendering(
                m.value,
                default_format_spec(),
            ) =~= target);
        }
        if r4.is_err() {
            proof {
                lemma_prefix_trans(target, target, full);
                lemma_wrote_fail(pre, *wr, target, full);
            }
            return Err(Error::Io);
        }
        j = j + 1;
    }
    proof {
        assert(metas.take(j as int) =~= metas);
    }
    Ok(())
}

/// Renders one token for a record into the sink. The second result is
/// the text the machine's local calendar produced, meaningful only for
/// a local-timestamp token.
fn render_token(t: &TokenBuf, rec: &Record, wr: &mut Sink) -> (r: (
    Result<(), Error>,
    Ghost<Seq<char>>,
))
    requires
        rec.inv(),
        renderable_tok(t@),
    ensures
        ({
            let out = tok_out(t@, *rec, r.1@);
            match r.0 {
                Result::Ok(()) => out.1 && wrote(*old(wr), *final (wr), out.0) && old(wr).accepts(
                    out.0.len(),
                ),
                Result::Err(e) => match e {
                    Error::MetaNotFound => !out.1 && *final (wr) == *old(wr),
                    Error::Io => out.1 && wrote(*old(wr), *final (wr), out.0) && !old(wr).accepts(
                        out.0.len(),
                    ),
                },
            }
        }),
{
    match t {
        TokenBuf::Piece(p) => {
            let res = wr.write(p.as_str());
            (res, Ghost(Seq::empty()))
        },
        TokenBuf::Message(o) => {
            match o {
                None => {
                    let res = wr.write(rec.message());
                    (res, Ghost(Seq::empty()))
                },
                Some(g) => {
                    let res = fmt_value::<str>(rec.message(), wr, g.to_format_spec());
                    (res, Ghost(Seq::empty()))
                },
            }
        },
        TokenBuf::Severity(o, ty) => {
            let fs = opt_exec(o);
            match ty {
                SeverityType::Num => {
                    let sev = rec.severity();
                    let res = fmt_value(&sev, wr, fs);
                    (res, Ghost(Seq::empty()))
                },
                SeverityType::String => {
                    let res = sev_to_sink(rec.severity_format(), rec.severity(), wr, fs);
                    (res, Ghost(Seq::empty()))
                },
            }
        },
        TokenBuf::Timestamp(o, pat, tz) => {
            let ts = rec.datetime();
            let s: String = match tz {
                Timezone::Utc => strftime_utc(ts.secs, ts.nanos, pat.as_str()),
                Timezone::Local => strftime_local(ts.secs, ts.nanos, pat.as_str()),
            };
            let ghost ls = s@;
            let res = match o {
                None => wr.write(s.as_str()),
                Some(g) => fmt_value::<str>(s.as_str(), wr, g.to_format_spec()),
            };
            (res, Ghost(ls))
        },
        TokenBuf::TimestampNum(o) => {
            let fs = opt_exec(o);
            let ts = rec.datetime();
            let micros: i64 = ts.secs * 1_000_000 + ((ts.nanos / 1000) as i64);
            proof {
                assert(micros as int == ts_micros(ts));
            }
            let res = fmt_value(&micros, wr, fs);
            (res, Ghost(Seq::empty()))
        },
        TokenBuf::Line(o) => {
            let fs = opt_exec(o);
            let line = rec.line();
            let res = fmt_value(&line, wr, fs);
            (res, Ghost(Seq::empty()))
        },
        TokenBuf::Module(o) => {
            match o {
                None => {
                    let res = wr.write(rec.module());
                    (res, Ghost(Seq::empty()))
                },
                Some(g) => {
                    let res = fmt_value::<str>(rec.module(), wr, g.to_format_spec());
                    (res, Ghost(Seq::empty()))
                },
            }
        },
        TokenBuf::Meta(name, o) => {
            let fs = opt_exec(o);
            match lookup_meta(rec, name.as_str()) {
                Some(m) => {
                    let res = fmt_value(&m.value, wr, fs);
                    (res, Ghost(Seq::empty()))
                },
                None => (Err(Error::MetaNotFound), Ghost(Seq::empty())),
            }
        },
        TokenBuf::MetaList(_) => {
            let res = render_metalist(rec, wr);
            (res, Ghost(Seq::empty()))
        },
        TokenBuf::Process(_, _) => {
            proof {
                assert(false);
            }
            (Ok(()), Ghost(Seq::empty()))
        },
    }
}

/// A compiled layout: the token sequence of one pattern, parsed once at
/// construction and held immutably for the layout's lifetime.
#[derive(Debug)]
pub struct PatternLayout {
    tokens: Vec<TokenBuf>,
}

/// How one `format` call relates the sink before and after: some choice
/// of local-calendar texts explains the walk, the walk's text was
/// written (as far as it fit), and the result says whether every
/// placeholder resolved and everything fit.
pub open spec fn format_post(
    toks: Seq<TokM>,
    rec: Record,
    pre: Sink,
    post: Sink,
    locals: Seq<Seq<char>>,
    r: Result<(), Error>,
) -> bool {
    let w = walk(toks, rec, locals);
    &&& wrote(pre, post, w.0)
    &&& match r {
        Result::Ok(()) => w.1 && pre.accepts(w.0.len()),
        Result::Err(e) => match e {
            Error::MetaNotFound => !w.1 && pre.accepts(w.0.len()),
            Error::Io => !pre.accepts(w.0.len()),
        },
    }
}

impl PatternLayout {
    /// The layout's token sequence.
    pub closed spec fn toks(self) -> Seq<TokM> {
        self.tokens@.map_values(|t: TokenBuf| t@)
    }

    /// A layout only ever holds tokens the interpreter supports.
    pub closed spec fn wf(self) -> bool {
        renderable(self.toks())
    }

    /// Compiles a pattern. Fails on malformed syntax, and also on a
    /// well-formed pattern holding a placeholder the interpreter does
    /// not support, so that a constructed layout always renders.
    pub fn new(pattern: &str) -> (r: Result<PatternLayout, ParseError>)
        ensures
            match r {
                Result::Ok(l) => parse_m(pattern@) == Option::Some(l.toks()) && l.wf(),
                Result::Err(e) => (parse_m(pattern@) is None || !renderable(
                    parse_m(pattern@).unwrap(),
                )) && e.offset <= pattern@.len(),
            },
    {
        let toks = match parse(pattern) {
            Ok(ts) => ts,
            Err(e) => {
                return Err(e);
            },
        };
        let ghost views = crate::grammar::tok_views(toks@);
        let mut out: Vec<TokenBuf> = Vec::new();
        let mut j: usize = 0;
        while j < toks.len()
            invariant
                j <= toks@.len(),
                out@.len() == j,
                views == crate::grammar::tok_views(toks@),
                parse_m(pattern@) == Option::Some(views),
                forall|k: int|
                    0 <= k < j ==> (#[trigger] out@[k])@ == views[k] && renderable_tok(out@[k]@),
            decreases toks@.len() - j,
        {
            let t = &toks[j];
            let supported = match t {
                Token::Process(_, _) => false,
                Token::MetaList(o) => match o {
                    Some(_) => false,
                    None => true,
                },
                _ => true,
            };
            if !supported {
                proof {
                    assert(views[j as int] == toks@[j as int]@);
                    assert(!renderable_tok(views[j as int]));
                }
                return Err(ParseError { offset: 0 });
            }
            out.push(TokenBuf::from_token(t.dup()));
            j = j + 1;
        }
        let l = PatternLayout { tokens: out };
        proof {
            assert(l.toks() =~= views);
        }
        Ok(l)
    }

    /// Renders one record through this layout into the sink, token by
    /// token in construction order. The first failing token stops the
    /// call and surfaces its error; text already written stays in the
    /// sink. A missing named attribute is `MetaNotFound`; a sink that
    /// ran out of room is `Io`.
    pub fn format(&self, rec: &Record, wr: &mut Sink) -> (r: Result<(), Error>)
        requires
            self.wf(),
            rec.inv(),
        ensures
            exists|locals: Seq<Seq<char>>|
                #[trigger] format_post(self.toks(), *rec, *old(wr), *final (wr), locals, r),
    {
        let ghost toks = self.toks();
        let ghost pre = *wr;
        let ghost mut locals: Seq<Seq<char>> = Seq::empty();
        let n = self.tokens.len();
        let mut idx: usize = 0;
        while idx < n
            invariant
                idx <= n,
                n == self.tokens@.len(),
                self.wf(),
                rec.inv(),
                toks == self.toks(),
                pre == *old(wr),
                spec_n_locals(toks.take(idx as int)) == locals.len(),
                walk(toks.take(idx as int), *rec, locals).1,
                wrote(pre, *wr, walk(toks.take(idx as int), *rec, locals).0),
                pre.accepts(walk(toks.take(idx as int), *rec, locals).0.len()),
            decreases n - idx,
        {
            let t = &self.tokens[idx];
            proof {
                assert(toks[idx as int] == t@);
                assert(renderable_tok(toks[idx as int]));
            }
            let ghost done = toks.take(idx as int);
            let ghost sofar = walk(done, *rec, locals).0;
            let ghost w0 = *wr;
            let (res, gls) = render_token(t, rec, wr);
            let ghost ls = gls@;
            let ghost out = tok_out(t@, *rec, ls);
            let ghost l2: Seq<Seq<char>> = if is_local_ts(t@) {
                seq![ls]
            } else {
                Seq::empty()
            };
            proof {
                assert(seq![t@].skip(1) =~= Seq::<TokM>::empty());
                assert(seq![t@].len() == 1);
                assert(seq![t@][0] == t@);
                if !is_local_ts(t@) {
                    lemma_tok_out_no_ls(t@, *rec, ls, Seq::empty());
                }
                let lsx = if is_local_ts(t@) && l2.len() > 0 {
                    l2[0]
                } else {
                    Seq::<char>::empty()
                };
                assert(tok_out(t@, *rec, lsx) == out);
                assert(walk(Seq::<TokM>::empty(), *rec, l2) == (Seq::<char>::empty(), true));
                assert(walk(Seq::<TokM>::empty(), *rec, l2.skip(1)) == (
                    Seq::<char>::empty(),
                    true,
                ));
                if out.1 {
                    assert(walk(seq![t@], *rec, l2).0 =~= out.0);
                    assert(walk(seq![t@], *rec, l2).1);
                } else {
                    assert(walk(seq![t@], *rec, l2).0 =~= Seq::<char>::empty());
                    assert(!walk(seq![t@], *rec, l2).1);
                }
                lemma_walk_append(done, seq![t@], *rec, locals, l2);
                assert(done + seq![t@] =~= toks.take(idx as int + 1));
            }
            match res {
                Ok(()) => {
                    proof {
                        lemma_wrote_trans(pre, w0, *wr, sofar, out.0);
                        assert(walk(toks.take(idx as int + 1), *rec, locals + l2).0 =~= sofar
                            + out.0);
                        locals = locals + l2;
                        if is_local_ts(t@) {
                            assert(toks.take(idx as int + 1) =~= toks.take(idx as int).push(t@));
                            lemma_n_locals_snoc(toks.take(idx as int), t@);
                        } else {
                            assert(toks.take(idx as int + 1) =~= toks.take(idx as int).push(t@));
                            lemma_n_locals_snoc(toks.take(idx as int), t@);
                        }
                    }
                    idx = idx + 1;
                },
                Err(e) => {
                    match e {
                        Error::MetaNotFound => {
                            proof {
                                let rest = toks.skip(idx as int);
                                assert(rest[0] == t@);
                                lemma_tok_out_no_ls(
                                    t@,
                                    *rec,
                                    ls,
                                    if rest.len() > 0 && is_local_ts(rest[0]) {
                                        Seq::empty()
                                    } else {
                                        Seq::empty()
                                    },
                                );
                                assert(!tok_out(t@, *rec, Seq::empty()).1);
                                assert(walk(rest, *rec, Seq::<Seq<char>>::empty()) == (
                                    Seq::<char>::empty(),
                                    false,
                                ));
                                lemma_walk_append(
                                    done,
                                    rest,
                                    *rec,
                                    locals,
                                    Seq::<Seq<char>>::empty(),
                                );
                                assert(done + rest =~= toks);
                                assert(locals + Seq::<Seq<char>>::empty() =~= locals);
                                assert(sofar + Seq::<char>::empty() =~= sofar);
                                assert(walk(toks, *rec, locals).0 == sofar);
                                assert(format_post(
                                    toks,
                                    *rec,
                                    pre,
                                    *wr,
                                    locals,
                                    Result::Err(Error::MetaNotFound),
                                ));
                            }
                            return Err(Error::MetaNotFound);
                        },
                        Error::Io => {
                            proof {
                                lemma_wrote_trans(pre, w0, *wr, sofar, out.0);
                                let rest = toks.skip(idx as int);
                                assert(rest[0] == t@);
                                assert(rest.skip(1) =~= toks.skip(idx as int + 1));
                                let wrest = walk(rest, *rec, l2);
                                assert(wrest.0 == out.0 + walk(
                                    rest.skip(1),
                                    *rec,
                                    if is_local_ts(t@) {
                                        l2.skip(1)
                                    } else {
                                        l2
                                    },
                                ).0);
                                lemma_walk_append(done, rest, *rec, locals, l2);
                                assert(done + rest =~= toks);
                                let wfull = walk(toks, *rec, locals + l2);
                                assert(wfull.0 == sofar + wrest.0);
                                assert((sofar + out.0).is_prefix_of(wfull.0)) by {
                                    assert(wfull.0 =~= (sofar + out.0) + walk(
                                        rest.skip(1),
                                        *rec,
                                        if is_local_ts(t@) {
                                            l2.skip(1)
                                        } else {
                                            l2
                                        },
                                    ).0);
                                }
                                lemma_wrote_fail(pre, *wr, sofar + out.0, wfull.0);
                                assert(format_post(
                                    toks,
                                    *rec,
                                    pre,
                                    *wr,
                                    locals + l2,
                                    Result::Err(Error::Io),
                                ));
                            }
                            return Err(Error::Io);
                        },
                    }
                },
            }
        }
        proof {
            assert(toks.take(idx as int) =~= toks);
            assert(format_post(toks, *rec, pre, *wr, locals, Result::Ok(())));
        }
        Ok(())
    }
}

/// With no local-timestamp token, the walk does not depend on the
/// local-calendar texts at all.
pub proof fn lemma_walk_no_locals(
    toks: Seq<TokM>,
    rec: Record,
    l1: Seq<Seq<char>>,
    l2: Seq<Seq<char>>,
)
    requires
        spec_n_locals(toks) == 0,
    ensures
        walk(toks, rec, l1) == walk(toks, rec, l2),
    decreases toks.len(),
{
    if toks.len() > 0 {
        assert(!is_local_ts(toks[0]));
        lemma_tok_out_no_ls(
            toks[0],
            rec,
            if l1.len() > 0 {
                l1[0]
            } else {
                Seq::empty()
            },
            if l2.len() > 0 {
                l2[0]
            } else {
                Seq::empty()
            },
        );
        lemma_walk_no_locals(toks.skip(1), rec, l1, l2);
    }
}

/// Law (idempotence): a layout whose pattern has no local-timestamp
/// placeholder is a pure function of the record. Any two successful
/// `format` calls on the same layout and the same record — from any
/// callers, with any sinks — append exactly the same text.
pub proof fn lemma_format_deterministic(
    toks: Seq<TokM>,
    rec: Record,
    pre1: Sink,
    post1: Sink,
    l1: Seq<Seq<char>>,
    pre2: Sink,
    post2: Sink,
    l2: Seq<Seq<char>>,
)
    requires
        spec_n_locals(toks) == 0,
        format_post(toks, rec, pre1, post1, l1, Result::Ok(())),
        format_post(toks, rec, pre2, post2, l2, Result::Ok(())),
    ensures
        post1.text() == pre1.text() + walk(toks, rec, Seq::empty()).0,
        post2.text() == pre2.text() + walk(toks, rec, Seq::empty()).0,
{
    lemma_walk_no_locals(toks, rec, l1, Seq::empty());
    lemma_walk_no_locals(toks, rec, l2, Seq::empty());
}

/// Whether every token is literal text.
pub open spec fn all_pieces(toks: Seq<TokM>) -> bool {
    forall|i: int|
        0 <= i < toks.len() ==> (#[trigger] toks[i]) matches TokM::Piece(_)
}

/// The literal text of a piece-only token sequence.
pub open spec fn pieces_text(toks: Seq<TokM>) -> Seq<char>
    decreases toks.len(),
{
    if toks.len() == 0 {
        Seq::empty()
    } else {
        (match toks[0] {
            TokM::Piece(p) => p,
            _ => Seq::empty(),
        }) + pieces_text(toks.skip(1))
    }
}

/// Law (round trip, literal part): rendering literal tokens against any
/// record reproduces their text exactly, and always succeeds.
pub proof fn lemma_literal_output(toks: Seq<TokM>, rec: Record, locals: Seq<Seq<char>>)
    requires
        all_pieces(toks),
    ensures
        walk(toks, rec, locals) == (pieces_text(toks), true),
    decreases toks.len(),
{
    if toks.len() > 0 {
        assert(toks[0] matches TokM::Piece(_));
        lemma_literal_output(toks.skip(1), rec, locals);
    }
}

/// Law (round trip): a brace-free pattern parses to exactly one literal
/// token holding the pattern's own text, and rendering that token
/// against any record writes the pattern back verbatim. Together with
/// `parse` being pinned to `parse_m` — the same pattern always gives
/// the same token sequence — this is the grammar's round trip on
/// literal text.
pub proof fn lemma_plain_text_roundtrip(s: Seq<char>, rec: Record, locals: Seq<Seq<char>>)
    requires
        crate::grammar::brace_free(s),
        s.len() > 0,
    ensures
        parse_m(s) == Option::Some(seq![TokM::Piece(s)]),
        walk(seq![TokM::Piece(s)], rec, locals) == (s, true),
{
    crate::grammar::lemma_plain_pattern(s);
    assert(all_pieces(seq![TokM::Piece(s)]));
    lemma_literal_output(seq![TokM::Piece(s)], rec, locals);
    assert(seq![TokM::Piece(s)].skip(1) =~= Seq::<TokM>::empty());
    assert(seq![TokM::Piece(s)][0] == TokM::Piece(s));
    assert(pieces_text(seq![TokM::Piece(s)]) == s + pieces_text(Seq::<TokM>::empty()));
    assert(s + Seq::<char>::empty() =~= s);
}

/// Law (empty pattern): the empty pattern parses to no tokens, and the
/// empty walk writes nothing and succeeds, for every record.
pub proof fn lemma_empty_pattern(rec: Record, locals: Seq<Seq<char>>)
    ensures
        parse_m(Seq::<char>::empty()) == Option::Some(Seq::<TokM>::empty()),
        walk(Seq::<TokM>::empty(), rec, locals) == (Seq::<char>::empty(), true),
{
}

} // verus!