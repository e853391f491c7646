//! The value-formatting engine: a character sink with bounded capacity, a
//! `Formatter` that applies fill/align/width/precision rules, and the
//! `Format` capability implemented for booleans, integers and strings.

use vstd::prelude::*;
use vstd::seq_lib::*;
use vstd::string::StrSliceExecFns;
use vstd::string::StringExecFns;

verus! {

/// Relies on std's `String::push`: appends exactly the given character.
pub assume_specification[ std::string::String::push ](s: &mut std::string::String, ch: char)
    ensures
        final(s)@ == old(s)@.push(ch),
;

/// A rendering failure: either the sink ran out of room, or a named
/// attribute was not found on the record being rendered.
#[derive(Debug, Clone, Copy, PartialEq, Eq, Structural)]
pub enum Error {
    Io,
    MetaNotFound,
}

/// How a value is aligned inside its padded field.
#[derive(Debug, Clone, Copy, PartialEq, Eq, Structural)]
pub enum Alignment {
    AlignLeft,
    AlignRight,
    AlignCenter,
    AlignUnknown,
}

/// Flag bit: emit a `+` before non-negative numbers.
pub const FLAG_SIGN_PLUS: u32 = 1;

/// Flag bit: emit the base prefix (`0x`, `0o`, `0b`) before digits.
pub const FLAG_ALTERNATE: u32 = 2;

/// Flag bit: pad numbers with zeroes between the sign and the digits.
pub const FLAG_ZERO_PAD: u32 = 4;

/// Specification for the formatting of one value: the fill character, the
/// alignment, packed flags, an optional maximum precision, the minimum
/// width, and an optional type letter selecting a numeric base.
#[derive(Debug, Clone, Copy, PartialEq, Eq, Structural)]
pub struct FormatSpec {
    pub fill: char,
    pub align: Alignment,
    pub flags: u32,
    pub precision: Option<usize>,
    pub width: usize,
    pub ty: Option<char>,
}

/// The default spec: space fill, unknown alignment, no flags, no
/// precision, zero width, no type letter.
pub open spec fn default_format_spec() -> FormatSpec {
    FormatSpec {
        fill: ' ',
        align: Alignment::AlignUnknown,
        flags: 0,
        precision: Option::None,
        width: 0,
        ty: Option::None,
    }
}

impl Default for FormatSpec {
    fn default() -> (r: FormatSpec)
        ensures
            r == default_format_spec(),
    {
        FormatSpec {
            fill: ' ',
            align: Alignment::AlignUnknown,
            flags: 0,
            precision: None,
            width: 0,
            ty: None,
        }
    }
}

pub open spec fn spec_sign_plus(fs: FormatSpec) -> bool {
    fs.flags % 2 == 1
}

pub open spec fn spec_alternate(fs: FormatSpec) -> bool {
    (fs.flags / 2) % 2 == 1
}

pub open spec fn spec_zero_pad(fs: FormatSpec) -> bool {
    (fs.flags / 4) % 2 == 1
}

/// `a - b`, floored at zero.
pub open spec fn sat_sub(a: int, b: int) -> nat {
    if a >= b {
        (a - b) as nat
    } else {
        0
    }
}

/// `n` copies of the character `c`.
pub open spec fn repeat_char(c: char, n: nat) -> Seq<char> {
    Seq::new(n, |i: int| c)
}

/// An unknown alignment resolves to a type-dependent default.
pub open spec fn resolve_align(a: Alignment, default: Alignment) -> Alignment {
    if a is AlignUnknown {
        default
    } else {
        a
    }
}

/// How many fill characters go to the left and to the right of a unit
/// padded by `pad` characters in total; for centering the extra one goes
/// to the right.
pub open spec fn pad_split(pad: nat, a: Alignment) -> (nat, nat) {
    match a {
        Alignment::AlignLeft => (0, pad),
        Alignment::AlignCenter => ((pad / 2) as nat, (pad - pad / 2) as nat),
        _ => (pad, 0),
    }
}

/// The unit `core` surrounded by `pad` copies of `fill`, split by `align`.
pub open spec fn padded(core: Seq<char>, pad: nat, fill: char, align: Alignment) -> Seq<char> {
    repeat_char(fill, pad_split(pad, align).0) + core + repeat_char(fill, pad_split(pad, align).1)
}

/// Precision truncates a string to at most that many characters.
pub open spec fn truncated(data: Seq<char>, precision: Option<usize>) -> Seq<char> {
    match precision {
        Option::Some(p) => if (p as int) < data.len() {
            data.take(p as int)
        } else {
            data
        },
        Option::None => data,
    }
}

/// What writing the string `data` under `fs` produces: truncate to the
/// precision, then pad to the width, defaulting the alignment to the left.
pub open spec fn spec_render_str(data: Seq<char>, fs: FormatSpec) -> Seq<char> {
    let d = truncated(data, fs.precision);
    let pad = sat_sub(fs.width as int, d.len() as int);
    padded(d, pad, fs.fill, resolve_align(fs.align, Alignment::AlignLeft))
}

/// A character sink with an optional room limit. A write appends as many
/// characters as still fit; one that does not fit entirely also exhausts
/// the room and fails. Bytes already written are never rolled back.
#[derive(Debug)]
pub struct Sink {
    pub buf: String,
    pub rem: Option<usize>,
}

impl Sink {
    /// The characters written so far.
    pub open spec fn text(self) -> Seq<char> {
        self.buf@
    }

    /// Whether `n` more characters fit entirely.
    pub open spec fn accepts(self, n: nat) -> bool {
        match self.rem {
            Option::None => true,
            Option::Some(r) => n <= r,
        }
    }

    /// An unbounded sink, starting empty.
    pub fn new() -> (r: Sink)
        ensures
            r.text() == Seq::<char>::empty(),
            r.rem == Option::<usize>::None,
    {
        Sink { buf: String::new(), rem: None }
    }

    /// A sink with room for exactly `cap` characters, starting empty.
    pub fn with_capacity(cap: usize) -> (r: Sink)
        ensures
            r.text() == Seq::<char>::empty(),
            r.rem == Option::Some(cap),
    {
        Sink { buf: String::new(), rem: Some(cap) }
    }

    /// The written text, for reading the sink out.
    pub fn as_str(&self) -> (r: &str)
        ensures
            r@ == self.text(),
    {
        self.buf.as_str()
    }

    /// Appends what fits of `data`; fails if not all of it fit.
    pub fn write(&mut self, data: &str) -> (r: Result<(), Error>)
        ensures
            wrote(*old(self), *final(self), data@),
            (r is Ok) == old(self).accepts(data@.len()),
            r is Err ==> r == Result::<(), Error>::Err(Error::Io),
    {
        match self.rem {
            None => {
                self.buf.append(data);
                Ok(())
            },
            Some(room) => {
                let n = data.unicode_len();
                if n <= room {
                    self.buf.append(data);
                    self.rem = Some(room - n);
                    Ok(())
                } else {
                    let part = data.substring_char(0, room);
                    self.buf.append(part);
                    self.rem = Some(0);
                    Err(Error::Io)
                }
            },
        }
    }

    /// Appends one character if it fits; fails otherwise.
    pub fn write_char(&mut self, c: char) -> (r: Result<(), Error>)
        ensures
            wrote(*old(self), *final(self), seq![c]),
            (r is Ok) == old(self).accepts(1),
            r is Err ==> r == Result::<(), Error>::Err(Error::Io),
    {
        match self.rem {
            None => {
                self.buf.push(c);
                proof {
                    assert(self.text() =~= old(self).text() + seq![c]);
                }
                Ok(())
            },
            Some(room) => {
                if room >= 1 {
                    self.buf.push(c);
                    self.rem = Some(room - 1);
                    proof {
                        assert(self.text() =~= old(self).text() + seq![c]);
                    }
                    Ok(())
                } else {
                    self.rem = Some(0);
                    proof {
                        assert(seq![c].take(0) =~= self.text().skip(self.text().len() as int));
                        assert(self.text() =~= old(self).text() + seq![c].take(0));
                    }
                    Err(Error::Io)
                }
            },
        }
    }
}

/// How a sink changes when `data` is written to it: all of it when it
/// fits, else the prefix that fits, with the room then exhausted.
pub open spec fn wrote(pre: Sink, post: Sink, data: Seq<char>) -> bool {
    if pre.accepts(data.len()) {
        &&& post.text() == pre.text() + data
        &&& post.rem == match pre.rem {
            Option::None => Option::<usize>::None,
            Option::Some(r) => Option::Some((r - data.len()) as usize),
        }
    } else {
        &&& post.text() == pre.text() + data.take(pre.rem.unwrap() as int)
        &&& post.rem == Option::Some(0usize)
    }
}

/// Two successive writes act as one write of the concatenation, as long
/// as the first one fit.
pub proof fn lemma_wrote_trans(a: Sink, b: Sink, c: Sink, d1: Seq<char>, d2: Seq<char>)
    requires
        wrote(a, b, d1),
        wrote(b, c, d2),
        a.accepts(d1.len()),
    ensures
        wrote(a, c, d1 + d2),
        b.accepts(d2.len()) == a.accepts(d1.len() + d2.len()),
{
    if b.accepts(d2.len()) {
        assert(c.text() =~= a.text() + (d1 + d2));
    } else {
        let r = b.rem.unwrap() as int;
        assert((d1 + d2).take(d1.len() + r) =~= d1 + d2.take(r));
        assert(c.text() =~= a.text() + (d1 + d2).take(a.rem.unwrap() as int));
    }
}

/// A write that did not fit reports the same final state for any longer
/// intended output: the sink holds the prefix that fit, and nothing more
/// would have been written.
pub proof fn lemma_wrote_fail(a: Sink, b: Sink, part: Seq<char>, full: Seq<char>)
    requires
        wrote(a, b, part),
        !a.accepts(part.len()),
        part.is_prefix_of(full),
    ensures
        wrote(a, b, full),
        !a.accepts(full.len()),
{
    let r = a.rem.unwrap() as int;
    assert(full.take(r) =~= part.take(r));
}

/// Where formatted text goes and how it is to be formatted: a sink plus
/// one format spec, handed to every `Format` implementation.
#[derive(Debug)]
pub struct Formatter {
    pub sink: Sink,
    pub fspec: FormatSpec,
}

impl Formatter {
    pub fn new(wr: Sink, fspec: FormatSpec) -> (r: Formatter)
        ensures
            r.sink == wr,
            r.fspec == fspec,
    {
        Formatter { sink: wr, fspec: fspec }
    }

    /// Gives the sink back once formatting is over.
    pub fn into_sink(self) -> (r: Sink)
        ensures
            r == self.sink,
    {
        self.sink
    }

    pub fn fill(&self) -> (r: char)
        ensures
            r == self.fspec.fill,
    {
        self.fspec.fill
    }

    pub fn align(&self) -> (r: Alignment)
        ensures
            r == self.fspec.align,
    {
        self.fspec.align
    }

    pub fn width(&self) -> (r: usize)
        ensures
            r == self.fspec.width,
    {
        self.fspec.width
    }

    pub fn precision(&self) -> (r: Option<usize>)
        ensures
            r == self.fspec.precision,
    {
        self.fspec.precision
    }

    pub fn ty(&self) -> (r: Option<char>)
        ensures
            r == self.fspec.ty,
    {
        self.fspec.ty
    }

    pub fn sign_plus(&self) -> (r: bool)
        ensures
            r == spec_sign_plus(self.fspec),
    {
        let fl = self.fspec.flags;
        proof {
            assert((fl & 1u32 != 0) == (fl % 2 == 1)) by (bit_vector);
        }
        fl & FLAG_SIGN_PLUS != 0
    }

    pub fn alternate(&self) -> (r: bool)
        ensures
            r == spec_alternate(self.fspec),
    {
        let fl = self.fspec.flags;
        proof {
            assert((fl & 2u32 != 0) == ((fl / 2) % 2 == 1)) by (bit_vector);
        }
        fl & FLAG_ALTERNATE != 0
    }

    pub fn sign_aware_zero_pad(&self) -> (r: bool)
        ensures
            r == spec_zero_pad(self.fspec),
    {
        let fl = self.fspec.flags;
        proof {
            assert((fl & 4u32 != 0) == ((fl / 4) % 2 == 1)) by (bit_vector);
        }
        fl & FLAG_ZERO_PAD != 0
    }

    /// Writes `data` through to the sink with no formatting applied.
    pub fn write_all(&mut self, data: &str) -> (r: Result<(), Error>)
        ensures
            final (self).fspec == old(self).fspec,
            wrote(old(self).sink, final (self).sink, data@),
            (r is Ok) == old(self).sink.accepts(data@.len()),
            r is Err ==> r == Result::<(), Error>::Err(Error::Io),
    {
        self.sink.write(data)
    }

    /// Writes `n` copies of `fill`.
    fn write_fill(&mut self, n: usize, fill: char) -> (r: Result<(), Error>)
        ensures
            final (self).fspec == old(self).fspec,
            wrote(old(self).sink, final (self).sink, repeat_char(fill, n as nat)),
            (r is Ok) == old(self).sink.accepts(n as nat),
            r is Err ==> r == Result::<(), Error>::Err(Error::Io),
    {
        let mut i: usize = 0;
        while i < n
            invariant
                i <= n,
                self.fspec == old(self).fspec,
                wrote(old(self).sink, self.sink, repeat_char(fill, i as nat)),
                old(self).sink.accepts(i as nat),
            decreases n - i,
        {
            let ghost mid = self.sink;
            let res = self.sink.write_char(fill);
            proof {
                lemma_wrote_trans(old(self).sink, mid, self.sink, repeat_char(fill, i as nat), seq![fill]);
                assert(repeat_char(fill, i as nat) + seq![fill] =~= repeat_char(fill, (i + 1) as nat));
            }
            if res.is_err() {
                proof {
                    assert(repeat_char(fill, (i + 1) as nat).is_prefix_of(repeat_char(fill, n as nat)));
                    lemma_wrote_fail(
                        old(self).sink,
                        self.sink,
                        repeat_char(fill, (i + 1) as nat),
                        repeat_char(fill, n as nat),
                    );
                }
                return Err(Error::Io);
            }
            i = i + 1;
        }
        Ok(())
    }

    /// Writes `core` surrounded by `pad` fill characters, split according
    /// to the spec's alignment, which defaults to `align` when unknown.
    fn with_pad(&mut self, pad: usize, fill: char, align: Alignment, core: &str) -> (r: Result<
        (),
        Error,
    >)
        ensures
            final (self).fspec == old(self).fspec,
            wrote(
                old(self).sink,
                final (self).sink,
                padded(core@, pad as nat, fill, resolve_align(old(self).fspec.align, align)),
            ),
            (r is Ok) == old(self).sink.accepts(
                padded(core@, pad as nat, fill, resolve_align(old(self).fspec.align, align)).len(),
            ),
            r is Err ==> r == Result::<(), Error>::Err(Error::Io),
    {
        let a = if self.fspec.align == Alignment::AlignUnknown {
            align
        } else {
            self.fspec.align
        };
        let ghost resolved = resolve_align(self.fspec.align, align);
        let lpad: usize = match a {
            Alignment::AlignLeft => 0,
            Alignment::AlignCenter => pad / 2,
            _ => pad,
        };
        let rpad: usize = match a {
            Alignment::AlignLeft => pad,
            Alignment::AlignCenter => pad - pad / 2,
            _ => 0,
        };
        let ghost full = padded(core@, pad as nat, fill, resolved);
        proof {
            assert(lpad as nat == pad_split(pad as nat, resolved).0);
            assert(rpad as nat == pad_split(pad as nat, resolved).1);
        }
        let r1 = self.write_fill(lpad, fill);
        if r1.is_err() {
            proof {
                assert(repeat_char(fill, lpad as nat).is_prefix_of(full));
                lemma_wrote_fail(old(self).sink, self.sink, repeat_char(fill, lpad as nat), full);
            }
            return Err(Error::Io);
        }
        let ghost s1 = self.sink;
        let r2 = self.sink.write(core);
        proof {
            lemma_wrote_trans(old(self).sink, s1, self.sink, repeat_char(fill, lpad as nat), core@);
        }
        if r2.is_err() {
            proof {
                assert((repeat_char(fill, lpad as nat) + core@).is_prefix_of(full));
                lemma_wrote_fail(
                    old(self).sink,
                    self.sink,
                    repeat_char(fill, lpad as nat) + core@,
                    full,
                );
            }
            return Err(Error::Io);
        }
        let ghost s2 = self.sink;
        let r3 = self.write_fill(rpad, fill);
        proof {
            lemma_wrote_trans(
                old(self).sink,
                s2,
                self.sink,
                repeat_char(fill, lpad as nat) + core@,
                repeat_char(fill, rpad as nat),
            );
            assert((repeat_char(fill, lpad as nat) + core@) + repeat_char(fill, rpad as nat)
                =~= full);
        }
        if r3.is_err() {
            return Err(Error::Io);
        }
        Ok(())
    }

    /// Writes a string under the spec: precision truncates it to at most
    /// that many characters, then it is padded to the width, aligned to
    /// the left unless the spec says otherwise.
    pub fn write_str(&mut self, data: &str) -> (r: Result<(), Error>)
        ensures
            final (self).fspec == old(self).fspec,
            wrote(old(self).sink, final (self).sink, spec_render_str(data@, old(self).fspec)),
            (r is Ok) == old(self).sink.accepts(spec_render_str(data@, old(self).fspec).len()),
            r is Err ==> r == Result::<(), Error>::Err(Error::Io),
    {
        let prec = self.precision();
        let d: &str = match prec {
            Some(p) => {
                let n = data.unicode_len();
                if p < n {
                    data.substring_char(0, p)
                } else {
                    data
                }
            },
            None => data,
        };
        proof {
            assert(d@ =~= truncated(data@, self.fspec.precision));
        }
        let n2 = d.unicode_len();
        let w = self.width();
        let pad: usize = if w > n2 {
            w - n2
        } else {
            0
        };
        self.with_pad(pad, self.fspec.fill, Alignment::AlignLeft, d)
    }
}

/// The digit character for a value below sixteen.
pub open spec fn digit_char(d: nat, upper: bool) -> char {
    if d == 0 {
        '0'
    } else if d == 1 {
        '1'
    } else if d == 2 {
        '2'
    } else if d == 3 {
        '3'
    } else if d == 4 {
        '4'
    } else if d == 5 {
        '5'
    } else if d == 6 {
        '6'
    } else if d == 7 {
        '7'
    } else if d == 8 {
        '8'
    } else if d == 9 {
        '9'
    } else if d == 10 {
        if upper {
            'A'
        } else {
            'a'
        }
    } else if d == 11 {
        if upper {
            'B'
        } else {
            'b'
        }
    } else if d == 12 {
        if upper {
            'C'
        } else {
            'c'
        }
    } else if d == 13 {
        if upper {
            'D'
        } else {
            'd'
        }
    } else if d == 14 {
        if upper {
            'E'
        } else {
            'e'
        }
    } else {
        if upper {
            'F'
        } else {
            'f'
        }
    }
}

/// The digits of `n` in the given base, most significant first.
pub open spec fn spec_digits(n: nat, base: nat, upper: bool) -> Seq<char>
    recommends
        2 <= base <= 16,
    decreases n,
    when 2 <= base
    via spec_digits_decreases
{
    if n < base {
        seq![digit_char(n, upper)]
    } else {
        spec_digits(n / base, base, upper).push(digit_char(n % base, upper))
    }
}

#[via_fn]
proof fn spec_digits_decreases(n: nat, base: nat, upper: bool) {
    if n >= base {
        assert(n / base < n) by (nonlinear_arith)
            requires
                n >= base,
                base >= 2,
        ;
    }
}

/// The numeric base selected by the spec's type letter.
pub open spec fn ty_base(tyv: Option<char>) -> nat {
    match tyv {
        Option::Some(c) => if c == 'x' || c == 'X' {
            16
        } else if c == 'o' {
            8
        } else if c == 'b' {
            2
        } else {
            10
        },
        Option::None => 10,
    }
}

/// The base prefix emitted under the alternate flag.
pub open spec fn ty_prefix(tyv: Option<char>) -> Seq<char> {
    match tyv {
        Option::Some(c) => if c == 'x' || c == 'X' {
            seq!['0', 'x']
        } else if c == 'o' {
            seq!['0', 'o']
        } else if c == 'b' {
            seq!['0', 'b']
        } else {
            Seq::empty()
        },
        Option::None => Seq::empty(),
    }
}

/// Whether digits above nine render as capital letters.
pub open spec fn ty_upper(tyv: Option<char>) -> bool {
    tyv == Option::Some('X')
}

/// The magnitude of an integer.
pub open spec fn spec_abs(v: int) -> nat {
    if v < 0 {
        (-v) as nat
    } else {
        v as nat
    }
}

/// The sign characters emitted before a number: `-` when negative, `+`
/// when the sign flag is set, nothing otherwise.
pub open spec fn spec_sign(v: int, fs: FormatSpec) -> Seq<char> {
    if v < 0 {
        seq!['-']
    } else if spec_sign_plus(fs) {
        seq!['+']
    } else {
        Seq::empty()
    }
}

/// What rendering the integer `v` under `fs` produces: sign, then prefix
/// if the alternate flag is set, then the digits padded to the width with
/// the fill character (`0` under the zero-pad flag), aligned to the right
/// unless the spec says otherwise.
pub open spec fn spec_render_int(v: int, fs: FormatSpec) -> Seq<char> {
    let ds = spec_digits(spec_abs(v), ty_base(fs.ty), ty_upper(fs.ty));
    let sign = spec_sign(v, fs);
    let pfx = if spec_alternate(fs) {
        ty_prefix(fs.ty)
    } else {
        Seq::empty()
    };
    let pad = sat_sub(
        sat_sub(sat_sub(fs.width as int, ds.len() as int) as int, sign.len() as int) as int,
        pfx.len() as int,
    );
    let fill = if spec_zero_pad(fs) {
        '0'
    } else {
        fs.fill
    };
    sign + pfx + padded(ds, pad, fill, resolve_align(fs.align, Alignment::AlignRight))
}

fn digit_char_exec(d: u64, upper: bool) -> (c: char)
    requires
        d < 16,
    ensures
        c == digit_char(d as nat, upper),
{
    if d == 0 {
        '0'
    } else if d == 1 {
        '1'
    } else if d == 2 {
        '2'
    } else if d == 3 {
        '3'
    } else if d == 4 {
        '4'
    } else if d == 5 {
        '5'
    } else if d == 6 {
        '6'
    } else if d == 7 {
        '7'
    } else if d == 8 {
        '8'
    } else if d == 9 {
        '9'
    } else if d == 10 {
        if upper {
            'A'
        } else {
            'a'
        }
    } else if d == 11 {
        if upper {
            'B'
        } else {
            'b'
        }
    } else if d == 12 {
        if upper {
            'C'
        } else {
            'c'
        }
    } else if d == 13 {
        if upper {
            'D'
        } else {
            'd'
        }
    } else if d == 14 {
        if upper {
            'E'
        } else {
            'e'
        }
    } else {
        if upper {
            'F'
        } else {
            'f'
        }
    }
}

/// Renders the digits of `n` in `base` into a fresh string, most
/// significant digit first.
fn digits_exec(n: u64, base: u64, upper: bool) -> (s: String)
    requires
        2 <= base <= 16,
    ensures
        s@ == spec_digits(n as nat, base as nat, upper),
    decreases n,
{
    if n < base {
        let mut s = String::new();
        s.push(digit_char_exec(n, upper));
        proof {
            assert(s@ =~= seq![digit_char(n as nat, upper)]);
        }
        s
    } else {
        proof {
            assert(n / base < n) by (nonlinear_arith)
                requires
                    n >= base,
                    base >= 2,
            ;
        }
        let mut s = digits_exec(n / base, base, upper);
        s.push(digit_char_exec(n % base, upper));
        s
    }
}

fn ty_params(tyv: Option<char>) -> (r: (u64, bool))
    ensures
        r.0 as nat == ty_base(tyv),
        2 <= r.0 <= 16,
        r.1 == ty_upper(tyv),
{
    match tyv {
        Some(c) => {
            if c == 'x' {
                (16, false)
            } else if c == 'X' {
                (16, true)
            } else if c == 'o' {
                (8, false)
            } else if c == 'b' {
                (2, false)
            } else {
                (10, false)
            }
        },
        None => (10, false),
    }
}

fn ty_prefix_exec(tyv: Option<char>) -> (r: &'static str)
    ensures
        r@ == ty_prefix(tyv),
{
    match tyv {
        Some(c) => {
            if c == 'x' || c == 'X' {
                proof {
                    reveal_strlit("0x");
                    assert("0x"@ =~= ty_prefix(tyv));
                }
                "0x"
            } else if c == 'o' {
                proof {
                    reveal_strlit("0o");
                    assert("0o"@ =~= ty_prefix(tyv));
                }
                "0o"
            } else if c == 'b' {
                proof {
                    reveal_strlit("0b");
                    assert("0b"@ =~= ty_prefix(tyv));
                }
                "0b"
            } else {
                proof {
                    reveal_strlit("");
                    assert(""@ =~= ty_prefix(tyv));
                }
                ""
            }
        },
        None => {
            proof {
                reveal_strlit("");
                assert(""@ =~= ty_prefix(tyv));
            }
            ""
        },
    }
}

/// A formattable value: every attribute type that can be printed through
/// a layout implements this.
pub trait Format {
    /// What this value renders to under the given spec.
    spec fn rendering(&self, fs: FormatSpec) -> Seq<char>;

    /// Renders the value into the formatter's sink under the formatter's
    /// spec; on a sink failure, what fit stays written.
    fn format(&self, f: &mut Formatter) -> (r: Result<(), Error>)
        ensures
            final (f).fspec == old(f).fspec,
            wrote(old(f).sink, final (f).sink, self.rendering(old(f).fspec)),
            (r is Ok) == old(f).sink.accepts(self.rendering(old(f).fspec).len()),
            r is Err ==> r == Result::<(), Error>::Err(Error::Io),
    ;
}

impl Format for bool {
    open spec fn rendering(&self, fs: FormatSpec) -> Seq<char> {
        spec_render_str(spec_bool_text(*self), fs)
    }

    fn format(&self, f: &mut Formatter) -> (r: Result<(), Error>) {
        if *self {
            proof {
                reveal_strlit("true");
                assert("true"@ =~= spec_bool_text(true));
            }
            f.write_str("true")
        } else {
            proof {
                reveal_strlit("false");
                assert("false"@ =~= spec_bool_text(false));
            }
            f.write_str("false")
        }
    }
}

/// The text of a boolean.
pub open spec fn spec_bool_text(b: bool) -> Seq<char> {
    if b {
        seq!['t', 'r', 'u', 'e']
    } else {
        seq!['f', 'a', 'l', 's', 'e']
    }
}

impl Format for i64 {
    open spec fn rendering(&self, fs: FormatSpec) -> Seq<char> {
        spec_render_int(*self as int, fs)
    }

    #[verifier::rlimit(60)]
    fn format(&self, f: &mut Formatter) -> (r: Result<(), Error>) {
        let ghost f0 = *f;
        let ghost full = spec_render_int(*self as int, f0.fspec);
        let v = *self;
        let (base, upper) = ty_params(f.ty());
        let prefix = ty_prefix_exec(f.ty());
        let mag: u64 = if v == i64::MIN {
            9223372036854775808u64
        } else if v < 0 {
            (-v) as u64
        } else {
            v as u64
        };
        let ds = digits_exec(mag, base, upper);
        let dn = ds.as_str().unicode_len();
        let w = f.width();
        let mut pad: usize = if w > dn {
            w - dn
        } else {
            0
        };
        let ghost sign = spec_sign(v as int, f0.fspec);
        let ghost pfx = (if spec_alternate(f0.fspec) {
            ty_prefix(f0.fspec.ty)
        } else {
            Seq::<char>::empty()
        });
        proof {
            assert(full.subrange(0, sign.len() as int) =~= sign);
            assert(sign.is_prefix_of(full));
        }
        if v < 0 {
            proof {
                reveal_strlit("-");
                assert("-"@ =~= sign);
            }
            let r1 = f.write_all("-");
            if r1.is_err() {
                proof {
                    lemma_wrote_fail(f0.sink, f.sink, sign, full);
                }
                return Err(Error::Io);
            }
            pad = pad.saturating_sub(1);
        } else if f.sign_plus() {
            proof {
                reveal_strlit("+");
                assert("+"@ =~= sign);
            }
            let r1 = f.write_all("+");
            if r1.is_err() {
                proof {
                    lemma_wrote_fail(f0.sink, f.sink, sign, full);
                }
                return Err(Error::Io);
            }
            pad = pad.saturating_sub(1);
        } else {
            proof {
                assert(wrote(f0.sink, f.sink, sign));
            }
        }
        if f.alternate() {
            let ghost s1 = f.sink;
            let r2 = f.write_all(prefix);
            proof {
                lemma_wrote_trans(f0.sink, s1, f.sink, sign, pfx);
            }
            if r2.is_err() {
                proof {
                    assert(full.subrange(0, (sign + pfx).len() as int) =~= sign + pfx);
                    assert((sign + pfx).is_prefix_of(full));
                    lemma_wrote_fail(f0.sink, f.sink, sign + pfx, full);
                }
                return Err(Error::Io);
            }
            pad = pad.saturating_sub(prefix.unicode_len());
        } else {
            proof {
                assert(sign + pfx =~= sign);
                assert(wrote(f0.sink, f.sink, sign + pfx));
            }
        }
        let fillc = if f.sign_aware_zero_pad() {
            '0'
        } else {
            f.fill()
        };
        let ghost s2 = f.sink;
        let rr = f.with_pad(pad, fillc, Alignment::AlignRight, ds.as_str());
        proof {
            let core = padded(
                ds@,
                pad as nat,
                fillc,
                resolve_align(f0.fspec.align, Alignment::AlignRight),
            );
            lemma_wrote_trans(f0.sink, s2, f.sink, sign + pfx, core);
            assert((sign + pfx) + core =~= full);
        }
        if rr.is_err() {
            return Err(Error::Io);
        }
        Ok(())
    }
}

impl Format for u64 {
    open spec fn rendering(&self, fs: FormatSpec) -> Seq<char> {
        spec_render_int(*self as int, fs)
    }

    #[verifier::rlimit(60)]
    fn format(&self, f: &mut Formatter) -> (r: Result<(), Error>) {
        let ghost f0 = *f;
        let ghost full = spec_render_int(*self as int, f0.fspec);
        let v = *self;
        let (base, upper) = ty_params(f.ty());
        let prefix = ty_prefix_exec(f.ty());
        let ds = digits_exec(v, base, upper);
        let dn = ds.as_str().unicode_len();
        let w = f.width();
        let mut pad: usize = if w > dn {
            w - dn
        } else {
            0
        };
        let ghost sign = spec_sign(v as int, f0.fspec);
        let ghost pfx = (if spec_alternate(f0.fspec) {
            ty_prefix(f0.fspec.ty)
        } else {
            Seq::<char>::empty()
        });
        proof {
            assert(full.subrange(0, sign.len() as int) =~= sign);
            assert(sign.is_prefix_of(full));
        }
        if f.sign_plus() {
            proof {
                reveal_strlit("+");
                assert("+"@ =~= sign);
            }
            let r1 = f.write_all("+");
            if r1.is_err() {
                proof {
                    lemma_wrote_fail(f0.sink, f.sink, sign, full);
                }
                return Err(Error::Io);
            }
            pad = pad.saturating_sub(1);
        } else {
            proof {
                assert(wrote(f0.sink, f.sink, sign));
            }
        }
        if f.alternate() {
            let ghost s1 = f.sink;
            let r2 = f.write_all(prefix);
            proof {
                lemma_wrote_trans(f0.sink, s1, f.sink, sign, pfx);
            }
            if r2.is_err() {
                proof {
                    assert(full.subrange(0, (sign + pfx).len() as int) =~= sign + pfx);
                    assert((sign + pfx).is_prefix_of(full));
                    lemma_wrote_fail(f0.sink, f.sink, sign + pfx, full);
                }
                return Err(Error::Io);
            }
            pad = pad.saturating_sub(prefix.unicode_len());
        } else {
            proof {
                assert(sign + pfx =~= sign);
                assert(wrote(f0.sink, f.sink, sign + pfx));
            }
        }
        let fillc = if f.sign_aware_zero_pad() {
            '0'
        } else {
            f.fill()
        };
        let ghost s2 = f.sink;
        let rr = f.with_pad(pad, fillc, Alignment::AlignRight, ds.as_str());
        proof {
            let core = padded(
                ds@,
                pad as nat,
                fillc,
                resolve_align(f0.fspec.align, Alignment::AlignRight),
            );
            lemma_wrote_trans(f0.sink, s2, f.sink, sign + pfx, core);
            assert((sign + pfx) + core =~= full);
        }
        if rr.is_err() {
            return Err(Error::Io);
        }
        Ok(())
    }
}

impl Format for i8 {
    open spec fn rendering(&self, fs: FormatSpec) -> Seq<char> {
        spec_render_int(*self as int, fs)
    }

    fn format(&self, f: &mut Formatter) -> (r: Result<(), Error>) {
        (*self as i64).format(f)
    }
}

impl Format for i16 {
    open spec fn rendering(&self, fs: FormatSpec) -> Seq<char> {
        spec_render_int(*self as int, fs)
    }

    fn format(&self, f: &mut Formatter) -> (r: Result<(), Error>) {
        (*self as i64).format(f)
    }
}

impl Format for i32 {
    open spec fn rendering(&self, fs: FormatSpec) -> Seq<char> {
        spec_render_int(*self as int, fs)
    }

    fn format(&self, f: &mut Formatter) -> (r: Result<(), Error>) {
        (*self as i64).format(f)
    }
}

impl Format for isize {
    open spec fn rendering(&self, fs: FormatSpec) -> Seq<char> {
        spec_render_int(*self as int, fs)
    }

    fn format(&self, f: &mut Formatter) -> (r: Result<(), Error>) {
        (*self as i64).format(f)
    }
}

impl Format for u8 {
    open spec fn rendering(&self, fs: FormatSpec) -> Seq<char> {
        spec_render_int(*self as int, fs)
    }

    fn format(&self, f: &mut Formatter) -> (r: Result<(), Error>) {
        (*self as u64).format(f)
    }
}

impl Format for u16 {
    open spec fn rendering(&self, fs: FormatSpec) -> Seq<char> {
        spec_render_int(*self as int, fs)
    }

    fn format(&self, f: &mut Formatter) -> (r: Result<(), Error>) {
        (*self as u64).format(f)
    }
}

impl Format for u32 {
    open spec fn rendering(&self, fs: FormatSpec) -> Seq<char> {
        spec_render_int(*self as int, fs)
    }

    fn format(&self, f: &mut Formatter) -> (r: Result<(), Error>) {
        (*self as u64).format(f)
    }
}

impl Format for usize {
    open spec fn rendering(&self, fs: FormatSpec) -> Seq<char> {
        spec_render_int(*self as int, fs)
    }

    fn format(&self, f: &mut Formatter) -> (r: Result<(), Error>) {
        (*self as u64).format(f)
    }
}

/// Renders one value straight into a sink under the given spec.
pub fn fmt_value<T: Format + ?Sized>(v: &T, wr: &mut Sink, fs: FormatSpec) -> (r: Result<
    (),
    Error,
>)
    ensures
        wrote(*old(wr), *final (wr), v.rendering(fs)),
        (r is Ok) == old(wr).accepts(v.rendering(fs).len()),
        r is Err ==> r == Result::<(), Error>::Err(Error::Io),
{
    let mut s = Sink::new();
    std::mem::swap(wr, &mut s);
    let mut f = Formatter::new(s, fs);
    let res = v.format(&mut f);
    let mut s2 = f.into_sink();
    std::mem::swap(wr, &mut s2);
    res
}

impl Format for str {
    open spec fn rendering(&self, fs: FormatSpec) -> Seq<char> {
        spec_render_str(self@, fs)
    }

    fn format(&self, f: &mut Formatter) -> (r: Result<(), Error>) {
        f.write_str(self)
    }
}

impl Format for String {
    open spec fn rendering(&self, fs: FormatSpec) -> Seq<char> {
        spec_render_str(self@, fs)
    }

    fn format(&self, f: &mut Formatter) -> (r: Result<(), Error>) {
        f.write_str(self.as_str())
    }
}

} // verus!
