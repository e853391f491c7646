//! The pattern grammar: compiles a human-written pattern string into an
//! ordered token sequence. `{{` and `}}` escape literal braces, a
//! placeholder is `{keyword[:spec]}`, and any keyword that is not
//! reserved refers to a named attribute of the record. The `timestamp`
//! placeholder accepts a nested `{...}` sub-pattern with the same brace
//! doubling. A malformed pattern fails with a `ParseError` carrying the
//! position it was detected at.

use vstd::prelude::*;

use crate::fmt::Alignment;

verus! {

/// Whether a severity placeholder renders the number or its display form.
#[derive(Debug, Clone, Copy, PartialEq, Eq, Structural)]
pub enum SeverityType {
    Num,
    String,
}

/// Whether a process placeholder refers to the id or the name.
#[derive(Debug, Clone, Copy, PartialEq, Eq, Structural)]
pub enum ProcessType {
    Id,
    Name,
}

/// The zone a timestamp is converted to before rendering.
#[derive(Debug, Clone, Copy, PartialEq, Eq, Structural)]
pub enum Timezone {
    Utc,
    Local,
}

/// The formatting spec a placeholder may carry: fill character,
/// alignment, flags, optional precision and width. Patterns carry no
/// type letter, so there is none here.
#[derive(Debug, Clone, Copy, PartialEq, Eq, Structural)]
pub struct FormatSpec {
    pub fill: char,
    pub align: Alignment,
    pub flags: u32,
    pub precision: Option<usize>,
    pub width: usize,
}

impl FormatSpec {
    /// The same spec in the format engine's form, with no type letter.
    pub fn to_format_spec(&self) -> (r: crate::fmt::FormatSpec)
        ensures
            r == spec_to_fmt(*self),
    {
        crate::fmt::FormatSpec {
            fill: self.fill,
            align: self.align,
            flags: self.flags,
            precision: self.precision,
            width: self.width,
            ty: None,
        }
    }
}

/// A grammar spec carried over into the format engine.
pub open spec fn spec_to_fmt(g: FormatSpec) -> crate::fmt::FormatSpec {
    crate::fmt::FormatSpec {
        fill: g.fill,
        align: g.align,
        flags: g.flags,
        precision: g.precision,
        width: g.width,
        ty: Option::None,
    }
}

/// One parsed unit of a pattern: literal text or a typed placeholder.
#[derive(Debug, Clone)]
pub enum Token {
    /// Literal text copied through verbatim.
    Piece(String),
    /// The record's message, under an optional spec.
    Message(Option<FormatSpec>),
    /// The record's severity, numeric or display form.
    Severity(Option<FormatSpec>, SeverityType),
    /// The record's timestamp under a date pattern and a zone.
    Timestamp(Option<FormatSpec>, String, Timezone),
    /// The record's timestamp as microseconds since the Unix epoch.
    TimestampNum(Option<FormatSpec>),
    /// The line the event was created on.
    Line(Option<FormatSpec>),
    /// The module path the event was created in.
    Module(Option<FormatSpec>),
    /// The process id or name.
    Process(Option<FormatSpec>, ProcessType),
    /// A named attribute of the record.
    Meta(String, Option<FormatSpec>),
    /// Every attribute of the record, as `name: value` joined by `, `.
    MetaList(Option<FormatSpec>),
}

/// The mathematical form of a token: strings become character sequences.
pub enum TokM {
    Piece(Seq<char>),
    Message(Option<FormatSpec>),
    Severity(Option<FormatSpec>, SeverityType),
    Timestamp(Option<FormatSpec>, Seq<char>, Timezone),
    TimestampNum(Option<FormatSpec>),
    Line(Option<FormatSpec>),
    Module(Option<FormatSpec>),
    Process(Option<FormatSpec>, ProcessType),
    Meta(Seq<char>, Option<FormatSpec>),
    MetaList(Option<FormatSpec>),
}

impl View for Token {
    type V = TokM;

    open spec fn view(&self) -> TokM {
        match self {
            Token::Piece(s) => TokM::Piece(s@),
            Token::Message(fs) => TokM::Message(*fs),
            Token::Severity(fs, ty) => TokM::Severity(*fs, *ty),
            Token::Timestamp(fs, p, tz) => TokM::Timestamp(*fs, p@, *tz),
            Token::TimestampNum(fs) => TokM::TimestampNum(*fs),
            Token::Line(fs) => TokM::Line(*fs),
            Token::Module(fs) => TokM::Module(*fs),
            Token::Process(fs, ty) => TokM::Process(*fs, *ty),
            Token::Meta(n, fs) => TokM::Meta(n@, *fs),
            Token::MetaList(fs) => TokM::MetaList(*fs),
        }
    }
}

/// The token sequence a layout holds after construction. It owns its
/// text, exactly like `Token`; the two exist so that the parser's output
/// and a layout's stored form stay distinct types.
#[derive(Debug, Clone)]
pub enum TokenBuf {
    Piece(String),
    Message(Option<FormatSpec>),
    Severity(Option<FormatSpec>, SeverityType),
    Timestamp(Option<FormatSpec>, String, Timezone),
    TimestampNum(Option<FormatSpec>),
    Line(Option<FormatSpec>),
    Module(Option<FormatSpec>),
    Process(Option<FormatSpec>, ProcessType),
    Meta(String, Option<FormatSpec>),
    MetaList(Option<FormatSpec>),
}

impl View for TokenBuf {
    type V = TokM;

    open spec fn view(&self) -> TokM {
        match self {
            TokenBuf::Piece(s) => TokM::Piece(s@),
            TokenBuf::Message(fs) => TokM::Message(*fs),
            TokenBuf::Severity(fs, ty) => TokM::Severity(*fs, *ty),
            TokenBuf::Timestamp(fs, p, tz) => TokM::Timestamp(*fs, p@, *tz),
            TokenBuf::TimestampNum(fs) => TokM::TimestampNum(*fs),
            TokenBuf::Line(fs) => TokM::Line(*fs),
            TokenBuf::Module(fs) => TokM::Module(*fs),
            TokenBuf::Process(fs, ty) => TokM::Process(*fs, *ty),
            TokenBuf::Meta(n, fs) => TokM::Meta(n@, *fs),
            TokenBuf::MetaList(fs) => TokM::MetaList(*fs),
        }
    }
}

impl TokenBuf {
    /// The owned form of a parsed token.
    pub fn from_token(t: Token) -> (r: TokenBuf)
        ensures
            r@ == t@,
    {
        match t {
            Token::Piece(s) => TokenBuf::Piece(s),
            Token::Message(fs) => TokenBuf::Message(fs),
            Token::Severity(fs, ty) => TokenBuf::Severity(fs, ty),
            Token::Timestamp(fs, p, tz) => TokenBuf::Timestamp(fs, p, tz),
            Token::TimestampNum(fs) => TokenBuf::TimestampNum(fs),
            Token::Line(fs) => TokenBuf::Line(fs),
            Token::Module(fs) => TokenBuf::Module(fs),
            Token::Process(fs, ty) => TokenBuf::Process(fs, ty),
            Token::Meta(n, fs) => TokenBuf::Meta(n, fs),
            Token::MetaList(fs) => TokenBuf::MetaList(fs),
        }
    }
}

impl Token {
    /// An exact copy of the token.
    pub fn dup(&self) -> (r: Token)
        ensures
            r@ == self@,
    {
        match self {
            Token::Piece(s) => Token::Piece(s.clone()),
            Token::Message(fs) => Token::Message(*fs),
            Token::Severity(fs, ty) => Token::Severity(*fs, *ty),
            Token::Timestamp(fs, p, tz) => Token::Timestamp(*fs, p.clone(), *tz),
            Token::TimestampNum(fs) => Token::TimestampNum(*fs),
            Token::Line(fs) => Token::Line(*fs),
            Token::Module(fs) => Token::Module(*fs),
            Token::Process(fs, ty) => Token::Process(*fs, *ty),
            Token::Meta(n, fs) => Token::Meta(n.clone(), *fs),
            Token::MetaList(fs) => Token::MetaList(*fs),
        }
    }
}

fn opt_fs_eq(a: &Option<FormatSpec>, b: &Option<FormatSpec>) -> (r: bool)
    ensures
        r == (a == b),
{
    match (a, b) {
        (Some(x), Some(y)) => x == y,
        (None, None) => true,
        _ => false,
    }
}

impl PartialEq for Token {
    fn eq(&self, other: &Token) -> (r: bool) {
        match (self, other) {
            (Token::Piece(a), Token::Piece(b)) => a.eq(b),
            (Token::Message(a), Token::Message(b)) => opt_fs_eq(a, b),
            (Token::Severity(a, x), Token::Severity(b, y)) => opt_fs_eq(a, b) && x == y,
            (Token::Timestamp(a, p, x), Token::Timestamp(b, q, y)) => opt_fs_eq(a, b) && p.eq(q)
                && x == y,
            (Token::TimestampNum(a), Token::TimestampNum(b)) => opt_fs_eq(a, b),
            (Token::Line(a), Token::Line(b)) => opt_fs_eq(a, b),
            (Token::Module(a), Token::Module(b)) => opt_fs_eq(a, b),
            (Token::Process(a, x), Token::Process(b, y)) => opt_fs_eq(a, b) && x == y,
            (Token::Meta(m, a), Token::Meta(n, b)) => m.eq(n) && opt_fs_eq(a, b),
            (Token::MetaList(a), Token::MetaList(b)) => opt_fs_eq(a, b),
            _ => false,
        }
    }
}

impl vstd::std_specs::cmp::PartialEqSpecImpl for Token {
    open spec fn obeys_eq_spec() -> bool {
        true
    }

    open spec fn eq_spec(&self, other: &Token) -> bool {
        self@ == other@
    }
}

impl PartialEq for TokenBuf {
    fn eq(&self, other: &TokenBuf) -> (r: bool) {
        match (self, other) {
            (TokenBuf::Piece(a), TokenBuf::Piece(b)) => a.eq(b),
            (TokenBuf::Message(a), TokenBuf::Message(b)) => opt_fs_eq(a, b),
            (TokenBuf::Severity(a, x), TokenBuf::Severity(b, y)) => opt_fs_eq(a, b) && x == y,
            (TokenBuf::Timestamp(a, p, x), TokenBuf::Timestamp(b, q, y)) => opt_fs_eq(a, b)
                && p.eq(q) && x == y,
            (TokenBuf::TimestampNum(a), TokenBuf::TimestampNum(b)) => opt_fs_eq(a, b),
            (TokenBuf::Line(a), TokenBuf::Line(b)) => opt_fs_eq(a, b),
            (TokenBuf::Module(a), TokenBuf::Module(b)) => opt_fs_eq(a, b),
            (TokenBuf::Process(a, x), TokenBuf::Process(b, y)) => opt_fs_eq(a, b) && x == y,
            (TokenBuf::Meta(m, a), TokenBuf::Meta(n, b)) => m.eq(n) && opt_fs_eq(a, b),
            (TokenBuf::MetaList(a), TokenBuf::MetaList(b)) => opt_fs_eq(a, b),
            _ => false,
        }
    }
}

impl vstd::std_specs::cmp::PartialEqSpecImpl for TokenBuf {
    open spec fn obeys_eq_spec() -> bool {
        true
    }

    open spec fn eq_spec(&self, other: &TokenBuf) -> bool {
        self@ == other@
    }
}

/// A malformed pattern, with the position the failure was detected at.
#[derive(Debug, Clone, Copy, PartialEq, Eq, Structural)]
pub struct ParseError {
    pub offset: usize,
}

pub open spec fn is_align_char(c: char) -> bool {
    c == '<' || c == '>' || c == '^'
}

pub open spec fn align_of(c: char) -> Alignment {
    if c == '<' {
        Alignment::AlignLeft
    } else if c == '>' {
        Alignment::AlignRight
    } else {
        Alignment::AlignCenter
    }
}

pub open spec fn is_digit(c: char) -> bool {
    '0' as int <= c as int && c as int <= '9' as int
}

pub open spec fn digit_val(c: char) -> nat {
    (c as int - '0' as int) as nat
}

pub open spec fn is_alpha(c: char) -> bool {
    ('a' as int <= c as int && c as int <= 'z' as int) || ('A' as int <= c as int && c as int
        <= 'Z' as int)
}

pub open spec fn is_alnum(c: char) -> bool {
    is_alpha(c) || is_digit(c)
}

pub open spec fn is_tz_char(c: char) -> bool {
    c == 's' || c == 'l'
}

pub open spec fn tz_of(c: char) -> Timezone {
    if c == 's' {
        Timezone::Utc
    } else {
        Timezone::Local
    }
}

/// The end of the run of literal text starting at `i`: the first
/// position at or after `i` holding a brace, or the end of the pattern.
pub open spec fn text_end(s: Seq<char>, i: int) -> int
    recommends
        0 <= i <= s.len(),
    decreases s.len() - i,
    when 0 <= i <= s.len()
{
    if i < s.len() && s[i] != '{' && s[i] != '}' {
        text_end(s, i + 1)
    } else {
        i
    }
}

/// The end of the identifier run starting at `i`.
pub open spec fn ident_end(s: Seq<char>, i: int) -> int
    recommends
        0 <= i <= s.len(),
    decreases s.len() - i,
    when 0 <= i <= s.len()
{
    if i < s.len() && is_alnum(s[i]) {
        ident_end(s, i + 1)
    } else {
        i
    }
}

/// The end of the digit run starting at `i`.
pub open spec fn num_end(s: Seq<char>, i: int) -> int
    recommends
        0 <= i <= s.len(),
    decreases s.len() - i,
    when 0 <= i <= s.len()
{
    if i < s.len() && is_digit(s[i]) {
        num_end(s, i + 1)
    } else {
        i
    }
}

/// The value of the digit run `s[i..e)`.
pub open spec fn num_val(s: Seq<char>, i: int, e: int) -> nat
    recommends
        0 <= i <= e <= s.len(),
    decreases e - i,
    when i <= e
{
    if e <= i {
        0
    } else {
        num_val(s, i, e - 1) * 10 + digit_val(s[e - 1])
    }
}

pub proof fn lemma_text_end(s: Seq<char>, i: int)
    requires
        0 <= i <= s.len(),
    ensures
        i <= text_end(s, i) <= s.len(),
    decreases s.len() - i,
{
    if i < s.len() && s[i] != '{' && s[i] != '}' {
        lemma_text_end(s, i + 1);
    }
}

pub proof fn lemma_ident_end(s: Seq<char>, i: int)
    requires
        0 <= i <= s.len(),
    ensures
        i <= ident_end(s, i) <= s.len(),
    decreases s.len() - i,
{
    if i < s.len() && is_alnum(s[i]) {
        lemma_ident_end(s, i + 1);
    }
}

pub proof fn lemma_num_end(s: Seq<char>, i: int)
    requires
        0 <= i <= s.len(),
    ensures
        i <= num_end(s, i) <= s.len(),
    decreases s.len() - i,
{
    if i < s.len() && is_digit(s[i]) {
        lemma_num_end(s, i + 1);
    }
}

/// A longer digit run never has a smaller value.
pub proof fn lemma_num_val_mono(s: Seq<char>, i: int, e1: int, e2: int)
    requires
        0 <= i <= e1 <= e2 <= s.len(),
    ensures
        num_val(s, i, e1) <= num_val(s, i, e2),
    decreases e2 - e1,
{
    if e1 < e2 {
        lemma_num_val_mono(s, i, e1, e2 - 1);
    }
}

/// The fill and alignment at the head of a spec clause: any character
/// counts as a fill only when an alignment marker follows it; alignment
/// alone is accepted; both default otherwise.
pub open spec fn scan_fill_align(s: Seq<char>, p: int) -> (char, Alignment, int) {
    if p + 1 < s.len() && is_align_char(s[p + 1]) {
        (s[p], align_of(s[p + 1]), p + 2)
    } else if p < s.len() && is_align_char(s[p]) {
        (' ', align_of(s[p]), p + 1)
    } else {
        (' ', Alignment::AlignLeft, p)
    }
}

/// The body of a spec clause: fill, align, width and (where the keyword
/// admits one) precision, every part optional. It fails only when a
/// width or precision does not fit in `usize`.
pub open spec fn scan_spec(s: Seq<char>, p: int, allow_prec: bool) -> Option<(FormatSpec, int)>
    recommends
        0 <= p <= s.len(),
{
    let (fill, align, q) = scan_fill_align(s, p);
    let we = num_end(s, q);
    if num_val(s, q, we) > usize::MAX as nat {
        Option::None
    } else {
        let width = num_val(s, q, we) as usize;
        if allow_prec && we + 1 < s.len() && s[we] == '.' && is_digit(s[we + 1]) {
            let pe = num_end(s, we + 1);
            if num_val(s, we + 1, pe) > usize::MAX as nat {
                Option::None
            } else {
                Option::Some(
                    (
                        FormatSpec {
                            fill: fill,
                            align: align,
                            flags: 0,
                            precision: Option::Some(num_val(s, we + 1, pe) as usize),
                            width: width,
                        },
                        pe,
                    ),
                )
            }
        } else {
            Option::Some(
                (
                    FormatSpec {
                        fill: fill,
                        align: align,
                        flags: 0,
                        precision: Option::None,
                        width: width,
                    },
                    we,
                ),
            )
        }
    }
}

/// The optional severity type letter after a spec clause.
pub open spec fn scan_sevty(s: Seq<char>, q: int) -> (SeverityType, int) {
    if q < s.len() && s[q] == 'd' {
        (SeverityType::Num, q + 1)
    } else if q < s.len() && s[q] == 's' {
        (SeverityType::String, q + 1)
    } else {
        (SeverityType::String, q)
    }
}

/// The optional process type letter after a spec clause.
pub open spec fn scan_procty(s: Seq<char>, q: int) -> (ProcessType, int) {
    if q < s.len() && s[q] == 'd' {
        (ProcessType::Id, q + 1)
    } else if q < s.len() && s[q] == 's' {
        (ProcessType::Name, q + 1)
    } else {
        (ProcessType::Id, q)
    }
}

/// The characters of a timestamp sub-pattern after its opening brace:
/// doubled braces stand for single ones, a lone closing brace ends it,
/// and a lone opening brace is malformed.
pub open spec fn tchars(s: Seq<char>, q: int, acc: Seq<char>) -> Option<(Seq<char>, int)>
    recommends
        0 <= q <= s.len(),
    decreases s.len() - q,
    when 0 <= q <= s.len()
{
    if q >= s.len() {
        Option::None
    } else if s[q] == '}' {
        if q + 1 < s.len() && s[q + 1] == '}' {
            tchars(s, q + 2, acc.push('}'))
        } else {
            Option::Some((acc, q + 1))
        }
    } else if s[q] == '{' {
        if q + 1 < s.len() && s[q + 1] == '{' {
            tchars(s, q + 2, acc.push('{'))
        } else {
            Option::None
        }
    } else {
        tchars(s, q + 1, acc.push(s[q]))
    }
}

/// The default timestamp pattern.
pub open spec fn default_ts_pattern() -> Seq<char> {
    seq!['%', '+']
}

/// An optional timestamp sub-pattern: where none parses, the default
/// pattern is used and no input is consumed.
pub open spec fn scan_strftime_opt(s: Seq<char>, p: int) -> (Seq<char>, int) {
    if p < s.len() && s[p] == '{' {
        match tchars(s, p + 1, Seq::empty()) {
            Option::Some((pat, q)) => (pat, q),
            Option::None => (default_ts_pattern(), p),
        }
    } else {
        (default_ts_pattern(), p)
    }
}

pub open spec fn kw_message() -> Seq<char> {
    seq!['m', 'e', 's', 's', 'a', 'g', 'e']
}

pub open spec fn kw_severity() -> Seq<char> {
    seq!['s', 'e', 'v', 'e', 'r', 'i', 't', 'y']
}

pub open spec fn kw_timestamp() -> Seq<char> {
    seq!['t', 'i', 'm', 'e', 's', 't', 'a', 'm', 'p']
}

pub open spec fn kw_line() -> Seq<char> {
    seq!['l', 'i', 'n', 'e']
}

pub open spec fn kw_module() -> Seq<char> {
    seq!['m', 'o', 'd', 'u', 'l', 'e']
}

pub open spec fn kw_process() -> Seq<char> {
    seq!['p', 'r', 'o', 'c', 'e', 's', 's']
}

/// The token for a bare `{keyword}` placeholder. An unreserved keyword
/// refers to a named attribute.
pub open spec fn bare_token(kw: Seq<char>) -> TokM {
    if kw == kw_message() {
        TokM::Message(Option::None)
    } else if kw == kw_severity() {
        TokM::Severity(Option::None, SeverityType::String)
    } else if kw == kw_timestamp() {
        TokM::Timestamp(Option::None, default_ts_pattern(), Timezone::Utc)
    } else if kw == kw_line() {
        TokM::Line(Option::None)
    } else if kw == kw_module() {
        TokM::Module(Option::None)
    } else if kw == kw_process() {
        TokM::Process(Option::None, ProcessType::Id)
    } else {
        TokM::Meta(kw, Option::None)
    }
}

/// A timestamp clause after `timestamp:`. In order: a bare `d}` renders
/// the numeric form; a spec followed by `d}` likewise; otherwise an
/// optional sub-pattern, an optional spec and a zone letter.
pub open spec fn timestamp_clause(s: Seq<char>, p: int) -> Option<(TokM, int)>
    recommends
        0 <= p <= s.len(),
{
    if p + 1 < s.len() && s[p] == 'd' && s[p + 1] == '}' {
        Option::Some((TokM::TimestampNum(Option::None), p + 2))
    } else {
        match scan_spec(s, p, false) {
            Option::None => Option::None,
            Option::Some((fs, q)) => {
                if q + 1 < s.len() && s[q] == 'd' && s[q + 1] == '}' {
                    Option::Some((TokM::TimestampNum(Option::Some(fs)), q + 2))
                } else {
                    let (pat, q1) = scan_strftime_opt(s, p);
                    if q1 + 1 < s.len() && is_tz_char(s[q1]) && s[q1 + 1] == '}' {
                        Option::Some((TokM::Timestamp(Option::None, pat, tz_of(s[q1])), q1 + 2))
                    } else {
                        match scan_spec(s, q1, true) {
                            Option::None => Option::None,
                            Option::Some((fs2, q2)) => {
                                if q2 + 1 < s.len() && is_tz_char(s[q2]) && s[q2 + 1] == '}' {
                                    Option::Some(
                                        (
                                            TokM::Timestamp(Option::Some(fs2), pat, tz_of(s[q2])),
                                            q2 + 2,
                                        ),
                                    )
                                } else {
                                    Option::None
                                }
                            },
                        }
                    }
                }
            },
        }
    }
}

/// A `{keyword:spec}` placeholder clause, from the position after the
/// colon. Which parts the spec may carry depends on the keyword.
pub open spec fn clause_at(s: Seq<char>, p: int, kw: Seq<char>) -> Option<(TokM, int)>
    recommends
        0 <= p <= s.len(),
{
    if kw == kw_message() {
        match scan_spec(s, p, true) {
            Option::Some((fs, q)) => if q < s.len() && s[q] == '}' {
                Option::Some((TokM::Message(Option::Some(fs)), q + 1))
            } else {
                Option::None
            },
            Option::None => Option::None,
        }
    } else if kw == kw_severity() {
        if p + 1 < s.len() && s[p] == 's' && s[p + 1] == '}' {
            Option::Some((TokM::Severity(Option::None, SeverityType::String), p + 2))
        } else if p + 1 < s.len() && s[p] == 'd' && s[p + 1] == '}' {
            Option::Some((TokM::Severity(Option::None, SeverityType::Num), p + 2))
        } else {
            match scan_spec(s, p, true) {
                Option::Some((fs, q)) => {
                    let (ty, q2) = scan_sevty(s, q);
                    if q2 < s.len() && s[q2] == '}' {
                        Option::Some((TokM::Severity(Option::Some(fs), ty), q2 + 1))
                    } else {
                        Option::None
                    }
                },
                Option::None => Option::None,
            }
        }
    } else if kw == kw_timestamp() {
        timestamp_clause(s, p)
    } else if kw == kw_line() {
        match scan_spec(s, p, false) {
            Option::Some((fs, q)) => if q < s.len() && s[q] == '}' {
                Option::Some((TokM::Line(Option::Some(fs)), q + 1))
            } else {
                Option::None
            },
            Option::None => Option::None,
        }
    } else if kw == kw_module() {
        match scan_spec(s, p, true) {
            Option::Some((fs, q)) => if q < s.len() && s[q] == '}' {
                Option::Some((TokM::Module(Option::Some(fs)), q + 1))
            } else {
                Option::None
            },
            Option::None => Option::None,
        }
    } else if kw == kw_process() {
        match scan_spec(s, p, true) {
            Option::Some((fs, q)) => {
                let (ty, q2) = scan_procty(s, q);
                if q2 < s.len() && s[q2] == '}' {
                    Option::Some((TokM::Process(Option::Some(fs), ty), q2 + 1))
                } else {
                    Option::None
                }
            },
            Option::None => Option::None,
        }
    } else {
        match scan_spec(s, p, true) {
            Option::Some((fs, q)) => if q < s.len() && s[q] == '}' {
                Option::Some((TokM::Meta(kw, Option::Some(fs)), q + 1))
            } else {
                Option::None
            },
            Option::None => Option::None,
        }
    }
}

/// A placeholder from its opening brace: a keyword, then either a
/// closing brace or a colon and a clause; or the attribute list `...`.
pub open spec fn placeholder_at(s: Seq<char>, i: int) -> Option<(TokM, int)>
    recommends
        0 <= i < s.len(),
        s[i] == '{',
{
    let k = i + 1;
    if k < s.len() && is_alpha(s[k]) {
        let e = ident_end(s, k);
        let kw = s.subrange(k, e);
        if e < s.len() && s[e] == '}' {
            Option::Some((bare_token(kw), e + 1))
        } else if e < s.len() && s[e] == ':' {
            clause_at(s, e + 1, kw)
        } else {
            Option::None
        }
    } else if k + 3 < s.len() && s[k] == '.' && s[k + 1] == '.' && s[k + 2] == '.' && s[k + 3]
        == '}' {
        Option::Some((TokM::MetaList(Option::None), k + 4))
    } else {
        Option::None
    }
}

/// The next token at position `i`: a doubled brace, a placeholder, or a
/// run of literal text. A lone brace is malformed.
pub open spec fn item_at(s: Seq<char>, i: int) -> Option<(TokM, int)>
    recommends
        0 <= i < s.len(),
{
    if s[i] == '{' {
        if i + 1 < s.len() && s[i + 1] == '{' {
            Option::Some((TokM::Piece(seq!['{']), i + 2))
        } else {
            placeholder_at(s, i)
        }
    } else if s[i] == '}' {
        if i + 1 < s.len() && s[i + 1] == '}' {
            Option::Some((TokM::Piece(seq!['}']), i + 2))
        } else {
            Option::None
        }
    } else {
        Option::Some((TokM::Piece(s.subrange(i, text_end(s, i + 1))), text_end(s, i + 1)))
    }
}

pub proof fn lemma_tchars_bounds(s: Seq<char>, q: int, acc: Seq<char>)
    requires
        0 <= q <= s.len(),
        tchars(s, q, acc) is Some,
    ensures
        q < tchars(s, q, acc).unwrap().1 <= s.len(),
    decreases s.len() - q,
{
    if q >= s.len() {
    } else if s[q] == '}' {
        if q + 1 < s.len() && s[q + 1] == '}' {
            lemma_tchars_bounds(s, q + 2, acc.push('}'));
        }
    } else if s[q] == '{' {
        if q + 1 < s.len() && s[q + 1] == '{' {
            lemma_tchars_bounds(s, q + 2, acc.push('{'));
        }
    } else {
        lemma_tchars_bounds(s, q + 1, acc.push(s[q]));
    }
}

pub proof fn lemma_scan_spec_bounds(s: Seq<char>, p: int, allow_prec: bool)
    requires
        0 <= p <= s.len(),
        scan_spec(s, p, allow_prec) is Some,
    ensures
        p <= scan_spec(s, p, allow_prec).unwrap().1 <= s.len(),
{
    let (fill, align, q) = scan_fill_align(s, p);
    lemma_num_end(s, q);
    let we = num_end(s, q);
    if allow_prec && we + 1 < s.len() && s[we] == '.' && is_digit(s[we + 1]) {
        lemma_num_end(s, we + 1);
    }
}

pub proof fn lemma_clause_bounds(s: Seq<char>, p: int, kw: Seq<char>)
    requires
        0 <= p <= s.len(),
        clause_at(s, p, kw) is Some,
    ensures
        p < clause_at(s, p, kw).unwrap().1 <= s.len(),
{
    if kw == kw_timestamp() {
        if p + 1 < s.len() && s[p] == 'd' && s[p + 1] == '}' {
        } else {
            if scan_spec(s, p, false) is Some {
                lemma_scan_spec_bounds(s, p, false);
                let q = scan_spec(s, p, false).unwrap().1;
                if q + 1 < s.len() && s[q] == 'd' && s[q + 1] == '}' {
                } else {
                    let (pat, q1) = scan_strftime_opt(s, p);
                    if p < s.len() && s[p] == '{' && tchars(s, p + 1, Seq::empty()) is Some {
                        lemma_tchars_bounds(s, p + 1, Seq::empty());
                    }
                    if q1 + 1 < s.len() && is_tz_char(s[q1]) && s[q1 + 1] == '}' {
                    } else {
                        if scan_spec(s, q1, true) is Some {
                            lemma_scan_spec_bounds(s, q1, true);
                        }
                    }
                }
            }
        }
    } else if kw == kw_severity() {
        if p + 1 < s.len() && (s[p] == 's' || s[p] == 'd') && s[p + 1] == '}' {
        } else {
            if scan_spec(s, p, true) is Some {
                lemma_scan_spec_bounds(s, p, true);
            }
        }
    } else {
        if scan_spec(s, p, true) is Some {
            lemma_scan_spec_bounds(s, p, true);
        }
        if scan_spec(s, p, false) is Some {
            lemma_scan_spec_bounds(s, p, false);
        }
    }
}

pub proof fn lemma_item_at_bounds(s: Seq<char>, i: int)
    requires
        0 <= i < s.len(),
        item_at(s, i) is Some,
    ensures
        i < item_at(s, i).unwrap().1 <= s.len(),
{
    if s[i] == '{' {
        if i + 1 < s.len() && s[i + 1] == '{' {
        } else {
            let k = i + 1;
            if k < s.len() && is_alpha(s[k]) {
                lemma_ident_end(s, k);
                let e = ident_end(s, k);
                if e < s.len() && s[e] == ':' {
                    lemma_clause_bounds(s, e + 1, s.subrange(k, e));
                }
            }
        }
    } else if s[i] == '}' {
    } else {
        lemma_text_end(s, i + 1);
    }
}

/// The whole pattern from position `i` on, as the grammar reads it:
/// items one after another until the end; any malformed item makes the
/// whole parse fail.
pub open spec fn parse_from(s: Seq<char>, i: int) -> Option<Seq<TokM>>
    recommends
        0 <= i <= s.len(),
    decreases s.len() - i,
    when 0 <= i <= s.len()
    via parse_from_decreases
{
    if i >= s.len() {
        Option::Some(Seq::empty())
    } else {
        match item_at(s, i) {
            Option::Some((t, j)) => match parse_from(s, j) {
                Option::Some(rest) => Option::Some(seq![t] + rest),
                Option::None => Option::None,
            },
            Option::None => Option::None,
        }
    }
}

#[via_fn]
proof fn parse_from_decreases(s: Seq<char>, i: int) {
    if 0 <= i && i < s.len() {
        if item_at(s, i) is Some {
            lemma_item_at_bounds(s, i);
        }
    }
}

/// What a pattern parses to: its token sequence, or nothing when it is
/// malformed. The empty pattern parses to no tokens at all.
pub open spec fn parse_m(s: Seq<char>) -> Option<Seq<TokM>> {
    parse_from(s, 0)
}

/// The views of a parsed token sequence.
pub open spec fn tok_views(ts: Seq<Token>) -> Seq<TokM> {
    ts.map_values(|t: Token| t@)
}

/// A pattern with no brace at all: pure literal text.
pub open spec fn brace_free(s: Seq<char>) -> bool {
    forall|i: int| 0 <= i < s.len() ==> (#[trigger] s[i]) != '{' && s[i] != '}'
}

proof fn lemma_text_end_all(s: Seq<char>, i: int)
    requires
        brace_free(s),
        0 <= i <= s.len(),
    ensures
        text_end(s, i) == s.len(),
    decreases s.len() - i,
{
    if i < s.len() {
        lemma_text_end_all(s, i + 1);
    }
}

/// A doubled brace is the escape for a literal brace: the patterns `{{`
/// and `}}` each parse to one literal token holding the single brace.
pub proof fn lemma_brace_escape()
    ensures
        parse_m(seq!['{', '{']) == Option::Some(seq![TokM::Piece(seq!['{'])]),
        parse_m(seq!['}', '}']) == Option::Some(seq![TokM::Piece(seq!['}'])]),
{
    let o = seq!['{', '{'];
    assert(item_at(o, 0) == Option::Some((TokM::Piece(seq!['{']), 2int)));
    assert(parse_from(o, 2) == Option::Some(Seq::<TokM>::empty()));
    assert(seq![TokM::Piece(seq!['{'])] + Seq::<TokM>::empty() =~= seq![TokM::Piece(seq!['{'])]);
    let c = seq!['}', '}'];
    assert(item_at(c, 0) == Option::Some((TokM::Piece(seq!['}']), 2int)));
    assert(parse_from(c, 2) == Option::Some(Seq::<TokM>::empty()));
    assert(seq![TokM::Piece(seq!['}'])] + Seq::<TokM>::empty() =~= seq![TokM::Piece(seq!['}'])]);
}

/// A brace-free, non-empty pattern parses to exactly one literal token
/// holding the whole pattern.
pub proof fn lemma_plain_pattern(s: Seq<char>)
    requires
        brace_free(s),
        s.len() > 0,
    ensures
        parse_m(s) == Option::Some(seq![TokM::Piece(s)]),
{
    lemma_text_end_all(s, 1);
    assert(s[0] != '{' && s[0] != '}');
    assert(item_at(s, 0) == Option::Some((TokM::Piece(s.subrange(0, s.len() as int)), s.len() as int)));
    assert(s.subrange(0, s.len() as int) =~= s);
    assert(parse_from(s, s.len() as int) == Option::Some(Seq::<TokM>::empty()));
    assert(seq![TokM::Piece(s)] + Seq::<TokM>::empty() =~= seq![TokM::Piece(s)]);
}

proof fn lemma_keywords()
    ensures
        "message"@ == kw_message(),
        "severity"@ == kw_severity(),
        "timestamp"@ == kw_timestamp(),
        "line"@ == kw_line(),
        "module"@ == kw_module(),
        "process"@ == kw_process(),
        "%+"@ == default_ts_pattern(),
{
    reveal_strlit("message");
    reveal_strlit("severity");
    reveal_strlit("timestamp");
    reveal_strlit("line");
    reveal_strlit("module");
    reveal_strlit("process");
    reveal_strlit("%+");
    assert("message"@ =~= kw_message());
    assert("severity"@ =~= kw_severity());
    assert("timestamp"@ =~= kw_timestamp());
    assert("line"@ =~= kw_line());
    assert("module"@ =~= kw_module());
    assert("process"@ =~= kw_process());
    assert("%+"@ =~= default_ts_pattern());
}

fn str_to_chars(s: &str) -> (r: Vec<char>)
    ensures
        r@ == s@,
{
    let n = s.unicode_len();
    let mut r: Vec<char> = Vec::new();
    let mut i: usize = 0;
    while i < n
        invariant
            i <= n,
            n == s@.len(),
            r@ == s@.take(i as int),
        decreases n - i,
    {
        r.push(s.get_char(i));
        i = i + 1;
        proof {
            assert(r@ =~= s@.take(i as int));
        }
    }
    proof {
        assert(r@ =~= s@);
    }
    r
}

fn chars_to_string(cs: &Vec<char>, from: usize, to: usize) -> (r: String)
    requires
        from <= to <= cs@.len(),
    ensures
        r@ == cs@.subrange(from as int, to as int),
{
    let mut r = String::new();
    let mut j = from;
    while j < to
        invariant
            from <= j <= to <= cs@.len(),
            r@ == cs@.subrange(from as int, j as int),
        decreases to - j,
    {
        r.push(cs[j]);
        j = j + 1;
        proof {
            assert(r@ =~= cs@.subrange(from as int, j as int));
        }
    }
    r
}

/// Whether the characters `cs[from..to)` spell exactly `kw`.
fn kw_eq(cs: &Vec<char>, from: usize, to: usize, kw: &str) -> (r: bool)
    requires
        from <= to <= cs@.len(),
    ensures
        r == (cs@.subrange(from as int, to as int) == kw@),
{
    let n = kw.unicode_len();
    if to - from != n {
        return false;
    }
    let mut j: usize = 0;
    while j < n
        invariant
            j <= n,
            n == kw@.len(),
            from + n == to,
            from <= to <= cs@.len(),
            forall|k: int| 0 <= k < j ==> cs@.subrange(from as int, to as int)[k] == kw@[k],
        decreases n - j,
    {
        if cs[from + j] != kw.get_char(j) {
            proof {
                assert(cs@.subrange(from as int, to as int)[j as int] != kw@[j as int]);
            }
            return false;
        }
        j = j + 1;
    }
    proof {
        assert(cs@.subrange(from as int, to as int) =~= kw@);
    }
    true
}

fn digit_ck(c: char) -> (r: bool)
    ensures
        r == is_digit(c),
{
    let u = c as u32;
    48 <= u && u <= 57
}

fn alpha_ck(c: char) -> (r: bool)
    ensures
        r == is_alpha(c),
{
    let u = c as u32;
    (97 <= u && u <= 122) || (65 <= u && u <= 90)
}

fn alnum_ck(c: char) -> (r: bool)
    ensures
        r == is_alnum(c),
{
    alpha_ck(c) || digit_ck(c)
}

fn align_ck(c: char) -> (r: bool)
    ensures
        r == is_align_char(c),
{
    c == '<' || c == '>' || c == '^'
}

fn align_exec(c: char) -> (r: Alignment)
    ensures
        r == align_of(c),
{
    if c == '<' {
        Alignment::AlignLeft
    } else if c == '>' {
        Alignment::AlignRight
    } else {
        Alignment::AlignCenter
    }
}

fn tz_ck(c: char) -> (r: bool)
    ensures
        r == is_tz_char(c),
{
    c == 's' || c == 'l'
}

fn tz_exec(c: char) -> (r: Timezone)
    ensures
        r == tz_of(c),
{
    if c == 's' {
        Timezone::Utc
    } else {
        Timezone::Local
    }
}

fn find_text_end(cs: &Vec<char>, i: usize) -> (r: usize)
    requires
        i <= cs@.len(),
    ensures
        r as int == text_end(cs@, i as int),
        i <= r <= cs@.len(),
    decreases cs@.len() - i,
{
    let n = cs.len();
    if i < n {
        let c = cs[i];
        if c != '{' && c != '}' {
            return find_text_end(cs, i + 1);
        }
    }
    i
}

fn find_ident_end(cs: &Vec<char>, i: usize) -> (r: usize)
    requires
        i <= cs@.len(),
    ensures
        r as int == ident_end(cs@, i as int),
        i <= r <= cs@.len(),
    decreases cs@.len() - i,
{
    let n = cs.len();
    if i < n {
        if alnum_ck(cs[i]) {
            return find_ident_end(cs, i + 1);
        }
    }
    i
}

fn find_num_end(cs: &Vec<char>, i: usize) -> (r: usize)
    requires
        i <= cs@.len(),
    ensures
        r as int == num_end(cs@, i as int),
        i <= r <= cs@.len(),
    decreases cs@.len() - i,
{
    let n = cs.len();
    if i < n {
        if digit_ck(cs[i]) {
            return find_num_end(cs, i + 1);
        }
    }
    i
}

proof fn lemma_num_end_digits(s: Seq<char>, i: int)
    requires
        0 <= i <= s.len(),
    ensures
        forall|k: int| i <= k < num_end(s, i) ==> is_digit(s[k]),
        num_end(s, i) <= s.len(),
    decreases s.len() - i,
{
    if i < s.len() && is_digit(s[i]) {
        lemma_num_end_digits(s, i + 1);
    }
}

/// Reads the digit run at `p`: its value and its end, or nothing when
/// the value does not fit in `usize`.
fn scan_number(cs: &Vec<char>, p: usize) -> (r: Option<(usize, usize)>)
    requires
        p <= cs@.len(),
    ensures
        match r {
            Option::Some(ve) => ve.1 as int == num_end(cs@, p as int) && ve.0 as nat == num_val(
                cs@,
                p as int,
                ve.1 as int,
            ) && p <= ve.1 <= cs@.len(),
            Option::None => num_val(cs@, p as int, num_end(cs@, p as int)) > usize::MAX as nat,
        },
{
    let e = find_num_end(cs, p);
    proof {
        lemma_num_end_digits(cs@, p as int);
    }
    let mut val: usize = 0;
    let mut j = p;
    while j < e
        invariant
            p <= j <= e <= cs@.len(),
            e as int == num_end(cs@, p as int),
            val as nat == num_val(cs@, p as int, j as int),
            forall|k: int| p <= k < e ==> is_digit(cs@[k]),
        decreases e - j,
    {
        let u = cs[j] as u32;
        let d: usize = (u - 48) as usize;
        let m = match val.checked_mul(10) {
            Some(m) => m,
            None => {
                proof {
                    lemma_num_val_mono(cs@, p as int, j + 1 as int, e as int);
                }
                return None;
            },
        };
        let v2 = match m.checked_add(d) {
            Some(v2) => v2,
            None => {
                proof {
                    lemma_num_val_mono(cs@, p as int, j + 1 as int, e as int);
                }
                return None;
            },
        };
        val = v2;
        j = j + 1;
    }
    Some((val, e))
}

fn scan_spec_exec(cs: &Vec<char>, p: usize, allow_prec: bool) -> (r: Option<(FormatSpec, usize)>)
    requires
        p <= cs@.len(),
    ensures
        match r {
            Option::Some(fq) => scan_spec(cs@, p as int, allow_prec) == Option::Some(
                (fq.0, fq.1 as int),
            ) && p <= fq.1 <= cs@.len(),
            Option::None => scan_spec(cs@, p as int, allow_prec) is None,
        },
{
    let n = cs.len();
    let (fill, align, q): (char, Alignment, usize) = if p < n && n - p > 1 && align_ck(
        cs[p + 1],
    ) {
        (cs[p], align_exec(cs[p + 1]), p + 2)
    } else if p < n && align_ck(cs[p]) {
        (' ', align_exec(cs[p]), p + 1)
    } else {
        (' ', Alignment::AlignLeft, p)
    };
    match scan_number(cs, q) {
        None => None,
        Some((wv, we)) => {
            if allow_prec && we < n && n - we > 1 && cs[we] == '.' && digit_ck(cs[we + 1]) {
                match scan_number(cs, we + 1) {
                    None => None,
                    Some((pv, pe)) => Some(
                        (
                            FormatSpec {
                                fill: fill,
                                align: align,
                                flags: 0,
                                precision: Some(pv),
                                width: wv,
                            },
                            pe,
                        ),
                    ),
                }
            } else {
                Some(
                    (
                        FormatSpec {
                            fill: fill,
                            align: align,
                            flags: 0,
                            precision: None,
                            width: wv,
                        },
                        we,
                    ),
                )
            }
        },
    }
}

fn scan_tchars(cs: &Vec<char>, q0: usize) -> (r: Option<(String, usize)>)
    requires
        q0 <= cs@.len(),
    ensures
        match r {
            Option::Some(pq) => tchars(cs@, q0 as int, Seq::empty()) == Option::Some(
                (pq.0@, pq.1 as int),
            ) && q0 < pq.1 <= cs@.len(),
            Option::None => tchars(cs@, q0 as int, Seq::empty()) is None,
        },
{
    let n = cs.len();
    let mut acc = String::new();
    let mut j = q0;
    loop
        invariant
            q0 <= j <= n,
            n == cs@.len(),
            tchars(cs@, q0 as int, Seq::empty()) == tchars(cs@, j as int, acc@),
        decreases n - j,
    {
        if j >= n {
            return None;
        }
        let c = cs[j];
        if c == '}' {
            if j + 1 < n && cs[j + 1] == '}' {
                acc.push('}');
                j = j + 2;
            } else {
                return Some((acc, j + 1));
            }
        } else if c == '{' {
            if j + 1 < n && cs[j + 1] == '{' {
                acc.push('{');
                j = j + 2;
            } else {
                return None;
            }
        } else {
            acc.push(c);
            j = j + 1;
        }
    }
}

fn bare_token_exec(cs: &Vec<char>, from: usize, to: usize) -> (t: Token)
    requires
        from <= to <= cs@.len(),
    ensures
        t@ == bare_token(cs@.subrange(from as int, to as int)),
{
    proof {
        lemma_keywords();
    }
    if kw_eq(cs, from, to, "message") {
        Token::Message(None)
    } else if kw_eq(cs, from, to, "severity") {
        Token::Severity(None, SeverityType::String)
    } else if kw_eq(cs, from, to, "timestamp") {
        Token::Timestamp(None, String::from_str("%+"), Timezone::Utc)
    } else if kw_eq(cs, from, to, "line") {
        Token::Line(None)
    } else if kw_eq(cs, from, to, "module") {
        Token::Module(None)
    } else if kw_eq(cs, from, to, "process") {
        Token::Process(None, ProcessType::Id)
    } else {
        Token::Meta(chars_to_string(cs, from, to), None)
    }
}

fn parse_ts_clause(cs: &Vec<char>, p: usize) -> (r: Result<(Token, usize), ParseError>)
    requires
        p <= cs@.len(),
    ensures
        match r {
            Ok(tj) => timestamp_clause(cs@, p as int) == Option::Some((tj.0@, tj.1 as int)) && p
                < tj.1 <= cs@.len(),
            Err(e) => timestamp_clause(cs@, p as int) is None && e.offset <= cs@.len(),
        },
{
    let n = cs.len();
    if p < n && cs[p] == 'd' && p + 1 < n && cs[p + 1] == '}' {
        return Ok((Token::TimestampNum(None), p + 2));
    }
    match scan_spec_exec(cs, p, false) {
        None => Err(ParseError { offset: p }),
        Some((fs, q)) => {
            if q < n && cs[q] == 'd' && q + 1 < n && cs[q + 1] == '}' {
                Ok((Token::TimestampNum(Some(fs)), q + 2))
            } else {
                let (pat, q1): (String, usize) = if p < n && cs[p] == '{' {
                    match scan_tchars(cs, p + 1) {
                        Some((pt, qq)) => (pt, qq),
                        None => {
                            proof {
                                lemma_keywords();
                            }
                            (String::from_str("%+"), p)
                        },
                    }
                } else {
                    proof {
                        lemma_keywords();
                    }
                    (String::from_str("%+"), p)
                };
                proof {
                    assert((pat@, q1 as int) == scan_strftime_opt(cs@, p as int));
                }
                if q1 < n && tz_ck(cs[q1]) && q1 + 1 < n && cs[q1 + 1] == '}' {
                    Ok((Token::Timestamp(None, pat, tz_exec(cs[q1])), q1 + 2))
                } else {
                    match scan_spec_exec(cs, q1, true) {
                        None => Err(ParseError { offset: q1 }),
                        Some((fs2, q2)) => {
                            if q2 < n && tz_ck(cs[q2]) && q2 + 1 < n && cs[q2 + 1] == '}' {
                                Ok((Token::Timestamp(Some(fs2), pat, tz_exec(cs[q2])), q2 + 2))
                            } else {
                                Err(ParseError { offset: q2 })
                            }
                        },
                    }
                }
            }
        },
    }
}

#[verifier::rlimit(100)]
fn parse_clause(cs: &Vec<char>, p: usize, kf: usize, kt: usize) -> (r: Result<
    (Token, usize),
    ParseError,
>)
    requires
        kf <= kt <= cs@.len(),
        p <= cs@.len(),
    ensures
        match r {
            Ok(tj) => clause_at(cs@, p as int, cs@.subrange(kf as int, kt as int))
                == Option::Some((tj.0@, tj.1 as int)) && p < tj.1 <= cs@.len(),
            Err(e) => clause_at(cs@, p as int, cs@.subrange(kf as int, kt as int)) is None
                && e.offset <= cs@.len(),
        },
{
    proof {
        lemma_keywords();
    }
    let n = cs.len();
    if kw_eq(cs, kf, kt, "message") {
        match scan_spec_exec(cs, p, true) {
            Some((fs, q)) => {
                if q < n && cs[q] == '}' {
                    Ok((Token::Message(Some(fs)), q + 1))
                } else {
                    Err(ParseError { offset: q })
                }
            },
            None => Err(ParseError { offset: p }),
        }
    } else if kw_eq(cs, kf, kt, "severity") {
        if p < n && cs[p] == 's' && p + 1 < n && cs[p + 1] == '}' {
            Ok((Token::Severity(None, SeverityType::String), p + 2))
        } else if p < n && cs[p] == 'd' && p + 1 < n && cs[p + 1] == '}' {
            Ok((Token::Severity(None, SeverityType::Num), p + 2))
        } else {
            match scan_spec_exec(cs, p, true) {
                Some((fs, q)) => {
                    let (ty, q2): (SeverityType, usize) = if q < n && cs[q] == 'd' {
                        (SeverityType::Num, q + 1)
                    } else if q < n && cs[q] == 's' {
                        (SeverityType::String, q + 1)
                    } else {
                        (SeverityType::String, q)
                    };
                    if q2 < n && cs[q2] == '}' {
                        Ok((Token::Severity(Some(fs), ty), q2 + 1))
                    } else {
                        Err(ParseError { offset: q2 })
                    }
                },
                None => Err(ParseError { offset: p }),
            }
        }
    } else if kw_eq(cs, kf, kt, "timestamp") {
        parse_ts_clause(cs, p)
    } else if kw_eq(cs, kf, kt, "line") {
        match scan_spec_exec(cs, p, false) {
            Some((fs, q)) => {
                if q < n && cs[q] == '}' {
                    Ok((Token::Line(Some(fs)), q + 1))
                } else {
                    Err(ParseError { offset: q })
                }
            },
            None => Err(ParseError { offset: p }),
        }
    } else if kw_eq(cs, kf, kt, "module") {
        match scan_spec_exec(cs, p, true) {
            Some((fs, q)) => {
                if q < n && cs[q] == '}' {
                    Ok((Token::Module(Some(fs)), q + 1))
                } else {
                    Err(ParseError { offset: q })
                }
            },
            None => Err(ParseError { offset: p }),
        }
    } else if kw_eq(cs, kf, kt, "process") {
        match scan_spec_exec(cs, p, true) {
            Some((fs, q)) => {
                let (ty, q2): (ProcessType, usize) = if q < n && cs[q] == 'd' {
                    (ProcessType::Id, q + 1)
                } else if q < n && cs[q] == 's' {
                    (ProcessType::Name, q + 1)
                } else {
                    (ProcessType::Id, q)
                };
                if q2 < n && cs[q2] == '}' {
                    Ok((Token::Process(Some(fs), ty), q2 + 1))
                } else {
                    Err(ParseError { offset: q2 })
                }
            },
            None => Err(ParseError { offset: p }),
        }
    } else {
        match scan_spec_exec(cs, p, true) {
            Some((fs, q)) => {
                if q < n && cs[q] == '}' {
                    Ok((Token::Meta(chars_to_string(cs, kf, kt), Some(fs)), q + 1))
                } else {
                    Err(ParseError { offset: q })
                }
            },
            None => Err(ParseError { offset: p }),
        }
    }
}

fn parse_placeholder(cs: &Vec<char>, i: usize) -> (r: Result<(Token, usize), ParseError>)
    requires
        i < cs@.len(),
        cs@[i as int] == '{',
    ensures
        match r {
            Ok(tj) => placeholder_at(cs@, i as int) == Option::Some((tj.0@, tj.1 as int)) && i
                < tj.1 <= cs@.len(),
            Err(e) => placeholder_at(cs@, i as int) is None && e.offset <= cs@.len(),
        },
{
    let n = cs.len();
    let k = i + 1;
    if k < n && alpha_ck(cs[k]) {
        let e = find_ident_end(cs, k);
        if e < n && cs[e] == '}' {
            let t = bare_token_exec(cs, k, e);
            Ok((t, e + 1))
        } else if e < n && cs[e] == ':' {
            parse_clause(cs, e + 1, k, e)
        } else {
            Err(ParseError { offset: e })
        }
    } else if k < n && n - k > 3 && cs[k] == '.' && cs[k + 1] == '.' && cs[k + 2] == '.' && cs[k
        + 3] == '}' {
        Ok((Token::MetaList(None), k + 4))
    } else {
        Err(ParseError { offset: k })
    }
}

fn parse_item(cs: &Vec<char>, i: usize) -> (r: Result<(Token, usize), ParseError>)
    requires
        i < cs@.len(),
    ensures
        match r {
            Ok(tj) => item_at(cs@, i as int) == Option::Some((tj.0@, tj.1 as int)) && i < tj.1
                <= cs@.len(),
            Err(e) => item_at(cs@, i as int) is None && e.offset <= cs@.len(),
        },
{
    let n = cs.len();
    let c = cs[i];
    if c == '{' {
        if i + 1 < n && cs[i + 1] == '{' {
            proof {
                reveal_strlit("{");
                assert("{"@ =~= seq!['{']);
            }
            Ok((Token::Piece(String::from_str("{")), i + 2))
        } else {
            parse_placeholder(cs, i)
        }
    } else if c == '}' {
        if i + 1 < n && cs[i + 1] == '}' {
            proof {
                reveal_strlit("}");
                assert("}"@ =~= seq!['}']);
            }
            Ok((Token::Piece(String::from_str("}")), i + 2))
        } else {
            Err(ParseError { offset: i })
        }
    } else {
        let e = find_text_end(cs, i + 1);
        let txt = chars_to_string(cs, i, e);
        Ok((Token::Piece(txt), e))
    }
}

/// Compiles a pattern into its token sequence, or reports the position
/// of the first malformed piece of syntax. Exactly the patterns the
/// grammar admits parse; the result is pinned by the grammar's
/// mathematical form, so parsing is a pure function of the pattern.
pub fn parse(pattern: &str) -> (r: Result<Vec<Token>, ParseError>)
    ensures
        match r {
            Ok(toks) => parse_m(pattern@) == Option::Some(tok_views(toks@)),
            Err(e) => parse_m(pattern@) is None && e.offset <= pattern@.len(),
        },
{
    let cs = str_to_chars(pattern);
    let n = cs.len();
    let mut toks: Vec<Token> = Vec::new();
    let mut i: usize = 0;
    while i < n
        invariant
            i <= n,
            n == cs@.len(),
            cs@ == pattern@,
            match parse_from(cs@, i as int) {
                Option::Some(rest) => parse_m(pattern@) == Option::Some(tok_views(toks@) + rest),
                Option::None => parse_m(pattern@) is None,
            },
        decreases n - i,
    {
        match parse_item(&cs, i) {
            Ok((t, j)) => {
                proof {
                    assert(tok_views(toks@.push(t)) =~= tok_views(toks@) + seq![t@]);
                    if parse_from(cs@, j as int) is Some {
                        let rest = parse_from(cs@, j as int).unwrap();
                        assert(parse_from(cs@, i as int) == Option::Some(seq![t@] + rest));
                        assert(tok_views(toks@) + (seq![t@] + rest) =~= (tok_views(toks@) + seq![
                            t@,
                        ]) + rest);
                    }
                }
                toks.push(t);
                i = j;
            },
            Err(e) => {
                return Err(e);
            },
        }
    }
    proof {
        assert(parse_from(cs@, i as int) == Option::Some(Seq::<TokM>::empty()));
        assert(tok_views(toks@) + Seq::<TokM>::empty() =~= tok_views(toks@));
    }
    Ok(toks)
}

} // verus!
