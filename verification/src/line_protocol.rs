//! The line protocol that worker processes speak over stdout/stderr:
//! each line is classified by prefix into progress, status text, a terminal
//! payload candidate, or a raw structured-data candidate.

use vstd::prelude::*;
use crate::bytes::{trim, has_prefix, trim_slice, slice_has_prefix};

verus! {

// Byte values of the characters the protocol is built from.
pub const B_PLUS: u8 = 43;
pub const B_MINUS: u8 = 45;
pub const B_ZERO: u8 = 48;
pub const B_NINE: u8 = 57;
pub const B_LBRACKET: u8 = 91;
pub const B_LBRACE: u8 = 123;

/// The bytes of `PROGRESS:`.
pub open spec fn prefix_progress() -> Seq<u8> {
    seq![80u8, 82u8, 79u8, 71u8, 82u8, 69u8, 83u8, 83u8, 58u8]
}

/// The bytes of `INFO:`.
pub open spec fn prefix_info() -> Seq<u8> {
    seq![73u8, 78u8, 70u8, 79u8, 58u8]
}

/// The bytes of `WARNING:`.
pub open spec fn prefix_warning() -> Seq<u8> {
    seq![87u8, 65u8, 82u8, 78u8, 73u8, 78u8, 71u8, 58u8]
}

/// The bytes of `ERROR:`.
pub open spec fn prefix_error() -> Seq<u8> {
    seq![69u8, 82u8, 82u8, 79u8, 82u8, 58u8]
}

/// The bytes of `SUCCESS:`.
pub open spec fn prefix_success() -> Seq<u8> {
    seq![83u8, 85u8, 67u8, 67u8, 69u8, 83u8, 83u8, 58u8]
}

fn progress_prefix() -> (v: Vec<u8>)
    ensures
        v@ == prefix_progress(),
{
    let v: Vec<u8> = vec![80u8, 82u8, 79u8, 71u8, 82u8, 69u8, 83u8, 83u8, 58u8];
    proof {
        assert(v@ =~= prefix_progress());
    }
    v
}

fn info_prefix() -> (v: Vec<u8>)
    ensures
        v@ == prefix_info(),
{
    let v: Vec<u8> = vec![73u8, 78u8, 70u8, 79u8, 58u8];
    proof {
        assert(v@ =~= prefix_info());
    }
    v
}

fn warning_prefix() -> (v: Vec<u8>)
    ensures
        v@ == prefix_warning(),
{
    let v: Vec<u8> = vec![87u8, 65u8, 82u8, 78u8, 73u8, 78u8, 71u8, 58u8];
    proof {
        assert(v@ =~= prefix_warning());
    }
    v
}

fn error_prefix() -> (v: Vec<u8>)
    ensures
        v@ == prefix_error(),
{
    let v: Vec<u8> = vec![69u8, 82u8, 82u8, 79u8, 82u8, 58u8];
    proof {
        assert(v@ =~= prefix_error());
    }
    v
}

fn success_prefix() -> (v: Vec<u8>)
    ensures
        v@ == prefix_success(),
{
    let v: Vec<u8> = vec![83u8, 85u8, 67u8, 67u8, 69u8, 83u8, 83u8, 58u8];
    proof {
        assert(v@ =~= prefix_success());
    }
    v
}

/// An ASCII decimal digit.
pub open spec fn is_digit(b: u8) -> bool {
    B_ZERO <= b && b <= B_NINE
}

pub open spec fn all_digits(s: Seq<u8>) -> bool {
    forall|i: int| 0 <= i < s.len() ==> is_digit(#[trigger] s[i])
}

/// The value of a sequence of ASCII digits, most significant first.
pub open spec fn digits_val(s: Seq<u8>) -> int
    decreases s.len(),
{
    if s.len() == 0 {
        0
    } else {
        digits_val(s.drop_last()) * 10 + (s.last() - B_ZERO)
    }
}

proof fn lemma_digits_val_nonneg(s: Seq<u8>)
    requires
        all_digits(s),
    ensures
        digits_val(s) >= 0,
    decreases s.len(),
{
    if s.len() > 0 {
        assert(all_digits(s.drop_last()));
        lemma_digits_val_nonneg(s.drop_last());
    }
}

/// What a digit body parses to once a sign has been taken off, exactly as
/// Rust's integer parse would see it: at least one digit, digits only, and
/// the signed value within the 32-bit range.
pub open spec fn parse_signed(body: Seq<u8>, neg: bool) -> Option<int> {
    if body.len() >= 1 && all_digits(body) {
        let v = if neg {
            -digits_val(body)
        } else {
            digits_val(body)
        };
        if -0x8000_0000 <= v && v <= 0x7fff_ffff {
            Some(v)
        } else {
            None
        }
    } else {
        None
    }
}

/// What `s` parses to as a 32-bit integer: an optional leading sign, then
/// one or more ASCII digits, nothing else.
pub open spec fn parse_i32(s: Seq<u8>) -> Option<int> {
    if s.len() >= 1 && (s[0] == B_PLUS || s[0] == B_MINUS) {
        parse_signed(s.subrange(1, s.len() as int), s[0] == B_MINUS)
    } else {
        parse_signed(s, false)
    }
}

/// Parse a 32-bit integer from ASCII bytes; `None` exactly where the spec
/// rejects the input.
pub fn parse_i32_bytes(s: &[u8]) -> (r: Option<i32>)
    ensures
        r.is_some() == parse_i32(s@).is_some(),
        r matches Some(v) ==> parse_i32(s@) == Some(v as int),
{
    let len = s.len();
    let mut start: usize = 0;
    let mut neg: bool = false;
    if len >= 1 && (s[0] == B_PLUS || s[0] == B_MINUS) {
        start = 1;
        neg = s[0] == B_MINUS;
    }
    let ghost body = s@.subrange(start as int, len as int);
    proof {
        if start == 0 {
            assert(body =~= s@);
        }
    }
    if start == len {
        return None;
    }
    let mut acc: u64 = 0;
    let mut over: bool = false;
    let mut i: usize = start;
    while i < len
        invariant
            start <= i <= len == s@.len(),
            start <= 1,
            (len >= 1 && (s@[0] == B_PLUS || s@[0] == B_MINUS)) <==> start == 1,
            neg == (start == 1 && s@[0] == B_MINUS),
            body == s@.subrange(start as int, len as int),
            start == 0 ==> body == s@,
            all_digits(body.subrange(0, i - start)),
            !over ==> acc == digits_val(body.subrange(0, i - start)) && acc <= 0x8000_0000,
            over ==> digits_val(body.subrange(0, i - start)) > 0x8000_0000,
        decreases len - i,
    {
        let b = s[i];
        if b < B_ZERO || b > B_NINE {
            proof {
                assert(body[i - start] == s@[i as int]);
                assert(!all_digits(body));
            }
            return None;
        }
        proof {
            let pre = body.subrange(0, i - start);
            let ext = body.subrange(0, i + 1 - start);
            assert(ext.drop_last() =~= pre);
            assert(ext.last() == s@[i as int]);
            assert(digits_val(ext) == digits_val(pre) * 10 + (b - B_ZERO));
            if over {
                lemma_digits_val_nonneg(pre);
            }
        }
        if !over {
            acc = acc * 10 + ((b - B_ZERO) as u64);
            if acc > 0x8000_0000 {
                over = true;
            }
        }
        i = i + 1;
    }
    proof {
        assert(body.subrange(0, len - start) =~= body);
    }
    if over {
        return None;
    }
    if neg {
        let v: i64 = -(acc as i64);
        Some(v as i32)
    } else {
        if acc > 0x7fff_ffff {
            None
        } else {
            Some(acc as i32)
        }
    }
}

/// Which raw structured-data openers a job accepts as a payload candidate.
#[derive(Clone, Copy, PartialEq, Eq, Structural)]
pub struct RawConfig {
    pub bracket: bool,
    pub brace: bool,
}

impl RawConfig {
    /// Accept neither opener: raw lines fall through to `Other`.
    pub fn none() -> (c: Self)
        ensures
            !c.bracket && !c.brace,
    {
        RawConfig { bracket: false, brace: false }
    }

    /// Accept both openers.
    pub fn both() -> (c: Self)
        ensures
            c.bracket && c.brace,
    {
        RawConfig { bracket: true, brace: true }
    }

    /// Accept `{` lines only.
    pub fn brace_only() -> (c: Self)
        ensures
            !c.bracket && c.brace,
    {
        RawConfig { bracket: false, brace: true }
    }
}

/// The abstract classification of one line.
pub enum LineEventModel {
    Progress(int),
    Info(Seq<u8>),
    Warning(Seq<u8>),
    Error(Seq<u8>),
    Success(Seq<u8>),
    Raw(Seq<u8>),
    Other,
}

/// The classification of one line as executable data.
pub enum LineEvent {
    Progress(i32),
    Info(Vec<u8>),
    Warning(Vec<u8>),
    Error(Vec<u8>),
    Success(Vec<u8>),
    Raw(Vec<u8>),
    Other,
}

impl View for LineEvent {
    type V = LineEventModel;

    open spec fn view(&self) -> LineEventModel {
        match self {
            LineEvent::Progress(n) => LineEventModel::Progress(*n as int),
            LineEvent::Info(m) => LineEventModel::Info(m@),
            LineEvent::Warning(m) => LineEventModel::Warning(m@),
            LineEvent::Error(m) => LineEventModel::Error(m@),
            LineEvent::Success(m) => LineEventModel::Success(m@),
            LineEvent::Raw(m) => LineEventModel::Raw(m@),
            LineEvent::Other => LineEventModel::Other,
        }
    }
}

/// The remainder of `t` after a prefix of length `n`, trimmed.
pub open spec fn payload_after(t: Seq<u8>, n: int) -> Seq<u8> {
    trim(t.subrange(n, t.len() as int))
}

/// How one line is classified: trim it, try the prefixes in priority order,
/// then the raw openers the job accepts; blank and unrecognized lines are
/// ignored. A `PROGRESS:` line whose remainder is not an integer is
/// silently dropped.
pub open spec fn classify_spec(line: Seq<u8>, cfg: RawConfig) -> LineEventModel {
    let t = trim(line);
    if t.len() == 0 {
        LineEventModel::Other
    } else if has_prefix(t, prefix_progress()) {
        match parse_i32(payload_after(t, prefix_progress().len() as int)) {
            Some(v) => LineEventModel::Progress(v),
            None => LineEventModel::Other,
        }
    } else if has_prefix(t, prefix_info()) {
        LineEventModel::Info(payload_after(t, prefix_info().len() as int))
    } else if has_prefix(t, prefix_warning()) {
        LineEventModel::Warning(payload_after(t, prefix_warning().len() as int))
    } else if has_prefix(t, prefix_error()) {
        LineEventModel::Error(payload_after(t, prefix_error().len() as int))
    } else if has_prefix(t, prefix_success()) {
        LineEventModel::Success(payload_after(t, prefix_success().len() as int))
    } else if (cfg.bracket && t[0] == B_LBRACKET) || (cfg.brace && t[0] == B_LBRACE) {
        LineEventModel::Raw(t)
    } else {
        LineEventModel::Other
    }
}

/// Strip the first `n` bytes of `t` and trim what is left.
fn strip_and_trim(t: &Vec<u8>, n: usize) -> (r: Vec<u8>)
    requires
        n <= t@.len(),
    ensures
        r@ == payload_after(t@, n as int),
{
    let rest = &t.as_slice()[n..t.len()];
    trim_slice(rest)
}

/// Classify one protocol line.
pub fn classify(line: &[u8], cfg: RawConfig) -> (e: LineEvent)
    ensures
        e@ == classify_spec(line@, cfg),
{
    let t = trim_slice(line);
    if t.len() == 0 {
        return LineEvent::Other;
    }
    let pp = progress_prefix();
    if slice_has_prefix(t.as_slice(), pp.as_slice()) {
        let rest = strip_and_trim(&t, pp.len());
        return match parse_i32_bytes(rest.as_slice()) {
            Some(v) => LineEvent::Progress(v),
            None => LineEvent::Other,
        };
    }
    let pi = info_prefix();
    if slice_has_prefix(t.as_slice(), pi.as_slice()) {
        return LineEvent::Info(strip_and_trim(&t, pi.len()));
    }
    let pw = warning_prefix();
    if slice_has_prefix(t.as_slice(), pw.as_slice()) {
        return LineEvent::Warning(strip_and_trim(&t, pw.len()));
    }
    let pe = error_prefix();
    if slice_has_prefix(t.as_slice(), pe.as_slice()) {
        return LineEvent::Error(strip_and_trim(&t, pe.len()));
    }
    let ps = success_prefix();
    if slice_has_prefix(t.as_slice(), ps.as_slice()) {
        return LineEvent::Success(strip_and_trim(&t, ps.len()));
    }
    let first = t[0];
    if (cfg.bracket && first == B_LBRACKET) || (cfg.brace && first == B_LBRACE) {
        return LineEvent::Raw(t);
    }
    LineEvent::Other
}

} // verus!
