//! Field-level filtering and derivation applied to one raw record before it
//! may enter a shard's result: sentinel and excluded identifier classes are
//! dropped, delisted names are dropped, priceless records are dropped, and
//! the price-limit band is derived from a ratio picked by identifier class.

use vstd::prelude::*;
use crate::bytes::{has_prefix, contains_seq, slice_has_prefix, slice_contains, bytes_eq};
use crate::merge::Record;

verus! {

/// A record as it arrives from the collaborator, already reduced to plain
/// values: monetary fields in hundredths, `change` in hundredths of a
/// percent, absent or not-a-number price fields read as zero. `index` is
/// the caller's handle to any further payload.
pub struct RawRecord {
    pub code: Vec<u8>,
    pub name: Vec<u8>,
    pub price: i64,
    pub change: i64,
    pub prev_close: i64,
    pub index: u64,
}

/// The placeholder identifier the collaborator sends when a record has no
/// code: a single `-`.
pub open spec fn sentinel_code() -> Seq<u8> {
    seq![45u8]
}

/// UTF-8 bytes of the delisting marker character that flags a dead
/// listing in a record's display name.
pub open spec fn delist_marker() -> Seq<u8> {
    seq![0xE9u8, 0x80u8, 0x80u8]
}

/// The bytes of `ST`, the special-treatment tag in a display name.
pub open spec fn st_marker() -> Seq<u8> {
    seq![83u8, 84u8]
}

/// The bytes of `688`, the identifier class with the widest band.
pub open spec fn wide_band_prefix() -> Seq<u8> {
    seq![54u8, 56u8, 56u8]
}

/// The bytes of `30`, the second identifier class with the widest band.
pub open spec fn wide_band_prefix_alt() -> Seq<u8> {
    seq![51u8, 48u8]
}

/// Identifier classes that never enter the result: the sentinel, codes
/// starting `8`, `4` or `92`, and codes starting `11` or `12`.
pub open spec fn excluded_code(code: Seq<u8>) -> bool {
    ||| code == sentinel_code()
    ||| has_prefix(code, seq![56u8])
    ||| has_prefix(code, seq![52u8])
    ||| has_prefix(code, seq![57u8, 50u8])
    ||| has_prefix(code, seq![49u8, 49u8])
    ||| has_prefix(code, seq![49u8, 50u8])
}

/// Whether a raw record survives the filter: identifier not excluded, name
/// not delisted, price present and non-zero.
pub open spec fn keep_record(code: Seq<u8>, name: Seq<u8>, price: int) -> bool {
    &&& !excluded_code(code)
    &&& !contains_seq(name, delist_marker())
    &&& price != 0
}

/// The band ratio in percent for one record: 20 for the wide-band
/// identifier classes, else 5 for special-treatment names, else 10.
pub open spec fn limit_ratio_pct(code: Seq<u8>, name: Seq<u8>) -> int {
    if has_prefix(code, wide_band_prefix()) || has_prefix(code, wide_band_prefix_alt()) {
        20
    } else if contains_seq(name, st_marker()) {
        5
    } else {
        10
    }
}

/// One band edge: the reference value scaled by `mult` percent, rounded
/// half-up at two decimals, or zero when there is no positive reference.
pub open spec fn band_value(prev_close: int, mult: int) -> int {
    if prev_close > 0 {
        (prev_close * mult + 50) / 100
    } else {
        0
    }
}

/// Reference prices stay far below this, and under it the band arithmetic
/// cannot overflow 64 bits.
pub const PRICE_CAP: i64 = 0x7FFF_FFFF_FFFF;

fn sentinel_vec() -> (v: Vec<u8>)
    ensures
        v@ == sentinel_code(),
{
    let v: Vec<u8> = vec![45u8];
    proof {
        assert(v@ =~= sentinel_code());
    }
    v
}

fn delist_vec() -> (v: Vec<u8>)
    ensures
        v@ == delist_marker(),
{
    let v: Vec<u8> = vec![0xE9u8, 0x80u8, 0x80u8];
    proof {
        assert(v@ =~= delist_marker());
    }
    v
}

fn st_vec() -> (v: Vec<u8>)
    ensures
        v@ == st_marker(),
{
    let v: Vec<u8> = vec![83u8, 84u8];
    proof {
        assert(v@ =~= st_marker());
    }
    v
}

fn byte_vec1(a: u8) -> (v: Vec<u8>)
    ensures
        v@ == seq![a],
{
    let v: Vec<u8> = vec![a];
    proof {
        assert(v@ =~= seq![a]);
    }
    v
}

fn byte_vec2(a: u8, b: u8) -> (v: Vec<u8>)
    ensures
        v@ == seq![a, b],
{
    let v: Vec<u8> = vec![a, b];
    proof {
        assert(v@ =~= seq![a, b]);
    }
    v
}

fn byte_vec3(a: u8, b: u8, c: u8) -> (v: Vec<u8>)
    ensures
        v@ == seq![a, b, c],
{
    let v: Vec<u8> = vec![a, b, c];
    proof {
        assert(v@ =~= seq![a, b, c]);
    }
    v
}

/// Whether the identifier belongs to an excluded class.
pub fn code_is_excluded(code: &[u8]) -> (r: bool)
    ensures
        r == excluded_code(code@),
{
    let sentinel = sentinel_vec();
    if bytes_eq(code, sentinel.as_slice()) {
        return true;
    }
    let p8 = byte_vec1(56);
    let p4 = byte_vec1(52);
    let p92 = byte_vec2(57, 50);
    let p11 = byte_vec2(49, 49);
    let p12 = byte_vec2(49, 50);
    slice_has_prefix(code, p8.as_slice()) || slice_has_prefix(code, p4.as_slice())
        || slice_has_prefix(code, p92.as_slice()) || slice_has_prefix(code, p11.as_slice())
        || slice_has_prefix(code, p12.as_slice())
}

/// Apply the filter and derivation rules to one raw record. `None` exactly
/// when the filter drops it; otherwise every plain field is carried over
/// and the two band edges are derived from the reference price.
pub fn transform_record(raw: RawRecord) -> (r: Option<Record>)
    requires
        raw.prev_close <= PRICE_CAP,
    ensures
        r.is_some() == keep_record(raw.code@, raw.name@, raw.price as int),
        r matches Some(rec) ==> {
            let pct = limit_ratio_pct(raw.code@, raw.name@);
            &&& rec.code@ == raw.code@
            &&& rec.name@ == raw.name@
            &&& rec.price == raw.price
            &&& rec.change == raw.change
            &&& rec.prev_close == raw.prev_close
            &&& rec.index == raw.index
            &&& rec.limit_up == band_value(raw.prev_close as int, 100 + pct)
            &&& rec.limit_down == band_value(raw.prev_close as int, 100 - pct)
        },
{
    if code_is_excluded(raw.code.as_slice()) {
        return None;
    }
    let delist = delist_vec();
    if slice_contains(raw.name.as_slice(), delist.as_slice()) {
        return None;
    }
    if raw.price == 0 {
        return None;
    }
    let wide = byte_vec3(54, 56, 56);
    let wide_alt = byte_vec2(51, 48);
    let st = st_vec();
    let pct: i64 = if slice_has_prefix(raw.code.as_slice(), wide.as_slice())
        || slice_has_prefix(raw.code.as_slice(), wide_alt.as_slice()) {
        20
    } else if slice_contains(raw.name.as_slice(), st.as_slice()) {
        5
    } else {
        10
    };
    proof {
        assert(pct == 5 || pct == 10 || pct == 20);
        if raw.prev_close > 0 {
            assert(0 <= raw.prev_close * (100 + pct) <= 0x7FFF_FFFF_FFFFi64 * 120)
                by (nonlinear_arith)
                requires
                    0 < raw.prev_close <= 0x7FFF_FFFF_FFFFi64,
                    5 <= pct <= 20,
            ;
            assert(0 <= raw.prev_close * (100 - pct) <= 0x7FFF_FFFF_FFFFi64 * 120)
                by (nonlinear_arith)
                requires
                    0 < raw.prev_close <= 0x7FFF_FFFF_FFFFi64,
                    5 <= pct <= 20,
            ;
        }
    }
    let limit_up: i64 = if raw.prev_close > 0 {
        (raw.prev_close * (100 + pct) + 50) / 100
    } else {
        0
    };
    let limit_down: i64 = if raw.prev_close > 0 {
        (raw.prev_close * (100 - pct) + 50) / 100
    } else {
        0
    };
    Some(
        Record {
            code: raw.code,
            name: raw.name,
            price: raw.price,
            change: raw.change,
            prev_close: raw.prev_close,
            limit_up,
            limit_down,
            index: raw.index,
        },
    )
}

} // verus!
