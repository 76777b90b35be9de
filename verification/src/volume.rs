//! Fixed-point linear volume and its conversions.
//!
//! The audio subsystem reports volume as a raw integer where `RAW_NORMAL`
//! stands for the nominal "100%" loudness. The engine works in linear
//! units of one ten-thousandth, so `VOL_UNIT` units stand for `1.0`.

use vstd::prelude::*;
use vstd::arithmetic::div_mod::{lemma_div_is_ordered, lemma_div_multiples_vanish};
use vstd::arithmetic::mul::lemma_mul_inequality;

verus! {

/// Linear volume units per `1.0` (the subsystem's nominal reference).
pub const VOL_UNIT: i64 = 10_000;

/// Ceiling of the engine's representable linear volume, in units:
/// one hundred thousand times the nominal reference. Targets above it
/// saturate here; the subsystem's own raw range ends well below it.
pub const VOL_LIMIT: i64 = 1_000_000_000;

/// The subsystem's raw volume value that stands for nominal `1.0`.
pub const RAW_NORMAL: u32 = 0x10000;

/// Raw subsystem volume converted to linear units, rounded to the
/// nearest unit (ties away from zero).
pub open spec fn raw_to_units_spec(raw: u32) -> int {
    (raw * VOL_UNIT + RAW_NORMAL / 2) / (RAW_NORMAL as int)
}

/// Linear units converted to the subsystem's raw scale, truncated,
/// saturating at the raw range's end.
pub open spec fn units_to_raw_spec(units: i64) -> int {
    let q = (units * RAW_NORMAL) / (VOL_UNIT as int);
    if q > u32::MAX { u32::MAX as int } else { q }
}

/// Sum of a sequence of raw channel volumes.
pub open spec fn sum_raw(s: Seq<u32>) -> int
    decreases s.len(),
{
    if s.len() == 0 {
        0
    } else {
        sum_raw(s.drop_last()) + s.last()
    }
}

/// The integer average the subsystem reports for a set of channels:
/// the truncated mean, or zero when there are no channels.
pub open spec fn average_raw_spec(s: Seq<u32>) -> int {
    if s.len() == 0 {
        0
    } else {
        sum_raw(s) / (s.len() as int)
    }
}

pub proof fn lemma_sum_raw_bounds(s: Seq<u32>)
    ensures
        0 <= sum_raw(s) <= s.len() * (u32::MAX as int),
    decreases s.len(),
{
    if s.len() > 0 {
        lemma_sum_raw_bounds(s.drop_last());
        assert((s.len() - 1) * (u32::MAX as int) + (u32::MAX as int) == s.len() * (
        u32::MAX as int)) by (nonlinear_arith);
    }
}

/// Converts a raw subsystem volume to linear units.
pub fn raw_to_units(raw: u32) -> (r: i64)
    ensures
        r == raw_to_units_spec(raw),
        0 <= r <= VOL_LIMIT,
{
    proof {
        lemma_mul_inequality(raw as int, u32::MAX as int, VOL_UNIT as int);
    }
    let n: u64 = (raw as u64) * (VOL_UNIT as u64) + (RAW_NORMAL as u64) / 2;
    let q: u64 = n / (RAW_NORMAL as u64);
    proof {
        lemma_div_is_ordered(
            n as int,
            u32::MAX * (VOL_UNIT as int) + RAW_NORMAL / 2,
            RAW_NORMAL as int,
        );
    }
    q as i64
}

/// Converts linear units to the subsystem's raw scale.
pub fn units_to_raw(units: i64) -> (r: u32)
    requires
        0 <= units <= VOL_LIMIT,
    ensures
        r == units_to_raw_spec(units),
{
    let q: u64 = ((units as u64) * (RAW_NORMAL as u64)) / (VOL_UNIT as u64);
    if q > u32::MAX as u64 {
        u32::MAX
    } else {
        q as u32
    }
}

/// Averages the per-channel raw volumes the way the subsystem does:
/// truncated integer mean, zero for an empty channel set.
pub fn average_raw(raws: &[u32]) -> (r: u32)
    requires
        raws@.len() <= u32::MAX,
    ensures
        r == average_raw_spec(raws@),
{
    let n = raws.len();
    if n == 0 {
        return 0;
    }
    let mut acc: u64 = 0;
    let mut i: usize = 0;
    while i < n
        invariant
            0 < n == raws@.len() <= u32::MAX,
            0 <= i <= n,
            acc == sum_raw(raws@.take(i as int)),
            acc <= i * (u32::MAX as int),
        decreases n - i,
    {
        proof {
            assert(raws@.take(i + 1).drop_last() =~= raws@.take(i as int));
            lemma_mul_inequality(i + 1, n as int, u32::MAX as int);
            assert(i * (u32::MAX as int) + u32::MAX == (i + 1) * (u32::MAX as int))
                by (nonlinear_arith);
        }
        acc = acc + (raws[i] as u64);
        i = i + 1;
    }
    proof {
        assert(raws@.take(n as int) =~= raws@);
        lemma_sum_raw_bounds(raws@);
        lemma_mul_inequality(raws@.len() as int, raws@.len() as int, u32::MAX as int);
        lemma_div_is_ordered(acc as int, raws@.len() * (u32::MAX as int), raws@.len() as int);
        lemma_div_multiples_vanish(u32::MAX as int, raws@.len() as int);
    }
    (acc / (n as u64)) as u32
}

} // verus!
