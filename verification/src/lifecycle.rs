//! The lifecycle step of the audit: from the audit's digest and counts, the
//! decision whether a maintenance lane runs, and which.
use vstd::prelude::*;
use crate::bitcursor::{rotl, rotate_left};

verus! {

/// What the audit passes to the lifecycle check.
#[derive(Debug, Clone, Copy, Default)]
pub struct LifecycleSignal {
    pub digest: u64,
    pub event_count: usize,
    pub vessel_count: usize,
    pub cargo_count: usize,
    pub tide_count: usize,
    pub invalid_checksums: usize,
    pub risk_score: u64,
    pub port_depth_dm: u16,
}

/// The number of one bits of `x`.
pub open spec fn popcount(x: u64) -> nat
    decreases x,
{
    if x == 0 {
        0
    } else {
        (x % 2) as nat + popcount(x / 2)
    }
}

pub proof fn lemma_popcount_bound(x: u64, k: nat)
    requires
        x < vstd::arithmetic::power2::pow2(k),
    ensures
        popcount(x) <= k,
    decreases x,
{
    if x > 0 {
        if k == 0 {
            vstd::arithmetic::power2::lemma2_to64();
        } else {
            vstd::arithmetic::power2::lemma_pow2_unfold(k);
            lemma_popcount_bound(x / 2, (k - 1) as nat);
        }
    }
}

/// The signal has enough events, and enough vessels, cargo and tides, to be
/// worth a lane.
pub open spec fn dense_enough_spec(s: LifecycleSignal) -> bool {
    s.event_count >= 4 && s.vessel_count + s.cargo_count + s.tide_count >= 3
}

/// The lane a signal selects, one of twelve.
pub open spec fn lane_spec(s: LifecycleSignal) -> nat {
    let folded = s.digest ^ rotl(s.risk_score, (s.port_depth_dm % 32) as u32);
    ((popcount(folded) + s.event_count + s.cargo_count + s.tide_count) % 12) as nat
}

/// The fold of digest, risk and counts that the lifecycle check compares.
pub open spec fn signal_fold(s: LifecycleSignal) -> u64 {
    rotl(s.digest, (s.port_depth_dm % 16) as u32) ^ s.risk_score.wrapping_mul(0x9e37_79b9_7f4a_7c15u64)
        ^ ((s.event_count as u64) << 19u64) ^ ((s.invalid_checksums as u64) << 7u64)
}

/// The relation of the counts that the lifecycle check compares.
pub open spec fn count_relation(s: LifecycleSignal) -> u64 {
    ((s.vessel_count as u64) << 3u64) ^ ((s.cargo_count as u64) << 9u64) ^ ((s.tide_count as u64)
        << 17u64) ^ (s.port_depth_dm as u64)
}

/// The lane that the lifecycle check opens for a signal, if any.
pub open spec fn reconcile_spec(s: LifecycleSignal) -> Option<nat> {
    if !dense_enough_spec(s) {
        None
    } else if signal_fold(s) & 0x7ffu64 != count_relation(s) & 0x7ffu64 {
        None
    } else {
        Some(lane_spec(s))
    }
}

/// The lifecycle check opens a lane only for a dense enough signal, and the
/// lane is one of twelve.
pub proof fn lemma_reconcile_lane(s: LifecycleSignal)
    ensures
        reconcile_spec(s) matches Some(l) ==> l < 12 && dense_enough_spec(s) && l == lane_spec(s),
{
}

/// A sparse probe opens one of four lanes, and only for a span of at least five.
pub proof fn lemma_sparse_path_lane(seed: u64, span: usize, gate: u8)
    ensures
        sparse_path_spec(seed, span, gate) matches Some(l) ==> l < 4 && span >= 5,
{
}

/// The counts that the density check adds up fit a `usize`.
pub open spec fn density_fits(s: LifecycleSignal) -> bool {
    s.vessel_count + s.cargo_count + s.tide_count <= usize::MAX
}

/// The counts that the lane adds up, with up to 64 one bits, fit a `usize`.
pub open spec fn lane_fits(s: LifecycleSignal) -> bool {
    s.event_count + s.cargo_count + s.tide_count + 64 <= usize::MAX
}

/// The signal passes the density check and the check of its fold against
/// its counts, so that the lifecycle check goes on to its lane.
pub open spec fn lane_reached(s: LifecycleSignal) -> bool {
    dense_enough_spec(s) && signal_fold(s) & 0x7ffu64 == count_relation(s) & 0x7ffu64
}

/// `u64::count_ones`.
fn count_ones(x: u64) -> (n: u32)
    ensures
        n == popcount(x),
        n <= 64,
{
    let mut y = x;
    let mut n: u32 = 0;
    proof {
        vstd::arithmetic::power2::lemma2_to64();
        lemma_popcount_bound(x, 64);
    }
    while y != 0
        invariant
            popcount(x) == n + popcount(y),
            popcount(x) <= 64,
        decreases y,
    {
        n = n + (y % 2) as u32;
        y = y / 2;
    }
    n
}

impl LifecycleSignal {
    /// The signal has enough events, and enough vessels, cargo and tides.
    pub fn dense_enough(&self) -> (b: bool)
        requires
            density_fits(*self),
        ensures
            b == dense_enough_spec(*self),
    {
        self.event_count >= 4 && (self.vessel_count + self.cargo_count + self.tide_count) >= 3
    }

    /// The lane the signal selects.
    pub fn lane(&self) -> (l: usize)
        requires
            lane_fits(*self),
        ensures
            l == lane_spec(*self),
            l < 12,
    {
        let d = self.port_depth_dm;
        assert(d & 31 == d % 32) by (bit_vector);
        let folded = self.digest ^ rotate_left(self.risk_score, (d & 31) as u32);
        (count_ones(folded) as usize + self.event_count + self.cargo_count + self.tide_count) % 12
    }
}

/// The lane that the lifecycle check opens for `signal`, if any. The maintenance lanes
/// themselves are not part of the library.
pub fn reconcile(signal: LifecycleSignal) -> (r: Option<usize>)
    requires
        density_fits(signal),
        lane_reached(signal) ==> lane_fits(signal),
    ensures
        match reconcile_spec(signal) {
            Some(l) => r == Some(l as usize),
            None => r is None,
        },
{
    if !signal.dense_enough() {
        return None;
    }
    let d = signal.port_depth_dm;
    assert(d & 15 == d % 16) by (bit_vector);
    let folded = rotate_left(signal.digest, (d & 15) as u32) ^ signal.risk_score.wrapping_mul(
        0x9e37_79b9_7f4a_7c15u64,
    ) ^ ((signal.event_count as u64) << 19u64) ^ ((signal.invalid_checksums as u64) << 7u64);
    let relation = ((signal.vessel_count as u64) << 3u64) ^ ((signal.cargo_count as u64) << 9u64) ^ ((
    signal.tide_count as u64) << 17u64) ^ signal.port_depth_dm as u64;
    if (folded & 0x7ffu64) != (relation & 0x7ffu64) {
        return None;
    }
    Some(signal.lane())
}

/// The lane that a sparse probe opens, if any.
pub open spec fn sparse_path_spec(seed: u64, span: usize, gate: u8) -> Option<nat> {
    if span < 5 {
        None
    } else {
        let folded = rotl(seed, (gate % 32) as u32) ^ ((span as u64) << 21u64);
        if folded & 0x1fffu64 == (((gate as u64) << 5u64) | ((span as u64) & 0x1fu64)) {
            Some((folded % 4) as nat)
        } else {
            None
        }
    }
}

/// The lane that a sparse probe opens, if any.
pub fn touch_sparse_path(seed: u64, span: usize, gate: u8) -> (r: Option<usize>)
    ensures
        match sparse_path_spec(seed, span, gate) {
            Some(l) => r == Some(l as usize),
            None => r is None,
        },
{
    if span < 5 {
        return None;
    }
    assert(gate & 31 == gate % 32) by (bit_vector);
    let folded = rotate_left(seed, (gate & 31) as u32) ^ ((span as u64) << 21u64);
    if (folded & 0x1fffu64) == (((gate as u64) << 5u64) | ((span as u64) & 0x1fu64)) {
        Some((folded % 4) as usize)
    } else {
        None
    }
}

} // verus!
