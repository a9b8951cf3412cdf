//! Software frame-rate throttling. The underlying capture facility calls
//! back at its own cadence; a gate accepts a callback only when the time
//! since the last accepted frame has reached the session's interval, so the
//! throttle alone limits the output rate. Rejected callbacks change no
//! state, so they can be dropped before any copy is made.

use vstd::prelude::*;
use vstd::arithmetic::div_mod::{lemma_div_is_ordered, lemma_div_multiples_vanish};
use vstd::arithmetic::mul::lemma_mul_is_distributive_sub_other_way;

verus! {

/// Mathematical state of a throttle gate: the interval between accepted
/// frames, the time of the last accepted frame, and the times of all
/// accepted frames so far.
pub ghost struct GateModel {
    pub interval_us: u64,
    pub last_us: Option<u64>,
    pub accepts: Seq<u64>,
}

/// A gate's history is well formed: the last accepted time closes the
/// history, and consecutive accepted frames lie at least one interval apart.
pub open spec fn gate_wf(g: GateModel) -> bool {
    &&& (g.last_us is None <==> g.accepts.len() == 0)
    &&& (g.accepts.len() > 0 ==> g.last_us == Some(g.accepts.last()))
    &&& forall|i: int|
        0 <= i < g.accepts.len() - 1 ==> #[trigger] g.accepts[i] + g.interval_us <= g.accepts[i
            + 1]
}

/// The throttle test: the first frame is always accepted; afterwards a frame
/// is accepted only when a full interval has passed since the last accepted
/// frame.
pub open spec fn gate_accepts(g: GateModel, now_us: u64) -> bool {
    match g.last_us {
        None => true,
        Some(last) => last <= now_us && now_us - last >= g.interval_us,
    }
}

/// The throttle's state after accepting a frame at `now_us`.
pub open spec fn gate_after(g: GateModel, now_us: u64) -> GateModel {
    GateModel {
        interval_us: g.interval_us,
        last_us: Some(now_us),
        accepts: g.accepts.push(now_us),
    }
}

/// The interval, in microseconds, between frames accepted at a target rate.
pub open spec fn interval_for_rate(rate_hz: u32) -> u64
    recommends
        rate_hz >= 1,
{
    1_000_000u64 / (rate_hz as u64)
}

/// Throttles one capture session's frame callbacks to a target rate.
pub struct ThrottleGate {
    interval_us: u64,
    last_us: Option<u64>,
    accepts: Ghost<Seq<u64>>,
}

impl View for ThrottleGate {
    type V = GateModel;

    closed spec fn view(&self) -> GateModel {
        GateModel { interval_us: self.interval_us, last_us: self.last_us, accepts: self.accepts@ }
    }
}

impl ThrottleGate {
    /// The throttle's history is well formed.
    pub open spec fn wf(&self) -> bool {
        gate_wf(self@)
    }

    /// A fresh gate for the given target rate; no frame was accepted yet.
    pub fn new(rate_hz: u32) -> (gate: ThrottleGate)
        requires
            rate_hz >= 1,
        ensures
            gate@ == (GateModel {
                interval_us: interval_for_rate(rate_hz),
                last_us: None::<u64>,
                accepts: Seq::<u64>::empty(),
            }),
            gate.wf(),
    {
        ThrottleGate {
            interval_us: 1_000_000u64 / (rate_hz as u64),
            last_us: None,
            accepts: Ghost(Seq::empty()),
        }
    }

    /// Judge one upstream callback arriving at `now_us`: on acceptance the
    /// callback's time becomes the new reference point; on rejection the
    /// gate is left exactly as it was.
    pub fn observe(&mut self, now_us: u64) -> (accepted: bool)
        requires
            old(self).wf(),
        ensures
            final(self).wf(),
            accepted == gate_accepts(old(self)@, now_us),
            accepted ==> final(self)@ == gate_after(old(self)@, now_us),
            !accepted ==> final(self)@ == old(self)@,
    {
        let accept = match self.last_us {
            None => true,
            Some(last) => now_us >= last && now_us - last >= self.interval_us,
        };
        if accept {
            proof {
                let a = self@.accepts;
                let b = a.push(now_us);
                assert(forall|i: int| 0 <= i < a.len() ==> b[i] == a[i]);
                assert(b.last() == now_us);
            }
            self.last_us = Some(now_us);
            self.accepts = Ghost(self.accepts@.push(now_us));
        }
        accept
    }
}

/// Consecutive accepted times at least `interval` apart span at least
/// `(len - 1) * interval` from first to last.
proof fn lemma_gap_span(accepts: Seq<u64>, interval: u64)
    requires
        accepts.len() >= 1,
        forall|i: int|
            0 <= i < accepts.len() - 1 ==> #[trigger] accepts[i] + interval <= accepts[i + 1],
    ensures
        accepts.first() + (accepts.len() - 1) * interval <= accepts.last(),
    decreases accepts.len(),
{
    if accepts.len() > 1 {
        let n = accepts.len() as int;
        let prefix = accepts.drop_last();
        assert forall|i: int|
            0 <= i < prefix.len() - 1 implies #[trigger] prefix[i] + interval <= prefix[i
            + 1] by {
            assert(prefix[i] == accepts[i]);
            assert(prefix[i + 1] == accepts[i + 1]);
        }
        lemma_gap_span(prefix, interval);
        assert(prefix.len() == n - 1);
        assert(prefix.first() == accepts.first());
        assert(prefix.last() == accepts[n - 2]);
        assert(accepts.first() + (n - 2) * interval <= accepts[n - 2]);
        assert(accepts[n - 2] + interval <= accepts[n - 1]);
        assert((n - 2) * interval + interval == (n - 1) * interval) by (nonlinear_arith);
        assert(accepts.last() == accepts[n - 1]);
        assert(accepts.first() + (n - 1) * interval <= accepts.last());
    } else {
        assert(accepts.len() == 1);
        assert(accepts.first() == accepts.last());
        assert((accepts.len() - 1) * interval == 0) by (nonlinear_arith)
            requires accepts.len() == 1,
        ;
    }
}

/// Rate law of the throttle: over any time window, a well-formed gate has
/// accepted at most one frame more than the window holds whole intervals,
/// whatever the upstream callback cadence was. With the interval set to
/// `1/F` this bounds the forwarded frames in a window of length `T` by
/// `F * T + 1`.
pub proof fn lemma_throttle_window_bound(g: GateModel, t0: int, t1: int)
    requires
        gate_wf(g),
        t0 <= t1,
        forall|i: int| 0 <= i < g.accepts.len() ==> t0 <= #[trigger] g.accepts[i] <= t1,
    ensures
        g.accepts.len() * g.interval_us <= (t1 - t0) + g.interval_us,
        g.interval_us > 0 ==> g.accepts.len() <= (t1 - t0) / (g.interval_us as int) + 1,
{
    let len = g.accepts.len() as int;
    let ivl = g.interval_us as int;
    if len > 0 {
        lemma_gap_span(g.accepts, g.interval_us);
        assert(t0 <= g.accepts.first());
        assert(g.accepts.last() <= t1);
        assert((len - 1) * ivl <= t1 - t0);
        assert(len * ivl == (len - 1) * ivl + ivl) by {
            lemma_mul_is_distributive_sub_other_way(ivl, len, 1);
        }
        if ivl > 0 {
            lemma_div_is_ordered((len - 1) * ivl, t1 - t0, ivl);
            lemma_div_multiples_vanish(len - 1, ivl);
            assert((ivl * (len - 1)) == ((len - 1) * ivl)) by {
                vstd::arithmetic::mul::lemma_mul_is_commutative(ivl, len - 1);
            }
            assert(len - 1 <= (t1 - t0) / ivl);
        }
    } else {
        assert(len * ivl == 0) by {
            vstd::arithmetic::mul::lemma_mul_by_zero_is_zero(ivl);
        }
    }
}

} // verus!
