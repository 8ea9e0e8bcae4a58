//! A repeating countdown that paces automatic enemy creation.
use vstd::prelude::*;

verus! {

/// Period of the spawn countdown: one second.
pub const SPAWN_PERIOD_US: u64 = 1_000_000;

/// A repeating countdown. `elapsed_us` is the time since the period last
/// ran out; what overshoots a period carries over into the next one.
#[derive(Clone, Copy, Debug)]
pub struct SpawnTimer {
    pub period_us: u64,
    pub elapsed_us: u64,
}

/// Timer and "ran out during this tick" after advancing `t` by `delta_us`.
pub open spec fn tick_result(t: SpawnTimer, delta_us: u64) -> (SpawnTimer, bool) {
    let total = t.elapsed_us + delta_us;
    (
        SpawnTimer { period_us: t.period_us, elapsed_us: (total % (t.period_us as int)) as u64 },
        total >= t.period_us,
    )
}

impl SpawnTimer {
    pub open spec fn wf(&self) -> bool {
        0 < self.period_us && self.elapsed_us < self.period_us
    }

    /// A countdown of the given period that has just started.
    pub fn new(period_us: u64) -> (r: SpawnTimer)
        requires
            period_us > 0,
        ensures
            r.wf(),
            r.period_us == period_us,
            r.elapsed_us == 0,
    {
        SpawnTimer { period_us, elapsed_us: 0 }
    }

    /// Advances the countdown by `delta_us`; returns whether a period ran out
    /// during this tick (once, however many periods passed).
    pub fn tick(&mut self, delta_us: u64) -> (fired: bool)
        requires
            old(self).wf(),
        ensures
            final(self).wf(),
            (*final(self), fired) == tick_result(*old(self), delta_us),
    {
        let left = self.period_us - self.elapsed_us;
        if delta_us >= left {
            let over = delta_us - left;
            proof {
                let p = self.period_us as int;
                let total = self.elapsed_us + delta_us;
                assert(total == over + p);
                vstd::arithmetic::div_mod::lemma_mod_add_multiples_vanish(over as int, p);
            }
            self.elapsed_us = over % self.period_us;
            true
        } else {
            proof {
                vstd::arithmetic::div_mod::lemma_small_mod(
                    (self.elapsed_us + delta_us) as nat,
                    self.period_us as nat,
                );
            }
            self.elapsed_us = self.elapsed_us + delta_us;
            false
        }
    }
}

/// The countdown after the ticks `deltas`, one after the other.
pub open spec fn ticked(t: SpawnTimer, deltas: Seq<u64>) -> SpawnTimer
    decreases deltas.len(),
{
    if deltas.len() == 0 {
        t
    } else {
        tick_result(ticked(t, deltas.drop_last()), deltas.last()).0
    }
}

/// How many of the ticks `deltas` report that the countdown ran out.
pub open spec fn fire_count(t: SpawnTimer, deltas: Seq<u64>) -> nat
    decreases deltas.len(),
{
    if deltas.len() == 0 {
        0
    } else {
        fire_count(t, deltas.drop_last()) + if tick_result(
            ticked(t, deltas.drop_last()),
            deltas.last(),
        ).1 {
            1nat
        } else {
            0nat
        }
    }
}

/// The sum of `deltas`.
pub open spec fn total_time(deltas: Seq<u64>) -> nat
    decreases deltas.len(),
{
    if deltas.len() == 0 {
        0
    } else {
        total_time(deltas.drop_last()) + deltas.last() as nat
    }
}

/// Over ticks none longer than a period, the countdown runs out once for
/// each period that the time since it started fills: with `elapsed` the
/// time it had already run and `total` the time of the ticks, it runs out
/// `(elapsed + total) / period` times and then stands at
/// `(elapsed + total) % period`.
pub proof fn lemma_fires_once_per_period(t: SpawnTimer, deltas: Seq<u64>)
    requires
        t.wf(),
        forall|i: int| 0 <= i < deltas.len() ==> #[trigger] deltas[i] <= t.period_us,
    ensures
        fire_count(t, deltas) == (t.elapsed_us + total_time(deltas)) / (t.period_us as int),
        ticked(t, deltas).elapsed_us == (t.elapsed_us + total_time(deltas)) % (t.period_us as int),
        ticked(t, deltas).period_us == t.period_us,
    decreases deltas.len(),
{
    let p = t.period_us as int;
    if deltas.len() == 0 {
        vstd::arithmetic::div_mod::lemma_small_mod(t.elapsed_us as nat, p as nat);
        vstd::arithmetic::div_mod::lemma_basic_div(t.elapsed_us as int, p);
    } else {
        let init = deltas.drop_last();
        assert forall|i: int| 0 <= i < init.len() implies #[trigger] init[i] <= t.period_us by {
            assert(init[i] == deltas[i]);
        }
        lemma_fires_once_per_period(t, init);
        let d = deltas.last() as int;
        assert(d <= p) by {
            assert(deltas[deltas.len() - 1] <= t.period_us);
        }
        let before = t.elapsed_us + total_time(init);
        let e = before % p;
        let q = before / p;
        vstd::arithmetic::div_mod::lemma_fundamental_div_mod(before, p);
        vstd::arithmetic::div_mod::lemma_mod_bound(before, p);
        let after = before + d;
        assert(after == q * p + (e + d));
        if e + d >= p {
            assert(after == (q + 1) * p + (e + d - p)) by (nonlinear_arith)
                requires
                    after == q * p + (e + d),
            ;
            vstd::arithmetic::div_mod::lemma_fundamental_div_mod_converse(after, p, q + 1, e + d - p);
            vstd::arithmetic::div_mod::lemma_fundamental_div_mod_converse(e + d, p, 1, e + d - p);
        } else {
            vstd::arithmetic::div_mod::lemma_fundamental_div_mod_converse(after, p, q, e + d);
            vstd::arithmetic::div_mod::lemma_small_mod((e + d) as nat, p as nat);
        }
    }
}

} // verus!
