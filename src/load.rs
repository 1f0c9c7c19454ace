use vstd::prelude::*;

verus! {

/// Samples the rolling window keeps.
pub const LOAD_WINDOW: usize = 32;

/// Samples needed before the window can report overload.
pub const LOAD_MIN_SAMPLES: usize = 4;

/// Average tile time above which the compute path counts as overloaded, in microseconds.
pub const LOAD_THRESHOLD_US: u64 = 6000;

/// Average tile time below which an elapsed overload may end at once, in microseconds
/// (the threshold times 0.45).
pub const LOAD_RECOVER_US: u64 = 2700;

/// How long an overload lasts from the reading that caused it, in milliseconds.
pub const LOAD_COOLDOWN_MS: u64 = 80;

/// Sum of a window of samples.
pub open spec fn window_sum(w: Seq<u32>) -> int
    decreases w.len(),
{
    if w.len() == 0 {
        0
    } else {
        window_sum(w.drop_last()) + w.last()
    }
}

/// The window after recording `x`: the sample is appended and the oldest dropped past the
/// window's size.
pub open spec fn window_after(w: Seq<u32>, x: u32) -> Seq<u32> {
    if w.len() + 1 > LOAD_WINDOW {
        w.push(x).drop_first()
    } else {
        w.push(x)
    }
}

/// The window reads as overloaded: enough samples, and an average above the threshold.
pub open spec fn window_overloaded(w: Seq<u32>) -> bool {
    w.len() >= LOAD_MIN_SAMPLES && window_sum(w) > LOAD_THRESHOLD_US * w.len()
}

/// The window reads as recovered: an average below the recovery level.
pub open spec fn window_recovered(w: Seq<u32>) -> bool {
    window_sum(w) < LOAD_RECOVER_US * w.len()
}

/// The overload deadline after a reading of window `w` at time `now`.
pub open spec fn deadline_after(w: Seq<u32>, deadline: u64, now: u64) -> u64 {
    if window_overloaded(w) {
        if now <= u64::MAX - LOAD_COOLDOWN_MS {
            (now + LOAD_COOLDOWN_MS) as u64
        } else {
            u64::MAX
        }
    } else if window_recovered(w) && now >= deadline {
        now
    } else {
        deadline
    }
}

/// Tracks recent tile times and decides when the compute path is overloaded.
pub struct LoadMonitor {
    samples: Vec<u32>,
    overloaded_until: u64,
}

proof fn lemma_window_sum_bound(w: Seq<u32>)
    ensures
        0 <= window_sum(w) <= w.len() * 0xffff_ffff,
    decreases w.len(),
{
    if w.len() > 0 {
        lemma_window_sum_bound(w.drop_last());
    }
}

proof fn lemma_sum_above(w: Seq<u32>, t: int)
    requires
        forall|i: int| 0 <= i < w.len() ==> #[trigger] w[i] > t,
        w.len() > 0,
    ensures
        window_sum(w) > t * w.len(),
    decreases w.len(),
{
    let d = w.drop_last();
    assert(w.last() == w[w.len() - 1]);
    if w.len() > 1 {
        assert forall|i: int| 0 <= i < d.len() implies #[trigger] d[i] > t by {
            assert(d[i] == w[i]);
        }
        lemma_sum_above(d, t);
    } else {
        assert(window_sum(d) == 0);
    }
    assert(t * w.len() == t * d.len() + t) by (nonlinear_arith)
        requires d.len() == w.len() - 1;
}

proof fn lemma_sum_below(w: Seq<u32>, t: int)
    requires
        forall|i: int| 0 <= i < w.len() ==> #[trigger] w[i] < t,
        w.len() > 0,
    ensures
        window_sum(w) < t * w.len(),
    decreases w.len(),
{
    let d = w.drop_last();
    assert(w.last() == w[w.len() - 1]);
    if w.len() > 1 {
        assert forall|i: int| 0 <= i < d.len() implies #[trigger] d[i] < t by {
            assert(d[i] == w[i]);
        }
        lemma_sum_below(d, t);
    } else {
        assert(window_sum(d) == 0);
    }
    assert(t * w.len() == t * d.len() + t) by (nonlinear_arith)
        requires d.len() == w.len() - 1;
}

/// Overload under sustained load: once a reading leaves at least four samples in the window,
/// all above the threshold, the compute path stays overloaded at every time from that reading
/// until the cooldown has passed.
pub proof fn lemma_sustained_load_overloads(w: Seq<u32>, x: u32, deadline: u64, now: u64, t: u64)
    requires
        w.len() <= LOAD_WINDOW,
        window_after(w, x).len() >= LOAD_MIN_SAMPLES,
        forall|i: int| 0 <= i < window_after(w, x).len() ==> #[trigger] window_after(w, x)[i] > LOAD_THRESHOLD_US,
        now <= u64::MAX - LOAD_COOLDOWN_MS,
        now <= t < now + LOAD_COOLDOWN_MS,
    ensures
        window_overloaded(window_after(w, x)),
        t < deadline_after(window_after(w, x), deadline, now),
{
    lemma_sum_above(window_after(w, x), LOAD_THRESHOLD_US as int);
}

/// Recovery: once the cooldown has passed and a reading leaves only samples below the
/// recovery level in the window, the overload ends at that reading.
pub proof fn lemma_light_load_recovers(w: Seq<u32>, x: u32, deadline: u64, now: u64, t: u64)
    requires
        w.len() <= LOAD_WINDOW,
        forall|i: int| 0 <= i < window_after(w, x).len() ==> #[trigger] window_after(w, x)[i] < LOAD_RECOVER_US,
        now >= deadline,
        t >= now,
    ensures
        window_recovered(window_after(w, x)),
        deadline_after(window_after(w, x), deadline, now) == now,
        !(t < deadline_after(window_after(w, x), deadline, now)),
{
    let v = window_after(w, x);
    assert(v.len() > 0);
    lemma_sum_below(v, LOAD_RECOVER_US as int);
    assert(LOAD_RECOVER_US * v.len() <= LOAD_THRESHOLD_US * v.len()) by (nonlinear_arith);
}

impl LoadMonitor {
    /// The samples in the window, oldest first, in microseconds.
    pub closed spec fn window(&self) -> Seq<u32> {
        self.samples@
    }

    /// The time, in milliseconds, until which the compute path counts as overloaded.
    pub closed spec fn deadline(&self) -> u64 {
        self.overloaded_until
    }

    pub open spec fn wf(&self) -> bool {
        self.window().len() <= LOAD_WINDOW
    }

    /// A monitor without samples, not overloaded from time `now` on.
    pub fn new(now: u64) -> (r: LoadMonitor)
        ensures
            r.wf(),
            r.window() == Seq::<u32>::empty(),
            r.deadline() == now,
    {
        LoadMonitor { samples: Vec::new(), overloaded_until: now }
    }

    fn sum(&self) -> (r: u64)
        requires
            self.wf(),
        ensures
            r == window_sum(self.window()),
    {
        let mut total: u64 = 0;
        let mut i: usize = 0;
        while i < self.samples.len()
            invariant
                self.wf(),
                i <= self.samples@.len(),
                total == window_sum(self.samples@.subrange(0, i as int)),
            decreases self.samples@.len() - i,
        {
            proof {
                let w = self.samples@.subrange(0, i as int + 1);
                assert(w.drop_last() =~= self.samples@.subrange(0, i as int));
                lemma_window_sum_bound(self.samples@.subrange(0, i as int));
                assert(i * 0xffff_ffff <= 32 * 0xffff_ffff) by (nonlinear_arith)
                    requires i <= 32;
            }
            total = total + self.samples[i] as u64;
            i = i + 1;
        }
        proof {
            assert(self.samples@.subrange(0, i as int) =~= self.samples@);
        }
        total
    }

    /// Records the time one tile took (`tile_us`, microseconds) at time `now` (milliseconds)
    /// and updates the overload deadline.
    pub fn record(&mut self, tile_us: u32, now: u64)
        requires
            old(self).wf(),
        ensures
            final(self).wf(),
            final(self).window() == window_after(old(self).window(), tile_us),
            final(self).deadline() == deadline_after(
                window_after(old(self).window(), tile_us),
                old(self).deadline(),
                now,
            ),
    {
        self.samples.push(tile_us);
        if self.samples.len() > LOAD_WINDOW {
            self.samples.remove(0);
            proof {
                assert(self.samples@ =~= old(self).samples@.push(tile_us).drop_first());
            }
        }
        let total = self.sum();
        let n = self.samples.len() as u64;
        if self.samples.len() >= LOAD_MIN_SAMPLES && total > LOAD_THRESHOLD_US * n {
            self.overloaded_until = if now <= u64::MAX - LOAD_COOLDOWN_MS {
                now + LOAD_COOLDOWN_MS
            } else {
                u64::MAX
            };
        } else if total < LOAD_RECOVER_US * n {
            if now >= self.overloaded_until {
                self.overloaded_until = now;
            }
        }
    }

    /// Whether the compute path is overloaded at time `now`.
    pub fn is_overloaded(&self, now: u64) -> (r: bool)
        ensures
            r == (now < self.deadline()),
    {
        now < self.overloaded_until
    }

    /// Forgets all samples and ends any overload at time `now`.
    pub fn reset(&mut self, now: u64)
        ensures
            final(self).wf(),
            final(self).window() == Seq::<u32>::empty(),
            final(self).deadline() == now,
    {
        self.samples.clear();
        self.overloaded_until = now;
    }
}

} // verus!
