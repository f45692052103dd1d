//! The most recent samples of a measurement, and their percentiles.
use vstd::prelude::*;

verus! {

/// How many samples a window keeps.
pub const SAMPLE_WINDOW: usize = 8192;

/// The last of `samples`, as many as a window keeps.
pub open spec fn recent(samples: Seq<u32>) -> Seq<u32> {
    if samples.len() <= SAMPLE_WINDOW {
        samples
    } else {
        samples.skip(samples.len() - SAMPLE_WINDOW)
    }
}

/// The order of samples.
pub open spec fn at_most() -> spec_fn(u32, u32) -> bool {
    |a: u32, b: u32| a <= b
}

/// Where the nearest-rank percentile stands among `n` sorted samples: the
/// smallest rank that covers `percent` of them, as an index.
pub open spec fn rank_of(n: int, percent: int) -> int {
    let rank = (percent * n + 99) / 100;
    if rank < 1 {
        0
    } else if rank > n {
        n - 1
    } else {
        rank - 1
    }
}

/// The nearest-rank percentile of `samples`, 0 where there are none.
pub open spec fn percentile(samples: Seq<u32>, percent: int) -> u32 {
    if samples.len() == 0 {
        0
    } else {
        samples.sort_by(at_most())[rank_of(samples.len() as int, percent)]
    }
}

/// Samples compare as numbers do.
proof fn lemma_total()
    ensures
        vstd::relations::total_ordering(at_most()),
{
    reveal(vstd::relations::reflexive);
    reveal(vstd::relations::antisymmetric);
    reveal(vstd::relations::transitive);
    reveal(vstd::relations::strongly_connected);
    reveal(vstd::relations::total_ordering);
}

/// A higher percentile of the same samples is no smaller.
pub proof fn percentiles_ascend(samples: Seq<u32>, low: int, high: int)
    requires
        0 <= low <= high <= 100,
    ensures
        percentile(samples, low) <= percentile(samples, high),
{
    if samples.len() > 0 {
        let n = samples.len() as int;
        let sorted = samples.sort_by(at_most());
        lemma_total();
        samples.lemma_sort_by_ensures(at_most());
        vstd::seq_lib::to_multiset_len(samples);
        vstd::seq_lib::to_multiset_len(sorted);
        assert(low * n <= high * n) by (nonlinear_arith)
            requires
                low <= high,
                n > 0,
        ;
        let i = rank_of(n, low);
        let j = rank_of(n, high);
        assert(0 <= i <= j < n);
        if i < j {
            assert(at_most()(sorted[i], sorted[j]));
        }
    }
}

/// The most recent samples, as a ring.
///
/// Percentiles describe this window rather than all time, which is what a
/// reader wants when asking whether the server is misbehaving *now*.
pub struct SampleWindow {
    samples: Vec<u32>,
    next: usize,
    pushed: Ghost<Seq<u32>>,
}

impl View for SampleWindow {
    type V = Seq<u32>;

    /// All samples that were ever pushed, in turn.
    closed spec fn view(&self) -> Seq<u32> {
        self.pushed@
    }
}

impl SampleWindow {
    /// The samples that are kept.
    pub closed spec fn kept(&self) -> Seq<u32> {
        self.samples@.skip(self.next as int) + self.samples@.take(self.next as int)
    }

    #[verifier::type_invariant]
    spec fn is_ring(self) -> bool {
        &&& self.samples@.len() <= SAMPLE_WINDOW
        &&& self.samples@.len() < SAMPLE_WINDOW ==> self.next == 0 && self.samples@.len()
            == self.pushed@.len()
        &&& self.samples@.len() == SAMPLE_WINDOW ==> self.next < SAMPLE_WINDOW
            && self.pushed@.len() >= SAMPLE_WINDOW
        &&& self.kept() == recent(self.pushed@)
    }

    /// A window without samples.
    pub fn new() -> (window: SampleWindow)
        ensures
            window@ == Seq::<u32>::empty(),
    {
        let samples: Vec<u32> = Vec::new();
        proof {
            assert(samples@.skip(0) + samples@.take(0) =~= recent(Seq::<u32>::empty()));
        }
        SampleWindow { samples, next: 0, pushed: Ghost(Seq::empty()) }
    }

    /// How many samples are kept.
    pub fn len(&self) -> (n: usize)
        ensures
            n == recent(self@).len(),
    {
        proof {
            use_type_invariant(self);
        }
        self.samples.len()
    }

    /// Adds a sample, in place of the oldest where the window is full.
    pub fn push(&mut self, sample: u32)
        ensures
            final(self)@ == old(self)@.push(sample),
    {
        proof {
            use_type_invariant(&*self);
        }
        let next: usize = self.next;
        let ghost before = self.samples@;
        let ghost pushed = self.pushed@;
        let ghost kept = self.kept();
        // The ring is taken apart, so that it is never seen half updated.
        let mut taken = SampleWindow::new();
        std::mem::swap(&mut taken, self);
        let mut samples = taken.into_samples();
        if samples.len() < SAMPLE_WINDOW {
            samples.push(sample);
            proof {
                let after = pushed.push(sample);
                assert(kept =~= before);
                assert(samples@.skip(0) + samples@.take(0) =~= after);
                assert(recent(after) =~= after);
            }
            *self = SampleWindow { samples, next, pushed: Ghost(pushed.push(sample)) };
        } else {
            samples.set(next, sample);
            let following: usize = if next + 1 == SAMPLE_WINDOW {
                0
            } else {
                next + 1
            };
            proof {
                let after = pushed.push(sample);
                assert(recent(after) =~= recent(pushed).drop_first().push(sample));
                assert(samples@.skip(following as int) + samples@.take(following as int)
                    =~= kept.drop_first().push(sample));
            }
            *self = SampleWindow { samples, next: following, pushed: Ghost(pushed.push(sample)) };
        }
    }

    /// The samples as they are stored.
    fn into_samples(self) -> (samples: Vec<u32>)
        ensures
            samples == self.samples,
    {
        self.samples
    }

    /// The kept samples in ascending order.
    fn sorted(&self) -> (out: Vec<u32>)
        ensures
            out@ == recent(self@).sort_by(at_most()),
            out@.len() == recent(self@).len(),
    {
        proof {
            use_type_invariant(self);
        }
        let n: usize = self.samples.len();
        let mut out: Vec<u32> = Vec::new();
        let mut i: usize = 0;
        assert(self.samples@.take(0) =~= out@);
        while i < n
            invariant
                n == self.samples@.len(),
                i <= n,
                out@.len() == i,
                out@.to_multiset() == self.samples@.take(i as int).to_multiset(),
                forall|a: int, b: int| 0 <= a <= b < out@.len() ==> out@[a] <= out@[b],
            decreases n - i,
        {
            let sample = self.samples[i];
            let mut low: usize = 0;
            let mut high: usize = out.len();
            while low < high
                invariant
                    low <= high <= out@.len(),
                    forall|a: int| 0 <= a < low ==> out@[a] <= sample,
                    forall|a: int| high <= a < out@.len() ==> sample <= out@[a],
                    forall|a: int, b: int| 0 <= a <= b < out@.len() ==> out@[a] <= out@[b],
                decreases high - low,
            {
                let middle: usize = low + (high - low) / 2;
                if out[middle] <= sample {
                    low = middle + 1;
                } else {
                    high = middle;
                }
            }
            let ghost before = out@;
            out.insert(low, sample);
            proof {
                vstd::seq_lib::to_multiset_insert(before, low as int, sample);
                vstd::seq_lib::to_multiset_build(self.samples@.take(i as int), sample);
                assert(self.samples@.take(i as int).push(sample) =~= self.samples@.take(i + 1));
            }
            i += 1;
        }
        proof {
            assert(self.samples@.take(n as int) =~= self.samples@);
            let tail = self.samples@.skip(self.next as int);
            let head = self.samples@.take(self.next as int);
            assert(head + tail =~= self.samples@);
            vstd::seq_lib::lemma_multiset_commutative(head, tail);
            vstd::seq_lib::lemma_multiset_commutative(tail, head);
            assert(self.samples@.to_multiset() =~= recent(self@).to_multiset());
            lemma_total();
            recent(self@).lemma_sort_by_ensures(at_most());
            assert(vstd::relations::sorted_by(out@, at_most()));
            vstd::seq_lib::lemma_sorted_unique(
                out@,
                recent(self@).sort_by(at_most()),
                at_most(),
            );
        }
        out
    }

    /// The median, and the samples that 95 and 99 of a hundred do not exceed.
    pub fn percentiles(&self) -> (found: (u32, u32, u32))
        ensures
            found.0 == percentile(recent(self@), 50),
            found.1 == percentile(recent(self@), 95),
            found.2 == percentile(recent(self@), 99),
    {
        proof {
            use_type_invariant(self);
        }
        let sorted = self.sorted();
        if sorted.len() == 0 {
            return (0, 0, 0);
        }
        (ranked(&sorted, 50), ranked(&sorted, 95), ranked(&sorted, 99))
    }
}

/// The element of sorted samples at a nearest-rank percentile.
fn ranked(sorted: &Vec<u32>, percent: u64) -> (value: u32)
    requires
        0 < sorted@.len() <= SAMPLE_WINDOW,
        percent <= 100,
    ensures
        value == sorted@[rank_of(sorted@.len() as int, percent as int)],
{
    let n: usize = sorted.len();
    assert(percent * n <= 100 * n) by (nonlinear_arith)
        requires
            percent <= 100,
    ;
    assert(0 <= percent * n) by (nonlinear_arith)
        requires
            percent >= 0,
            n >= 0,
    ;
    let rank: u64 = (percent * n as u64 + 99) / 100;
    assert(rank as int == (percent as int * n as int + 99) / 100);
    if rank < 1 {
        sorted[0]
    } else {
        assert(rank <= n);
        sorted[rank as usize - 1]
    }
}

} // verus!
