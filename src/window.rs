use std::collections::VecDeque;
use vstd::prelude::*;

use crate::sample::FeeSample;

verus! {

/// The number of samples a window retains.
pub const WINDOW_CAPACITY: usize = 144;

/// A fixed-capacity, insertion-ordered buffer of fee samples.
///
/// Once full, every new sample evicts the oldest one, so the window always
/// holds the most recent `WINDOW_CAPACITY` samples at most, oldest first.
pub struct SampleWindow {
    samples: VecDeque<FeeSample>,
}

impl View for SampleWindow {
    type V = Seq<FeeSample>;

    closed spec fn view(&self) -> Seq<FeeSample> {
        self.samples@
    }
}

/// What a window holds after `s` is appended to a window holding `w`.
pub open spec fn appended(w: Seq<FeeSample>, s: FeeSample) -> Seq<FeeSample> {
    if w.len() >= WINDOW_CAPACITY {
        w.drop_first().push(s)
    } else {
        w.push(s)
    }
}

/// What a window that starts empty holds after each of `samples` is
/// appended in turn.
pub open spec fn ingest_all(samples: Seq<FeeSample>) -> Seq<FeeSample>
    decreases samples.len(),
{
    if samples.len() == 0 {
        Seq::empty()
    } else {
        appended(ingest_all(samples.drop_last()), samples.last())
    }
}

/// The last `WINDOW_CAPACITY` entries of `samples` (all of them if fewer).
pub open spec fn newest(samples: Seq<FeeSample>) -> Seq<FeeSample> {
    if samples.len() > WINDOW_CAPACITY {
        samples.subrange(samples.len() - WINDOW_CAPACITY, samples.len() as int)
    } else {
        samples
    }
}

/// After any sequence of appends to an empty window, the window holds at most
/// `WINDOW_CAPACITY` samples: exactly the newest ones, in the order they came.
pub proof fn lemma_window_keeps_newest(samples: Seq<FeeSample>)
    ensures
        ingest_all(samples) == newest(samples),
        ingest_all(samples).len() <= WINDOW_CAPACITY,
    decreases samples.len(),
{
    if samples.len() > 0 {
        let p = samples.drop_last();
        lemma_window_keeps_newest(p);
        if p.len() >= WINDOW_CAPACITY {
            assert(newest(p).drop_first().push(samples.last()) =~= newest(samples));
        } else {
            assert(p.push(samples.last()) =~= samples);
        }
    }
}

impl SampleWindow {
    #[verifier::type_invariant]
    spec fn bounded(&self) -> bool {
        self.samples@.len() <= WINDOW_CAPACITY
    }

    /// Creates an empty window.
    pub fn new() -> (w: SampleWindow)
        ensures
            w@ == Seq::<FeeSample>::empty(),
    {
        SampleWindow { samples: VecDeque::new() }
    }

    /// Appends `sample` as the newest entry, first evicting the oldest entry
    /// when the window is full.
    pub fn append(&mut self, sample: FeeSample)
        ensures
            final(self)@ == appended(old(self)@, sample),
            final(self)@.len() <= WINDOW_CAPACITY,
            final(self)@.last() == sample,
    {
        proof {
            use_type_invariant(&*self);
        }
        let mut taken = SampleWindow::new();
        std::mem::swap(self, &mut taken);
        let SampleWindow { mut samples } = taken;
        if samples.len() >= WINDOW_CAPACITY {
            let _ = samples.pop_front();
        }
        samples.push_back(sample);
        *self = SampleWindow { samples };
    }

    /// The number of samples retained.
    pub fn len(&self) -> (r: usize)
        ensures
            r == self@.len(),
            r <= WINDOW_CAPACITY,
    {
        proof {
            use_type_invariant(self);
        }
        self.samples.len()
    }

    /// Whether no sample is retained.
    pub fn is_empty(&self) -> (r: bool)
        ensures
            r == (self@.len() == 0),
    {
        self.samples.len() == 0
    }

    /// The newest sample, if any.
    pub fn last(&self) -> (r: Option<FeeSample>)
        ensures
            r == (if self@.len() == 0 {
                None
            } else {
                Some(self@.last())
            }),
    {
        let n = self.samples.len();
        if n == 0 {
            None
        } else {
            Some(self.samples[n - 1])
        }
    }

    /// An ordered copy of the retained samples, oldest first.
    pub fn snapshot(&self) -> (r: Vec<FeeSample>)
        ensures
            r@ == self@,
            r@.len() <= WINDOW_CAPACITY,
    {
        proof {
            use_type_invariant(self);
        }
        let n = self.samples.len();
        let mut out: Vec<FeeSample> = Vec::with_capacity(n);
        let mut i: usize = 0;
        while i < n
            invariant
                n == self.samples@.len(),
                i <= n,
                out@ == self.samples@.subrange(0, i as int),
            decreases n - i,
        {
            out.push(self.samples[i]);
            i = i + 1;
            proof {
                assert(out@ =~= self.samples@.subrange(0, i as int));
            }
        }
        proof {
            assert(out@ =~= self.samples@);
        }
        out
    }
}

} // verus!
