//! A fixed-depth history of recent temperature samples, used to debounce
//! noisy sensor readings: the governor acts on the window's minimum and
//! maximum rather than on the instantaneous reading.

use vstd::prelude::*;

verus! {

/// How many recent samples the window holds.
pub const WINDOW_DEPTH: usize = 4;

/// The smallest value in a non-empty sequence of bytes.
pub open spec fn seq_min(s: Seq<u8>) -> u8
    recommends
        s.len() >= 1,
    decreases s.len(),
{
    if s.len() <= 1 {
        s[0]
    } else {
        let m = seq_min(s.drop_last());
        if s.last() < m {
            s.last()
        } else {
            m
        }
    }
}

/// The largest value in a non-empty sequence of bytes.
pub open spec fn seq_max(s: Seq<u8>) -> u8
    recommends
        s.len() >= 1,
    decreases s.len(),
{
    if s.len() <= 1 {
        s[0]
    } else {
        let m = seq_max(s.drop_last());
        if s.last() > m {
            s.last()
        } else {
            m
        }
    }
}

/// The minimum is a lower bound on the window and is attained by some
/// sample.
pub proof fn lemma_seq_min_properties(s: Seq<u8>)
    requires
        s.len() >= 1,
    ensures
        forall|i: int| 0 <= i < s.len() ==> seq_min(s) <= s[i],
        exists|i: int| 0 <= i < s.len() && seq_min(s) == s[i],
    decreases s.len(),
{
    if s.len() > 1 {
        let t = s.drop_last();
        lemma_seq_min_properties(t);
        assert forall|i: int| 0 <= i < s.len() implies seq_min(s) <= s[i] by {
            if i < s.len() - 1 {
                assert(t[i] == s[i]);
                assert(seq_min(t) <= t[i]);
            }
        }
        if s.last() < seq_min(t) {
            assert(seq_min(s) == s[s.len() - 1]);
        } else {
            let j = choose|j: int| 0 <= j < t.len() && seq_min(t) == t[j];
            assert(seq_min(s) == s[j]);
        }
    } else {
        assert(seq_min(s) == s[0]);
    }
}

/// The maximum is an upper bound on the window and is attained by some
/// sample.
pub proof fn lemma_seq_max_properties(s: Seq<u8>)
    requires
        s.len() >= 1,
    ensures
        forall|i: int| 0 <= i < s.len() ==> s[i] <= seq_max(s),
        exists|i: int| 0 <= i < s.len() && seq_max(s) == s[i],
    decreases s.len(),
{
    if s.len() > 1 {
        let t = s.drop_last();
        lemma_seq_max_properties(t);
        assert forall|i: int| 0 <= i < s.len() implies s[i] <= seq_max(s) by {
            if i < s.len() - 1 {
                assert(t[i] == s[i]);
                assert(t[i] <= seq_max(t));
            }
        }
        if s.last() > seq_max(t) {
            assert(seq_max(s) == s[s.len() - 1]);
        } else {
            let j = choose|j: int| 0 <= j < t.len() && seq_max(t) == t[j];
            assert(seq_max(s) == s[j]);
        }
    } else {
        assert(seq_max(s) == s[0]);
    }
}

/// The last `WINDOW_DEPTH` raw temperature samples, oldest first; pushing
/// a sample evicts the oldest.
pub struct SampleWindow {
    pub samples: Vec<u8>,
}

impl View for SampleWindow {
    type V = Seq<u8>;

    open spec fn view(&self) -> Seq<u8> {
        self.samples@
    }
}

impl SampleWindow {
    /// The window always holds exactly `WINDOW_DEPTH` samples.
    pub open spec fn wf(self) -> bool {
        self@.len() == WINDOW_DEPTH
    }

    /// A window seeded with one reading, as at startup, so that the first
    /// minimum and maximum are that reading.
    pub fn new(initial: u8) -> (w: Self)
        ensures
            w.wf(),
            w@ == Seq::new(WINDOW_DEPTH as nat, |i: int| initial),
    {
        let mut samples: Vec<u8> = Vec::new();
        let mut i: usize = 0;
        while i < WINDOW_DEPTH
            invariant
                i <= WINDOW_DEPTH,
                samples@.len() == i,
                forall|j: int| 0 <= j < i ==> samples@[j] == initial,
            decreases WINDOW_DEPTH - i,
        {
            samples.push(initial);
            i += 1;
        }
        let w = SampleWindow { samples };
        proof {
            assert(w@ =~= Seq::new(WINDOW_DEPTH as nat, |i: int| initial));
        }
        w
    }

    /// Pushes the newest sample, evicting the oldest.
    pub fn push(&mut self, sample: u8)
        requires
            old(self).wf(),
        ensures
            final(self).wf(),
            final(self)@ == old(self)@.subrange(1, WINDOW_DEPTH as int).push(sample),
    {
        let _ = self.samples.remove(0);
        self.samples.push(sample);
        proof {
            assert(self@ =~= old(self)@.subrange(1, WINDOW_DEPTH as int).push(sample));
        }
    }

    /// The smallest sample currently in the window.
    pub fn min(&self) -> (m: u8)
        requires
            self.wf(),
        ensures
            m == seq_min(self@),
    {
        let mut m: u8 = self.samples[0];
        let mut i: usize = 1;
        while i < self.samples.len()
            invariant
                self.wf(),
                1 <= i <= self@.len(),
                m == seq_min(self@.subrange(0, i as int)),
            decreases self@.len() - i,
        {
            proof {
                assert(self@.subrange(0, i + 1).drop_last() =~= self@.subrange(0, i as int));
                assert(self@.subrange(0, i + 1).last() == self@[i as int]);
            }
            let s = self.samples[i];
            if s < m {
                m = s;
            }
            i += 1;
        }
        proof {
            assert(self@.subrange(0, self@.len() as int) =~= self@);
        }
        m
    }

    /// The largest sample currently in the window.
    pub fn max(&self) -> (m: u8)
        requires
            self.wf(),
        ensures
            m == seq_max(self@),
    {
        let mut m: u8 = self.samples[0];
        let mut i: usize = 1;
        while i < self.samples.len()
            invariant
                self.wf(),
                1 <= i <= self@.len(),
                m == seq_max(self@.subrange(0, i as int)),
            decreases self@.len() - i,
        {
            proof {
                assert(self@.subrange(0, i + 1).drop_last() =~= self@.subrange(0, i as int));
                assert(self@.subrange(0, i + 1).last() == self@[i as int]);
            }
            let s = self.samples[i];
            if s > m {
                m = s;
            }
            i += 1;
        }
        proof {
            assert(self@.subrange(0, self@.len() as int) =~= self@);
        }
        m
    }
}

} // verus!
