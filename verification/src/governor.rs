//! The control loop's decision core: hysteresis state, band lookup, and
//! the per-tick step that turns a fresh sample into an optional duty
//! write.  The surrounding process performs the reads, writes and sleeps;
//! everything decided here is decided on plain byte values.
//!
//! The boundary convention is fixed once, here: the window leaves its
//! band when its maximum falls below the band's low threshold or rises
//! above its high threshold, and the re-evaluation searches the
//! lower-bound column for the leftmost band whose lower bound is at or
//! above the window minimum.

use vstd::prelude::*;
use crate::curve::CurveEntry;
use crate::curve::CurveTable;
use crate::curve::entries_wf;
use crate::window::SampleWindow;
use crate::window::WINDOW_DEPTH;
use crate::window::seq_max;
use crate::window::seq_min;

verus! {

/// Sentinel low threshold of a fresh governor state.
pub const INITIAL_LOW_THRESHOLD: u8 = 100;
/// Sentinel high threshold of a fresh governor state.
pub const INITIAL_HIGH_THRESHOLD: u8 = 0;

/// The hysteresis state the poll loop owns: the band last entered and the
/// thresholds that must be left before the band is re-evaluated.
#[derive(Clone, Copy, PartialEq, Eq, Structural, Debug)]
pub struct GovernorState {
    pub index: usize,
    pub low_threshold: u8,
    pub high_threshold: u8,
}

impl GovernorState {
    /// The startup state: the sentinel thresholds `(100, 0)` guarantee
    /// that the very first comparison re-evaluates the band, so the
    /// default index is never acted on.
    pub fn initial(n: usize) -> (st: GovernorState)
        requires
            n >= 1,
        ensures
            st.index == if n > 1 { 1int } else { 0int },
            st.index < n,
            st.low_threshold == INITIAL_LOW_THRESHOLD,
            st.high_threshold == INITIAL_HIGH_THRESHOLD,
    {
        let index: usize = if n > 1 { 1 } else { 0 };
        GovernorState {
            index,
            low_threshold: INITIAL_LOW_THRESHOLD,
            high_threshold: INITIAL_HIGH_THRESHOLD,
        }
    }
}

/// The thresholds match the entry the state's index points at.
pub open spec fn state_consistent(s: Seq<CurveEntry>, st: GovernorState) -> bool {
    &&& st.index < s.len()
    &&& st.low_threshold == s[st.index as int].low
    &&& st.high_threshold == s[st.index as int].high
}

/// The window has left the current band's deadzone: its maximum fell
/// below the low threshold or rose above the high threshold.
pub open spec fn escapes(st: GovernorState, max_temp: u8) -> bool {
    max_temp < st.low_threshold || max_temp > st.high_threshold
}

/// With the sentinel thresholds every reading escapes, whatever it is.
pub proof fn lemma_sentinel_always_escapes(st: GovernorState, max_temp: u8)
    requires
        st.low_threshold == INITIAL_LOW_THRESHOLD,
        st.high_threshold == INITIAL_HIGH_THRESHOLD,
    ensures
        escapes(st, max_temp),
{
}

/// How many entries have a lower bound below `key`; on a sorted table
/// this is the leftmost index whose lower bound is at or above `key`.
pub open spec fn band_count_below(s: Seq<CurveEntry>, key: u8) -> int
    decreases s.len(),
{
    if s.len() == 0 {
        0
    } else {
        band_count_below(s.drop_last(), key) + if s.last().low < key {
            1int
        } else {
            0int
        }
    }
}

/// If the first `i` entries all lie below `key`, at least `i` entries do.
pub proof fn lemma_count_at_least(s: Seq<CurveEntry>, key: u8, i: int)
    requires
        0 <= i <= s.len(),
        forall|j: int| 0 <= j < i ==> (#[trigger] s[j]).low < key,
    ensures
        band_count_below(s, key) >= i,
    decreases s.len(),
{
    if s.len() > 0 {
        let t = s.drop_last();
        assert(forall|j: int| 0 <= j < t.len() ==> t[j] == s[j]);
        if i == s.len() {
            lemma_count_at_least(t, key, i - 1);
        } else {
            lemma_count_at_least(t, key, i);
        }
    }
}

/// If the entries from `i` on all lie at or above `key`, at most `i`
/// entries lie below it.
pub proof fn lemma_count_at_most(s: Seq<CurveEntry>, key: u8, i: int)
    requires
        0 <= i,
        forall|j: int| i <= j < s.len() ==> (#[trigger] s[j]).low >= key,
    ensures
        band_count_below(s, key) <= i,
    decreases s.len(),
{
    if s.len() > 0 {
        let t = s.drop_last();
        assert(forall|j: int| 0 <= j < t.len() ==> t[j] == s[j]);
        let cap: int = if i > t.len() {
            t.len() as int
        } else {
            i
        };
        lemma_count_at_most(t, key, cap);
    }
}

/// The new band index for a window's `min`/`max` under the current state:
/// the idle band when even the maximum is at or below the table's first
/// lower bound; the top band when even the minimum is at or above the
/// table's last upper bound; otherwise, if the window escaped the current
/// deadzone, the leftmost band whose lower bound is at or above the
/// minimum (clamped into the table); otherwise the index is unchanged.
pub open spec fn spec_lookup(s: Seq<CurveEntry>, st: GovernorState, min_temp: u8, max_temp: u8) -> int {
    let n = s.len() as int;
    if max_temp <= s[0].low {
        0
    } else if min_temp >= s[n - 1].high {
        n - 1
    } else if escapes(st, max_temp) {
        let c = band_count_below(s, min_temp);
        if c < n - 1 {
            c
        } else {
            n - 1
        }
    } else {
        st.index as int
    }
}

/// Relies on bisection::bisect_left: on a slice sorted in non-decreasing
/// order it returns the index that splits the slice into the elements
/// below the key and the elements at or above it.
#[verifier::external_body]
fn bisect_left_bytes(a: &Vec<u8>, key: u8) -> (r: usize)
    requires
        forall|i: int, j: int| 0 <= i < j < a@.len() ==> a@[i] <= a@[j],
    ensures
        r <= a@.len(),
        forall|i: int| 0 <= i < r ==> a@[i] < key,
        forall|i: int| r <= i < a@.len() ==> a@[i] >= key,
{
    bisection::bisect_left(a.as_slice(), &key)
}

impl CurveTable {
    /// The hysteresis-aware band lookup, exactly as `spec_lookup` says.
    pub fn lookup(&self, min_temp: u8, max_temp: u8, st: &GovernorState) -> (idx: usize)
        requires
            self.wf(),
            st.index < self@.len(),
        ensures
            idx as int == spec_lookup(self@, *st, min_temp, max_temp),
            idx < self@.len(),
    {
        let n = self.entries.len();
        if max_temp <= self.entries[0].low {
            0
        } else if min_temp >= self.entries[n - 1].high {
            n - 1
        } else if max_temp < st.low_threshold || max_temp > st.high_threshold {
            proof {
                assert forall|i: int, j: int|
                    0 <= i < j < self.lows@.len() implies self.lows@[i] <= self.lows@[j] by {
                    assert(self.lows@[i] == self@[i].low);
                    assert(self.lows@[j] == self@[j].low);
                }
            }
            let c = bisect_left_bytes(&self.lows, min_temp);
            proof {
                lemma_count_at_least(self@, min_temp, c as int);
                lemma_count_at_most(self@, min_temp, c as int);
            }
            if c < n - 1 {
                c
            } else {
                n - 1
            }
        } else {
            st.index
        }
    }
}

/// One tick of the decision core over plain values: the window after the
/// push, and the state the lookup leaves behind — unchanged inside the
/// deadzone, moved onto the new band's thresholds outside it.
pub open spec fn spec_step_pair(s: Seq<CurveEntry>, st: GovernorState, w: Seq<u8>, sample: u8) -> (
    GovernorState,
    Seq<u8>,
) {
    let w2 = w.subrange(1, w.len() as int).push(sample);
    let idx = spec_lookup(s, st, seq_min(w2), seq_max(w2));
    let st2 = if idx == st.index {
        st
    } else {
        GovernorState {
            index: idx as usize,
            low_threshold: s[idx].low,
            high_threshold: s[idx].high,
        }
    };
    (st2, w2)
}

/// A whole run of ticks, one per sample, oldest first.
pub open spec fn spec_run_pair(
    s: Seq<CurveEntry>,
    st: GovernorState,
    w: Seq<u8>,
    samples: Seq<u8>,
) -> (GovernorState, Seq<u8>)
    decreases samples.len(),
{
    if samples.len() == 0 {
        (st, w)
    } else {
        let one = spec_step_pair(s, st, w, samples[0]);
        spec_run_pair(s, one.0, one.1, samples.subrange(1, samples.len() as int))
    }
}

/// The governor: the validated table, the debouncing window and the
/// hysteresis state, advanced once per poll tick.
pub struct ThermalGovernor {
    pub table: CurveTable,
    pub window: SampleWindow,
    pub state: GovernorState,
}

impl ThermalGovernor {
    pub open spec fn wf(self) -> bool {
        &&& self.table.wf()
        &&& self.window.wf()
        &&& self.state.index < self.table@.len()
    }

    /// The window the governor holds after pushing `sample`.
    pub open spec fn spec_next_window(self, sample: u8) -> Seq<u8> {
        self.window@.subrange(1, WINDOW_DEPTH as int).push(sample)
    }

    /// The band index the governor selects for `sample`.
    pub open spec fn spec_next_index(self, sample: u8) -> int {
        let w = self.spec_next_window(sample);
        spec_lookup(self.table@, self.state, seq_min(w), seq_max(w))
    }

    /// A fresh governor, its window seeded with the first reading.
    pub fn new(table: CurveTable, first_sample: u8) -> (g: ThermalGovernor)
        requires
            table.wf(),
        ensures
            g.wf(),
            g.table == table,
            g.window@ == Seq::new(WINDOW_DEPTH as nat, |i: int| first_sample),
            g.state.index == if table@.len() > 1 { 1int } else { 0int },
            g.state.low_threshold == INITIAL_LOW_THRESHOLD,
            g.state.high_threshold == INITIAL_HIGH_THRESHOLD,
    {
        let n = table.len();
        let state = GovernorState::initial(n);
        ThermalGovernor { table, window: SampleWindow::new(first_sample), state }
    }

    /// One poll tick: push the fresh sample, look the band up by the
    /// window's minimum and maximum, and if the band changed, adopt its
    /// thresholds and return its duty pair to be written; otherwise the
    /// state is untouched and nothing is written.
    pub fn step(&mut self, sample: u8) -> (duty: Option<(u8, u8)>)
        requires
            old(self).wf(),
        ensures
            final(self).wf(),
            final(self).table == old(self).table,
            final(self).window@ == old(self).spec_next_window(sample),
            final(self).state.index == old(self).spec_next_index(sample),
            old(self).spec_next_index(sample) == old(self).state.index ==> final(self).state
                == old(self).state && duty is None,
            old(self).spec_next_index(sample) != old(self).state.index ==> {
                let idx = old(self).spec_next_index(sample);
                &&& final(self).state.low_threshold == old(self).table@[idx].low
                &&& final(self).state.high_threshold == old(self).table@[idx].high
                &&& duty == Some((old(self).table@[idx].duty_a, old(self).table@[idx].duty_b))
            },
            (final(self).state, final(self).window@) == spec_step_pair(
                old(self).table@,
                old(self).state,
                old(self).window@,
                sample,
            ),
    {
        self.window.push(sample);
        let min_temp = self.window.min();
        let max_temp = self.window.max();
        let idx = self.table.lookup(min_temp, max_temp, &self.state);
        if idx != self.state.index {
            let e = self.table.entry(idx);
            self.state.index = idx;
            self.state.low_threshold = e.low;
            self.state.high_threshold = e.high;
            Some((e.duty_a, e.duty_b))
        } else {
            None
        }
    }
}

/// The reading the governor acts on: the hotter of the two sensors.
pub fn combined_sample(cpu_temp: u8, gpu_temp: u8) -> (t: u8)
    ensures
        t == if cpu_temp >= gpu_temp {
            cpu_temp
        } else {
            gpu_temp
        },
{
    if cpu_temp >= gpu_temp {
        cpu_temp
    } else {
        gpu_temp
    }
}

/// The lifetime of the control loop.
#[derive(Clone, Copy, PartialEq, Eq, Structural, Debug)]
pub enum Phase {
    Running,
    ShuttingDown,
    Terminated,
}

/// What can interrupt the loop: a termination signal, an unrecoverable
/// device failure, or the completion of the guard's release writes.
#[derive(Clone, Copy, PartialEq, Eq, Structural, Debug)]
pub enum Event {
    TerminationSignal,
    FatalError,
    ReleaseCompleted,
}

/// What the surrounding process must do next.
#[derive(Clone, Copy, PartialEq, Eq, Structural, Debug)]
pub enum Action {
    Continue,
    ReleaseControl,
    Exit,
}

/// The loop's transitions: a signal or a fatal error while running starts
/// the shutdown and demands the release writes; once the release has
/// completed the process exits.  Duplicate shutdown triggers are absorbed
/// — the release writes are idempotent, so a race between exit paths is
/// benign.
pub open spec fn spec_transition(phase: Phase, event: Event) -> (Phase, Action) {
    match (phase, event) {
        (Phase::Running, Event::TerminationSignal) => (Phase::ShuttingDown, Action::ReleaseControl),
        (Phase::Running, Event::FatalError) => (Phase::ShuttingDown, Action::ReleaseControl),
        (Phase::Running, Event::ReleaseCompleted) => (Phase::Running, Action::Continue),
        (Phase::ShuttingDown, Event::ReleaseCompleted) => (Phase::Terminated, Action::Exit),
        (Phase::ShuttingDown, _) => (Phase::ShuttingDown, Action::Continue),
        (Phase::Terminated, _) => (Phase::Terminated, Action::Exit),
    }
}

/// Advances the lifecycle by one event.
pub fn on_event(phase: Phase, event: Event) -> (r: (Phase, Action))
    ensures
        r == spec_transition(phase, event),
{
    match (phase, event) {
        (Phase::Running, Event::TerminationSignal) => (Phase::ShuttingDown, Action::ReleaseControl),
        (Phase::Running, Event::FatalError) => (Phase::ShuttingDown, Action::ReleaseControl),
        (Phase::Running, Event::ReleaseCompleted) => (Phase::Running, Action::Continue),
        (Phase::ShuttingDown, Event::ReleaseCompleted) => (Phase::Terminated, Action::Exit),
        (Phase::ShuttingDown, _) => (Phase::ShuttingDown, Action::Continue),
        (Phase::Terminated, _) => (Phase::Terminated, Action::Exit),
    }
}

/// For every well-formed table and any window and state, the lookup lands
/// inside the table.
pub proof fn lemma_lookup_in_range(s: Seq<CurveEntry>, st: GovernorState, min_temp: u8, max_temp: u8)
    requires
        entries_wf(s),
        st.index < s.len(),
    ensures
        0 <= spec_lookup(s, st, min_temp, max_temp) < s.len(),
{
    lemma_count_at_least(s, min_temp, 0);
}

/// Hysteresis idempotence: while the window's samples stay inside the
/// current band, the index never changes.  Requires the bands' upper
/// bounds to be strictly increasing as well: with an inner band reaching
/// above the last band's upper bound, a reading inside it could trip the
/// top-band rule.
pub proof fn lemma_hysteresis_idempotent(
    s: Seq<CurveEntry>,
    st: GovernorState,
    min_temp: u8,
    max_temp: u8,
)
    requires
        entries_wf(s),
        forall|i: int, j: int| 0 <= i < j < s.len() ==> (#[trigger] s[i]).high < (#[trigger] s[j]).high,
        state_consistent(s, st),
        s[st.index as int].low <= min_temp,
        min_temp <= max_temp,
        max_temp <= s[st.index as int].high,
    ensures
        spec_lookup(s, st, min_temp, max_temp) == st.index,
{
    let i = st.index as int;
    let n = s.len() as int;
    if max_temp <= s[0].low {
        assert(i == 0) by {
            if i > 0 {
                assert(s[0].low < s[i].low);
            }
        }
    } else if min_temp >= s[n - 1].high {
        assert(i == n - 1) by {
            if i < n - 1 {
                assert(s[i].high < s[n - 1].high);
            }
        }
    }
}

/// Monotone sweeps never move the index down: as long as the window's
/// minimum has not fallen below the current band's lower bound, the
/// looked-up index is at least the current one.
pub proof fn lemma_monotone_no_decrease(
    s: Seq<CurveEntry>,
    st: GovernorState,
    min_temp: u8,
    max_temp: u8,
)
    requires
        entries_wf(s),
        st.index < s.len(),
        min_temp <= max_temp,
        s[st.index as int].low <= min_temp,
    ensures
        spec_lookup(s, st, min_temp, max_temp) >= st.index,
{
    let i = st.index as int;
    let n = s.len() as int;
    if max_temp <= s[0].low {
        assert(i == 0) by {
            if i > 0 {
                assert(s[0].low < s[i].low);
            }
        }
    } else if min_temp >= s[n - 1].high {
    } else if escapes(st, max_temp) {
        lemma_count_at_least(s, min_temp, i);
    }
}

/// Monotone sweeps skip no band: when the window has just escaped the
/// current band upward — its maximum above the band's upper bound, its
/// minimum past the band's lower bound but not yet past the next band's —
/// the lookup selects exactly the next band.
pub proof fn lemma_sweep_enters_next_band(
    s: Seq<CurveEntry>,
    st: GovernorState,
    min_temp: u8,
    max_temp: u8,
)
    requires
        entries_wf(s),
        state_consistent(s, st),
        st.index + 1 < s.len(),
        s[st.index as int].low <= s[st.index as int].high,
        s[st.index as int].low < min_temp,
        min_temp <= max_temp,
        max_temp > s[st.index as int].high,
        min_temp <= s[st.index as int + 1].low,
        min_temp < s[s.len() - 1].high,
    ensures
        spec_lookup(s, st, min_temp, max_temp) == st.index + 1,
{
    let i = st.index as int;
    let n = s.len() as int;
    assert(max_temp > s[0].low) by {
        if i > 0 {
            assert(s[0].low < s[i].low);
        }
    }
    assert(escapes(st, max_temp));
    lemma_count_at_least(s, min_temp, i + 1);
    assert forall|j: int| i + 1 <= j < n implies (#[trigger] s[j]).low >= min_temp by {
        if j > i + 1 {
            assert(s[i + 1].low < s[j].low);
        }
    }
    lemma_count_at_most(s, min_temp, i + 1);
}

/// How many entries have an upper bound below `key`: the band a rising
/// sweep should hold once the reading reaches `key`.
pub open spec fn high_count_below(s: Seq<CurveEntry>, key: u8) -> int
    decreases s.len(),
{
    if s.len() == 0 {
        0
    } else {
        high_count_below(s.drop_last(), key) + if s.last().high < key {
            1int
        } else {
            0int
        }
    }
}

/// On strictly increasing upper bounds the count splits the table: every
/// entry before it lies below `key`, every entry from it on at or above.
pub proof fn lemma_high_count_partition(s: Seq<CurveEntry>, key: u8)
    requires
        forall|i: int, j: int|
            0 <= i < j < s.len() ==> (#[trigger] s[i]).high < (#[trigger] s[j]).high,
    ensures
        0 <= high_count_below(s, key) <= s.len(),
        forall|j: int| 0 <= j < high_count_below(s, key) ==> (#[trigger] s[j]).high < key,
        forall|j: int| high_count_below(s, key) <= j < s.len() ==> (#[trigger] s[j]).high >= key,
    decreases s.len(),
{
    if s.len() > 0 {
        let tl = s.drop_last();
        assert(forall|j: int| 0 <= j < tl.len() ==> tl[j] == s[j]);
        assert forall|i: int, j: int|
            0 <= i < j < tl.len() implies (#[trigger] tl[i]).high < (#[trigger] tl[j]).high by {
            assert(tl[i] == s[i] && tl[j] == s[j]);
        }
        lemma_high_count_partition(tl, key);
        if s.last().high < key {
            assert forall|j: int| 0 <= j < tl.len() implies (#[trigger] tl[j]).high < key by {
                assert(s[j].high < s[s.len() - 1].high);
            }
            if high_count_below(tl, key) < tl.len() {
                assert(tl[high_count_below(tl, key)].high >= key);
            }
        }
    }
}

/// The band a rising unit sweep holds at reading `t`: the leftmost band
/// not yet exhausted, clamped into the table.
pub open spec fn sweep_band(s: Seq<CurveEntry>, t: u8) -> int {
    let c = high_count_below(s, t);
    if c < s.len() - 1 {
        c
    } else {
        s.len() as int - 1
    }
}

/// The monotonic-sweep law, tick by tick.  For a contiguous curve (each
/// band at least three degrees wide, each band starting one degree past
/// its predecessor's end) and a sweep rising one degree per tick — so the
/// saturated window at reading `t` is `[t-3 .. t]`, with minimum `t-3`
/// and maximum `t` — a state that is consistent and on the sweep's band
/// for `t-1` looks up exactly the sweep's band for `t`, and that band
/// either stays or advances by one: every band is visited, in order, with
/// none skipped and none revisited.
pub proof fn lemma_sweep_tick(s: Seq<CurveEntry>, st: GovernorState, t: u8)
    requires
        entries_wf(s),
        forall|i: int, j: int|
            0 <= i < j < s.len() ==> (#[trigger] s[i]).high < (#[trigger] s[j]).high,
        forall|i: int| 0 <= i < s.len() ==> (#[trigger] s[i]).low + 3 <= s[i].high,
        forall|j: int, k: int|
            0 <= j < k < s.len() && k == j + 1 ==> (#[trigger] s[j]).high + 1 == (
            #[trigger] s[k]).low,
        3 <= t,
        state_consistent(s, st),
        st.index == sweep_band(s, (t - 1) as u8),
    ensures
        spec_lookup(s, st, (t - 3) as u8, t) == sweep_band(s, t),
        sweep_band(s, (t - 1) as u8) <= sweep_band(s, t) <= sweep_band(s, (t - 1) as u8) + 1,
{
    let n = s.len() as int;
    let tm1: u8 = (t - 1) as u8;
    let mn: u8 = (t - 3) as u8;
    let c1 = high_count_below(s, tm1);
    let c2 = high_count_below(s, t);
    let i = st.index as int;
    lemma_high_count_partition(s, tm1);
    lemma_high_count_partition(s, t);
    // The count rises by at most one per degree: the bands' upper bounds
    // are distinct.
    assert(c1 <= c2) by {
        if c2 < c1 {
            assert(s[c2].high >= t && s[c2].high < tm1);
        }
    }
    assert(c2 <= c1 + 1) by {
        if c2 > c1 + 1 {
            assert(s[c1].high >= tm1);
            assert(s[c1].high < s[c1 + 1].high);
            assert(s[c1 + 1].high < t);
        }
    }
    if t <= s[0].low {
        // Idle regime: no band is exhausted yet and the lookup holds 0.
        assert(c2 == 0) by {
            if c2 > 0 {
                assert(s[0].high < t);
                assert(s[0].low + 3 <= s[0].high);
            }
        }
    } else if mn >= s[n - 1].high {
        // Beyond the top band: everything is exhausted, the top band holds.
        assert(c2 == n) by {
            if c2 < n {
                assert(s[c2].high >= t);
                if c2 < n - 1 {
                    assert(s[c2].high < s[n - 1].high);
                }
            }
        }
    } else if c1 >= n {
        // The sweep had already exhausted every band at `t-1`.
        assert(s[n - 1].high < tm1);
        assert(i == n - 1);
        assert(escapes(st, t));
        assert forall|j: int| 0 <= j < n implies (#[trigger] s[j]).low < mn by {
            if j < n - 1 {
                assert(s[j].low < s[n - 1].low);
            }
            assert(s[n - 1].low + 3 <= s[n - 1].high);
        }
        lemma_count_at_least(s, mn, n);
        assert(c2 == n) by {
            assert(s[n - 1].high < tm1);
            lemma_high_count_at_least_top(s, t);
        }
    } else {
        // Inside the table: `i == c1`, and the tick either stays inside
        // band `i` or crosses into band `i+1`.
        assert(i == c1);
        if s[i].high >= t {
            // Still inside band i: the window cannot escape its deadzone.
            assert(c2 == i) by {
                lemma_count_range_same(s, t, i);
            }
            assert(!escapes(st, t)) by {
                if i > 0 {
                    assert(s[i - 1].high < tm1);
                    assert(s[i - 1].high + 1 == s[i].low);
                }
            }
        } else {
            // Crossing: band i was exhausted exactly at `t-1`.
            assert(s[i].high == t - 1);
            assert(escapes(st, t));
            assert forall|j: int| 0 <= j <= i implies (#[trigger] s[j]).low < mn by {
                if j < i {
                    assert(s[j].low < s[i].low);
                }
                assert(s[i].low + 3 <= s[i].high);
            }
            lemma_count_at_least(s, mn, i + 1);
            assert(c2 == i + 1) by {
                if i + 1 < n {
                    assert(s[i].high < s[i + 1].high);
                }
                lemma_count_range_next(s, t, i);
            }
            if i + 1 < n {
                assert(s[i + 1].low == s[i].high + 1);
                assert forall|j: int| i + 1 <= j < n implies (#[trigger] s[j]).low >= mn by {
                    if j > i + 1 {
                        assert(s[i + 1].low < s[j].low);
                    }
                }
                lemma_count_at_most(s, mn, i + 1);
            } else {
                lemma_count_at_most(s, mn, n);
            }
        }
    }
}

/// The monotonic-sweep law at the level of a governor tick: a governor
/// whose window holds the last four readings of a unit sweep, and whose
/// state is consistent and on the sweep's band for `t-1`, steps on the
/// next reading `t` to exactly the sweep's band for `t`.
pub proof fn lemma_sweep_tick_step(g: ThermalGovernor, t: u8)
    requires
        g.wf(),
        forall|i: int, j: int|
            0 <= i < j < g.table@.len() ==> (#[trigger] g.table@[i]).high < (
            #[trigger] g.table@[j]).high,
        forall|i: int| 0 <= i < g.table@.len() ==> (#[trigger] g.table@[i]).low + 3 <= g.table@[i].high,
        forall|j: int, k: int|
            0 <= j < k < g.table@.len() && k == j + 1 ==> (#[trigger] g.table@[j]).high + 1 == (
            #[trigger] g.table@[k]).low,
        4 <= t,
        state_consistent(g.table@, g.state),
        g.state.index == sweep_band(g.table@, (t - 1) as u8),
        g.window@ == seq![(t - 4) as u8, (t - 3) as u8, (t - 2) as u8, (t - 1) as u8],
    ensures
        g.spec_next_index(t) == sweep_band(g.table@, t),
        g.state.index <= sweep_band(g.table@, t) <= g.state.index + 1,
{
    let w2 = g.spec_next_window(t);
    assert(w2 =~= seq![(t - 3) as u8, (t - 2) as u8, (t - 1) as u8, t]);
    lemma_saturated_window_min_max(t);
    lemma_sweep_tick(g.table@, g.state, t);
}

/// A saturated unit-sweep window `[t-3 .. t]` has minimum `t-3` and
/// maximum `t`.
proof fn lemma_saturated_window_min_max(t: u8)
    requires
        3 <= t,
    ensures
        seq_min(seq![(t - 3) as u8, (t - 2) as u8, (t - 1) as u8, t]) == (t - 3) as u8,
        seq_max(seq![(t - 3) as u8, (t - 2) as u8, (t - 1) as u8, t]) == t,
{
    let s1 = seq![(t - 3) as u8];
    let s2 = seq![(t - 3) as u8, (t - 2) as u8];
    let s3 = seq![(t - 3) as u8, (t - 2) as u8, (t - 1) as u8];
    let s4 = seq![(t - 3) as u8, (t - 2) as u8, (t - 1) as u8, t];
    assert(s2.drop_last() =~= s1);
    assert(s3.drop_last() =~= s2);
    assert(s4.drop_last() =~= s3);
    assert(seq_min(s1) == (t - 3) as u8 && seq_max(s1) == (t - 3) as u8);
    assert(seq_min(s2) == (t - 3) as u8 && seq_max(s2) == (t - 2) as u8);
    assert(seq_min(s3) == (t - 3) as u8 && seq_max(s3) == (t - 1) as u8);
    assert(seq_min(s4) == (t - 3) as u8 && seq_max(s4) == t);
}

/// A strictly increasing unit sweep: the readings `t, t+1, ..., t+k-1`.
pub open spec fn ramp(t: u8, k: nat) -> Seq<u8> {
    Seq::new(k, |i: int| (t + i) as u8)
}

/// The monotonic-sweep law over a whole run: a governor mid-sweep — its
/// window holding the last four readings, its state consistent and on the
/// sweep's band — fed the next `k` readings of the sweep, ends consistent
/// and exactly on the sweep's band for the last reading.  Together with
/// the tick law, whose second conclusion bounds each move by one band,
/// the sweep visits every band from the first to the last in order, with
/// none skipped and none revisited.
pub proof fn lemma_sweep_run(s: Seq<CurveEntry>, st: GovernorState, t: u8, k: nat)
    requires
        entries_wf(s),
        forall|i: int, j: int|
            0 <= i < j < s.len() ==> (#[trigger] s[i]).high < (#[trigger] s[j]).high,
        forall|i: int| 0 <= i < s.len() ==> (#[trigger] s[i]).low + 3 <= s[i].high,
        forall|p: int, q: int|
            0 <= p < q < s.len() && q == p + 1 ==> (#[trigger] s[p]).high + 1 == (
            #[trigger] s[q]).low,
        s.len() <= usize::MAX,
        4 <= t,
        t + k <= 256,
        state_consistent(s, st),
        st.index == sweep_band(s, (t - 1) as u8),
    ensures
        ({
            let fin = spec_run_pair(
                s,
                st,
                seq![(t - 4) as u8, (t - 3) as u8, (t - 2) as u8, (t - 1) as u8],
                ramp(t, k),
            );
            &&& k == 0 ==> fin.0 == st
            &&& k >= 1 ==> state_consistent(s, fin.0) && fin.0.index == sweep_band(
                s,
                (t + k - 1) as u8,
            )
        }),
    decreases k,
{
    let w = seq![(t - 4) as u8, (t - 3) as u8, (t - 2) as u8, (t - 1) as u8];
    let samples = ramp(t, k);
    if k > 0 {
        assert(samples[0] == t);
        let one = spec_step_pair(s, st, w, t);
        let w2 = w.subrange(1, w.len() as int).push(t);
        assert(w2 =~= seq![(t - 3) as u8, (t - 2) as u8, (t - 1) as u8, t]);
        lemma_saturated_window_min_max(t);
        lemma_sweep_tick(s, st, t);
        lemma_lookup_in_range(s, st, (t - 3) as u8, t);
        assert(one.1 == w2);
        assert(state_consistent(s, one.0) && one.0.index == sweep_band(s, t));
        let rest = samples.subrange(1, samples.len() as int);
        if k == 1 {
            assert(rest.len() == 0);
            assert(spec_run_pair(s, one.0, one.1, rest) == (one.0, one.1));
        } else {
            assert(rest =~= ramp((t + 1) as u8, (k - 1) as nat));
            lemma_sweep_run(s, one.0, (t + 1) as u8, (k - 1) as nat);
        }
    }
}

/// All upper bounds below `t-1` put the count at its maximum for `t`.
proof fn lemma_high_count_at_least_top(s: Seq<CurveEntry>, t: u8)
    requires
        forall|i: int, j: int|
            0 <= i < j < s.len() ==> (#[trigger] s[i]).high < (#[trigger] s[j]).high,
        s.len() >= 1,
        s[s.len() - 1].high < t,
    ensures
        high_count_below(s, t) == s.len(),
{
    lemma_high_count_partition(s, t);
    let c = high_count_below(s, t);
    if c < s.len() {
        assert(s[c].high >= t);
        if c < s.len() - 1 {
            assert(s[c].high < s[s.len() - 1].high);
        }
    }
}

/// With entry `i`'s upper bound at or above `t` and its predecessors'
/// below, exactly `i` upper bounds lie below `t`.
proof fn lemma_count_range_same(s: Seq<CurveEntry>, t: u8, i: int)
    requires
        forall|i: int, j: int|
            0 <= i < j < s.len() ==> (#[trigger] s[i]).high < (#[trigger] s[j]).high,
        0 <= i < s.len(),
        forall|j: int| 0 <= j < i ==> (#[trigger] s[j]).high < t,
        s[i].high >= t,
    ensures
        high_count_below(s, t) == i,
{
    lemma_high_count_partition(s, t);
    let c = high_count_below(s, t);
    if c < i {
        assert(s[c].high >= t);
        assert(s[c].high < t);
    }
    if c > i {
        assert(s[i].high < t);
    }
}

/// With entry `i`'s upper bound just passed, exactly `i+1` upper bounds
/// lie below `t`.
proof fn lemma_count_range_next(s: Seq<CurveEntry>, t: u8, i: int)
    requires
        forall|i: int, j: int|
            0 <= i < j < s.len() ==> (#[trigger] s[i]).high < (#[trigger] s[j]).high,
        0 <= i < s.len(),
        forall|j: int| 0 <= j < i ==> (#[trigger] s[j]).high < t,
        s[i].high < t,
        i + 1 < s.len() ==> s[i + 1].high >= t,
    ensures
        high_count_below(s, t) == i + 1,
{
    lemma_high_count_partition(s, t);
    let c = high_count_below(s, t);
    if c <= i {
        assert(s[c].high >= t);
    }
    if c > i + 1 {
        assert(s[i + 1].high < t);
    }
}

/// The hysteresis law at the level of a governor tick: while every sample
/// of the updated window stays inside the current band, a step leaves the
/// index where it is.
pub proof fn lemma_step_keeps_index_in_band(g: ThermalGovernor, sample: u8)
    requires
        g.wf(),
        forall|i: int, j: int|
            0 <= i < j < g.table@.len() ==> (#[trigger] g.table@[i]).high < (
            #[trigger] g.table@[j]).high,
        state_consistent(g.table@, g.state),
        forall|j: int|
            0 <= j < g.spec_next_window(sample).len() ==> g.table@[g.state.index as int].low <= (
            #[trigger] g.spec_next_window(sample)[j]) && g.spec_next_window(sample)[j]
                <= g.table@[g.state.index as int].high,
    ensures
        g.spec_next_index(sample) == g.state.index,
{
    let w = g.spec_next_window(sample);
    assert(w.len() == WINDOW_DEPTH);
    crate::window::lemma_seq_min_properties(w);
    crate::window::lemma_seq_max_properties(w);
    assert(seq_min(w) <= w[0] && w[0] <= seq_max(w));
    lemma_hysteresis_idempotent(g.table@, g.state, seq_min(w), seq_max(w));
}

/// The hysteresis law over a whole run: feeding any sequence of samples
/// that stay inside the current band — to a governor whose window is
/// already inside it — changes neither the index nor the thresholds, no
/// matter how many ticks pass.
pub proof fn lemma_in_band_run_keeps_state(
    s: Seq<CurveEntry>,
    st: GovernorState,
    w: Seq<u8>,
    samples: Seq<u8>,
)
    requires
        entries_wf(s),
        forall|i: int, j: int|
            0 <= i < j < s.len() ==> (#[trigger] s[i]).high < (#[trigger] s[j]).high,
        state_consistent(s, st),
        w.len() == WINDOW_DEPTH,
        forall|j: int|
            0 <= j < w.len() ==> s[st.index as int].low <= #[trigger] w[j] && w[j]
                <= s[st.index as int].high,
        forall|j: int|
            0 <= j < samples.len() ==> s[st.index as int].low <= #[trigger] samples[j]
                && samples[j] <= s[st.index as int].high,
    ensures
        spec_run_pair(s, st, w, samples).0 == st,
    decreases samples.len(),
{
    if samples.len() > 0 {
        let x = samples[0];
        let one = spec_step_pair(s, st, w, x);
        let w2 = w.subrange(1, w.len() as int).push(x);
        assert forall|j: int|
            0 <= j < w2.len() implies s[st.index as int].low <= #[trigger] w2[j] && w2[j]
                <= s[st.index as int].high by {
            if j < w2.len() - 1 {
                assert(w2[j] == w[j + 1]);
            }
        }
        crate::window::lemma_seq_min_properties(w2);
        crate::window::lemma_seq_max_properties(w2);
        assert(seq_min(w2) <= w2[0] && w2[0] <= seq_max(w2));
        lemma_hysteresis_idempotent(s, st, seq_min(w2), seq_max(w2));
        assert(one.0 == st);
        let rest = samples.subrange(1, samples.len() as int);
        assert(forall|j: int| 0 <= j < rest.len() ==> rest[j] == samples[j + 1]);
        lemma_in_band_run_keeps_state(s, st, w2, rest);
    }
}

/// The extremes override hysteresis: a window maximum at or below the
/// first band's lower bound always selects band 0, whatever the state;
/// otherwise a window minimum at or above the last band's upper bound
/// always selects the top band.
pub proof fn lemma_extremes(s: Seq<CurveEntry>, st: GovernorState, min_temp: u8, max_temp: u8)
    requires
        entries_wf(s),
        st.index < s.len(),
        min_temp <= max_temp,
    ensures
        max_temp <= s[0].low ==> spec_lookup(s, st, min_temp, max_temp) == 0,
        max_temp > s[0].low && min_temp >= s[s.len() - 1].high ==> spec_lookup(
            s,
            st,
            min_temp,
            max_temp,
        ) == s.len() - 1,
{
}

} // verus!
