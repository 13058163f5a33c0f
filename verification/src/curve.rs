//! The hysteresis curve: an ordered table of temperature bands, each with
//! a pre-scaled duty byte per fan.  The table is built once from the
//! already-parsed configuration values and validated here; the governor
//! then looks bands up by the sample window's minimum and maximum.

use vstd::prelude::*;
use vstd::arithmetic::div_mod::lemma_div_is_ordered;
use vstd::arithmetic::div_mod::lemma_div_multiples_vanish;
use vstd::arithmetic::div_mod::lemma_div_pos_is_pos;
use vstd::arithmetic::mul::lemma_mul_inequality;
use vstd::arithmetic::mul::lemma_mul_nonnegative;

verus! {

/// The first fan's maximum duty register value (100% duty).
pub const FAN1_MAX_DUTY: u8 = 55;
/// The second fan's maximum duty register value (100% duty).
pub const FAN2_MAX_DUTY: u8 = 57;

/// One temperature band: entered between `low` and `high` degrees, driving
/// the two fans at the pre-scaled duty bytes.
#[derive(Clone, Copy, PartialEq, Eq, Structural, Debug)]
pub struct CurveEntry {
    pub low: u8,
    pub high: u8,
    pub duty_a: u8,
    pub duty_b: u8,
}

/// A duty percentage applied against a fan's maximum duty, rounded down.
pub open spec fn spec_duty(percent: int, max: int) -> int {
    percent * max / 100
}

/// Scales a percentage to a duty byte: `floor(percent * max / 100)`.
pub fn scale_duty(percent: u8, max: u8) -> (d: u8)
    requires
        percent <= 100,
    ensures
        d as int == spec_duty(percent as int, max as int),
        d <= max,
{
    proof {
        lemma_mul_nonnegative(percent as int, max as int);
        lemma_mul_inequality(percent as int, 100, max as int);
        lemma_div_is_ordered(percent as int * max as int, 100 * max as int, 100);
        lemma_div_multiples_vanish(max as int, 100);
        lemma_div_pos_is_pos(percent as int * max as int, 100);
    }
    ((percent as u32) * (max as u32) / 100) as u8
}

/// What the configuration must satisfy: at least one band, one percentage
/// per band, band lower bounds strictly increasing, and percentages at
/// most 100.
pub open spec fn bands_sorted(bands: Seq<(u8, u8)>) -> bool {
    forall|i: int| 0 <= i < bands.len() - 1 ==> (#[trigger] bands[i]).0 < bands[i + 1].0
}

pub open spec fn percents_in_range(percents: Seq<u8>) -> bool {
    forall|i: int| 0 <= i < percents.len() ==> #[trigger] percents[i] <= 100
}

pub open spec fn config_ok(bands: Seq<(u8, u8)>, percents: Seq<u8>) -> bool {
    &&& bands.len() >= 1
    &&& percents.len() == bands.len()
    &&& bands_sorted(bands)
    &&& percents_in_range(percents)
}

/// Why a configuration was rejected.
#[derive(Clone, Copy, PartialEq, Eq, Structural, Debug)]
pub enum CurveError {
    /// The curve holds no band at all.
    EmptyCurve,
    /// There is not exactly one duty percentage per band.
    LengthMismatch,
    /// A band's lower bound does not exceed its predecessor's.
    LowNotIncreasing,
    /// A duty percentage exceeds 100.
    PercentOutOfRange,
}

/// The error reported for a rejected configuration: the checks run in a
/// fixed order and the first one to fail names the error.
pub open spec fn spec_config_error(bands: Seq<(u8, u8)>, percents: Seq<u8>) -> CurveError {
    if bands.len() == 0 {
        CurveError::EmptyCurve
    } else if percents.len() != bands.len() {
        CurveError::LengthMismatch
    } else if !bands_sorted(bands) {
        CurveError::LowNotIncreasing
    } else {
        CurveError::PercentOutOfRange
    }
}

/// The table an accepted configuration produces: each band paired with
/// its percentage scaled against both fans' maxima.
pub open spec fn spec_table_of(bands: Seq<(u8, u8)>, percents: Seq<u8>) -> Seq<CurveEntry> {
    Seq::new(
        bands.len(),
        |i: int|
            CurveEntry {
                low: bands[i].0,
                high: bands[i].1,
                duty_a: spec_duty(percents[i] as int, FAN1_MAX_DUTY as int) as u8,
                duty_b: spec_duty(percents[i] as int, FAN2_MAX_DUTY as int) as u8,
            },
    )
}

/// Entries are well formed when there is at least one and their lower
/// bounds are strictly increasing.
pub open spec fn entries_wf(s: Seq<CurveEntry>) -> bool {
    &&& s.len() >= 1
    &&& forall|i: int, j: int| 0 <= i < j < s.len() ==> s[i].low < s[j].low
}

/// If each entry's lower bound is below its successor's, the lower bounds
/// are strictly increasing overall.
proof fn lemma_low_lt(s: Seq<CurveEntry>, i: int, j: int)
    requires
        forall|k: int| 0 <= k < s.len() - 1 ==> (#[trigger] s[k]).low < s[k + 1].low,
        0 <= i < j < s.len(),
    ensures
        s[i].low < s[j].low,
    decreases j - i,
{
    if i + 1 < j {
        lemma_low_lt(s, i, j - 1);
    }
}

/// The ordered, validated curve table.  `lows` caches each entry's lower
/// bound, in order, as the haystack for the binary search.
pub struct CurveTable {
    pub entries: Vec<CurveEntry>,
    pub lows: Vec<u8>,
}

impl View for CurveTable {
    type V = Seq<CurveEntry>;

    open spec fn view(&self) -> Seq<CurveEntry> {
        self.entries@
    }
}

impl CurveTable {
    /// Constructors establish and methods preserve this shape: well-formed
    /// entries and a faithful cache of their lower bounds.
    pub open spec fn wf(self) -> bool {
        &&& entries_wf(self.entries@)
        &&& self.lows@.len() == self.entries@.len()
        &&& forall|i: int|
            0 <= i < self.entries@.len() ==> self.lows@[i] == (#[trigger] self.entries@[i]).low
    }

    pub fn len(&self) -> (n: usize)
        ensures
            n == self@.len(),
    {
        self.entries.len()
    }

    pub fn entry(&self, i: usize) -> (e: CurveEntry)
        requires
            i < self@.len(),
        ensures
            e == self@[i as int],
    {
        self.entries[i]
    }

    /// Builds and validates the table from the parsed configuration: the
    /// `(low, high)` band bounds and one duty percentage per band.  The
    /// result is `Ok` exactly when the configuration is acceptable, and
    /// otherwise names the first check that failed.
    pub fn from_config(bands: &Vec<(u8, u8)>, percents: &Vec<u8>) -> (r: Result<
        CurveTable,
        CurveError,
    >)
        ensures
            match r {
                Ok(t) => config_ok(bands@, percents@) && t.wf() && t@ == spec_table_of(
                    bands@,
                    percents@,
                ),
                Err(e) => !config_ok(bands@, percents@) && e == spec_config_error(
                    bands@,
                    percents@,
                ),
            },
    {
        let n = bands.len();
        if n == 0 {
            return Err(CurveError::EmptyCurve);
        }
        if percents.len() != n {
            return Err(CurveError::LengthMismatch);
        }
        let mut i: usize = 0;
        while i + 1 < n
            invariant
                n == bands@.len(),
                n == percents@.len(),
                1 <= n,
                i < n,
                forall|k: int| 0 <= k < i ==> (#[trigger] bands@[k]).0 < bands@[k + 1].0,
            decreases n - i,
        {
            if bands[i].0 >= bands[i + 1].0 {
                assert(!bands_sorted(bands@));
                return Err(CurveError::LowNotIncreasing);
            }
            i += 1;
        }
        assert(bands_sorted(bands@));
        let mut i: usize = 0;
        while i < n
            invariant
                n == bands@.len(),
                n == percents@.len(),
                1 <= n,
                bands_sorted(bands@),
                i <= n,
                forall|k: int| 0 <= k < i ==> #[trigger] percents@[k] <= 100,
            decreases n - i,
        {
            if percents[i] > 100 {
                assert(!percents_in_range(percents@));
                return Err(CurveError::PercentOutOfRange);
            }
            i += 1;
        }
        assert(percents_in_range(percents@));
        let mut entries: Vec<CurveEntry> = Vec::new();
        let mut lows: Vec<u8> = Vec::new();
        let mut i: usize = 0;
        while i < n
            invariant
                n == bands@.len(),
                n == percents@.len(),
                1 <= n,
                bands_sorted(bands@),
                percents_in_range(percents@),
                i <= n,
                entries@.len() == i,
                lows@.len() == i,
                forall|k: int|
                    0 <= k < i ==> #[trigger] entries@[k] == spec_table_of(bands@, percents@)[k],
                forall|k: int| 0 <= k < i ==> #[trigger] lows@[k] == bands@[k].0,
            decreases n - i,
        {
            let band = bands[i];
            let percent = percents[i];
            let e = CurveEntry {
                low: band.0,
                high: band.1,
                duty_a: scale_duty(percent, FAN1_MAX_DUTY),
                duty_b: scale_duty(percent, FAN2_MAX_DUTY),
            };
            entries.push(e);
            lows.push(band.0);
            i += 1;
        }
        let t = CurveTable { entries, lows };
        proof {
            assert(t@ =~= spec_table_of(bands@, percents@));
            assert forall|p: int, q: int| 0 <= p < q < t@.len() implies t@[p].low < t@[q].low by {
                assert forall|k: int|
                    0 <= k < t@.len() - 1 implies (#[trigger] t@[k]).low < t@[k + 1].low by {
                    assert(bands@[k].0 < bands@[k + 1].0);
                }
                lemma_low_lt(t@, p, q);
            }
        }
        Ok(t)
    }
}

} // verus!
