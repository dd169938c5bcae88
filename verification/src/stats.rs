use vstd::arithmetic::div_mod::{lemma_div_is_ordered, lemma_div_multiples_vanish};
use vstd::prelude::*;

verus! {

/// The magnitude of an unbounded integer.
pub open spec fn abs_int(x: int) -> int {
    if x >= 0 {
        x
    } else {
        -x
    }
}

/// How many upward zero-crossings the contour passes, counted from its
/// second sample on: positions whose sample is non-negative right after a
/// negative one.
pub open spec fn count_ep(c: Seq<i16>) -> int
    decreases c.len(),
{
    if c.len() < 2 {
        0
    } else {
        count_ep(c.drop_last()) + (if c[c.len() - 1] >= 0 && c[c.len() - 2] < 0 {
            1int
        } else {
            0int
        })
    }
}

/// The summed magnitude of the first differences of the contour.
pub open spec fn total_roc(c: Seq<i16>) -> int
    decreases c.len(),
{
    if c.len() < 2 {
        0
    } else {
        total_roc(c.drop_last()) + abs_int(c[c.len() - 1] - c[c.len() - 2])
    }
}

/// The summed magnitude of the second differences of the contour, the
/// first difference being measured against an initial slope of zero.
pub open spec fn total_acc(c: Seq<i16>) -> int
    decreases c.len(),
{
    if c.len() < 2 {
        0
    } else if c.len() == 2 {
        abs_int(c[1] - c[0])
    } else {
        total_acc(c.drop_last()) + abs_int(
            c[c.len() - 1] - 2 * c[c.len() - 2] + c[c.len() - 3],
        )
    }
}

/// The running maximum over the contour's second sample on, seeded at zero:
/// a contour that never rises above zero reports zero.
pub open spec fn max_amp(c: Seq<i16>) -> int
    decreases c.len(),
{
    if c.len() < 2 {
        0
    } else {
        let m = max_amp(c.drop_last());
        if c[c.len() - 1] > m {
            c[c.len() - 1] as int
        } else {
            m
        }
    }
}

/// The running minimum over the contour's second sample on, seeded at zero.
pub open spec fn min_amp(c: Seq<i16>) -> int
    decreases c.len(),
{
    if c.len() < 2 {
        0
    } else {
        let m = min_amp(c.drop_last());
        if c[c.len() - 1] < m {
            c[c.len() - 1] as int
        } else {
            m
        }
    }
}

/// How many samples from the second on are strictly positive.
pub open spec fn count_above(c: Seq<i16>) -> int
    decreases c.len(),
{
    if c.len() < 2 {
        0
    } else {
        count_above(c.drop_last()) + (if c[c.len() - 1] > 0 {
            1int
        } else {
            0int
        })
    }
}

/// How many samples from the second on are strictly negative.
pub open spec fn count_below(c: Seq<i16>) -> int
    decreases c.len(),
{
    if c.len() < 2 {
        0
    } else {
        count_below(c.drop_last()) + (if c[c.len() - 1] < 0 {
            1int
        } else {
            0int
        })
    }
}

/// The state of the direction-change counter after a prefix of the
/// contour: the current trend and the counts it has accumulated.
#[verifier::ext_equal]
pub ghost struct TrendV {
    /// Whether the local trend is rising; a contour starts rising.
    pub rising: bool,
    /// How many times the trend turned from rising to falling.
    pub num_max: int,
    /// How many times the trend turned from falling to rising.
    pub num_min: int,
    /// How many steps were spent with the trend rising.
    pub inc: int,
    /// How many steps were spent with the trend falling.
    pub dec: int,
}

/// Folds the trend tracker over the contour: the trend reverses when the
/// sample-to-sample slope changes sign, counting a local maximum or
/// minimum at each reversal and the steps spent on each side.
pub open spec fn trend_fold(c: Seq<i16>) -> TrendV
    decreases c.len(),
{
    if c.len() < 2 {
        TrendV { rising: true, num_max: 0, num_min: 0, inc: 0, dec: 0 }
    } else {
        let t = trend_fold(c.drop_last());
        let a = c[c.len() - 2];
        let b = c[c.len() - 1];
        let turned_down = t.rising && b < a;
        let turned_up = !t.rising && b > a;
        let rising2 = if turned_down {
            false
        } else if turned_up {
            true
        } else {
            t.rising
        };
        TrendV {
            rising: rising2,
            num_max: t.num_max + (if turned_down {
                1int
            } else {
                0int
            }),
            num_min: t.num_min + (if turned_up {
                1int
            } else {
                0int
            }),
            inc: t.inc + (if rising2 {
                1int
            } else {
                0int
            }),
            dec: t.dec + (if rising2 {
                0int
            } else {
                1int
            }),
        }
    }
}

/// The nominal pitch label derived from the commit frame: the start time in
/// whole seconds, halved, wrapped into two octaves above label 28. A coarse
/// placeholder policy, not a pitch estimate.
pub open spec fn note_spec(frame: int, rate: u32) -> int {
    ((frame / (rate as int)) / 2) % 24 + 28
}

/// The fixed-shape row of descriptors derived from one contour.
///
/// Durations are carried as step counts; a step lasts one frame, so a
/// count turns into seconds when divided by the sample rate.
#[derive(Clone, Copy, Debug, PartialEq, Eq, Structural)]
pub struct ContourRecord {
    /// The frame index at which the contour was committed.
    pub start_frame: usize,
    /// The nominal pitch label.
    pub note: u32,
    /// The number of samples in the contour.
    pub num_smp: usize,
    /// Upward zero-crossings inside the contour.
    pub num_ep: usize,
    /// Mean magnitude of the first difference, rounded down.
    pub avg_mag_roc: u64,
    /// Mean magnitude of the second difference, rounded down.
    pub avg_mag_acc: u64,
    /// Running maximum sample, seeded at zero.
    pub max_amp: i16,
    /// Running minimum sample, seeded at zero.
    pub min_amp: i16,
    /// Local maxima passed.
    pub num_max: usize,
    /// Local minima passed.
    pub num_min: usize,
    /// Steps spent strictly above zero.
    pub steps_above: usize,
    /// Steps spent strictly below zero.
    pub steps_below: usize,
    /// Steps spent with the trend rising.
    pub steps_inc: usize,
    /// Steps spent with the trend falling.
    pub steps_dec: usize,
}

/// The mathematical image of a `ContourRecord`.
#[verifier::ext_equal]
pub ghost struct RecordV {
    pub start_frame: int,
    pub note: int,
    pub num_smp: int,
    pub num_ep: int,
    pub avg_mag_roc: int,
    pub avg_mag_acc: int,
    pub max_amp: int,
    pub min_amp: int,
    pub num_max: int,
    pub num_min: int,
    pub steps_above: int,
    pub steps_below: int,
    pub steps_inc: int,
    pub steps_dec: int,
}

impl View for ContourRecord {
    type V = RecordV;

    open spec fn view(&self) -> RecordV {
        RecordV {
            start_frame: self.start_frame as int,
            note: self.note as int,
            num_smp: self.num_smp as int,
            num_ep: self.num_ep as int,
            avg_mag_roc: self.avg_mag_roc as int,
            avg_mag_acc: self.avg_mag_acc as int,
            max_amp: self.max_amp as int,
            min_amp: self.min_amp as int,
            num_max: self.num_max as int,
            num_min: self.num_min as int,
            steps_above: self.steps_above as int,
            steps_below: self.steps_below as int,
            steps_inc: self.steps_inc as int,
            steps_dec: self.steps_dec as int,
        }
    }
}

/// The record a contour reduces to: a pure function of the contour, its
/// commit frame and the sample rate.
pub open spec fn record_spec(c: Seq<i16>, frame: int, rate: u32) -> RecordV {
    RecordV {
        start_frame: frame,
        note: note_spec(frame, rate),
        num_smp: c.len() as int,
        num_ep: count_ep(c),
        avg_mag_roc: total_roc(c) / c.len() as int,
        avg_mag_acc: total_acc(c) / c.len() as int,
        max_amp: max_amp(c),
        min_amp: min_amp(c),
        num_max: trend_fold(c).num_max,
        num_min: trend_fold(c).num_min,
        steps_above: count_above(c),
        steps_below: count_below(c),
        steps_inc: trend_fold(c).inc,
        steps_dec: trend_fold(c).dec,
    }
}

/// Reduces one contour to its record, scanning the second sample through
/// the last against each sample's predecessor, exactly as `record_spec`
/// states.
pub fn contour_record(contour: &Vec<i16>, start_frame: usize, sample_rate: u32) -> (r:
    ContourRecord)
    requires
        contour@.len() >= 1,
        sample_rate >= 1,
    ensures
        r@ == record_spec(contour@, start_frame as int, sample_rate),
{
    let n = contour.len();
    let mut num_ep: usize = 0;
    let mut roc: u128 = 0;
    let mut acc: u128 = 0;
    let mut max_a: i16 = 0;
    let mut min_a: i16 = 0;
    let mut num_max: usize = 0;
    let mut num_min: usize = 0;
    let mut above: usize = 0;
    let mut below: usize = 0;
    let mut inc: usize = 0;
    let mut dec: usize = 0;
    let mut last_change: i32 = 0;
    let mut rising: bool = true;
    let mut j: usize = 1;
    proof {
        assert(contour@.subrange(0, 1).len() == 1);
        assert(trend_fold(contour@.subrange(0, 1)) =~= TrendV {
            rising: true,
            num_max: 0,
            num_min: 0,
            inc: 0,
            dec: 0,
        });
    }
    while j < n
        invariant
            1 <= j <= n,
            n == contour@.len(),
            num_ep == count_ep(contour@.subrange(0, j as int)),
            roc == total_roc(contour@.subrange(0, j as int)),
            roc <= 0xffff * (j - 1),
            acc == total_acc(contour@.subrange(0, j as int)),
            acc <= 0x1fffe * (j - 1),
            max_a == max_amp(contour@.subrange(0, j as int)),
            min_a == min_amp(contour@.subrange(0, j as int)),
            rising == trend_fold(contour@.subrange(0, j as int)).rising,
            num_max == trend_fold(contour@.subrange(0, j as int)).num_max,
            num_min == trend_fold(contour@.subrange(0, j as int)).num_min,
            inc == trend_fold(contour@.subrange(0, j as int)).inc,
            dec == trend_fold(contour@.subrange(0, j as int)).dec,
            num_max <= j - 1,
            num_min <= j - 1,
            above == count_above(contour@.subrange(0, j as int)),
            below == count_below(contour@.subrange(0, j as int)),
            inc <= j - 1,
            dec <= j - 1,
            above <= j - 1,
            below <= j - 1,
            num_ep <= j - 1,
            last_change == (if j >= 2 {
                contour@[j - 1] - contour@[j - 2]
            } else {
                0int
            }),
        decreases n - j,
    {
        let ghost pre = contour@.subrange(0, j as int);
        proof {
            assert(contour@.subrange(0, j + 1).drop_last() =~= pre);
        }
        let cur = contour[j] as i32;
        let prevs = contour[j - 1] as i32;
        if contour[j] >= 0 && contour[j - 1] < 0 {
            num_ep = num_ep + 1;
        }
        let this_change = cur - prevs;
        let this_dchange = this_change - last_change;
        let roc_add = if this_change >= 0 {
            this_change as u128
        } else {
            (-this_change) as u128
        };
        let acc_add = if this_dchange >= 0 {
            this_dchange as u128
        } else {
            (-this_dchange) as u128
        };
        roc = roc + roc_add;
        acc = acc + acc_add;
        last_change = this_change;
        if contour[j] > max_a {
            max_a = contour[j];
        }
        if contour[j] < min_a {
            min_a = contour[j];
        }
        if rising && cur < prevs {
            rising = false;
            num_max = num_max + 1;
        } else if !rising && cur > prevs {
            rising = true;
            num_min = num_min + 1;
        }
        if contour[j] > 0 {
            above = above + 1;
        }
        if contour[j] < 0 {
            below = below + 1;
        }
        if rising {
            inc = inc + 1;
        } else {
            dec = dec + 1;
        }
        j = j + 1;
    }
    proof {
        assert(contour@.subrange(0, n as int) =~= contour@);
        lemma_div_is_ordered(roc as int, 0xffff * (n as int), n as int);
        lemma_div_multiples_vanish(0xffff, n as int);
        assert((n as int) * 0xffff == 0xffff * (n as int)) by (nonlinear_arith);
        lemma_div_is_ordered(acc as int, 0x1fffe * (n as int), n as int);
        lemma_div_multiples_vanish(0x1fffe, n as int);
        assert((n as int) * 0x1fffe == 0x1fffe * (n as int)) by (nonlinear_arith);
        assert(roc as int <= 0xffff * (n as int));
        assert(acc as int <= 0x1fffe * (n as int));
    }
    let avg_roc = (roc / n as u128) as u64;
    let avg_acc = (acc / n as u128) as u64;
    let note_whole_seconds = start_frame as u64 / sample_rate as u64;
    let note = ((note_whole_seconds / 2) % 24 + 28) as u32;
    let r = ContourRecord {
        start_frame,
        note,
        num_smp: n,
        num_ep,
        avg_mag_roc: avg_roc,
        avg_mag_acc: avg_acc,
        max_amp: max_a,
        min_amp: min_a,
        num_max,
        num_min,
        steps_above: above,
        steps_below: below,
        steps_inc: inc,
        steps_dec: dec,
    };
    proof {
        assert(r@ =~= record_spec(contour@, start_frame as int, sample_rate));
    }
    r
}

/// Reducing the same contour again yields the same record: the reduction
/// is a pure function of its inputs, with no hidden state.
pub proof fn lemma_record_deterministic(
    r1: RecordV,
    r2: RecordV,
    c: Seq<i16>,
    frame: int,
    rate: u32,
)
    requires
        r1 == record_spec(c, frame, rate),
        r2 == record_spec(c, frame, rate),
    ensures
        r1 == r2,
{
}

} // verus!
