use vstd::prelude::*;

use crate::bytes::{bytes_to_16bit, le16};

verus! {

/// Two samples are similar when they differ by at most the larger magnitude
/// divided by this, floored at the significant amplitude.
pub const SIMILARITY_DIVISOR: i32 = 5;

/// The two halves of an accepted period may differ in length by at most
/// this many samples.
pub const MAX_SAMPLE_COUNT_SLACK: usize = 16;

/// A segment is abandoned after this many consecutive failed period
/// hypotheses since its last reset.
pub const MAX_RETRY_PASSES: usize = 4;

/// The magnitude of a sample, as an unbounded integer.
pub open spec fn abs16(v: i16) -> int {
    if v >= 0 {
        v as int
    } else {
        -(v as int)
    }
}

/// The adaptive similarity threshold for a pair of samples: a fifth of the
/// larger magnitude, but never below the significant amplitude `sig`.
pub open spec fn sim_threshold(a: i16, b: i16, sig: i16) -> int {
    let larger = if abs16(a) > abs16(b) {
        abs16(a)
    } else {
        abs16(b)
    };
    let rel = larger / (SIMILARITY_DIVISOR as int);
    if rel > sig as int {
        rel
    } else {
        sig as int
    }
}

/// Whether two samples differ by no more than their adaptive threshold.
pub open spec fn similar(a: i16, b: i16, sig: i16) -> bool {
    -sim_threshold(a, b, sig) <= a - b <= sim_threshold(a, b, sig)
}

/// A valid period hypothesis: the buffer's first `p` samples match the
/// samples from `p` on, element-wise under the adaptive threshold, stopping
/// at whichever half is shorter.
pub open spec fn check_period_spec(w: Seq<i16>, p: int, sig: i16) -> bool {
    forall|k: int| 0 <= k < p && p + k < w.len() ==> #[trigger] similar(w[k], w[p + k], sig)
}

/// Compares the two halves of the buffer under the period hypothesis
/// `period_idx`, as `check_period_spec` states.
pub fn check_period(waveform: &Vec<i16>, period_idx: usize, sig: i16) -> (r: bool)
    ensures
        r == check_period_spec(waveform@, period_idx as int, sig),
{
    let n = waveform.len();
    let mut first_idx: usize = 0;
    let mut second_idx: usize = period_idx;
    while first_idx < period_idx && second_idx < n
        invariant
            n == waveform@.len(),
            first_idx <= period_idx,
            second_idx == period_idx + first_idx,
            forall|k: int|
                0 <= k < first_idx ==> #[trigger] similar(waveform@[k], waveform@[period_idx + k], sig),
        decreases period_idx - first_idx,
    {
        let a = waveform[first_idx] as i32;
        let b = waveform[second_idx] as i32;
        let first_abs = if a > 0 {
            a
        } else {
            -a
        };
        let second_abs = if b > 0 {
            b
        } else {
            -b
        };
        let larger = if first_abs > second_abs {
            first_abs
        } else {
            second_abs
        };
        let rel = larger / SIMILARITY_DIVISOR;
        let threshold = if rel > sig as i32 {
            rel
        } else {
            sig as i32
        };
        if a - b > threshold || a - b < -threshold {
            proof {
                assert(!similar(
                    waveform@[first_idx as int],
                    waveform@[period_idx + first_idx],
                    sig,
                ));
            }
            return false;
        }
        first_idx = first_idx + 1;
        second_idx = second_idx + 1;
    }
    true
}

/// Half-periods that stay within the significant amplitude of each other at
/// every compared position are always accepted, no matter how large their
/// relative difference is: the adaptive threshold never drops below `sig`.
pub proof fn lemma_similarity_floor(w: Seq<i16>, p: int, sig: i16)
    requires
        forall|k: int|
            0 <= k < p && p + k < w.len() ==> -(sig as int) <= #[trigger] w[k] - #[trigger] w[p
                + k] <= sig as int,
    ensures
        check_period_spec(w, p, sig),
{
    assert forall|k: int| 0 <= k < p && p + k < w.len() implies #[trigger] similar(
        w[k],
        w[p + k],
        sig,
    ) by {
        assert(sim_threshold(w[k], w[p + k], sig) >= sig as int);
    }
}

/// One committed period of the waveform, tagged with the frame index of the
/// sample stream at which it was committed.
#[derive(Debug)]
pub struct Contour {
    /// The samples of one period.
    pub samples: Vec<i16>,
    /// The frame index at the moment of the commit; the start time in
    /// seconds is this divided by the sample rate.
    pub start_frame: usize,
}

/// The mathematical image of a `Contour`.
#[verifier::ext_equal]
pub ghost struct ContourV {
    pub samples: Seq<i16>,
    pub start_frame: int,
}

impl View for Contour {
    type V = ContourV;

    open spec fn view(&self) -> ContourV {
        ContourV { samples: self.samples@, start_frame: self.start_frame as int }
    }
}

/// The engine's mutable state: the accumulation buffer, the period
/// hypothesis (0 for none), whether a significant amplitude was reached,
/// the previous sample, and the retry-pass count.
pub struct EngineState {
    pub waveform: Vec<i16>,
    pub period_idx: usize,
    pub significant: bool,
    pub last_sample: i16,
    pub passes: usize,
}

/// The mathematical image of an `EngineState`.
#[verifier::ext_equal]
pub ghost struct StateV {
    pub waveform: Seq<i16>,
    pub period_idx: int,
    pub significant: bool,
    pub last_sample: i16,
    pub passes: int,
}

impl View for EngineState {
    type V = StateV;

    open spec fn view(&self) -> StateV {
        StateV {
            waveform: self.waveform@,
            period_idx: self.period_idx as int,
            significant: self.significant,
            last_sample: self.last_sample as i16,
            passes: self.passes as int,
        }
    }
}

/// What one step of the machine yields: the next state, and at most one of
/// a committed contour or an abandoned segment.
#[verifier::ext_equal]
pub ghost struct StepV {
    pub state: StateV,
    pub contour: Option<ContourV>,
    pub failed: Option<Seq<i16>>,
}

/// A well-formed state: the hypothesis index never points past the buffer,
/// and is zero while the buffer is empty.
pub open spec fn wf_state(st: StateV) -> bool {
    &&& 0 <= st.period_idx <= st.waveform.len()
    &&& 0 <= st.passes
}

/// The state before any sample was processed.
pub open spec fn init_state() -> StateV {
    StateV {
        waveform: Seq::empty(),
        period_idx: 0,
        significant: false,
        last_sample: 0,
        passes: 0,
    }
}

/// One step of the contour extraction machine on sample `s` at frame index
/// `frame`, with significant amplitude `sig`.
///
/// While the buffer is empty the machine waits for an upward zero-crossing
/// to arm. While armed it appends every sample; a downward crossing before
/// the segment became significant discards it as noise; an upward crossing
/// first fixes a hypothesis, then on later crossings validates it, and
/// commits, keeps extending, or abandons the segment after too many failed
/// passes.
pub open spec fn step_spec(st: StateV, s: i16, frame: int, sig: i16) -> StepV {
    if st.waveform.len() > 0 {
        let w1 = st.waveform.push(s);
        let sig_now = st.significant || s > sig;
        if st.last_sample >= 0 && s < 0 && !sig_now {
            // Never significant: the whole segment was noise.
            StepV {
                state: StateV {
                    waveform: Seq::empty(),
                    period_idx: 0,
                    significant: sig_now,
                    last_sample: s,
                    passes: 1,
                },
                contour: None,
                failed: None,
            }
        } else if st.last_sample < 0 && s >= 0 {
            if st.period_idx == 0 {
                // First crossing since arming: fix the tentative period.
                let w2 = w1.push(s);
                StepV {
                    state: StateV {
                        waveform: w2,
                        period_idx: w2.len() - 1,
                        significant: sig_now,
                        last_sample: s,
                        passes: st.passes + 1,
                    },
                    contour: None,
                    failed: None,
                }
            } else {
                let p = st.period_idx;
                if check_period_spec(w1, p, sig) {
                    let second = w1.len() - p;
                    let asym = if p >= second {
                        p - second
                    } else {
                        second - p
                    };
                    if asym <= MAX_SAMPLE_COUNT_SLACK as int {
                        // Validated: commit one period, keep the remainder.
                        let rest = w1.subrange(p, w1.len() as int);
                        StepV {
                            state: StateV {
                                waveform: rest,
                                period_idx: rest.len() - 1,
                                significant: sig_now,
                                last_sample: s,
                                passes: 0,
                            },
                            contour: Some(
                                ContourV { samples: w1.subrange(0, p), start_frame: frame },
                            ),
                            failed: None,
                        }
                    } else {
                        // Halves too unequal: inconclusive, extend and retry.
                        StepV {
                            state: StateV {
                                waveform: w1,
                                period_idx: w1.len() - 1,
                                significant: sig_now,
                                last_sample: s,
                                passes: st.passes + 1,
                            },
                            contour: None,
                            failed: None,
                        }
                    }
                } else {
                    if st.passes + 1 > MAX_RETRY_PASSES as int {
                        // Out of retries: abandon and re-arm from `s`.
                        StepV {
                            state: StateV {
                                waveform: seq![s],
                                period_idx: 0,
                                significant: false,
                                last_sample: s,
                                passes: 1,
                            },
                            contour: None,
                            failed: Some(w1),
                        }
                    } else {
                        StepV {
                            state: StateV {
                                waveform: w1,
                                period_idx: w1.len() - 1,
                                significant: sig_now,
                                last_sample: s,
                                passes: st.passes + 1,
                            },
                            contour: None,
                            failed: None,
                        }
                    }
                }
            }
        } else {
            StepV {
                state: StateV {
                    waveform: w1,
                    period_idx: st.period_idx,
                    significant: sig_now,
                    last_sample: s,
                    passes: st.passes,
                },
                contour: None,
                failed: None,
            }
        }
    } else {
        if st.last_sample < 0 && s >= 0 {
            // Arm: start a fresh segment with `s`.
            StepV {
                state: StateV {
                    waveform: seq![s],
                    period_idx: 0,
                    significant: false,
                    last_sample: s,
                    passes: 1,
                },
                contour: None,
                failed: None,
            }
        } else {
            StepV {
                state: StateV {
                    waveform: st.waveform,
                    period_idx: st.period_idx,
                    significant: st.significant,
                    last_sample: s,
                    passes: st.passes,
                },
                contour: None,
                failed: None,
            }
        }
    }
}

/// A step keeps the state well-formed, raises the pass count by at most
/// one, and only ever commits a non-empty contour.
pub proof fn lemma_step_wf(st: StateV, s: i16, frame: int, sig: i16)
    requires
        wf_state(st),
    ensures
        wf_state(step_spec(st, s, frame, sig).state),
        step_spec(st, s, frame, sig).state.passes <= st.passes + 1,
        step_spec(st, s, frame, sig).contour matches Some(c) ==> c.samples.len() >= 1,
{
}

/// The views of a sequence of contours.
pub open spec fn contour_views(s: Seq<Contour>) -> Seq<ContourV> {
    s.map_values(|c: Contour| c@)
}

/// The views of a sequence of sample vectors.
pub open spec fn seq_views(s: Seq<Vec<i16>>) -> Seq<Seq<i16>> {
    s.map_values(|v: Vec<i16>| v@)
}

pub proof fn lemma_contour_views_push(s: Seq<Contour>, c: Contour)
    ensures
        contour_views(s.push(c)) == contour_views(s).push(c@),
{
    assert(contour_views(s.push(c)) =~= contour_views(s).push(c@));
}

pub proof fn lemma_seq_views_push(s: Seq<Vec<i16>>, v: Vec<i16>)
    ensures
        seq_views(s.push(v)) == seq_views(s).push(v@),
{
    assert(seq_views(s.push(v)) =~= seq_views(s).push(v@));
}

/// Copies the samples of `v` in `[start, end)` into a fresh vector.
fn subrange_i16(v: &Vec<i16>, start: usize, end: usize) -> (r: Vec<i16>)
    requires
        start <= end <= v@.len(),
    ensures
        r@ == v@.subrange(start as int, end as int),
{
    let mut out: Vec<i16> = Vec::new();
    let mut i: usize = start;
    while i < end
        invariant
            start <= i <= end <= v@.len(),
            out@ == v@.subrange(start as int, i as int),
        decreases end - i,
    {
        out.push(v[i]);
        proof {
            assert(out@ =~= v@.subrange(start as int, i + 1));
        }
        i = i + 1;
    }
    out
}

/// Runs one step of the machine in place, pushing a committed contour or an
/// abandoned segment onto the given vectors, exactly as `step_spec` says.
pub fn engine_step(
    st: &mut EngineState,
    contours: &mut Vec<Contour>,
    failed: &mut Vec<Vec<i16>>,
    s: i16,
    frame: usize,
    sig: i16,
)
    requires
        wf_state(old(st)@),
        old(st).passes < usize::MAX,
    ensures
        ({
            let r = step_spec(old(st)@, s, frame as int, sig);
            &&& final(st)@ == r.state
            &&& contour_views(final(contours)@) == (match r.contour {
                Some(c) => contour_views(old(contours)@).push(c),
                None => contour_views(old(contours)@),
            })
            &&& seq_views(final(failed)@) == (match r.failed {
                Some(f) => seq_views(old(failed)@).push(f),
                None => seq_views(old(failed)@),
            })
        }),
{
    let ghost r = step_spec(old(st)@, s, frame as int, sig);
    if st.waveform.len() != 0 {
        st.waveform.push(s);
        if s > sig {
            st.significant = true;
        }
        if st.last_sample >= 0 && s < 0 && !st.significant {
            st.waveform = Vec::new();
            st.period_idx = 0;
            st.passes = 1;
        } else if st.last_sample < 0 && s >= 0 {
            if st.period_idx == 0 {
                st.waveform.push(s);
                st.period_idx = st.waveform.len() - 1;
                st.passes = st.passes + 1;
            } else {
                if check_period(&st.waveform, st.period_idx, sig) {
                    let second = st.waveform.len() - st.period_idx;
                    let asym = if st.period_idx >= second {
                        st.period_idx - second
                    } else {
                        second - st.period_idx
                    };
                    if asym <= MAX_SAMPLE_COUNT_SLACK {
                        let samples = subrange_i16(&st.waveform, 0, st.period_idx);
                        proof {
                            lemma_contour_views_push(
                                old(contours)@,
                                Contour { samples, start_frame: frame },
                            );
                        }
                        contours.push(Contour { samples, start_frame: frame });
                        let rest = subrange_i16(&st.waveform, st.period_idx, st.waveform.len());
                        st.waveform = rest;
                        st.period_idx = st.waveform.len() - 1;
                        st.passes = 0;
                    } else {
                        st.period_idx = st.waveform.len() - 1;
                        st.passes = st.passes + 1;
                    }
                } else {
                    st.period_idx = st.waveform.len() - 1;
                    st.passes = st.passes + 1;
                    if st.passes > MAX_RETRY_PASSES {
                        let mut w: Vec<i16> = Vec::new();
                        core::mem::swap(&mut w, &mut st.waveform);
                        proof {
                            lemma_seq_views_push(old(failed)@, w);
                        }
                        failed.push(w);
                        st.waveform.push(s);
                        st.period_idx = 0;
                        st.passes = 1;
                        st.significant = false;
                    }
                }
            }
        }
    } else if st.last_sample < 0 && s >= 0 {
        st.waveform.push(s);
        st.period_idx = 0;
        st.significant = false;
        st.passes = 1;
    }
    st.last_sample = s;
    proof {
        assert(st@ =~= r.state);
    }
}

/// The signed 16-bit sample whose little-endian bytes sit at byte index `i`.
pub open spec fn sample_at(data: Seq<u8>, i: int) -> i16 {
    le16(data[i], data[i + 1]) as i16
}

/// The channel's sample stream: one sample every `stride` bytes starting at
/// byte `i`, for as long as two bytes remain.
pub open spec fn samples_from(data: Seq<u8>, i: int, stride: int) -> Seq<i16>
    decreases data.len() - i,
{
    if i < 0 || stride < 1 || i + 2 > data.len() {
        Seq::empty()
    } else {
        let next = if i + stride <= data.len() {
            i + stride
        } else {
            data.len() as int
        };
        seq![sample_at(data, i)] + samples_from(data, next, stride)
    }
}

/// A stride of at least two bytes bounds the stream's length by half the
/// byte range.
pub proof fn lemma_samples_len(data: Seq<u8>, i: int, stride: int)
    requires
        stride >= 2,
    ensures
        2 * samples_from(data, i, stride).len() <= (if data.len() - i >= 0 {
            data.len() - i
        } else {
            0
        }),
    decreases data.len() - i,
{
    if !(i < 0 || i + 2 > data.len()) {
        let next = if i + stride <= data.len() {
            i + stride
        } else {
            data.len() as int
        };
        lemma_samples_len(data, next, stride);
    }
}

/// What the whole scan yields: the committed contours, the abandoned
/// segments, and the machine's final state.
#[verifier::ext_equal]
pub ghost struct ScanV {
    pub contours: Seq<ContourV>,
    pub failed: Seq<Seq<i16>>,
    pub state: StateV,
}

/// Folds `step_spec` over the remaining samples, numbering them from
/// `frame` on and accumulating onto `cs` and `fs`.
pub open spec fn scan_from(
    rest: Seq<i16>,
    frame: int,
    st: StateV,
    cs: Seq<ContourV>,
    fs: Seq<Seq<i16>>,
    sig: i16,
) -> ScanV
    decreases rest.len(),
{
    if rest.len() == 0 {
        ScanV { contours: cs, failed: fs, state: st }
    } else {
        let r = step_spec(st, rest[0], frame, sig);
        let cs2 = match r.contour {
            Some(c) => cs.push(c),
            None => cs,
        };
        let fs2 = match r.failed {
            Some(f) => fs.push(f),
            None => fs,
        };
        scan_from(rest.drop_first(), frame + 1, r.state, cs2, fs2, sig)
    }
}

/// The scan of a sample stream from the initial state.
pub open spec fn scan(samples: Seq<i16>, sig: i16) -> ScanV {
    scan_from(samples, 0, init_state(), Seq::empty(), Seq::empty(), sig)
}

/// A scan from a well-formed state keeps every contour it was handed and
/// only adds non-empty ones.
pub proof fn lemma_scan_contours(
    rest: Seq<i16>,
    frame: int,
    st: StateV,
    cs: Seq<ContourV>,
    fs: Seq<Seq<i16>>,
    sig: i16,
)
    requires
        wf_state(st),
    ensures
        ({
            let r = scan_from(rest, frame, st, cs, fs, sig);
            &&& r.contours.len() >= cs.len()
            &&& (forall|j: int| 0 <= j < cs.len() ==> r.contours[j] == cs[j])
            &&& (forall|j: int|
                cs.len() <= j < r.contours.len() ==> r.contours[j].samples.len() >= 1)
        }),
    decreases rest.len(),
{
    if rest.len() > 0 {
        let r = step_spec(st, rest[0], frame, sig);
        lemma_step_wf(st, rest[0], frame, sig);
        let cs2 = match r.contour {
            Some(c) => cs.push(c),
            None => cs,
        };
        let fs2 = match r.failed {
            Some(f) => fs.push(f),
            None => fs,
        };
        lemma_scan_contours(rest.drop_first(), frame + 1, r.state, cs2, fs2, sig);
        match r.contour {
            Some(c) => {
                assert(cs2.len() == cs.len() + 1);
                assert(forall|j: int| 0 <= j < cs.len() ==> cs2[j] == cs[j]);
                assert(cs2[cs.len() as int] == c);
                assert(c.samples.len() >= 1);
            },
            None => {
                assert(cs2 == cs);
            },
        }
    }
}

/// Scans the byte stream `data` as interleaved frames of `stride` bytes
/// starting at `offset`, running the machine over the first sample of each
/// frame, and returns the committed contours and the abandoned segments —
/// exactly what `scan` yields on that sample stream. Another interleaved
/// channel is analyzed by moving `offset` two bytes per channel.
pub fn extract_contours(data: &Vec<u8>, offset: usize, stride: usize, sig: i16) -> (r: (
    Vec<Contour>,
    Vec<Vec<i16>>,
))
    requires
        2 <= stride,
    ensures
        ({
            let sv = scan(samples_from(data@, offset as int, stride as int), sig);
            &&& contour_views(r.0@) == sv.contours
            &&& seq_views(r.1@) == sv.failed
        }),
{
    let ghost total = samples_from(data@, offset as int, stride as int);
    let mut st = EngineState {
        waveform: Vec::new(),
        period_idx: 0,
        significant: false,
        last_sample: 0,
        passes: 0,
    };
    let mut contours: Vec<Contour> = Vec::new();
    let mut failed: Vec<Vec<i16>> = Vec::new();
    let mut i: usize = offset;
    let mut frame: usize = 0;
    proof {
        assert(st@ =~= init_state());
        assert(contour_views(contours@) =~= Seq::<ContourV>::empty());
        assert(seq_views(failed@) =~= Seq::<Seq<i16>>::empty());
        lemma_samples_len(data@, offset as int, stride as int);
    }
    while i < data.len() && data.len() - i >= 2
        invariant
            2 <= stride,
            i >= 0,
            wf_state(st@),
            st@.passes <= frame + 1,
            2 * total.len() <= data@.len(),
            frame + samples_from(data@, i as int, stride as int).len() == total.len(),
            scan_from(
                samples_from(data@, i as int, stride as int),
                frame as int,
                st@,
                contour_views(contours@),
                seq_views(failed@),
                sig,
            ) == scan(total, sig),
        decreases data@.len() - i,
    {
        let ghost rest = samples_from(data@, i as int, stride as int);
        let s = bytes_to_16bit(data, i) as i16;
        let ghost prev = st@;
        engine_step(&mut st, &mut contours, &mut failed, s, frame, sig);
        proof {
            lemma_step_wf(prev, s, frame as int, sig);
        }
        frame = frame + 1;
        if stride <= data.len() - i {
            i = i + stride;
        } else {
            i = data.len();
        }
        proof {
            assert(samples_from(data@, i as int, stride as int) =~= rest.drop_first());
        }
    }
    (contours, failed)
}

} // verus!
