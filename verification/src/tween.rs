//! The tween primitive: eased interpolation of positions and staged
//! orientation changes over fixed durations, chained into sequences.
//!
//! A sequence samples as a function of elapsed time, clamped at both ends:
//! before the first phase it shows the first phase's start, after the last it
//! shows the final placement.  Phase `i + 1` begins exactly when phase `i`
//! completes, so a sequence's total duration is the sum of its phases.

use vstd::prelude::*;

use crate::geom::{pos_ok, Rotation, Transform3, Vec3i, MAX_SEGMENT_MS};

verus! {

/// How elapsed time maps onto progress within one phase.
#[derive(Clone, Copy, Debug, PartialEq, Eq, Structural)]
pub enum Easing {
    /// Progress proportional to time.
    Linear,
    /// Progress proportional to the square of time: a slow start.
    QuadraticIn,
}

/// What a phase drives: a position glide or an orientation change.
///
/// A position phase leaves the orientation alone and vice versa.  An
/// orientation phase shows its start until the phase completes and its end
/// from then on.
#[derive(Clone, Copy, Debug, PartialEq, Eq, Structural)]
pub enum Track {
    Move { start: Vec3i, end: Vec3i },
    Turn { from: Rotation, to: Rotation },
}

/// One timed phase of a choreography.
#[derive(Clone, Copy, Debug, PartialEq, Eq, Structural)]
pub struct TweenPhase {
    pub duration_ms: u64,
    pub easing: Easing,
    pub track: Track,
}

/// Most phases a single choreography can chain.
pub const MAX_PHASES: usize = 16;

impl TweenPhase {
    /// The phase's duration and any position endpoints are in range.
    pub open spec fn wf(self) -> bool {
        &&& self.duration_ms <= MAX_SEGMENT_MS
        &&& match self.track {
            Track::Move { start, end } => start.in_range() && end.in_range(),
            Track::Turn { .. } => true,
        }
    }
}

/// An ordered chain of phases driving one entity's transform.
#[derive(Clone, Debug)]
pub struct TweenSequence {
    pub phases: Vec<TweenPhase>,
}

/// Sum of the durations of a chain of phases.
pub open spec fn spec_total(phases: Seq<TweenPhase>) -> int
    decreases phases.len(),
{
    if phases.len() == 0 {
        0
    } else {
        phases[0].duration_ms + spec_total(phases.drop_first())
    }
}

/// Progress of an eased phase: the distance covered toward the target after
/// `t` of `d` milliseconds, for a phase of nonnegative length `delta`.
pub open spec fn spec_progress(e: Easing, delta: int, t: int, d: int) -> int {
    match e {
        Easing::Linear => delta * t / d,
        Easing::QuadraticIn => delta * t * t / (d * d),
    }
}

/// The eased value between `start` and `end` after `t` of `d` milliseconds,
/// clamped to the phase's span.
pub open spec fn spec_eased(e: Easing, start: int, end: int, t: int, d: int) -> int {
    let tc = if t < 0 {
        0
    } else if t > d {
        d
    } else {
        t
    };
    if d <= 0 {
        end
    } else if end >= start {
        start + spec_progress(e, end - start, tc, d)
    } else {
        start - spec_progress(e, start - end, tc, d)
    }
}

/// The transform an entity shows `t` milliseconds into one phase, given the
/// transform `base` it carried into the phase.
pub open spec fn spec_apply_phase(base: Transform3, ph: TweenPhase, t: int) -> Transform3 {
    match ph.track {
        Track::Move { start, end } => Transform3 {
            pos: Vec3i {
                x: spec_eased(ph.easing, start.x as int, end.x as int, t, ph.duration_ms as int) as i64,
                y: spec_eased(ph.easing, start.y as int, end.y as int, t, ph.duration_ms as int) as i64,
                z: spec_eased(ph.easing, start.z as int, end.z as int, t, ph.duration_ms as int) as i64,
            },
            rot: base.rot,
        },
        Track::Turn { from, to } => Transform3 {
            pos: base.pos,
            rot: if t >= ph.duration_ms { to } else { from },
        },
    }
}

/// The transform an entity carries out of a completed phase.
pub open spec fn spec_phase_end(base: Transform3, ph: TweenPhase) -> Transform3 {
    spec_apply_phase(base, ph, ph.duration_ms as int)
}

/// The transform shown `t` milliseconds into a chain of phases started from
/// `base`; past the last phase the final placement holds.
pub open spec fn spec_sample(phases: Seq<TweenPhase>, base: Transform3, t: int) -> Transform3
    decreases phases.len(),
{
    if phases.len() == 0 {
        base
    } else if t < phases[0].duration_ms {
        spec_apply_phase(base, phases[0], t)
    } else {
        spec_sample(phases.drop_first(), spec_phase_end(base, phases[0]), t - phases[0].duration_ms)
    }
}

proof fn lemma_progress_bounds(e: Easing, delta: int, t: int, d: int)
    requires
        0 <= delta,
        0 <= t <= d,
        0 < d,
    ensures
        0 <= spec_progress(e, delta, t, d) <= delta,
{
    match e {
        Easing::Linear => {
            assert(0 <= delta * t / d <= delta) by (nonlinear_arith)
                requires 0 <= delta && 0 <= t <= d && 0 < d;
        },
        Easing::QuadraticIn => {
            assert(0 <= delta * t * t / (d * d) <= delta) by (nonlinear_arith)
                requires 0 <= delta && 0 <= t <= d && 0 < d;
        },
    }
}

/// Progress computed in wide unsigned arithmetic.
fn exec_progress(e: Easing, delta: u64, t: u64, d: u64) -> (r: u64)
    requires
        delta <= 2 * POS_LIMIT_U,
        t <= d,
        0 < d,
        d <= MAX_SEGMENT_MS,
    ensures
        r == spec_progress(e, delta as int, t as int, d as int),
        r <= delta,
{
    proof {
        lemma_progress_bounds(e, delta as int, t as int, d as int);
    }
    match e {
        Easing::Linear => {
            proof {
                assert((delta as int) * (t as int) <= (2 * POS_LIMIT_U) * MAX_SEGMENT_MS) by (nonlinear_arith)
                    requires 0 <= delta <= 2 * POS_LIMIT_U && 0 <= t <= MAX_SEGMENT_MS;
            }
            let wide: u128 = (delta as u128) * (t as u128) / (d as u128);
            wide as u64
        },
        Easing::QuadraticIn => {
            proof {
                assert((t as int) * (t as int) <= (d as int) * (d as int)
                    && (d as int) * (d as int) <= 16_000_000_000_000_000_000_000_000int) by (nonlinear_arith)
                    requires 0 < d <= MAX_SEGMENT_MS && 0 <= t <= d;
                assert((delta as int) * ((t as int) * (t as int))
                    <= (2 * POS_LIMIT_U) * (16_000_000_000_000_000_000_000_000int)) by (nonlinear_arith)
                    requires 0 <= delta <= 2 * POS_LIMIT_U
                        && 0 <= (t as int) * (t as int) <= 16_000_000_000_000_000_000_000_000int;
            }
            let tt: u128 = (t as u128) * (t as u128);
            let dd: u128 = (d as u128) * (d as u128);
            proof {
                assert((d as int) * (d as int) > 0) by (nonlinear_arith)
                    requires 0 < d;
            }
            let wide: u128 = (delta as u128) * tt / dd;
            proof {
                assert((delta as int) * ((t as int) * (t as int)) == (delta as int) * (t as int) * (t as int))
                    by (nonlinear_arith);
            }
            wide as u64
        },
    }
}

/// `POS_LIMIT` seen as an unsigned bound.
pub const POS_LIMIT_U: u64 = 16_000_000_000;

/// The eased value between `start` and `end` after `t` of `d` milliseconds.
pub fn eased_value(e: Easing, start: i64, end: i64, t: u64, d: u64) -> (r: i64)
    requires
        pos_ok(start as int),
        pos_ok(end as int),
        d <= MAX_SEGMENT_MS,
    ensures
        r == spec_eased(e, start as int, end as int, t as int, d as int),
        pos_ok(r as int),
{
    let tc: u64 = if t > d {
        d
    } else {
        t
    };
    if d == 0 {
        end
    } else if end >= start {
        let delta: u64 = (end - start) as u64;
        let p: u64 = exec_progress(e, delta, tc, d);
        start + (p as i64)
    } else {
        let delta: u64 = (start - end) as u64;
        let p: u64 = exec_progress(e, delta, tc, d);
        start - (p as i64)
    }
}

impl TweenSequence {
    /// Every phase is in range and the chain is short enough that its total
    /// duration cannot overflow.
    pub open spec fn wf(self) -> bool {
        &&& self.phases@.len() <= MAX_PHASES
        &&& forall|i: int| 0 <= i < self.phases@.len() ==> #[trigger] self.phases@[i].wf()
    }

    /// An empty chain: shows its base transform forever.
    pub fn empty() -> (r: TweenSequence)
        ensures
            r.phases@ =~= Seq::<TweenPhase>::empty(),
            r.wf(),
    {
        TweenSequence { phases: Vec::new() }
    }

    /// Total duration in milliseconds: the sum of the phases.
    pub fn total_duration(&self) -> (r: u64)
        requires
            self.wf(),
        ensures
            r == spec_total(self.phases@),
    {
        let mut sum: u64 = 0;
        let mut i: usize = 0;
        proof {
            assert(self.phases@.take(0) =~= Seq::<TweenPhase>::empty());
        }
        while i < self.phases.len()
            invariant
                self.wf(),
                0 <= i <= self.phases@.len(),
                sum == spec_total(self.phases@.take(i as int)),
                sum <= i * (MAX_SEGMENT_MS as int),
            decreases self.phases@.len() - i,
        {
            proof {
                lemma_total_take_succ(self.phases@, i as int);
                assert(self.phases@[i as int].wf());
            }
            sum = sum + self.phases[i].duration_ms;
            i = i + 1;
        }
        proof {
            assert(self.phases@.take(self.phases@.len() as int) =~= self.phases@);
        }
        sum
    }

    /// The transform shown `t` milliseconds after this sequence was attached
    /// to an entity whose transform was `base`.
    pub fn sample(&self, base: Transform3, t: u64) -> (r: Transform3)
        requires
            self.wf(),
        ensures
            r == spec_sample(self.phases@, base, t as int),
            base.in_range() ==> r.in_range(),
    {
        let mut i: usize = 0;
        let mut cur: Transform3 = base;
        let mut rem: u64 = t;
        proof {
            assert(self.phases@.skip(0) =~= self.phases@);
        }
        while i < self.phases.len()
            invariant
                self.wf(),
                0 <= i <= self.phases@.len(),
                spec_sample(self.phases@.skip(i as int), cur, rem as int)
                    == spec_sample(self.phases@, base, t as int),
                base.in_range() ==> cur.in_range(),
            decreases self.phases@.len() - i,
        {
            let ph = self.phases[i];
            proof {
                assert(self.phases@.skip(i as int)[0] == self.phases@[i as int]);
                assert(self.phases@.skip(i as int).drop_first() =~= self.phases@.skip(i as int + 1));
            }
            if rem < ph.duration_ms {
                let r = apply_phase(cur, ph, rem);
                proof {
                    assert(spec_sample(self.phases@.skip(i as int), cur, rem as int)
                        == spec_apply_phase(cur, ph, rem as int));
                }
                return r;
            }
            cur = phase_end(cur, ph);
            rem = rem - ph.duration_ms;
            i = i + 1;
        }
        proof {
            assert(self.phases@.skip(self.phases@.len() as int) =~= Seq::<TweenPhase>::empty());
        }
        cur
    }
}

/// The transform an entity shows `t` milliseconds into one phase.
pub fn apply_phase(base: Transform3, ph: TweenPhase, t: u64) -> (r: Transform3)
    requires
        ph.wf(),
    ensures
        r == spec_apply_phase(base, ph, t as int),
        base.in_range() ==> r.in_range(),
{
    match ph.track {
        Track::Move { start, end } => Transform3 {
            pos: Vec3i {
                x: eased_value(ph.easing, start.x, end.x, t, ph.duration_ms),
                y: eased_value(ph.easing, start.y, end.y, t, ph.duration_ms),
                z: eased_value(ph.easing, start.z, end.z, t, ph.duration_ms),
            },
            rot: base.rot,
        },
        Track::Turn { from, to } => Transform3 {
            pos: base.pos,
            rot: if t >= ph.duration_ms {
                to
            } else {
                from
            },
        },
    }
}

/// The transform an entity carries out of a completed phase.
pub fn phase_end(base: Transform3, ph: TweenPhase) -> (r: Transform3)
    requires
        ph.wf(),
    ensures
        r == spec_phase_end(base, ph),
        base.in_range() ==> r.in_range(),
{
    apply_phase(base, ph, ph.duration_ms)
}

proof fn lemma_total_take_succ(phases: Seq<TweenPhase>, i: int)
    requires
        0 <= i < phases.len(),
    ensures
        spec_total(phases.take(i + 1)) == spec_total(phases.take(i)) + phases[i].duration_ms,
    decreases i,
{
    if i == 0 {
        assert(phases.take(1).drop_first() =~= Seq::<TweenPhase>::empty());
        assert(phases.take(0) =~= Seq::<TweenPhase>::empty());
        assert(phases.take(1)[0] == phases[0]);
    } else {
        lemma_total_take_succ(phases.drop_first(), i - 1);
        assert(phases.take(i + 1).drop_first() =~= phases.drop_first().take(i));
        assert(phases.take(i).drop_first() =~= phases.drop_first().take(i - 1));
        assert(phases.take(i + 1)[0] == phases[0]);
        assert(phases.take(i)[0] == phases[0]);
    }
}

/// An eased value stays within range whenever its endpoints do.
pub proof fn lemma_eased_in_range(e: Easing, start: int, end: int, t: int, d: int)
    requires
        pos_ok(start),
        pos_ok(end),
    ensures
        pos_ok(spec_eased(e, start, end, t, d)),
{
    if d <= 0 {
    } else {
        let tc = if t < 0 {
            0
        } else if t > d {
            d
        } else {
            t
        };
        if end >= start {
            lemma_progress_bounds(e, end - start, tc, d);
        } else {
            lemma_progress_bounds(e, start - end, tc, d);
        }
    }
}

/// A sampled transform stays within range whenever the base does and the
/// phases are well-formed.
pub proof fn lemma_sample_in_range(phases: Seq<TweenPhase>, base: Transform3, t: int)
    requires
        forall|i: int| 0 <= i < phases.len() ==> #[trigger] phases[i].wf(),
        base.in_range(),
    ensures
        spec_sample(phases, base, t).in_range(),
    decreases phases.len(),
{
    if phases.len() > 0 {
        assert(phases[0].wf());
        match phases[0].track {
            Track::Move { start, end } => {
                lemma_eased_in_range(
                    phases[0].easing,
                    start.x as int,
                    end.x as int,
                    t,
                    phases[0].duration_ms as int,
                );
                lemma_eased_in_range(
                    phases[0].easing,
                    start.y as int,
                    end.y as int,
                    t,
                    phases[0].duration_ms as int,
                );
                lemma_eased_in_range(
                    phases[0].easing,
                    start.z as int,
                    end.z as int,
                    t,
                    phases[0].duration_ms as int,
                );
                lemma_eased_in_range(
                    phases[0].easing,
                    start.x as int,
                    end.x as int,
                    phases[0].duration_ms as int,
                    phases[0].duration_ms as int,
                );
                lemma_eased_in_range(
                    phases[0].easing,
                    start.y as int,
                    end.y as int,
                    phases[0].duration_ms as int,
                    phases[0].duration_ms as int,
                );
                lemma_eased_in_range(
                    phases[0].easing,
                    start.z as int,
                    end.z as int,
                    phases[0].duration_ms as int,
                    phases[0].duration_ms as int,
                );
            },
            Track::Turn { .. } => {},
        }
        assert forall|i: int| 0 <= i < phases.drop_first().len() implies #[trigger] phases.drop_first()[i].wf() by {
            assert(phases[i + 1].wf());
        }
        lemma_sample_in_range(
            phases.drop_first(),
            spec_phase_end(base, phases[0]),
            t - phases[0].duration_ms,
        );
        if t < phases[0].duration_ms {
        }
    }
}

/// The total duration of a well-formed sequence fits comfortably in `u64`.
pub proof fn lemma_total_bounded(phases: Seq<TweenPhase>)
    requires
        phases.len() <= MAX_PHASES,
        forall|i: int| 0 <= i < phases.len() ==> #[trigger] phases[i].wf(),
    ensures
        0 <= spec_total(phases) <= phases.len() * MAX_SEGMENT_MS,
        spec_total(phases) <= MAX_PHASES * MAX_SEGMENT_MS,
    decreases phases.len(),
{
    if phases.len() > 0 {
        assert(phases[0].wf());
        assert forall|i: int| 0 <= i < phases.drop_first().len() implies #[trigger] phases.drop_first()[i].wf() by {
            assert(phases[i + 1].wf());
        }
        lemma_total_bounded(phases.drop_first());
    }
}

} // verus!
