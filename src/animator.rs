use vstd::prelude::*;

use std::time::{Duration, Instant};

use crate::fixed::{UNIT, add_fx, mul_fx, clamp_i64, fx_add, fx_mul};

verus! {

/// What an animator reports for one tick.
#[derive(Debug, Clone, Copy, PartialEq, Eq, Structural)]
pub enum AnimationState {
    Playing,
    Over,
}

/// Anything whose named properties an animator can drive.
pub trait Animatable<T>: Sized {
    /// The target's own consistency, kept by every `set`.
    spec fn ready(&self) -> bool;

    /// `new` is what this target becomes once its property `id` is set to `value`.
    spec fn set_post(&self, id: T, value: i64, new: Self) -> bool;

    fn set(&mut self, id: &T, value: i64)
        requires
            old(self).ready(),
        ensures
            final(self).ready(),
            old(self).set_post(*id, value, *final(self));
}

/// `states` runs from `start` to `end`, one step per property of `values` in order:
/// step `i` sets property `values[i].id` to `xs[i]`, its value at progress `g`.
pub open spec fn set_chain<T, A: Animatable<T>, F: Fn(i64, i64) -> i64>(values: Seq<AnimatedValue<T>>, g: i64,
    pow: F, start: A, end: A, states: Seq<A>, xs: Seq<i64>) -> bool {
    &&& states.len() == values.len() + 1
    &&& xs.len() == values.len()
    &&& states[0] == start
    &&& states[values.len() as int] == end
    &&& forall|i: int| #![trigger xs[i]] 0 <= i < values.len() ==> {
        &&& value_at(values[i], g, xs[i], pow)
        &&& states[i].set_post(values[i].id, xs[i], states[i + 1])
        &&& states[i + 1].ready()
    }
}

/// Setting every property of `values`, in order, to its value at progress `g` takes
/// `start` to `end`; where two properties share an id the later write comes last.
pub open spec fn sets_in_order<T, A: Animatable<T>, F: Fn(i64, i64) -> i64>(values: Seq<AnimatedValue<T>>,
    g: i64, pow: F, start: A, end: A) -> bool {
    exists|states: Seq<A>, xs: Seq<i64>| #[trigger] set_chain(values, g, pow, start, end, states, xs)
}

/// `t` clamped to `[0, UNIT]`.
pub open spec fn clamp_unit(t: i64) -> i64 {
    if t < 0 {
        0
    } else if t > UNIT {
        UNIT
    } else {
        t
    }
}

/// Saturating difference of two fixed-point values.
pub open spec fn fx_sub(a: i64, b: i64) -> i64 {
    clamp_i64(a - b) as i64
}

fn sub_fx(a: i64, b: i64) -> (r: i64)
    ensures
        r == fx_sub(a, b),
{
    let d = a as i128 - b as i128;
    if d < i64::MIN as i128 {
        i64::MIN
    } else if d > i64::MAX as i128 {
        i64::MAX
    } else {
        d as i64
    }
}

/// An easing curve over progress in `[0, UNIT]`. A strength is a fixed-point exponent.
#[derive(Debug, Clone, Copy, PartialEq, Eq, Structural)]
pub enum ValueAnimation {
    Linear,
    EaseIn(i64),
    EaseOut(i64),
}

/// `e` is what `curve` gives at progress `t` when `pow(b, s)` raises `b` to the power `s`.
pub open spec fn eased<F: Fn(i64, i64) -> i64>(curve: ValueAnimation, t: i64, e: i64, pow: F) -> bool {
    let c = clamp_unit(t);
    match curve {
        ValueAnimation::Linear => e == c,
        ValueAnimation::EaseIn(s) => pow.ensures((c, s), e),
        ValueAnimation::EaseOut(s) => exists|q: i64| pow.ensures(((UNIT - c) as i64, s), q) && e == fx_sub(UNIT, q),
    }
}

impl ValueAnimation {
    pub open spec fn reversed_spec(self) -> ValueAnimation {
        match self {
            ValueAnimation::Linear => ValueAnimation::Linear,
            ValueAnimation::EaseIn(s) => ValueAnimation::EaseOut(s),
            ValueAnimation::EaseOut(s) => ValueAnimation::EaseIn(s),
        }
    }

    /// The curve played backwards: ease-in and ease-out trade places, strength kept.
    pub fn reversed(&self) -> (r: Self)
        ensures
            r == self.reversed_spec(),
    {
        match self {
            ValueAnimation::Linear => ValueAnimation::Linear,
            ValueAnimation::EaseIn(s) => ValueAnimation::EaseOut(*s),
            ValueAnimation::EaseOut(s) => ValueAnimation::EaseIn(*s),
        }
    }

    /// Eased progress for `value`, clamped to `[0, UNIT]` first: linear gives it back,
    /// ease-in raises it to the strength, ease-out mirrors that.
    pub fn apply<F: Fn(i64, i64) -> i64>(&self, value: i64, pow: &F) -> (r: i64)
        requires
            forall|b: i64, s: i64| pow.requires((b, s)),
        ensures
            eased(*self, value, r, *pow),
    {
        let c = if value < 0 { 0 } else if value > UNIT { UNIT } else { value };
        match self {
            ValueAnimation::Linear => c,
            ValueAnimation::EaseIn(s) => pow(c, *s),
            ValueAnimation::EaseOut(s) => {
                let q = pow(UNIT - c, *s);
                sub_fx(UNIT, q)
            },
        }
    }
}

/// Reversing a curve twice gives it back; reversing swaps ease-in and ease-out.
pub proof fn lemma_reversed_involutive(c: ValueAnimation)
    ensures
        c.reversed_spec().reversed_spec() == c,
        c is Linear ==> c.reversed_spec() is Linear,
        forall|s: i64| c == ValueAnimation::EaseIn(s) ==> c.reversed_spec() == ValueAnimation::EaseOut(s),
        forall|s: i64| c == ValueAnimation::EaseOut(s) ==> c.reversed_spec() == ValueAnimation::EaseIn(s),
{
}

/// A closed interval from `start` to `end`; `end` may lie below `start`.
#[derive(Debug, Clone, Copy, PartialEq, Eq, Structural)]
pub struct Span {
    pub start: i64,
    pub end: i64,
}

/// The value `a` of the way from `range.start` to `range.end`.
pub open spec fn lerp_fx(range: Span, a: i64) -> i64 {
    fx_add(fx_mul(range.start, fx_sub(UNIT, a)), fx_mul(range.end, a))
}

/// One property driven by an animator: its value range, its curve, and the part
/// `duration` of the animation's progress during which it moves.
#[derive(Debug, Clone)]
pub struct AnimatedValue<T> {
    pub id: T,
    pub range: Span,
    pub curve: ValueAnimation,
    pub duration: Span,
}

/// `window` lies in `[0, UNIT]` and is not empty.
pub open spec fn window_ok(window: Span) -> bool {
    0 <= window.start < window.end <= UNIT
}

/// Progress `g` of the whole animation, as progress within `window`.
pub open spec fn local_progress(window: Span, g: i64) -> i64 {
    let c = if g < window.start { window.start } else if g > window.end { window.end } else { g };
    ((c - window.start) * UNIT / (window.end - window.start)) as i64
}

/// `x` is the value of `v` at progress `g` of the whole animation.
pub open spec fn value_at<T, F: Fn(i64, i64) -> i64>(v: AnimatedValue<T>, g: i64, x: i64, pow: F) -> bool {
    exists|e: i64| eased(v.curve, local_progress(v.duration, g), e, pow) && x == lerp_fx(v.range, e)
}

impl<T> AnimatedValue<T> {
    pub open spec fn valid(&self) -> bool {
        window_ok(self.duration)
    }

    /// Whether the window lies in `[0, UNIT]` and is not empty.
    pub fn validate(&self) -> (r: bool)
        ensures
            r == self.valid(),
    {
        0 <= self.duration.start && self.duration.start < self.duration.end && self.duration.end <= UNIT
    }

    /// Plays this property backwards: the curve reversed, the range swapped end for
    /// start, and the window mirrored within `[0, UNIT]`.
    pub fn reverse(&mut self)
        requires
            old(self).valid(),
        ensures
            final(self).valid(),
            final(self).id == old(self).id,
            final(self).curve == old(self).curve.reversed_spec(),
            final(self).range == (Span { start: old(self).range.end, end: old(self).range.start }),
            final(self).duration == (Span {
                start: (UNIT - old(self).duration.end) as i64,
                end: (UNIT - old(self).duration.start) as i64,
            }),
    {
        self.curve = self.curve.reversed();
        self.range = Span { start: self.range.end, end: self.range.start };
        self.duration = Span { start: UNIT - self.duration.end, end: UNIT - self.duration.start };
    }

    /// Length of the window.
    pub fn total_duration(&self) -> (r: i64)
        requires
            self.valid(),
        ensures
            r == self.duration.end - self.duration.start,
    {
        self.duration.end - self.duration.start
    }

    /// Progress `g` of the whole animation, clamped to this window and rescaled to `[0, UNIT]`.
    pub fn scaled(&self, g: i64) -> (r: i64)
        requires
            self.valid(),
        ensures
            r == local_progress(self.duration, g),
            0 <= r <= UNIT,
    {
        let w = self.duration;
        let c = if g < w.start { w.start } else if g > w.end { w.end } else { g };
        let span = self.total_duration();
        proof {
            let (x, d) = ((c - w.start) as int, span as int);
            assert(0 <= x * UNIT <= d * UNIT) by (nonlinear_arith)
                requires 0 <= x <= d;
            assert(x * UNIT / d <= UNIT) by (nonlinear_arith)
                requires 0 <= x <= d, d > 0, x * UNIT <= d * UNIT;
            assert(0 <= x * UNIT / d) by (nonlinear_arith)
                requires 0 <= x * UNIT, d > 0;
        }
        (((c - w.start) as i128 * UNIT as i128) / span as i128) as i64
    }

    /// This property's value at progress `g` of the whole animation.
    pub fn evaluate<F: Fn(i64, i64) -> i64>(&self, g: i64, pow: &F) -> (r: i64)
        requires
            self.valid(),
            forall|b: i64, s: i64| pow.requires((b, s)),
        ensures
            value_at(*self, g, r, *pow),
    {
        let t = self.scaled(g);
        let e = self.curve.apply(t, pow);
        let r = add_fx(mul_fx(self.range.start, sub_fx(UNIT, e)), mul_fx(self.range.end, e));
        assert(eased(self.curve, local_progress(self.duration, g), e, *pow) && r == lerp_fx(self.range, e));
        r
    }
}

/// Before its window a property holds the value its curve gives at progress zero,
/// after its window the value at progress one; for a linear curve, the start and the
/// end of its range.
pub proof fn lemma_outside_window<T, F: Fn(i64, i64) -> i64>(v: AnimatedValue<T>, g: i64, x: i64, pow: F)
    requires
        v.valid(),
        value_at(v, g, x, pow),
    ensures
        g <= v.duration.start ==> local_progress(v.duration, g) == 0,
        g >= v.duration.end ==> local_progress(v.duration, g) == UNIT,
        g <= v.duration.start ==> value_at(v, v.duration.start, x, pow),
        g >= v.duration.end ==> value_at(v, v.duration.end, x, pow),
        v.curve is Linear && g <= v.duration.start ==> x == v.range.start,
        v.curve is Linear && g >= v.duration.end ==> x == v.range.end,
{
    let d = v.duration.end - v.duration.start;
    assert(d * UNIT / d == UNIT) by (nonlinear_arith)
        requires d > 0;
    lemma_mul_unit(v.range.start);
    lemma_mul_unit(v.range.end);
}

/// Multiplying by one in fixed point changes nothing; by zero gives zero.
pub proof fn lemma_mul_unit(a: i64)
    ensures
        fx_mul(a, UNIT) == a,
        fx_mul(a, 0) == 0,
{
    let x = a as int;
    let u = UNIT as int;
    assert(x * u / u == x) by (nonlinear_arith)
        requires u > 0;
    assert((-(x * u)) / u == -x) by (nonlinear_arith)
        requires u > 0;
    assert(x * 0 == 0);
}

/// `pow` gives one result for each base and exponent, and for a base in `[0, UNIT]`
/// a result in `[0, UNIT]`: as a power of a fraction with a positive exponent does.
pub open spec fn pow_is_function<F: Fn(i64, i64) -> i64>(pow: F) -> bool {
    &&& forall|b: i64, s: i64, r1: i64, r2: i64| pow.ensures((b, s), r1) && pow.ensures((b, s), r2) ==> r1 == r2
    &&& forall|b: i64, s: i64, r: i64| 0 <= b <= UNIT && #[trigger] pow.ensures((b, s), r) ==> 0 <= r <= UNIT
}

/// Ease-in at `t` is one minus ease-out at one minus `t`, for the same strength.
pub proof fn lemma_ease_in_mirrors_ease_out<F: Fn(i64, i64) -> i64>(s: i64, t: i64, e_in: i64, e_out: i64, pow: F)
    requires
        pow_is_function(pow),
        0 <= t <= UNIT,
        eased(ValueAnimation::EaseIn(s), t, e_in, pow),
        eased(ValueAnimation::EaseOut(s), (UNIT - t) as i64, e_out, pow),
    ensures
        e_in == UNIT - e_out,
{
    let q = choose|q: i64| pow.ensures((t, s), q) && e_out == fx_sub(UNIT, q);
}

/// The reversal `r` (see `AnimatedValue::reverse`) of a property `v` takes at progress `g`
/// the value `v` takes at `UNIT - g`: for a linear curve with any `pow`, for an eased one
/// where `pow` is a function. Stated where the progress of `v` within its window comes
/// out whole in fixed point, so that no rounding intervenes.
pub proof fn lemma_reverse_mirrors<T, F: Fn(i64, i64) -> i64>(v: AnimatedValue<T>, r: AnimatedValue<T>, g: i64,
    x: i64, y: i64, pow: F)
    requires
        v.valid(),
        v.curve is Linear || pow_is_function(pow),
        r.curve == v.curve.reversed_spec(),
        r.range == (Span { start: v.range.end, end: v.range.start }),
        r.duration == (Span { start: (UNIT - v.duration.end) as i64, end: (UNIT - v.duration.start) as i64 }),
        0 <= g <= UNIT,
        ({
            let h = UNIT - g;
            let c = if h < v.duration.start { v.duration.start as int } else if h > v.duration.end { v.duration.end as int } else { h };
            (c - v.duration.start) * UNIT % ((v.duration.end - v.duration.start) as int) == 0
        }),
        value_at(v, (UNIT - g) as i64, x, pow),
        value_at(r, g, y, pow),
    ensures
        x == y,
{
    let (w0, w1) = (v.duration.start as int, v.duration.end as int);
    let d = w1 - w0;
    let h = UNIT - g;
    let c = if h < w0 { w0 } else if h > w1 { w1 } else { h };
    let k = (c - w0) * UNIT / d;
    assert((c - w0) * UNIT == k * d) by (nonlinear_arith)
        requires d > 0, (c - w0) * UNIT % d == 0, k == (c - w0) * UNIT / d;
    assert((w1 - c) * UNIT == (UNIT - k) * d) by (nonlinear_arith)
        requires (c - w0) * UNIT == k * d, d == w1 - w0;
    assert((w1 - c) * UNIT / d == UNIT - k) by (nonlinear_arith)
        requires d > 0, (w1 - c) * UNIT == (UNIT - k) * d;
    assert(0 <= k <= UNIT) by (nonlinear_arith)
        requires w0 <= c <= w1, d == w1 - w0, d > 0, k == (c - w0) * UNIT / d;
    assert(local_progress(v.duration, (UNIT - g) as i64) == k);
    assert(local_progress(r.duration, g) == UNIT - k);
    let k = k as i64;
    let e1 = choose|e: i64| eased(v.curve, k, e, pow) && x == lerp_fx(v.range, e);
    let e2 = choose|e: i64| eased(r.curve, (UNIT - k) as i64, e, pow) && y == lerp_fx(r.range, e);
    match v.curve {
        ValueAnimation::Linear => {},
        ValueAnimation::EaseIn(s) => {
            let q = choose|q: i64| pow.ensures((k, s), q) && e2 == fx_sub(UNIT, q);
        },
        ValueAnimation::EaseOut(s) => {
            let q = choose|q: i64| pow.ensures(((UNIT - k) as i64, s), q) && e1 == fx_sub(UNIT, q);
        },
    }
    assert(0 <= e1 <= UNIT && e2 == UNIT - e1);
}

/// Where `pow` is a function, a property has one value at each progress.
pub proof fn lemma_value_at_unique<T, F: Fn(i64, i64) -> i64>(v: AnimatedValue<T>, g: i64, x1: i64, x2: i64, pow: F)
    requires
        pow_is_function(pow),
        value_at(v, g, x1, pow),
        value_at(v, g, x2, pow),
    ensures
        x1 == x2,
{
    let t = local_progress(v.duration, g);
    let e1 = choose|e: i64| eased(v.curve, t, e, pow) && x1 == lerp_fx(v.range, e);
    let e2 = choose|e: i64| eased(v.curve, t, e, pow) && x2 == lerp_fx(v.range, e);
    match v.curve {
        ValueAnimation::EaseOut(s) => {
            let c = clamp_unit(t);
            let q1 = choose|q: i64| pow.ensures(((UNIT - c) as i64, s), q) && e1 == fx_sub(UNIT, q);
            let q2 = choose|q: i64| pow.ensures(((UNIT - c) as i64, s), q) && e2 == fx_sub(UNIT, q);
        },
        _ => {},
    }
}

/// Where `pow` is a function, one tick at a given progress makes the same writes, in the
/// same order, whatever state the target started in.
pub proof fn lemma_writes_determined<T, A: Animatable<T>, F: Fn(i64, i64) -> i64>(values: Seq<AnimatedValue<T>>,
    g: i64, pow: F, s1: A, e1: A, states1: Seq<A>, xs1: Seq<i64>, s2: A, e2: A, states2: Seq<A>, xs2: Seq<i64>)
    requires
        pow_is_function(pow),
        set_chain(values, g, pow, s1, e1, states1, xs1),
        set_chain(values, g, pow, s2, e2, states2, xs2),
    ensures
        xs1 == xs2,
{
    assert forall|i: int| 0 <= i < xs1.len() implies xs1[i] == xs2[i] by {
        lemma_value_at_unique(values[i], g, xs1[i], xs2[i], pow);
    }
    assert(xs1 =~= xs2);
}

#[verifier::external_type_specification]
#[verifier::external_body]
pub struct ExInstant(Instant);

/// The most nanoseconds a `Duration` holds: `u64::MAX` seconds and 999_999_999 nanoseconds.
pub const MAX_DURATION_NANOS: u128 = 18446744073709551615999999999;

/// Relies on `Instant::now`: the current instant of a monotonic clock.
#[verifier::external_body]
fn instant_now() -> Instant {
    Instant::now()
}

/// Relies on `Instant::elapsed`: the time since `start`.
#[verifier::external_body]
fn elapsed_since(start: &Instant) -> Duration {
    start.elapsed()
}

/// Relies on `Duration::as_nanos`: the whole nanoseconds of `d`, at most those of `Duration::MAX`.
#[verifier::external_body]
fn nanos_of(d: &Duration) -> (r: u128)
    ensures
        r <= MAX_DURATION_NANOS,
{
    d.as_nanos()
}

/// Progress of an animation of `duration` nanoseconds after `elapsed` nanoseconds:
/// `elapsed / duration` in fixed point, rounded down, at most `UNIT`.
pub open spec fn progress(elapsed: u128, duration: u128) -> i64 {
    if elapsed >= duration {
        UNIT
    } else {
        (elapsed as int * UNIT / duration as int) as i64
    }
}

/// Drives a list of properties over one wall-clock duration.
/// It starts out finished: it plays once `reset` is called.
pub struct Animator<T> {
    values: Vec<AnimatedValue<T>>,
    duration_ns: u128,
    start: Option<Instant>,
}

impl<T> Animator<T> {
    pub closed spec fn values_spec(&self) -> Seq<AnimatedValue<T>> {
        self.values@
    }

    pub closed spec fn duration_nanos(&self) -> u128 {
        self.duration_ns
    }

    /// Whether `reset` has been called.
    pub closed spec fn started(&self) -> bool {
        self.start is Some
    }

    pub open spec fn wf(&self) -> bool {
        &&& forall|i: int| 0 <= i < self.values_spec().len() ==> (#[trigger] self.values_spec()[i]).valid()
        &&& self.duration_nanos() <= MAX_DURATION_NANOS
    }

    /// An animator over `values` lasting `duration_ns` nanoseconds, not yet playing.
    pub fn new(values: Vec<AnimatedValue<T>>, duration_ns: u64) -> (r: Self)
        requires
            forall|i: int| 0 <= i < values@.len() ==> (#[trigger] values@[i]).valid(),
        ensures
            r.wf(),
            r.values_spec() == values@,
            r.duration_nanos() == duration_ns,
            !r.started(),
    {
        Animator { values, duration_ns: duration_ns as u128, start: None }
    }

    /// Starts playing from the beginning, now.
    pub fn reset(&mut self)
        requires
            old(self).wf(),
        ensures
            final(self).wf(),
            final(self).started(),
            final(self).values_spec() == old(self).values_spec(),
            final(self).duration_nanos() == old(self).duration_nanos(),
    {
        self.start = Some(instant_now());
        assert(self.values_spec() == old(self).values_spec());
    }

    /// Progress after `elapsed_ns` nanoseconds of play; a never started animator is at its end.
    pub fn progress_at(&self, elapsed_ns: u128) -> (r: i64)
        requires
            self.wf(),
        ensures
            r == (if self.started() { progress(elapsed_ns, self.duration_nanos()) } else { UNIT }),
            0 <= r <= UNIT,
            r == UNIT <==> (!self.started() || elapsed_ns >= self.duration_nanos()),
    {
        if self.start.is_none() || elapsed_ns >= self.duration_ns {
            UNIT
        } else {
            proof {
                let (e, d) = (elapsed_ns as int, self.duration_ns as int);
                assert(e * UNIT <= d * UNIT) by (nonlinear_arith)
                    requires 0 <= e < d;
                assert(e * UNIT < d * UNIT) by (nonlinear_arith)
                    requires 0 <= e < d;
                assert(e * UNIT / d < UNIT && 0 <= e * UNIT / d) by (nonlinear_arith)
                    requires 0 <= e < d, e * UNIT < d * UNIT;
            }
            (elapsed_ns * (UNIT as u128) / self.duration_ns) as i64
        }
    }

    /// Whether the animation still plays after `elapsed_ns` nanoseconds.
    pub fn is_playing_at(&self, elapsed_ns: u128) -> (r: bool)
        ensures
            r == (self.started() && elapsed_ns < self.duration_nanos()),
    {
        self.start.is_some() && elapsed_ns < self.duration_ns
    }

    /// The state a tick reports after `elapsed_ns` nanoseconds: over once progress is whole.
    pub fn state_at(&self, elapsed_ns: u128) -> (r: AnimationState)
        requires
            self.wf(),
        ensures
            r == (if !self.started() || elapsed_ns >= self.duration_nanos() {
                AnimationState::Over
            } else {
                AnimationState::Playing
            }),
    {
        let p = self.progress_at(elapsed_ns);
        if p >= UNIT {
            AnimationState::Over
        } else {
            AnimationState::Playing
        }
    }

    /// Each property's value at progress `g`, in order.
    pub fn values_at<F: Fn(i64, i64) -> i64>(&self, g: i64, pow: &F) -> (r: Vec<i64>)
        requires
            self.wf(),
            forall|b: i64, s: i64| pow.requires((b, s)),
        ensures
            r@.len() == self.values_spec().len(),
            forall|i: int| 0 <= i < r@.len() ==> value_at(self.values_spec()[i], g, #[trigger] r@[i], *pow),
    {
        let mut r: Vec<i64> = Vec::new();
        let mut i: usize = 0;
        while i < self.values.len()
            invariant
                self.wf(),
                forall|b: i64, s: i64| pow.requires((b, s)),
                i <= self.values@.len(),
                r@.len() == i,
                forall|j: int| 0 <= j < i ==> value_at(self.values_spec()[j], g, #[trigger] r@[j], *pow),
            decreases self.values@.len() - i,
        {
            assert(self.values_spec()[i as int].valid());
            let v = self.values[i].evaluate(g, pow);
            r.push(v);
            proof {
                assert(r@[i as int] == v);
            }
            i = i + 1;
        }
        r
    }

    /// Progress after `elapsed_ns` nanoseconds of play; a never started animator is at its end.
    pub open spec fn progress_spec(&self, elapsed_ns: u128) -> i64 {
        if self.started() { progress(elapsed_ns, self.duration_nanos()) } else { UNIT }
    }

    /// The state a tick reports after `elapsed_ns` nanoseconds of play.
    pub open spec fn state_spec(&self, elapsed_ns: u128) -> AnimationState {
        if !self.started() || elapsed_ns >= self.duration_nanos() {
            AnimationState::Over
        } else {
            AnimationState::Playing
        }
    }

    /// Sets every property of `target` to its value after `elapsed_ns` nanoseconds of
    /// play, in order, and reports whether the animation is over.
    pub fn animate_at<A: Animatable<T>, F: Fn(i64, i64) -> i64>(&self, target: &mut A, elapsed_ns: u128,
        pow: &F) -> (r: AnimationState)
        requires
            self.wf(),
            old(target).ready(),
            forall|b: i64, s: i64| pow.requires((b, s)),
        ensures
            final(target).ready(),
            r == self.state_spec(elapsed_ns),
            sets_in_order(self.values_spec(), self.progress_spec(elapsed_ns), *pow, *old(target), *final(target)),
    {
        let g = self.progress_at(elapsed_ns);
        let values = self.values_at(g, pow);
        let n = values.len();
        let ghost mut states: Seq<A> = seq![*target];
        let ghost mut xs: Seq<i64> = Seq::empty();
        let mut i: usize = 0;
        while i < n
            invariant
                target.ready(),
                n == values@.len(),
                n == self.values_spec().len(),
                i <= n,
                forall|j: int| 0 <= j < n ==> value_at(self.values_spec()[j], g, #[trigger] values@[j], *pow),
                states.len() == i + 1,
                xs.len() == i,
                states[0] == *old(target),
                states[i as int] == *target,
                forall|j: int| #![trigger xs[j]] 0 <= j < i ==> {
                    &&& value_at(self.values_spec()[j], g, xs[j], *pow)
                    &&& states[j].set_post(self.values_spec()[j].id, xs[j], states[j + 1])
                    &&& states[j + 1].ready()
                },
            decreases n - i,
        {
            let ghost before = *target;
            target.set(&self.values[i].id, values[i]);
            proof {
                let old_states = states;
                let old_xs = xs;
                states = states.push(*target);
                xs = xs.push(values@[i as int]);
                assert(before.set_post(self.values_spec()[i as int].id, xs[i as int], states[i + 1]));
                assert(states[i + 1].ready());
                assert forall|j: int| #![trigger xs[j]] 0 <= j < i implies {
                    &&& value_at(self.values_spec()[j], g, xs[j], *pow)
                    &&& states[j].set_post(self.values_spec()[j].id, xs[j], states[j + 1])
                    &&& states[j + 1].ready()
                } by {
                    assert(xs[j] == old_xs[j]);
                    assert(states[j] == old_states[j]);
                    assert(states[j + 1] == old_states[j + 1]);
                }
                assert(value_at(self.values_spec()[i as int], g, values@[i as int], *pow));
            }
            i = i + 1;
        }
        assert(set_chain(self.values_spec(), g, *pow, *old(target), *target, states, xs));
        self.state_at(elapsed_ns)
    }

    /// Drives `target` to where the animation stands now: as `animate_at` does for the
    /// time read from the clock (the whole duration, before the first `reset`).
    pub fn animate<A: Animatable<T>, F: Fn(i64, i64) -> i64>(&self, target: &mut A, pow: &F) -> (r: AnimationState)
        requires
            self.wf(),
            old(target).ready(),
            forall|b: i64, s: i64| pow.requires((b, s)),
        ensures
            final(target).ready(),
            !self.started() ==> r == AnimationState::Over,
            exists|elapsed_ns: u128| r == self.state_spec(elapsed_ns)
                && #[trigger] sets_in_order(self.values_spec(), self.progress_spec(elapsed_ns), *pow, *old(target),
                    *final(target)),
    {
        let elapsed_ns = match &self.start {
            Some(start) => nanos_of(&elapsed_since(start)),
            None => self.duration_ns,
        };
        self.animate_at(target, elapsed_ns, pow)
    }

    /// Whether the animation still plays now; never before the first `reset`.
    pub fn is_playing(&self) -> (r: bool)
        ensures
            !self.started() ==> !r,
    {
        match &self.start {
            Some(start) => {
                let elapsed_ns = nanos_of(&elapsed_since(start));
                self.is_playing_at(elapsed_ns)
            },
            None => false,
        }
    }

    /// An animator that undoes this one: each property reversed (see
    /// `AnimatedValue::reverse`), not yet playing.
    pub fn reversed(&self) -> (r: Self)
        where
            T: Clone,
        requires
            self.wf(),
        ensures
            r.wf(),
            !r.started(),
            r.duration_nanos() == self.duration_nanos(),
            r.values_spec().len() == self.values_spec().len(),
            forall|i: int| 0 <= i < r.values_spec().len() ==> {
                let (a, b) = (#[trigger] r.values_spec()[i], self.values_spec()[i]);
                &&& cloned(b.id, a.id)
                &&& a.curve == b.curve.reversed_spec()
                &&& a.range == (Span { start: b.range.end, end: b.range.start })
                &&& a.duration == (Span { start: (UNIT - b.duration.end) as i64, end: (UNIT - b.duration.start) as i64 })
            },
    {
        let mut values: Vec<AnimatedValue<T>> = Vec::new();
        let mut i: usize = 0;
        while i < self.values.len()
            invariant
                self.wf(),
                i <= self.values@.len(),
                values@.len() == i,
                forall|j: int| 0 <= j < i ==> {
                    let (a, b) = (#[trigger] values@[j], self.values_spec()[j]);
                    &&& a.valid()
                    &&& cloned(b.id, a.id)
                    &&& a.curve == b.curve.reversed_spec()
                    &&& a.range == (Span { start: b.range.end, end: b.range.start })
                    &&& a.duration == (Span { start: (UNIT - b.duration.end) as i64, end: (UNIT - b.duration.start) as i64 })
                },
            decreases self.values@.len() - i,
        {
            let v = &self.values[i];
            assert(v.valid());
            let mut w = AnimatedValue { id: v.id.clone(), range: v.range, curve: v.curve, duration: v.duration };
            w.reverse();
            values.push(w);
            i = i + 1;
        }
        Animator { values, duration_ns: self.duration_ns, start: None }
    }
}

/// An animator and its reversal (as `Animator::reversed` makes it), its curves linear or
/// `pow` a function:
/// at progress `g` the reversal sets every property to the value `a` sets at
/// `UNIT - g`. Stated where each property's progress within its window comes out whole.
pub proof fn lemma_animator_reversed<T, F: Fn(i64, i64) -> i64>(a: Animator<T>, r: Animator<T>, g: i64,
    xs: Seq<i64>, ys: Seq<i64>, pow: F)
    requires
        a.wf(),
        0 <= g <= UNIT,
        r.values_spec().len() == a.values_spec().len(),
        xs.len() == a.values_spec().len(),
        ys.len() == a.values_spec().len(),
        forall|i: int| 0 <= i < r.values_spec().len() ==> {
            let (v, b) = (#[trigger] r.values_spec()[i], a.values_spec()[i]);
            &&& (b.curve is Linear || pow_is_function(pow))
            &&& v.curve == b.curve.reversed_spec()
            &&& v.range == (Span { start: b.range.end, end: b.range.start })
            &&& v.duration == (Span { start: (UNIT - b.duration.end) as i64, end: (UNIT - b.duration.start) as i64 })
            &&& ({
                let h = UNIT - g;
                let c = if h < b.duration.start { b.duration.start as int } else if h > b.duration.end { b.duration.end as int } else { h };
                (c - b.duration.start) * UNIT % ((b.duration.end - b.duration.start) as int) == 0
            })
            &&& value_at(b, (UNIT - g) as i64, xs[i], pow)
            &&& value_at(v, g, ys[i], pow)
        },
    ensures
        xs == ys,
{
    assert forall|i: int| 0 <= i < xs.len() implies xs[i] == ys[i] by {
        let (v, b) = (r.values_spec()[i], a.values_spec()[i]);
        assert(b.valid());
        lemma_reverse_mirrors(b, v, g, xs[i], ys[i], pow);
    }
    assert(xs =~= ys);
}

} // verus!
