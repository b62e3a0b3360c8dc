use tile_editor::animator::{AnimatedValue, AnimationState, Animator, Span, ValueAnimation};
use tile_editor::fixed::UNIT;
use tile_editor::point::Point2;
use tile_editor::scene::TextureId;
use tile_editor::ui::{Ui, UiAnimatableId, UiElement, UiElementType, UiTarget};

fn fx(v: f64) -> i64 {
    (v * UNIT as f64).round() as i64
}

fn pow(b: i64, s: i64) -> i64 {
    ((b as f64 / UNIT as f64).powf(s as f64 / UNIT as f64) * UNIT as f64).round() as i64
}

fn value(id: UiAnimatableId, from: f64, to: f64, curve: ValueAnimation, w0: f64, w1: f64) -> AnimatedValue<UiAnimatableId> {
    AnimatedValue {
        id,
        range: Span { start: fx(from), end: fx(to) },
        curve,
        duration: Span { start: fx(w0), end: fx(w1) },
    }
}

fn target() -> UiTarget {
    let mut ui = Ui::new();
    let id = ui.push(UiElement {
        kind: UiElementType::Panel,
        pos: Point2::new(0, 0),
        size: Point2::new(fx(1.0), fx(1.0)),
        texture: TextureId(0),
    });
    UiTarget { ui, id }
}

#[test]
fn curve_reversal_round_trips() {
    for c in [ValueAnimation::Linear, ValueAnimation::EaseIn(fx(2.0)), ValueAnimation::EaseOut(fx(3.0))] {
        assert_eq!(c.reversed().reversed(), c);
    }
    assert_eq!(ValueAnimation::EaseIn(fx(2.0)).reversed(), ValueAnimation::EaseOut(fx(2.0)));
    assert_eq!(ValueAnimation::EaseOut(fx(2.0)).reversed(), ValueAnimation::EaseIn(fx(2.0)));
    assert_eq!(ValueAnimation::Linear.reversed(), ValueAnimation::Linear);
}

#[test]
fn curves_apply() {
    let p = |b: i64, s: i64| pow(b, s);
    assert_eq!(ValueAnimation::Linear.apply(fx(0.3), &p), fx(0.3));
    assert_eq!(ValueAnimation::Linear.apply(fx(1.7), &p), fx(1.0));
    assert_eq!(ValueAnimation::Linear.apply(-5, &p), 0);
    assert_eq!(ValueAnimation::EaseIn(fx(2.0)).apply(fx(0.5), &p), fx(0.25));
    assert_eq!(ValueAnimation::EaseOut(fx(2.0)).apply(fx(0.5), &p), fx(0.75));
    assert_eq!(ValueAnimation::EaseOut(fx(2.0)).apply(0, &p), 0);
}

#[test]
fn window_holds_ends_outside() {
    let p = |b: i64, s: i64| pow(b, s);
    let v = value(UiAnimatableId::ScaleX, 2.0, 4.0, ValueAnimation::Linear, 0.5, 1.0);
    assert!(v.validate());
    assert_eq!(v.evaluate(fx(0.2), &p), fx(2.0));
    assert_eq!(v.evaluate(fx(0.75), &p), fx(3.0));
    assert_eq!(v.evaluate(fx(1.0), &p), fx(4.0));
    let w = value(UiAnimatableId::ScaleX, 4.0, 2.0, ValueAnimation::EaseIn(fx(2.0)), 0.0, 0.5);
    assert_eq!(w.evaluate(0, &p), fx(4.0));
    assert_eq!(w.evaluate(fx(0.9), &p), fx(2.0));
    assert_eq!(w.evaluate(fx(0.25), &p), fx(3.5));
    assert_eq!(w.scaled(fx(0.25)), fx(0.5));
    assert_eq!(w.total_duration(), fx(0.5));
}

#[test]
fn invalid_windows_rejected() {
    assert!(!value(UiAnimatableId::ScaleX, 0.0, 1.0, ValueAnimation::Linear, 0.5, 0.5).validate());
    assert!(!value(UiAnimatableId::ScaleX, 0.0, 1.0, ValueAnimation::Linear, 0.6, 0.4).validate());
    assert!(!value(UiAnimatableId::ScaleX, 0.0, 1.0, ValueAnimation::Linear, -0.1, 0.4).validate());
    assert!(!value(UiAnimatableId::ScaleX, 0.0, 1.0, ValueAnimation::Linear, 0.1, 1.1).validate());
}

#[test]
fn reversed_mirrors_in_time() {
    let p = |b: i64, s: i64| pow(b, s);
    let a = Animator::new(
        vec![
            value(UiAnimatableId::ScaleX, 0.0, 10.0, ValueAnimation::Linear, 0.0, 1.0),
            value(UiAnimatableId::PositionY, 1.0, 3.0, ValueAnimation::Linear, 0.25, 0.75),
        ],
        200_000_000,
    );
    let r = a.reversed();
    for g in [0.0, 0.25, 0.5, 0.6, 1.0] {
        assert_eq!(r.values_at(fx(g), &p), a.values_at(fx(1.0 - g), &p));
    }
    let mut v = value(UiAnimatableId::ScaleX, 1.0, 2.0, ValueAnimation::EaseIn(fx(2.0)), 0.2, 0.6);
    v.reverse();
    assert_eq!(v.range, Span { start: fx(2.0), end: fx(1.0) });
    assert_eq!(v.duration, Span { start: fx(0.4), end: fx(0.8) });
    assert_eq!(v.curve, ValueAnimation::EaseOut(fx(2.0)));
}

#[test]
fn new_animator_is_not_playing() {
    let mut a = Animator::new(
        vec![value(UiAnimatableId::ScaleX, 0.0, 10.0, ValueAnimation::Linear, 0.0, 1.0)],
        60_000_000_000,
    );
    assert!(!a.is_playing());
    assert!(!a.is_playing_at(0));
    a.reset();
    assert!(a.is_playing());
    assert!(a.is_playing_at(59_999_999_999));
    assert!(!a.is_playing_at(60_000_000_000));
}

#[test]
fn linear_scenario_over_two_hundred_ms() {
    let p = |b: i64, s: i64| pow(b, s);
    let mut a = Animator::new(
        vec![value(UiAnimatableId::ScaleX, 0.0, 10.0, ValueAnimation::Linear, 0.0, 1.0)],
        200_000_000,
    );
    let mut t = target();
    assert_eq!(a.animate_at(&mut t, 100_000_000, &p), AnimationState::Over);
    assert_eq!(t.ui.get(&t.id).element().inner.size.x, fx(10.0));
    a.reset();
    assert_eq!(a.progress_at(100_000_000), fx(0.5));
    assert_eq!(a.animate_at(&mut t, 100_000_000, &p), AnimationState::Playing);
    assert_eq!(t.ui.get(&t.id).element().inner.size.x, fx(5.0));
    assert_eq!(a.animate_at(&mut t, 200_000_000, &p), AnimationState::Over);
    assert_eq!(t.ui.get(&t.id).element().inner.size.x, fx(10.0));
    assert_eq!(a.animate_at(&mut t, 900_000_000, &p), AnimationState::Over);
    assert_eq!(a.state_at(199_999_999), AnimationState::Playing);
}

#[test]
fn last_write_wins_and_animate_now() {
    let p = |b: i64, s: i64| pow(b, s);
    let mut a = Animator::new(
        vec![
            value(UiAnimatableId::PositionX, 0.0, 1.0, ValueAnimation::Linear, 0.0, 1.0),
            value(UiAnimatableId::PositionX, 7.0, 7.0, ValueAnimation::Linear, 0.0, 1.0),
        ],
        3_600_000_000_000,
    );
    let mut t = target();
    a.reset();
    assert_eq!(a.animate(&mut t, &p), AnimationState::Playing);
    assert_eq!(t.ui.get(&t.id).element().inner.pos.x, fx(7.0));
    assert_eq!(t.ui.get(&t.id).element().global_pos.x, fx(7.0));
}

#[test]
fn repeated_tick_changes_nothing() {
    let p = |b: i64, s: i64| pow(b, s);
    let mut a = Animator::new(
        vec![
            value(UiAnimatableId::ScaleY, 0.2, 0.8, ValueAnimation::EaseOut(fx(0.9)), 0.1, 0.9),
            value(UiAnimatableId::PositionX, 0.5, 0.1, ValueAnimation::EaseIn(fx(0.7)), 0.0, 0.4),
        ],
        200_000_000,
    );
    a.reset();
    let mut t = target();
    a.animate_at(&mut t, 50_000_000, &p);
    let once = *t.ui.get(&t.id).element();
    a.animate_at(&mut t, 50_000_000, &p);
    let twice = *t.ui.get(&t.id).element();
    assert_eq!(once.inner, twice.inner);
    assert_eq!(once.global_pos, twice.global_pos);
    assert_eq!(once.global_size, twice.global_size);
}
