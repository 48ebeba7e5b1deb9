use aniy::animations::{
    AnimatedObject, Animation, AnimationContainer, AnyAnimation, FadeAnimation, NoAnimation,
    PolygonDraw,
};
use aniy::error::Error;
use aniy::geometry::Point;
use aniy::objects::{Object, Polygon};
use aniy::units::{FULL, TICKS_PER_SECOND};

const SECOND: i64 = TICKS_PER_SECOND;

fn idle(start: i64, end: i64) -> AnimationContainer {
    AnimationContainer { animation: AnyAnimation::Idle(NoAnimation), start, end }
}

fn square() -> Polygon {
    Polygon::new(vec![
        Point::new(0, 0),
        Point::new(4_000, 0),
        Point::new(4_000, 4_000),
        Point::new(0, 4_000),
    ])
    .z_index(3)
}

#[test]
fn new_window_lasts_one_second_from_zero() {
    let window = AnimationContainer::new(AnyAnimation::Idle(NoAnimation));
    assert_eq!((window.start, window.end), (0, SECOND));
}

#[test]
fn duration_sets_the_length_from_the_start() {
    for d in [0, 1, SECOND / 3, 5 * SECOND, 1 << 40] {
        for start in [0, -7 * SECOND, 12_345] {
            let window = idle(start, start + 99).duration(d);
            assert_eq!(window.start, start);
            assert_eq!(window.end - window.start, d);
        }
    }
}

#[test]
fn duration_keep_end_sets_the_length_from_the_end() {
    let window = idle(SECOND, 4 * SECOND).duration_keep_end(SECOND / 2);
    assert_eq!((window.start, window.end), (7 * SECOND / 2, 4 * SECOND));
}

#[test]
fn delay_moves_both_ends() {
    let window = idle(SECOND, 4 * SECOND).delay(-2 * SECOND);
    assert_eq!((window.start, window.end), (-SECOND, 2 * SECOND));
}

#[test]
fn after_chains_two_windows() {
    let a = idle(0, 2 * SECOND);
    let b = idle(0, SECOND).after(&a);
    assert_eq!((b.start, b.end), (2 * SECOND, 3 * SECOND));
    assert_eq!((a.start, a.end), (0, 2 * SECOND));
}

#[test]
fn start_with_and_end_with_copy_one_end() {
    let other = idle(3 * SECOND, 9 * SECOND);
    let started = idle(0, SECOND).start_with(&other);
    assert_eq!((started.start, started.end), (3 * SECOND, SECOND));
    let ended = idle(0, SECOND).end_with(&other);
    assert_eq!((ended.start, ended.end), (0, 9 * SECOND));
}

#[test]
fn synchronize_copies_both_ends() {
    let other = idle(3 * SECOND, 9 * SECOND);
    let window = idle(0, SECOND).synchronize(&other);
    assert_eq!((window.start, window.end), (3 * SECOND, 9 * SECOND));
}

#[test]
fn validate_refuses_a_window_that_ends_before_it_starts() {
    assert_eq!(idle(0, SECOND).validate(), Ok(()));
    assert_eq!(idle(SECOND, SECOND).validate(), Ok(()));
    assert_eq!(idle(SECOND, 0).validate(), Err(Error::DegenerateInterval));
}

#[test]
fn progress_is_the_part_of_the_window_that_has_passed() {
    let window = idle(SECOND, 3 * SECOND);
    assert_eq!(window.progress(SECOND), 0);
    assert_eq!(window.progress(3 * SECOND / 2), FULL / 4);
    assert_eq!(window.progress(2 * SECOND), FULL / 2);
    assert_eq!(window.progress(3 * SECOND), FULL);
    let thirds = idle(0, 3);
    assert_eq!(thirds.progress(1), 333_333);
    assert_eq!(thirds.progress(2), 666_666);
}

#[test]
fn progress_outside_the_window_is_clamped() {
    let window = idle(SECOND, 3 * SECOND);
    assert_eq!(window.progress(0), 0);
    assert_eq!(window.progress(i64::MIN), 0);
    assert_eq!(window.progress(4 * SECOND), FULL);
    assert_eq!(window.progress(i64::MAX), FULL);
}

#[test]
fn window_without_duration_is_finished_at_once() {
    let window = idle(SECOND, SECOND);
    assert_eq!(window.progress(SECOND), FULL);
    assert_eq!(window.progress(0), FULL);
    assert_eq!(window.progress(2 * SECOND), FULL);
}

#[test]
fn reverse_runs_the_animation_backwards() {
    let fade = AnyAnimation::Fade(FadeAnimation::new(&square()));
    let window = AnimationContainer::new(fade).reverse();
    assert_eq!((window.start, window.end), (0, SECOND));
    assert_eq!(window.animation.animate(0).1.opacity, FULL);
    assert_eq!(window.animation.animate(FULL / 4).1.opacity, 3 * (FULL / 4));
    assert_eq!(window.animation.animate(FULL).1.opacity, 0);
    assert_eq!(window.animate(SECOND / 4).1.opacity, 3 * (FULL / 4));
}

#[test]
fn reversing_twice_changes_nothing() {
    let steps = [0, FULL / 4, FULL / 2, 3 * (FULL / 4), FULL];
    let plain = AnimationContainer::new(AnyAnimation::Draw(PolygonDraw(square())));
    let twice = AnimationContainer::new(AnyAnimation::Draw(PolygonDraw(square()))).reverse().reverse();
    for p in steps {
        assert_eq!(twice.animation.animate(p), plain.animation.animate(p));
    }
    let fade = AnimationContainer::new(AnyAnimation::Fade(FadeAnimation::new(&square())));
    let fade_twice =
        AnimationContainer::new(AnyAnimation::Fade(FadeAnimation::new(&square()))).reverse().reverse();
    for p in steps {
        assert_eq!(fade_twice.animation.animate(p), fade.animation.animate(p));
    }
    assert_eq!((twice.start, twice.end), (plain.start, plain.end));
}

#[test]
fn lifetime_moves_the_exit_and_keeps_its_length() {
    let entity = AnimatedObject {
        object: square().render(),
        enter: idle(0, SECOND),
        exit: idle(0, SECOND / 2),
    }
    .lifetime(3 * SECOND);
    assert_eq!((entity.enter.start, entity.enter.end), (0, SECOND));
    assert_eq!((entity.exit.start, entity.exit.end), (4 * SECOND, 9 * SECOND / 2));
}
