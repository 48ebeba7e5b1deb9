use aniy::animations::{AnimatedObject, AnimationContainer, AnyAnimation, NoAnimation};
use aniy::error::Error;
use aniy::geometry::Point;
use aniy::objects::{Object, Polygon};
use aniy::timeline::{frame_range, Activation, Frame, Phase, Source, Timeline, FRAME_PAD};
use aniy::units::TICKS_PER_SECOND;

const SECOND: i64 = TICKS_PER_SECOND;

fn idle(start: i64, end: i64) -> AnimationContainer {
    AnimationContainer { animation: AnyAnimation::Idle(NoAnimation), start, end }
}

fn triangle() -> Polygon {
    Polygon::new(vec![Point::new(0, 0), Point::new(4_000, 0), Point::new(0, 4_000)])
}

#[test]
fn one_entity_at_one_frame_per_second() {
    let mut timeline = Timeline::new();
    let entity = AnimatedObject {
        object: triangle().render(),
        enter: idle(0, SECOND),
        exit: idle(2 * SECOND, 3 * SECOND),
    };
    assert_eq!(timeline.add_animation(entity), Ok(0));
    let frames = timeline.calc_frames(1).unwrap();
    assert_eq!(frames.len(), 3 + FRAME_PAD);
    assert_eq!(frames[0].time, 0);
    assert_eq!(frames[1].time, SECOND);
    assert_eq!(frames[2].time, 2 * SECOND);
    assert_eq!(frames[0].animations, vec![Activation { entity: 0, phase: Phase::Enter }]);
    assert!(frames[0].objects.is_empty());
    assert!(frames[1].animations.is_empty());
    assert_eq!(frames[1].objects, vec![Source::Steady(0)]);
    assert_eq!(frames[2].animations, vec![Activation { entity: 0, phase: Phase::Exit }]);
    assert!(frames[2].objects.is_empty());
    for frame in &frames[3..] {
        assert!(frame.animations.is_empty());
        assert!(frame.objects.is_empty());
    }
}

#[test]
fn frame_range_rounds_outwards() {
    assert_eq!(frame_range(0, SECOND, 60), (0, 60));
    assert_eq!(frame_range(SECOND / 2, 3 * SECOND / 2, 1), (0, 2));
    assert_eq!(frame_range(SECOND / 4, SECOND / 2, 60), (15, 30));
    assert_eq!(frame_range(1, 2, 60), (0, 1));
}

#[test]
fn frame_range_of_a_window_before_time_zero_is_empty() {
    assert_eq!(frame_range(-3 * SECOND, -SECOND, 10), (0, 0));
    assert_eq!(frame_range(-SECOND, SECOND, 10), (0, 10));
}

#[test]
fn frame_range_of_an_inverted_window_is_empty() {
    assert_eq!(frame_range(2 * SECOND, SECOND, 10), (0, 0));
    assert_eq!(frame_range(3 * SECOND / 4, SECOND / 4, 1), (0, 0));
    assert_eq!(frame_range(1, 0, 60), (0, 0));
    assert_eq!(frame_range(-SECOND, -2 * SECOND, 7), (0, 0));
    assert_eq!(frame_range(i64::MAX, i64::MIN, u32::MAX), (0, 0));
}

#[test]
fn frame_range_of_a_window_without_duration_has_at_most_one_frame() {
    assert_eq!(frame_range(SECOND / 2, SECOND / 2, 1), (0, 1));
    assert_eq!(frame_range(SECOND, SECOND, 1), (1, 1));
    assert_eq!(frame_range(0, 0, 60), (0, 0));
}

#[test]
fn entity_whose_exit_starts_before_its_enter_ends_is_never_steady() {
    let mut timeline = Timeline::new();
    let entity = AnimatedObject {
        object: triangle().render(),
        enter: idle(0, 3 * SECOND / 4),
        exit: idle(SECOND / 4, SECOND),
    };
    assert_eq!(timeline.add_animation(entity), Ok(0));
    let frames = timeline.calc_frames(1).unwrap();
    assert_eq!(frames.len(), 1 + FRAME_PAD);
    assert_eq!(
        frames[0].animations,
        vec![
            Activation { entity: 0, phase: Phase::Enter },
            Activation { entity: 0, phase: Phase::Exit },
        ]
    );
    for frame in &frames {
        assert!(frame.objects.is_empty());
    }
    let fine = timeline.calc_frames(8).unwrap();
    for frame in &fine {
        assert!(frame.objects.is_empty());
    }
    assert_eq!(fine[1].animations, vec![Activation { entity: 0, phase: Phase::Enter }]);
    assert_eq!(
        fine[3].animations,
        vec![
            Activation { entity: 0, phase: Phase::Enter },
            Activation { entity: 0, phase: Phase::Exit },
        ]
    );
    assert_eq!(fine[6].animations, vec![Activation { entity: 0, phase: Phase::Exit }]);
}

#[test]
fn fits_tells_the_frames_of_a_timeline_from_others() {
    let mut timeline = Timeline::new();
    assert_eq!(timeline.add_object(&triangle()), 0);
    let entity = AnimatedObject {
        object: triangle().render(),
        enter: idle(0, SECOND),
        exit: idle(2 * SECOND, 3 * SECOND),
    };
    assert_eq!(timeline.add_animation(entity), Ok(0));
    for frame in timeline.calc_frames(2).unwrap() {
        assert!(timeline.fits(&frame));
    }
    let frame = |objects: Vec<Source>, animations: Vec<Activation>| Frame {
        index: 0,
        time: 0,
        objects,
        animations,
    };
    assert!(timeline.fits(&frame(vec![], vec![])));
    assert!(timeline.fits(&frame(vec![Source::Static(0), Source::Steady(0)], vec![])));
    assert!(!timeline.fits(&frame(vec![Source::Static(1)], vec![])));
    assert!(!timeline.fits(&frame(vec![Source::Static(0), Source::Steady(1)], vec![])));
    assert!(!timeline
        .fits(&frame(vec![], vec![Activation { entity: 1, phase: Phase::Enter }])));
    assert!(timeline.fits(&frame(vec![], vec![Activation { entity: 0, phase: Phase::Exit }])));
    assert!(!Timeline::new().fits(&frame(vec![Source::Static(0)], vec![])));
}

#[test]
fn empty_timeline_has_only_the_pad() {
    let timeline = Timeline::new();
    let frames = timeline.calc_frames(30).unwrap();
    assert_eq!(frames.len(), FRAME_PAD);
    assert_eq!(timeline.compile(30, true), Err(Error::EmptyTimeline));
    assert_eq!(timeline.compile(30, false).unwrap().len(), FRAME_PAD);
}

#[test]
fn degenerate_window_is_refused_at_registration() {
    let mut timeline = Timeline::new();
    let entity = AnimatedObject {
        object: triangle().render(),
        enter: idle(SECOND, 0),
        exit: idle(2 * SECOND, 3 * SECOND),
    };
    assert_eq!(timeline.add_animation(entity), Err(Error::DegenerateInterval));
    assert_eq!(timeline.end_time(), 0);
}

#[test]
fn too_long_timeline_is_refused() {
    let mut timeline = Timeline::new();
    let entity = AnimatedObject {
        object: triangle().render(),
        enter: idle(0, SECOND),
        exit: idle(SECOND, i64::MAX),
    };
    assert_eq!(timeline.add_animation(entity), Ok(0));
    assert_eq!(timeline.frame_count(u32::MAX), None);
    assert_eq!(timeline.calc_frames(u32::MAX), Err(Error::TimelineTooLong));
}

#[test]
fn aligned_window_covers_the_frames_sampled_in_it() {
    for fps in [1u32, 4, 24, 60] {
        let step = SECOND / 4;
        for s in -4..8i64 {
            for e in (s + 1)..10i64 {
                let (start, end) = (s * step, e * step);
                if start > 0 && (start * fps as i64) % SECOND != 0 {
                    continue;
                }
                let (first, last) = frame_range(start, end, fps);
                for i in 0..(3 * fps as usize + 2) {
                    let sampled = start * (fps as i64) <= i as i64 * SECOND
                        && (i as i64) * SECOND < end * fps as i64;
                    assert_eq!(first <= i && i < last, sampled, "{} {} {} {}", fps, s, e, i);
                }
            }
        }
    }
}

#[test]
fn any_window_covers_the_frames_sampled_in_it() {
    for fps in [1u32, 3, 7, 60] {
        for start in [-1_500_000i64, 0, 1, 333_333, 500_000, 999_999, 1_000_000] {
            for end in [start + 1, start + 400_000, start + 1_000_000, start + 2_345_678] {
                let (first, last) = frame_range(start, end, fps);
                for i in 0..(5 * fps as usize + 2) {
                    let ticks = i as i64 * SECOND;
                    let sampled = start * (fps as i64) <= ticks && ticks < end * fps as i64;
                    let covered = first <= i && i < last;
                    if sampled {
                        assert!(covered);
                    }
                    if covered {
                        assert!(ticks < end * fps as i64);
                        assert!(start * (fps as i64) < ticks + SECOND);
                    }
                }
            }
        }
    }
}

#[test]
fn every_error_has_its_message() {
    let errors = [
        Error::DegenerateInterval,
        Error::DegeneratePolygon,
        Error::MismatchedMorphInput,
        Error::EmptyTimeline,
        Error::TimelineTooLong,
    ];
    assert_eq!(errors[0].message(), "a time window ends before it starts");
    assert_eq!(errors[1].message(), "a polygon has no points");
    assert_eq!(errors[2].message(), "the polygons differ in their number of points");
    assert_eq!(errors[3].message(), "the timeline has no duration");
    assert_eq!(errors[4].message(), "the timeline has too many frames");
}

#[test]
fn windows_that_meet_share_at_most_one_frame() {
    let shared = |meet: i64, fps: u32| -> Vec<usize> {
        let (first_a, last_a) = frame_range(0, meet, fps);
        let (first_b, last_b) = frame_range(meet, 4 * SECOND, fps);
        (0..1_000).filter(|i| first_a <= *i && *i < last_a && first_b <= *i && *i < last_b).collect()
    };
    assert_eq!(shared(2 * SECOND, 1), Vec::<usize>::new());
    assert_eq!(shared(SECOND / 2, 60), Vec::<usize>::new());
    assert_eq!(shared(SECOND / 2, 1), vec![0]);
    assert_eq!(shared(SECOND / 3, 60), vec![19]);
    assert_eq!(shared(1, 60), vec![0]);
}

#[test]
fn frame_count_adds_the_pad_to_the_frames_of_the_video() {
    let mut timeline = Timeline::new();
    assert_eq!(timeline.frame_count(60), Some(FRAME_PAD));
    let entity = AnimatedObject {
        object: triangle().render(),
        enter: idle(0, SECOND),
        exit: idle(SECOND, 5 * SECOND / 2),
    };
    assert_eq!(timeline.add_animation(entity), Ok(0));
    let earlier = AnimatedObject {
        object: triangle().render(),
        enter: idle(-3 * SECOND, -2 * SECOND),
        exit: idle(-2 * SECOND, -SECOND),
    };
    assert_eq!(timeline.add_animation(earlier), Ok(1));
    assert_eq!(timeline.end_time(), 5 * SECOND / 2);
    assert_eq!(timeline.frame_count(60), Some(150 + FRAME_PAD));
    assert_eq!(timeline.frame_count(1), Some(3 + FRAME_PAD));
    let frames = timeline.calc_frames(1).unwrap();
    assert!(frames.iter().all(|f| f.animations.iter().all(|a| a.entity == 0)));
}

#[test]
fn timeline_that_ends_before_time_zero_has_only_the_pad() {
    let mut timeline = Timeline::new();
    let earlier = AnimatedObject {
        object: triangle().render(),
        enter: idle(-3 * SECOND, -2 * SECOND),
        exit: idle(-2 * SECOND, -SECOND),
    };
    assert_eq!(timeline.add_animation(earlier), Ok(0));
    assert_eq!(timeline.end_time(), -SECOND);
    assert_eq!(timeline.frame_count(30), Some(FRAME_PAD));
    assert_eq!(timeline.compile(30, true), Err(Error::EmptyTimeline));
}
