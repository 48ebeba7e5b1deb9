use aniy::animations::{
    AnimatedObject, AnimationContainer, AnyAnimation, FadeAnimation, NoAnimation,
};
use aniy::geometry::Point;
use aniy::objects::{Object, Polygon, RawSvg, Text};
use aniy::renderer::Renderer;
use aniy::shape::{Shape, Visual};
use aniy::timeline::{Activation, Frame, Phase, Source, Timeline, FRAME_PAD};
use aniy::units::{div_ceil, div_floor, interpolate, portion, FULL, TICKS_PER_SECOND};
use std::sync::Arc;

const SECOND: i64 = TICKS_PER_SECOND;

fn polygon(z: isize) -> Polygon {
    Polygon::new(vec![Point::new(0, 0), Point::new(1_000, 0), Point::new(0, 1_000)]).z_index(z)
}

fn opaque(shape: Shape) -> Visual {
    Visual { shape, opacity: FULL }
}

fn scene() -> Timeline {
    let mut timeline = Timeline::new();
    assert_eq!(timeline.add_object(&polygon(5)), 0);
    assert_eq!(timeline.add_object(&Text::new("low").z_index(1)), 1);
    assert_eq!(timeline.add_object(&RawSvg::new("<g/>")), 2);
    let fading = AnimatedObject {
        object: polygon(1).render(),
        enter: AnimationContainer {
            animation: AnyAnimation::Fade(FadeAnimation::new(&polygon(1))),
            start: 0,
            end: SECOND,
        },
        exit: AnimationContainer {
            animation: AnyAnimation::Fade(FadeAnimation::new(&polygon(0))),
            start: 2 * SECOND,
            end: 3 * SECOND,
        }
        .reverse(),
    };
    assert_eq!(timeline.add_animation(fading), Ok(0));
    let idle = AnimatedObject {
        object: polygon(7).render(),
        enter: AnimationContainer::new(AnyAnimation::Idle(NoAnimation)).duration(SECOND / 2),
        exit: AnimationContainer::new(AnyAnimation::Idle(NoAnimation)).delay(SECOND),
    };
    assert_eq!(timeline.add_animation_arc(Arc::new(idle)), Ok(1));
    timeline
}

#[test]
fn frames_list_what_is_shown_in_the_order_of_registration() {
    let timeline = scene();
    let frames = timeline.calc_frames(4).unwrap();
    assert_eq!(frames.len(), 12 + FRAME_PAD);
    let statics = vec![Source::Static(0), Source::Static(1), Source::Static(2)];
    assert_eq!(
        frames[0],
        Frame {
            index: 0,
            time: 0,
            objects: statics.clone(),
            animations: vec![
                Activation { entity: 0, phase: Phase::Enter },
                Activation { entity: 1, phase: Phase::Enter },
            ],
        }
    );
    assert_eq!(
        frames[2],
        Frame {
            index: 2,
            time: SECOND / 2,
            objects: vec![
                Source::Static(0),
                Source::Static(1),
                Source::Static(2),
                Source::Steady(1),
            ],
            animations: vec![Activation { entity: 0, phase: Phase::Enter }],
        }
    );
    assert_eq!(
        frames[5],
        Frame {
            index: 5,
            time: 5 * SECOND / 4,
            objects: vec![
                Source::Static(0),
                Source::Static(1),
                Source::Static(2),
                Source::Steady(0),
            ],
            animations: vec![Activation { entity: 1, phase: Phase::Exit }],
        }
    );
    assert_eq!(
        frames[9],
        Frame {
            index: 9,
            time: 9 * SECOND / 4,
            objects: statics.clone(),
            animations: vec![Activation { entity: 0, phase: Phase::Exit }],
        }
    );
    assert_eq!(
        frames[12],
        Frame { index: 12, time: 3 * SECOND, objects: statics, animations: vec![] }
    );
}

#[test]
fn frame_times_are_rounded_down() {
    let frames = Timeline::new().calc_frames(3).unwrap();
    let times: Vec<i64> = frames.iter().take(4).map(|f| f.time).collect();
    assert_eq!(times, vec![0, 333_333, 666_666, 1_000_000]);
}

#[test]
fn layers_ascend_by_z_index_and_keep_the_order_of_registration() {
    let timeline = scene();
    let frames = timeline.calc_frames(4).unwrap();
    let layers = timeline.render_frame(&frames[2]);
    assert_eq!(
        layers,
        vec![
            (0, opaque(RawSvg::new("<g/>").render().1)),
            (1, opaque(Text::new("low").z_index(1).render().1)),
            (1, Visual { shape: polygon(1).render().1, opacity: FULL / 2 }),
            (5, opaque(polygon(5).render().1)),
            (7, opaque(polygon(7).render().1)),
        ]
    );
    let layers = timeline.render_frame(&frames[9]);
    assert_eq!(
        layers,
        vec![
            (0, opaque(RawSvg::new("<g/>").render().1)),
            (0, Visual { shape: polygon(0).render().1, opacity: 3 * (FULL / 4) }),
            (1, opaque(Text::new("low").z_index(1).render().1)),
            (5, opaque(polygon(5).render().1)),
        ]
    );
}

#[test]
fn show_and_evaluate_resolve_one_reference() {
    let timeline = scene();
    assert_eq!(timeline.show(Source::Static(1)), (1, opaque(Text::new("low").z_index(1).render().1)));
    assert_eq!(timeline.show(Source::Steady(1)), (7, opaque(polygon(7).render().1)));
    assert_eq!(
        timeline.evaluate(Activation { entity: 0, phase: Phase::Enter }, SECOND / 4),
        (1, Visual { shape: polygon(1).render().1, opacity: FULL / 4 })
    );
    assert_eq!(timeline.object(0), &polygon(5).render());
    assert_eq!(timeline.entity(1).object, polygon(7).render());
}

#[test]
fn compiling_twice_gives_the_same_frames() {
    let timeline = scene();
    assert_eq!(timeline.calc_frames(30), timeline.calc_frames(30));
    assert_eq!(timeline.compile(30, true), timeline.calc_frames(30));
}

#[test]
fn renderer_holds_the_settings_and_the_timeline() {
    let mut renderer = Renderer::new(1920, 1080);
    assert_eq!((renderer.width(), renderer.height(), renderer.fps()), (1920, 1080, 60));
    renderer.set_fps(2);
    assert_eq!(renderer.fps(), 2);
    assert_eq!(renderer.timeline().add_object(&polygon(4)), 0);
    let entity = AnimatedObject {
        object: polygon(1).render(),
        enter: AnimationContainer::new(AnyAnimation::Idle(NoAnimation)),
        exit: AnimationContainer::new(AnyAnimation::Idle(NoAnimation)).delay(SECOND),
    };
    assert_eq!(renderer.timeline().add_animation(entity), Ok(0));
    let frames = renderer.calc_frames().unwrap();
    assert_eq!(frames.len(), 4 + FRAME_PAD);
    assert_eq!(
        renderer.render_frame(&frames[0]),
        vec![(0, opaque(Shape::Empty)), (4, opaque(polygon(4).render().1))]
    );
    assert_eq!(renderer.render_frame(&frames[5]), vec![(4, opaque(polygon(4).render().1))]);
    assert!(frames.iter().all(|frame| renderer.fits(frame)));
    assert!(!Renderer::new(1, 1).fits(&frames[0]));
}

#[test]
fn divisions_round_as_named() {
    assert_eq!(div_floor(7, 2), 3);
    assert_eq!(div_floor(-7, 2), -4);
    assert_eq!(div_floor(-8, 2), -4);
    assert_eq!(div_floor(i128::MIN, 1), i128::MIN);
    assert_eq!(div_ceil(7, 2), 4);
    assert_eq!(div_ceil(-7, 2), -3);
    assert_eq!(div_ceil(8, 2), 4);
    assert_eq!(div_ceil(0, 5), 0);
}

#[test]
fn interpolation_rounds_halves_up() {
    assert_eq!(interpolate(0, 255, FULL / 2), 128);
    assert_eq!(interpolate(0, 3, FULL / 2), 2);
    assert_eq!(interpolate(0, -3, FULL / 2), -1);
    assert_eq!(interpolate(10, -10, FULL / 4), 5);
    assert_eq!(interpolate(-7, 8, 333_333), -2);
    assert_eq!(interpolate(i64::MIN, i64::MAX, 0), i64::MIN);
    assert_eq!(interpolate(i64::MIN, i64::MAX, FULL), i64::MAX);
    assert_eq!(interpolate(i64::MAX, i64::MIN, FULL), i64::MIN);
}

#[test]
fn portion_counts_the_steps_done() {
    assert_eq!(portion(4, 300_000), (1, 200_000));
    assert_eq!(portion(4, FULL), (4, 0));
    assert_eq!(portion(4, 0), (0, 0));
    assert_eq!(portion(0, FULL / 2), (0, 0));
    assert_eq!(portion(usize::MAX, FULL), (usize::MAX, 0));
    assert_eq!(portion(3, 999_999), (2, 999_997));
}
