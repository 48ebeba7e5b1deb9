use aniy::animations::{
    Animation, AnimationContainer, AnyAnimation, FadeAnimation, NoAnimation, PolygonDraw,
    PolygonMorph, ReverseAnimation, TextType, TextWrite,
};
use aniy::error::Error;
use aniy::geometry::Point;
use aniy::objects::{Object, Polygon, Text};
use aniy::shape::{PathSegment, Shape, Visual};
use aniy::units::FULL;
use aniy::Color;

fn points(coordinates: &[(i32, i32)]) -> Vec<Point> {
    coordinates.iter().map(|&(x, y)| Point::new(x, y)).collect()
}

fn square() -> Polygon {
    Polygon::new(points(&[(0, 0), (4_000, 0), (4_000, 4_000), (0, 4_000)])).z_index(3)
}

fn outline_of(polygon: &Polygon, drawn: &[(i32, i32)]) -> (isize, Visual) {
    (
        polygon.z_index,
        Visual {
            shape: Shape::Polyline {
                points: points(drawn),
                outline: polygon.outline_color,
                stroke_width: polygon.stroke_width,
            },
            opacity: FULL,
        },
    )
}

#[test]
fn no_animation_shows_nothing() {
    for p in [0, FULL / 3, FULL] {
        assert_eq!(NoAnimation.animate(p), (0, Visual { shape: Shape::Empty, opacity: FULL }));
    }
}

#[test]
fn fade_sets_the_opacity_to_the_progress() {
    let fade = FadeAnimation::new(&square());
    let (z, shape) = square().render();
    for p in [0, 1, FULL / 2, FULL] {
        assert_eq!(fade.animate(p), (z, Visual { shape: shape.clone(), opacity: p }));
    }
}

#[test]
fn reverse_animation_evaluates_at_the_remaining_progress() {
    let reversed =
        ReverseAnimation { animation: Box::new(AnyAnimation::Draw(PolygonDraw(square()))) };
    let plain = PolygonDraw(square());
    for p in [0, 123_456, FULL / 2, FULL] {
        assert_eq!(reversed.animate(p), plain.animate(FULL - p));
    }
}

#[test]
fn draw_shows_the_edges_done_and_a_part_of_the_next() {
    let polygon = square();
    let draw = PolygonDraw(square());
    assert_eq!(draw.animate(0), outline_of(&polygon, &[(0, 0), (0, 0)]));
    assert_eq!(draw.animate(300_000), outline_of(&polygon, &[(0, 0), (4_000, 0), (4_000, 800)]));
    assert_eq!(
        draw.animate(FULL / 2),
        outline_of(&polygon, &[(0, 0), (4_000, 0), (4_000, 4_000), (4_000, 4_000)])
    );
    assert_eq!(
        draw.animate(900_000),
        outline_of(&polygon, &[(0, 0), (4_000, 0), (4_000, 4_000), (0, 4_000), (0, 1_600)])
    );
    assert_eq!(
        draw.animate(FULL - 1),
        outline_of(&polygon, &[(0, 0), (4_000, 0), (4_000, 4_000), (0, 4_000), (0, 0)])
    );
}

#[test]
fn draw_ends_with_the_closed_polygon() {
    let (z, shape) = square().render();
    assert_eq!(PolygonDraw(square()).animate(FULL), (z, Visual { shape, opacity: FULL }));
}

#[test]
fn draw_of_a_polygon_without_points_is_the_polygon() {
    let empty = Polygon::new(Vec::new());
    let (z, shape) = empty.render();
    for p in [0, FULL / 2, FULL] {
        assert_eq!(
            PolygonDraw(Polygon::new(Vec::new())).animate(p),
            (z, Visual { shape: shape.clone(), opacity: FULL })
        );
    }
}

#[test]
fn morph_of_triangle_and_square_can_be_evaluated_half_way() {
    let triangle = Polygon::new(points(&[(0, 0), (4_000, 0), (0, 4_000)]));
    let morph = PolygonMorph::new(triangle, square()).unwrap();
    let (z, visual) = morph.animate(FULL / 2);
    assert_eq!(z, 0);
    match visual.shape {
        Shape::Polygon { points: morphed, .. } => {
            assert_eq!(morphed, points(&[(0, 0), (4_000, 0), (3_000, 3_000), (0, 4_000)]));
        },
        other => panic!("a morph shows a polygon, not {:?}", other),
    }
}

#[test]
fn morph_blends_colors_and_outline_width() {
    let start = Polygon::new(points(&[(0, 0), (10, 0), (0, 10)]))
        .fill(Color(0, 10, 255, 0))
        .outline(Color(1, 2, 3, 4));
    let mut end = Polygon::new(points(&[(100, 100), (110, 100), (100, 110)]))
        .fill(Color(255, 0, 0, 255))
        .outline(Color(2, 2, 0, 5));
    end.stroke_width = 20_000;
    let morph = PolygonMorph::new(start, end).unwrap();
    assert_eq!(
        morph.animate(FULL / 2),
        (
            0,
            Visual {
                shape: Shape::Polygon {
                    points: points(&[(50, 50), (60, 50), (50, 60)]),
                    fill: Color(128, 5, 128, 128),
                    outline: Color(2, 2, 2, 5),
                    stroke_width: 15_000,
                },
                opacity: FULL,
            }
        )
    );
    assert_eq!(
        morph.animate(FULL / 4),
        (
            0,
            Visual {
                shape: Shape::Polygon {
                    points: points(&[(25, 25), (35, 25), (25, 35)]),
                    fill: Color(64, 8, 191, 64),
                    outline: Color(1, 2, 2, 4),
                    stroke_width: 12_500,
                },
                opacity: FULL,
            }
        )
    );
}

#[test]
fn morph_starts_and_ends_as_the_given_polygons() {
    let start = Polygon::new(points(&[(0, 0), (10, 0), (0, 10)])).fill(Color(9, 8, 7, 6));
    let end = square().outline(Color(1, 1, 1, 1));
    let morph = PolygonMorph::new_strict(
        Polygon::new(points(&[(0, 0), (10, 0), (0, 10), (5, 5)])).fill(Color(9, 8, 7, 6)),
        square().outline(Color(1, 1, 1, 1)),
    )
    .unwrap();
    match morph.animate(0).1.shape {
        Shape::Polygon { points: shown, fill, outline, stroke_width } => {
            assert_eq!(shown, points(&[(0, 0), (10, 0), (0, 10), (5, 5)]));
            assert_eq!(fill, start.fill_color);
            assert_eq!(outline, start.outline_color);
            assert_eq!(stroke_width, start.stroke_width);
        },
        other => panic!("a morph shows a polygon, not {:?}", other),
    }
    match morph.animate(FULL).1.shape {
        Shape::Polygon { points: shown, fill, outline, stroke_width } => {
            assert_eq!(shown, end.points);
            assert_eq!(fill, end.fill_color);
            assert_eq!(outline, end.outline_color);
            assert_eq!(stroke_width, end.stroke_width);
        },
        other => panic!("a morph shows a polygon, not {:?}", other),
    }
}

#[test]
fn morph_refuses_empty_and_mismatched_polygons() {
    let triangle = || Polygon::new(points(&[(0, 0), (4_000, 0), (0, 4_000)]));
    assert_eq!(PolygonMorph::new(Polygon::new(Vec::new()), square()), Err(Error::DegeneratePolygon));
    assert_eq!(PolygonMorph::new(square(), Polygon::new(Vec::new())), Err(Error::DegeneratePolygon));
    assert_eq!(PolygonMorph::new_strict(triangle(), square()), Err(Error::MismatchedMorphInput));
    assert_eq!(
        PolygonMorph::new_strict(Polygon::new(Vec::new()), square()),
        Err(Error::DegeneratePolygon)
    );
    assert!(PolygonMorph::new_strict(square(), square()).is_ok());
}

fn typed_text(animation: &TextType, p: u32) -> String {
    match animation.animate(p).1.shape {
        Shape::Text { text, .. } => text,
        other => panic!("typing shows text, not {:?}", other),
    }
}

#[test]
fn typing_shows_the_characters_done_and_a_cursor() {
    let typing = TextType(Text::new("hello").at(7, 8).z_index(2));
    assert_eq!(typed_text(&typing, 0), "_");
    assert_eq!(typed_text(&typing, FULL / 2), "he_");
    assert_eq!(typed_text(&typing, 999_999), "hell_");
    assert_eq!(typed_text(&typing, FULL), "hello");
    let (z, visual) = typing.animate(FULL);
    assert_eq!(z, 2);
    assert_eq!((z, visual.shape), Text::new("hello").at(7, 8).z_index(2).render());
}

#[test]
fn typing_counts_characters_not_bytes() {
    let typing = TextType(Text::new("héé"));
    assert_eq!(typed_text(&typing, 400_000), "h_");
    assert_eq!(typed_text(&typing, 700_000), "hé_");
    assert_eq!(typed_text(&TextType(Text::new("")), 0), "");
}

#[test]
fn writing_shows_the_commands_done() {
    let outline = vec![
        PathSegment::MoveTo(Point::new(0, 0)),
        PathSegment::LineTo(Point::new(5, 0)),
        PathSegment::QuadTo(Point::new(6, 1), Point::new(5, 5)),
        PathSegment::Close,
    ];
    let text = Text::new("l").color(Color(1, 2, 3, 4));
    let writing = TextWrite::new(&text, outline.clone());
    for (p, amount) in [(0, 0), (FULL / 4, 1), (FULL / 2, 2), (FULL - 1, 3), (FULL, 4)] {
        assert_eq!(
            writing.animate(p),
            (
                0,
                Visual {
                    shape: Shape::Path {
                        segments: outline[..amount].to_vec(),
                        fill: Color(1, 2, 3, 4),
                        stroke_width: 5_000,
                    },
                    opacity: FULL,
                }
            )
        );
    }
}

#[test]
fn window_evaluates_its_animation_at_its_progress() {
    let window = AnimationContainer {
        animation: AnyAnimation::Fade(FadeAnimation::new(&square())),
        start: 1_000,
        end: 3_000,
    };
    assert_eq!(window.animate(1_500).1.opacity, FULL / 4);
    assert_eq!(window.animate(0).1.opacity, 0);
    assert_eq!(window.animate(9_000).1.opacity, FULL);
}
