use aniy::correspondence::{create_missing_points, morph_points, PointCorrespondence};
use aniy::error::Error;
use aniy::geometry::{
    cast_to_line, closest_point, distance_squared, top_left, translate_points, Point, Wide,
};
use aniy::units::FULL;

fn points(coordinates: &[(i32, i32)]) -> Vec<Point> {
    coordinates.iter().map(|&(x, y)| Point::new(x, y)).collect()
}

fn wide(x: i64, y: i64) -> Wide {
    Wide { x, y }
}

fn triangle() -> Vec<Point> {
    points(&[(0, 0), (4000, 0), (0, 4000)])
}

fn square() -> Vec<Point> {
    points(&[(0, 0), (4000, 0), (4000, 4000), (0, 4000)])
}

fn sorted(mut v: Vec<Point>) -> Vec<(i32, i32)> {
    let mut keys: Vec<(i32, i32)> = v.drain(..).map(|p| (p.x, p.y)).collect();
    keys.sort();
    keys
}

#[test]
fn triangle_and_square_correspond_in_four_points() {
    let pairs = PointCorrespondence::new(&triangle(), &square()).unwrap();
    assert_eq!(pairs.start_points.len(), 4);
    assert_eq!(pairs.end_points.len(), 4);
    assert_eq!(pairs.start_points, points(&[(0, 0), (4000, 0), (2000, 2000), (0, 4000)]));
    assert_eq!(pairs.end_points, square());
    let half = pairs.interpolate(FULL / 2);
    assert_eq!(half, points(&[(0, 0), (4000, 0), (3000, 3000), (0, 4000)]));
}

#[test]
fn longer_start_polygon_is_the_one_reordered() {
    let pairs = PointCorrespondence::new(&square(), &triangle()).unwrap();
    assert_eq!(pairs.start_points, square());
    assert_eq!(pairs.end_points, points(&[(0, 0), (4000, 0), (2000, 2000), (0, 4000)]));
}

#[test]
fn equal_counts_pair_by_position() {
    let a = points(&[(5, 5), (9, 1), (-3, 7)]);
    let b = points(&[(100, 100), (0, 0), (50, -50)]);
    let pairs = PointCorrespondence::new(&a, &b).unwrap();
    assert_eq!(pairs.start_points, a);
    assert_eq!(pairs.end_points, b);
    let strict = PointCorrespondence::new_strict(&a, &b).unwrap();
    assert_eq!(strict.start_points, a);
    assert_eq!(strict.end_points, b);
}

#[test]
fn both_sequences_get_the_length_of_the_longer_polygon() {
    let longer = points(&[(100, 50), (300, 0), (520, 80), (600, 300), (310, 420), (0, 280)]);
    for m in 1..=longer.len() {
        let short: Vec<Point> = longer[..m].iter().map(|p| Point::new(p.y, p.x)).collect();
        let pairs = PointCorrespondence::new(&short, &longer).unwrap();
        assert_eq!(pairs.start_points.len(), longer.len());
        assert_eq!(pairs.end_points.len(), longer.len());
        assert_eq!(sorted(pairs.end_points), sorted(longer.clone()));
    }
}

#[test]
fn added_points_are_the_feet_on_the_nearest_edges() {
    let mut short = points(&[(1000, 1000), (7000, 2000), (3000, 9000)]);
    let mut longer = points(&[(100, 50), (300, 0), (520, 80), (600, 300), (310, 420), (0, 280)]);
    let given = longer.clone();
    create_missing_points(&mut short, &mut longer);
    assert_eq!(
        short,
        points(&[
            (1000, 1000),
            (1292, 1049),
            (1519, 1086),
            (7000, 2000),
            (3000, 9000),
            (1066, 1264)
        ])
    );
    assert_eq!(longer, given);
}

#[test]
fn free_points_keep_their_order_on_a_shared_edge() {
    let mut short = points(&[(0, 0), (10, 0)]);
    let mut longer = points(&[(2, 1), (5, 7), (9, -3), (4, 4), (7, 2)]);
    create_missing_points(&mut short, &mut longer);
    assert_eq!(short, points(&[(0, 0), (3, 0), (2, 0), (5, 0), (10, 0)]));
    assert_eq!(longer, points(&[(2, 1), (5, 7), (4, 4), (7, 2), (9, -3)]));
}

#[test]
fn a_single_point_is_repeated() {
    let mut short = points(&[(5, 5)]);
    let mut longer = square();
    create_missing_points(&mut short, &mut longer);
    assert_eq!(short, points(&[(5, 5), (5, 5), (5, 5), (5, 5)]));
    assert_eq!(longer, square());
}

#[test]
fn matching_does_not_depend_on_where_the_polygons_lie() {
    let mut short = points(&[(0, 0), (10, 0)]);
    let mut longer = points(&[(2, 1), (5, 7), (9, -3), (4, 4), (7, 2)]);
    let mut far_short: Vec<Point> = short.iter().map(|p| Point::new(p.x - 500, p.y + 70)).collect();
    let mut far_longer: Vec<Point> =
        longer.iter().map(|p| Point::new(p.x + 90_000, p.y - 3)).collect();
    create_missing_points(&mut short, &mut longer);
    create_missing_points(&mut far_short, &mut far_longer);
    let back_short: Vec<Point> = far_short.iter().map(|p| Point::new(p.x + 500, p.y - 70)).collect();
    let back_longer: Vec<Point> =
        far_longer.iter().map(|p| Point::new(p.x - 90_000, p.y + 3)).collect();
    assert_eq!(back_short, short);
    assert_eq!(back_longer, longer);
}

#[test]
fn extreme_coordinates_are_matched() {
    let mut short = points(&[(i32::MIN, i32::MIN), (i32::MAX, i32::MAX)]);
    let mut longer = points(&[(i32::MAX, i32::MIN), (i32::MIN, i32::MAX), (0, 0), (i32::MAX, 0)]);
    create_missing_points(&mut short, &mut longer);
    assert_eq!(short.len(), 4);
    assert_eq!(longer.len(), 4);
    assert_eq!(short[0], Point::new(i32::MIN, i32::MIN));
}

#[test]
fn empty_polygon_is_degenerate() {
    let none: Vec<Point> = Vec::new();
    assert_eq!(PointCorrespondence::new(&none, &square()), Err(Error::DegeneratePolygon));
    assert_eq!(PointCorrespondence::new(&square(), &none), Err(Error::DegeneratePolygon));
    assert_eq!(PointCorrespondence::new(&none, &none), Err(Error::DegeneratePolygon));
    assert_eq!(PointCorrespondence::new_strict(&none, &none), Err(Error::DegeneratePolygon));
}

#[test]
fn strict_pairing_refuses_unequal_counts() {
    assert_eq!(
        PointCorrespondence::new_strict(&triangle(), &square()),
        Err(Error::MismatchedMorphInput)
    );
}

#[test]
fn morph_starts_and_ends_at_the_given_points() {
    let pairs = PointCorrespondence::new(&triangle(), &square()).unwrap();
    assert_eq!(pairs.interpolate(0), pairs.start_points);
    assert_eq!(pairs.interpolate(FULL), pairs.end_points);
}

#[test]
fn morph_points_round_to_the_nearest_unit() {
    let start = points(&[(0, 0), (10, -7)]);
    let end = points(&[(3, -3), (-10, 8)]);
    assert_eq!(morph_points(&start, &end, FULL / 2), points(&[(2, -1), (0, 1)]));
    assert_eq!(morph_points(&start, &end, FULL / 4), points(&[(1, -1), (5, -3)]));
    assert_eq!(morph_points(&start, &end, 333_333), points(&[(1, -1), (3, -2)]));
}

#[test]
fn morph_points_leaves_out_points_without_partner() {
    let start = points(&[(0, 0), (10, 10), (20, 20)]);
    let end = points(&[(4, 4)]);
    assert_eq!(morph_points(&start, &end, FULL / 2), points(&[(2, 2)]));
}

#[test]
fn top_left_is_the_corner_of_the_box() {
    assert_eq!(top_left(&points(&[(5, 9), (-2, 30), (7, -4)])), Point::new(-2, -4));
    assert_eq!(top_left(&Vec::new()), Point::new(i32::MAX, i32::MAX));
}

#[test]
fn translate_points_moves_the_origin() {
    let moved = translate_points(&points(&[(5, 9), (-2, 30)]), Point::new(-2, 9));
    assert_eq!(moved, vec![wide(7, 0), wide(0, 21)]);
    let far = translate_points(&points(&[(i32::MAX, i32::MIN)]), Point::new(i32::MIN, i32::MAX));
    assert_eq!(far, vec![wide(4_294_967_295, -4_294_967_295)]);
}

#[test]
fn distance_is_squared() {
    assert_eq!(distance_squared(wide(0, 0), wide(3, 4)), 25);
    assert_eq!(distance_squared(wide(-1, 7), wide(-1, 7)), 0);
}

#[test]
fn closest_point_takes_the_first_of_equals() {
    let candidates = vec![wide(10, 0), wide(0, 5), wide(5, 0), wide(0, -5)];
    assert_eq!(closest_point(wide(0, 0), &candidates), (1, wide(0, 5)));
    assert_eq!(closest_point(wide(9, 0), &candidates), (0, wide(10, 0)));
}

#[test]
fn cast_to_line_gives_the_foot_or_the_nearer_end() {
    assert_eq!(cast_to_line(wide(0, 0), wide(10, 0), wide(3, 4)), (wide(3, 0), 16));
    assert_eq!(cast_to_line(wide(0, 0), wide(10, 0), wide(-3, 4)), (wide(0, 0), 25));
    assert_eq!(cast_to_line(wide(0, 0), wide(10, 0), wide(14, 3)), (wide(10, 0), 25));
    assert_eq!(cast_to_line(wide(0, 0), wide(3, 3), wide(3, 0)), (wide(2, 2), 5));
    assert_eq!(cast_to_line(wide(0, 0), wide(7, 3), wide(2, 5)), (wide(4, 2), 13));
    assert_eq!(cast_to_line(wide(6, 6), wide(6, 6), wide(2, 3)), (wide(6, 6), 25));
}
