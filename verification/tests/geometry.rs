use crabe::math::advance;
use crabe::math::closest_point_on_ray;
use crabe::math::isqrt;
use crabe::math::offset_along;
use crabe::math::ray_hits_segment;
use crabe::math::ray_meets_upright;
use crabe::math::trunc_quot;
use crabe::math::Circle;
use crabe::math::Delta;
use crabe::math::IntersectionError;
use crabe::math::Line;
use crabe::math::Rectangle;
use crabe::math::Vec2;
use crabe::math::Vec3;
use crabe::math::LIMIT;

fn p(x: i64, y: i64) -> Vec2 {
    Vec2::new(x, y)
}

fn seg(ax: i64, ay: i64, bx: i64, by: i64) -> Line {
    Line::new(p(ax, ay), p(bx, by))
}

#[test]
fn coordinates_are_clamped() {
    let a = Vec2::new(250_000_000, -5);
    assert_eq!(a.x(), 100_000_000);
    assert_eq!(a.y(), -5);
    let b = Vec2::new(-100_000_001, 100_000_000);
    assert_eq!(b.x(), -LIMIT);
    assert_eq!(b.y(), LIMIT);
    let c = Vec3::new(1, -2, 300_000_000);
    assert_eq!((c.x(), c.y(), c.z()), (1, -2, 100_000_000));
    assert_eq!(Vec2::from_wide(-1_000_000_000_000_000_000_000, 7), p(-100_000_000, 7));
}

#[test]
fn mirror_changes_sign() {
    assert_eq!(p(3, -4).mirrored(), p(-3, 4));
    assert_eq!(p(3, -4).mirrored().mirrored(), p(3, -4));
    let b = Vec3::new(3, -4, 9).mirrored();
    assert_eq!((b.x(), b.y(), b.z()), (-3, 4, 9));
    assert_eq!(Vec3::new(3, -4, 9).xy(), p(3, -4));
}

#[test]
fn squared_distance_and_norm() {
    assert_eq!(p(0, 0).dist2(&p(3, 4)), 25);
    assert_eq!(p(-100_000_000, -100_000_000).dist2(&p(100_000_000, 100_000_000)), 80_000_000_000_000_000);
    assert!(p(0, 0).within(&p(3, 4), 6));
    assert!(!p(0, 0).within(&p(3, 4), 5));
    assert_eq!(Vec3::new(1, 2, 2).norm2(), 9);
    let d = p(1, 1).delta_to(&p(4, 5));
    assert_eq!(d, Delta { dx: 3, dy: 4 });
    assert_eq!(d.norm2(), 25);
    assert_eq!(d.dot(&Delta { dx: 2, dy: -1 }), 2);
    assert_eq!(d.cross(&Delta { dx: 2, dy: -1 }), -11);
    assert_eq!(d.quarter_turn(), Delta { dx: -4, dy: 3 });
    assert_eq!(d.reversed(), Delta { dx: -3, dy: -4 });
    assert_eq!(p(7, -8).as_delta(), Delta { dx: 7, dy: -8 });
}

#[test]
fn integer_square_roots() {
    assert_eq!(isqrt(0), 0);
    assert_eq!(isqrt(1), 1);
    assert_eq!(isqrt(15), 3);
    assert_eq!(isqrt(16), 4);
    assert_eq!(isqrt(17), 4);
    assert_eq!(isqrt(1_000_000_000_000), 1_000_000);
    assert_eq!(isqrt(u64::MAX), 4_294_967_295);
}

#[test]
fn quotients_round_toward_zero() {
    assert_eq!(trunc_quot(7, 2), 3);
    assert_eq!(trunc_quot(-7, 2), -3);
    assert_eq!(trunc_quot(0, 5), 0);
}

#[test]
fn cone_test_at_the_threshold() {
    let ahead = Delta { dx: 1_000_000, dy: 0 };
    // cosine 0.96 is inside the cone of cosine 0.95, cosine 0.8 is not
    assert!(ahead.within_cone(&Delta { dx: 96, dy: 28 }, 19, 20));
    assert!(!ahead.within_cone(&Delta { dx: 80, dy: 60 }, 19, 20));
    // cosine exactly 0.8 is not above 0.8
    assert!(!ahead.within_cone(&Delta { dx: 80, dy: 60 }, 4, 5));
    assert!(ahead.within_cone(&Delta { dx: 80, dy: 60 }, 3, 4));
    // opposite and null directions are never inside
    assert!(!ahead.within_cone(&Delta { dx: -1, dy: 0 }, 0, 1));
    assert!(!ahead.within_cone(&Delta { dx: 0, dy: 0 }, 0, 1));
}

#[test]
fn offset_along_a_direction() {
    let d = Delta { dx: 3, dy: 4 };
    assert_eq!(offset_along(&p(0, 0), &d, 5_000_000), p(3_000_000, 4_000_000));
    assert_eq!(offset_along(&p(10, 20), &Delta { dx: -8_000_000, dy: 0 }, 300_000), p(-299_990, 20));
    // a direction without length moves nothing
    assert_eq!(offset_along(&p(10, 20), &Delta { dx: 0, dy: 0 }, 300_000), p(10, 20));
    // the result stays on the field
    assert_eq!(offset_along(&p(99_000_000, 0), &Delta { dx: 1, dy: 0 }, 5_000_000), p(100_000_000, 0));
}

#[test]
fn advance_by_a_fraction() {
    assert_eq!(advance(&p(0, 0), &Delta { dx: 10, dy: -10 }, 1, 3), p(3, -3));
    assert_eq!(advance(&p(5, 5), &Delta { dx: 10, dy: -10 }, 0, 3), p(5, 5));
}

#[test]
fn line_center_and_length() {
    assert_eq!(seg(4_500_000, -500_000, 4_500_000, 500_000).center(), p(4_500_000, 0));
    assert_eq!(seg(-3, 0, 0, 0).center(), p(-1, 0));
    assert_eq!(seg(0, 0, 3, 4).norm2(), 25);
    assert_eq!(seg(0, 0, 3, 4).length(), 5);
    assert_eq!(seg(0, 0, 1, 1).length(), 1);
    assert_eq!(seg(0, 0, 3, 4).key(&p(3, 4)), 25);
    assert_eq!(seg(0, 0, 3, 4).key(&p(0, 0)), 0);
}

#[test]
fn closest_point_on_a_segment() {
    let s = seg(0, 0, 10, 0);
    assert_eq!(s.closest_point_on_segment(&p(5, 7)), p(5, 0));
    assert_eq!(s.closest_point_on_segment(&p(-5, 7)), p(0, 0));
    assert_eq!(s.closest_point_on_segment(&p(50, 7)), p(10, 0));
    let point = seg(2, 2, 2, 2);
    assert_eq!(point.closest_point_on_segment(&p(9, 9)), p(2, 2));
    let diagonal = seg(0, 0, 10, 10);
    assert_eq!(diagonal.closest_point_on_segment(&p(10, 0)), p(5, 5));
}

#[test]
fn cut_off_the_middle() {
    let s = seg(0, 0, 0, 100);
    let pieces = s.cut_off_segment(&seg(0, 40, 0, 60));
    assert_eq!(pieces, vec![seg(0, 0, 0, 40), seg(0, 60, 0, 100)]);
    // the ends of the clip may come in either order
    let pieces = s.cut_off_segment(&seg(0, 60, 0, 40));
    assert_eq!(pieces, vec![seg(0, 0, 0, 40), seg(0, 60, 0, 100)]);
}

#[test]
fn cut_off_an_end_or_all() {
    let s = seg(0, 0, 0, 100);
    assert_eq!(s.cut_off_segment(&seg(0, -10, 0, 30)), vec![seg(0, 30, 0, 100)]);
    assert_eq!(s.cut_off_segment(&seg(0, 70, 0, 130)), vec![seg(0, 0, 0, 70)]);
    assert_eq!(s.cut_off_segment(&seg(0, 0, 0, 100)), Vec::<Line>::new());
    assert_eq!(s.cut_off_segment(&seg(0, -5, 0, 105)), Vec::<Line>::new());
}

#[test]
fn cut_off_nothing() {
    let s = seg(0, 0, 0, 100);
    assert_eq!(s.cut_off_segment(&seg(0, 120, 0, 130)), vec![s]);
    assert_eq!(s.cut_off_segment(&seg(0, -30, 0, -20)), vec![s]);
    assert_eq!(s.cut_off_segment(&seg(0, 50, 0, 50)), vec![s]);
    assert_eq!(s.cut_off_segment(&seg(0, 100, 0, 130)), vec![s]);
    assert_eq!(s.cut_off_segment(&seg(0, -30, 0, 0)), vec![s]);
}

#[test]
fn segments_that_cross() {
    let a = seg(0, 0, 10, 10);
    let b = seg(0, 10, 10, 0);
    assert_eq!(a.intersection_segments(&b), Ok(p(5, 5)));
    assert_eq!(b.intersection_segments(&a), Ok(p(5, 5)));
    // touching at an end counts
    assert_eq!(seg(0, 0, 10, 0).intersection_segments(&seg(10, 0, 10, 10)), Ok(p(10, 0)));
}

#[test]
fn segments_that_do_not_cross() {
    let a = seg(0, 0, 10, 0);
    assert_eq!(a.intersection_segments(&seg(0, 5, 10, 5)), Err(IntersectionError::Parallel));
    assert_eq!(a.intersection_segments(&seg(3, 3, 3, 3)), Err(IntersectionError::Parallel));
    assert_eq!(a.intersection_segments(&seg(20, -5, 20, 5)), Err(IntersectionError::Outside));
    assert_eq!(a.intersection_segments(&seg(5, 1, 5, 5)), Err(IntersectionError::Outside));
}

#[test]
fn segment_against_a_whole_line() {
    let a = seg(0, 0, 10, 0);
    // the other segment does not reach, its line does
    assert_eq!(a.intersection_segment_line(&seg(5, 1, 5, 5)), Ok(p(5, 0)));
    assert_eq!(a.intersection_segment_line(&seg(20, 1, 20, 5)), Err(IntersectionError::Outside));
    assert_eq!(a.intersection_segment_line(&seg(0, 1, 5, 1)), Err(IntersectionError::Parallel));
}

#[test]
fn rays() {
    let goal = seg(4_500_000, -500_000, 4_500_000, 500_000);
    let east = Delta { dx: 1, dy: 0 };
    assert!(ray_hits_segment(&p(0, 0), &east, &goal));
    assert!(ray_hits_segment(&p(0, 500_000), &east, &goal));
    assert!(!ray_hits_segment(&p(0, 500_001), &east, &goal));
    assert!(!ray_hits_segment(&p(0, 0), &Delta { dx: -1, dy: 0 }, &goal));
    assert!(!ray_hits_segment(&p(0, 0), &Delta { dx: 0, dy: 1 }, &goal));
    assert!(!ray_hits_segment(&p(0, 0), &Delta { dx: 0, dy: 0 }, &goal));

    let west = Delta { dx: -3_000_000, dy: 0 };
    assert_eq!(closest_point_on_ray(&p(0, 0), &west, &p(-1_000_000, 500_000)), p(-1_000_000, 0));
    // behind the origin of the ray the origin is nearest
    assert_eq!(closest_point_on_ray(&p(0, 0), &west, &p(2_000_000, 500_000)), p(0, 0));
    assert_eq!(closest_point_on_ray(&p(7, 7), &Delta { dx: 0, dy: 0 }, &p(1, 1)), p(7, 7));

    assert_eq!(ray_meets_upright(&p(0, 0), &Delta { dx: -2, dy: 1 }, -4_500_000), Some(p(-4_500_000, 2_250_000)));
    assert_eq!(ray_meets_upright(&p(0, 0), &Delta { dx: 2, dy: 1 }, -4_500_000), None);
    assert_eq!(ray_meets_upright(&p(0, 0), &Delta { dx: 0, dy: 1 }, -4_500_000), None);
}

#[test]
fn circle_contains() {
    let c = Circle::new(p(0, 0), 5);
    assert!(c.contains(&p(3, 4)));
    assert!(c.contains(&p(0, 0)));
    assert!(!c.contains(&p(4, 4)));
}

#[test]
fn rectangle_is_in() {
    let rec = Rectangle::new(3, 3, p(0, 0));
    assert_eq!(true, rec.is_in(p(1, 1)));
    assert_eq!(true, rec.is_in(p(0, 0)));
    assert_eq!(true, rec.is_in(p(3, 3)));
    assert_eq!(false, rec.is_in(p(4, 4)));
    assert_eq!(false, rec.is_in(p(-1, 2)));
    assert_eq!(false, rec.is_in(p(2, -1)));
}
