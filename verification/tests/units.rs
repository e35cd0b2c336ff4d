use microbiome::direction::carry_to_quadrant;
use microbiome::scalar::HALF_PI_RAW;
use microbiome::scalar::ONE_RAW;
use microbiome::scalar::PI_RAW;
use microbiome::scalar::TWO_PI_RAW;
use microbiome::Direction;
use microbiome::Mass;
use microbiome::Position;
use microbiome::Scalar;
use microbiome::Speed;

fn as_float(value: Scalar) -> f64 {
    value.to_raw() as f64 / ONE_RAW as f64
}

fn close(value: Scalar, expected: f64, tolerance: f64) -> bool {
    (as_float(value) - expected).abs() <= tolerance
}

#[test]
fn default_mass_is_that_of_radius_one_over_1024() {
    assert_eq!(Mass::default().0.to_raw(), 1 << 20);
    assert_eq!(Mass::default(), Mass::from_radius(Scalar::from_ratio(1, 1024)));
    assert_eq!(Mass::default().to_radius(), Scalar::from_ratio(1, 1024));
}

#[test]
fn radius_is_the_root_of_the_mass() {
    assert_eq!(Mass(Scalar::from_int(4)).to_radius(), Scalar::from_int(2));
    assert_eq!(Mass::from_radius(Scalar::from_int(3)), Mass(Scalar::from_int(9)));
    assert_eq!(Mass(Scalar::from_int(2)).to_radius().to_raw(), 1_554_944_255_987);
}

#[test]
fn radius_of_no_mass_is_zero() {
    assert_eq!(Mass(Scalar::zero()).to_radius(), Scalar::zero());
    assert_eq!(Mass(Scalar::from_int(-1)).to_radius(), Scalar::zero());
}

#[test]
fn area_is_pi_times_the_mass() {
    assert_eq!(Mass(Scalar::one()).to_area().to_raw(), PI_RAW);
    assert_eq!(Mass(Scalar::from_int(2)).to_area().to_raw(), 2 * PI_RAW);
    assert_eq!(Mass::from_area(Scalar::pi()), Mass(Scalar::one()));
    assert_eq!(Mass::from_area(Scalar::one()).0.to_raw(), 349_985_421_095);
    assert!(close(Mass(Scalar::from_int(10)).to_area(), 10.0 * std::f64::consts::PI, 1e-9));
}

#[test]
fn masses_add_and_scale() {
    let sum = Mass(Scalar::from_int(10)) + Mass(Scalar::from_int(2));
    assert_eq!(sum, Mass(Scalar::from_int(12)));
    assert_eq!(Mass(Scalar::from_int(3)) * Scalar::from_ratio(1, 2), Mass(Scalar::from_ratio(3, 2)));
    assert_eq!((Mass(Scalar::from_raw(i64::MAX)) + Mass(Scalar::one())).0.to_raw(), i64::MAX);
}

#[test]
fn heavier_bodies_are_slower() {
    let unit = Mass::default();
    let four = unit * Scalar::from_int(4);
    assert_eq!(unit.calculate_slowness(Speed(Scalar::one())), Speed(Scalar::from_int(5)));
    assert_eq!(four.calculate_slowness(Speed(Scalar::one())), Speed(Scalar::from_ratio(5, 2)));
    assert_eq!(four.calculate_slowness(Speed(Scalar::one())).0.to_raw(), 2_748_779_069_440);
}

#[test]
fn slowness_of_no_mass_is_the_largest() {
    let none = Mass(Scalar::zero());
    let speed = none.calculate_slowness(Speed(Scalar::one()));
    assert_eq!(speed.0.to_raw(), 5 * 3_184_525_836_262_886);
    assert_eq!(speed.0, Scalar::from_int(5) * Scalar::from_raw(i64::MAX).sqrt());
    assert_eq!(none.calculate_slowness(Speed(Scalar::zero())), Speed(Scalar::zero()));
}

#[test]
fn default_speed_is_one_fortieth() {
    assert_eq!(Speed::default().0.to_raw(), 27_487_790_694);
    assert_eq!(Speed::default().to_speed(), Scalar::from_ratio(1, 40));
    assert_eq!(Speed::from_speed(Scalar::from_int(2)), Speed(Scalar::from_int(2)));
}

#[test]
fn distance_is_speed_times_time() {
    let speed = Speed(Scalar::from_int(3));
    assert_eq!(speed.to_distance(Scalar::from_ratio(1, 2)), Scalar::from_ratio(3, 2));
    assert_eq!(speed.to_distance(Scalar::zero()), Scalar::zero());
    assert_eq!((speed * Scalar::from_int(-2)).0, Scalar::from_int(-6));
}

#[test]
fn speed_from_vector_is_its_length() {
    assert_eq!(Speed::from_vector(Scalar::from_int(3), Scalar::from_int(4)), Speed(Scalar::from_int(5)));
    assert_eq!(Speed::from_vector(Scalar::zero(), Scalar::zero()), Speed(Scalar::zero()));
}

#[test]
fn speed_to_vector_scales_the_unit_vector() {
    let east = Direction::default();
    let (x, y) = Speed(Scalar::from_int(2)).to_vector(&east);
    assert!(close(x, 2.0, 1e-6));
    assert!(close(y, 0.0, 1e-6));
}

#[test]
fn positions_add_subtract_and_scale() {
    let a = Position(Scalar::from_int(1), Scalar::from_int(2));
    let b = Position(Scalar::from_int(3), Scalar::from_int(5));
    assert_eq!(a + b, Position(Scalar::from_int(4), Scalar::from_int(7)));
    assert_eq!(b - a, Position(Scalar::from_int(2), Scalar::from_int(3)));
    assert_eq!(a * b, Position(Scalar::from_int(3), Scalar::from_int(10)));
    assert_eq!(a * Scalar::from_int(3), Position(Scalar::from_int(3), Scalar::from_int(6)));
    assert_eq!(Position::from((Scalar::one(), Scalar::zero())), Position(Scalar::one(), Scalar::zero()));
    assert_eq!(a.get_x(), Scalar::from_int(1));
    assert_eq!(a.get_y(), Scalar::from_int(2));
}

#[test]
fn distance_between_positions() {
    let origin = Position(Scalar::zero(), Scalar::zero());
    let far = Position(Scalar::from_int(3), Scalar::from_int(4));
    assert_eq!(origin.distance_to(far), Scalar::from_int(5));
    assert_eq!(far.distance_to(origin), Scalar::from_int(5));
    assert_eq!(far.distance_to(far), Scalar::zero());
}

#[test]
fn average_of_positions() {
    let points = [
        Position(Scalar::from_int(1), Scalar::from_int(2)),
        Position(Scalar::from_int(3), Scalar::from_int(-4)),
        Position(Scalar::from_int(5), Scalar::from_int(5)),
    ];
    assert_eq!(Position::average(&points), Position(Scalar::from_int(3), Scalar::from_int(1)));
}

#[test]
fn average_of_no_positions_is_the_origin() {
    let none: [Position; 0] = [];
    assert_eq!(Position::average(&none), Position(Scalar::zero(), Scalar::zero()));
}

#[test]
fn projection_maps_the_square_to_the_screen() {
    let point = Position(Scalar::from_ratio(1, 2), Scalar::from_ratio(-1, 2));
    let (x, y) = point.project_onto(Scalar::from_int(800), Scalar::from_int(600));
    assert_eq!(x, Scalar::from_int(600));
    assert_eq!(y, Scalar::from_int(150));
    assert_eq!(x.to_raw(), 659_706_976_665_600);
    assert_eq!(y.to_raw(), 164_926_744_166_400);
}

#[test]
fn clamped_position_lies_in_the_square() {
    let out = Position(Scalar::from_int(3), Scalar::from_ratio(-5, 2));
    assert_eq!(out.clamped(), Position(Scalar::one(), Scalar::from_int(-1)));
    let inside = Position(Scalar::from_ratio(1, 4), Scalar::from_ratio(-3, 4));
    assert_eq!(inside.clamped(), inside);
    let edge = Position(Scalar::from_raw(i64::MAX), Scalar::from_raw(i64::MIN));
    assert_eq!(edge.clamped(), Position(Scalar::one(), Scalar::from_int(-1)));
}

#[test]
fn moving_east_and_north() {
    let origin = Position(Scalar::zero(), Scalar::zero());
    let east = Direction::default();
    let there = origin.move_towards(&east, Scalar::from_int(2));
    assert!(close(there.0, 2.0, 1e-6) && close(there.1, 0.0, 1e-6));
    let back = origin.move_away(&east, Scalar::from_int(2));
    assert!(close(back.0, -2.0, 1e-6) && close(back.1, 0.0, 1e-6));
    let north = Direction::from_degrees(Scalar::from_int(90));
    let up = origin.move_towards(&north, Scalar::one());
    assert!(close(up.0, 0.0, 1e-6) && close(up.1, 1.0, 1e-6));
}

#[test]
fn moving_no_distance_stays() {
    let start = Position(Scalar::from_ratio(1, 3), Scalar::from_ratio(-2, 3));
    let heading = Direction::from_degrees(Scalar::from_int(37));
    assert_eq!(start.move_towards(&heading, Scalar::zero()), start);
    assert_eq!(start.move_away(&heading, Scalar::zero()), start);
}

#[test]
fn degrees_and_radians() {
    assert_eq!(Direction::from_degrees(Scalar::from_int(180)).0.to_raw(), PI_RAW);
    assert_eq!(Direction(Scalar::pi()).to_degrees().to_raw(), 197_912_092_999_680);
    assert_eq!(Direction(Scalar::pi()).to_degrees(), Scalar::from_int(180));
    assert!(close(Direction::from_degrees(Scalar::from_int(90)).0, std::f64::consts::FRAC_PI_2, 1e-11));
    assert_eq!(Direction::default(), Direction(Scalar::zero()));
}

#[test]
fn radians_wrap_within_one_turn() {
    assert_eq!(Direction::from_radians(Scalar::from_int(7)).0.to_raw(), 788_146_089_717);
    assert_eq!(Direction::from_radians(Scalar::from_int(-7)).0.to_raw(), -788_146_089_717);
    assert_eq!(Direction::from_radians(Scalar::from_int(3)).0, Scalar::from_int(3));
    assert_eq!(Direction(Scalar::from_int(7)).to_radians().to_raw(), 788_146_089_717);
    assert_eq!(Direction::from_radians(Scalar::two_pi()).0, Scalar::zero());
}

#[test]
fn rotation_adds_to_the_angle() {
    let start = Direction(Scalar::one());
    assert_eq!(start.rotate_by_radians(Scalar::from_int(2)), Direction(Scalar::from_int(3)));
    assert_eq!(start.rotate_by_radians(Scalar::from_int(7)), Direction(Scalar::from_int(8)));
    assert_eq!(start.rotate_by_degrees(Scalar::from_int(180)).0.to_raw(), ONE_RAW + PI_RAW);
    assert_eq!(start.turn(Scalar::from_int(6)).0.to_raw(), 7 * ONE_RAW - TWO_PI_RAW);
}

#[test]
fn directions_negate_add_and_scale() {
    let one = Direction(Scalar::one());
    assert_eq!(-one, Direction(Scalar::from_int(-1)));
    assert_eq!(one + Direction(Scalar::from_int(2)), Direction(Scalar::from_int(3)));
    assert_eq!((one + Direction(Scalar::from_int(6))).0.to_raw(), 7 * ONE_RAW - TWO_PI_RAW);
    assert_eq!(one * Scalar::from_int(3), Direction(Scalar::from_int(3)));
    assert_eq!((one * Scalar::from_int(7)).0.to_raw(), 788_146_089_717);
}

#[test]
fn unit_vectors_of_the_axes() {
    let checks = [(0, 1.0, 0.0), (90, 0.0, 1.0), (180, -1.0, 0.0), (270, 0.0, -1.0), (-90, 0.0, -1.0)];
    for (degrees, x, y) in checks {
        let direction = Direction::from_degrees(Scalar::from_int(degrees));
        let (cosine, sine) = direction.to_vector();
        assert!(close(cosine, x, 1e-6), "cosine of {} degrees", degrees);
        assert!(close(sine, y, 1e-6), "sine of {} degrees", degrees);
        assert_eq!(direction.x_component(), cosine);
        assert_eq!(direction.y_component(), sine);
    }
}

#[test]
fn unit_vectors_follow_sine_and_cosine() {
    for step in -12..=12 {
        let angle = Scalar::from_ratio(step, 2);
        let (cosine, sine) = Direction(angle).to_vector();
        let exact = step as f64 / 2.0;
        assert!(close(cosine, exact.cos(), 1e-6), "cosine of {}", exact);
        assert!(close(sine, exact.sin(), 1e-6), "sine of {}", exact);
    }
}

#[test]
fn unit_vector_ignores_whole_turns() {
    let angle = Scalar::from_ratio(1, 3);
    let wound = angle + Scalar::two_pi() + Scalar::two_pi();
    assert_eq!(Direction(wound).to_vector(), Direction(angle).to_vector());
}

#[test]
fn direction_of_a_vector() {
    let checks = [
        (1, 0, 0.0),
        (1, 1, 45.0),
        (0, 1, 90.0),
        (-1, 1, 135.0),
        (-1, 0, 180.0),
        (-1, -1, -135.0),
        (0, -1, -90.0),
        (1, -1, -45.0),
        (2, 1, 26.565_051_177),
        (1, 2, 63.434_948_823),
        (-3, 1, 161.565_051_177),
    ];
    for (x, y, degrees) in checks {
        let direction = Direction::from_vector(Scalar::from_int(x), Scalar::from_int(y));
        let exact: f64 = degrees;
        assert!(close(direction.0, exact.to_radians(), 1e-6), "direction of ({}, {})", x, y);
    }
}

#[test]
fn direction_of_the_zero_vector_is_zero() {
    assert_eq!(Direction::from_vector(Scalar::zero(), Scalar::zero()), Direction(Scalar::zero()));
}

#[test]
fn direction_of_a_steep_vector() {
    let tiny = Scalar::from_raw(1);
    let up = Direction::from_vector(tiny, Scalar::from_int(1000));
    assert!(close(up.0, std::f64::consts::FRAC_PI_2, 1e-6));
    let down = Direction::from_vector(tiny, Scalar::from_raw(i64::MIN));
    assert!(close(down.0, -std::f64::consts::FRAC_PI_2, 1e-6));
    let flat = Direction::from_vector(Scalar::from_raw(i64::MAX), tiny);
    assert!(close(flat.0, 0.0, 1e-6));
}

#[test]
fn direction_between_positions() {
    let from = Position(Scalar::from_ratio(1, 2), Scalar::from_ratio(1, 2));
    let to = Position(Scalar::from_ratio(-1, 2), Scalar::from_ratio(1, 2));
    let west = Direction::from_positions(from, to);
    assert!(close(west.0, std::f64::consts::PI, 1e-6));
    assert_eq!(from.direction_to(to), west);
    assert_eq!(
        Direction::from_positions(from, to),
        Direction::from_vector(Scalar::from_int(-1), Scalar::zero())
    );
}

#[test]
fn an_arc_is_carried_to_the_quadrant_of_its_vector() {
    let arc = Scalar::from_ratio(1, 4);
    let one = Scalar::one();
    let two = Scalar::from_int(2);
    let quarter = arc.to_raw();
    let checks = [
        (two, one, quarter),
        (one, two, HALF_PI_RAW - quarter),
        (-one, two, PI_RAW - (HALF_PI_RAW - quarter)),
        (-two, one, PI_RAW - quarter),
        (-two, -one, quarter - PI_RAW),
        (-one, -two, HALF_PI_RAW - quarter - PI_RAW),
        (one, -two, -(HALF_PI_RAW - quarter)),
        (two, -one, -quarter),
        (one, one, quarter),
        (Scalar::zero(), one, HALF_PI_RAW - quarter),
        (one, Scalar::zero(), quarter),
    ];
    for (x, y, expected) in checks {
        assert_eq!(carry_to_quadrant(x, y, arc).to_raw(), expected, "vector {:?}", (x, y));
    }
    assert_eq!(carry_to_quadrant(Scalar::zero(), Scalar::zero(), arc), Scalar::zero());
}

#[test]
fn unit_vectors_over_the_whole_turn() {
    let steps = 20_000i64;
    for step in -steps..=steps {
        let angle = Scalar::from_raw(TWO_PI_RAW / steps * step);
        let (cosine, sine) = Direction(angle).to_vector();
        let exact = as_float(angle);
        assert!(close(cosine, exact.cos(), 1e-6), "cosine of {}", exact);
        assert!(close(sine, exact.sin(), 1e-6), "sine of {}", exact);
    }
    for raw in [TWO_PI_RAW - 1, -(TWO_PI_RAW - 1), TWO_PI_RAW, TWO_PI_RAW + 1, i64::MAX, i64::MIN] {
        let (cosine, sine) = Direction(Scalar::from_raw(raw)).to_vector();
        let length = as_float(cosine).hypot(as_float(sine));
        assert!((length - 1.0).abs() < 1e-6, "length {} at {}", length, raw);
    }
}

#[test]
fn directions_of_vectors_all_around() {
    let steps = 5_000i64;
    for step in -steps..steps {
        let exact = std::f64::consts::PI * step as f64 / steps as f64;
        let x = Scalar::from_raw((exact.cos() * ONE_RAW as f64) as i64);
        let y = Scalar::from_raw((exact.sin() * ONE_RAW as f64) as i64);
        let direction = Direction::from_vector(x, y);
        let off = (as_float(direction.0) - exact).abs();
        let off = off.min((off - 2.0 * std::f64::consts::PI).abs());
        assert!(off < 1e-6, "direction of {} is {}", exact, as_float(direction.0));
    }
    for (x, y) in [(i64::MAX, i64::MAX), (i64::MIN, i64::MIN), (1, 1), (-1, 1), (i64::MAX, 1), (1, i64::MIN)] {
        let direction = Direction::from_vector(Scalar::from_raw(x), Scalar::from_raw(y));
        assert!(as_float(direction.0).abs() <= std::f64::consts::PI + 1e-9);
    }
}

#[test]
fn a_position_is_shifted_along_a_vector() {
    let start = Position(Scalar::from_int(1), Scalar::from_int(-2));
    let unit = (Scalar::from_ratio(3, 5), Scalar::from_ratio(-4, 5));
    let there = start.shifted(unit, Scalar::from_int(5));
    assert_eq!(there.0.to_raw(), ONE_RAW + 5 * Scalar::from_ratio(3, 5).to_raw());
    assert_eq!(there.1.to_raw(), -2 * ONE_RAW - 5 * Scalar::from_ratio(4, 5).to_raw());
    let back = start.shifted_back(unit, Scalar::from_int(5));
    assert_eq!(back.0.to_raw(), ONE_RAW - 5 * Scalar::from_ratio(3, 5).to_raw());
    assert_eq!(back.1.to_raw(), -2 * ONE_RAW + 5 * Scalar::from_ratio(4, 5).to_raw());
    assert_eq!(start.shifted((Scalar::one(), Scalar::zero()), Scalar::from_int(2)), Position(Scalar::from_int(3), Scalar::from_int(-2)));
    assert_eq!(start.shifted_back((Scalar::zero(), Scalar::one()), Scalar::from_int(2)), Position(Scalar::from_int(1), Scalar::from_int(-4)));
    assert_eq!(start.shifted(unit, Scalar::zero()), start);
    let east = Direction::default();
    assert_eq!(start.move_towards(&east, Scalar::from_int(2)), start.shifted(east.to_vector(), Scalar::from_int(2)));
    assert_eq!(start.move_away(&east, Scalar::from_int(2)), start.shifted_back(east.to_vector(), Scalar::from_int(2)));
}

#[test]
fn a_speed_scales_a_vector() {
    let speed = Speed(Scalar::from_int(3));
    let unit = (Scalar::from_ratio(1, 2), Scalar::from_ratio(-1, 4));
    assert_eq!(speed.along(unit), (Scalar::from_ratio(3, 2), Scalar::from_ratio(-3, 4)));
    assert_eq!(Speed(Scalar::zero()).along(unit), (Scalar::zero(), Scalar::zero()));
    let north = Direction::from_degrees(Scalar::from_int(90));
    assert_eq!(speed.to_vector(&north), speed.along(north.to_vector()));
}
