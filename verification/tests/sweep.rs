use willekeurig::box_collider::{swept_aabb, AxisSweep, Normal, Scalar, SweptResult};

/// One box: position, size and velocity on each axis.
struct Moving {
    position: [f32; 3],
    size: [f32; 3],
    velocity: [f32; 3],
}

fn scalar(value: f32) -> Scalar {
    Scalar::from_bits(value.to_bits())
}

fn number(scalar: Scalar) -> f32 {
    f32::from_bits(scalar.to_bits())
}

/// The entry and exit times of one axis, as the sweep counts them.
fn axis(b1: &Moving, b2: &Moving, i: usize) -> AxisSweep {
    let (inverse_entry, inverse_exit) = if b1.velocity[i] > 0. {
        (
            b2.position[i] - (b1.position[i] + b1.size[i]),
            (b2.position[i] + b2.size[i]) - b1.position[i],
        )
    } else {
        (
            (b2.position[i] + b2.size[i]) - b1.position[i],
            b2.position[i] - (b1.position[i] + b1.size[i]),
        )
    };
    let (entry, exit) = if b1.velocity[i] == 0. {
        (f32::NEG_INFINITY, f32::NEG_INFINITY)
    } else {
        (inverse_entry / b1.velocity[i], inverse_exit / b1.velocity[i])
    };
    AxisSweep { entry: scalar(entry), exit: scalar(exit), velocity: scalar(b1.velocity[i]) }
}

fn sweep(b1: &Moving, b2: &Moving) -> SweptResult {
    swept_aabb(axis(b1, b2, 0), axis(b1, b2, 1), axis(b1, b2, 2))
}

fn unit_box(position: [f32; 3], velocity: [f32; 3]) -> Moving {
    Moving { position, size: [1., 1., 1.], velocity }
}

const NONE: Normal = Normal { x: 0, y: 0, z: 0 };

#[test]
fn scalars_keep_the_order_of_numbers() {
    let values = [
        f32::NEG_INFINITY,
        -f32::MAX,
        -2.5,
        -1.0,
        -f32::MIN_POSITIVE,
        0.0,
        f32::MIN_POSITIVE,
        0.5,
        1.0,
        1.0000001,
        f32::MAX,
        f32::INFINITY,
    ];
    for a in values {
        for b in values {
            assert_eq!(scalar(a).is_greater(scalar(b)), a > b);
            assert_eq!(scalar(a).is_less(scalar(b)), a < b);
            assert_eq!(number(scalar(a).max(scalar(b))), a.max(b));
            assert_eq!(number(scalar(a).min(scalar(b))), a.min(b));
        }
        assert_eq!(number(scalar(a)), a);
        assert_eq!(scalar(a).sign(), if a >= 0. { 1 } else { -1 });
    }
    assert_eq!(scalar(-0.0), scalar(0.0));
    assert_eq!(scalar(0.0), Scalar::zero());
    assert_eq!(scalar(1.0), Scalar::one());
    assert_eq!(scalar(-f32::MAX), Scalar::lowest());
    assert_eq!(scalar(f32::NEG_INFINITY), Scalar::neg_infinity());
}

#[test]
fn not_a_number_compares_with_nothing() {
    let nan = scalar(f32::NAN);
    assert!(number(nan).is_nan());
    assert_eq!(nan, scalar(-f32::NAN));
    for other in [scalar(0.0), scalar(1.0), scalar(f32::INFINITY), nan] {
        assert!(!nan.is_greater(other));
        assert!(!nan.is_less(other));
        assert!(!other.is_greater(nan));
        assert!(!other.is_less(nan));
    }
    assert_eq!(nan.max(scalar(2.0)), scalar(2.0));
    assert_eq!(scalar(2.0).max(nan), scalar(2.0));
    assert_eq!(nan.min(scalar(2.0)), scalar(2.0));
    assert_eq!(nan.sign(), -1);
}

#[test]
fn box_moving_along_one_axis_reports_no_hit() {
    // A at the origin moves one unit along x towards B at (2, 0, 0). The
    // axes along which A is at rest leave at negative infinity, before A
    // enters on x: the sweep counts that as a miss.
    let a = unit_box([0., 0., 0.], [1., 0., 0.]);
    let b = unit_box([2., 0., 0.], [0., 0., 0.]);
    let result = sweep(&a, &b);
    assert_eq!(number(result.time), 1.0);
    assert_eq!(result.normal, NONE);
}

#[test]
fn box_moving_towards_another_hits_its_near_side() {
    // A moves 1.5 along x, and a little along y and z, towards B
    let a = unit_box([0., 0., 0.], [1.5, 0.25, 0.25]);
    let b = unit_box([2., 0., 0.], [0., 0., 0.]);
    let result = sweep(&a, &b);
    let time = number(result.time);
    assert!(0. < time && time < 1.);
    assert_eq!(time, 1. / 1.5);
    assert_eq!(result.normal, Normal { x: -1, y: 0, z: 0 });

    // the same from the other side
    let a = unit_box([4., 0., 0.], [-1.5, -0.25, -0.25]);
    let result = sweep(&a, &b);
    assert_eq!(number(result.time), 1. / 1.5);
    assert_eq!(result.normal, Normal { x: 1, y: 0, z: 0 });
}

#[test]
fn box_that_stops_short_reports_no_hit() {
    let a = unit_box([0., 0., 0.], [0.5, 0.25, 0.25]);
    let b = unit_box([2., 0., 0.], [0., 0., 0.]);
    let result = sweep(&a, &b);
    assert_eq!(number(result.time), 1.0);
    assert_eq!(result.normal, NONE);
}

#[test]
fn box_moving_away_reports_no_hit() {
    let a = unit_box([0., 0., 0.], [-1.5, -0.25, -0.25]);
    let b = unit_box([2., 5., 5.], [0., 0., 0.]);
    let result = sweep(&a, &b);
    assert_eq!(number(result.time), 1.0);
    assert_eq!(result.normal, NONE);
}

fn times(entry: f32, exit: f32, velocity: f32) -> AxisSweep {
    AxisSweep { entry: scalar(entry), exit: scalar(exit), velocity: scalar(velocity) }
}

#[test]
fn latest_entry_names_the_surface() {
    let result = swept_aabb(times(0.2, 2., 1.), times(0.6, 2., -1.), times(0.4, 2., 1.));
    assert_eq!(number(result.time), 0.6);
    assert_eq!(result.normal, Normal { x: 0, y: 1, z: 0 });

    let result = swept_aabb(times(0.2, 2., 1.), times(0.3, 2., -1.), times(0.4, 2., 1.));
    assert_eq!(number(result.time), 0.4);
    assert_eq!(result.normal, Normal { x: 0, y: 0, z: -1 });

    let result = swept_aabb(times(0.7, 2., -1.), times(0.3, 2., -1.), times(0.4, 2., 1.));
    assert_eq!(number(result.time), 0.7);
    assert_eq!(result.normal, Normal { x: 1, y: 0, z: 0 });
}

#[test]
fn equal_entries_go_to_the_later_axis() {
    // x and y enter together: y is taken, x being not strictly later
    let result = swept_aabb(times(0.5, 2., 1.), times(0.5, 2., 1.), times(0.1, 2., 1.));
    assert_eq!(result.normal, Normal { x: 0, y: -1, z: 0 });
    // x and z enter together: z is taken
    let result = swept_aabb(times(0.5, 2., 1.), times(0.1, 2., 1.), times(0.5, 2., 1.));
    assert_eq!(result.normal, Normal { x: 0, y: 0, z: -1 });
    // all three enter together: z is taken
    let result = swept_aabb(times(0.5, 2., 1.), times(0.5, 2., 1.), times(0.5, 2., -1.));
    assert_eq!(result.normal, Normal { x: 0, y: 0, z: 1 });
    assert_eq!(number(result.time), 0.5);
}

#[test]
fn entry_behind_the_step_counts_as_lowest() {
    // x would enter after the step: it counts as the lowest number, and the
    // other axes decide
    let result = swept_aabb(times(1.5, 2., 1.), times(0.5, 2., 1.), times(0.25, 2., 1.));
    assert_eq!(number(result.time), 0.5);
    assert_eq!(result.normal, Normal { x: 0, y: -1, z: 0 });
    // an entry at the very end of the step is within it
    let result = swept_aabb(times(1.0, 2., 1.), times(0.5, 2., 1.), times(0.25, 2., 1.));
    assert_eq!(number(result.time), 1.0);
    assert_eq!(result.normal, Normal { x: -1, y: 0, z: 0 });
}

#[test]
fn leaving_before_entering_is_a_miss() {
    let result = swept_aabb(times(0.5, 2., 1.), times(0.2, 0.4, 1.), times(0.1, 2., 1.));
    assert_eq!(result, SweptResult { time: Scalar::one(), normal: NONE });
}

#[test]
fn entries_in_the_past_are_a_miss() {
    let result = swept_aabb(times(-0.5, 2., 1.), times(-0.2, 2., 1.), times(-0.1, 2., 1.));
    assert_eq!(result, SweptResult { time: Scalar::one(), normal: NONE });
    // one entry at zero is enough for a hit
    let result = swept_aabb(times(-0.5, 2., 1.), times(0., 2., 1.), times(-0.1, 2., 1.));
    assert_eq!(number(result.time), 0.);
    assert_eq!(result.normal, Normal { x: 0, y: -1, z: 0 });
}

#[test]
fn entry_is_counted_from_the_leading_face_of_the_moving_box() {
    // A is two wide: its leading face is at 2 and reaches B at 3 after a third of the step
    let a = Moving { position: [0., 0., 0.], size: [2., 1., 1.], velocity: [3., 0.5, 0.5] };
    let b = Moving { position: [3., 0., 0.], size: [4., 1., 1.], velocity: [0., 0., 0.] };
    let result = sweep(&a, &b);
    assert_eq!(number(result.time), 1. / 3.);
    assert_eq!(result.normal, Normal { x: -1, y: 0, z: 0 });
}
