use torus::angle::{sweep, RING_STEP_MICRO, TAU_MICRO, TUBE_STEP_MICRO};
use torus::fixed::{ONE, UNITY};
use torus::{Angle, Point, Torus};

fn angle(radians: f64) -> Angle {
    let cos = (radians.cos() * 1e18).round() as i64;
    let sin = (radians.sin() * 1e18).round() as i64;
    Angle::new(cos, sin).unwrap()
}

fn table(step: i64) -> Vec<Angle> {
    let mut angles = Vec::new();
    for micro in sweep(step) {
        angles.push(angle(micro as f64 / 1e6));
    }
    angles
}

fn norm(p: Point) -> f64 {
    let x = p.x as f64 / 1e12;
    let y = p.y as f64 / 1e12;
    let z = p.z as f64 / 1e12;
    (x * x + y * y + z * z).sqrt()
}

fn squared(p: Point) -> i128 {
    let x = p.x as i128;
    let y = p.y as i128;
    let z = p.z as i128;
    x * x + y * y + z * z
}

fn three_four_five() -> Angle {
    Angle::new(600_000_000_000_000_000, 800_000_000_000_000_000).unwrap()
}

fn four_three_five() -> Angle {
    Angle::new(800_000_000_000_000_000, 600_000_000_000_000_000).unwrap()
}

fn quarter_turn() -> Angle {
    Angle::new(0, UNITY).unwrap()
}

#[test]
fn sweep_of_the_ring_has_ninety_angles() {
    let angles = sweep(RING_STEP_MICRO);
    assert_eq!(angles.len(), 90);
    assert_eq!(angles[0], 0);
    assert_eq!(angles[1], 70_000);
    assert_eq!(angles[89], 6_230_000);
}

#[test]
fn sweep_of_the_tube_has_three_hundred_and_fifteen_angles() {
    let angles = sweep(TUBE_STEP_MICRO);
    assert_eq!(angles.len(), 315);
    assert_eq!(angles[0], 0);
    assert_eq!(angles[314], 6_280_000);
}

#[test]
fn sweep_stops_short_of_a_full_turn() {
    assert_eq!(sweep(TAU_MICRO), vec![0, 6_283_185]);
    assert_eq!(sweep(TAU_MICRO + 1), vec![0]);
    assert_eq!(sweep(i64::MAX), vec![0]);
    assert_eq!(sweep(3_000_000), vec![0, 3_000_000, 6_000_000]);
    assert_eq!(sweep(1).len(), 6_283_186);
}

#[test]
fn angle_takes_what_lies_on_the_circle() {
    let a = Angle::new(600_000_000_000_000_000, 800_000_000_000_000_000).unwrap();
    assert_eq!(a.cos(), 600_000_000_000_000_000);
    assert_eq!(a.sin(), 800_000_000_000_000_000);
    assert!(Angle::new(-UNITY, 0).is_some());
    assert!(Angle::new(0, -UNITY).is_some());
    assert!(Angle::new(540_302_305_868_139_776, 841_470_984_807_896_448).is_some());
}

#[test]
fn angle_takes_the_cosine_and_sine_of_the_machine() {
    let mut radians = -7.0f64;
    while radians < 7.0 {
        let cos = (radians.cos() * 1e18).round() as i64;
        let sin = (radians.sin() * 1e18).round() as i64;
        assert!(Angle::new(cos, sin).is_some());
        radians += 0.001;
    }
}

#[test]
fn angle_refuses_what_lies_off_the_circle() {
    assert!(Angle::new(0, 0).is_none());
    assert!(Angle::new(UNITY, UNITY).is_none());
    assert!(Angle::new(UNITY + 1, 0).is_none());
    assert!(Angle::new(0, -UNITY - 1).is_none());
    assert!(Angle::new(i64::MAX, i64::MIN).is_none());
    assert!(Angle::new(500_000_000_000_000_000, 500_000_000_000_000_000).is_none());
}

#[test]
fn angle_refuses_a_pair_rounded_to_the_billionth() {
    assert!(Angle::new(540_302_306_000_000_000, 841_470_985_000_000_000).is_none());
    assert!(Angle::new(997_551_000_000_000_000, 69_942_847_000_000_000).is_none());
}

#[test]
fn angle_tolerance_is_the_slack() {
    assert!(Angle::new(UNITY, 141_421_356_237).is_some());
    assert!(Angle::new(UNITY, 141_421_356_238).is_none());
    assert!(Angle::new(UNITY - 10_000, 0).is_some());
    assert!(Angle::new(UNITY - 10_001, 0).is_none());
}

#[test]
fn zero_angle_has_cosine_one() {
    let zero = Angle::zero();
    assert_eq!(zero.cos(), UNITY);
    assert_eq!(zero.sin(), 0);
}

#[test]
fn surface_point_follows_the_formula() {
    let zero = Angle::zero();
    assert_eq!(
        Point::on_surface(5 * ONE, 2 * ONE, zero, zero),
        Point { x: 7_000_000_000_000, y: 0, z: 0 }
    );
    assert_eq!(
        Point::on_surface(5 * ONE, 2 * ONE, zero, quarter_turn()),
        Point { x: 5_000_000_000_000, y: 2_000_000_000_000, z: 0 }
    );
    assert_eq!(
        Point::on_surface(5 * ONE, 2 * ONE, quarter_turn(), zero),
        Point { x: 0, y: 0, z: -7_000_000_000_000 }
    );
    assert_eq!(
        Point::on_surface(5 * ONE, 2 * ONE, three_four_five(), four_three_five()),
        Point { x: 3_960_000_000_000, y: 1_200_000_000_000, z: -5_280_000_000_000 }
    );
}

#[test]
fn surface_point_saturates() {
    let zero = Angle::zero();
    assert_eq!(
        Point::on_surface(i64::MAX, i64::MAX, zero, zero),
        Point { x: i64::MAX, y: 0, z: 0 }
    );
    assert_eq!(
        Point::on_surface(i64::MIN, i64::MIN, zero, zero),
        Point { x: i64::MIN, y: 0, z: 0 }
    );
}

#[test]
fn cloud_has_one_point_for_each_pair_of_angles() {
    let outer = table(RING_STEP_MICRO);
    let inner = table(TUBE_STEP_MICRO);
    let torus = Torus::create_torus(5 * ONE, 2 * ONE, &outer, &inner);
    assert_eq!(torus.len(), 90 * 315);
    assert_eq!(torus.len(), 28_350);
    assert_eq!(torus.point(28_350), None);
}

#[test]
fn cloud_runs_round_the_tube_within_each_step_round_the_hole() {
    let outer = table(RING_STEP_MICRO);
    let inner = table(TUBE_STEP_MICRO);
    let torus = Torus::create_torus(5 * ONE, 2 * ONE, &outer, &inner);
    for i in 0..outer.len() {
        for j in 0..inner.len() {
            assert_eq!(
                torus.point(i * inner.len() + j),
                Some(Point::on_surface(5 * ONE, 2 * ONE, outer[i], inner[j]))
            );
        }
    }
    assert_eq!(torus.point(0), Some(Point { x: 7_000_000_000_000, y: 0, z: 0 }));
}

#[test]
fn cloud_is_the_same_every_time() {
    let outer = table(RING_STEP_MICRO);
    let inner = table(TUBE_STEP_MICRO);
    let first = Torus::create_torus(5 * ONE, 2 * ONE, &outer, &inner);
    let second = Torus::create_torus(5 * ONE, 2 * ONE, &outer, &inner);
    assert_eq!(first.len(), second.len());
    for k in 0..first.len() {
        assert_eq!(first.point(k), second.point(k));
    }
}

#[test]
fn cloud_of_small_tables() {
    let outer = vec![Angle::zero(), quarter_turn()];
    let inner = vec![Angle::zero(), quarter_turn(), three_four_five()];
    let torus = Torus::create_torus(5 * ONE, 2 * ONE, &outer, &inner);
    assert_eq!(torus.len(), 6);
    assert_eq!(torus.point(0), Some(Point { x: 7_000_000_000_000, y: 0, z: 0 }));
    assert_eq!(torus.point(1), Some(Point { x: 5_000_000_000_000, y: 2_000_000_000_000, z: 0 }));
    assert_eq!(torus.point(2), Some(Point { x: 6_200_000_000_000, y: 1_600_000_000_000, z: 0 }));
    assert_eq!(torus.point(3), Some(Point { x: 0, y: 0, z: -7_000_000_000_000 }));
    assert_eq!(torus.point(4), Some(Point { x: 0, y: 2_000_000_000_000, z: -5_000_000_000_000 }));
    assert_eq!(torus.point(5), Some(Point { x: 0, y: 1_600_000_000_000, z: -6_200_000_000_000 }));
    assert_eq!(torus.point(6), None);
}

#[test]
fn cloud_of_an_empty_table_is_empty() {
    let none: Vec<Angle> = Vec::new();
    let some = vec![Angle::zero()];
    assert_eq!(Torus::create_torus(5 * ONE, 2 * ONE, &none, &some).len(), 0);
    assert_eq!(Torus::create_torus(5 * ONE, 2 * ONE, &some, &none).len(), 0);
}

#[test]
fn rotation_follows_the_formula() {
    let p = Point { x: ONE, y: 2 * ONE, z: 3 * ONE };
    assert_eq!(
        p.rotate(three_four_five(), Angle::zero()),
        Point { x: 1_000_000_000_000, y: -1_200_000_000_000, z: 3_400_000_000_000 }
    );
    assert_eq!(
        p.rotate(Angle::zero(), three_four_five()),
        Point { x: -1_000_000_000_000, y: 2_000_000_000_000, z: 3_000_000_000_000 }
    );
    assert_eq!(
        p.rotate(three_four_five(), four_three_five()),
        Point { x: 1_520_000_000_000, y: -360_000_000_000, z: 3_400_000_000_000 }
    );
}

#[test]
fn rotation_rounds_to_the_nearest_billionth() {
    let b = three_four_five();
    let zero = Angle::zero();
    assert_eq!(Point { x: 1, y: 0, z: 0 }.rotate(zero, b), Point { x: 1, y: 1, z: 0 });
    assert_eq!(Point { x: -1, y: 0, z: 0 }.rotate(zero, b), Point { x: -1, y: -1, z: 0 });
    assert_eq!(Point { x: 5, y: 0, z: 0 }.rotate(zero, b), Point { x: 3, y: 4, z: 0 });
}

#[test]
fn rotation_saturates() {
    let p = Point { x: i64::MAX, y: i64::MAX, z: 0 };
    assert_eq!(
        p.rotate(Angle::zero(), three_four_five()),
        Point { x: -1_844_674_407_370_955_161, y: i64::MAX, z: 0 }
    );
    let q = Point { x: i64::MIN, y: i64::MIN, z: i64::MIN };
    assert_eq!(
        q.rotate(three_four_five(), three_four_five()),
        Point { x: -7_009_762_748_009_629_614, y: -6_271_892_985_061_247_549, z: i64::MIN }
    );
}

#[test]
fn rotation_of_a_real_point() {
    let p = Point::on_surface(5 * ONE, 2 * ONE, angle(0.07), angle(0.02));
    assert_eq!(
        p.rotate(angle(1.0), angle(0.0)),
        Point { x: 6_982_457_994_673, y: 433_571_246_697, z: -230_860_260_744 }
    );
}

#[test]
fn rotation_keeps_the_distance_from_the_origin() {
    let outer = table(RING_STEP_MICRO);
    let inner = table(TUBE_STEP_MICRO);
    let mut torus = Torus::create_torus(5 * ONE, 2 * ONE, &outer, &inner);
    let mut before = Vec::new();
    for k in 0..torus.len() {
        before.push(norm(torus.point(k).unwrap()));
    }
    torus.rotate(angle(0.3), angle(-0.2));
    for k in 0..torus.len() {
        let after = norm(torus.point(k).unwrap());
        assert!((after - before[k]).abs() < 1e-9);
    }
}

#[test]
fn rotation_by_exact_angles_keeps_the_distance() {
    let mut torus = Torus::from_points(vec![
        Point { x: ONE, y: 2 * ONE, z: 3 * ONE },
        Point { x: -7 * ONE, y: 0, z: 4 * ONE },
        Point { x: 123_456_789, y: -987_654_321, z: 555_555_555 },
    ]);
    let mut before = Vec::new();
    for k in 0..torus.len() {
        before.push(norm(torus.point(k).unwrap()));
    }
    torus.rotate(three_four_five(), four_three_five());
    for k in 0..torus.len() {
        let after = norm(torus.point(k).unwrap());
        assert!((after - before[k]).abs() < 1e-9);
    }
}

#[test]
fn rotation_by_zero_angles_changes_nothing() {
    let outer = table(RING_STEP_MICRO);
    let inner = table(TUBE_STEP_MICRO);
    let mut torus = Torus::create_torus(5 * ONE, 2 * ONE, &outer, &inner);
    let mut before = Vec::new();
    for k in 0..torus.len() {
        before.push(torus.point(k).unwrap());
    }
    torus.rotate(Angle::zero(), Angle::zero());
    torus.rotate(angle(0.0), angle(0.0));
    assert_eq!(torus.len(), before.len());
    for k in 0..torus.len() {
        assert_eq!(torus.point(k), Some(before[k]));
    }
}

#[test]
fn rotation_by_zero_angles_keeps_the_ends_of_the_range() {
    let p = Point { x: i64::MAX, y: i64::MIN, z: -1 };
    assert_eq!(p.rotate(Angle::zero(), Angle::zero()), p);
}

#[test]
fn rotation_turns_every_point_of_the_cloud() {
    let points = vec![
        Point { x: ONE, y: 2 * ONE, z: 3 * ONE },
        Point { x: 5, y: 0, z: 0 },
        Point { x: 0, y: 0, z: 0 },
    ];
    let mut torus = Torus::from_points(points.clone());
    torus.rotate(three_four_five(), four_three_five());
    assert_eq!(torus.len(), 3);
    for k in 0..3 {
        assert_eq!(
            torus.point(k),
            Some(points[k].rotate(three_four_five(), four_three_five()))
        );
    }
    assert_eq!(
        torus.point(0),
        Some(Point { x: 1_520_000_000_000, y: -360_000_000_000, z: 3_400_000_000_000 })
    );
}

#[test]
fn two_rotations_are_not_one_by_the_sums() {
    let p = Point { x: ONE, y: 2 * ONE, z: 3 * ONE };
    let in_two = p.rotate(angle(0.3), angle(0.2)).rotate(angle(0.1), angle(0.4));
    let in_one = p.rotate(angle(0.3 + 0.1), angle(0.2 + 0.4));
    assert_eq!(in_two, Point { x: 383_817_052_093, y: 1_086_461_266_669, z: 3_559_815_498_947 });
    assert_eq!(in_one, Point { x: 444_841_707_266, y: 1_120_808_876_085, z: 3_542_019_666_626 });
    assert_ne!(in_two, in_one);
    assert!((in_two.x - in_one.x).abs() > 10_000_000_000);
}

#[test]
fn set_luminance_leaves_the_torus_alone() {
    let points = vec![Point { x: ONE, y: 2 * ONE, z: 3 * ONE }];
    let mut torus = Torus::from_points(points.clone());
    torus.set_luminance((0, 0, -ONE));
    assert_eq!(torus.len(), 1);
    assert_eq!(torus.point(0), Some(points[0]));
    assert_eq!(torus.projection_at(0, 0), Some(0));
    assert_eq!(torus.luminance_at(0, 0), Some(0));
}

#[test]
fn rotation_keeps_the_distance_of_far_points_to_a_billionth() {
    let outer = table(RING_STEP_MICRO);
    let inner = table(TUBE_STEP_MICRO);
    let torus = Torus::create_torus(600 * ONE, 300 * ONE, &outer, &inner);
    let turns = [
        (angle(1.0), angle(0.0)),
        (angle(0.3), angle(-0.3)),
        (angle(-2.5), angle(4.0)),
        (Angle::new(UNITY, 141_421_356_237).unwrap(), Angle::new(UNITY - 10_000, 0).unwrap()),
        (three_four_five(), four_three_five()),
    ];
    for (a, b) in turns {
        for k in 0..torus.len() {
            let p = torus.point(k).unwrap();
            let q = p.rotate(a, b);
            assert!(norm(p) <= 1000.0);
            assert!((norm(q) - norm(p)).abs() < 1e-9);
        }
    }
    let far = Point { x: 0, y: 0, z: 1000 * ONE };
    assert!((norm(far.rotate(angle(1.0), angle(0.0))) - 1000.0).abs() < 1e-9);
}

#[test]
fn rotation_stays_within_the_tolerance_of_the_length() {
    let p = Point { x: 0, y: 0, z: 1000 * ONE };
    let q = p.rotate(angle(1.0), angle(0.0));
    let length = 1000 * ONE as i128;
    assert!(squared(q) <= (length + 100) * (length + 100));
    assert!(squared(q) >= (length - 100) * (length - 100));
}

#[test]
fn rotation_is_undone_by_the_negative_angle() {
    let outer = table(RING_STEP_MICRO);
    let inner = table(TUBE_STEP_MICRO);
    let torus = Torus::create_torus(600 * ONE, 300 * ONE, &outer, &inner);
    for t in [1.0f64, 0.3, -2.5] {
        for k in 0..torus.len() {
            let p = torus.point(k).unwrap();
            let there = p.rotate(angle(t), Angle::zero()).rotate(angle(-t), Angle::zero());
            let back = p.rotate(Angle::zero(), angle(t)).rotate(Angle::zero(), angle(-t));
            for q in [there, back] {
                assert!((q.x - p.x).abs() <= 50);
                assert!((q.y - p.y).abs() <= 50);
                assert!((q.z - p.z).abs() <= 50);
            }
        }
    }
    let far = Point { x: 0, y: 0, z: 1000 * ONE };
    let q = far.rotate(angle(1.0), Angle::zero()).rotate(angle(-1.0), Angle::zero());
    assert!((q.z - far.z).abs() <= 50);
    assert!(q.x == 0 && q.y.abs() <= 50);
}

#[test]
fn points_of_a_wide_torus_lie_on_its_surface() {
    let outer = table(RING_STEP_MICRO);
    let inner = table(TUBE_STEP_MICRO);
    let torus = Torus::create_torus(1000 * ONE, 1000 * ONE, &outer, &inner);
    for k in 0..torus.len() {
        let p = torus.point(k).unwrap();
        let x = p.x as f64 / 1e12;
        let y = p.y as f64 / 1e12;
        let z = p.z as f64 / 1e12;
        let off = ((x * x + z * z).sqrt() - 1000.0).powi(2) + y * y - 1000.0 * 1000.0;
        assert!(off.abs() < 1e-6);
    }
}

#[test]
fn rotation_by_the_widest_pair_scales_by_less_than_a_trillionth_of_a_unit() {
    let stretched = Angle::new(UNITY, 141_421_356_237).unwrap();
    let p = Point { x: 0, y: 7 * ONE, z: 0 };
    let q = p.rotate(stretched, Angle::zero());
    assert_eq!(q, Point { x: 0, y: 7 * ONE, z: 989_949 });
    assert!(squared(q) > squared(p));
    assert!(squared(q) < (7 * ONE as i128 + 1) * (7 * ONE as i128 + 1));
}

#[test]
fn turn_by_parts_keeps_a_point_of_the_axis_in_its_plane() {
    let p = Point { x: 0, y: 0, z: 7 * ONE };
    let a = three_four_five();
    let b = four_three_five();
    let in_two = p.rotate(Angle::zero(), b).rotate(a, Angle::zero());
    let in_one = p.rotate(a, b);
    assert_eq!(in_two, Point { x: 0, y: -5_600_000_000_000, z: 4_200_000_000_000 });
    assert_eq!(in_one, Point { x: 3_360_000_000_000, y: -4_480_000_000_000, z: 4_200_000_000_000 });
    assert_eq!(in_two.x, 0);
    assert_ne!(in_one.x, 0);
}
