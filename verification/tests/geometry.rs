use mgi::geometry::{sin_mdeg, cos_mdeg, Rotation, Size};
use mgi::geometry::rotate_point;
use mgi::Vec2;

#[test]
fn degrees_to_millidegrees() {
    assert_eq!(Rotation::Degrees(45).to_millidegrees(), 45_000);
    assert_eq!(Rotation::Degrees(-360).to_millidegrees(), -360_000);
}

#[test]
fn milliradians_to_millidegrees() {
    // 1 radian is 57.296 degrees in the fixed-point conversion, rounded
    // toward zero, so a negated value converts to the negated angle.
    assert_eq!(Rotation::Milliradians(1000).to_millidegrees(), 57_296);
    assert_eq!(Rotation::Milliradians(1).to_millidegrees(), 57);
    assert_eq!(Rotation::Milliradians(-1).to_millidegrees(), -57);
    assert_eq!(Rotation::Milliradians(-1000).to_millidegrees(), -57_296);
}

#[test]
fn to_degrees_truncates() {
    assert_eq!(Rotation::Degrees(90).to_degrees(), 90);
    assert_eq!(Rotation::Degrees(-90).to_degrees(), -90);
    assert_eq!(Rotation::Milliradians(1000).to_degrees(), 57);
    assert_eq!(Rotation::Milliradians(-1000).to_degrees(), -57);
}

#[test]
fn sine_exact_at_axes() {
    const ONE: i64 = 68_719_476_736;
    assert_eq!(sin_mdeg(0), 0);
    assert_eq!(sin_mdeg(90_000), ONE);
    assert_eq!(sin_mdeg(180_000), 0);
    assert_eq!(sin_mdeg(270_000), -ONE);
    assert_eq!(cos_mdeg(0), ONE);
    assert_eq!(cos_mdeg(90_000), 0);
}

#[test]
fn sine_and_cosine_agree_at_the_eighth_turn() {
    assert_eq!(sin_mdeg(45_000), cos_mdeg(45_000));
    assert_eq!(sin_mdeg(45_000), 48_592_008_000);
}

#[test]
fn sine_is_close_at_thirty_degrees() {
    const ONE: i64 = 68_719_476_736;
    // The half-angle construction approximates the angle: the value may
    // drift by a fraction of a percent but the pair stays on the circle.
    assert!((sin_mdeg(30_000) - ONE / 2).abs() <= ONE / 1000);
    let (c, s) = (cos_mdeg(30_000) as i128, sin_mdeg(30_000) as i128);
    let one = ONE as i128;
    assert!((c * c + s * s - one * one).abs() <= 4 * one + 2);
}

#[test]
fn rotate_identity() {
    let p = Vec2::new(17, -4);
    let c = Vec2::new(3, 9);
    let r = rotate_point(p, Rotation::Degrees(0), c);
    assert_eq!((r.x, r.y), (17, -4));
}

#[test]
fn rotate_quarter_turn_about_origin() {
    // On a y-down screen a positive quarter turn sends (1, 0) to (0, 1).
    let r = rotate_point(Vec2::new(1, 0), Rotation::Degrees(90), Vec2::new(0, 0));
    assert_eq!((r.x, r.y), (0, 1));
}

#[test]
fn rotate_quarter_turn_round_trip() {
    let p = Vec2::new(10, 4);
    let c = Vec2::new(3, 3);
    let once = rotate_point(p, Rotation::Degrees(90), c);
    let back = rotate_point(once, Rotation::Degrees(-90), c);
    assert_eq!((back.x, back.y), (10, 4));
}

#[test]
fn rotate_general_angle_round_trip_within_one_pixel() {
    let cases = [
        ((40, 25), (10, 10), 30),
        ((1000, 0), (0, 0), 30),
        ((123_456, -98_765), (17, -3), 17),
        ((500_000_000, 500_000_000), (-500_000_000, -500_000_000), 1),
        ((-7, 9), (200, -300), 359),
        ((250_000, 0), (0, 0), 45),
    ];
    for ((px, py), (cx, cy), deg) in cases {
        let p = Vec2::new(px, py);
        let c = Vec2::new(cx, cy);
        let once = rotate_point(p, Rotation::Degrees(deg), c);
        let back = rotate_point(once, Rotation::Degrees(-deg), c);
        assert!((back.x - p.x).abs() <= 1, "{deg} deg at ({px},{py})");
        assert!((back.y - p.y).abs() <= 1, "{deg} deg at ({px},{py})");
    }
}

#[test]
fn size_holds_extents() {
    let s = Size::new(640, 480);
    assert_eq!(s.width, 640);
    assert_eq!(s.height, 480);
}

#[test]
fn to_milliradians_is_the_identity_on_its_own_unit() {
    assert_eq!(Rotation::Milliradians(500).to_milliradians(), 500);
    assert_eq!(Rotation::Milliradians(1).to_milliradians(), 1);
    assert_eq!(Rotation::Milliradians(-7).to_milliradians(), -7);
    assert_eq!(Rotation::Degrees(90).to_milliradians(), 90_000_000 / 57_296);
    assert_eq!(Rotation::Degrees(-90).to_milliradians(), -(90_000_000 / 57_296));
}

#[test]
fn vec2_from_pair() {
    let v = Vec2::from((3, -7));
    assert_eq!((v.x, v.y), (3, -7));
}

#[test]
fn vec2_into_pair() {
    let pair: (i32, i32) = Vec2::new(3, -7).into();
    assert_eq!(pair, (3, -7));
}

#[test]
fn rotate_milliradian_round_trip_within_one_pixel() {
    // 57296 * mr is no multiple of 1000 for these values, so the
    // conversion rounds; toward-zero rounding keeps the backward angle
    // the exact mirror of the forward one.
    let cases = [
        ((100_000, 0), (0, 0), 9),
        ((1000, 0), (0, 0), 523),
        ((123_456, -98_765), (17, -3), -311),
        ((250_000, 250_000), (-40, 80), 1571),
    ];
    for ((px, py), (cx, cy), mr) in cases {
        let p = Vec2::new(px, py);
        let c = Vec2::new(cx, cy);
        let once = rotate_point(p, Rotation::Milliradians(mr), c);
        let back = rotate_point(once, Rotation::Milliradians(-mr), c);
        assert!((back.x - p.x).abs() <= 1, "{mr} mrad at ({px},{py})");
        assert!((back.y - p.y).abs() <= 1, "{mr} mrad at ({px},{py})");
    }
}

#[test]
fn rotation_keeps_the_center_fixed() {
    let c = Vec2::new(12, -5);
    for d in [0, 17, 90, 123, -45, 360] {
        let r = rotate_point(c, Rotation::Degrees(d), c);
        assert_eq!((r.x, r.y), (c.x, c.y), "degrees {d}");
    }
}
