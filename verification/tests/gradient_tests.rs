use weather_charts::gradient::{GradientPoint, MultiPointGradient, Rgb};

fn two_point_gradient() -> MultiPointGradient {
    MultiPointGradient::new(vec![
        GradientPoint::from_rgb(10, [0, 200, 50]),
        GradientPoint::from_rgb(20, [100, 100, 50]),
    ])
}

#[test]
fn gradient_exact_at_control_points() {
    let g = two_point_gradient();
    assert_eq!(g.color_at(10), Rgb { red: 0, green: 200, blue: 50 });
    assert_eq!(g.color_at(20), Rgb { red: 100, green: 100, blue: 50 });
}

#[test]
fn gradient_clamps_outside_the_points() {
    let g = two_point_gradient();
    assert_eq!(g.color_at(0), Rgb { red: 0, green: 200, blue: 50 });
    assert_eq!(g.color_at(9), Rgb { red: 0, green: 200, blue: 50 });
    assert_eq!(g.color_at(21), Rgb { red: 100, green: 100, blue: 50 });
    assert_eq!(g.color_at(1000), Rgb { red: 100, green: 100, blue: 50 });
}

#[test]
fn gradient_interpolates_each_channel() {
    let g = two_point_gradient();
    // halfway: red blends up, green blends down, blue stays put
    assert_eq!(g.color_at(15), Rgb { red: 50, green: 150, blue: 50 });
}

#[test]
fn gradient_channels_stay_between_the_endpoints() {
    let g = two_point_gradient();
    for pos in 10..=20 {
        let c = g.color_at(pos);
        assert!(c.red <= 100);
        assert!((100..=200).contains(&c.green));
        assert_eq!(c.blue, 50);
    }
}

#[test]
fn gradient_with_one_point_is_constant() {
    let g = MultiPointGradient::new(vec![GradientPoint::from_rgb(7, [1, 2, 3])]);
    for pos in [0, 7, 1000] {
        assert_eq!(g.color_at(pos), Rgb { red: 1, green: 2, blue: 3 });
    }
}

#[test]
fn gradient_rounds_to_nearest() {
    let g = MultiPointGradient::new(vec![
        GradientPoint::from_rgb(0, [0, 0, 0]),
        GradientPoint::from_rgb(3, [10, 0, 0]),
    ]);
    // 10 * 1 / 3 = 3.33 rounds down, 10 * 2 / 3 = 6.67 rounds up
    assert_eq!(g.color_at(1).red, 3);
    assert_eq!(g.color_at(2).red, 7);
}

#[test]
fn gradient_three_points_pick_their_segment() {
    let g = MultiPointGradient::new(vec![
        GradientPoint::from_rgb(0, [0, 0, 0]),
        GradientPoint::from_rgb(10, [100, 0, 0]),
        GradientPoint::from_rgb(30, [200, 0, 0]),
    ]);
    assert_eq!(g.color_at(5).red, 50);
    assert_eq!(g.color_at(10).red, 100);
    assert_eq!(g.color_at(20).red, 150);
    assert_eq!(g.color_at(30).red, 200);
}
