use gradient::color::{get_channels, rgb_from_triple, Channels, RGB};
use gradient::driver::calculate_gradient;
use gradient::interp::{closest_whole_numbers, find_slope, find_y, Point};
use gradient::rat::Rat;

fn rat(num: i64, den: i64) -> Rat {
    Rat { num, den }
}

fn point(x: Rat, y: Rat) -> Point {
    Point { x, y }
}

#[test]
fn get_channels_test() {
    let channels = get_channels(vec![
        rgb_from_triple(&vec![12, 16, 24]),
        rgb_from_triple(&vec![15, 19, 24]),
        rgb_from_triple(&vec![42, 14, 44]),
    ]);

    let correct_channels = Channels {
        red: vec![12, 15, 42],
        green: vec![16, 19, 14],
        blue: vec![24, 24, 44],
    };

    assert_eq!(correct_channels, channels);
}

#[test]
fn find_slope_test() {
    assert!(find_slope(point(rat(0, 1), rat(2, 1)), point(rat(4, 1), rat(5, 1)))
        .value_eq(&rat(3, 4)));
    assert!(find_slope(point(rat(0, 1), rat(1, 1)), point(rat(2, 1), rat(2, 1)))
        .value_eq(&rat(1, 2)));
    assert!(find_slope(point(rat(-2, 1), rat(1, 1)), point(rat(1, 1), rat(2, 1)))
        .value_eq(&rat(1, 3)));
}

#[test]
fn closest_whole_numbers_test() {
    assert_eq!(closest_whole_numbers(rat(1, 10)), (rat(0, 1), rat(1, 1)));
    assert_eq!(closest_whole_numbers(rat(1, 1)), (rat(1, 1), rat(1, 1)));
    assert_eq!(closest_whole_numbers(rat(22, 5)), (rat(4, 1), rat(5, 1)));
    assert_eq!(closest_whole_numbers(rat(5, 1)), (rat(5, 1), rat(5, 1)));
    assert_eq!(closest_whole_numbers(rat(42, 5)), (rat(8, 1), rat(9, 1)));
}

#[test]
fn find_y_test() {
    let known_x = vec![12, 23, 30, 49, 53, 54, 41, 32, 29];

    assert!(find_y(rat(0, 1), &known_x).unwrap().value_eq(&rat(12, 1)));
    assert!(find_y(rat(14, 10), &known_x).unwrap().value_eq(&rat(258, 10)));
    assert!(find_y(rat(2, 1), &known_x).unwrap().value_eq(&rat(30, 1)));
    assert!(find_y(rat(22, 10), &known_x).unwrap().value_eq(&rat(338, 10)));
    assert!(find_y(rat(3, 1), &known_x).unwrap().value_eq(&rat(49, 1)));
    assert!(find_y(rat(38, 10), &known_x).unwrap().value_eq(&rat(522, 10)));
    assert!(find_y(rat(48, 10), &known_x).unwrap().value_eq(&rat(538, 10)));
    assert!(find_y(rat(58, 10), &known_x).unwrap().value_eq(&rat(436, 10)));
}

#[test]
fn find_y_keeps_the_query_denominator() {
    let known_x = vec![12, 23, 30];
    assert_eq!(find_y(rat(14, 10), &known_x).unwrap(), rat(258, 10));
    assert_eq!(find_y(rat(1, 1), &known_x).unwrap(), rat(23, 1));
}

#[test]
fn out_of_range_queries_fault() {
    let known_x = vec![12, 23, 30, 49, 53, 54, 41, 32, 29];
    assert!(find_y(rat(-1, 1), &known_x).is_err());
    assert!(find_y(rat(9, 1), &known_x).is_err());
    assert!(find_y(rat(-1, 10), &known_x).is_err());
    assert!(find_y(rat(85, 10), &known_x).is_err());
    let empty: Vec<i8> = Vec::new();
    assert!(find_y(rat(0, 1), &empty).is_err());
}

#[test]
fn slope_is_symmetric_in_its_points() {
    let a = point(rat(0, 1), rat(2, 1));
    let b = point(rat(4, 1), rat(5, 1));
    let forward = find_slope(a, b);
    let backward = find_slope(b, a);
    assert!(forward.value_eq(&backward));
}

#[test]
fn slope_between_level_points_is_zero() {
    let a = point(rat(0, 1), rat(2, 1));
    let b = point(rat(4, 1), rat(2, 1));
    let forward = find_slope(a, b);
    let backward = find_slope(b, a);
    assert!(forward.value_eq(&rat(0, 1)));
    assert!(forward.value_eq(&Rat { num: -backward.num, den: backward.den }));
}

#[test]
fn value_eq_compares_values_not_representations() {
    assert!(rat(1, 2).value_eq(&rat(2, 4)));
    assert!(!rat(1, 2).value_eq(&rat(1, 3)));
    assert!(rat(0, 7).value_eq(&rat(0, 1)));
}

#[test]
fn channel_split_roundtrip() {
    let colors = vec![
        rgb_from_triple(&vec![12, 16, 24]),
        rgb_from_triple(&vec![15, 19, 24]),
        rgb_from_triple(&vec![42, 14, 44]),
    ];
    let channels = get_channels(colors.clone());
    for i in 0..colors.len() {
        let rebuilt = RGB { r: channels.red[i], g: channels.green[i], b: channels.blue[i] };
        assert_eq!(rebuilt, colors[i]);
    }
}

#[test]
fn triple_construction_wraps_out_of_range_components() {
    let c = rgb_from_triple(&vec![300, -1, 130]);
    assert_eq!(c, RGB { r: 44, g: -1, b: -126 });
    let d = rgb_from_triple(&vec![-256, 256, 127]);
    assert_eq!(d, RGB { r: 0, g: 0, b: 127 });
}

#[test]
fn gradient_of_three_anchors() {
    let colors = calculate_gradient(vec![
        rgb_from_triple(&vec![12, 16, 24]),
        rgb_from_triple(&vec![15, 19, 24]),
        rgb_from_triple(&vec![42, 14, 44]),
    ])
    .unwrap();

    assert_eq!(colors.len(), 100);
    // the first sample hits the first anchor exactly
    assert_eq!(colors[0], RGB { r: 12, g: 16, b: 24 });
    // sample 50 sits exactly on the middle anchor
    assert_eq!(colors[50], RGB { r: 15, g: 19, b: 24 });
    // the last sample approaches the last anchor without reaching it
    assert_eq!(colors[99], RGB { r: 41, g: 14, b: 43 });
    assert_ne!(colors[99], RGB { r: 42, g: 14, b: 44 });
}

#[test]
fn gradient_truncates_toward_zero() {
    let colors =
        calculate_gradient(vec![rgb_from_triple(&vec![-10, 0, 10]), rgb_from_triple(&vec![10, 0, -10])])
            .unwrap();
    assert_eq!(colors.len(), 100);
    // sample 33 sits at -3.4 / 0.0 / 3.4; both ends truncate toward zero
    assert_eq!(colors[33], RGB { r: -3, g: 0, b: 3 });
}

#[test]
fn single_anchor_gradient_repeats_the_anchor() {
    let colors = calculate_gradient(vec![rgb_from_triple(&vec![5, 5, 5])]).unwrap();
    assert_eq!(colors.len(), 100);
    for c in colors.iter() {
        assert_eq!(*c, RGB { r: 5, g: 5, b: 5 });
    }
}

#[test]
fn empty_anchor_gradient_faults() {
    assert!(calculate_gradient(Vec::new()).is_err());
}
