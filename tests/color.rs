use connect_k::color::hsva_to_rgba;

#[test]
fn pure_red() {
    assert_eq!(hsva_to_rgba([0, 100, 100, 255]), [255, 0, 0, 255]);
}

#[test]
fn pure_green_at_a_third_of_the_circle() {
    assert_eq!(hsva_to_rgba([85, 100, 100, 255]), [0, 255, 0, 255]);
}

#[test]
fn second_of_two_player_colours() {
    assert_eq!(hsva_to_rgba([128, 100, 100, 255]), [0, 252, 255, 255]);
}

#[test]
fn half_saturation_and_alpha_kept() {
    assert_eq!(hsva_to_rgba([0, 50, 100, 7]), [255, 127, 127, 7]);
}

#[test]
fn zero_value_is_black() {
    assert_eq!(hsva_to_rgba([200, 100, 0, 255]), [0, 0, 0, 255]);
}

#[test]
fn last_sextant() {
    // hue 240: sixth 5, ramp 255 - |1440 % 510 - 255| = 90
    assert_eq!(hsva_to_rgba([240, 100, 100, 255]), [255, 0, 90, 255]);
}
