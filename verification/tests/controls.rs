use paint_plus::controller::Controller;
use paint_plus::controls::parse_color;
use paint_plus::controls::parse_width;

#[test]
fn width_values_in_range_parse_exactly() {
    assert_eq!(parse_width(&b"1".to_vec()), Some(1));
    assert_eq!(parse_width(&b"3".to_vec()), Some(3));
    assert_eq!(parse_width(&b"9".to_vec()), Some(9));
    assert_eq!(parse_width(&b"10".to_vec()), Some(10));
}

#[test]
fn width_values_out_of_range_are_clamped() {
    assert_eq!(parse_width(&b"0".to_vec()), Some(1));
    assert_eq!(parse_width(&b"11".to_vec()), Some(10));
    assert_eq!(parse_width(&b"99".to_vec()), Some(10));
}

#[test]
fn malformed_width_values_are_rejected() {
    assert_eq!(parse_width(&b"".to_vec()), None);
    assert_eq!(parse_width(&b"x".to_vec()), None);
    assert_eq!(parse_width(&b"1a".to_vec()), None);
    assert_eq!(parse_width(&b"123".to_vec()), None);
    assert_eq!(parse_width(&b"-1".to_vec()), None);
    assert_eq!(parse_width(&b"3.5".to_vec()), None);
}

#[test]
fn color_values_parse_exactly() {
    assert_eq!(parse_color(&b"#000000".to_vec()), Some(0x000000));
    assert_eq!(parse_color(&b"#ff0000".to_vec()), Some(0xff0000));
    assert_eq!(parse_color(&b"#00FF00".to_vec()), Some(0x00ff00));
    assert_eq!(parse_color(&b"#123abc".to_vec()), Some(0x123abc));
    assert_eq!(parse_color(&b"#ffffff".to_vec()), Some(0xffffff));
}

#[test]
fn malformed_color_values_are_rejected() {
    assert_eq!(parse_color(&b"".to_vec()), None);
    assert_eq!(parse_color(&b"ff0000".to_vec()), None);
    assert_eq!(parse_color(&b"#ff000".to_vec()), None);
    assert_eq!(parse_color(&b"#ff00000".to_vec()), None);
    assert_eq!(parse_color(&b"#gg0000".to_vec()), None);
}

#[test]
fn parsed_values_drive_the_paint_attributes() {
    let mut c = Controller::new(640, 480);
    if let Some(w) = parse_width(&b"7".to_vec()) {
        c.set_stroke_width(w);
    }
    if let Some(color) = parse_color(&b"#abcdef".to_vec()) {
        c.set_stroke_color(color);
    }
    c.pointer_down(0, 0);
    c.pointer_up(5, 5);
    assert_eq!(c.surface.segments[0].width, 7);
    assert_eq!(c.surface.segments[0].color, 0xabcdef);
}
