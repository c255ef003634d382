use paint_plus::codec::decode_image;
use paint_plus::codec::encode_image;
use paint_plus::controller::Controller;
use paint_plus::surface::Point;
use paint_plus::surface::Segment;

fn seg(fx: i32, fy: i32, tx: i32, ty: i32, color: u32, width: u32) -> Segment {
    Segment { from: Point { x: fx, y: fy }, to: Point { x: tx, y: ty }, color, width }
}

#[test]
fn saved_snapshot_restores_to_the_same_image() {
    let mut c = Controller::new(640, 480);
    c.set_stroke_color(0x00ff00);
    c.set_stroke_width(4);
    c.pointer_down(10, 10);
    c.pointer_move(50, 50);
    let saved = c.pointer_up(50, 50).expect("a completed stroke saves");
    let painted = c.surface.segments.clone();

    let mut fresh = Controller::new(640, 480);
    fresh.load_if_present(Some(&saved));
    assert_eq!(fresh.surface.segments, painted);
}

#[test]
fn encode_decode_roundtrip_on_values() {
    let image = vec![
        seg(0, 0, 1, 1, 0, 1),
        seg(-5, -7, 640, 480, 0xffffff, 10),
        seg(i32::MIN, i32::MAX, -1, 1, 0xdeadbe, 3),
    ];
    let encoded = encode_image(&image);
    let decoded = decode_image(&encoded).expect("an encoded image decodes");
    assert_eq!(decoded, image);
}

#[test]
fn encoding_has_the_documented_shape() {
    let image = vec![seg(1, 2, 3, 4, 0xff0000, 5)];
    let encoded = encode_image(&image);
    assert_eq!(
        encoded,
        b"8000000180000002800000038000000400ff000000000005".to_vec()
    );
}

#[test]
fn empty_image_encodes_to_nothing() {
    let encoded = encode_image(&Vec::new());
    assert_eq!(encoded, Vec::<u8>::new());
    assert_eq!(decode_image(&encoded), Some(Vec::new()));
}

#[test]
fn uppercase_digits_decode_too() {
    let lower = b"8000000180000002800000038000000400ff000000000005".to_vec();
    let upper = b"8000000180000002800000038000000400FF000000000005".to_vec();
    assert_eq!(decode_image(&lower), decode_image(&upper));
}

#[test]
fn malformed_snapshots_are_rejected() {
    assert_eq!(decode_image(&b"80000001".to_vec()), None);
    assert_eq!(
        decode_image(&b"8000000180000002800000038000000400ff0000000000xx".to_vec()),
        None
    );
    let trailing = b"8000000180000002800000038000000400ff00000000000500".to_vec();
    assert_eq!(decode_image(&trailing), None);
}

#[test]
fn load_if_present_with_empty_storage_is_a_noop() {
    let mut c = Controller::new(640, 480);
    c.load_if_present(None);
    assert_eq!(c.surface.segments.len(), 0);
    assert_eq!(c.surface.color, 0);
    assert_eq!(c.surface.line_width, 3);
}

#[test]
fn load_if_present_with_garbage_is_a_noop() {
    let mut c = Controller::new(640, 480);
    c.pointer_down(0, 0);
    c.pointer_up(1, 1);
    let painted = c.surface.segments.clone();
    c.load_if_present(Some(&b"not a snapshot".to_vec()));
    assert_eq!(c.surface.segments, painted);
}

#[test]
fn restored_image_is_drawn_on_top_of_not_replaced_by_strokes() {
    let mut first = Controller::new(640, 480);
    first.pointer_down(10, 10);
    first.pointer_move(20, 20);
    let stored = first.pointer_up(20, 20).expect("a completed stroke saves");
    let prior = first.surface.segments.clone();

    let mut second = Controller::new(640, 480);
    second.load_if_present(Some(&stored));
    assert_eq!(second.surface.segments, prior);
    second.pointer_down(100, 100);
    second.pointer_move(110, 110);
    let saved = second.pointer_up(110, 110).expect("a completed stroke saves");
    assert_eq!(&second.surface.segments[..prior.len()], &prior[..]);
    assert_eq!(second.surface.segments.len(), prior.len() + 2);

    let mut third = Controller::new(640, 480);
    third.load_if_present(Some(&saved));
    assert_eq!(third.surface.segments, second.surface.segments);
}

#[test]
fn surface_snapshot_matches_the_saved_value() {
    let mut c = Controller::new(640, 480);
    c.pointer_down(1, 1);
    c.pointer_move(2, 2);
    let saved = c.pointer_up(3, 3).expect("a completed stroke saves");
    assert_eq!(c.surface.snapshot(), saved);
}
