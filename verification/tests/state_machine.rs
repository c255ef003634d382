use paint_plus::controller::Controller;
use paint_plus::controller::Event;
use paint_plus::controller::StrokeState;
use paint_plus::surface::Point;
use paint_plus::surface::Segment;

fn seg(fx: i32, fy: i32, tx: i32, ty: i32, color: u32, width: u32) -> Segment {
    Segment { from: Point { x: fx, y: fy }, to: Point { x: tx, y: ty }, color, width }
}

#[test]
fn single_stroke_paints_one_segment_and_saves_once() {
    let mut c = Controller::new(640, 480);
    c.load_if_present(None);
    assert_eq!(c.surface.segments.len(), 0);
    c.pointer_down(10, 10);
    assert!(matches!(c.state, StrokeState::Drawing { .. }));
    assert_eq!(c.surface.segments.len(), 0);
    c.pointer_move(50, 50);
    let saved = c.pointer_up(50, 50);
    assert!(matches!(c.state, StrokeState::Idle));
    assert!(saved.is_some());
    assert_eq!(
        c.surface.segments,
        vec![seg(10, 10, 50, 50, 0, 3), seg(50, 50, 50, 50, 0, 3)]
    );
}

#[test]
fn one_segment_per_move_in_order() {
    let mut c = Controller::new(640, 480);
    c.pointer_down(0, 0);
    c.pointer_move(1, 1);
    c.pointer_move(2, 2);
    c.pointer_move(3, 3);
    let saved = c.pointer_up(3, 3);
    assert!(saved.is_some());
    assert_eq!(
        c.surface.segments,
        vec![
            seg(0, 0, 1, 1, 0, 3),
            seg(1, 1, 2, 2, 0, 3),
            seg(2, 2, 3, 3, 0, 3),
            seg(3, 3, 3, 3, 0, 3),
        ]
    );
}

#[test]
fn moves_while_idle_paint_nothing() {
    let mut c = Controller::new(640, 480);
    c.pointer_move(5, 5);
    c.pointer_move(7, 9);
    c.pointer_move(100, 200);
    assert!(matches!(c.state, StrokeState::Idle));
    assert_eq!(c.surface.segments.len(), 0);
}

#[test]
fn up_without_down_paints_nothing_and_saves_nothing() {
    let mut c = Controller::new(640, 480);
    let first = c.pointer_up(20, 20);
    let second = c.pointer_up(20, 20);
    assert!(first.is_none());
    assert!(second.is_none());
    assert!(matches!(c.state, StrokeState::Idle));
    assert_eq!(c.surface.segments.len(), 0);
}

#[test]
fn style_changes_are_forward_only() {
    let mut c = Controller::new(640, 480);
    c.set_stroke_color(0xff0000);
    c.set_stroke_width(5);
    c.pointer_down(0, 0);
    c.pointer_move(10, 0);
    let saved = c.pointer_up(10, 0);
    assert!(saved.is_some());
    let painted = c.surface.segments.clone();
    assert_eq!(
        painted,
        vec![seg(0, 0, 10, 0, 0xff0000, 5), seg(10, 0, 10, 0, 0xff0000, 5)]
    );
    c.set_stroke_width(2);
    c.set_stroke_color(0x0000ff);
    assert_eq!(c.surface.segments, painted);
    c.pointer_down(0, 5);
    c.pointer_move(10, 5);
    c.pointer_up(10, 5);
    assert_eq!(c.surface.segments[0], seg(0, 0, 10, 0, 0xff0000, 5));
    assert_eq!(c.surface.segments[1], seg(10, 0, 10, 0, 0xff0000, 5));
    assert_eq!(c.surface.segments[2], seg(0, 5, 10, 5, 0x0000ff, 2));
}

#[test]
fn mid_stroke_style_change_takes_effect_on_next_segment() {
    let mut c = Controller::new(640, 480);
    c.pointer_down(0, 0);
    c.pointer_move(1, 0);
    c.set_stroke_width(9);
    c.pointer_move(2, 0);
    c.pointer_up(2, 0);
    assert_eq!(c.surface.segments[0], seg(0, 0, 1, 0, 0, 3));
    assert_eq!(c.surface.segments[1], seg(1, 0, 2, 0, 0, 9));
    assert_eq!(c.surface.segments[2], seg(2, 0, 2, 0, 0, 9));
}

#[test]
fn handle_event_dispatches_like_the_handlers() {
    let mut c = Controller::new(640, 480);
    assert!(c.handle_event(Event::SetColor { color: 0x123456 }).is_none());
    assert!(c.handle_event(Event::SetWidth { width: 7 }).is_none());
    assert!(c.handle_event(Event::Down { x: 1, y: 2 }).is_none());
    assert!(c.handle_event(Event::Move { x: 3, y: 4 }).is_none());
    let saved = c.handle_event(Event::Up { x: 3, y: 4 });
    assert!(saved.is_some());
    assert_eq!(
        c.surface.segments,
        vec![seg(1, 2, 3, 4, 0x123456, 7), seg(3, 4, 3, 4, 0x123456, 7)]
    );
}

#[test]
fn down_restarts_the_stroke_from_the_new_point() {
    let mut c = Controller::new(640, 480);
    c.pointer_down(0, 0);
    c.pointer_down(9, 9);
    c.pointer_move(10, 10);
    c.pointer_up(10, 10);
    assert_eq!(
        c.surface.segments,
        vec![seg(9, 9, 10, 10, 0, 3), seg(10, 10, 10, 10, 0, 3)]
    );
}
