use drawing::pen::{CanvasOp, MouseEvent, Pen, Segment};

#[test]
fn new_pen_is_up_at_origin() {
    assert_eq!(Pen::new(), Pen { pressed: false, last_x: 0, last_y: 0 });
}

#[test]
fn moving_without_press_is_silent() {
    let mut p = Pen::new();
    let a = p.handle(MouseEvent::Move(5, 5));
    assert!(a.ops.is_empty());
    assert_eq!(a.send, None);
    assert_eq!(p, Pen::new());
}

#[test]
fn press_move_release() {
    let mut p = Pen::new();
    let a = p.handle(MouseEvent::Down(10, 20));
    assert_eq!(a.ops, vec![CanvasOp::BeginPath, CanvasOp::MoveTo(10, 20)]);
    assert_eq!(a.send, None);
    let a = p.handle(MouseEvent::Move(15, 25));
    assert_eq!(
        a.ops,
        vec![CanvasOp::LineTo(15, 25), CanvasOp::Stroke, CanvasOp::BeginPath, CanvasOp::MoveTo(15, 25)]
    );
    assert_eq!(a.send, Some(Segment { last_x: 10, last_y: 20, new_x: 15, new_y: 25 }));
    let a = p.handle(MouseEvent::Move(30, 1));
    assert_eq!(a.send, Some(Segment { last_x: 15, last_y: 25, new_x: 30, new_y: 1 }));
    let a = p.handle(MouseEvent::Up(31, 2));
    assert_eq!(a.ops, vec![CanvasOp::LineTo(31, 2), CanvasOp::Stroke]);
    assert_eq!(a.send, None);
    assert_eq!(p, Pen { pressed: false, last_x: 30, last_y: 1 });
    assert_eq!(p.handle(MouseEvent::Move(0, 0)).send, None);
}

#[test]
fn new_press_starts_a_new_path() {
    let mut p = Pen::new();
    p.handle(MouseEvent::Down(1, 1));
    p.handle(MouseEvent::Move(2, 2));
    p.handle(MouseEvent::Up(2, 2));
    p.handle(MouseEvent::Down(50, 60));
    let a = p.handle(MouseEvent::Move(51, 61));
    assert_eq!(a.send, Some(Segment { last_x: 50, last_y: 60, new_x: 51, new_y: 61 }));
}

#[test]
fn negative_offsets_are_kept() {
    let mut p = Pen::new();
    p.handle(MouseEvent::Down(-3, -4));
    assert_eq!(p.handle(MouseEvent::Move(-5, 6)).send, Some(Segment { last_x: -3, last_y: -4, new_x: -5, new_y: 6 }));
}
