use drawing::message::{Delivery, DrawingMsg, Line};

#[test]
fn new_keeps_fields() {
    let l = Line { last_x: 1, last_y: 2, new_x: 3, new_y: 4 };
    let m = DrawingMsg::new(Some(l), Some(5), "x".to_string());
    assert_eq!(m.line, Some(l));
    assert_eq!(m.messages, Some(5));
    assert_eq!(m.msg_type, "x");
}

#[test]
fn constructors_set_kind() {
    let l = Line { last_x: 0x3f80_0000, last_y: 0, new_x: 0x4000_0000, new_y: 0 };
    let m = DrawingMsg::of_line(l);
    assert_eq!((m.line, m.messages, m.msg_type.as_str()), (Some(l), None, "line"));
    let m = DrawingMsg::of_messages(7);
    assert_eq!((m.line, m.messages, m.msg_type.as_str()), (None, Some(7), "messages"));
    let m = DrawingMsg::of_clients(2);
    assert_eq!((m.line, m.messages, m.msg_type.as_str()), (None, Some(2), "n_clients"));
}

#[test]
fn duplicate_is_equal() {
    let m = DrawingMsg::of_clients(4);
    assert_eq!(m.duplicate(), m);
    let d = Delivery { to: "a".to_string(), msg: m.duplicate() };
    assert_eq!(d.msg, m);
}

#[test]
fn only_line_messages_are_drawn() {
    let l = Line { last_x: 1, last_y: 2, new_x: 3, new_y: 4 };
    assert_eq!(DrawingMsg::of_line(l).line_to_draw(), Some(l));
    assert_eq!(DrawingMsg::of_messages(3).line_to_draw(), None);
    assert_eq!(DrawingMsg::of_clients(3).line_to_draw(), None);
    assert_eq!(DrawingMsg::new(Some(l), None, "other".to_string()).line_to_draw(), None);
    assert_eq!(DrawingMsg::new(None, None, "line".to_string()).line_to_draw(), None);
}
