use drawing::board::{Board, Frame, MAX_MESSAGES};
use drawing::message::{Delivery, DrawingMsg, Line};
use drawing::registry::Client;

fn seg(a: u32, b: u32, c: u32, d: u32) -> Line {
    Line { last_x: a, last_y: b, new_x: c, new_y: d }
}

fn client(id: &str) -> Client {
    Client { client_id: id.to_string() }
}

fn line_to(to: &str, l: Line) -> Delivery {
    Delivery { to: to.to_string(), msg: DrawingMsg::new(Some(l), None, "line".to_string()) }
}

fn count_to(to: &str, kind: &str, n: usize) -> Delivery {
    Delivery { to: to.to_string(), msg: DrawingMsg::new(None, Some(n), kind.to_string()) }
}

#[test]
fn new_board_is_empty_with_default_capacity() {
    let b = Board::new();
    assert_eq!(b.client_count(), 0);
    assert!(b.lines().is_empty());
    assert_eq!(MAX_MESSAGES, 10000);
}

#[test]
fn first_client_gets_count_then_client_number() {
    let mut b = Board::new();
    let out = b.connect(client("a"));
    assert_eq!(out, vec![count_to("a", "messages", 0), count_to("a", "n_clients", 1)]);
    assert_eq!(b.client_count(), 1);
}

#[test]
fn segment_goes_to_others_and_count_to_all() {
    let mut b = Board::new();
    b.connect(client("a"));
    b.connect(client("b"));
    b.connect(client("c"));
    let l = seg(1, 2, 3, 4);
    let out = b.receive(&"b".to_string(), l);
    assert_eq!(
        out,
        vec![
            line_to("a", l),
            line_to("c", l),
            count_to("a", "messages", 1),
            count_to("b", "messages", 1),
            count_to("c", "messages", 1),
        ]
    );
    assert_eq!(b.lines(), &vec![l]);
}

#[test]
fn later_client_is_sent_every_stored_segment_in_order() {
    let mut b = Board::new();
    b.connect(client("a"));
    let l1 = seg(0, 0, 10, 10);
    let l2 = seg(10, 10, 20, 5);
    b.receive(&"a".to_string(), l1);
    b.receive(&"a".to_string(), l2);
    let out = b.connect(client("z"));
    assert_eq!(
        out,
        vec![
            count_to("z", "messages", 2),
            line_to("z", l1),
            line_to("z", l2),
            count_to("a", "n_clients", 2),
            count_to("z", "n_clients", 2),
        ]
    );
}

#[test]
fn canvas_is_cleared_beyond_capacity() {
    let mut b = Board::with_capacity(2);
    b.connect(client("a"));
    b.receive(&"a".to_string(), seg(1, 1, 1, 1));
    let out = b.receive(&"a".to_string(), seg(2, 2, 2, 2));
    assert_eq!(out, vec![count_to("a", "messages", 2)]);
    assert_eq!(b.lines().len(), 2);
    let out = b.receive(&"a".to_string(), seg(3, 3, 3, 3));
    assert_eq!(out, vec![count_to("a", "messages", 0)]);
    assert!(b.lines().is_empty());
    b.receive(&"a".to_string(), seg(4, 4, 4, 4));
    assert_eq!(b.lines(), &vec![seg(4, 4, 4, 4)]);
}

#[test]
fn default_capacity_holds_max_messages_then_clears() {
    let mut b = Board::new();
    b.connect(client("a"));
    let from = "a".to_string();
    for i in 0..MAX_MESSAGES {
        b.receive(&from, seg(i as u32, 0, 0, 0));
    }
    assert_eq!(b.lines().len(), MAX_MESSAGES);
    let out = b.receive(&from, seg(7, 7, 7, 7));
    assert_eq!(out, vec![count_to("a", "messages", 0)]);
    assert!(b.lines().is_empty());
}

#[test]
fn zero_capacity_never_stores() {
    let mut b = Board::with_capacity(0);
    b.connect(client("a"));
    b.connect(client("b"));
    let out = b.receive(&"a".to_string(), seg(5, 6, 7, 8));
    assert_eq!(
        out,
        vec![line_to("b", seg(5, 6, 7, 8)), count_to("a", "messages", 0), count_to("b", "messages", 0)]
    );
}

#[test]
fn leaving_client_is_dropped_and_others_told() {
    let mut b = Board::new();
    b.connect(client("a"));
    b.connect(client("b"));
    b.connect(client("c"));
    let out = b.disconnect(&"b".to_string());
    assert_eq!(out, vec![count_to("a", "n_clients", 2), count_to("c", "n_clients", 2)]);
    assert_eq!(b.client_count(), 2);
}

#[test]
fn join_then_leave_restores_registry() {
    let mut b = Board::new();
    b.connect(client("a"));
    b.connect(client("x"));
    b.disconnect(&"x".to_string());
    assert_eq!(b.client_count(), 1);
    let out = b.receive(&"q".to_string(), seg(1, 1, 1, 1));
    assert_eq!(out, vec![line_to("a", seg(1, 1, 1, 1)), count_to("a", "messages", 1)]);
}

#[test]
fn disconnecting_unknown_client_changes_nothing() {
    let mut b = Board::new();
    b.connect(client("a"));
    let out = b.disconnect(&"ghost".to_string());
    assert_eq!(out, vec![count_to("a", "n_clients", 1)]);
    assert_eq!(b.client_count(), 1);
}

#[test]
fn reconnecting_same_id_keeps_one_entry() {
    let mut b = Board::new();
    b.connect(client("a"));
    b.connect(client("b"));
    let out = b.connect(client("a"));
    assert_eq!(
        out,
        vec![count_to("a", "messages", 0), count_to("a", "n_clients", 2), count_to("b", "n_clients", 2)]
    );
    assert_eq!(b.client_count(), 2);
}

#[test]
fn segment_from_unregistered_sender_reaches_everyone() {
    let mut b = Board::new();
    b.connect(client("a"));
    let out = b.receive(&"nobody".to_string(), seg(9, 9, 9, 9));
    assert_eq!(out, vec![line_to("a", seg(9, 9, 9, 9)), count_to("a", "messages", 1)]);
}

#[test]
fn handle_text_frame_receives_segment() {
    let mut b = Board::new();
    b.connect(client("a"));
    b.connect(client("b"));
    let r = b.handle(&"a".to_string(), Frame::Text(Some(seg(1, 2, 3, 4))));
    assert!(r.keep_open);
    assert_eq!(
        r.deliveries,
        vec![line_to("b", seg(1, 2, 3, 4)), count_to("a", "messages", 1), count_to("b", "messages", 1)]
    );
}

#[test]
fn handle_close_and_others_disconnect() {
    for frame in [Frame::Close, Frame::NotText, Frame::Error, Frame::End] {
        let mut b = Board::new();
        b.connect(client("a"));
        b.connect(client("b"));
        let r = b.handle(&"a".to_string(), frame);
        assert!(!r.keep_open);
        assert_eq!(r.deliveries, vec![count_to("b", "n_clients", 1)]);
        assert_eq!(b.client_count(), 1);
    }
}

#[test]
fn send_to_all_with_and_without_sender() {
    let mut b = Board::new();
    b.connect(client("a"));
    b.connect(client("b"));
    let msg = DrawingMsg::of_messages(3);
    assert_eq!(
        b.send_to_all(&"a".to_string(), &msg, true),
        vec![count_to("a", "messages", 3), count_to("b", "messages", 3)]
    );
    assert_eq!(b.send_to_all(&"a".to_string(), &msg, false), vec![count_to("b", "messages", 3)]);
}

#[test]
fn send_number_of_clients_counts_registry() {
    let mut b = Board::new();
    b.connect(client("a"));
    b.connect(client("b"));
    assert_eq!(
        b.send_number_of_clients(&"b".to_string(), false),
        vec![count_to("a", "n_clients", 2)]
    );
}

#[test]
fn existing_lines_for_new_client_on_empty_board() {
    let b = Board::new();
    assert_eq!(
        b.read_existing_lines_for_new_client(&client("n")),
        vec![count_to("n", "messages", 0)]
    );
}

#[test]
fn join_gives_fresh_simple_uuid_and_welcome() {
    let mut b = Board::new();
    let (id1, out1) = b.join().unwrap();
    let (id2, _) = b.join().unwrap();
    for id in [&id1, &id2] {
        assert_eq!(id.len(), 32);
        assert!(id.chars().all(|c| c.is_ascii_digit() || ('a'..='f').contains(&c)));
        assert_eq!(id.chars().nth(12), Some('4'));
        assert!(matches!(id.chars().nth(16), Some('8' | '9' | 'a' | 'b')));
    }
    assert_ne!(id1, id2);
    assert_eq!(out1, vec![count_to(&id1, "messages", 0), count_to(&id1, "n_clients", 1)]);
    assert_eq!(b.client_count(), 2);
}
