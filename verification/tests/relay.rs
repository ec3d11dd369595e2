use drawing::board::Frame;
use drawing::message::Line;
use drawing::registry::Client;
use drawing::relay::Relay;

fn seg(a: u32) -> Line {
    Line { last_x: a, last_y: a, new_x: a, new_y: a }
}

fn client(id: &str) -> Client {
    Client { client_id: id.to_string() }
}

#[test]
fn text_is_forwarded_to_others_and_segment_kept() {
    let mut r = Relay::new();
    assert!(r.connect(client("a")).is_empty());
    r.connect(client("b"));
    r.connect(client("c"));
    let re = r.handle(&"b".to_string(), Frame::Text(Some(seg(1))));
    assert!(re.keep_open);
    assert_eq!(re.forward_to, vec!["a".to_string(), "c".to_string()]);
    assert_eq!(r.lines(), &vec![seg(1)]);
}

#[test]
fn unparsable_text_is_forwarded_but_not_kept() {
    let mut r = Relay::new();
    r.connect(client("a"));
    r.connect(client("b"));
    let re = r.handle(&"a".to_string(), Frame::Text(None));
    assert!(re.keep_open);
    assert_eq!(re.forward_to, vec!["b".to_string()]);
    assert!(r.lines().is_empty());
}

#[test]
fn new_client_is_sent_every_segment() {
    let mut r = Relay::new();
    r.connect(client("a"));
    r.handle(&"a".to_string(), Frame::Text(Some(seg(1))));
    r.handle(&"a".to_string(), Frame::Text(Some(seg(2))));
    assert_eq!(r.connect(client("n")), vec![seg(1), seg(2)]);
    assert_eq!(r.read_existing_lines_for_new_client(&client("m")), vec![seg(1), seg(2)]);
}

#[test]
fn segments_are_cleared_beyond_max_messages() {
    let mut r = Relay::new();
    r.connect(client("a"));
    for i in 0..10000u32 {
        r.handle(&"a".to_string(), Frame::Text(Some(seg(i))));
    }
    assert_eq!(r.lines().len(), 10000);
    let re = r.handle(&"a".to_string(), Frame::Text(Some(seg(7))));
    assert!(re.keep_open);
    assert!(r.lines().is_empty());
    r.handle(&"a".to_string(), Frame::Text(Some(seg(8))));
    assert_eq!(r.lines(), &vec![seg(8)]);
}

#[test]
fn small_capacity_relay_clears() {
    let mut r = Relay::with_capacity(1);
    r.connect(client("a"));
    r.handle(&"a".to_string(), Frame::Text(Some(seg(1))));
    assert_eq!(r.lines(), &vec![seg(1)]);
    r.handle(&"a".to_string(), Frame::Text(Some(seg(2))));
    assert!(r.lines().is_empty());
}

#[test]
fn every_non_text_frame_unregisters() {
    for frame in [Frame::Close, Frame::NotText, Frame::Error, Frame::End] {
        let mut r = Relay::new();
        r.connect(client("a"));
        r.connect(client("b"));
        let re = r.handle(&"a".to_string(), frame);
        assert!(!re.keep_open);
        assert!(re.forward_to.is_empty());
        assert_eq!(r.client_count(), 1);
        assert_eq!(r.send_to_all(&"x".to_string()), vec!["b".to_string()]);
    }
}

#[test]
fn relay_join_gives_uuid() {
    let mut r = Relay::new();
    r.connect(client("a"));
    r.handle(&"a".to_string(), Frame::Text(Some(seg(3))));
    let (id, lines) = r.join().unwrap();
    assert_eq!(id.len(), 32);
    assert_eq!(lines, vec![seg(3)]);
    assert_eq!(r.client_count(), 2);
}

#[test]
fn is_connected_follows_registry() {
    let mut r = Relay::new();
    r.connect(client("a"));
    assert!(r.is_connected(&"a".to_string()));
    assert!(!r.is_connected(&"b".to_string()));
    r.handle(&"a".to_string(), Frame::End);
    assert!(!r.is_connected(&"a".to_string()));
}
