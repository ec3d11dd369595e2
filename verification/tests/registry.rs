use drawing::registry::{Client, Clients};

fn c(id: &str) -> Client {
    Client { client_id: id.to_string() }
}

#[test]
fn insert_contains_remove() {
    let mut r = Clients::new();
    assert_eq!(r.len(), 0);
    r.insert(c("a"));
    r.insert(c("b"));
    r.insert(c("a"));
    assert_eq!(r.len(), 2);
    assert!(r.contains(&"a".to_string()));
    assert!(!r.contains(&"z".to_string()));
    r.remove(&"a".to_string());
    assert_eq!(r.len(), 1);
    assert!(!r.contains(&"a".to_string()));
    r.remove(&"a".to_string());
    assert_eq!(r.len(), 1);
}

#[test]
fn recipients_in_join_order() {
    let mut r = Clients::new();
    r.insert(c("x"));
    r.insert(c("y"));
    r.insert(c("z"));
    assert_eq!(r.recipients(&"y".to_string(), false), vec!["x".to_string(), "z".to_string()]);
    assert_eq!(
        r.recipients(&"y".to_string(), true),
        vec!["x".to_string(), "y".to_string(), "z".to_string()]
    );
    assert_eq!(r.recipients(&"w".to_string(), false).len(), 3);
}
