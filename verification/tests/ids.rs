use drawing::ids::{client_id_of, new_client_id};

#[test]
fn client_id_of_counting_bytes() {
    let bytes: [u8; 16] = [0, 1, 2, 3, 4, 5, 6, 7, 8, 9, 10, 11, 12, 13, 14, 15];
    assert_eq!(client_id_of(bytes), "000102030405460788090a0b0c0d0e0f");
}

#[test]
fn client_id_of_all_ones() {
    assert_eq!(client_id_of([0xff; 16]), "ffffffffffff4fffbfffffffffffffff");
}

#[test]
fn client_id_of_zeros_sets_version_and_variant() {
    assert_eq!(client_id_of([0; 16]), "00000000000040008000000000000000");
}

#[test]
fn new_client_id_is_simple_v4() {
    let id = new_client_id().unwrap();
    assert_eq!(id.len(), 32);
    assert!(id.chars().all(|c| c.is_ascii_digit() || ('a'..='f').contains(&c)));
    assert_eq!(id.chars().nth(12), Some('4'));
    assert!(matches!(id.chars().nth(16), Some('8' | '9' | 'a' | 'b')));
    assert_ne!(new_client_id().unwrap(), id);
}
