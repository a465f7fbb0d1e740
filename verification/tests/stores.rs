use yggdrasil::comunicacao::store::{BitsLedgerStore, RoomStore};
use yggdrasil::instance::store::{hex_string, newest_first, InstanceStore};

fn strs(v: &[&str]) -> Vec<String> {
    v.iter().map(|s| s.to_string()).collect()
}

#[test]
fn room_store_paths() {
    assert_eq!(RoomStore::room_path("r1"), strs(&["r1", "room.json"]));
    assert_eq!(RoomStore::room_dir("r1"), strs(&["r1"]));
    assert_eq!(RoomStore::review_path("Alice"), strs(&["_review", "alice.json"]));
    assert_eq!(RoomStore::new("/tmp/x").root(), "/tmp/x");
}

#[test]
fn score_path_uses_the_user_slug() {
    assert_eq!(BitsLedgerStore::score_path("bob@test.com"), strs(&["_score", "bob-test-com.json"]));
}

#[test]
fn instance_store_paths() {
    assert_eq!(InstanceStore::instance_path("a1"), strs(&["a1", "instance.json"]));
    assert_eq!(InstanceStore::blob_path("abcdef"), strs(&["_blobs", "ab", "abcdef"]));
    assert_eq!(InstanceStore::blob_path("a"), strs(&["_blobs", "a", "a"]));
    assert_eq!(InstanceStore::blob_path(""), strs(&["_blobs", "", ""]));
}

#[test]
fn hash_bytes_is_sha256_hex() {
    assert_eq!(
        InstanceStore::hash_bytes(b""),
        "e3b0c44298fc1c149afbf4c8996fb92427ae41e4649b934ca495991b7852b855"
    );
    assert_eq!(
        InstanceStore::hash_bytes(b"abc"),
        "ba7816bf8f01cfea414140de5dae2223b00361a396177a9cb410ff61f20015ad"
    );
}

#[test]
fn hex_string_two_digits_per_byte() {
    assert_eq!(hex_string(&[0x0a, 0x14, 0x1e]), "0a141e");
    assert_eq!(hex_string(&[]), "");
    assert_eq!(hex_string(&[0xff, 0x00]), "ff00");
}

#[test]
fn newest_first_orders_by_time_stably() {
    assert_eq!(newest_first(&vec![5, 9, 5, 1, 9]), vec![1, 4, 0, 2, 3]);
    assert!(newest_first(&vec![]).is_empty());
}
