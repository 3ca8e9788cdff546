use near_store::error::other_error;

#[test]
fn errors_keep_their_message() {
    assert_eq!(other_error("disk on fire".to_string()).message, "disk on fire");
}
