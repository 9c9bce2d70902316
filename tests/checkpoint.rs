use sw_assistant::checkpoint::Checkpoint;

#[test]
fn checkpoint_id_from_time() {
    let c = Checkpoint::at(1700000000, "before edit");
    assert_eq!(c.id, "checkpoint_1700000000");
    assert_eq!(c.description, "before edit");
    assert!(c.files.is_empty());
    assert_eq!(Checkpoint::at(0, "").id, "checkpoint_0");
    let now = Checkpoint::new("x");
    assert!(now.timestamp > 1_600_000_000);
    assert_eq!(now.id, format!("checkpoint_{}", now.timestamp));
}

#[test]
fn saved_content_carries_its_digest() {
    let mut c = Checkpoint::at(1, "d");
    c.add_content("a.txt", "hello");
    c.add_content("b.txt", "");
    assert_eq!(c.files.len(), 2);
    assert_eq!(c.files[0].path, "a.txt");
    assert_eq!(c.files[0].content, "hello");
    assert_eq!(c.files[0].hash, "5d41402abc4b2a76b9719d911017c592");
    assert_eq!(c.files[1].hash, "d41d8cd98f00b204e9800998ecf8427e");
}
