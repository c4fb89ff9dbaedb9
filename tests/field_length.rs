use federation_specs::field_length::FieldLengthRecorder;

#[test]
fn recorder_starts_empty() {
    let r = FieldLengthRecorder::new();
    assert!(r.lengths("Query", "users").is_empty());
    assert!(r.field_lengths.is_empty());
}

#[test]
fn recorder_keeps_lengths_per_type_and_field() {
    let mut r = FieldLengthRecorder::new();
    r.record("Query", "users", 3);
    r.record("User", "friends", 0);
    r.record("Query", "users", 7);
    r.record("Query", "friends", 2);
    assert_eq!(r.lengths("Query", "users"), vec![3, 7]);
    assert_eq!(r.lengths("User", "friends"), vec![0]);
    assert_eq!(r.lengths("Query", "friends"), vec![2]);
    assert!(r.lengths("User", "users").is_empty());
    assert_eq!(r.field_lengths.len(), 3);
}
