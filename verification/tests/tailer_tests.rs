use splash::tailer::TailState;

#[test]
fn test_tail_starts_at_end_of_file() {
    let state = TailState::start("/var/log/app.log".to_string(), 42);
    assert_eq!(state.byte_offset, 42);
    assert_eq!(state.last_known_length, 42);
}

#[test]
fn test_two_appends_give_two_batches() {
    // A file of length 5 grows by "X" and then by "Y": the read windows
    // are exactly the two appended bytes, not a concatenation and not a
    // repeat of prior content.
    let mut state = TailState::start("f".to_string(), 5);

    let first_read = state.begin_change(6);
    assert_eq!(first_read, 5);
    assert_eq!(state.byte_offset, 6);

    let second_read = state.begin_change(7);
    assert_eq!(second_read, 6);
    assert_eq!(state.byte_offset, 7);
}

#[test]
fn test_shrink_resets_to_start() {
    let mut state = TailState::start("f".to_string(), 100);
    let read_from = state.begin_change(30);
    assert_eq!(read_from, 0);
    assert_eq!(state.byte_offset, 30);
    assert_eq!(state.last_known_length, 30);
}
