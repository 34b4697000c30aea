use file_exchange::separator::PacketSeparatorState;

fn run_over(bytes: &[u8]) -> PacketSeparatorState {
    let mut state = PacketSeparatorState::Searching;
    for byte in bytes {
        state = state.step(byte);
    }
    state
}

#[test]
fn blank_line_is_found() {
    assert!(run_over(b"Host: a\r\n\r\n").is_done());
}

#[test]
fn single_line_end_is_not_the_end() {
    let state = run_over(b"Host: a\r\n");
    assert_eq!(state, PacketSeparatorState::FirstNewline);
    assert!(!state.is_done());
}

#[test]
fn done_state_is_never_left() {
    let mut state = run_over(b"\r\n\r\n");
    for byte in 0u8..=255 {
        state = state.step(&byte);
        assert!(state.is_done());
    }
}

#[test]
fn unexpected_byte_starts_the_search_again() {
    assert_eq!(run_over(b"\r\n\rx"), PacketSeparatorState::Searching);
    assert_eq!(run_over(b"\r\r"), PacketSeparatorState::Searching);
    assert_eq!(run_over(b"\r\n\r\r"), PacketSeparatorState::Searching);
}
