use rshell::pwd::PwdState;
use rshell::state_manager::ShellState;

fn create_test_state() -> ShellState {
    ShellState {
        history: Vec::new(),
        hist_idx: 0,
        buffer: String::new(),
        view_buffer: String::new(),
        is_continuation: false,
        pwd: PwdState::new("/".to_string(), "/".to_string()),
        cursor_idx: 0,
    }
}

#[test]
fn test_initial_state() {
    // Test that the constructor sets values correctly
    let pwd = PwdState::new("/home/user".to_string(), "/home".to_string());

    assert_eq!(pwd.get_current_dir(), "/home/user");
    assert_eq!(pwd.get_old_dir(), "/home");
}

#[test]
fn test_update_state() {
    let mut pwd = PwdState::new("/var".to_string(), "/".to_string());

    // Simulate 'cd /etc'
    // New Current: /etc, New Old: /var
    pwd.set_states("/etc".to_string(), "/var".to_string());

    assert_eq!(pwd.get_current_dir(), "/etc");
    assert_eq!(pwd.get_old_dir(), "/var");
}

#[test]
fn test_reset_buffers() {
    let mut state = create_test_state();

    // Simulate a dirty state (user typed something)
    state.buffer = "echo hello".to_string();
    state.view_buffer = "echo hello".to_string();
    state.cursor_idx = 10;

    // Run the function
    state.reset_buffers();

    // Assert everything is clean
    assert_eq!(state.buffer, "");
    assert_eq!(state.view_buffer, "");
    assert_eq!(state.cursor_idx, 0);
}

#[test]
fn test_commit_to_history_adds_valid_entry() {
    let mut state = create_test_state();
    state.buffer = "ls -la".to_string();

    state.commit_to_history();

    assert_eq!(state.history.len(), 1);
    assert_eq!(state.history[0], "ls -la");
    assert_eq!(state.hist_idx, 1); // Should point to the new end
}

#[test]
fn test_commit_to_history_ignores_empty() {
    let mut state = create_test_state();
    state.buffer = "   ".to_string(); // Whitespace only

    state.commit_to_history();

    assert!(state.history.is_empty());
}

#[test]
fn test_commit_to_history_ignores_duplicates() {
    let mut state = create_test_state();

    // Add first command
    state.buffer = "git status".to_string();
    state.commit_to_history();

    // Try to add the exact same command again
    state.buffer = "git status".to_string();
    state.commit_to_history();

    // History should still only have 1 item
    assert_eq!(state.history.len(), 1);
}

#[test]
fn test_commit_then_recall_previous_restores_line() {
    let mut state = create_test_state();
    state.buffer = "ls -la".to_string();
    state.view_buffer = "ls -la".to_string();
    state.cursor_idx = 6;

    state.commit_to_history();
    state.reset_buffers();
    state.recall_previous();

    assert_eq!(state.buffer, "ls -la");
    assert_eq!(state.view_buffer, "ls -la");
    assert_eq!(state.cursor_idx, 6);
    assert_eq!(state.hist_idx, 0);
}

#[test]
fn test_recall_next_past_end_is_empty_fresh_line() {
    let mut state = create_test_state();
    state.buffer = "first".to_string();
    state.view_buffer = "first".to_string();
    state.commit_to_history();
    state.reset_buffers();

    state.recall_previous();
    assert_eq!(state.view_buffer, "first");

    // Stepping forward reaches the fresh-line sentinel: empty buffers.
    state.recall_next();
    assert_eq!(state.buffer, "");
    assert_eq!(state.view_buffer, "");
    assert_eq!(state.hist_idx, 1);

    // At the sentinel another step is a no-op, never out of range.
    state.recall_next();
    assert_eq!(state.hist_idx, 1);
    assert_eq!(state.view_buffer, "");
}

#[test]
fn test_recall_previous_at_oldest_is_noop() {
    let mut state = create_test_state();
    assert_eq!(state.hist_idx, 0);
    state.recall_previous();
    assert_eq!(state.hist_idx, 0);
    assert_eq!(state.buffer, "");
}

#[test]
fn test_cursor_moves_stop_at_bounds() {
    let mut state = create_test_state();
    state.buffer = "ab".to_string();
    state.view_buffer = "ab".to_string();
    state.cursor_idx = 0;

    // Left at 0 is a no-op.
    state.move_left();
    assert_eq!(state.cursor_idx, 0);

    state.move_right();
    state.move_right();
    assert_eq!(state.cursor_idx, 2);

    // Right at the end is a no-op.
    state.move_right();
    assert_eq!(state.cursor_idx, 2);
}

#[test]
fn test_insert_then_backspace_restores_buffer() {
    let mut state = create_test_state();
    state.buffer = "hello".to_string();
    state.view_buffer = "hello".to_string();
    state.cursor_idx = 2;

    state.insert_char('X');
    assert_eq!(state.view_buffer, "heXllo");
    assert_eq!(state.cursor_idx, 3);

    state.backspace();
    assert_eq!(state.buffer, "hello");
    assert_eq!(state.view_buffer, "hello");
    assert_eq!(state.cursor_idx, 2);
}

#[test]
fn test_insert_then_backspace_multibyte() {
    // The cursor counts characters, never bytes: multi-byte characters
    // are inserted and removed whole.
    let mut state = create_test_state();
    state.buffer = "h\u{e9}llo".to_string();
    state.view_buffer = "h\u{e9}llo".to_string();
    state.cursor_idx = 2;

    state.insert_char('\u{20ac}');
    assert_eq!(state.view_buffer, "h\u{e9}\u{20ac}llo");
    assert_eq!(state.cursor_idx, 3);

    state.backspace();
    assert_eq!(state.buffer, "h\u{e9}llo");
    assert_eq!(state.view_buffer, "h\u{e9}llo");
    assert_eq!(state.cursor_idx, 2);
}

#[test]
fn test_insert_updates_both_buffers_in_continuation() {
    let mut state = create_test_state();
    // A continuation: the logical buffer holds the earlier line and the
    // break; the view holds only the current line.
    state.buffer = "echo 'a\n".to_string();
    state.view_buffer = "".to_string();
    state.is_continuation = true;
    state.cursor_idx = 0;

    state.insert_char('b');
    assert_eq!(state.buffer, "echo 'a\nb");
    assert_eq!(state.view_buffer, "b");
    assert_eq!(state.cursor_idx, 1);
}

#[test]
fn test_new_state_is_fresh() {
    let state = ShellState::new("/home".to_string());
    assert_eq!(state.buffer, "");
    assert_eq!(state.view_buffer, "");
    assert_eq!(state.cursor_idx, 0);
    assert_eq!(state.hist_idx, 0);
    assert!(state.history.is_empty());
    assert!(!state.is_continuation);
    assert_eq!(state.pwd.get_current_dir(), "/home");
    assert_eq!(state.pwd.get_old_dir(), "/home");
}
