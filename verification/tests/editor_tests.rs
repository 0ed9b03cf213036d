use rshell::editor::{handle_key, Key, LoopStep};
use rshell::parser::CommandEnum;
use rshell::state_manager::ShellState;

fn fresh() -> ShellState {
    ShellState::new("/tmp".to_string())
}

#[test]
fn test_typing_inserts_and_moves_cursor() {
    let mut shell = fresh();
    assert!(matches!(handle_key(&mut shell, Key::Char('l')), LoopStep::Redraw));
    assert!(matches!(handle_key(&mut shell, Key::Char('s')), LoopStep::Redraw));
    assert_eq!(shell.buffer, "ls");
    assert_eq!(shell.view_buffer, "ls");
    assert_eq!(shell.cursor_idx, 2);
}

#[test]
fn test_backspace_at_start_is_noop() {
    let mut shell = fresh();
    assert!(matches!(handle_key(&mut shell, Key::Backspace), LoopStep::Redraw));
    assert_eq!(shell.buffer, "");
    assert_eq!(shell.cursor_idx, 0);
}

#[test]
fn test_enter_dispatches_and_commits() {
    let mut shell = fresh();
    for c in "ls -la".chars() {
        handle_key(&mut shell, Key::Char(c));
    }
    let step = handle_key(&mut shell, Key::Enter);
    match step {
        LoopStep::Dispatch(CommandEnum::Ls(args)) => {
            assert_eq!(args, vec!["-la".to_string()]);
        }
        _ => panic!("Expected a dispatch of the listing command"),
    }
    assert_eq!(shell.history, vec!["ls -la".to_string()]);
    assert_eq!(shell.hist_idx, 1);
    assert_eq!(shell.buffer, "");
    assert_eq!(shell.view_buffer, "");
    assert!(!shell.is_continuation);
}

#[test]
fn test_enter_exit_terminates_without_commit() {
    let mut shell = fresh();
    for c in "exit".chars() {
        handle_key(&mut shell, Key::Char(c));
    }
    assert!(matches!(handle_key(&mut shell, Key::Enter), LoopStep::Exit));
    assert_eq!(shell.buffer, "exit");
    assert!(shell.history.is_empty());
}

#[test]
fn test_enter_incomplete_enters_continuation() {
    let mut shell = fresh();
    for c in "echo \"open".chars() {
        handle_key(&mut shell, Key::Char(c));
    }
    assert!(matches!(handle_key(&mut shell, Key::Enter), LoopStep::NewPrompt));
    assert!(shell.is_continuation);
    assert_eq!(shell.buffer, "echo \"open\n");
    assert_eq!(shell.view_buffer, "");
    assert_eq!(shell.cursor_idx, 0);

    // The second batch joins the same parse.
    for c in "shut\"".chars() {
        handle_key(&mut shell, Key::Char(c));
    }
    let step = handle_key(&mut shell, Key::Enter);
    match step {
        LoopStep::Dispatch(CommandEnum::Echo(raw)) => {
            assert_eq!(raw, vec!["open\nshut".to_string()]);
        }
        _ => panic!("Expected a dispatch of the echo command"),
    }
    assert!(!shell.is_continuation);
}

#[test]
fn test_ctrl_d_exits_immediately() {
    let mut shell = fresh();
    handle_key(&mut shell, Key::Char('x'));
    assert!(matches!(handle_key(&mut shell, Key::Ctrl('d')), LoopStep::Exit));
}

#[test]
fn test_ctrl_c_commits_partial_line() {
    // The observed behavior: an interrupt still commits the partial line,
    // subject only to commit's own non-empty and duplicate guards.
    let mut shell = fresh();
    for c in "half a comm".chars() {
        handle_key(&mut shell, Key::Char(c));
    }
    assert!(matches!(handle_key(&mut shell, Key::Ctrl('c')), LoopStep::Interrupted));
    assert_eq!(shell.history, vec!["half a comm".to_string()]);
    assert_eq!(shell.buffer, "");
    assert!(!shell.is_continuation);
}

#[test]
fn test_ctrl_other_inserts_plain_character() {
    let mut shell = fresh();
    assert!(matches!(handle_key(&mut shell, Key::Ctrl('x')), LoopStep::Redraw));
    assert_eq!(shell.buffer, "x");
}

#[test]
fn test_up_and_down_navigate_history() {
    let mut shell = fresh();
    for c in "first".chars() {
        handle_key(&mut shell, Key::Char(c));
    }
    handle_key(&mut shell, Key::Enter);
    for c in "second".chars() {
        handle_key(&mut shell, Key::Char(c));
    }
    handle_key(&mut shell, Key::Enter);

    handle_key(&mut shell, Key::Up);
    assert_eq!(shell.view_buffer, "second");
    handle_key(&mut shell, Key::Up);
    assert_eq!(shell.view_buffer, "first");
    handle_key(&mut shell, Key::Up);
    assert_eq!(shell.view_buffer, "first");
    handle_key(&mut shell, Key::Down);
    assert_eq!(shell.view_buffer, "second");
    handle_key(&mut shell, Key::Down);
    assert_eq!(shell.view_buffer, "");
    assert_eq!(shell.history.len(), 2);
}

#[test]
fn test_empty_enter_dispatches_empty_catch_all() {
    let mut shell = fresh();
    let step = handle_key(&mut shell, Key::Enter);
    match step {
        LoopStep::Dispatch(CommandEnum::Unknown(word)) => assert_eq!(word, ""),
        _ => panic!("Expected the empty catch-all dispatch"),
    }
    assert!(shell.history.is_empty());
}
