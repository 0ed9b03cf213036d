//! The main-loop state machine: one classified key event in, one state
//! transition and one instruction for the surrounding loop out.  The
//! surrounding loop only reads key events, repaints, and hands classified
//! commands to the dispatch collaborator; every decision is made here.

use vstd::prelude::*;
use crate::parser::{ParseResult, CommandEnum, parse_input, parse_input_matches, tokens_of,
    cmd_matches};
use crate::state_manager::{ShellState, ShellModel, wf, insert_spec, backspace_spec, left_spec,
    right_spec, recall_prev_spec, recall_next_spec, continuation_spec, after_command_spec,
    lemma_ops_preserve_wf};
use crate::text::{to_char_vec, chars_to_string, trim_spec};

verus! {

/// A classified key event, as the terminal layer reports it: a plain
/// character, a character with the control modifier held, one of the
/// editing keys, or anything else (ignored).
#[derive(Debug, Clone, Copy, PartialEq, Eq)]
pub enum Key {
    Char(char),
    Ctrl(char),
    Backspace,
    Enter,
    Up,
    Down,
    Left,
    Right,
    Other,
}

/// What the surrounding loop must do after a transition: repaint and keep
/// reading; print the interrupt marker and start a fresh prompt line;
/// start a fresh prompt line; hand a command to the dispatch collaborator
/// and then start a fresh prompt line; or terminate.
pub enum LoopStep {
    Redraw,
    Interrupted,
    NewPrompt,
    Dispatch(CommandEnum),
    Exit,
}

/// What pressing Enter does.  An incomplete line enters continuation; an
/// `exit` command terminates without touching the state; anything else —
/// including an empty line, which classifies as the empty catch-all — is
/// committed (subject to commit's own guard), the buffers reset, the
/// continuation flag cleared, and the classified command handed out for
/// dispatch.
pub open spec fn enter_ensures(m0: ShellModel, m1: ShellModel, step: LoopStep) -> bool {
    let t = trim_spec(m0.buffer);
    if t.len() > 0 && tokens_of(t) is None {
        &&& m1 == continuation_spec(m0)
        &&& step is NewPrompt
    } else if t.len() > 0 && (tokens_of(t) matches Some(toks) && toks.len() > 0 && toks[0]
        == "exit"@) {
        &&& m1 == m0
        &&& step is Exit
    } else {
        &&& m1 == after_command_spec(m0)
        &&& step matches LoopStep::Dispatch(cmd) && parse_input_matches(
            ParseResult::Parsed(cmd),
            m0.buffer,
        )
    }
}

/// The transition relation of the whole state machine, one clause per
/// key.  Control-d terminates; control-c commits what there is and starts
/// over; any other control character inserts like a plain one.
pub open spec fn handle_key_ensures(m0: ShellModel, key: Key, m1: ShellModel, step: LoopStep) -> bool {
    match key {
        Key::Char(c) => m1 == insert_spec(m0, c) && step is Redraw,
        Key::Ctrl(c) => {
            if c == 'd' {
                m1 == m0 && step is Exit
            } else if c == 'c' {
                m1 == after_command_spec(m0) && step is Interrupted
            } else {
                m1 == insert_spec(m0, c) && step is Redraw
            }
        },
        Key::Backspace => m1 == backspace_spec(m0) && step is Redraw,
        Key::Enter => enter_ensures(m0, m1, step),
        Key::Up => m1 == recall_prev_spec(m0) && step is Redraw,
        Key::Down => m1 == recall_next_spec(m0) && step is Redraw,
        Key::Left => m1 == left_spec(m0) && step is Redraw,
        Key::Right => m1 == right_spec(m0) && step is Redraw,
        Key::Other => m1 == m0 && step is Redraw,
    }
}

/// Applies one key event to the shell state and says what the loop must
/// do next.  Keeps the state well formed.
pub fn handle_key(shell: &mut ShellState, key: Key) -> (step: LoopStep)
    requires
        wf(old(shell)@),
    ensures
        handle_key_ensures(old(shell)@, key, final(shell)@, step),
        wf(final(shell)@),
{
    match key {
        Key::Char(c) => {
            shell.insert_char(c);
            LoopStep::Redraw
        },
        Key::Ctrl(c) => {
            if c == 'd' {
                LoopStep::Exit
            } else if c == 'c' {
                shell.commit_to_history();
                shell.reset_buffers();
                shell.is_continuation = false;
                proof {
                    lemma_ops_preserve_wf(old(shell)@, c);
                    assert(shell@ =~= after_command_spec(old(shell)@));
                    assert(shell@.view_buffer =~= shell@.buffer.skip(0));
                }
                LoopStep::Interrupted
            } else {
                shell.insert_char(c);
                LoopStep::Redraw
            }
        },
        Key::Backspace => {
            shell.backspace();
            LoopStep::Redraw
        },
        Key::Enter => {
            let r = parse_input(shell.buffer.as_str());
            match r {
                ParseResult::Parsed(cmd) => {
                    let is_exit = matches!(cmd, CommandEnum::Exit);
                    if is_exit {
                        proof {
                            assert(shell@ =~= old(shell)@);
                        }
                        LoopStep::Exit
                    } else {
                        // The classifier is exact: a command other than the
                        // exit variant means the first token is some other
                        // word, so the exit case of the transition relation
                        // cannot apply here.  The distinctness of the command
                        // words needs their literals revealed.
                        proof {
                            reveal_strlit("ls");
                            reveal_strlit("cat");
                            reveal_strlit("cp");
                            reveal_strlit("pwd");
                            reveal_strlit("cd");
                            reveal_strlit("echo");
                            reveal_strlit("rm");
                            reveal_strlit("mkdir");
                            reveal_strlit("mv");
                            reveal_strlit("exit");
                            reveal_strlit("clear");
                            assert("echo"@[1] == 'c');
                            assert("exit"@[1] == 'x');
                            let t = trim_spec(old(shell)@.buffer);
                            if t.len() > 0 && tokens_of(t) is Some {
                                let toks = tokens_of(t)->Some_0;
                                if toks.len() > 0 && toks[0] == "exit"@ {
                                    assert(cmd_matches(cmd, toks));
                                    assert(!(cmd matches CommandEnum::Exit));
                                    assert(false);
                                }
                            }
                        }
                        shell.commit_to_history();
                        shell.reset_buffers();
                        shell.is_continuation = false;
                        proof {
                            lemma_ops_preserve_wf(old(shell)@, ' ');
                            assert(shell@ =~= after_command_spec(old(shell)@));
                            assert(shell@.view_buffer =~= shell@.buffer.skip(0));
                        }
                        LoopStep::Dispatch(cmd)
                    }
                },
                ParseResult::Incomplete => {
                    let bb = to_char_vec(shell.buffer.as_str());
                    let mut b2 = bb;
                    b2.push('\n');
                    shell.buffer = chars_to_string(&b2);
                    shell.view_buffer = String::new();
                    shell.is_continuation = true;
                    shell.cursor_idx = 0;
                    proof {
                        assert(shell@ =~= continuation_spec(old(shell)@));
                        assert(shell@.view_buffer =~= shell@.buffer.skip(
                            shell@.buffer.len() as int,
                        ));
                    }
                    LoopStep::NewPrompt
                },
                ParseResult::Fatal(_) => {
                    proof {
                        assert(false);
                    }
                    LoopStep::NewPrompt
                },
            }
        },
        Key::Up => {
            shell.recall_previous();
            LoopStep::Redraw
        },
        Key::Down => {
            shell.recall_next();
            LoopStep::Redraw
        },
        Key::Left => {
            shell.move_left();
            proof {
                lemma_ops_preserve_wf(old(shell)@, ' ');
            }
            LoopStep::Redraw
        },
        Key::Right => {
            shell.move_right();
            proof {
                lemma_ops_preserve_wf(old(shell)@, ' ');
            }
            LoopStep::Redraw
        },
        Key::Other => LoopStep::Redraw,
    }
}

} // verus!
