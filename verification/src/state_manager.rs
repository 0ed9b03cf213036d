//! The shell's editing state: the logical edit buffer, the visible line,
//! the cursor, the history, and the continuation flag.
//!
//! Every operation is specified against `ShellModel`, the mathematical
//! value of the state, and the laws at the end of the module state the
//! invariants the operations keep: the cursor never leaves the view, the
//! view is always a suffix of the logical buffer, navigation never
//! rewrites the history.

use vstd::prelude::*;
use vstd::string::StrSliceExecFns;
use crate::pwd::PwdState;
use crate::parser::token_views;
use crate::text::{to_char_vec, chars_to_string, trim_chars, trim_spec};

verus! {

/// The mathematical value of the shell's editing state.
#[verifier::ext_equal]
pub struct ShellModel {
    pub history: Seq<Seq<char>>,
    pub hist_idx: int,
    pub buffer: Seq<char>,
    pub view_buffer: Seq<char>,
    pub is_continuation: bool,
    pub cursor: int,
    pub current_dir: Seq<char>,
    pub old_dir: Seq<char>,
}

/// Well-formedness: the cursor is a character index into the view, the
/// view is the suffix of the logical buffer after the last continuation
/// break, and the history index stays within `[0, len]` (where `len` is
/// the fresh-line sentinel).
pub open spec fn wf(m: ShellModel) -> bool {
    &&& 0 <= m.cursor <= m.view_buffer.len()
    &&& m.view_buffer.len() <= m.buffer.len()
    &&& m.view_buffer == m.buffer.skip(m.buffer.len() - m.view_buffer.len())
    &&& 0 <= m.hist_idx <= m.history.len()
}

/// Clears both buffers and the cursor; history and flags stay.
pub open spec fn reset_spec(m: ShellModel) -> ShellModel {
    ShellModel { buffer: Seq::empty(), view_buffer: Seq::empty(), cursor: 0, ..m }
}

/// Whether a commit appends: the trimmed buffer is non-empty and differs
/// from the last history entry.
pub open spec fn should_append(m: ShellModel) -> bool {
    trim_spec(m.buffer).len() > 0 && !(m.history.len() > 0 && m.history.last() == m.buffer)
}

/// Appends the buffer to the history when `should_append`, and in all
/// cases parks the history index at the fresh-line sentinel.
pub open spec fn commit_spec(m: ShellModel) -> ShellModel {
    let h = if should_append(m) {
        m.history.push(m.buffer)
    } else {
        m.history
    };
    ShellModel { history: h, hist_idx: h.len() as int, ..m }
}

/// Steps to the previous history entry and loads it into both buffers,
/// cursor at the end; a no-op at the oldest entry.
pub open spec fn recall_prev_spec(m: ShellModel) -> ShellModel {
    if m.hist_idx == 0 {
        m
    } else {
        let e = m.history[m.hist_idx - 1];
        ShellModel {
            hist_idx: m.hist_idx - 1,
            buffer: e,
            view_buffer: e,
            cursor: e.len() as int,
            ..m
        }
    }
}

/// Steps to the next history entry, or to a cleared fresh line when the
/// step reaches the sentinel; a no-op at the sentinel itself.
pub open spec fn recall_next_spec(m: ShellModel) -> ShellModel {
    if m.hist_idx >= m.history.len() {
        m
    } else if m.hist_idx + 1 < m.history.len() {
        let e = m.history[m.hist_idx + 1];
        ShellModel {
            hist_idx: m.hist_idx + 1,
            buffer: e,
            view_buffer: e,
            cursor: e.len() as int,
            ..m
        }
    } else {
        ShellModel {
            hist_idx: m.hist_idx + 1,
            buffer: Seq::empty(),
            view_buffer: Seq::empty(),
            cursor: 0,
            ..m
        }
    }
}

/// Inserts a character at the cursor, in the view and at the matching
/// offset of the logical buffer; the cursor moves past it.
pub open spec fn insert_spec(m: ShellModel, c: char) -> ShellModel {
    let base = m.buffer.len() - m.view_buffer.len();
    ShellModel {
        buffer: m.buffer.insert(base + m.cursor, c),
        view_buffer: m.view_buffer.insert(m.cursor, c),
        cursor: m.cursor + 1,
        ..m
    }
}

/// Deletes the character before the cursor from both buffers; a no-op at
/// the start of the view.
pub open spec fn backspace_spec(m: ShellModel) -> ShellModel {
    if m.view_buffer.len() == 0 || m.cursor == 0 {
        m
    } else {
        let base = m.buffer.len() - m.view_buffer.len();
        ShellModel {
            buffer: m.buffer.remove(base + m.cursor - 1),
            view_buffer: m.view_buffer.remove(m.cursor - 1),
            cursor: m.cursor - 1,
            ..m
        }
    }
}

/// Moves the cursor one character left; a no-op at 0.
pub open spec fn left_spec(m: ShellModel) -> ShellModel {
    if m.cursor > 0 {
        ShellModel { cursor: m.cursor - 1, ..m }
    } else {
        m
    }
}

/// Moves the cursor one character right; a no-op at the end of the view.
pub open spec fn right_spec(m: ShellModel) -> ShellModel {
    if m.cursor < m.view_buffer.len() {
        ShellModel { cursor: m.cursor + 1, ..m }
    } else {
        m
    }
}

/// Enters continuation: a newline joins the logical buffer, the view
/// starts over empty, and the continuation flag goes up.
pub open spec fn continuation_spec(m: ShellModel) -> ShellModel {
    ShellModel {
        buffer: m.buffer.push('\n'),
        view_buffer: Seq::empty(),
        is_continuation: true,
        cursor: 0,
        ..m
    }
}

/// The state after a line is handed off: committed, buffers reset, the
/// continuation flag down.
pub open spec fn after_command_spec(m: ShellModel) -> ShellModel {
    ShellModel { is_continuation: false, ..reset_spec(commit_spec(m)) }
}

/// The shell's editing state.  The fields are those the render logic and
/// the main loop read; the methods keep `wf` of the view.
pub struct ShellState {
    pub history: Vec<String>,
    pub hist_idx: usize,
    pub buffer: String,
    pub view_buffer: String,
    pub is_continuation: bool,
    pub pwd: PwdState,
    pub cursor_idx: usize,
}

impl View for ShellState {
    type V = ShellModel;

    open spec fn view(&self) -> ShellModel {
        ShellModel {
            history: token_views(self.history@),
            hist_idx: self.hist_idx as int,
            buffer: self.buffer@,
            view_buffer: self.view_buffer@,
            is_continuation: self.is_continuation,
            cursor: self.cursor_idx as int,
            current_dir: self.pwd.current(),
            old_dir: self.pwd.previous(),
        }
    }
}

impl ShellState {
    /// A fresh state for a session started in the given directory: empty
    /// buffers and history, both working-directory paths at that
    /// directory.
    pub fn new(current_dir: String) -> (r: Self)
        ensures
            r@ == (ShellModel {
                history: Seq::empty(),
                hist_idx: 0,
                buffer: Seq::empty(),
                view_buffer: Seq::empty(),
                is_continuation: false,
                cursor: 0,
                current_dir: current_dir@,
                old_dir: current_dir@,
            }),
            wf(r@),
    {
        let pwd = PwdState::new(current_dir.clone(), current_dir);
        let r = ShellState {
            history: Vec::new(),
            hist_idx: 0,
            buffer: String::new(),
            view_buffer: String::new(),
            is_continuation: false,
            pwd,
            cursor_idx: 0,
        };
        proof {
            assert(token_views(r.history@) =~= Seq::<Seq<char>>::empty());
            assert(r@.view_buffer =~= r@.buffer.skip(0));
        }
        r
    }

    /// Clears both buffers and puts the cursor at the start.
    pub fn reset_buffers(&mut self)
        ensures
            final(self)@ == reset_spec(old(self)@),
            wf(old(self)@) ==> wf(final(self)@),
    {
        self.buffer = String::new();
        self.view_buffer = String::new();
        self.cursor_idx = 0;
        proof {
            assert(self@.view_buffer =~= self@.buffer.skip(0));
            assert(self@ =~= reset_spec(old(self)@));
        }
    }

    /// Appends the buffer to the history unless it trims to nothing or
    /// repeats the last entry, and parks the history index at the
    /// fresh-line sentinel.
    pub fn commit_to_history(&mut self)
        ensures
            final(self)@ == commit_spec(old(self)@),
    {
        let bc = to_char_vec(self.buffer.as_str());
        let t = trim_chars(&bc);
        let n = self.history.len();
        proof {
            assert(token_views(self.history@).len() == n as int);
        }
        let mut dup = false;
        if n > 0 {
            dup = self.history[n - 1].eq(&self.buffer);
            proof {
                assert(token_views(self.history@)[n - 1] == self.history@[n - 1]@);
                assert(old(self)@.history.last() == self.history@[n - 1]@);
            }
        }
        if t.len() > 0 && !dup {
            let ghost pre = self.history@;
            self.history.push(self.buffer.clone());
            proof {
                assert(token_views(self.history@) =~= token_views(pre).push(self.buffer@));
            }
        }
        self.hist_idx = self.history.len();
        proof {
            assert(token_views(self.history@).len() == self.history@.len());
            assert(self@ =~= commit_spec(old(self)@));
        }
    }

    /// Inserts a character at the cursor in the view and at the matching
    /// offset of the logical buffer.
    pub fn insert_char(&mut self, c: char)
        requires
            wf(old(self)@),
        ensures
            final(self)@ == insert_spec(old(self)@, c),
            wf(final(self)@),
    {
        let vb = to_char_vec(self.view_buffer.as_str());
        let bb = to_char_vec(self.buffer.as_str());
        let base = bb.len() - vb.len();
        let mut vb2 = vb;
        vb2.insert(self.cursor_idx, c);
        let mut bb2 = bb;
        bb2.insert(base + self.cursor_idx, c);
        self.view_buffer = chars_to_string(&vb2);
        self.buffer = chars_to_string(&bb2);
        let nl = vb2.len();
        proof {
            assert(self.cursor_idx < nl);
        }
        self.cursor_idx = self.cursor_idx + 1;
        proof {
            assert(self@ =~= insert_spec(old(self)@, c));
            let m = self@;
            assert(m.view_buffer =~= m.buffer.skip(m.buffer.len() - m.view_buffer.len()));
        }
    }

    /// Deletes the character before the cursor from both buffers; a no-op
    /// when the cursor is at the start.
    pub fn backspace(&mut self)
        requires
            wf(old(self)@),
        ensures
            final(self)@ == backspace_spec(old(self)@),
            wf(final(self)@),
    {
        if !self.view_buffer.as_str().is_empty() && self.cursor_idx > 0 {
            let vb = to_char_vec(self.view_buffer.as_str());
            let bb = to_char_vec(self.buffer.as_str());
            let base = bb.len() - vb.len();
            let mut vb2 = vb;
            vb2.remove(self.cursor_idx - 1);
            let mut bb2 = bb;
            bb2.remove(base + self.cursor_idx - 1);
            self.view_buffer = chars_to_string(&vb2);
            self.buffer = chars_to_string(&bb2);
            self.cursor_idx = self.cursor_idx - 1;
            proof {
                assert(self@ =~= backspace_spec(old(self)@));
                let m = self@;
                assert(m.view_buffer =~= m.buffer.skip(m.buffer.len() - m.view_buffer.len()));
            }
        }
    }

    /// Moves the cursor one character left; a no-op at 0.
    pub fn move_left(&mut self)
        ensures
            final(self)@ == left_spec(old(self)@),
    {
        if self.cursor_idx > 0 {
            self.cursor_idx = self.cursor_idx - 1;
        }
    }

    /// Moves the cursor one character right; a no-op at the end of the
    /// view.
    pub fn move_right(&mut self)
        ensures
            final(self)@ == right_spec(old(self)@),
    {
        let n = self.view_buffer.as_str().unicode_len();
        if self.cursor_idx < n {
            self.cursor_idx = self.cursor_idx + 1;
        }
    }

    /// Loads the previous history entry into both buffers, cursor at the
    /// end; a no-op at the oldest entry.
    pub fn recall_previous(&mut self)
        requires
            wf(old(self)@),
        ensures
            final(self)@ == recall_prev_spec(old(self)@),
            wf(final(self)@),
    {
        if self.hist_idx > 0 {
            self.hist_idx = self.hist_idx - 1;
            proof {
                assert(token_views(self.history@).len() == self.history@.len());
                assert(token_views(self.history@)[self.hist_idx as int]
                    == self.history@[self.hist_idx as int]@);
            }
            let entry = self.history[self.hist_idx].clone();
            self.buffer = entry.clone();
            self.view_buffer = entry;
            self.cursor_idx = self.view_buffer.as_str().unicode_len();
        }
        proof {
            let m = self@;
            assert(m.view_buffer =~= m.buffer.skip(m.buffer.len() - m.view_buffer.len()));
            assert(self@ =~= recall_prev_spec(old(self)@));
        }
    }

    /// Steps toward newer history, clearing the buffers when the step
    /// reaches the fresh-line sentinel; a no-op at the sentinel.
    pub fn recall_next(&mut self)
        requires
            wf(old(self)@),
        ensures
            final(self)@ == recall_next_spec(old(self)@),
            wf(final(self)@),
    {
        proof {
            assert(token_views(self.history@).len() == self.history@.len());
        }
        if self.hist_idx < self.history.len() {
            self.hist_idx = self.hist_idx + 1;
            if self.hist_idx < self.history.len() {
                proof {
                    assert(token_views(self.history@)[self.hist_idx as int]
                        == self.history@[self.hist_idx as int]@);
                }
                let entry = self.history[self.hist_idx].clone();
                self.buffer = entry.clone();
                self.view_buffer = entry;
                self.cursor_idx = self.view_buffer.as_str().unicode_len();
            } else {
                self.buffer = String::new();
                self.view_buffer = String::new();
                self.cursor_idx = 0;
            }
        }
        proof {
            let m = self@;
            assert(m.view_buffer =~= m.buffer.skip(m.buffer.len() - m.view_buffer.len()));
            assert(self@ =~= recall_next_spec(old(self)@));
        }
    }
}

/// Every editing and history operation keeps the state well formed: in
/// particular the cursor never leaves `[0, charCount(view)]` and the view
/// stays a suffix of the logical buffer, whatever sequence of operations
/// runs.
pub proof fn lemma_ops_preserve_wf(m: ShellModel, c: char)
    requires
        wf(m),
    ensures
        wf(reset_spec(m)),
        wf(commit_spec(m)),
        wf(recall_prev_spec(m)),
        wf(recall_next_spec(m)),
        wf(insert_spec(m, c)),
        wf(backspace_spec(m)),
        wf(left_spec(m)),
        wf(right_spec(m)),
        wf(continuation_spec(m)),
        wf(after_command_spec(m)),
{
    assert(reset_spec(m).view_buffer =~= reset_spec(m).buffer.skip(0));
    if m.hist_idx != 0 {
        assert(recall_prev_spec(m).view_buffer =~= recall_prev_spec(m).buffer.skip(0));
    }
    if m.hist_idx < m.history.len() {
        assert(recall_next_spec(m).view_buffer =~= recall_next_spec(m).buffer.skip(0));
    }
    let mi = insert_spec(m, c);
    assert(mi.view_buffer =~= mi.buffer.skip(mi.buffer.len() - mi.view_buffer.len()));
    let mb = backspace_spec(m);
    assert(mb.view_buffer =~= mb.buffer.skip(mb.buffer.len() - mb.view_buffer.len()));
    let mc = continuation_spec(m);
    assert(mc.view_buffer =~= mc.buffer.skip(mc.buffer.len() as int));
    let ma = after_command_spec(m);
    assert(ma.view_buffer =~= ma.buffer.skip(0));
}

/// Left at the start of the view and Right at its end are no-ops.
pub proof fn lemma_moves_at_bounds(m: ShellModel)
    ensures
        m.cursor == 0 ==> left_spec(m) == m,
        m.cursor == m.view_buffer.len() ==> right_spec(m) == m,
{
}

/// Inserting a character at the cursor and deleting right after restores
/// the state exactly, for every character — characters are atomic here, so
/// no character can be split.
pub proof fn lemma_insert_then_backspace(m: ShellModel, c: char)
    requires
        wf(m),
    ensures
        backspace_spec(insert_spec(m, c)) == m,
{
    let m1 = insert_spec(m, c);
    let base = m.buffer.len() - m.view_buffer.len();
    assert(m1.view_buffer.remove(m.cursor) =~= m.view_buffer);
    assert(m1.buffer.remove(base + m.cursor) =~= m.buffer);
    assert(backspace_spec(m1) =~= m);
}

/// Committing a line whose trimmed text is non-empty and then recalling
/// previous once restores exactly that line in both buffers, cursor at
/// the end.
pub proof fn lemma_commit_then_recall(m: ShellModel)
    requires
        wf(m),
        trim_spec(m.buffer).len() > 0,
    ensures
        ({
            let m2 = recall_prev_spec(commit_spec(m));
            &&& m2.buffer == m.buffer
            &&& m2.view_buffer == m.buffer
            &&& m2.cursor == m.buffer.len()
        }),
{
}

/// Committing the same buffer twice in a row does not grow the history.
pub proof fn lemma_commit_idempotent(m: ShellModel)
    ensures
        commit_spec(commit_spec(m)).history == commit_spec(m).history,
{
}

/// Recalling next at the newest entry steps to the fresh-line sentinel
/// with cleared buffers; at the sentinel it is a no-op; the history index
/// never leaves `[0, len]`.
pub proof fn lemma_recall_next_at_end(m: ShellModel)
    requires
        wf(m),
    ensures
        m.hist_idx == m.history.len() ==> recall_next_spec(m) == m,
        m.hist_idx + 1 == m.history.len() ==> recall_next_spec(m).buffer
            == Seq::<char>::empty() && recall_next_spec(m).view_buffer == Seq::<char>::empty(),
        wf(recall_next_spec(m)),
{
    if m.hist_idx < m.history.len() {
        assert(recall_next_spec(m).view_buffer =~= recall_next_spec(m).buffer.skip(0));
    }
}

/// History navigation never rewrites the history: only commits append.
pub proof fn lemma_navigation_preserves_history(m: ShellModel)
    ensures
        recall_prev_spec(m).history == m.history,
        recall_next_spec(m).history == m.history,
{
}

} // verus!
