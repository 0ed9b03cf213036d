//! The pure geometry behind the render engine: character-to-byte offset
//! conversion, row and column arithmetic for the visual cursor, scroll
//! compensation, and the newline-to-CRLF rewriting of the painted text.
//! The terminal writes themselves happen outside the crate; everything
//! here is arithmetic on the shell state.

use vstd::prelude::*;
use vstd::string::StrSliceExecFns;
use vstd::utf8::{encode_utf8, encode_scalar};
use crate::text::chars_to_string;

verus! {

/// The byte width of one character's UTF-8 encoding.
pub fn char_utf8_len(c: char) -> (r: usize)
    ensures
        r == encode_scalar(c as u32).len(),
        1 <= r <= 4,
{
    let u = c as u32;
    if u < 0x80 {
        1
    } else if u < 0x800 {
        2
    } else if u < 0x10000 {
        3
    } else {
        4
    }
}

proof fn lemma_encode_utf8_snoc(s: Seq<char>, c: char)
    ensures
        encode_utf8(s.push(c)) == encode_utf8(s) + encode_scalar(c as u32),
    decreases s.len(),
{
    if s.len() == 0 {
        assert(s.push(c)[0] == c);
        assert(s.push(c).drop_first() =~= Seq::<char>::empty());
        assert(encode_utf8(s.push(c)) == encode_scalar(s.push(c)[0] as u32) + encode_utf8(
            s.push(c).drop_first(),
        ));
        assert(encode_utf8(s.push(c).drop_first()) =~= Seq::<u8>::empty());
        assert(encode_utf8(s) =~= Seq::<u8>::empty());
        assert(encode_utf8(s.push(c)) =~= encode_utf8(s) + encode_scalar(c as u32));
    } else {
        assert(s.push(c)[0] == s[0]);
        assert(s.push(c).drop_first() =~= s.drop_first().push(c));
        lemma_encode_utf8_snoc(s.drop_first(), c);
        assert(encode_scalar(s[0] as u32) + (encode_utf8(s.drop_first()) + encode_scalar(
            c as u32,
        )) =~= (encode_scalar(s[0] as u32) + encode_utf8(s.drop_first())) + encode_scalar(
            c as u32,
        ));
    }
}

proof fn lemma_encode_prefix_le(s: Seq<char>, k: int)
    requires
        0 <= k <= s.len(),
    ensures
        encode_utf8(s.take(k)).len() <= encode_utf8(s).len(),
    decreases s.len(),
{
    if k == 0 {
        assert(s.take(0) =~= Seq::<char>::empty());
    } else {
        assert(s.take(k)[0] == s[0]);
        assert(s.take(k).drop_first() =~= s.drop_first().take(k - 1));
        assert(encode_utf8(s.take(k)) == encode_scalar(s.take(k)[0] as u32) + encode_utf8(
            s.drop_first().take(k - 1),
        ));
        lemma_encode_prefix_le(s.drop_first(), k - 1);
        assert(encode_utf8(s) == encode_scalar(s[0] as u32) + encode_utf8(s.drop_first()));
    }
}

/// The byte offset in a text's UTF-8 encoding that corresponds to a
/// character count; a count past the end maps to the full byte length, as
/// taking that many characters does.
pub open spec fn byte_index_spec(s: Seq<char>, k: int) -> int {
    if k <= s.len() {
        encode_utf8(s.take(k)).len() as int
    } else {
        encode_utf8(s).len() as int
    }
}

/// Converts a character index into the byte offset that storage
/// operations need; never splits a character.
pub fn get_byte_index(s: &str, char_idx: usize) -> (r: usize)
    ensures
        r == byte_index_spec(s@, char_idx as int),
{
    let total = s.as_bytes().len();
    proof {
        assert(total == encode_utf8(s@).len());
    }
    let n = s.unicode_len();
    let stop: usize = if char_idx < n {
        char_idx
    } else {
        n
    };
    let mut r: usize = 0;
    let mut i: usize = 0;
    proof {
        assert(s@.take(0) =~= Seq::<char>::empty());
    }
    while i < stop
        invariant
            i <= stop <= n,
            n == s@.len(),
            total == encode_utf8(s@).len(),
            r == encode_utf8(s@.take(i as int)).len(),
        decreases stop - i,
    {
        let c = s.get_char(i);
        let l = char_utf8_len(c);
        proof {
            lemma_encode_utf8_snoc(s@.take(i as int), c);
            assert(s@.take(i as int).push(s@[i as int]) =~= s@.take(i + 1));
            lemma_encode_prefix_le(s@, i + 1);
        }
        r = r + l;
        i = i + 1;
    }
    proof {
        if char_idx >= n {
            assert(s@.take(n as int) =~= s@);
        }
    }
    r
}

/// How many newline characters a text holds.
pub open spec fn newline_count(s: Seq<char>) -> nat
    decreases s.len(),
{
    if s.len() == 0 {
        0
    } else {
        newline_count(s.drop_last()) + (if s.last() == '\n' {
            1nat
        } else {
            0nat
        })
    }
}

/// The character length of the text after its last newline — the column
/// the text's end sits in, not counting any prompt.
pub open spec fn last_line_len(s: Seq<char>) -> nat
    decreases s.len(),
{
    if s.len() == 0 {
        0
    } else if s.last() == '\n' {
        0
    } else {
        last_line_len(s.drop_last()) + 1
    }
}

/// The terminal rows a painted view occupies: one plus its newlines.
pub open spec fn rows_used_spec(view: Seq<char>) -> int {
    newline_count(view) + 1int
}

/// The render origin after scroll compensation: when painting would run
/// past the bottom of the screen, the origin moves up by the overflow,
/// but never above the top row.
pub open spec fn scroll_origin_spec(start_row: int, rows_used: int, term_rows: int) -> int {
    if start_row + rows_used > term_rows {
        let over = start_row + rows_used - term_rows;
        if over >= start_row {
            0
        } else {
            start_row - over
        }
    } else {
        start_row
    }
}

/// Scroll-compensation invariant: the compensated origin never leaves the
/// screen's top, never moves down, and whenever the screen is tall enough
/// for the buffer's rows, origin plus rows fits on the screen.
pub proof fn lemma_scroll_invariant(start_row: int, rows_used: int, term_rows: int)
    requires
        0 <= start_row,
        0 <= rows_used,
    ensures
        0 <= scroll_origin_spec(start_row, rows_used, term_rows),
        scroll_origin_spec(start_row, rows_used, term_rows) <= start_row,
        rows_used <= term_rows ==> scroll_origin_spec(start_row, rows_used, term_rows) + rows_used
            <= term_rows,
{
}

/// The column of the visual cursor: on the first row the active prompt's
/// length shifts it; every later row starts at column 0.
pub open spec fn cursor_col_spec(view: Seq<char>, cursor: int, prompt_len: int) -> int {
    let pre = view.take(cursor);
    if newline_count(pre) == 0 {
        prompt_len + last_line_len(pre)
    } else {
        last_line_len(pre) as int
    }
}

/// How many rows below the render origin the visual cursor sits.
pub open spec fn cursor_row_offset_spec(view: Seq<char>, cursor: int) -> int {
    newline_count(view.take(cursor)) as int
}

/// Everything a repaint needs: the compensated origin, the rows the view
/// occupies, and the visual cursor's absolute column and row.
pub struct RenderLayout {
    pub start_row: u16,
    pub rows_used: usize,
    pub cursor_col: usize,
    pub cursor_row: usize,
}

/// Computes the whole render geometry for one repaint.  The cursor must
/// be a valid character index of the view (the editing state keeps it
/// so), and the sizes must leave headroom for the additions.
pub fn render_layout(
    view: &str,
    cursor_idx: usize,
    prompt_len: usize,
    start_row: u16,
    term_rows: u16,
) -> (r: RenderLayout)
    requires
        cursor_idx <= view@.len(),
        view@.len() < usize::MAX - 0x10000,
        prompt_len <= usize::MAX - view@.len(),
    ensures
        r.rows_used == rows_used_spec(view@),
        r.start_row == scroll_origin_spec(start_row as int, rows_used_spec(view@), term_rows as int),
        r.cursor_col == cursor_col_spec(view@, cursor_idx as int, prompt_len as int),
        r.cursor_row == r.start_row + cursor_row_offset_spec(view@, cursor_idx as int),
{
    let n = view.unicode_len();
    let mut rows: usize = 0;
    let mut col: usize = 0;
    let mut cursor_rows: usize = 0;
    let mut cursor_col_raw: usize = 0;
    let mut i: usize = 0;
    proof {
        assert(view@.take(0) =~= Seq::<char>::empty());
    }
    while i < n
        invariant
            i <= n,
            n == view@.len(),
            cursor_idx <= n,
            n < usize::MAX - 0x10000,
            rows <= i,
            col <= i,
            cursor_rows <= i,
            cursor_col_raw <= i,
            rows == newline_count(view@.take(i as int)),
            col == last_line_len(view@.take(i as int)),
            cursor_rows == if i <= cursor_idx {
                rows as int
            } else {
                newline_count(view@.take(cursor_idx as int)) as int
            },
            cursor_col_raw == if i <= cursor_idx {
                col as int
            } else {
                last_line_len(view@.take(cursor_idx as int)) as int
            },
        decreases n - i,
    {
        let c = view.get_char(i);
        proof {
            assert(view@.take(i + 1).drop_last() =~= view@.take(i as int));
            assert(view@.take(i + 1).last() == view@[i as int]);
        }
        if c == '\n' {
            rows = rows + 1;
            col = 0;
        } else {
            col = col + 1;
        }
        i = i + 1;
        if i <= cursor_idx {
            cursor_rows = rows;
            cursor_col_raw = col;
        }
    }
    proof {
        assert(view@.take(n as int) =~= view@);
    }
    let rows_used = rows + 1;
    let new_start = scroll_origin(start_row, rows_used, term_rows);
    let cursor_col = if cursor_rows == 0 {
        prompt_len + cursor_col_raw
    } else {
        cursor_col_raw
    };
    let cursor_row = new_start as usize + cursor_rows;
    RenderLayout { start_row: new_start, rows_used, cursor_col, cursor_row }
}

/// Applies the scroll compensation executably.
pub fn scroll_origin(start_row: u16, rows_used: usize, term_rows: u16) -> (r: u16)
    requires
        rows_used <= usize::MAX - 0x10000,
    ensures
        r == scroll_origin_spec(start_row as int, rows_used as int, term_rows as int),
{
    let end = start_row as usize + rows_used;
    if end > term_rows as usize {
        let over = end - term_rows as usize;
        if over >= start_row as usize {
            0
        } else {
            start_row - (over as u16)
        }
    } else {
        start_row
    }
}

/// One character of the terminal rewriting: a newline becomes CR LF.
pub open spec fn crlf_char(c: char) -> Seq<char> {
    if c == '\n' {
        seq!['\r', '\n']
    } else {
        seq![c]
    }
}

/// The view's text as the terminal must receive it: every newline turned
/// into a carriage return and line feed.
pub open spec fn crlf_text(s: Seq<char>) -> Seq<char>
    decreases s.len(),
{
    if s.len() == 0 {
        Seq::empty()
    } else {
        crlf_text(s.drop_last()) + crlf_char(s.last())
    }
}

/// Rewrites the view for painting: newlines become CR LF pairs.
pub fn terminal_text(view: &str) -> (r: String)
    ensures
        r@ == crlf_text(view@),
{
    let n = view.unicode_len();
    let mut out: Vec<char> = Vec::new();
    let mut i: usize = 0;
    proof {
        assert(view@.take(0) =~= Seq::<char>::empty());
        assert(out@ =~= crlf_text(view@.take(0)));
    }
    while i < n
        invariant
            i <= n,
            n == view@.len(),
            out@ == crlf_text(view@.take(i as int)),
        decreases n - i,
    {
        let c = view.get_char(i);
        if c == '\n' {
            out.push('\r');
            out.push('\n');
        } else {
            out.push(c);
        }
        proof {
            assert(view@.take(i + 1).drop_last() =~= view@.take(i as int));
            assert(view@.take(i + 1).last() == view@[i as int]);
            assert(out@ =~= crlf_text(view@.take(i as int)) + crlf_char(view@[i as int]));
        }
        i = i + 1;
    }
    proof {
        assert(view@.take(n as int) =~= view@);
    }
    chars_to_string(&out)
}

/// The active prompt's length in bytes: the fixed two-character
/// continuation prompt, or the working directory plus the fixed
/// two-character suffix.
pub open spec fn prompt_len_spec(is_continuation: bool, current_dir: Seq<char>) -> int {
    if is_continuation {
        2
    } else {
        encode_utf8(current_dir).len() + 2int
    }
}

/// Computes the active prompt's length for the column arithmetic; it must
/// match the prompt actually painted, or the visual cursor desyncs.
pub fn prompt_length(is_continuation: bool, current_dir: &str) -> (r: usize)
    requires
        encode_utf8(current_dir@).len() + 2 <= usize::MAX,
    ensures
        r == prompt_len_spec(is_continuation, current_dir@),
{
    if is_continuation {
        2
    } else {
        current_dir.len() + 2
    }
}

} // verus!
