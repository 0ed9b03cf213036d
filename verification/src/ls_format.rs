//! The pure parts of the directory-listing command: option parsing,
//! permission-string and indicator formatting, and the column-aligned
//! long listing.  The filesystem reads happen outside the crate; these
//! functions work on plain values read from the metadata.

use vstd::prelude::*;
use vstd::string::StrSliceExecFns;
use crate::text::chars_to_string;

verus! {

/// The listing's three options: all entries, long format, classify.
#[derive(Debug, Clone, Copy)]
pub struct Flag {
    pub a: bool,
    pub l: bool,
    pub f: bool,
}

/// Whether a character is one of the accepted option letters.
pub open spec fn is_flag_char(c: char) -> bool {
    c == 'a' || c == 'l' || c == 'F'
}

/// Whether an argument is an option group: more than the leading dash,
/// and every later character an accepted option letter.
pub open spec fn is_flag_spec(s: Seq<char>) -> bool {
    s.len() > 1 && forall|j: int| 1 <= j < s.len() ==> is_flag_char(#[trigger] s[j])
}

/// Reads an option group into the flags.  Returns whether the argument
/// was one; the flags pick up exactly the letters present.
pub fn is_flag(arg: &str, flag: &mut Flag) -> (r: bool)
    ensures
        r == is_flag_spec(arg@),
        final(flag).a == (old(flag).a || (r && exists|j: int|
            1 <= j < arg@.len() && #[trigger] arg@[j] == 'a')),
        final(flag).l == (old(flag).l || (r && exists|j: int|
            1 <= j < arg@.len() && #[trigger] arg@[j] == 'l')),
        final(flag).f == (old(flag).f || (r && exists|j: int|
            1 <= j < arg@.len() && #[trigger] arg@[j] == 'F')),
{
    let n = arg.unicode_len();
    if n <= 1 {
        return false;
    }
    let mut i: usize = 1;
    while i < n
        invariant
            1 <= i <= n,
            n == arg@.len(),
            forall|j: int| 1 <= j < i ==> is_flag_char(#[trigger] arg@[j]),
        decreases n - i,
    {
        let c = arg.get_char(i);
        if !(c == 'a' || c == 'l' || c == 'F') {
            return false;
        }
        i = i + 1;
    }
    let mut has_a = false;
    let mut has_l = false;
    let mut has_f = false;
    let mut k: usize = 1;
    while k < n
        invariant
            1 <= k <= n,
            n == arg@.len(),
            has_a == exists|j: int| 1 <= j < k && #[trigger] arg@[j] == 'a',
            has_l == exists|j: int| 1 <= j < k && #[trigger] arg@[j] == 'l',
            has_f == exists|j: int| 1 <= j < k && #[trigger] arg@[j] == 'F',
        decreases n - k,
    {
        let c = arg.get_char(k);
        if c == 'a' {
            has_a = true;
        } else if c == 'l' {
            has_l = true;
        } else if c == 'F' {
            has_f = true;
        }
        k = k + 1;
    }
    flag.a = flag.a || has_a;
    flag.l = flag.l || has_l;
    flag.f = flag.f || has_f;
    true
}

/// What kind of filesystem object an entry is, as the metadata reports
/// it; the listing only reads this classification.
#[derive(Debug, Clone, Copy, PartialEq, Eq, Structural)]
pub enum FileKind {
    Directory,
    Symlink,
    CharDevice,
    BlockDevice,
    Fifo,
    Socket,
    Regular,
}

/// The type character that opens a long-listing line.
pub open spec fn kind_char(kind: FileKind) -> char {
    match kind {
        FileKind::Directory => 'd',
        FileKind::Symlink => 'l',
        FileKind::CharDevice => 'c',
        FileKind::BlockDevice => 'b',
        FileKind::Fifo => 'p',
        FileKind::Socket => 's',
        FileKind::Regular => '-',
    }
}

/// One slot of a permission triple: the plain character when the bit is
/// up, a dash when it is down.
pub open spec fn perm_bit(mode: u32, bit: u32, on: char) -> char {
    if mode & bit != 0 {
        on
    } else {
        '-'
    }
}

/// The execute slot of a triple: a set-id or sticky marker replaces the
/// plain character when the special bit is up.
pub open spec fn exec_bit(mode: u32, bit: u32, special: u32, on: char, off: char) -> char {
    if mode & special != 0 {
        if mode & bit != 0 {
            on
        } else {
            off
        }
    } else {
        if mode & bit != 0 {
            'x'
        } else {
            '-'
        }
    }
}

/// The whole eleven-character permission column: type, three triples,
/// and the extended-attribute marker.
pub open spec fn perm_chars(kind: FileKind, mode: u32, has_xattr: bool) -> Seq<char> {
    seq![
        kind_char(kind),
        perm_bit(mode, 0x100, 'r'),
        perm_bit(mode, 0x80, 'w'),
        exec_bit(mode, 0x40, 0x800, 's', 'S'),
        perm_bit(mode, 0x20, 'r'),
        perm_bit(mode, 0x10, 'w'),
        exec_bit(mode, 0x8, 0x400, 's', 'S'),
        perm_bit(mode, 0x4, 'r'),
        perm_bit(mode, 0x2, 'w'),
        exec_bit(mode, 0x1, 0x200, 't', 'T'),
        if has_xattr {
            '+'
        } else {
            ' '
        },
    ]
}

/// Renders the permission column of a long-listing line from the entry's
/// kind, its mode bits, and whether it carries extended attributes.
pub fn format_permissions(kind: FileKind, mode: u32, has_xattr: bool) -> (r: String)
    ensures
        r@ == perm_chars(kind, mode, has_xattr),
{
    let k = match kind {
        FileKind::Directory => 'd',
        FileKind::Symlink => 'l',
        FileKind::CharDevice => 'c',
        FileKind::BlockDevice => 'b',
        FileKind::Fifo => 'p',
        FileKind::Socket => 's',
        FileKind::Regular => '-',
    };
    let ur = if mode & 0x100 != 0 { 'r' } else { '-' };
    let uw = if mode & 0x80 != 0 { 'w' } else { '-' };
    let ux = if mode & 0x800 != 0 {
        if mode & 0x40 != 0 { 's' } else { 'S' }
    } else {
        if mode & 0x40 != 0 { 'x' } else { '-' }
    };
    let gr = if mode & 0x20 != 0 { 'r' } else { '-' };
    let gw = if mode & 0x10 != 0 { 'w' } else { '-' };
    let gx = if mode & 0x400 != 0 {
        if mode & 0x8 != 0 { 's' } else { 'S' }
    } else {
        if mode & 0x8 != 0 { 'x' } else { '-' }
    };
    let or_ = if mode & 0x4 != 0 { 'r' } else { '-' };
    let ow = if mode & 0x2 != 0 { 'w' } else { '-' };
    let ox = if mode & 0x200 != 0 {
        if mode & 0x1 != 0 { 't' } else { 'T' }
    } else {
        if mode & 0x1 != 0 { 'x' } else { '-' }
    };
    let xa = if has_xattr { '+' } else { ' ' };
    let mut out: Vec<char> = Vec::new();
    out.push(k);
    out.push(ur);
    out.push(uw);
    out.push(ux);
    out.push(gr);
    out.push(gw);
    out.push(gx);
    out.push(or_);
    out.push(ow);
    out.push(ox);
    out.push(xa);
    proof {
        assert(k == kind_char(kind));
        assert(ur == perm_bit(mode, 0x100, 'r'));
        assert(uw == perm_bit(mode, 0x80, 'w'));
        assert(ux == exec_bit(mode, 0x40, 0x800, 's', 'S'));
        assert(gr == perm_bit(mode, 0x20, 'r'));
        assert(gw == perm_bit(mode, 0x10, 'w'));
        assert(gx == exec_bit(mode, 0x8, 0x400, 's', 'S'));
        assert(or_ == perm_bit(mode, 0x4, 'r'));
        assert(ow == perm_bit(mode, 0x2, 'w'));
        assert(ox == exec_bit(mode, 0x1, 0x200, 't', 'T'));
        assert(out@ =~= perm_chars(kind, mode, has_xattr));
    }
    chars_to_string(&out)
}

/// The classify suffix for an entry: a slash for directories, the symbol
/// for links, pipes and sockets, a star for executables, nothing else.
pub open spec fn indicator_suffix(kind: FileKind, mode: u32) -> Seq<char> {
    match kind {
        FileKind::Directory => seq!['/'],
        FileKind::Symlink => seq!['@'],
        FileKind::Fifo => seq!['|'],
        FileKind::Socket => seq!['='],
        _ => if mode & 0x49 != 0 {
            seq!['*']
        } else {
            Seq::empty()
        },
    }
}

/// Appends the classify indicator to a name, from the entry's kind and
/// mode bits.
pub fn append_indicator(name: String, kind: FileKind, mode: u32) -> (r: String)
    ensures
        r@ == name@ + indicator_suffix(kind, mode),
{
    let mut out = crate::text::to_char_vec(name.as_str());
    match kind {
        FileKind::Directory => out.push('/'),
        FileKind::Symlink => out.push('@'),
        FileKind::Fifo => out.push('|'),
        FileKind::Socket => out.push('='),
        _ => {
            if mode & 0x49 != 0 {
                out.push('*');
            }
        },
    }
    proof {
        assert(out@ =~= name@ + indicator_suffix(kind, mode));
    }
    chars_to_string(&out)
}


/// One entry of a long listing, each column already rendered to text,
/// plus the block count that feeds the total line.
#[derive(Debug)]
pub struct LongEntry {
    pub perms: String,
    pub links: String,
    pub user: String,
    pub group: String,
    pub size: String,
    pub date: String,
    pub name: String,
    pub blocks: u64,
}

/// The larger of two lengths.
pub open spec fn max_nat(a: nat, b: nat) -> nat {
    if a > b {
        a
    } else {
        b
    }
}

/// The widest links column among the entries.
pub open spec fn w_links(s: Seq<LongEntry>) -> nat
    decreases s.len(),
{
    if s.len() == 0 {
        0
    } else {
        max_nat(w_links(s.drop_last()), s.last().links@.len())
    }
}

/// The widest user column among the entries.
pub open spec fn w_user(s: Seq<LongEntry>) -> nat
    decreases s.len(),
{
    if s.len() == 0 {
        0
    } else {
        max_nat(w_user(s.drop_last()), s.last().user@.len())
    }
}

/// The widest group column among the entries.
pub open spec fn w_group(s: Seq<LongEntry>) -> nat
    decreases s.len(),
{
    if s.len() == 0 {
        0
    } else {
        max_nat(w_group(s.drop_last()), s.last().group@.len())
    }
}

/// The widest size column among the entries.
pub open spec fn w_size(s: Seq<LongEntry>) -> nat
    decreases s.len(),
{
    if s.len() == 0 {
        0
    } else {
        max_nat(w_size(s.drop_last()), s.last().size@.len())
    }
}

/// The widest date column among the entries.
pub open spec fn w_date(s: Seq<LongEntry>) -> nat
    decreases s.len(),
{
    if s.len() == 0 {
        0
    } else {
        max_nat(w_date(s.drop_last()), s.last().date@.len())
    }
}

/// The sum of the entries' block counts.
pub open spec fn total_blocks(s: Seq<LongEntry>) -> int
    decreases s.len(),
{
    if s.len() == 0 {
        0
    } else {
        total_blocks(s.drop_last()) + s.last().blocks
    }
}

proof fn lemma_total_blocks_prefix(s: Seq<LongEntry>, i: int)
    requires
        0 <= i <= s.len(),
    ensures
        0 <= total_blocks(s.take(i)) <= total_blocks(s),
    decreases s.len(),
{
    if s.len() == 0 {
        assert(s.take(i) =~= s);
    } else if i == s.len() {
        assert(s.take(i) =~= s);
        lemma_total_blocks_prefix(s.drop_last(), s.len() - 1);
        assert(s.drop_last().take(s.len() - 1) =~= s.drop_last());
    } else {
        assert(s.drop_last().take(i) =~= s.take(i));
        lemma_total_blocks_prefix(s.drop_last(), i);
    }
}

/// A run of spaces.
pub open spec fn spaces(n: int) -> Seq<char>
    decreases n,
{
    if n <= 0 {
        Seq::empty()
    } else {
        spaces(n - 1).push(' ')
    }
}

/// Right-aligns a column: pads with spaces on the left up to the width.
pub open spec fn pad_left(s: Seq<char>, w: int) -> Seq<char> {
    spaces(w - s.len()) + s
}

/// Left-aligns a column: pads with spaces on the right up to the width.
pub open spec fn pad_right(s: Seq<char>, w: int) -> Seq<char> {
    s + spaces(w - s.len())
}

/// The decimal digit character for one place value.
pub open spec fn dec_digit(d: int) -> char {
    if d == 0 {
        '0'
    } else if d == 1 {
        '1'
    } else if d == 2 {
        '2'
    } else if d == 3 {
        '3'
    } else if d == 4 {
        '4'
    } else if d == 5 {
        '5'
    } else if d == 6 {
        '6'
    } else if d == 7 {
        '7'
    } else if d == 8 {
        '8'
    } else {
        '9'
    }
}

/// The decimal rendering of a non-negative number, most significant
/// digit first.
pub open spec fn dec_str(n: int) -> Seq<char>
    recommends
        n >= 0,
    decreases n,
{
    if n < 10 {
        seq![dec_digit(n)]
    } else {
        dec_str(n / 10).push(dec_digit(n % 10))
    }
}

fn digit_char(d: u64) -> (r: char)
    requires
        d < 10,
    ensures
        r == dec_digit(d as int),
{
    if d == 0 {
        '0'
    } else if d == 1 {
        '1'
    } else if d == 2 {
        '2'
    } else if d == 3 {
        '3'
    } else if d == 4 {
        '4'
    } else if d == 5 {
        '5'
    } else if d == 6 {
        '6'
    } else if d == 7 {
        '7'
    } else if d == 8 {
        '8'
    } else {
        '9'
    }
}

/// Appends the decimal rendering of a number.
fn push_dec(out: &mut Vec<char>, n: u64)
    ensures
        final(out)@ == old(out)@ + dec_str(n as int),
    decreases n,
{
    if n < 10 {
        out.push(digit_char(n));
        proof {
            assert(out@ =~= old(out)@ + dec_str(n as int));
        }
    } else {
        push_dec(out, n / 10);
        out.push(digit_char(n % 10));
        proof {
            assert(out@ =~= old(out)@ + dec_str(n as int));
        }
    }
}

/// Appends a run of spaces.
fn push_spaces(out: &mut Vec<char>, n: usize)
    ensures
        final(out)@ == old(out)@ + spaces(n as int),
{
    let mut j: usize = 0;
    proof {
        assert(out@ =~= old(out)@ + spaces(0));
    }
    while j < n
        invariant
            j <= n,
            out@ == old(out)@ + spaces(j as int),
        decreases n - j,
    {
        out.push(' ');
        j = j + 1;
        proof {
            assert(out@ =~= old(out)@ + spaces(j as int));
        }
    }
}

/// Appends a string's characters.
fn push_str_chars(out: &mut Vec<char>, s: &String)
    ensures
        final(out)@ == old(out)@ + s@,
{
    let mut cs = crate::text::to_char_vec(s.as_str());
    out.append(&mut cs);
}

/// Appends a right-aligned column.
fn push_pad_left(out: &mut Vec<char>, s: &String, w: usize)
    ensures
        final(out)@ == old(out)@ + pad_left(s@, w as int),
{
    let l = s.as_str().unicode_len();
    if l < w {
        push_spaces(out, w - l);
    } else {
        proof {
            assert(spaces(w - s@.len()) =~= Seq::<char>::empty());
        }
    }
    push_str_chars(out, s);
    proof {
        assert(out@ =~= old(out)@ + pad_left(s@, w as int));
    }
}

/// Appends a left-aligned column.
fn push_pad_right(out: &mut Vec<char>, s: &String, w: usize)
    ensures
        final(out)@ == old(out)@ + pad_right(s@, w as int),
{
    let l = s.as_str().unicode_len();
    push_str_chars(out, s);
    if l < w {
        push_spaces(out, w - l);
    } else {
        proof {
            assert(spaces(w - s@.len()) =~= Seq::<char>::empty());
        }
    }
    proof {
        assert(out@ =~= old(out)@ + pad_right(s@, w as int));
    }
}

/// One rendered line of the long listing, under the given column widths.
pub open spec fn render_line(e: LongEntry, lw: int, uw: int, gw: int, sw: int, dw: int) -> Seq<char> {
    e.perms@ + seq![' '] + pad_left(e.links@, lw) + seq![' '] + pad_right(e.user@, uw) + seq![' ']
        + pad_right(e.group@, gw) + seq![' '] + pad_left(e.size@, sw) + seq![' '] + pad_left(
        e.date@,
        dw,
    ) + seq![' '] + e.name@ + seq!['\n']
}

/// All rendered lines, in order.
pub open spec fn render_lines(s: Seq<LongEntry>, lw: int, uw: int, gw: int, sw: int, dw: int) -> Seq<char>
    decreases s.len(),
{
    if s.len() == 0 {
        Seq::empty()
    } else {
        render_lines(s.drop_last(), lw, uw, gw, sw, dw) + render_line(s.last(), lw, uw, gw, sw, dw)
    }
}

/// The total line above a directory's long listing; the block counts are
/// in halves of a kibibyte, so the shown total halves the sum.
pub open spec fn total_line(total: int) -> Seq<char> {
    seq!['t', 'o', 't', 'a', 'l', ' '] + dec_str(total / 2) + seq!['\n']
}

/// The whole long listing: nothing for no entries; otherwise the total
/// line when asked for, then one aligned line per entry, with every
/// column as wide as its widest value.
pub open spec fn align_spec(s: Seq<LongEntry>, show_total: bool) -> Seq<char> {
    if s.len() == 0 {
        Seq::empty()
    } else {
        (if show_total {
            total_line(total_blocks(s))
        } else {
            Seq::empty()
        }) + render_lines(
            s,
            w_links(s) as int,
            w_user(s) as int,
            w_group(s) as int,
            w_size(s) as int,
            w_date(s) as int,
        )
    }
}

#[verifier::rlimit(50)]
fn render_line_chars(out: &mut Vec<char>, e: &LongEntry, lw: usize, uw: usize, gw: usize, sw: usize, dw: usize)
    ensures
        final(out)@ == old(out)@ + render_line(*e, lw as int, uw as int, gw as int, sw as int, dw as int),
{
    push_str_chars(out, &e.perms);
    out.push(' ');
    push_pad_left(out, &e.links, lw);
    out.push(' ');
    push_pad_right(out, &e.user, uw);
    out.push(' ');
    push_pad_right(out, &e.group, gw);
    out.push(' ');
    push_pad_left(out, &e.size, sw);
    out.push(' ');
    push_pad_left(out, &e.date, dw);
    out.push(' ');
    push_str_chars(out, &e.name);
    out.push('\n');
    proof {
        assert(out@ =~= old(out)@ + render_line(
            *e,
            lw as int,
            uw as int,
            gw as int,
            sw as int,
            dw as int,
        ));
    }
}

/// Renders the long listing with every column aligned to its widest
/// value, and the halved block total above it when asked for.  The block
/// counts must sum within range.
pub fn align_and_format(entries: Vec<LongEntry>, show_total: bool) -> (r: String)
    requires
        total_blocks(entries@) <= u64::MAX,
    ensures
        r@ == align_spec(entries@, show_total),
{
    if entries.len() == 0 {
        return String::new();
    }
    let mut lw: usize = 0;
    let mut uw: usize = 0;
    let mut gw: usize = 0;
    let mut sw: usize = 0;
    let mut dw: usize = 0;
    let mut total: u64 = 0;
    let mut i: usize = 0;
    proof {
        assert(entries@.take(0) =~= Seq::<LongEntry>::empty());
    }
    while i < entries.len()
        invariant
            i <= entries@.len(),
            total_blocks(entries@) <= u64::MAX,
            lw == w_links(entries@.take(i as int)),
            uw == w_user(entries@.take(i as int)),
            gw == w_group(entries@.take(i as int)),
            sw == w_size(entries@.take(i as int)),
            dw == w_date(entries@.take(i as int)),
            total == total_blocks(entries@.take(i as int)),
        decreases entries@.len() - i,
    {
        let e = &entries[i];
        proof {
            assert(entries@.take(i + 1).drop_last() =~= entries@.take(i as int));
            assert(entries@.take(i + 1).last() == entries@[i as int]);
            lemma_total_blocks_prefix(entries@, i + 1);
        }
        let l = e.links.as_str().unicode_len();
        if l > lw {
            lw = l;
        }
        let l = e.user.as_str().unicode_len();
        if l > uw {
            uw = l;
        }
        let l = e.group.as_str().unicode_len();
        if l > gw {
            gw = l;
        }
        let l = e.size.as_str().unicode_len();
        if l > sw {
            sw = l;
        }
        let l = e.date.as_str().unicode_len();
        if l > dw {
            dw = l;
        }
        total = total + e.blocks;
        i = i + 1;
    }
    proof {
        assert(entries@.take(entries@.len() as int) =~= entries@);
    }
    let mut out: Vec<char> = Vec::new();
    if show_total {
        out.push('t');
        out.push('o');
        out.push('t');
        out.push('a');
        out.push('l');
        out.push(' ');
        push_dec(&mut out, total / 2);
        out.push('\n');
        proof {
            assert(out@ =~= total_line(total_blocks(entries@)));
        }
    }
    let ghost header = out@;
    let mut i: usize = 0;
    proof {
        assert(entries@.take(0) =~= Seq::<LongEntry>::empty());
        assert(out@ =~= header + render_lines(
            entries@.take(0),
            lw as int,
            uw as int,
            gw as int,
            sw as int,
            dw as int,
        ));
    }
    while i < entries.len()
        invariant
            i <= entries@.len(),
            out@ == header + render_lines(
                entries@.take(i as int),
                lw as int,
                uw as int,
                gw as int,
                sw as int,
                dw as int,
            ),
        decreases entries@.len() - i,
    {
        render_line_chars(&mut out, &entries[i], lw, uw, gw, sw, dw);
        proof {
            assert(entries@.take(i + 1).drop_last() =~= entries@.take(i as int));
            assert(entries@.take(i + 1).last() == entries@[i as int]);
            assert(out@ =~= header + render_lines(
                entries@.take(i + 1),
                lw as int,
                uw as int,
                gw as int,
                sw as int,
                dw as int,
            ));
        }
        i = i + 1;
    }
    proof {
        assert(entries@.take(entries@.len() as int) =~= entries@);
        assert(out@ =~= align_spec(entries@, show_total));
    }
    chars_to_string(&out)
}

} // verus!
