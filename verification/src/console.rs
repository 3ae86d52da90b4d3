//! The person's end of a device's terminal: keys, lines, completion, and what is drawn.

use vstd::prelude::*;
use vstd::string::*;
use crate::bytes;
use crate::client;
use crate::frame::FrameKind;
use crate::messages::PtyCompleteResult;
use crate::shell;
use crate::text;
use crate::utf16;

verus! {

/// The stream that a client of the control channel uses for its terminal.
pub const CLIENT_STREAM: u32 = 0x50545901;

/// How many bytes of typed input go into one frame, if as many are waiting.
pub const RAW_BATCH_BYTES: usize = 4096;

/// How many units a line of the console may have, and one more.
pub const BUFFER_CHARS: usize = 8192;

/// How many bytes of the last line are remembered as the prompt.
pub const PROMPT_BYTES: usize = 512;

/// A key.
#[derive(Debug, Clone, Copy, PartialEq, Eq, Structural)]
pub enum Key {
    Char(char),
    Enter,
    Tab,
    BackTab,
    Backspace,
    Esc,
    Up,
    Down,
    Right,
    Left,
    Home,
    End,
    PageUp,
    PageDown,
    Delete,
    Insert,
    Function(u8),
    Other,
}

/// What a key is sent as, without regard to the alt key: the control code of a letter, the UTF-8
/// form of a character, the usual escape sequence of any other key. Keys without one are not
/// sent.
pub open spec fn key_code(key: Key, control: bool) -> Option<Seq<u8>> {
    match key {
        Key::Char(c) => if !control {
            Some(vstd::utf8::encode_utf8(seq![c]))
        } else if (c as u32) < 128 {
            Some(seq![(text::lower(c) as u8) & 0x1f])
        } else {
            None
        },
        Key::Enter => Some(seq![13u8]),
        Key::Tab => Some(seq![9u8]),
        Key::BackTab => Some(seq![0x1bu8, 91, 90]),
        Key::Backspace => Some(seq![0x7fu8]),
        Key::Esc => Some(seq![0x1bu8]),
        Key::Up => Some(seq![0x1bu8, 91, 65]),
        Key::Down => Some(seq![0x1bu8, 91, 66]),
        Key::Right => Some(seq![0x1bu8, 91, 67]),
        Key::Left => Some(seq![0x1bu8, 91, 68]),
        Key::Home => Some(seq![0x1bu8, 91, 72]),
        Key::End => Some(seq![0x1bu8, 91, 70]),
        Key::PageUp => Some(seq![0x1bu8, 91, 53, 126]),
        Key::PageDown => Some(seq![0x1bu8, 91, 54, 126]),
        Key::Delete => Some(seq![0x1bu8, 91, 51, 126]),
        Key::Insert => Some(seq![0x1bu8, 91, 50, 126]),
        Key::Function(1) => Some(seq![0x1bu8, 79, 80]),
        Key::Function(2) => Some(seq![0x1bu8, 79, 81]),
        Key::Function(3) => Some(seq![0x1bu8, 79, 82]),
        Key::Function(4) => Some(seq![0x1bu8, 79, 83]),
        Key::Function(5) => Some(seq![0x1bu8, 91, 49, 53, 126]),
        Key::Function(6) => Some(seq![0x1bu8, 91, 49, 55, 126]),
        Key::Function(7) => Some(seq![0x1bu8, 91, 49, 56, 126]),
        Key::Function(8) => Some(seq![0x1bu8, 91, 49, 57, 126]),
        Key::Function(9) => Some(seq![0x1bu8, 91, 50, 48, 126]),
        Key::Function(10) => Some(seq![0x1bu8, 91, 50, 49, 126]),
        Key::Function(11) => Some(seq![0x1bu8, 91, 50, 51, 126]),
        Key::Function(12) => Some(seq![0x1bu8, 91, 50, 52, 126]),
        _ => None,
    }
}

fn sequence(tail: &[u8]) -> (r: Vec<u8>)
    ensures
        r@ == seq![0x1bu8] + tail@,
{
    let mut out: Vec<u8> = Vec::new();
    out.push(0x1b);
    bytes::append(&mut out, tail);
    assert(out@ =~= seq![0x1bu8] + tail@);
    out
}

fn function_code(n: u8) -> (r: Option<Vec<u8>>)
    ensures
        match r {
            Some(code) => key_code(Key::Function(n), false) == Some(code@),
            None => key_code(Key::Function(n), false) is None,
        },
{
    let tail: Vec<u8> = match n {
        1 => vec![79, 80],
        2 => vec![79, 81],
        3 => vec![79, 82],
        4 => vec![79, 83],
        5 => vec![91, 49, 53, 126],
        6 => vec![91, 49, 55, 126],
        7 => vec![91, 49, 56, 126],
        8 => vec![91, 49, 57, 126],
        9 => vec![91, 50, 48, 126],
        10 => vec![91, 50, 49, 126],
        11 => vec![91, 50, 51, 126],
        12 => vec![91, 50, 52, 126],
        _ => return None,
    };
    let code = sequence(tail.as_slice());
    proof {
        assert(key_code(Key::Function(n), false) is Some);
        assert(code@ =~= key_code(Key::Function(n), false)->0);
    }
    Some(code)
}

fn plain_code(key: Key, control: bool) -> (r: Option<Vec<u8>>)
    ensures
        match r {
            Some(code) => key_code(key, control) == Some(code@),
            None => key_code(key, control) is None,
        },
{
    let code: Vec<u8> = match key {
        Key::Char(c) => {
            if control {
                let n: u32 = c as u32;
                if n >= 128 {
                    return None;
                }
                let mut one: Vec<char> = Vec::new();
                one.push(c);
                let low = text::lower_all(one.as_slice());
                vec![(low[0] as u8) & 0x1f]
            } else {
                let mut one: Vec<char> = Vec::new();
                one.push(c);
                assert(one@ =~= seq![c]);
                bytes::copy(text::string_of(one.as_slice()).as_str().as_bytes())
            }
        },
        Key::Enter => vec![13],
        Key::Tab => vec![9],
        Key::BackTab => vec![0x1b, 91, 90],
        Key::Backspace => vec![0x7f],
        Key::Esc => vec![0x1b],
        Key::Up => vec![0x1b, 91, 65],
        Key::Down => vec![0x1b, 91, 66],
        Key::Right => vec![0x1b, 91, 67],
        Key::Left => vec![0x1b, 91, 68],
        Key::Home => vec![0x1b, 91, 72],
        Key::End => vec![0x1b, 91, 70],
        Key::PageUp => vec![0x1b, 91, 53, 126],
        Key::PageDown => vec![0x1b, 91, 54, 126],
        Key::Delete => vec![0x1b, 91, 51, 126],
        Key::Insert => vec![0x1b, 91, 50, 126],
        Key::Function(n) => return function_code(n),
        Key::Other => return None,
    };
    proof {
        assert(key_code(key, control) is Some);
        assert(code@ =~= key_code(key, control)->0);
    }
    Some(code)
}

/// What is sent for a key.
pub open spec fn key_sent(key: Key, control: bool, alt: bool, released: bool) -> Option<Seq<u8>> {
    if released || key_code(key, control) is None {
        None
    } else if alt {
        Some(seq![0x1bu8] + key_code(key, control)->0)
    } else {
        key_code(key, control)
    }
}

/// What is sent for a key: with the alt key an escape stands before it, and a key that is let
/// go is not sent.
pub fn key_bytes(key: Key, control: bool, alt: bool, released: bool) -> (r: Option<Vec<u8>>)
    ensures
        match r {
            Some(sent) => key_sent(key, control, alt, released) == Some(sent@),
            None => key_sent(key, control, alt, released) is None,
        },
{
    if released {
        return None;
    }
    match plain_code(key, control) {
        None => None,
        Some(code) => {
            if alt {
                return Some(sequence(code.as_slice()));
            }
            Some(code)
        },
    }
}

/// A line of the console with one line end.
pub open spec fn normalized(line: Seq<u8>) -> Seq<u8> {
    if line.len() == 0 || line.last() != 10 {
        line
    } else {
        let content = line.drop_last();
        if content.len() > 0 && content.last() == 13 {
            content.drop_last().push(10)
        } else {
            line
        }
    }
}

/// Makes of the console's line end the one that a terminal takes for enter. A console may end a
/// line with two characters, which a terminal would take for two lines.
pub fn normalize_console_line(line: &[u8]) -> (r: Vec<u8>)
    ensures
        r@ == normalized(line@),
{
    let n: usize = line.len();
    if n < 2 || line[n - 1] != 10 || line[n - 2] != 13 {
        let out = bytes::copy(line);
        return out;
    }
    let mut out = bytes::copy_range(line, 0, n - 2);
    out.push(10);
    proof {
        assert(line@.drop_last().last() == line@[n - 2]);
        assert(line@.subrange(0, n - 2) =~= line@.drop_last().drop_last());
    }
    out
}

/// A line that has one line end keeps it: normalizing twice does no more than once, where the
/// content of the line does not itself end with a carriage return.
pub proof fn lemma_one_enter_per_line(content: Seq<u8>)
    requires
        content.len() == 0 || content.last() != 13,
    ensures
        normalized(content + seq![13u8, 10]) == content + seq![10u8],
        normalized(content + seq![10u8]) == content + seq![10u8],
{
    let both = content + seq![13u8, 10];
    assert(both.last() == 10);
    assert(both.drop_last().last() == 13);
    assert(both.drop_last().drop_last().push(10) =~= content + seq![10u8]);
    let one = content + seq![10u8];
    assert(one.drop_last() =~= content);
}

/// The text after the last line break; all of a text without one.
pub open spec fn after_last_break(s: Seq<char>) -> Seq<char>
    decreases s.len(),
{
    if s.len() == 0 {
        s
    } else if s.last() == '\r' || s.last() == '\n' {
        Seq::empty()
    } else {
        after_last_break(s.drop_last()).push(s.last())
    }
}

pub open spec fn has_break(s: Seq<char>) -> bool {
    s.contains('\r') || s.contains('\n')
}

/// The longest end of a text that takes no more than some bytes.
pub open spec fn last_bytes(s: Seq<char>, n: nat) -> Seq<char>
    decreases s.len(),
{
    if s.len() == 0 || text::byte_len(s) <= n {
        s
    } else {
        last_bytes(s.drop_first(), n)
    }
}

/// The last line of the output, after more of it.
pub open spec fn tail_after(tail: Seq<char>, output: Seq<char>) -> Seq<char> {
    last_bytes(
        if has_break(output) {
            after_last_break(output)
        } else {
            tail + output
        },
        PROMPT_BYTES as nat,
    )
}

proof fn lemma_last_bytes(s: Seq<char>, n: nat, i: int)
    requires
        0 <= i <= s.len(),
        text::byte_len(s.skip(i)) <= n,
        i > 0 ==> text::byte_len(s.skip(i - 1)) > n,
    ensures
        last_bytes(s, n) == s.skip(i),
    decreases i,
{
    if i == 0 {
        assert(s.skip(0) =~= s);
    } else {
        let front = s.take(i - 1);
        let rest = s.skip(i - 1);
        assert(s =~= front + rest);
        text::lemma_encode_concat(front, rest);
        assert(s.drop_first().skip(i - 1) =~= s.skip(i));
        if i > 1 {
            assert(s.drop_first().skip(i - 2) =~= s.skip(i - 1));
        } else {
            assert(text::byte_len(s) > n);
        }
        lemma_last_bytes(s.drop_first(), n, i - 1);
    }
}

fn keep_last(s: &[char], n: usize) -> (r: Vec<char>)
    ensures
        r@ == last_bytes(s@, n as nat),
{
    let mut used: usize = 0;
    let mut i: usize = s.len();
    proof {
        assert(s@.skip(i as int) =~= Seq::<char>::empty());
        assert(text::byte_len(Seq::<char>::empty()) == 0);
    }
    while i > 0
        invariant_except_break
            i <= s@.len(),
            used <= n,
            used == text::byte_len(s@.skip(i as int)),
        ensures
            i <= s@.len(),
            text::byte_len(s@.skip(i as int)) <= n,
            i > 0 ==> text::byte_len(s@.skip(i - 1)) > n,
        decreases i,
    {
        let w: usize = text::char_width(s[i - 1]);
        proof {
            assert(s@.skip(i - 1) =~= seq![s@[i - 1]] + s@.skip(i as int));
            text::lemma_encode_concat(seq![s@[i - 1]], s@.skip(i as int));
        }
        if w > n - used {
            break ;
        }
        used = used + w;
        i -= 1;
    }
    proof {
        lemma_last_bytes(s@, n as nat, i as int);
        assert(s@.subrange(i as int, s@.len() as int) =~= s@.skip(i as int));
    }
    text::copy_range(s, i, s.len())
}

proof fn lemma_after_break(s: Seq<char>, i: int)
    requires
        0 <= i <= s.len(),
        forall|j: int| i <= j < s.len() ==> #[trigger] s[j] != '\r' && s[j] != '\n',
        i > 0 ==> s[i - 1] == '\r' || s[i - 1] == '\n',
    ensures
        after_last_break(s) == s.skip(i),
        has_break(s) <==> i > 0,
    decreases s.len() - i,
{
    if i == s.len() {
        assert(s.skip(i) =~= Seq::<char>::empty());
        if i > 0 {
            assert(s.contains(s[i - 1]));
        } else {
            assert(s =~= Seq::<char>::empty());
        }
    } else {
        let init = s.drop_last();
        assert(s[s.len() - 1] != '\r' && s[s.len() - 1] != '\n');
        assert forall|j: int| i <= j < init.len() implies #[trigger] init[j] != '\r' && init[j]
            != '\n' by {
            assert(init[j] == s[j]);
        }
        lemma_after_break(init, i);
        assert(init.skip(i).push(s.last()) =~= s.skip(i));
        assert forall|c: char| init.contains(c) implies s.contains(c) by {
            let k = init.index_of(c);
            assert(s[k] == c);
        }
        if has_break(s) {
            let c = if s.contains('\r') {
                '\r'
            } else {
                '\n'
            };
            let k = s.index_of(c);
            assert(s[k] == c);
            assert(init[k] == c);
            assert(init.contains(c));
        }
    }
}

/// Remembers the last line of the output: what the prompt and the line are drawn again from.
pub fn update_prompt_tail(tail: &mut String, payload: &[u8])
    ensures
        final(tail)@ == tail_after(old(tail)@, text::lossy(payload@)),
{
    let output = text::chars_of(text::lossy_text(payload).as_str());
    let mut i: usize = output.len();
    while i > 0 && output[i - 1] != '\r' && output[i - 1] != '\n'
        invariant
            i <= output@.len(),
            forall|j: int|
                i <= j < output@.len() ==> #[trigger] output@[j] != '\r' && output@[j] != '\n',
        decreases i,
    {
        i -= 1;
    }
    proof {
        lemma_after_break(output@, i as int);
        assert(output@.subrange(i as int, output@.len() as int) =~= output@.skip(i as int));
    }
    let mut line: Vec<char> = Vec::new();
    if i == 0 {
        line = text::chars_of(tail.as_str());
        assert(output@.skip(0) =~= output@);
    }
    let mut more = text::copy_range(output.as_slice(), i, output.len());
    line.append(&mut more);
    proof {
        if i > 0 {
            assert(line@ =~= after_last_break(output@));
        } else {
            assert(line@ =~= old(tail)@ + output@);
        }
    }
    *tail = text::string_of(keep_last(line.as_slice(), PROMPT_BYTES).as_slice());
}

/// The longest of some names, in characters.
pub open spec fn longest(names: Seq<Seq<char>>) -> nat
    decreases names.len(),
{
    if names.len() == 0 {
        0
    } else if names.last().len() > longest(names.drop_last()) {
        names.last().len()
    } else {
        longest(names.drop_last())
    }
}

/// How names are laid out: so many columns of a width, and so many rows.
pub struct Grid {
    pub width: int,
    pub columns: int,
    pub rows: int,
}

/// The layout of names on a screen: as many columns as fit, and no more rows than they need.
pub open spec fn grid(names: Seq<Seq<char>>, screen: int) -> Grid {
    let width = longest(names) + 2;
    let fit = (if screen < 1 {
        1
    } else {
        screen
    }) / width as int;
    let columns = if fit < 1 {
        1
    } else {
        fit
    };
    Grid { width: width as int, columns, rows: (names.len() + columns - 1) / columns }
}

/// Blanks.
pub open spec fn blanks(n: int) -> Seq<char> {
    Seq::new(
        if n < 0 {
            0
        } else {
            n as nat
        },
        |i: int| ' ',
    )
}

/// The names of a row in its first columns: a name is followed by blanks up to the next column,
/// unless it is the last of its row.
pub open spec fn row_text(names: Seq<Seq<char>>, g: Grid, row: int, columns: int) -> Seq<char>
    decreases columns,
{
    if columns <= 0 {
        Seq::empty()
    } else {
        let before = row_text(names, g, row, columns - 1);
        let index = (columns - 1) * g.rows + row;
        if index >= names.len() {
            before
        } else if columns < g.columns && index + g.rows < names.len() {
            before + names[index] + blanks(g.width - names[index].len())
        } else {
            before + names[index]
        }
    }
}

/// The first rows of a list, one below the other.
pub open spec fn rows_text(names: Seq<Seq<char>>, g: Grid, rows: int) -> Seq<char>
    decreases rows,
{
    if rows <= 0 {
        Seq::empty()
    } else {
        let row = row_text(names, g, rows - 1, g.columns);
        if rows < g.rows {
            rows_text(names, g, rows - 1) + row + "\r\n"@
        } else {
            rows_text(names, g, rows - 1) + row
        }
    }
}

/// A list of names in columns, and how many more there are.
pub open spec fn listing(names: Seq<Seq<char>>, count: u32, screen: int) -> Seq<char> {
    let g = grid(names, screen);
    let shown = (names.len() % 0x1_0000_0000) as int;
    if names.len() == 0 {
        Seq::empty()
    } else if count > shown {
        rows_text(names, g, g.rows) + "\r\n... "@ + text::decimal((count - shown) as nat) + " more"@
    } else {
        rows_text(names, g, g.rows)
    }
}

/// Every name has a place in the list: the columns are filled one after the other.
pub proof fn lemma_every_candidate_is_shown(names: Seq<Seq<char>>, screen: int, i: int)
    requires
        0 <= i < names.len(),
    ensures
        ({
            let g = grid(names, screen);
            &&& g.rows > 0
            &&& 0 <= i % g.rows < g.rows
            &&& 0 <= i / g.rows < g.columns
            &&& (i / g.rows) * g.rows + i % g.rows == i
        }),
{
    let g = grid(names, screen);
    lemma_grid(names, screen);
    vstd::arithmetic::div_mod::lemma_fundamental_div_mod(i, g.rows);
    vstd::arithmetic::div_mod::lemma_mod_bound(i, g.rows);
    let q = i / g.rows;
    assert(q * g.rows == g.rows * q) by (nonlinear_arith);
    assert(q >= 0) by (nonlinear_arith)
        requires
            i >= 0,
            g.rows > 0,
            q == i / g.rows,
    ;
    if q >= g.columns {
        assert(g.columns * g.rows <= q * g.rows) by (nonlinear_arith)
            requires
                q >= g.columns,
                g.rows > 0,
        ;
    }
}

proof fn lemma_grid(names: Seq<Seq<char>>, screen: int)
    requires
        names.len() > 0,
    ensures
        ({
            let g = grid(names, screen);
            &&& g.width >= 2
            &&& g.columns >= 1
            &&& g.rows >= 1
            &&& g.rows <= names.len()
            &&& g.columns * g.rows >= names.len()
            &&& screen <= 65535 ==> g.columns <= 65535
        }),
{
    let g = grid(names, screen);
    let n = names.len() as int;
    let total = n + g.columns - 1;
    let s = if screen < 1 {
        1
    } else {
        screen
    };
    assert(s / g.width <= s) by (nonlinear_arith)
        requires
            s >= 1,
            g.width >= 2,
    ;
    vstd::arithmetic::div_mod::lemma_fundamental_div_mod(total, g.columns);
    vstd::arithmetic::div_mod::lemma_mod_bound(total, g.columns);
    assert(g.rows >= 1) by (nonlinear_arith)
        requires
            g.columns >= 1,
            total >= g.columns,
            g.rows == total / g.columns,
    ;
    assert(g.rows <= n) by (nonlinear_arith)
        requires
            g.columns >= 1,
            n >= 1,
            total == n + g.columns - 1,
            g.rows == total / g.columns,
    ;
}

fn pad(out: &mut String, n: u128)
    ensures
        final(out)@ == old(out)@ + blanks(n as int),
{
    let mut i: u128 = 0;
    assert(out@ =~= old(out)@ + blanks(0));
    while i < n
        invariant
            i <= n,
            out@ == old(out)@ + blanks(i as int),
        decreases n - i,
    {
        out.push(' ');
        i += 1;
        assert(out@ =~= old(out)@ + blanks(i as int));
    }
}

fn longest_name(candidates: &[String]) -> (r: usize)
    ensures
        r == longest(shell::views(candidates@)),
{
    let mut max: usize = 0;
    let mut i: usize = 0;
    let ghost names = shell::views(candidates@);
    assert(names.take(0) =~= Seq::<Seq<char>>::empty());
    while i < candidates.len()
        invariant
            i <= candidates@.len(),
            names == shell::views(candidates@),
            max == longest(names.take(i as int)),
        decreases candidates@.len() - i,
    {
        proof {
            assert(names.take(i + 1).drop_last() =~= names.take(i as int));
            assert(names.take(i + 1).last() == candidates@[i as int]@);
        }
        let n: usize = text::chars_of(candidates[i].as_str()).len();
        if n > max {
            max = n;
        }
        i += 1;
    }
    assert(names.take(i as int) =~= names);
    max
}

/// Appends one row to a list.
fn append_row(
    out: &mut String,
    candidates: &[String],
    width: u128,
    columns: u128,
    rows: u128,
    row: u128,
)
    requires
        columns <= 65535,
        row < rows <= candidates@.len(),
        width <= usize::MAX + 2,
    ensures
        final(out)@ == old(out)@ + row_text(
            shell::views(candidates@),
            (Grid { width: width as int, columns: columns as int, rows: rows as int }),
            row as int,
            columns as int,
        ),
{
    let ghost g = Grid { width: width as int, columns: columns as int, rows: rows as int };
    let ghost names = shell::views(candidates@);
    let total: usize = candidates.len();
    let mut column: u128 = 0;
    let mut index: u128 = row;
    assert(old(out)@ + Seq::<char>::empty() =~= old(out)@);
    while column < columns
        invariant
            column <= columns,
            columns <= 65535,
            row < rows <= candidates@.len(),
            total == candidates@.len(),
            index == column * rows + row,
            width <= usize::MAX + 2,
            g == (Grid { width: width as int, columns: columns as int, rows: rows as int }),
            names == shell::views(candidates@),
            out@ == old(out)@ + row_text(names, g, row as int, column as int),
        decreases columns - column,
    {
        let ghost before = row_text(names, g, row as int, column as int);
        proof {
            assert((column + 1) * rows == column * rows + rows) by (nonlinear_arith);
            assert(column * rows <= 65535 * rows) by (nonlinear_arith)
                requires
                    column <= 65535,
            ;
        }
        if index < total as u128 {
            let at: usize = index as usize;
            assert(names[at as int] == candidates@[at as int]@);
            out.append(candidates[at].as_str());
            if column + 1 < columns && index + rows < total as u128 {
                let n: usize = text::chars_of(candidates[at].as_str()).len();
                if width > n as u128 {
                    pad(out, width - n as u128);
                } else {
                    assert(blanks(width - n) =~= Seq::<char>::empty());
                    assert(before + names[at as int] + blanks(width - n) =~= before
                        + names[at as int]);
                }
                assert(out@ =~= old(out)@ + (before + names[at as int] + blanks(width - n)));
            } else {
                assert(out@ =~= old(out)@ + (before + names[at as int]));
            }
        }
        column += 1;
        index = index + rows;
    }
}

/// Lays candidates out in columns, and says how many more there are.
pub fn format_completion_candidates(
    candidates: &[String],
    candidate_count: u32,
    terminal_width: u16,
) -> (r: String)
    ensures
        r@ == listing(shell::views(candidates@), candidate_count, terminal_width as int),
{
    let ghost names = shell::views(candidates@);
    let ghost g = grid(names, terminal_width as int);
    let total: usize = candidates.len();
    if total == 0 {
        return String::new();
    }
    proof {
        lemma_grid(names, terminal_width as int);
    }
    let width: u128 = longest_name(candidates) as u128 + 2;
    let screen: u128 = if terminal_width < 1 {
        1
    } else {
        terminal_width as u128
    };
    let fit: u128 = screen / width;
    let columns: u128 = if fit < 1 {
        1
    } else {
        fit
    };
    let rows: u128 = (total as u128 + columns - 1) / columns;
    let mut out = String::new();
    let mut row: u128 = 0;
    while row < rows
        invariant
            row <= rows,
            rows <= candidates@.len(),
            columns <= 65535,
            width <= usize::MAX + 2,
            g == (Grid { width: width as int, columns: columns as int, rows: rows as int }),
            names == shell::views(candidates@),
            out@ == rows_text(names, g, row as int),
        decreases rows - row,
    {
        append_row(&mut out, candidates, width, columns, rows, row);
        if row + 1 < rows {
            out.append("\r\n");
        }
        row += 1;
    }
    let shown: u64 = total as u64 % 0x1_0000_0000;
    if candidate_count as u64 > shown {
        out.append("\r\n... ");
        out.append(text::decimal_string(candidate_count as u64 - shown).as_str());
        out.append(" more");
    }
    out
}

/// What is typed on the console until a line or a tab is complete.
pub struct LineReader {
    /// What the line begins with: the units that were typed before.
    pub keep: Vec<u16>,
    /// The line and the cursor that the last tab left, if there was a choice.
    pub last: Option<(String, usize)>,
}

/// What is done about what was typed.
#[derive(Debug)]
pub enum LineAction {
    /// Read on.
    Again,
    /// Ask the device to complete the line at the cursor, which is at its end.
    Complete { line: String, cursor: usize },
    /// Send a line to the device.
    Send(Vec<u8>),
    /// Give up.
    Fail(&'static str),
}

/// What is drawn after a completion.
#[derive(Debug)]
pub enum Drawn {
    /// This text; then read on.
    Text(String),
    /// Nothing; then read on.
    Nothing,
}

/// The first tab among some units; their number if there is none.
pub open spec fn tab_at(w: Seq<u16>) -> nat
    decreases w.len(),
{
    if w.len() == 0 || w[0] == 9 {
        0
    } else {
        1 + tab_at(w.drop_first())
    }
}

fn find_tab(w: &[u16]) -> (r: usize)
    ensures
        r == tab_at(w@),
        r <= w@.len(),
{
    let mut i: usize = 0;
    assert(w@.skip(0) =~= w@);
    while i < w.len()
        invariant
            i <= w@.len(),
            tab_at(w@) == i + tab_at(w@.skip(i as int)),
        decreases w@.len() - i,
    {
        assert(w@.skip(i as int)[0] == w@[i as int]);
        if w[i] == 9 {
            return i;
        }
        assert(w@.skip(i as int).drop_first() =~= w@.skip(i + 1));
        i += 1;
    }
    i
}

fn copy_units(w: &[u16], from: usize, to: usize) -> (r: Vec<u16>)
    requires
        from <= to <= w@.len(),
    ensures
        r@ == w@.subrange(from as int, to as int),
{
    let mut out: Vec<u16> = Vec::new();
    let mut i: usize = from;
    while i < to
        invariant
            from <= i <= to <= w@.len(),
            out@ == w@.subrange(from as int, i as int),
        decreases to - i,
    {
        out.push(w[i]);
        i += 1;
        assert(out@ =~= w@.subrange(from as int, i as int));
    }
    out
}

/// The line at a cursor that a completion left; the whole line if the cursor is no place in it.
pub open spec fn up_to(line: Seq<char>, cursor: nat) -> Seq<char> {
    if text::on_boundary(line, cursor) {
        line.take(text::chars_within(line, cursor) as int)
    } else {
        line
    }
}

/// The cursor that a completion left: never behind the end of the line.
pub open spec fn cursor_of(result: PtyCompleteResult) -> nat {
    if result.cursor > text::byte_len(result.line@) {
        text::byte_len(result.line@)
    } else {
        result.cursor as nat
    }
}

/// The remembered line and cursor.
pub open spec fn last_view(last: Option<(String, usize)>) -> Option<(Seq<char>, nat)> {
    match last {
        Some(l) => Some((l.0@, l.1 as nat)),
        None => None,
    }
}

/// Whether the candidates are shown: a second tab at the same place, with a choice.
pub open spec fn shows_candidates(
    last: Option<(Seq<char>, nat)>,
    line: Seq<char>,
    cursor: nat,
    result: PtyCompleteResult,
) -> bool {
    result.candidate_count > 1 && last == Some((line, cursor))
}

/// What is sent for a line that was typed.
pub open spec fn line_sent(w: Seq<u16>) -> Seq<u8> {
    normalized(vstd::utf8::encode_utf8(utf16::decoded(w)))
}

/// What is drawn for a completion: the candidates, the prompt and the line, or what it adds to
/// the line; `None` where it goes on from something else.
pub open spec fn drawn_for(
    last: Option<(Seq<char>, nat)>,
    line: Seq<char>,
    cursor: nat,
    result: PtyCompleteResult,
    prompt: Seq<char>,
    width: u16,
) -> Option<Seq<char>> {
    if shows_candidates(last, line, cursor, result) {
        Some(
            "\r\n"@ + listing(
                shell::views(result.candidates@),
                result.candidate_count,
                width as int,
            ) + "\r\n"@ + prompt + result.line@,
        )
    } else {
        text::strip_prefix(up_to(result.line@, cursor_of(result)), line)
    }
}

/// What is remembered of a completion: its line and cursor, if there was a choice.
pub open spec fn remembered(result: PtyCompleteResult) -> Option<(Seq<char>, nat)> {
    if result.candidate_count > 1 {
        Some((result.line@, cursor_of(result)))
    } else {
        None
    }
}

impl LineReader {
    pub open spec fn wf(&self) -> bool {
        self.keep@.len() < BUFFER_CHARS
    }

    pub fn new() -> (r: LineReader)
        ensures
            r.wf(),
            r.keep@ == Seq::<u16>::empty(),
            r.last is None,
    {
        LineReader { keep: Vec::new(), last: None }
    }

    /// Whether there is room for more on the line.
    pub fn check_room(&self) -> (r: Result<(), &'static str>)
        ensures
            r is Ok <==> self.keep@.len() < BUFFER_CHARS - 1,
            r matches Err(message) ==> message@ == "console input line is too long"@,
    {
        if self.keep.len() >= BUFFER_CHARS - 1 {
            return Err("console input line is too long");
        }
        Ok(())
    }

    /// Takes what the console handed over: a line, or what was typed up to a tab. A tab in the
    /// middle of a line is dropped.
    pub fn typed(&mut self, w: &[u16]) -> (r: LineAction)
        requires
            old(self).wf(),
        ensures
            final(self).wf(),
            ({
                let tab = tab_at(w@) as int;
                let line = utf16::decoded(w@.take(tab)) + utf16::decoded(w@.skip(tab + 1));
                if w@.len() == 0 {
                    r is Again && *final(self) == *old(self)
                } else if tab >= w@.len() {
                    &&& (r matches LineAction::Send(sent) && sent@ == line_sent(w@))
                    &&& final(self).last is None
                    &&& final(self).keep@ == Seq::<u16>::empty()
                } else if tab + 1 < w@.len() {
                    &&& final(self).last is None
                    &&& if utf16::encoded(line).len() < BUFFER_CHARS {
                        r is Again && final(self).keep@ == utf16::encoded(line)
                    } else {
                        (r matches LineAction::Fail(message) && message@
                            == "console input line is too long"@)
                    }
                } else {
                    &&& (r matches LineAction::Complete { line: asked, cursor } && asked@
                        == utf16::decoded(w@.take(tab)) && cursor == text::byte_len(asked@))
                    &&& *final(self) == *old(self)
                }
            }),
    {
        let count: usize = w.len();
        if count == 0 {
            return LineAction::Again;
        }
        let tab = find_tab(w);
        if tab >= count {
            self.last = None;
            self.keep = Vec::new();
            let line = utf16::from_utf16_lossy(w);
            return LineAction::Send(normalize_console_line(line.as_str().as_bytes()));
        }
        let before = copy_units(w, 0, tab);
        let after = copy_units(w, tab + 1, count);
        proof {
            assert(w@.subrange(0, tab as int) =~= w@.take(tab as int));
            assert(w@.subrange(tab + 1, count as int) =~= w@.skip(tab + 1));
        }
        let mut line = utf16::from_utf16_lossy(before.as_slice());
        if tab + 1 != count {
            line.append(utf16::from_utf16_lossy(after.as_slice()).as_str());
            self.last = None;
            let wide = utf16::encode_utf16(line.as_str());
            if wide.len() >= BUFFER_CHARS {
                return LineAction::Fail("console input line is too long");
            }
            self.keep = wide;
            return LineAction::Again;
        }
        let cursor: usize = line.as_str().as_bytes().len();
        LineAction::Complete { line, cursor }
    }

    /// Takes the completion of a line: a first tab draws what was added before the cursor, a
    /// second one at the same place the candidates, the prompt and the line.
    pub fn completed(
        &mut self,
        line: &str,
        cursor: usize,
        result: PtyCompleteResult,
        prompt: &str,
        width: u16,
    ) -> (r: (Drawn, Result<(), &'static str>))
        requires
            old(self).wf(),
        ensures
            final(self).wf(),
            match (
                r.0,
                drawn_for(
                    last_view(old(self).last),
                    line@,
                    cursor as nat,
                    result,
                    prompt@,
                    width,
                ),
            ) {
                (Drawn::Text(drawn), Some(text)) => drawn@ == text,
                (Drawn::Nothing, None) => true,
                _ => false,
            },
            last_view(final(self).last) == remembered(result),
            if utf16::encoded(result.line@).len() < BUFFER_CHARS {
                r.1 is Ok && final(self).keep@ == utf16::encoded(result.line@)
            } else {
                final(self).keep@ == old(self).keep@ && (r.1 matches Err(message) && message@
                    == "completed console line is too long"@)
            },
    {
        let chars = text::chars_of(result.line.as_str());
        let len: usize = result.line.as_str().as_bytes().len();
        let at: usize = if result.cursor as u64 > len as u64 {
            len
        } else {
            result.cursor as usize
        };
        let again = match &self.last {
            Some(l) => text::equal(l.0.as_str(), line) && l.1 == cursor,
            None => false,
        };
        let drawn = if result.candidate_count > 1 && again {
            let list = format_completion_candidates(
                result.candidates.as_slice(),
                result.candidate_count,
                width,
            );
            let mut out = text::cat4("\r\n", list.as_str(), "\r\n", prompt);
            out.append(result.line.as_str());
            Drawn::Text(out)
        } else {
            let n = text::count_within(chars.as_slice(), at);
            let on_boundary = text::bytes_before(chars.as_slice(), n) == at;
            let end = if on_boundary {
                n
            } else {
                chars.len()
            };
            let head = text::copy_range(chars.as_slice(), 0, end);
            proof {
                assert(chars@.subrange(0, n as int) =~= chars@.take(n as int));
                assert(chars@.subrange(0, chars@.len() as int) =~= chars@);
                assert(head@ == up_to(result.line@, at as nat));
            }
            match text::after_prefix(head.as_slice(), line) {
                Some(added) => Drawn::Text(text::string_of(added.as_slice())),
                None => Drawn::Nothing,
            }
        };
        let wide = utf16::encode_utf16(result.line.as_str());
        self.last = if result.candidate_count > 1 {
            Some((result.line, at))
        } else {
            None
        };
        if wide.len() >= BUFFER_CHARS {
            return (drawn, Err("completed console line is too long"));
        }
        self.keep = wide;
        (drawn, Ok(()))
    }
}

/// What happens on the person's side of a terminal.
#[derive(Debug)]
pub enum ConsoleEvent {
    Input(Vec<u8>),
    Resize { cols: u16, rows: u16 },
    Complete { line: String, cursor: usize },
    Failed(String),
    /// No more input.
    End,
}

/// What is done about it on a raw terminal.
#[derive(Debug)]
pub enum RawAction {
    /// Gather what more is waiting, then send it.
    Batch(Vec<u8>),
    Resize { cols: u16, rows: u16 },
    /// Say that the line cannot be completed.
    RefuseCompletion,
    /// Close the terminal, and fail.
    CloseAndFail(String),
    /// Close the terminal, and end.
    CloseAndEnd,
}

pub open spec fn raw_action(event: ConsoleEvent) -> RawAction {
    match event {
        ConsoleEvent::Input(input) => RawAction::Batch(input),
        ConsoleEvent::Resize { cols, rows } => RawAction::Resize { cols, rows },
        ConsoleEvent::Complete { .. } => RawAction::RefuseCompletion,
        ConsoleEvent::Failed(message) => RawAction::CloseAndFail(message),
        ConsoleEvent::End => RawAction::CloseAndEnd,
    }
}

pub fn raw_step(event: ConsoleEvent) -> (r: RawAction)
    ensures
        r == raw_action(event),
{
    match event {
        ConsoleEvent::Input(input) => RawAction::Batch(input),
        ConsoleEvent::Resize { cols, rows } => RawAction::Resize { cols, rows },
        ConsoleEvent::Complete { .. } => RawAction::RefuseCompletion,
        ConsoleEvent::Failed(message) => RawAction::CloseAndFail(message),
        ConsoleEvent::End => RawAction::CloseAndEnd,
    }
}

/// Whether more input is gathered when there are so many bytes.
pub open spec fn batch_has_room(len: nat) -> bool {
    len < RAW_BATCH_BYTES
}

/// Whether more input is gathered before it is sent.
pub fn gathers_more(gathered: &[u8]) -> (r: bool)
    ensures
        r == batch_has_room(gathered@.len()),
{
    gathered.len() < RAW_BATCH_BYTES
}

/// The input that is gathered once an event was added, and the event that is handed back.
pub open spec fn gathered_with(gathered: Seq<u8>, event: ConsoleEvent) -> (
    Seq<u8>,
    Option<ConsoleEvent>,
) {
    match event {
        ConsoleEvent::Input(more) => (gathered + more@, None),
        _ => (gathered, Some(event)),
    }
}

/// Adds a waiting event to the input that is gathered; any other event is handed back, to be
/// served after the input was sent.
pub fn gather(gathered: &mut Vec<u8>, event: ConsoleEvent) -> (r: Option<ConsoleEvent>)
    ensures
        (final(gathered)@, r) == gathered_with(old(gathered)@, event),
{
    match event {
        ConsoleEvent::Input(more) => {
            bytes::append(gathered, more.as_slice());
            None
        },
        other => Some(other),
    }
}

/// What a frame means to a terminal that is shown.
#[derive(Debug)]
pub enum ScreenAction {
    /// Write the payload.
    Write,
    /// The terminal has ended; the payload tells how.
    Exit,
    /// The payload completes the line.
    Completed,
    Fail(String),
}

/// Why a frame fails a terminal.
pub open spec fn screen_fault(kind: FrameKind, payload: Seq<u8>) -> Seq<char> {
    if kind == FrameKind::Error {
        "remote PTY error: "@ + text::lossy(payload)
    } else {
        "unexpected PTY frame "@ + kind.name()
    }
}

/// What a frame means to a terminal that is shown, apart from what is said of it.
pub enum ScreenGoes {
    Write,
    Exit,
    Completed,
    Fault,
}

pub open spec fn screen_goes(kind: FrameKind, completes: bool) -> ScreenGoes {
    match kind {
        FrameKind::PtyOutput => ScreenGoes::Write,
        FrameKind::PtyExit => ScreenGoes::Exit,
        FrameKind::PtyCompleteResult => if completes {
            ScreenGoes::Completed
        } else {
            ScreenGoes::Fault
        },
        _ => ScreenGoes::Fault,
    }
}

/// Decides about a frame; only a terminal that completes lines takes their completions.
pub fn screen_step(kind: FrameKind, payload: &[u8], completes: bool) -> (r: ScreenAction)
    ensures
        match r {
            ScreenAction::Write => screen_goes(kind, completes) is Write,
            ScreenAction::Exit => screen_goes(kind, completes) is Exit,
            ScreenAction::Completed => screen_goes(kind, completes) is Completed,
            ScreenAction::Fail(message) => screen_goes(kind, completes) is Fault && message@
                == screen_fault(kind, payload@),
        },
{
    match kind {
        FrameKind::PtyOutput => ScreenAction::Write,
        FrameKind::PtyExit => ScreenAction::Exit,
        FrameKind::Error => ScreenAction::Fail(
            text::cat2("remote PTY error: ", text::lossy_text(payload).as_str()),
        ),
        _ => {
            if kind == FrameKind::PtyCompleteResult && completes {
                return ScreenAction::Completed;
            }
            ScreenAction::Fail(text::cat2("unexpected PTY frame ", kind.label()))
        },
    }
}

/// Whether a raw terminal ended well.
pub open spec fn ended_well(saw_output: bool, code: Option<i32>) -> bool {
    saw_output && (code is None || code == Some(0i32))
}

/// How a raw terminal ended: well, if it printed anything and its program did not fail.
pub fn check_pty_exit(saw_output: bool, code: Option<i32>) -> (r: Result<(), String>)
    ensures
        r is Ok <==> ended_well(saw_output, code),
        r matches Err(message) ==> message@ == "remote PTY exited (code "@ + client::shown_code(
            code,
        ) + ")"@,
{
    let failed = match code {
        Some(n) => n != 0,
        None => false,
    };
    if !saw_output || failed {
        return Err(
            text::cat3("remote PTY exited (code ", client::code_string(code).as_str(), ")"),
        );
    }
    Ok(())
}

/// A terminal whose lines are typed here and completed by the device.
#[derive(Debug, Clone, Copy, PartialEq, Eq, Structural)]
pub struct LineClient {
    /// A completion was asked for and has not come.
    pub waiting: bool,
}

/// What happens while lines are typed.
#[derive(Debug)]
pub enum LineEvent {
    Console(ConsoleEvent),
    /// The person interrupts.
    Interrupt,
    /// Nothing more is typed, or nobody types.
    ConsoleGone,
    /// The connection fails.
    NetworkFailed(String),
    /// Nothing more comes from the connection.
    NetworkGone,
}

/// What is done about it.
#[derive(Debug)]
pub enum LineStep {
    /// Send input to the device.
    Send(Vec<u8>),
    Resize { cols: u16, rows: u16 },
    /// Ask the device to complete a line.
    Ask { line: String, cursor: u32 },
    /// Say that the line cannot be completed.
    RefuseCompletion,
    /// Close the terminal, and end.
    CloseAndEnd,
    Fail(String),
}

/// Whether something is done about an event while lines are typed.
pub open spec fn line_does(waiting: bool, event: LineEvent, r: LineStep) -> bool {
    match event {
        LineEvent::Console(ConsoleEvent::Input(input)) => r == LineStep::Send(input),
        LineEvent::Console(ConsoleEvent::Resize { cols, rows }) => r == (LineStep::Resize {
            cols,
            rows,
        }),
        LineEvent::Console(ConsoleEvent::Complete { line, cursor }) => if waiting {
            r is RefuseCompletion
        } else {
            r == (LineStep::Ask { line, cursor: cursor as u32 })
        },
        LineEvent::Console(ConsoleEvent::Failed(message)) => r == LineStep::Fail(message),
        LineEvent::Console(ConsoleEvent::End) => r is CloseAndEnd,
        LineEvent::ConsoleGone => r is CloseAndEnd,
        LineEvent::Interrupt => r matches LineStep::Send(input) && input@ == seq![3u8],
        LineEvent::NetworkFailed(message) => r == LineStep::Fail(message),
        LineEvent::NetworkGone => r matches LineStep::Fail(message) && message@
            == "PTY network reader stopped"@,
    }
}

impl LineClient {
    pub fn new() -> (r: LineClient)
        ensures
            !r.waiting,
    {
        LineClient { waiting: false }
    }

    /// Takes an event. Only one completion is asked for at a time.
    pub fn step(&mut self, event: LineEvent) -> (r: LineStep)
        ensures
            line_does(old(self).waiting, event, r),
            final(self).waiting == (old(self).waiting || r is Ask),
    {
        match event {
            LineEvent::Console(ConsoleEvent::Input(input)) => LineStep::Send(input),
            LineEvent::Console(ConsoleEvent::Resize { cols, rows }) => LineStep::Resize {
                cols,
                rows,
            },
            LineEvent::Console(ConsoleEvent::Complete { line, cursor }) => {
                if self.waiting {
                    return LineStep::RefuseCompletion;
                }
                self.waiting = true;
                LineStep::Ask { line, cursor: cursor as u32 }
            },
            LineEvent::Console(ConsoleEvent::Failed(message)) => LineStep::Fail(message),
            LineEvent::Console(ConsoleEvent::End) => LineStep::CloseAndEnd,
            LineEvent::ConsoleGone => LineStep::CloseAndEnd,
            LineEvent::Interrupt => {
                let input: Vec<u8> = vec![3];
                assert(input@ =~= seq![3u8]);
                LineStep::Send(input)
            },
            LineEvent::NetworkFailed(message) => LineStep::Fail(message),
            LineEvent::NetworkGone => LineStep::Fail(
                String::from_str("PTY network reader stopped"),
            ),
        }
    }

    /// A completion came: tells whether it was asked for.
    pub fn answered(&mut self) -> (r: bool)
        ensures
            r == old(self).waiting,
            !final(self).waiting,
    {
        let asked = self.waiting;
        self.waiting = false;
        asked
    }
}

/// What the probe of a terminal types.
pub const PROBE_COMMAND: &'static str =
    "printf '__SIDEWIRE_PTY_OK__\\n'; id; id -Z; tty; exit\r";

/// What the probe of a terminal looks for.
pub const PROBE_MARKER: [u8; 19] = [
    95, 95, 83, 73, 68, 69, 87, 73, 82, 69, 95, 80, 84, 89, 95, 79, 75, 95, 95,
];

/// How long the probe of a terminal may take.
pub const PROBE_SECONDS: u64 = 6;

/// Whether some bytes hold others, beginning at a place.
pub open spec fn holds_at(output: Seq<u8>, marker: Seq<u8>, i: int) -> bool {
    0 <= i && i + marker.len() <= output.len() && output.subrange(i, i + marker.len()) == marker
}

/// Whether some bytes hold others.
pub open spec fn holds(output: Seq<u8>, marker: Seq<u8>) -> bool {
    exists|i: int| #[trigger] holds_at(output, marker, i)
}

/// Whether a terminal took the input of the probe: its output holds the marker.
pub fn check_probe(output: &[u8]) -> (r: Result<(), String>)
    ensures
        r is Ok <==> holds(output@, PROBE_MARKER@),
        r matches Err(message) ==> message@ == "PTY probe completed without input marker"@,
{
    let marker = PROBE_MARKER;
    let n: usize = output.len();
    let mut i: usize = 0;
    while i < n && n - i >= 19
        invariant
            i <= n,
            n == output@.len(),
            marker@ == PROBE_MARKER@,
            marker@.len() == 19,
            forall|j: int| 0 <= j < i ==> !#[trigger] holds_at(output@, marker@, j),
        decreases n - i,
    {
        let part = bytes::copy_range(output, i, i + 19);
        if bytes::same(part.as_slice(), &marker) {
            assert(holds_at(output@, PROBE_MARKER@, i as int));
            return Ok(());
        }
        i += 1;
    }
    Err(String::from_str("PTY probe completed without input marker"))
}

/// How a shell is opened.
#[derive(Debug, Clone, Copy, PartialEq, Eq, Structural)]
pub enum ShellMode {
    /// As a probe.
    Probe,
    /// Key by key, with the device's own editor.
    Raw,
    /// Line by line, with the console's editor, and without the device's.
    Lines,
}

/// How a shell is opened.
pub open spec fn mode_of(raw: bool, probe: bool, console_edits: bool) -> ShellMode {
    if probe {
        ShellMode::Probe
    } else if raw || !console_edits {
        ShellMode::Raw
    } else {
        ShellMode::Lines
    }
}

/// Where the console edits lines by itself, that is used unless keys are asked for.
pub fn shell_mode(raw: bool, probe: bool, console_edits: bool) -> (r: ShellMode)
    ensures
        r == mode_of(raw, probe, console_edits),
{
    if probe {
        ShellMode::Probe
    } else if raw || !console_edits {
        ShellMode::Raw
    } else {
        ShellMode::Lines
    }
}

/// The arguments of the shell: without its own editor where lines are edited here.
pub open spec fn args_of(mode: ShellMode) -> Seq<Seq<char>> {
    if mode == ShellMode::Lines {
        seq!["+o"@, "emacs"@]
    } else {
        Seq::empty()
    }
}

/// Whether the device echoes what is typed.
pub open spec fn echoes(mode: ShellMode) -> bool {
    mode == ShellMode::Raw
}

/// The arguments of the shell, and whether the device echoes what is typed.
pub fn shell_args(mode: ShellMode) -> (r: (Vec<String>, bool))
    ensures
        shell::views(r.0@) == args_of(mode),
        r.1 == echoes(mode),
{
    let mut args: Vec<String> = Vec::new();
    if mode == ShellMode::Lines {
        args.push(String::from_str("+o"));
        args.push(String::from_str("emacs"));
        assert(shell::views(args@) =~= seq!["+o"@, "emacs"@]);
    } else {
        assert(shell::views(args@) =~= Seq::<Seq<char>>::empty());
    }
    (args, mode == ShellMode::Raw)
}

/// A character is sent as its UTF-8 form, which reads back as that character. A letter with the
/// control key is sent as its place in the alphabet, in either case; the alt key puts an escape
/// before whatever is sent, and a key that is let go sends nothing.
pub proof fn lemma_keys_are_sent(c: char, key: Key, control: bool)
    ensures
        key_sent(Key::Char(c), false, false, false) matches Some(sent) && vstd::utf8::valid_utf8(
            sent,
        ) && vstd::utf8::decode_utf8(sent) == seq![c],
        'a' <= c <= 'z' ==> key_sent(Key::Char(c), true, false, false) == Some(
            seq![(c as u32 - 96) as u8],
        ),
        'A' <= c <= 'Z' ==> key_sent(Key::Char(c), true, false, false) == Some(
            seq![(c as u32 - 64) as u8],
        ),
        key_sent(key, control, true, false) == match key_sent(key, control, false, false) {
            Some(plain) => Some(seq![0x1bu8] + plain),
            None => None,
        },
        key_sent(key, control, false, true) is None,
        key_sent(key, control, true, true) is None,
{
    vstd::utf8::encode_utf8_valid_utf8(seq![c]);
    vstd::utf8::encode_utf8_decode_utf8(seq![c]);
    let low = text::lower(c) as u8;
    if 'a' <= c <= 'z' || 'A' <= c <= 'Z' {
        assert(97 <= low <= 122);
        assert(97 <= low <= 122 ==> low & 0x1f == low - 96) by (bit_vector);
    }
}

/// Whether a key is one of those with a sequence of its own.
pub open spec fn is_named_key(key: Key) -> bool {
    match key {
        Key::Char(_) | Key::Other => false,
        Key::Function(n) => 1 <= n <= 12,
        _ => true,
    }
}

/// No two keys with a sequence of their own are sent alike, and all of them are sent, whatever
/// else is held; a key without a sequence is never sent.
pub proof fn lemma_named_keys_are_told_apart(a: Key, b: Key, control: bool)
    requires
        is_named_key(a),
    ensures
        key_code(a, control) is Some,
        is_named_key(b) && key_code(a, control) == key_code(b, control) ==> a == b,
        key_code(Key::Other, control) is None,
        b matches Key::Function(n) ==> (key_code(b, control) is Some <==> is_named_key(b)),
{
    let x = key_code(a, control)->0;
    if is_named_key(b) && key_code(a, control) == key_code(b, control) {
        let y = key_code(b, control)->0;
        assert(x.len() == y.len());
        assert(x.len() > 0 ==> x[0] == y[0]);
        assert(x.len() > 1 ==> x[1] == y[1]);
        assert(x.len() > 2 ==> x[2] == y[2]);
        assert(x.len() > 3 ==> x[3] == y[3]);
    }
}

/// A line that was typed is sent as it was typed, with one line end, whatever it holds.
pub proof fn lemma_line_is_sent_as_typed(s: Seq<char>)
    ensures
        line_sent(utf16::encoded(s + seq!['\r', '\n'])) == vstd::utf8::encode_utf8(s).push(10u8),
{
    let end = seq!['\r', '\n'];
    utf16::lemma_utf16_round_trip(s + end);
    text::lemma_encode_concat(s, end);
    assert(vstd::utf8::is_ascii_chars(end));
    vstd::utf8::is_ascii_chars_encode_utf8(end);
    let bytes = vstd::utf8::encode_utf8(end);
    assert(bytes[0] == end[0] as u8 && bytes[1] == end[1] as u8);
    let all = vstd::utf8::encode_utf8(s) + bytes;
    assert(all.drop_last().drop_last() =~= vstd::utf8::encode_utf8(s));
}

/// The first tab draws what it adds: the line as it was typed and what is drawn make up the
/// completed line up to the cursor. A second tab at the place that the first one left shows the
/// candidates if there is a choice, and draws the prompt and the whole line again; where there is
/// none, or at another place, it never does.
pub proof fn lemma_second_tab_shows_the_choice(
    line: Seq<char>,
    cursor: nat,
    first: PtyCompleteResult,
    second: PtyCompleteResult,
    prompt: Seq<char>,
    width: u16,
)
    ensures
        drawn_for(None, line, cursor, first, prompt, width) matches Some(added) ==> line + added
            == up_to(first.line@, cursor_of(first)),
        first.candidate_count > 1 && second.candidate_count > 1 ==> shows_candidates(
            remembered(first),
            first.line@,
            cursor_of(first),
            second,
        ),
        first.candidate_count <= 1 ==> !shows_candidates(remembered(first), line, cursor, second),
        second.candidate_count <= 1 ==> !shows_candidates(remembered(first), line, cursor, second),
        line != first.line@ || cursor != cursor_of(first) ==> !shows_candidates(
            remembered(first),
            line,
            cursor,
            second,
        ),
        shows_candidates(remembered(first), line, cursor, second) ==> (drawn_for(
            remembered(first),
            line,
            cursor,
            second,
            prompt,
            width,
        ) matches Some(text) && text.len() >= prompt.len() + second.line@.len() && text.skip(
            text.len() - prompt.len() - second.line@.len(),
        ) == prompt + second.line@),
{
    let shown = up_to(first.line@, cursor_of(first));
    if text::starts_with(shown, line) {
        assert(line + shown.skip(line.len() as int) =~= shown);
    }
    if shows_candidates(remembered(first), line, cursor, second) {
        let head = "\r\n"@ + listing(
            shell::views(second.candidates@),
            second.candidate_count,
            width as int,
        ) + "\r\n"@;
        let all = head + prompt + second.line@;
        assert(all.skip(head.len() as int) =~= prompt + second.line@);
    }
}

/// What a terminal prints is shown, and its exit ends it; a completion is taken by a terminal that
/// asks for it. Whatever ends the relay of a terminal ends it here as well, and what passes the
/// relay as output does not.
pub proof fn lemma_screen_follows_the_relay(kind: FrameKind, completes: bool)
    ensures
        screen_goes(FrameKind::PtyOutput, completes) is Write,
        screen_goes(FrameKind::PtyExit, completes) is Exit,
        screen_goes(FrameKind::PtyCompleteResult, true) is Completed,
        crate::control::ends_terminal(kind) ==> screen_goes(kind, completes) is Exit || screen_goes(
            kind,
            completes,
        ) is Fault,
        screen_goes(kind, completes) is Write || screen_goes(kind, completes) is Completed
            ==> !crate::control::ends_terminal(kind),
        screen_goes(kind, completes) is Exit ==> crate::control::ends_terminal(kind),
        kind == FrameKind::PtyExit || kind == FrameKind::Error ==> crate::control::ends_terminal(
            kind,
        ),
        kind == FrameKind::Error ==> screen_goes(kind, completes) is Fault,
{
}

/// Without a line break, output goes on from the last line; with one, the last line is what
/// follows it. It is kept whole as long as it fits.
pub proof fn lemma_prompt_is_the_last_line(tail: Seq<char>, before: Seq<char>, prompt: Seq<char>)
    requires
        !has_break(prompt),
        text::byte_len(tail + prompt) <= 512,
        text::byte_len(prompt) <= 512,
    ensures
        tail_after(tail, prompt) == tail + prompt,
        tail_after(tail, before.push('\n') + prompt) == prompt,
        tail_after(tail, before.push('\r') + prompt) == prompt,
{
    lemma_after_that_break(before, '\n', prompt);
    lemma_after_that_break(before, '\r', prompt);
}

proof fn lemma_after_that_break(before: Seq<char>, c: char, prompt: Seq<char>)
    requires
        c == '\n' || c == '\r',
        !has_break(prompt),
    ensures
        has_break(before.push(c) + prompt),
        after_last_break(before.push(c) + prompt) == prompt,
    decreases prompt.len(),
{
    let s = before.push(c) + prompt;
    assert(s[before.len() as int] == c);
    if prompt.len() == 0 {
        assert(s.last() == c);
        assert(prompt =~= Seq::<char>::empty());
    } else {
        let init = prompt.drop_last();
        assert(!has_break(init)) by {
            if init.contains('\r') {
                assert(prompt[init.index_of('\r')] == '\r');
            }
            if init.contains('\n') {
                assert(prompt[init.index_of('\n')] == '\n');
            }
        }
        assert(prompt[prompt.len() - 1] == prompt.last());
        assert(prompt.last() != '\r' && prompt.last() != '\n');
        lemma_after_that_break(before, c, init);
        assert(s.drop_last() =~= before.push(c) + init);
        assert(init.push(prompt.last()) =~= prompt);
    }
}

/// Keys go to the device one by one where they are asked for, or where the console edits no lines
/// by itself; lines are edited here only on a console that can, and only if nobody asked for keys.
pub proof fn lemma_shell_is_opened_as_asked(raw: bool, probe: bool, console_edits: bool)
    ensures
        probe <==> mode_of(raw, probe, console_edits) == ShellMode::Probe,
        mode_of(raw, probe, console_edits) == ShellMode::Lines <==> !probe && !raw && console_edits,
        ended_well(true, Some(0i32)) && ended_well(true, None),
        forall|code: i32| code != 0 ==> !(#[trigger] ended_well(true, Some(code))),
{
}

/// What is typed reaches the device unchanged and in order, key by key or line by line: input that
/// is gathered keeps its order and loses nothing, and anything else that waits is served after it.
pub proof fn lemma_input_is_kept_in_order(
    input: Vec<u8>,
    more: Vec<u8>,
    event: ConsoleEvent,
    waiting: bool,
    r: LineStep,
)
    requires
        line_does(waiting, LineEvent::Console(event), r),
    ensures
        raw_action(ConsoleEvent::Input(input)) == RawAction::Batch(input),
        gathered_with(input@, ConsoleEvent::Input(more)) == (
            input@ + more@,
            None::<ConsoleEvent>,
        ),
        !(event is Input) ==> gathered_with(input@, event) == (input@, Some(event)),
        event matches ConsoleEvent::Input(typed) ==> r == LineStep::Send(typed),
        r is Send <==> event is Input,
{
}

/// Both ways of typing treat an event alike: a terminal is resized to the size that was given,
/// closed at the end of the input, and fails with the input. Only where lines are typed is a
/// completion asked for, and never a second one before the first has come.
pub proof fn lemma_both_ways_of_typing_agree(event: ConsoleEvent, waiting: bool, r: LineStep)
    requires
        line_does(waiting, LineEvent::Console(event), r),
    ensures
        event matches ConsoleEvent::Resize { cols, rows } ==> raw_action(event) == (
        RawAction::Resize { cols, rows }) && r == (LineStep::Resize { cols, rows }),
        raw_action(event) is CloseAndEnd <==> r is CloseAndEnd,
        raw_action(event) is CloseAndEnd <==> event is End,
        raw_action(event) is CloseAndFail <==> r is Fail,
        raw_action(event) is RefuseCompletion <==> event is Complete,
        r is Ask <==> event is Complete && !waiting,
        r is RefuseCompletion <==> event is Complete && waiting,
        event matches ConsoleEvent::Complete { line, cursor } ==> (!waiting ==> (
        r matches LineStep::Ask { line: asked, cursor: at } && asked == line && (cursor <= u32::MAX
            ==> at == cursor))),
{
}

/// An interrupt is sent as the key that a terminal takes for one: the letter C with the control
/// key.
pub proof fn lemma_interrupt_is_a_key(waiting: bool, r: LineStep)
    requires
        line_does(waiting, LineEvent::Interrupt, r),
    ensures
        r matches LineStep::Send(input) && key_sent(Key::Char('c'), true, false, false) == Some(
            input@,
        ),
{
    lemma_keys_are_sent('c', Key::Other, false);
}

/// The device echoes what is typed exactly where keys go to it one by one: lines that are edited
/// here are seen here already, and nobody types to a probe. Its own editor is switched off exactly
/// where lines are edited here.
pub proof fn lemma_one_side_echoes(raw: bool, probe: bool, console_edits: bool)
    ensures
        ({
            let mode = mode_of(raw, probe, console_edits);
            &&& echoes(mode) <==> !probe && (raw || !console_edits)
            &&& args_of(mode).len() > 0 <==> !probe && !raw && console_edits
            &&& !(echoes(mode) && args_of(mode).len() > 0)
        }),
{
}

/// A probe succeeds wherever in the output its marker stands, and the marker is what the command
/// of the probe prints.
pub proof fn lemma_probe_finds_its_marker(before: Seq<u8>, behind: Seq<u8>)
    ensures
        holds(
            before + vstd::utf8::encode_utf8("__SIDEWIRE_PTY_OK__"@) + behind,
            PROBE_MARKER@,
        ),
{
    reveal_strlit("__SIDEWIRE_PTY_OK__");
    let text = "__SIDEWIRE_PTY_OK__"@;
    assert(vstd::utf8::is_ascii_chars(text));
    vstd::utf8::is_ascii_chars_encode_utf8(text);
    let marker = vstd::utf8::encode_utf8(text);
    assert(marker =~= PROBE_MARKER@);
    let output = before + marker + behind;
    assert(output.subrange(before.len() as int, (before.len() + marker.len()) as int) =~= marker);
    assert(holds_at(output, PROBE_MARKER@, before.len() as int));
}

proof fn lemma_units_hold_no_tab(c: char)
    requires
        c != '\t',
    ensures
        utf16::units(c)[0] != 9,
        utf16::units(c).len() == 2 ==> utf16::units(c)[1] != 9,
{
}

proof fn lemma_tab_behind(s: Seq<char>, rest: Seq<u16>)
    requires
        !s.contains('\t'),
    ensures
        tab_at(utf16::encoded(s) + rest) == utf16::encoded(s).len() + tab_at(rest),
    decreases s.len(),
{
    if s.len() == 0 {
        assert(utf16::encoded(s) + rest =~= rest);
    } else {
        let tail = s.drop_first();
        assert(s[0] != '\t') by {
            assert(s.contains(s[0]));
        }
        assert(!tail.contains('\t')) by {
            if tail.contains('\t') {
                assert(s[tail.index_of('\t') + 1] == '\t');
            }
        }
        lemma_tab_behind(tail, rest);
        let u = utf16::units(s[0]);
        let after = utf16::encoded(tail) + rest;
        assert(utf16::encoded(s) + rest =~= u + after);
        let whole = u + after;
        let then = u.drop_first() + after;
        lemma_units_hold_no_tab(s[0]);
        assert(whole[0] == u[0]);
        assert(whole.drop_first() =~= then);
        assert(tab_at(whole) == 1 + tab_at(then));
        if u.len() == 1 {
            assert(then =~= after);
        } else {
            assert(then[0] == u[1]);
            assert(then.drop_first() =~= after);
            assert(tab_at(then) == 1 + tab_at(after));
        }
    }
}

/// A tab at the end of what was typed asks to complete just that, with the cursor behind it. A tab
/// in the middle is dropped, and the line goes on as if it had not been typed.
pub proof fn lemma_tab_is_no_part_of_the_line(a: Seq<char>, b: Seq<char>)
    requires
        !a.contains('\t'),
        !b.contains('\t'),
    ensures
        ({
            let w = utf16::encoded(a).push(9u16) + utf16::encoded(b);
            let tab = tab_at(w) as int;
            &&& tab < w.len()
            &&& tab + 1 == w.len() <==> b.len() == 0
            &&& utf16::decoded(w.take(tab)) == a
            &&& utf16::decoded(w.take(tab)) + utf16::decoded(w.skip(tab + 1)) == a + b
            &&& tab_at(utf16::encoded(a + b)) == utf16::encoded(a + b).len()
        }),
{
    let w = utf16::encoded(a).push(9u16) + utf16::encoded(b);
    let rest = seq![9u16] + utf16::encoded(b);
    assert(w =~= utf16::encoded(a) + rest);
    lemma_tab_behind(a, rest);
    assert(tab_at(rest) == 0);
    let tab = tab_at(w) as int;
    assert(w.take(tab) =~= utf16::encoded(a));
    assert(w.skip(tab + 1) =~= utf16::encoded(b));
    utf16::lemma_utf16_round_trip(a);
    utf16::lemma_utf16_round_trip(b);
    if b.len() > 0 {
        assert(utf16::units(b[0]).len() > 0);
    }
    let both = a + b;
    assert(!both.contains('\t')) by {
        if both.contains('\t') {
            let i = both.index_of('\t');
            if i < a.len() {
                assert(a[i] == '\t');
            } else {
                assert(b[i - a.len()] == '\t');
            }
        }
    }
    lemma_tab_behind(both, Seq::empty());
    assert(utf16::encoded(both) + Seq::<u16>::empty() =~= utf16::encoded(both));
}

/// The columns of a list are wide enough for every name and two blanks, as many of them as fit on
/// the screen, and the rows no more than they need.
pub proof fn lemma_columns_fit_the_screen(names: Seq<Seq<char>>, screen: int, i: int)
    requires
        0 <= i < names.len(),
    ensures
        ({
            let g = grid(names, screen);
            &&& names[i].len() + 2 <= g.width
            &&& g.columns == 1 || g.columns * g.width <= screen
            &&& (g.columns + 1) * g.width > screen
            &&& (g.rows - 1) * g.columns < names.len() <= g.rows * g.columns
            &&& exists|k: int| 0 <= k < names.len() && (#[trigger] names[k]).len() + 2 == g.width
        }),
{
    let g = grid(names, screen);
    lemma_grid(names, screen);
    lemma_longest(names, i);
    let s = if screen < 1 {
        1
    } else {
        screen
    };
    let fit = s / g.width;
    vstd::arithmetic::div_mod::lemma_fundamental_div_mod(s, g.width);
    vstd::arithmetic::div_mod::lemma_mod_bound(s, g.width);
    assert(fit * g.width <= s < (fit + 1) * g.width) by (nonlinear_arith)
        requires
            s == g.width * fit + s % g.width,
            0 <= s % g.width < g.width,
    ;
    assert((g.columns + 1) * g.width >= (fit + 1) * g.width) by (nonlinear_arith)
        requires
            g.columns >= fit,
            g.width > 0,
    ;
    if g.columns > 1 {
        assert(g.columns == fit);
        assert(fit * g.width >= 2) by (nonlinear_arith)
            requires
                fit > 1,
                g.width >= 2,
        ;
    }
    let n = names.len() as int;
    let total = n + g.columns - 1;
    vstd::arithmetic::div_mod::lemma_fundamental_div_mod(total, g.columns);
    vstd::arithmetic::div_mod::lemma_mod_bound(total, g.columns);
    assert((g.rows - 1) * g.columns < n <= g.rows * g.columns) by (nonlinear_arith)
        requires
            total == g.columns * g.rows + total % g.columns,
            0 <= total % g.columns < g.columns,
            total == n + g.columns - 1,
    ;
}

proof fn lemma_longest(names: Seq<Seq<char>>, i: int)
    requires
        0 <= i < names.len(),
    ensures
        names[i].len() <= longest(names),
        exists|k: int| 0 <= k < names.len() && (#[trigger] names[k]).len() == longest(names),
    decreases names.len(),
{
    let init = names.drop_last();
    if init.len() > 0 {
        lemma_longest(
            init,
            if i < init.len() {
                i
            } else {
                0
            },
        );
        let k = choose|k: int| 0 <= k < init.len() && (#[trigger] init[k]).len() == longest(init);
        assert(names[k] == init[k]);
    } else {
        assert(longest(init) == 0);
    }
    assert(names[names.len() - 1] == names.last());
}

/// Candidates that are not shown are counted: a list that leaves some out is the list of those
/// that it shows, followed by the number of the others.
pub proof fn lemma_missing_candidates_are_counted(names: Seq<Seq<char>>, more: u32, screen: int)
    requires
        0 < names.len(),
        names.len() + more <= u32::MAX,
    ensures
        more > 0 ==> listing(names, (names.len() + more) as u32, screen) == listing(
            names,
            names.len() as u32,
            screen,
        ) + "\r\n... "@ + text::decimal(more as nat) + " more"@,
        listing(names, 0, screen) == listing(names, names.len() as u32, screen),
{
}

/// What is kept of the last line is its end, never more than 512 bytes of it, and all of it where
/// it is no longer.
pub proof fn lemma_prompt_is_bounded(tail: Seq<char>, output: Seq<char>)
    ensures
        text::byte_len(tail_after(tail, output)) <= 512,
        tail_after(tail, output).len() <= (tail + output).len(),
        (tail + output).skip((tail + output).len() - tail_after(tail, output).len()) == tail_after(
            tail,
            output,
        ),
{
    let line = if has_break(output) {
        after_last_break(output)
    } else {
        tail + output
    };
    lemma_last_bytes_is_an_end(line, 512);
    lemma_last_line_is_an_end(output);
    let all = tail + output;
    let kept = tail_after(tail, output);
    assert(all.skip(all.len() - line.len()) =~= line) by {
        if has_break(output) {
            assert(output.skip(output.len() - line.len()) =~= line);
            assert(all.skip(all.len() - line.len()) =~= output.skip(output.len() - line.len()));
        }
    }
    assert(all.skip(all.len() - kept.len()) =~= line.skip(line.len() - kept.len()));
}

proof fn lemma_last_line_is_an_end(s: Seq<char>)
    ensures
        after_last_break(s).len() <= s.len(),
        s.skip(s.len() - after_last_break(s).len()) == after_last_break(s),
    decreases s.len(),
{
    if s.len() == 0 || s.last() == '\r' || s.last() == '\n' {
        assert(s.skip(s.len() as int) =~= Seq::<char>::empty());
        assert(after_last_break(s) =~= Seq::<char>::empty());
    } else {
        let init = s.drop_last();
        lemma_last_line_is_an_end(init);
        let before = after_last_break(init);
        assert(s.skip(s.len() - 1 - before.len()) =~= init.skip(init.len() - before.len()).push(
            s.last(),
        ));
    }
}

proof fn lemma_last_bytes_is_an_end(s: Seq<char>, n: nat)
    ensures
        last_bytes(s, n).len() <= s.len(),
        text::byte_len(last_bytes(s, n)) <= n,
        s.skip(s.len() - last_bytes(s, n).len()) == last_bytes(s, n),
    decreases s.len(),
{
    if s.len() == 0 || text::byte_len(s) <= n {
        assert(s.skip(0) =~= s);
        if s.len() == 0 {
            assert(s =~= Seq::<char>::empty());
            assert(vstd::utf8::encode_utf8(s).len() == 0);
        }
    } else {
        let rest = s.drop_first();
        lemma_last_bytes_is_an_end(rest, n);
        let kept = last_bytes(rest, n);
        assert(s.skip(s.len() - kept.len()) =~= rest.skip(rest.len() - kept.len()));
    }
}

/// Input is gathered until there are four kibibytes of it, and not longer.
pub proof fn lemma_batch_is_sent_when_full(len: nat)
    ensures
        batch_has_room(len) <==> len < 4 * 1024,
{
}

} // verus!
