use vstd::prelude::*;

use crate::insertion_point::InsertionPoint;
use crate::page::Page;
use crate::parse::slice_chars;
use crate::text::{
    byte_len, bytes_of, chars_of, join_lines, lemma_byte_len_append, lemma_lines_shape,
    lemma_row_in_text, lines_of, string_of, strip_newline, lemma_len_le_byte_len,
    lemma_byte_len_prefix, lemma_newlines_insert, lemma_newlines_remove, lemma_row_newline_last,
};
use crate::width::{
    display_width, fit_len, fit_width, lemma_fit_len_bounds, lemma_str_width_prefix, str_width,
    truncate_to_width,
};

verus! {

/// The rows of `content`, each newline kept at the end of the row it closes.
pub fn split_with_n(content: &String) -> (r: Vec<String>)
    ensures
        r@.len() == lines_of(content@).len(),
        forall|i: int| 0 <= i < r@.len() ==> (#[trigger] r@[i])@ == lines_of(content@)[i],
{
    let chars = chars_of(content.as_str());
    let mut result: Vec<String> = Vec::new();
    let mut current: Vec<char> = Vec::new();
    let mut i: usize = 0;
    while i < chars.len()
        invariant
            i <= chars.len(),
            chars@ == content@,
            result@.len() + 1 == lines_of(chars@.take(i as int)).len(),
            forall|j: int|
                0 <= j < result@.len() ==> (#[trigger] result@[j])@ == lines_of(
                    chars@.take(i as int),
                )[j],
            current@ == lines_of(chars@.take(i as int)).last(),
        decreases chars.len() - i,
    {
        let c = chars[i];
        proof {
            assert(chars@.take(i + 1).drop_last() =~= chars@.take(i as int));
            lemma_lines_shape(chars@.take(i as int));
        }
        current.push(c);
        if c == '\n' {
            result.push(string_of(current.as_slice()));
            current = Vec::new();
        }
        i = i + 1;
    }
    assert(chars@.take(chars.len() as int) =~= chars@);
    result.push(string_of(current.as_slice()));
    result
}


/// A key as the editor sees it.
#[derive(PartialEq, Eq, Structural, Clone, Copy, Debug)]
pub enum Key {
    Up,
    Down,
    Left,
    Right,
    Home,
    End,
    Char(char),
    Tab,
    Backspace,
    Delete,
    Enter,
    Esc,
    Other,
}

/// The cursor and the row index of the page it is bound to: bytes and
/// display width of every row, and the scroll offsets of the window.
pub struct KeyHandler {
    pub ip: InsertionPoint,
    pub screen_cols: usize,
    pub screen_rows: usize,
    pub bytes_in_row: Vec<usize>,
    pub width_in_row: Vec<usize>,
    pub num_of_rows: usize,
    pub row_offset: usize,
    pub column_offset: usize,
}

/// Index of the first character of row `y`.
pub open spec fn row_start(ls: Seq<Seq<char>>, y: int) -> nat {
    join_lines(ls.take(y)).len()
}

/// Characters of `line` before display column `x`, its newline left out.
pub open spec fn col_chars(line: Seq<char>, x: nat) -> nat {
    strip_newline(line.take(fit_len(line, x) as int)).len()
}

/// Index in `text` of the character at column `x` of row `y`.
pub open spec fn char_pos(text: Seq<char>, x: nat, y: nat) -> nat {
    row_start(lines_of(text), y as int) + col_chars(lines_of(text)[y as int], x)
}

/// Byte offset in `text` of column `x` of row `y`: the bytes of the rows
/// above, then those of the row cut at that column.
pub open spec fn offset_of(text: Seq<char>, x: nat, y: nat) -> nat {
    let ls = lines_of(text);
    byte_len(join_lines(ls.take(y as int))) + byte_len(
        strip_newline(ls[y as int].take(fit_len(ls[y as int], x) as int)),
    )
}

impl KeyHandler {
    /// The window has at least one row and one column.
    pub open spec fn wf(&self) -> bool {
        self.screen_rows >= 1 && self.screen_cols >= 1
    }

    /// The row index describes `text`: one entry per row, with its bytes and
    /// its width.
    pub open spec fn indexes(&self, text: Seq<char>) -> bool {
        let ls = lines_of(text);
        &&& byte_len(text) <= isize::MAX
        &&& self.num_of_rows == ls.len()
        &&& self.bytes_in_row@.len() == ls.len()
        &&& self.width_in_row@.len() == ls.len()
        &&& forall|i: int|
            0 <= i < ls.len() ==> (#[trigger] self.bytes_in_row@[i]) as nat == byte_len(ls[i])
        &&& forall|i: int|
            0 <= i < ls.len() ==> {
                &&& (#[trigger] self.width_in_row@[i]) as nat == str_width(ls[i])
                &&& str_width(ls[i]) <= 2 * ls[i].len()
            }
    }

    /// The cursor stands on a row, at most at its end.
    pub open spec fn cursor_ok(&self) -> bool {
        &&& self.ip.y < self.num_of_rows
        &&& self.ip.x <= self.width_in_row@[self.ip.y as int]
    }

    /// A handler for a window of `window_size` (columns, rows); two rows are
    /// kept for the banner and the status line, and at least one row and one
    /// column remain for the text.
    pub fn new(window_size: (usize, usize)) -> (r: KeyHandler)
        ensures
            r.wf(),
            r.ip.x == 0 && r.ip.y == 0,
            r.screen_cols == if window_size.0 >= 1 {
                window_size.0
            } else {
                1
            },
            r.screen_rows == if window_size.1 > 2 {
                (window_size.1 - 2) as usize
            } else {
                1
            },
            r.bytes_in_row@.len() == 0,
            r.width_in_row@.len() == 0,
            r.num_of_rows == 0,
            r.row_offset == 0,
            r.column_offset == 0,
    {
        let instance = KeyHandler {
            ip: InsertionPoint::new(),
            screen_cols: if window_size.0 >= 1 {
                window_size.0
            } else {
                1
            },
            screen_rows: if window_size.1 > 2 {
                window_size.1 - 2
            } else {
                1
            },
            bytes_in_row: Vec::new(),
            width_in_row: Vec::new(),
            num_of_rows: 0,
            row_offset: 0,
            column_offset: 0,
        };
        instance
    }

    /// Moves the window so that the cursor is inside it, as little as needed.
    pub fn scroll(&mut self)
        requires
            old(self).wf(),
        ensures
            final(self).wf(),
            final(self).ip == old(self).ip,
            final(self).bytes_in_row@ == old(self).bytes_in_row@,
            final(self).width_in_row@ == old(self).width_in_row@,
            final(self).num_of_rows == old(self).num_of_rows,
            final(self).screen_rows == old(self).screen_rows,
            final(self).screen_cols == old(self).screen_cols,
            final(self).row_offset == ({
                let r = if old(self).row_offset <= old(self).ip.y {
                    old(self).row_offset
                } else {
                    old(self).ip.y
                };
                if old(self).ip.y >= r + old(self).screen_rows {
                    (old(self).ip.y - old(self).screen_rows + 1) as usize
                } else {
                    r
                }
            }),
            final(self).column_offset == ({
                let c = if old(self).column_offset <= old(self).ip.x {
                    old(self).column_offset
                } else {
                    old(self).ip.x
                };
                if old(self).ip.x >= c + old(self).screen_cols {
                    (old(self).ip.x - old(self).screen_cols + 1) as usize
                } else {
                    c
                }
            }),
            final(self).row_offset <= final(self).ip.y < final(self).row_offset
                + final(self).screen_rows,
            final(self).column_offset <= final(self).ip.x < final(self).column_offset
                + final(self).screen_cols,
    {
        if self.ip.y < self.row_offset {
            self.row_offset = self.ip.y;
        }
        if self.ip.y - self.row_offset >= self.screen_rows {
            self.row_offset = self.ip.y - self.screen_rows + 1;
        }
        if self.ip.x < self.column_offset {
            self.column_offset = self.ip.x;
        }
        if self.ip.x - self.column_offset >= self.screen_cols {
            self.column_offset = self.ip.x - self.screen_cols + 1;
        }
    }

    /// Builds the row index from the rows of `on_screen`.
    pub fn index_from(&mut self, on_screen: &Page)
        requires
            on_screen.rows_fresh(),
        ensures
            final(self).indexes(on_screen.contents@),
            final(self).ip == old(self).ip,
            final(self).screen_rows == old(self).screen_rows,
            final(self).screen_cols == old(self).screen_cols,
            final(self).row_offset == old(self).row_offset,
            final(self).column_offset == old(self).column_offset,
    {
        let text_chars = chars_of(on_screen.contents.as_str());
        proof {
            lemma_lines_shape(text_chars@);
        }
        let ghost ls = lines_of(on_screen.contents@);
        let mut bytes: Vec<usize> = Vec::new();
        let mut width: Vec<usize> = Vec::new();
        let mut i: usize = 0;
        while i < on_screen.row_contents.len()
            invariant
                on_screen.rows_fresh(),
                ls == lines_of(on_screen.contents@),
                byte_len(on_screen.contents@) <= isize::MAX,
                join_lines(ls) == on_screen.contents@,
                i <= ls.len(),
                bytes@.len() == i,
                width@.len() == i,
                forall|j: int| 0 <= j < i ==> (#[trigger] bytes@[j]) as nat == byte_len(ls[j]),
                forall|j: int|
                    0 <= j < i ==> {
                        &&& (#[trigger] width@[j]) as nat == str_width(ls[j])
                        &&& str_width(ls[j]) <= 2 * ls[j].len()
                    },
            decreases ls.len() - i,
        {
            let row = &on_screen.row_contents[i];
            let row_chars = chars_of(row.as_str());
            proof {
                lemma_row_in_text(ls, i as int);
                lemma_byte_len_append(join_lines(ls.take(i as int)), ls[i as int]);
                lemma_byte_len_append(
                    join_lines(ls.take(i as int)) + ls[i as int],
                    join_lines(ls.skip(i + 1)),
                );
            }
            bytes.push(bytes_of(&row_chars));
            let w = display_width(row.as_str());
            width.push(w);
            i = i + 1;
        }
        self.num_of_rows = on_screen.row_contents.len();
        self.bytes_in_row = bytes;
        self.width_in_row = width;
    }

    /// Rebuilds the rows of `on_screen` and the row index from its text.
    pub fn index_rows(&mut self, on_screen: &mut Page)
        ensures
            final(self).indexes(final(on_screen).contents@),
            final(on_screen).rows_fresh(),
            final(on_screen).contents@ == old(on_screen).contents@,
            final(on_screen).prompt@ == old(on_screen).prompt@,
            final(on_screen).display_type == old(on_screen).display_type,
            final(on_screen).active_cursor_location == old(on_screen).active_cursor_location,
            final(self).ip == old(self).ip,
            final(self).screen_rows == old(self).screen_rows,
            final(self).screen_cols == old(self).screen_cols,
            final(self).row_offset == old(self).row_offset,
            final(self).column_offset == old(self).column_offset,
    {
        on_screen.row_contents = split_with_n(&on_screen.contents);
        self.index_from(on_screen);
    }
}


pub proof fn lemma_realign_up_le_width(line: Seq<char>, x: nat)
    ensures
        realign_up(line, x) <= str_width(line),
    decreases str_width(line) - x,
{
    if x < str_width(line) && fit_width(line, x) != x {
        lemma_realign_up_le_width(line, x + 1);
    }
}

/// The row index does not depend on the cursor.
proof fn lemma_indexes_same_rows(a: KeyHandler, b: KeyHandler, text: Seq<char>)
    requires
        a.indexes(text),
        a.bytes_in_row@ == b.bytes_in_row@,
        a.width_in_row@ == b.width_in_row@,
        a.num_of_rows == b.num_of_rows,
    ensures
        b.indexes(text),
{
}

/// The cursor brought onto the rows of `text`.
pub open spec fn cursor_on(text: Seq<char>, x: nat, y: nat) -> (nat, nat) {
    let ls = lines_of(text);
    let ny = if y < ls.len() {
        y
    } else {
        (ls.len() - 1) as nat
    };
    let nx = if x <= str_width(ls[ny as int]) {
        x
    } else {
        str_width(ls[ny as int])
    };
    (nx, ny)
}

/// An edit key, then the cursor brought onto the rows of the new text.
pub open spec fn edit_step(text: Seq<char>, x: nat, y: nat, key: Key) -> (Seq<char>, nat, nat) {
    let (t, nx, ny) = edit_spec(text, x, y, key);
    let (cx, cy) = cursor_on(t, nx, ny);
    (t, cx, cy)
}

/// Over an index of `text`, bringing the cursor onto the rows by their
/// recorded widths is bringing it onto the rows of the text.
proof fn lemma_clamp_is_cursor_on(kh: KeyHandler, text: Seq<char>, x: nat, y: nat)
    requires
        kh.indexes(text),
    ensures
        clamp_spec(kh.width_in_row@, x, y) == cursor_on(text, x, y),
{
    lemma_lines_shape(text);
}

/// The cursor brought onto rows of the given widths.
pub open spec fn clamp_spec(widths: Seq<usize>, x: nat, y: nat) -> (nat, nat) {
    let ny = if y < widths.len() {
        y
    } else {
        (widths.len() - 1) as nat
    };
    let nx = if x <= widths[ny as int] {
        x
    } else {
        widths[ny as int] as nat
    };
    (nx, ny)
}

/// The first column at or after `x` where the row can be cut exactly, or the
/// row's width if none comes before it.
pub open spec fn realign_up(line: Seq<char>, x: nat) -> nat
    decreases str_width(line) - x,
{
    if x >= str_width(line) {
        str_width(line)
    } else if fit_width(line, x) == x {
        x
    } else {
        realign_up(line, x + 1)
    }
}

/// The last column at or before `x` where the row can be cut exactly.
pub open spec fn realign_down(line: Seq<char>, x: nat) -> nat
    decreases x,
{
    if x == 0 || fit_width(line, x) == x {
        x
    } else {
        realign_down(line, (x - 1) as nat)
    }
}

/// Where the cursor goes on `key` in `text`, as (column, row).
pub open spec fn move_spec(text: Seq<char>, x: nat, y: nat, key: Key) -> (nat, nat) {
    let ls = lines_of(text);
    let n = ls.len();
    match key {
        Key::Up => if y > 0 {
            let l = ls[y - 1];
            (fit_width(l, if x <= str_width(l) { x } else { str_width(l) }), (y - 1) as nat)
        } else {
            (x, y)
        },
        Key::Down => if y + 1 < n {
            let l = ls[y + 1 as int];
            (fit_width(l, if x <= str_width(l) { x } else { str_width(l) }), y + 1)
        } else {
            (x, y)
        },
        Key::Left => if x > 0 {
            (realign_down(ls[y as int], (x - 1) as nat), y)
        } else if y > 0 {
            (str_width(ls[y - 1]), (y - 1) as nat)
        } else {
            (x, y)
        },
        Key::Right => if x < str_width(ls[y as int]) {
            (realign_up(ls[y as int], x + 1), y)
        } else if y + 1 < n {
            (0, y + 1)
        } else {
            (x, y)
        },
        Key::End => (str_width(ls[y as int]), y),
        Key::Home => (0, y),
        _ => (x, y),
    }
}

/// Steps right from `start` to the first column where `row` can be cut exactly.
fn align_up(row: &String, start: usize, width: usize) -> (r: usize)
    requires
        width as nat == str_width(row@),
    ensures
        r as nat == realign_up(row@, start as nat),
{
    let mut x = start;
    while x < width && truncate_to_width(row.as_str(), x).1 != x
        invariant
            width as nat == str_width(row@),
            realign_up(row@, x as nat) == realign_up(row@, start as nat),
        decreases width - x,
    {
        x = x + 1;
    }
    if x >= width {
        width
    } else {
        x
    }
}

/// Steps left from `start` to the first column where `row` can be cut exactly.
fn align_down(row: &String, start: usize) -> (r: usize)
    ensures
        r as nat == realign_down(row@, start as nat),
        r <= start,
{
    let mut x = start;
    while x > 0 && truncate_to_width(row.as_str(), x).1 != x
        invariant
            realign_down(row@, x as nat) == realign_down(row@, start as nat),
            x <= start,
        decreases x,
    {
        x = x - 1;
    }
    x
}

/// What an edit key does to `text` with the cursor at column `x` of row `y`,
/// as (text, column, row). A character goes in at the cursor, which moves
/// past it; Tab puts in four spaces; Backspace takes out the character before
/// the cursor, or at the start of a row joins it to the row above; Delete
/// takes out the character under the cursor; Enter splits the row. After
/// Backspace the cursor stands where the removed character began.
pub open spec fn edit_spec(text: Seq<char>, x: nat, y: nat, key: Key) -> (Seq<char>, nat, nat) {
    let ls = lines_of(text);
    let k = col_chars(ls[y as int], x);
    let p = row_start(ls, y as int) + k;
    match key {
        Key::Char(c) => {
            let t = text.insert(p as int, c);
            (t, realign_up(lines_of(t)[y as int], x + 1), y)
        },
        Key::Tab => (
            text.take(p as int) + seq![' ', ' ', ' ', ' '] + text.skip(p as int),
            if x + 4 <= usize::MAX {
                x + 4
            } else {
                usize::MAX as nat
            },
            y,
        ),
        Key::Backspace => if x == 0 || k == 0 {
            if y == 0 {
                (text, x, y)
            } else {
                (
                    text.remove(row_start(ls, y as int) - 1),
                    str_width(ls[y - 1]),
                    (y - 1) as nat,
                )
            }
        } else {
            (text.remove(p - 1), str_width(ls[y as int].take(k - 1)), y)
        },
        Key::Delete => if p == text.len() {
            (text, x, y)
        } else {
            (text.remove(p as int), x, y)
        },
        Key::Enter => (text.insert(p as int, '\n'), 0, y + 1),
        _ => (text, x, y),
    }
}

/// Facts about the place of the cursor in the text.
proof fn lemma_cursor_facts(text: Seq<char>, x: nat, y: int)
    requires
        0 <= y < lines_of(text).len(),
    ensures
        ({
            let ls = lines_of(text);
            let k = col_chars(ls[y], x);
            &&& row_start(ls, y) + ls[y].len() <= text.len()
            &&& k <= ls[y].len()
            &&& forall|j: int|
                0 <= j < ls[y].len() ==> text[row_start(ls, y) + j] == #[trigger] ls[y][j]
            &&& k > 0 ==> text[row_start(ls, y) + k - 1] != '\n'
        }),
{
    let ls = lines_of(text);
    let line = ls[y];
    lemma_lines_shape(text);
    lemma_row_in_text(ls, y);
    lemma_row_newline_last(text, y);
    lemma_fit_len_bounds(line, x);
    assert(text == join_lines(ls.take(y)) + line + join_lines(ls.skip(y + 1)));
    assert forall|j: int| 0 <= j < line.len() implies text[row_start(ls, y) + j]
        == #[trigger] line[j] by {
        assert((join_lines(ls.take(y)) + line)[row_start(ls, y) + j] == line[j]);
    }
    let pre = line.take(fit_len(line, x) as int);
    let k = col_chars(line, x);
    if k > 0 {
        assert(strip_newline(pre)[k - 1] == pre[k - 1]);
        assert(pre[k - 1] == line[k - 1]);
        if line[k - 1] == '\n' {
            assert(k - 1 == line.len() - 1);
            assert(pre.len() == line.len());
            assert(pre.last() == '\n');
        }
    }
}

impl KeyHandler {
    /// Where the cursor is in the text: the index of the first character of
    /// its row, and the number of characters of the row before it.
    pub fn cursor_chars(&self, on_screen: &Page) -> (r: (usize, usize))
        requires
            self.indexes(on_screen.contents@),
            on_screen.rows_fresh(),
            self.ip.y < self.num_of_rows,
        ensures
            r.0 as nat == row_start(lines_of(on_screen.contents@), self.ip.y as int),
            r.1 as nat == col_chars(lines_of(on_screen.contents@)[self.ip.y as int], self.ip.x as nat),
            r.0 + r.1 <= on_screen.contents@.len(),
    {
        let ghost text = on_screen.contents@;
        let ghost ls = lines_of(text);
        proof {
            lemma_lines_shape(text);
            lemma_len_le_byte_len(text);
        }
        let mut total: usize = 0;
        let mut i: usize = 0;
        while i < self.ip.y
            invariant
                self.indexes(text),
                on_screen.rows_fresh(),
                on_screen.contents@ == text,
                ls == lines_of(text),
                join_lines(ls) == text,
                text.len() <= isize::MAX,
                self.ip.y < ls.len(),
                i <= self.ip.y,
                total as nat == join_lines(ls.take(i as int)).len(),
            decreases self.ip.y - i,
        {
            proof {
                lemma_row_in_text(ls, i as int);
                lemma_row_in_text(ls.take(i + 1), i as int);
                assert(ls.take(i + 1).take(i as int) =~= ls.take(i as int));
            }
            let rc = chars_of(on_screen.row_contents[i].as_str());
            total = total + rc.len();
            i = i + 1;
        }
        let row = &on_screen.row_contents[self.ip.y];
        let (prefix, _) = truncate_to_width(row.as_str(), self.ip.x);
        let pc = chars_of(prefix);
        proof {
            lemma_row_in_text(ls, self.ip.y as int);
            lemma_fit_len_bounds(row@, self.ip.x as nat);
        }
        let k = if pc.len() > 0 && pc[pc.len() - 1] == '\n' {
            pc.len() - 1
        } else {
            pc.len()
        };
        (total, k)
    }

    /// Byte offset in the text of the cursor: the bytes of the rows above it,
    /// then those of its row cut at its column, the newline left out.
    pub fn get_current_location_in_string(&self, on_screen: &Page) -> (r: usize)
        requires
            self.indexes(on_screen.contents@),
            on_screen.rows_fresh(),
            self.ip.y < self.num_of_rows,
        ensures
            r as nat == offset_of(on_screen.contents@, self.ip.x as nat, self.ip.y as nat),
            r as nat <= byte_len(on_screen.contents@),
    {
        let ghost text = on_screen.contents@;
        let ghost ls = lines_of(text);
        proof {
            lemma_lines_shape(text);
        }
        let mut x: usize = 0;
        let mut i: usize = 0;
        while i < self.ip.y
            invariant
                self.indexes(text),
                on_screen.rows_fresh(),
                on_screen.contents@ == text,
                ls == lines_of(text),
                join_lines(ls) == text,
                self.ip.y < ls.len(),
                i <= self.ip.y,
                x as nat == byte_len(join_lines(ls.take(i as int))),
            decreases self.ip.y - i,
        {
            proof {
                lemma_row_in_text(ls, i as int);
                lemma_byte_len_append(join_lines(ls.take(i as int)), ls[i as int]);
                lemma_byte_len_append(
                    join_lines(ls.take(i as int)) + ls[i as int],
                    join_lines(ls.skip(i + 1)),
                );
            }
            x = x + self.bytes_in_row[i];
            i = i + 1;
        }
        let row = &on_screen.row_contents[self.ip.y];
        let (prefix, _) = truncate_to_width(row.as_str(), self.ip.x);
        let mut pc = chars_of(prefix);
        if pc.len() > 0 && pc[pc.len() - 1] == '\n' {
            pc.pop();
        }
        proof {
            let y = self.ip.y as int;
            lemma_fit_len_bounds(row@, self.ip.x as nat);
            let p = row@.take(fit_len(row@, self.ip.x as nat) as int);
            assert(pc@ == strip_newline(p));
            assert(pc@ =~= row@.take(pc@.len() as int));
            lemma_byte_len_prefix(row@, pc@.len() as int);
            lemma_row_in_text(ls, y);
            lemma_byte_len_append(join_lines(ls.take(y)), ls[y]);
            lemma_byte_len_append(join_lines(ls.take(y)) + ls[y], join_lines(ls.skip(y + 1)));
        }
        x + bytes_of(&pc)
    }

    /// Moves the cursor on `operation` over the rows of `on_screen`: Up and
    /// Down keep the column where the row allows, Left and Right step one
    /// column and wrap at the ends of a row, Home and End go to the ends of
    /// the row. Every column reached is one where the row can be cut
    /// exactly, never inside a character.
    pub fn move_ip(&mut self, operation: Key, on_screen: &Page)
        requires
            old(self).indexes(on_screen.contents@),
            on_screen.rows_fresh(),
            old(self).cursor_ok(),
        ensures
            (final(self).ip.x as nat, final(self).ip.y as nat) == move_spec(
                on_screen.contents@,
                old(self).ip.x as nat,
                old(self).ip.y as nat,
                operation,
            ),
            final(self).cursor_ok(),
            final(self).bytes_in_row@ == old(self).bytes_in_row@,
            final(self).width_in_row@ == old(self).width_in_row@,
            final(self).num_of_rows == old(self).num_of_rows,
            final(self).screen_rows == old(self).screen_rows,
            final(self).screen_cols == old(self).screen_cols,
            final(self).row_offset == old(self).row_offset,
            final(self).column_offset == old(self).column_offset,
    {
        let ghost ls = lines_of(on_screen.contents@);
        let y = self.ip.y;
        let x = self.ip.x;
        match operation {
            Key::Up => {
                if y > 0 {
                    let w = self.width_in_row[y - 1];
                    let target = if x <= w {
                        x
                    } else {
                        w
                    };
                    let (_, nx) = truncate_to_width(on_screen.row_contents[y - 1].as_str(), target);
                    proof {
                        lemma_fit_len_bounds(ls[y - 1], target as nat);
                        lemma_str_width_prefix(ls[y - 1], fit_len(ls[y - 1], target as nat) as int);
                    }
                    self.ip.y = y - 1;
                    self.ip.x = nx;
                }
            },
            Key::Down => {
                if y + 1 < self.num_of_rows {
                    let w = self.width_in_row[y + 1];
                    let target = if x <= w {
                        x
                    } else {
                        w
                    };
                    let (_, nx) = truncate_to_width(on_screen.row_contents[y + 1].as_str(), target);
                    proof {
                        lemma_fit_len_bounds(ls[y + 1], target as nat);
                        lemma_str_width_prefix(ls[y + 1], fit_len(ls[y + 1], target as nat) as int);
                    }
                    self.ip.y = y + 1;
                    self.ip.x = nx;
                }
            },
            Key::Left => {
                if x > 0 {
                    let nx = align_down(&on_screen.row_contents[y], x - 1);
                    self.ip.x = nx;
                } else if y > 0 {
                    self.ip.y = y - 1;
                    self.ip.x = self.width_in_row[y - 1];
                }
            },
            Key::Right => {
                if x < self.width_in_row[y] {
                    proof {
                        lemma_realign_up_le_width(ls[y as int], (x + 1) as nat);
                    }
                    self.ip.x = align_up(&on_screen.row_contents[y], x + 1, self.width_in_row[y]);
                } else if y + 1 < self.num_of_rows {
                    self.ip.x = 0;
                    self.ip.y = y + 1;
                }
            },
            Key::End => {
                self.ip.x = self.width_in_row[y];
            },
            Key::Home => {
                self.ip.x = 0;
            },
            _ => {},
        }
    }

    /// Applies the edit key `operation` at the cursor to the text of
    /// `on_screen`, rebuilds its rows and the row index, and leaves the
    /// cursor on a row.
    pub fn insertion(&mut self, operation: Key, on_screen: &mut Page)
        requires
            old(self).indexes(old(on_screen).contents@),
            old(on_screen).rows_fresh(),
            old(self).cursor_ok(),
        ensures
            ({
                let (t, nx, ny) = edit_step(
                    old(on_screen).contents@,
                    old(self).ip.x as nat,
                    old(self).ip.y as nat,
                    operation,
                );
                &&& final(on_screen).contents@ == t
                &&& final(self).ip.x as nat == nx
                &&& final(self).ip.y as nat == ny
            }),
            final(self).indexes(final(on_screen).contents@),
            final(self).cursor_ok(),
            final(on_screen).rows_fresh(),
            final(on_screen).display_type == old(on_screen).display_type,
            final(on_screen).prompt@ == old(on_screen).prompt@,
            final(on_screen).active_cursor_location == old(on_screen).active_cursor_location,
            final(self).screen_rows == old(self).screen_rows,
            final(self).screen_cols == old(self).screen_cols,
            final(self).row_offset == old(self).row_offset,
            final(self).column_offset == old(self).column_offset,
    {
        let (start, k) = self.cursor_chars(on_screen);
        proof {
            lemma_cursor_facts(on_screen.contents@, self.ip.x as nat, self.ip.y as int);
            lemma_len_le_byte_len(on_screen.contents@);
        }
        let chars = chars_of(on_screen.contents.as_str());
        match operation {
            Key::Char(c) => self.put_char(c, start + k, chars, on_screen),
            Key::Tab => self.put_tab(start + k, chars, on_screen),
            Key::Backspace => self.back_space(start, k, chars, on_screen),
            Key::Delete => self.delete_at(start + k, chars, on_screen),
            Key::Enter => self.split_row(start + k, chars, on_screen),
            _ => {
                self.index_rows(on_screen);
            },
        }
        proof {
            lemma_lines_shape(on_screen.contents@);
            lemma_clamp_is_cursor_on(*self, on_screen.contents@, self.ip.x as nat, self.ip.y as nat);
        }
        self.clamp_cursor();
    }

    fn delete_at(&mut self, p: usize, chars: Vec<char>, on_screen: &mut Page)
        requires
            chars@ == old(on_screen).contents@,
            p <= chars@.len(),
        ensures
            final(on_screen).contents@ == if p == chars@.len() {
                chars@
            } else {
                chars@.remove(p as int)
            },
            final(self).ip == old(self).ip,
            final(self).indexes(final(on_screen).contents@),
            final(on_screen).rows_fresh(),
            final(on_screen).display_type == old(on_screen).display_type,
            final(on_screen).prompt@ == old(on_screen).prompt@,
            final(on_screen).active_cursor_location == old(on_screen).active_cursor_location,
            final(self).screen_rows == old(self).screen_rows,
            final(self).screen_cols == old(self).screen_cols,
            final(self).row_offset == old(self).row_offset,
            final(self).column_offset == old(self).column_offset,
    {
        let mut chars = chars;
        if p < chars.len() {
            chars.remove(p);
            on_screen.set_contents(string_of(chars.as_slice()));
        }
        self.index_rows(on_screen);
    }

    fn split_row(&mut self, p: usize, chars: Vec<char>, on_screen: &mut Page)
        requires
            chars@ == old(on_screen).contents@,
            p <= chars@.len(),
            old(self).ip.y < usize::MAX,
        ensures
            final(on_screen).contents@ == chars@.insert(p as int, '\n'),
            final(self).ip.x == 0,
            final(self).ip.y == old(self).ip.y + 1,
            final(self).indexes(final(on_screen).contents@),
            final(on_screen).rows_fresh(),
            final(on_screen).display_type == old(on_screen).display_type,
            final(on_screen).prompt@ == old(on_screen).prompt@,
            final(on_screen).active_cursor_location == old(on_screen).active_cursor_location,
            final(self).screen_rows == old(self).screen_rows,
            final(self).screen_cols == old(self).screen_cols,
            final(self).row_offset == old(self).row_offset,
            final(self).column_offset == old(self).column_offset,
    {
        let mut chars = chars;
        chars.insert(p, '\n');
        on_screen.set_contents(string_of(chars.as_slice()));
        self.index_rows(on_screen);
        self.ip.x = 0;
        self.ip.y = self.ip.y + 1;
    }

    fn put_char(&mut self, c: char, p: usize, chars: Vec<char>, on_screen: &mut Page)
        requires
            old(self).indexes(old(on_screen).contents@),
            old(self).cursor_ok(),
            chars@ == old(on_screen).contents@,
            p as nat == char_pos(chars@, old(self).ip.x as nat, old(self).ip.y as nat),
            p <= chars@.len(),
        ensures
            ({
                let t = chars@.insert(p as int, c);
                &&& final(on_screen).contents@ == t
                &&& final(self).ip.x as nat == realign_up(
                    lines_of(t)[old(self).ip.y as int],
                    (old(self).ip.x + 1) as nat,
                )
                &&& final(self).ip.y == old(self).ip.y
            }),
            final(self).indexes(final(on_screen).contents@),
            final(on_screen).rows_fresh(),
            final(on_screen).display_type == old(on_screen).display_type,
            final(on_screen).prompt@ == old(on_screen).prompt@,
            final(on_screen).active_cursor_location == old(on_screen).active_cursor_location,
            final(self).screen_rows == old(self).screen_rows,
            final(self).screen_cols == old(self).screen_cols,
            final(self).row_offset == old(self).row_offset,
            final(self).column_offset == old(self).column_offset,
    {
        let ghost ls = lines_of(chars@);
        let y = self.ip.y;
        let x = self.ip.x;
        proof {
            lemma_lines_shape(chars@);
            lemma_row_in_text(ls, y as int);
            lemma_len_le_byte_len(chars@);
        }
        let mut chars = chars;
        chars.insert(p, c);
        proof {
            lemma_newlines_insert(old(on_screen).contents@, p as int, c);
            lemma_lines_shape(chars@);
        }
        on_screen.set_contents(string_of(chars.as_slice()));
        self.index_rows(on_screen);
        self.ip.x = align_up(&on_screen.row_contents[y], x + 1, self.width_in_row[y]);
    }

    fn put_tab(&mut self, p: usize, chars: Vec<char>, on_screen: &mut Page)
        requires
            old(self).indexes(old(on_screen).contents@),
            chars@ == old(on_screen).contents@,
            p <= chars@.len(),
        ensures
            final(on_screen).contents@ == chars@.take(p as int) + seq![' ', ' ', ' ', ' ']
                + chars@.skip(p as int),
            final(self).ip.x as nat == if old(self).ip.x + 4 <= usize::MAX {
                (old(self).ip.x + 4) as nat
            } else {
                usize::MAX as nat
            },
            final(self).ip.y == old(self).ip.y,
            final(self).indexes(final(on_screen).contents@),
            final(on_screen).rows_fresh(),
            final(on_screen).display_type == old(on_screen).display_type,
            final(on_screen).prompt@ == old(on_screen).prompt@,
            final(on_screen).active_cursor_location == old(on_screen).active_cursor_location,
            final(self).screen_rows == old(self).screen_rows,
            final(self).screen_cols == old(self).screen_cols,
            final(self).row_offset == old(self).row_offset,
            final(self).column_offset == old(self).column_offset,
    {
        let mut chars = chars;
        let mut tail = chars.split_off(p);
        chars.push(' ');
        chars.push(' ');
        chars.push(' ');
        chars.push(' ');
        chars.append(&mut tail);
        proof {
            assert(chars@ =~= old(on_screen).contents@.take(p as int) + seq![' ', ' ', ' ', ' ']
                + old(on_screen).contents@.skip(p as int));
        }
        on_screen.set_contents(string_of(chars.as_slice()));
        self.index_rows(on_screen);
        self.ip.x = self.ip.x.saturating_add(4);
    }

    fn back_space(&mut self, start: usize, k: usize, chars: Vec<char>, on_screen: &mut Page)
        requires
            old(self).indexes(old(on_screen).contents@),
            old(self).cursor_ok(),
            chars@ == old(on_screen).contents@,
            start as nat == row_start(lines_of(chars@), old(self).ip.y as int),
            k as nat == col_chars(lines_of(chars@)[old(self).ip.y as int], old(self).ip.x as nat),
            start + k <= chars@.len(),
            k > 0 ==> chars@[start + k - 1] != '\n',
            k <= lines_of(chars@)[old(self).ip.y as int].len(),
            forall|j: int|
                0 <= j < lines_of(chars@)[old(self).ip.y as int].len() ==> chars@[start + j]
                    == #[trigger] lines_of(chars@)[old(self).ip.y as int][j],
        ensures
            ({
                let (t, nx, ny) = edit_spec(
                    chars@,
                    old(self).ip.x as nat,
                    old(self).ip.y as nat,
                    Key::Backspace,
                );
                &&& final(on_screen).contents@ == t
                &&& final(self).ip.x as nat == nx
                &&& final(self).ip.y as nat == ny
            }),
            final(self).indexes(final(on_screen).contents@),
            final(on_screen).rows_fresh(),
            final(on_screen).display_type == old(on_screen).display_type,
            final(on_screen).prompt@ == old(on_screen).prompt@,
            final(on_screen).active_cursor_location == old(on_screen).active_cursor_location,
            final(self).screen_rows == old(self).screen_rows,
            final(self).screen_cols == old(self).screen_cols,
            final(self).row_offset == old(self).row_offset,
            final(self).column_offset == old(self).column_offset,
    {
        let ghost text = chars@;
        let ghost ls = lines_of(text);
        let y = self.ip.y;
        let x = self.ip.x;
        proof {
            lemma_lines_shape(text);
        }
        let mut chars = chars;
        if x == 0 || k == 0 {
            if y > 0 {
                let nx = self.width_in_row[y - 1];
                proof {
                    lemma_row_in_text(ls, y - 1);
                }
                chars.remove(start - 1);
                on_screen.set_contents(string_of(chars.as_slice()));
                self.index_rows(on_screen);
                let ghost before = *self;
                self.ip.x = nx;
                self.ip.y = y - 1;
                proof {
                    lemma_indexes_same_rows(before, *self, on_screen.contents@);
                }
            } else {
                self.index_rows(on_screen);
            }
        } else {
            let n = chars.len();
            assert(start + k <= n);
            let before_removed = slice_chars(&chars, start, start + (k - 1));
            proof {
                assert(before_removed@ =~= ls[y as int].take(k - 1));
            }
            let nx = display_width(string_of(before_removed.as_slice()).as_str());
            chars.remove(start + (k - 1));
            proof {
                lemma_newlines_remove(text, start + k - 1);
                lemma_lines_shape(chars@);
            }
            on_screen.set_contents(string_of(chars.as_slice()));
            self.index_rows(on_screen);
            let ghost before = *self;
            self.ip.x = nx;
            proof {
                lemma_indexes_same_rows(before, *self, on_screen.contents@);
            }
        }
    }

    /// Brings the cursor back onto the rows: to the last row if it is below
    /// them, and to the end of its row if it is past it.
    pub fn clamp_cursor(&mut self)
        requires
            old(self).num_of_rows >= 1,
            old(self).width_in_row@.len() == old(self).num_of_rows,
        ensures
            final(self).cursor_ok(),
            (final(self).ip.x as nat, final(self).ip.y as nat) == clamp_spec(
                old(self).width_in_row@,
                old(self).ip.x as nat,
                old(self).ip.y as nat,
            ),
            final(self).bytes_in_row@ == old(self).bytes_in_row@,
            final(self).width_in_row@ == old(self).width_in_row@,
            final(self).num_of_rows == old(self).num_of_rows,
            final(self).screen_rows == old(self).screen_rows,
            final(self).screen_cols == old(self).screen_cols,
            final(self).row_offset == old(self).row_offset,
            final(self).column_offset == old(self).column_offset,
    {
        if self.ip.y >= self.num_of_rows {
            self.ip.y = self.num_of_rows - 1;
        }
        if self.ip.x > self.width_in_row[self.ip.y] {
            self.ip.x = self.width_in_row[self.ip.y];
        }
    }
}

} // verus!
