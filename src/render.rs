use vstd::prelude::*;

use crate::key_handler::KeyHandler;
use crate::page::Page;
use crate::parse::slice_chars;
use crate::text::{chars_of, lemma_lines_shape, lines_of, string_of, strip_newline};
use crate::width::{
    display_width, fit_len, fit_width, lemma_fit_len_bounds, lemma_str_width_append,
    lemma_str_width_prefix, str_width, truncate_to_width,
};

verus! {

/// Spaces put before a row whose first visible column would cut a wide
/// character: as many as it takes to reach a column where the row can be cut.
pub open spec fn pad_from(row: Seq<char>, c: nat, p: nat) -> nat
    decreases str_width(row) - (c + p),
{
    if c + p >= str_width(row) || fit_width(row, c + p) == c + p {
        p
    } else {
        pad_from(row, c, p + 1)
    }
}

pub open spec fn sat_add(a: nat, b: nat) -> nat {
    if a + b <= usize::MAX {
        a + b
    } else {
        usize::MAX as nat
    }
}

/// Spaces put before what `row` shows from column `c`, at most `cols` of them.
pub open spec fn row_pad(row: Seq<char>, c: nat, cols: nat) -> nat {
    let p = if str_width(row) <= c {
        0
    } else {
        pad_from(row, c, 0)
    };
    if p <= cols {
        p
    } else {
        cols
    }
}

/// Index of the first character of `row` shown from column `c`.
pub open spec fn row_start_at(row: Seq<char>, c: nat, cols: nat) -> nat {
    if str_width(row) <= c {
        row.len()
    } else {
        fit_len(row, c + pad_from(row, c, 0))
    }
}

/// Index just past the last character of `row` shown from column `c` in a
/// window `cols` columns wide.
pub open spec fn row_end_at(row: Seq<char>, c: nat, cols: nat) -> nat {
    let e = fit_len(row, sat_add(c, cols));
    if e < row_start_at(row, c, cols) {
        row_start_at(row, c, cols)
    } else {
        e
    }
}

/// What a row shows through a window starting at column `c` and `cols`
/// columns wide: its newline left out, padding where a wide character is cut
/// on the left, then the characters that end by the window's right edge.
pub open spec fn row_text(row: Seq<char>, c: nat, cols: nat) -> Seq<char> {
    let r = strip_newline(row);
    Seq::new(row_pad(r, c, cols), |i: int| ' ') + r.subrange(
        row_start_at(r, c, cols) as int,
        row_end_at(r, c, cols) as int,
    )
}

/// Number of rows of `n` seen through a window of `rows` rows from row `ro`.
pub open spec fn visible_rows(n: nat, ro: nat, rows: nat) -> nat {
    if ro >= n {
        0
    } else if n - ro <= rows {
        (n - ro) as nat
    } else {
        rows
    }
}

/// The first `k` visible rows from row `ro`, joined by `\r\n`.
pub open spec fn window_rows(lines: Seq<Seq<char>>, ro: nat, co: nat, cols: nat, k: nat) -> Seq<
    char,
>
    decreases k,
{
    if k == 0 {
        Seq::empty()
    } else {
        let i = (k - 1) as nat;
        window_rows(lines, ro, co, cols, i) + (if i > 0 {
            seq!['\r', '\n']
        } else {
            Seq::<char>::empty()
        }) + row_text(lines[ro + i as int], co, cols)
    }
}

/// The text a window of `rows` rows and `cols` columns at row offset `ro`
/// and column offset `co` shows of `lines`: one line per visible row, joined
/// by `\r\n`, none after the last.
pub open spec fn window(lines: Seq<Seq<char>>, ro: nat, co: nat, rows: nat, cols: nat) -> Seq<char> {
    window_rows(lines, ro, co, cols, visible_rows(lines.len(), ro, rows))
}

/// What a row shows never takes more than the window's columns: the
/// padding and the width of the characters shown add up to at most `cols`.
pub proof fn lemma_row_text_fits(row: Seq<char>, c: nat, cols: nat)
    ensures
        ({
            let r = strip_newline(row);
            let s = row_start_at(r, c, cols);
            let e = row_end_at(r, c, cols);
            &&& s <= e <= r.len()
            &&& row_pad(r, c, cols) + str_width(r.subrange(s as int, e as int)) <= cols
        }),
{
    let r = strip_newline(row);
    let w = str_width(r);
    let s = row_start_at(r, c, cols);
    let e = row_end_at(r, c, cols);
    let m = sat_add(c, cols);
    lemma_fit_len_bounds(r, m);
    if w <= c {
        assert(r.subrange(s as int, e as int) =~= Seq::<char>::empty());
    } else {
        let p = pad_from(r, c, 0);
        lemma_pad_from(r, c, 0);
        lemma_fit_len_bounds(r, c + p);
        if fit_len(r, m) < s {
            assert(r.subrange(s as int, e as int) =~= Seq::<char>::empty());
        } else {
            lemma_fit_width_prefix(r, c + p, m);
            let f = fit_len(r, m);
            assert(r.take(f as int) =~= r.take(s as int) + r.subrange(s as int, f as int));
            lemma_str_width_append(r.take(s as int), r.subrange(s as int, f as int));
            if c + p >= w {
                assert(s == r.len());
                assert(r.subrange(s as int, e as int) =~= Seq::<char>::empty());
            } else {
                assert(fit_width(r, c + p) == c + p);
            }
        }
    }
}

proof fn lemma_pad_from(row: Seq<char>, c: nat, p: nat)
    ensures
        pad_from(row, c, p) >= p,
        ({
            let q = pad_from(row, c, p);
            c + q >= str_width(row) || fit_width(row, c + q) == c + q
        }),
    decreases str_width(row) - (c + p),
{
    if !(c + p >= str_width(row) || fit_width(row, c + p) == c + p) {
        lemma_pad_from(row, c, p + 1);
    }
}

/// A wider cut keeps at least as many characters.
proof fn lemma_fit_width_prefix(s: Seq<char>, a: nat, b: nat)
    requires
        fit_len(s, a) <= fit_len(s, b),
    ensures
        fit_width(s, a) <= fit_width(s, b),
{
    lemma_fit_len_bounds(s, b);
    lemma_str_width_prefix(s.take(fit_len(s, b) as int), fit_len(s, a) as int);
    assert(s.take(fit_len(s, b) as int).take(fit_len(s, a) as int) =~= s.take(
        fit_len(s, a) as int,
    ));
}

impl KeyHandler {
    /// Appends what row `row` shows through the window to `out`.
    fn push_row(&self, row: &String, out: &mut Vec<char>)
        ensures
            final(out)@ == old(out)@ + row_text(
                row@,
                self.column_offset as nat,
                self.screen_cols as nat,
            ),
    {
        let c = self.column_offset;
        let cols = self.screen_cols;
        let mut chars = chars_of(row.as_str());
        if chars.len() > 0 && chars[chars.len() - 1] == '\n' {
            chars.pop();
        }
        let ghost r = strip_newline(row@);
        assert(chars@ == r);
        let shown = string_of(chars.as_slice());
        let width = display_width(shown.as_str());
        let ghost start_out = out@;
        let mut p: usize = 0;
        let start = if width <= c {
            chars.len()
        } else {
            while p < width - c && truncate_to_width(shown.as_str(), c + p).1 != c + p
                invariant
                    c < width,
                    width as nat == str_width(r),
                    shown@ == r,
                    p <= width - c,
                    pad_from(r, c as nat, p as nat) == pad_from(r, c as nat, 0),
                decreases width - c - p,
            {
                p = p + 1;
            }
            let (st, _) = truncate_to_width(shown.as_str(), c + p);
            proof {
                lemma_fit_len_bounds(r, (c + p) as nat);
            }
            chars_of(st).len()
        };
        let (en, _) = truncate_to_width(shown.as_str(), c.saturating_add(cols));
        proof {
            lemma_fit_len_bounds(r, sat_add(c as nat, cols as nat));
        }
        let e0 = chars_of(en).len();
        let end = if e0 < start {
            start
        } else {
            e0
        };
        let pad = if p <= cols {
            p
        } else {
            cols
        };
        let mut q: usize = 0;
        while q < pad
            invariant
                q <= pad,
                out@ == start_out + Seq::new(q as nat, |i: int| ' '),
            decreases pad - q,
        {
            out.push(' ');
            q = q + 1;
            proof {
                assert(out@ =~= start_out + Seq::new(q as nat, |i: int| ' '));
            }
        }
        let slice = slice_chars(&chars, start, end);
        let mut k: usize = 0;
        let ghost padded = out@;
        while k < slice.len()
            invariant
                k <= slice@.len(),
                out@ == padded + slice@.take(k as int),
            decreases slice.len() - k,
        {
            out.push(slice[k]);
            k = k + 1;
            proof {
                assert(out@ =~= padded + slice@.take(k as int));
            }
        }
        proof {
            assert(slice@.take(k as int) =~= slice@);
            assert(out@ =~= old(out)@ + row_text(
                row@,
                self.column_offset as nat,
                self.screen_cols as nat,
            ));
        }
    }

    /// The text the window shows of `on_screen`: the rows from `row_offset`
    /// that fit in `screen_rows`, each cut to `screen_cols` columns from
    /// `column_offset`, joined by `\r\n`.
    pub fn visible_text(&self, on_screen: &Page) -> (r: String)
        requires
            self.indexes(on_screen.contents@),
            on_screen.rows_fresh(),
        ensures
            r@ == window(
                lines_of(on_screen.contents@),
                self.row_offset as nat,
                self.column_offset as nat,
                self.screen_rows as nat,
                self.screen_cols as nat,
            ),
    {
        let ghost ls = lines_of(on_screen.contents@);
        let n = self.num_of_rows;
        let ro = self.row_offset;
        let count = if ro >= n {
            0
        } else if n - ro <= self.screen_rows {
            n - ro
        } else {
            self.screen_rows
        };
        let mut out: Vec<char> = Vec::new();
        let mut i: usize = 0;
        while i < count
            invariant
                self.indexes(on_screen.contents@),
                on_screen.rows_fresh(),
                ls == lines_of(on_screen.contents@),
                n == ls.len(),
                ro == self.row_offset,
                count as nat == visible_rows(n as nat, ro as nat, self.screen_rows as nat),
                i <= count,
                out@ == window_rows(
                    ls,
                    ro as nat,
                    self.column_offset as nat,
                    self.screen_cols as nat,
                    i as nat,
                ),
            decreases count - i,
        {
            let ghost before = out@;
            if i > 0 {
                out.push('\r');
                out.push('\n');
            }
            self.push_row(&on_screen.row_contents[ro + i], &mut out);
            proof {
                assert(out@ =~= window_rows(
                    ls,
                    ro as nat,
                    self.column_offset as nat,
                    self.screen_cols as nat,
                    (i + 1) as nat,
                ));
            }
            i = i + 1;
        }
        string_of(out.as_slice())
    }
}

} // verus!
