use vstd::prelude::*;

use crate::page::PageType;
use crate::parse::{split_chars, split_on, to_chars, to_string, trim, trim_chars};
use crate::screen::Screen;
use crate::text::string_of;

verus! {

/// `n` copies of `c`.
pub open spec fn repeated(c: char, n: nat) -> Seq<char> {
    Seq::new(n, |i: int| c)
}

pub open spec fn sat_sub(a: nat, b: nat) -> nat {
    if a >= b {
        (a - b) as nat
    } else {
        0
    }
}

/// Two thirds of `c`, rounded down.
pub open spec fn two_thirds(c: nat) -> nat {
    c / 3 * 2 + c % 3 * 2 / 3
}

/// A line of a dialog box `w` columns wide at column `x`, row `y`: its frame,
/// then `text` two columns in.
pub open spec fn boxed_line(x: nat, y: nat, w: nat, text: Seq<char>) -> Seq<(nat, nat, Seq<char>)> {
    seq![(x, y, "| "@ + repeated(' ', sat_sub(w, 4)) + " |"@), (x + 2, y, text)]
}

/// The lines of a dialog's banner; a blank banner has none.
pub open spec fn prompt_lines(prompt: Seq<char>) -> Seq<Seq<char>> {
    if trim(prompt).len() == 0 {
        Seq::empty()
    } else {
        split_on(trim(prompt), '\n')
    }
}

/// The first `k` banner lines, each in a box line, ending just above row `y`.
pub open spec fn prompt_boxes(ls: Seq<Seq<char>>, x: nat, y: nat, w: nat, k: nat) -> Seq<
    (nat, nat, Seq<char>),
>
    decreases k,
{
    if k == 0 {
        Seq::empty()
    } else {
        let i = (k - 1) as nat;
        prompt_boxes(ls, x, y, w, i) + boxed_line(
            x,
            sat_sub(y, sat_sub(ls.len(), i)),
            w,
            ls[i as int],
        )
    }
}

/// Where a dialog is drawn on a screen of `cols` columns and `rows` rows, as
/// (column, row, text) to print in order: a dashed top edge, the banner
/// lines, the typed text in the middle row, a dashed bottom edge; then for
/// the command palette the menu of commands in a narrower box below.
pub open spec fn overlay_spec(
    prompt: Seq<char>,
    content: Seq<char>,
    cols: nat,
    rows: nat,
    command: bool,
) -> Seq<(nat, nat, Seq<char>)> {
    let y = rows / 2;
    let x = cols / 6;
    let w = two_thirds(cols);
    let ls = prompt_lines(prompt);
    let n = ls.len();
    let main = seq![(x, sat_sub(y, 1 + n), repeated('-', w))] + prompt_boxes(ls, x, y, w, n)
        + boxed_line(x, y, w, content) + seq![(x, y + 1, repeated('-', w))];
    if command {
        let x2 = cols / 4;
        let w2 = cols / 2;
        main + boxed_line(x2, y + 2, w2, "Toggle Highlight"@) + boxed_line(x2, y + 3, w2, "Find"@)
            + boxed_line(x2, y + 4, w2, "File Info"@) + seq![(x2, y + 5, repeated('-', w2))]
    } else {
        main
    }
}

pub open spec fn placed_view(t: (usize, usize, String)) -> (nat, nat, Seq<char>) {
    (t.0 as nat, t.1 as nat, t.2@)
}

pub open spec fn placed_views(v: Seq<(usize, usize, String)>) -> Seq<(nat, nat, Seq<char>)> {
    v.map_values(|t: (usize, usize, String)| placed_view(t))
}

fn repeat_string(c: char, n: usize) -> (r: String)
    ensures
        r@ == repeated(c, n as nat),
{
    let mut v: Vec<char> = Vec::new();
    let mut i: usize = 0;
    while i < n
        invariant
            i <= n,
            v@ == repeated(c, i as nat),
        decreases n - i,
    {
        v.push(c);
        i = i + 1;
        proof {
            assert(v@ =~= repeated(c, i as nat));
        }
    }
    string_of(v.as_slice())
}

fn push_placed(out: &mut Vec<(usize, usize, String)>, x: usize, y: usize, text: String)
    ensures
        placed_views(final(out)@) == placed_views(old(out)@).push((x as nat, y as nat, text@)),
{
    out.push((x, y, text));
    assert(placed_views(out@) =~= placed_views(old(out)@).push((x as nat, y as nat, text@)));
}

fn push_boxed(out: &mut Vec<(usize, usize, String)>, x: usize, y: usize, w: usize, text: String)
    requires
        x + 2 <= usize::MAX,
    ensures
        placed_views(final(out)@) == placed_views(old(out)@) + boxed_line(
            x as nat,
            y as nat,
            w as nat,
            text@,
        ),
{
    let mut frame: Vec<char> = Vec::new();
    frame.push('|');
    frame.push(' ');
    let spaces = if w >= 4 {
        w - 4
    } else {
        0
    };
    let mut i: usize = 0;
    proof {
        reveal_strlit("| ");
        assert(frame@ =~= "| "@ + repeated(' ', 0));
    }
    while i < spaces
        invariant
            i <= spaces,
            frame@ == "| "@ + repeated(' ', i as nat),
        decreases spaces - i,
    {
        frame.push(' ');
        i = i + 1;
        proof {
            assert(frame@ =~= "| "@ + repeated(' ', i as nat));
        }
    }
    frame.push(' ');
    frame.push('|');
    proof {
        reveal_strlit("| ");
        reveal_strlit(" |");
        assert(frame@ =~= "| "@ + repeated(' ', spaces as nat) + " |"@);
    }
    push_placed(out, x, y, string_of(frame.as_slice()));
    push_placed(out, x + 2, y, text);
}

impl Screen {
    /// Where dialog page `i` is drawn, as (column, row, text) to print in
    /// order, for the window's columns and rows.
    pub fn overlay_layout(&self, i: usize, content: String) -> (r: Vec<(usize, usize, String)>)
        requires
            i < self.page_stack@.len(),
        ensures
            placed_views(r@) == overlay_spec(
                self.page_stack@[i as int].prompt@,
                content@,
                self.key_handler.screen_cols as nat,
                self.key_handler.screen_rows as nat,
                self.page_stack@[i as int].display_type == PageType::Command,
            ),
    {
        let cols = self.key_handler.screen_cols;
        let rows = self.key_handler.screen_rows;
        let y = rows / 2;
        let x = cols / 6;
        let w = cols / 3 * 2 + cols % 3 * 2 / 3;
        let page = &self.page_stack[i];
        let trimmed = trim_chars(&to_chars(&page.prompt));
        let lines: Vec<Vec<char>> = if trimmed.len() == 0 {
            Vec::new()
        } else {
            split_chars(&trimmed, '\n')
        };
        let ghost ls = prompt_lines(page.prompt@);
        proof {
            assert(lines@.len() == ls.len());
        }
        let n = lines.len();
        let mut out: Vec<(usize, usize, String)> = Vec::new();
        push_placed(&mut out, x, y.saturating_sub(n).saturating_sub(1), repeat_string('-', w));
        let ghost first = placed_views(out@);
        let mut k: usize = 0;
        while k < n
            invariant
                n == lines@.len(),
                n == ls.len(),
                forall|q: int| 0 <= q < n ==> (#[trigger] lines@[q])@ == ls[q],
                k <= n,
                x == cols / 6,
                placed_views(out@) == first + prompt_boxes(ls, x as nat, y as nat, w as nat, k as nat),
            decreases n - k,
        {
            push_boxed(&mut out, x, y.saturating_sub(n - k), w, to_string(&lines[k]));
            proof {
                assert(placed_views(out@) =~= first + prompt_boxes(
                    ls,
                    x as nat,
                    y as nat,
                    w as nat,
                    (k + 1) as nat,
                ));
            }
            k = k + 1;
        }
        push_boxed(&mut out, x, y, w, content);
        push_placed(&mut out, x, y + 1, repeat_string('-', w));
        if page.display_type == PageType::Command {
            let x2 = cols / 4;
            let w2 = cols / 2;
            push_boxed(&mut out, x2, y + 2, w2, String::from_str("Toggle Highlight"));
            push_boxed(&mut out, x2, y + 3, w2, String::from_str("Find"));
            push_boxed(&mut out, x2, y + 4, w2, String::from_str("File Info"));
            push_placed(&mut out, x2, y + 5, repeat_string('-', w2));
        }
        proof {
            assert(placed_views(out@) =~= overlay_spec(
                page.prompt@,
                content@,
                cols as nat,
                rows as nat,
                page.display_type == PageType::Command,
            ));
        }
        out
    }
}

} // verus!
