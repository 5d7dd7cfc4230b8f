use vstd::prelude::*;
use vstd::utf8::encode_utf8;

use crate::find::{char_floor, coords_of};
use crate::key_handler::{
    col_chars, cursor_on, edit_step, offset_of, realign_up, row_start, Key, KeyHandler,
};
use crate::text::{
    byte_len, char_len_spec, join_lines, lemma_byte_len_is_encoding_len, lemma_byte_len_append, lemma_byte_len_prefix,
    lemma_lines_shape, lemma_no_newlines, lemma_row_in_text, lemma_row_newline_last,
    lemma_sum_matches_lines, lines_of, newlines, strip_newline, sum_of,
};
use crate::width::{
    char_width, fit_len, fit_width, lemma_str_width_append, lemma_str_width_prefix,
    lemma_str_width_push, str_width,
};

verus! {

/// After any edit the row index adds up: the bytes of the rows sum to the
/// bytes of the text, its UTF-8 length, and there is one row more than there
/// are newlines.
pub proof fn lemma_row_index_adds_up(kh: &KeyHandler, text: Seq<char>)
    requires
        kh.indexes(text),
    ensures
        sum_of(kh.bytes_in_row@) == byte_len(text),
        sum_of(kh.bytes_in_row@) == encode_utf8(text).len(),
        kh.bytes_in_row@.len() == newlines(text) + 1,
        kh.width_in_row@.len() == newlines(text) + 1,
{
    lemma_lines_shape(text);
    lemma_sum_matches_lines(kh.bytes_in_row@, lines_of(text));
    lemma_byte_len_is_encoding_len(text);
}

/// The text, cursor column and cursor row after the edit keys `ops` in
/// turn, as `KeyHandler::insertion` applies each.
pub open spec fn run_edits(text: Seq<char>, x: nat, y: nat, ops: Seq<Key>) -> (Seq<char>, nat, nat)
    decreases ops.len(),
{
    if ops.len() == 0 {
        (text, x, y)
    } else {
        let (t, nx, ny) = run_edits(text, x, y, ops.drop_last());
        edit_step(t, nx, ny, ops.last())
    }
}

/// What typing `ops` should leave: the characters typed, each Backspace
/// taking away the last one still there.
pub open spec fn typed(ops: Seq<Key>) -> Seq<char>
    decreases ops.len(),
{
    if ops.len() == 0 {
        Seq::<char>::empty()
    } else {
        let t = typed(ops.drop_last());
        match ops.last() {
            Key::Char(c) => t.push(c),
            Key::Backspace => if t.len() > 0 {
                t.drop_last()
            } else {
                t
            },
            _ => t,
        }
    }
}

/// Keys that only type characters of at least one column, other than the
/// newline, or take them back.
pub open spec fn plain_typing(ops: Seq<Key>) -> bool {
    forall|i: int|
        0 <= i < ops.len() ==> match #[trigger] ops[i] {
            Key::Char(c) => c != '\n' && char_width(c) >= 1,
            Key::Backspace => true,
            _ => false,
        }
}

proof fn lemma_single_line(t: Seq<char>)
    requires
        newlines(t) == 0,
    ensures
        lines_of(t) == seq![t],
    decreases t.len(),
{
    if t.len() > 0 {
        let s = t.drop_last();
        assert(newlines(s) == 0);
        lemma_single_line(s);
        assert(s.push(t.last()) =~= t);
        assert(seq![s].update(0, s.push(t.last())) =~= seq![t]);
    } else {
        assert(t =~= Seq::<char>::empty());
    }
}

proof fn lemma_width_positive(t: Seq<char>)
    requires
        forall|i: int| 0 <= i < t.len() ==> char_width(#[trigger] t[i]) >= 1,
    ensures
        str_width(t) >= t.len(),
    decreases t.len(),
{
    if t.len() > 0 {
        lemma_width_positive(t.drop_last());
    }
}

proof fn lemma_fit_whole(t: Seq<char>, x: nat)
    requires
        str_width(t) <= x,
    ensures
        fit_len(t, x) == t.len(),
        fit_width(t, x) == str_width(t),
{
    assert(t.take(t.len() as int) =~= t);
}

proof fn lemma_realign_up_past(s: Seq<char>, c: char, j: nat)
    requires
        str_width(s) < j,
    ensures
        realign_up(s.push(c), j) == str_width(s.push(c)),
    decreases str_width(s.push(c)) - j,
{
    let t = s.push(c);
    lemma_str_width_push(s, c);
    if j < str_width(t) {
        assert(t.drop_last() =~= s);
        lemma_fit_whole(s, j);
        assert(fit_len(t, j) == s.len());
        assert(t.take(s.len() as int) =~= s);
        lemma_realign_up_past(s, c, j + 1);
    }
}

/// Typing characters and pressing Backspace in an empty buffer leaves
/// exactly the characters typed, less those taken back, with the cursor at
/// their end. It is stated for characters that take at least one column
/// and are not newlines.
pub proof fn lemma_typing_fidelity(ops: Seq<Key>)
    requires
        plain_typing(ops),
    ensures
        run_edits(Seq::<char>::empty(), 0, 0, ops) == (
            typed(ops),
            str_width(typed(ops)),
            0nat,
        ),
    decreases ops.len(),
{
    if ops.len() > 0 {
        let prev = ops.drop_last();
        assert(plain_typing(prev)) by {
            assert forall|i: int| 0 <= i < prev.len() implies match #[trigger] prev[i] {
                Key::Char(c) => c != '\n' && char_width(c) >= 1,
                Key::Backspace => true,
                _ => false,
            } by {
                assert(prev[i] == ops[i]);
            }
        }
        lemma_typing_fidelity(prev);
        lemma_typed_plain(prev);
        let t = typed(prev);
        let x = str_width(t);
        lemma_single_line(t);
        lemma_fit_whole(t, x);
        assert(strip_newline(t.take(fit_len(t, x) as int)) =~= t) by {
            assert(t.take(t.len() as int) =~= t);
            if t.len() > 0 {
                assert(t.last() != '\n');
            }
        }
        assert(col_chars(lines_of(t)[0], x) == t.len());
        assert(row_start(lines_of(t), 0) == 0) by {
            assert(lines_of(t).take(0) =~= Seq::<Seq<char>>::empty());
        }
        assert(ops.last() == ops[ops.len() - 1]);
        match ops.last() {
            Key::Char(c) => {
                let t2 = t.insert(t.len() as int, c);
                assert(t2 =~= t.push(c));
                lemma_str_width_push(t, c);
                lemma_newlines_push_plain(t, c);
                lemma_single_line(t2);
                lemma_realign_up_past(t, c, x + 1);
            },
            Key::Backspace => {
                if t.len() > 0 {
                    let t2 = t.remove(t.len() - 1);
                    assert(t2 =~= t.drop_last());
                    lemma_width_positive(t);
                    assert(t.drop_last().push(t.last()) =~= t);
                    lemma_str_width_push(t.drop_last(), t.last());
                    assert(newlines(t2) == 0);
                    lemma_single_line(t2);
                    assert(t.take(t.len() - 1) =~= t2);
                }
            },
            _ => {},
        }
    }
}

proof fn lemma_newlines_push_plain(t: Seq<char>, c: char)
    requires
        c != '\n',
    ensures
        newlines(t.push(c)) == newlines(t),
{
    assert(t.push(c).drop_last() =~= t);
}

/// Plain typing leaves no newline, and only characters of at least one column.
proof fn lemma_typed_plain(ops: Seq<Key>)
    requires
        plain_typing(ops),
    ensures
        newlines(typed(ops)) == 0,
        forall|i: int| 0 <= i < typed(ops).len() ==> char_width(#[trigger] typed(ops)[i]) >= 1,
        forall|i: int| 0 <= i < typed(ops).len() ==> #[trigger] typed(ops)[i] != '\n',
    decreases ops.len(),
{
    if ops.len() > 0 {
        let prev = ops.drop_last();
        assert forall|i: int| 0 <= i < prev.len() implies match #[trigger] prev[i] {
            Key::Char(c) => c != '\n' && char_width(c) >= 1,
            Key::Backspace => true,
            _ => false,
        } by {
            assert(prev[i] == ops[i]);
        }
        lemma_typed_plain(prev);
        let t = typed(prev);
        assert(ops.last() == ops[ops.len() - 1]);
        match ops.last() {
            Key::Char(c) => {
                lemma_newlines_push_plain(t, c);
                assert forall|i: int| 0 <= i < t.push(c).len() implies char_width(
                    #[trigger] t.push(c)[i],
                ) >= 1 && t.push(c)[i] != '\n' by {
                    if i < t.len() {
                        assert(t.push(c)[i] == t[i]);
                    }
                }
            },
            Key::Backspace => {
                if t.len() > 0 {
                    assert(t.drop_last().push(t.last()) =~= t);
                    lemma_newlines_push_plain(t.drop_last(), t.last());
                    assert forall|i: int| 0 <= i < t.drop_last().len() implies char_width(
                        #[trigger] t.drop_last()[i],
                    ) >= 1 && t.drop_last()[i] != '\n' by {
                        assert(t.drop_last()[i] == t[i]);
                    }
                }
            },
            _ => {},
        }
    }
}

/// How the rows of a text grow when more text follows it: the complete rows
/// stay, and the last row is extended by what follows.
proof fn lemma_lines_extend(s: Seq<char>, u: Seq<char>)
    ensures
        ({
            let l = lines_of(s);
            let m = lines_of(s + u);
            let n = l.len();
            &&& n >= 1
            &&& m.len() >= n
            &&& forall|j: int| 0 <= j < n - 1 ==> m[j] == l[j]
            &&& m[n - 1].len() >= l[n - 1].len()
            &&& m[n - 1].take(l[n - 1].len() as int) == l[n - 1]
            &&& u.len() > 0 ==> m[n - 1].len() > l[n - 1].len() && m[n - 1][l[n
                - 1].len() as int] == u[0]
        }),
    decreases u.len(),
{
    lemma_lines_shape(s);
    let l = lines_of(s);
    let n = l.len();
    if u.len() == 0 {
        assert(s + u =~= s);
        assert(l[n - 1].take(l[n - 1].len() as int) =~= l[n - 1]);
    } else {
        let v = u.drop_last();
        let c = u.last();
        lemma_lines_extend(s, v);
        lemma_lines_shape(s + v);
        assert((s + u).drop_last() =~= s + v);
        assert((s + u).last() == c);
        let mp = lines_of(s + v);
        let m = lines_of(s + u);
        assert(m.len() >= mp.len());
        assert forall|j: int| 0 <= j < n - 1 implies m[j] == l[j] by {
            assert(m[j] == mp[j]);
        }
        if mp.len() > n {
            assert(m[n - 1] == mp[n - 1]);
            if v.len() == 0 {
                assert(s + v =~= s);
            }
        } else {
            let grown = mp[n - 1].push(c);
            assert(m[n - 1] == grown);
            assert(grown.take(l[n - 1].len() as int) =~= mp[n - 1].take(l[n - 1].len() as int));
            if v.len() == 0 {
                assert(s + v =~= s);
                assert(mp[n - 1] == l[n - 1]);
                assert(grown[l[n - 1].len() as int] == c);
                assert(u[0] == c);
            } else {
                assert(u[0] == v[0]);
            }
        }
    }
}

/// A row cut at the width of its first part keeps that part alone, when the
/// character after it takes at least one column.
proof fn lemma_fit_at_prefix(a: Seq<char>, b: Seq<char>)
    requires
        b.len() > 0,
        char_width(b[0]) >= 1,
    ensures
        fit_len(a + b, str_width(a)) == a.len(),
    decreases b.len(),
{
    let w = str_width(a);
    lemma_str_width_append(a, b);
    lemma_str_width_prefix(b, 1);
    assert(b.take(1) =~= seq![b[0]]);
    assert(seq![b[0]].drop_last() =~= Seq::<char>::empty());
    assert(seq![b[0]].last() == b[0]);
    assert(str_width(Seq::<char>::empty()) == 0);
    assert(str_width(seq![b[0]]) == char_width(b[0]));
    assert(str_width(a + b) > w);
    assert((a + b).drop_last() =~= a + b.drop_last());
    assert(fit_len(a + b, w) == fit_len(a + b.drop_last(), w));
    if b.len() == 1 {
        assert(a + b.drop_last() =~= a);
        assert(str_width(a) <= w);
        assert(fit_len(a, w) == a.len());
    } else {
        assert(b.drop_last()[0] == b[0]);
        lemma_fit_at_prefix(a, b.drop_last());
    }
}

/// Going from a byte offset to a display position and back gives the same
/// offset. It is stated for offsets at character boundaries where the
/// character that follows, if any, is a newline or takes at least one column.
pub proof fn lemma_position_round_trip(text: Seq<char>, ci: nat)
    requires
        ci <= text.len(),
        ci == text.len() || text[ci as int] == '\n' || char_width(text[ci as int]) >= 1,
    ensures
        ({
            let k = byte_len(text.take(ci as int));
            let (x, y) = coords_of(text, k);
            &&& y < lines_of(text).len()
            &&& offset_of(text, x, y) == k
        }),
{
    let k = byte_len(text.take(ci as int));
    if ci < text.len() {
        assert(text.take(ci as int + 1).drop_last() =~= text.take(ci as int));
    }
    lemma_char_floor_exact(text, ci);
    let pre = text.take(ci as int);
    let u = text.skip(ci as int);
    assert(pre + u =~= text);
    lemma_lines_extend(pre, u);
    lemma_lines_shape(pre);
    lemma_lines_shape(text);
    let l = lines_of(pre);
    let m = lines_of(text);
    let y = l.len() - 1;
    let cur = l[y];
    let x = str_width(cur);
    assert(coords_of(text, k) == (x, newlines(pre)));
    assert(m.take(y) =~= l.take(y));
    lemma_row_in_text(l, y);
    assert(l.take(y + 1) =~= l);
    lemma_byte_len_append(join_lines(l.take(y)), cur);
    let row = m[y];
    lemma_no_newlines(cur);
    assert(strip_newline(cur) == cur);
    assert(row.take(cur.len() as int) == cur);
    assert(byte_len(join_lines(m.take(y))) + byte_len(cur) == k);
    if u.len() == 0 {
        assert(row =~= cur);
        assert(cur.take(cur.len() as int) =~= cur);
        assert(strip_newline(row.take(fit_len(row, x) as int)) == cur);
    } else {
        assert(u[0] == text[ci as int]);
        if text[ci as int] == '\n' {
            lemma_row_newline_last(text, y);
            assert(row =~= cur.push('\n'));
            assert(row.drop_last() =~= cur);
            lemma_str_width_push(cur, '\n');
            if str_width(row) <= x {
                assert(fit_len(row, x) == row.len());
                assert(row.take(row.len() as int) =~= row);
                assert(row.last() == '\n');
                assert(strip_newline(row) == cur);
            } else {
                assert(fit_len(row, x) == fit_len(cur, x));
                assert(fit_len(cur, x) == cur.len());
                assert(cur.take(cur.len() as int) =~= cur);
            }
            assert(strip_newline(row.take(fit_len(row, x) as int)) == cur);
        } else {
            let rest = row.skip(cur.len() as int);
            assert(row =~= cur + rest);
            assert(rest[0] == text[ci as int]);
            lemma_fit_at_prefix(cur, rest);
            assert(fit_len(cur + rest, x) == cur.len());
            assert(fit_len(row, x) == cur.len());
            assert(row.take(cur.len() as int) == cur);
            assert(row.take(fit_len(row, x) as int) == cur);
            assert(strip_newline(cur) == cur);
            assert(strip_newline(row.take(fit_len(row, x) as int)) == cur);
        }
    }
    assert(offset_of(text, x, y as nat) == k);
}

proof fn lemma_char_floor_exact(text: Seq<char>, ci: nat)
    requires
        ci <= text.len(),
    ensures
        char_floor(text, byte_len(text.take(ci as int))) == ci,
    decreases text.len(),
{
    let k = byte_len(text.take(ci as int));
    if ci < text.len() {
        lemma_byte_len_prefix(text, ci as int + 1);
        assert(text.take(ci as int + 1).drop_last() =~= text.take(ci as int));
        assert(byte_len(text) >= byte_len(text.take(ci as int + 1)));
        assert(byte_len(text.take(ci as int + 1)) == k + char_len_spec(text[ci as int]));
        assert(text.drop_last().take(ci as int) =~= text.take(ci as int));
        lemma_char_floor_exact(text.drop_last(), ci);
    } else {
        assert(text.take(ci as int) =~= text);
    }
}

} // verus!
