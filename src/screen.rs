use vstd::prelude::*;

use crate::highlight::{no_depths, ColorWord};
use crate::insertion_point::InsertionPoint;
use crate::key_handler::{cursor_on, edit_step, move_spec, Key, KeyHandler};
use crate::language::{no_rules, Language};
use crate::page::{Page, PageType};
use crate::render::{sat_add, window};
use crate::text::{chars_of, lines_of, newlines};
use crate::width::str_width;

verus! {

/// What the dialog closed last handed back.
pub enum Mode {
    Normal,
    Find(String),
    Replace(String),
    SaveAs(String),
    Command(String),
}

impl Mode {
    /// The name of the mode.
    pub fn to_str(&self) -> (r: &'static str)
        ensures
            r@ == match self {
                Mode::Normal => "normal"@,
                Mode::Find(_) => "find"@,
                Mode::Replace(_) => "replace"@,
                Mode::SaveAs(_) => "saveas"@,
                Mode::Command(_) => "command"@,
            },
    {
        match self {
            Mode::Normal => "normal",
            Mode::Find(_) => "find",
            Mode::Replace(_) => "replace",
            Mode::SaveAs(_) => "saveas",
            Mode::Command(_) => "command",
        }
    }

    /// The text the mode carries, if any.
    pub open spec fn text(&self) -> Option<Seq<char>> {
        match self {
            Mode::Normal => None,
            Mode::Find(t) => Some(t@),
            Mode::Replace(t) => Some(t@),
            Mode::SaveAs(t) => Some(t@),
            Mode::Command(t) => Some(t@),
        }
    }
}

/// The editor: its stack of pages, the cursor, the mode, the file and the
/// colorizer, and the matches of the last search.
pub struct Screen {
    pub page_stack: Vec<Page>,
    pub key_handler: KeyHandler,
    pub mode: Mode,
    pub file_name: Option<String>,
    pub modified: bool,
    pub color_struct: ColorWord,
    pub matches: Vec<(usize, usize)>,
    pub match_index: usize,
    pub save_as_warned: bool,
}

/// Number of newlines in `s`.
pub fn count_newlines(s: &String) -> (r: usize)
    ensures
        r as nat == newlines(s@),
{
    let chars = chars_of(s.as_str());
    let mut count: usize = 0;
    let mut i: usize = 0;
    while i < chars.len()
        invariant
            i <= chars@.len(),
            count <= i,
            count as nat == newlines(chars@.take(i as int)),
        decreases chars.len() - i,
    {
        proof {
            assert(chars@.take(i + 1).drop_last() =~= chars@.take(i as int));
        }
        if chars[i] == '\n' {
            count = count + 1;
        }
        i = i + 1;
    }
    assert(chars@.take(chars.len() as int) =~= chars@);
    count
}

/// A page's banner as set from `s`: a banner that is not empty ends with a newline.
pub open spec fn banner(s: Seq<char>) -> Seq<char> {
    if s.len() == 0 {
        s
    } else {
        s.push('\n')
    }
}

/// A saved cursor as a pair.
pub open spec fn saved_of(p: Page) -> Option<(usize, usize)> {
    match p.active_cursor_location {
        Some(ip) => Some((ip.x, ip.y)),
        None => None,
    }
}

/// The stack as the cursors its pages saved, with the cursor in use.
pub struct StackModel {
    pub saved: Seq<Option<(usize, usize)>>,
    pub cursor: (usize, usize),
}

/// Opening a dialog: the page on top saves the cursor, and the new page
/// starts at the origin.
pub open spec fn add_model(m: StackModel) -> StackModel {
    StackModel {
        saved: m.saved.update(m.saved.len() - 1, Some(m.cursor)).push(None),
        cursor: (0, 0),
    }
}

/// Closing a dialog: the page beneath takes back its cursor. The last page
/// is never closed.
pub open spec fn pop_model(m: StackModel) -> StackModel {
    if m.saved.len() > 1 {
        let n = m.saved.len();
        StackModel {
            saved: m.saved.drop_last().update(n - 2, None),
            cursor: match m.saved[n - 2] {
                Some(c) => c,
                None => m.cursor,
            },
        }
    } else {
        m
    }
}

impl Screen {
    /// One text page at the bottom of the stack and only there; every page
    /// beneath the top holds the cursor it had, the top holds none; rows
    /// are those of each page's text.
    pub open spec fn wf(&self) -> bool {
        let s = self.page_stack@;
        &&& s.len() >= 1
        &&& s[0].display_type == PageType::Text
        &&& forall|i: int| 1 <= i < s.len() ==> (#[trigger] s[i]).display_type != PageType::Text
        &&& forall|i: int| 0 <= i < s.len() - 1 ==> (#[trigger] s[i]).active_cursor_location is Some
        &&& s.last().active_cursor_location is None
        &&& forall|i: int| 0 <= i < s.len() ==> (#[trigger] s[i]).rows_fresh()
        &&& self.key_handler.wf()
        &&& self.color_struct.wf()
    }

    pub open spec fn model(&self) -> StackModel {
        StackModel {
            saved: self.page_stack@.map_values(|p: Page| saved_of(p)),
            cursor: (self.key_handler.ip.x, self.key_handler.ip.y),
        }
    }

    /// An editor for the file `file_name` holding `contents`, in a window of
    /// `window_size` (columns, rows), colored by `language`.
    pub fn new(
        file_name: Option<String>,
        window_size: (usize, usize),
        language: Option<Language>,
        contents: String,
    ) -> (r: Self)
        ensures
            r.wf(),
            r.page_stack@.len() == 1,
            r.page_stack@[0].contents@ == contents@,
            r.file_name == file_name,
            !r.modified,
            r.mode is Normal,
            r.key_handler.ip.x == 0 && r.key_handler.ip.y == 0,
            r.key_handler.screen_cols == if window_size.0 >= 1 {
                window_size.0
            } else {
                1
            },
            r.key_handler.screen_rows == if window_size.1 > 2 {
                (window_size.1 - 2) as usize
            } else {
                1
            },
            r.key_handler.row_offset == 0,
            r.key_handler.column_offset == 0,
            r.page_stack@[0].prompt@ == banner(
                match file_name {
                    Some(t) => t@,
                    None => "Unsaved File"@,
                },
            ),
            r.color_struct.word is None,
            !r.color_struct.disabled,
            match language {
                Some(l) => r.color_struct.language == l,
                None => r.color_struct.language.view() == no_rules(),
            },
    {
        let mut page_stack: Vec<Page> = Vec::new();
        page_stack.push(Page::new_with_contents(PageType::Text, contents));
        let mut s = Self {
            page_stack,
            key_handler: KeyHandler::new(window_size),
            mode: Mode::Normal,
            file_name,
            modified: false,
            color_struct: Screen::get_color_struct(language),
            matches: Vec::new(),
            match_index: 0,
            save_as_warned: false,
        };
        s.reset_prompt();
        s
    }

    /// The colorizer for `language`, or one that colors nothing.
    pub fn get_color_struct(language: Option<Language>) -> (r: ColorWord)
        ensures
            r.wf(),
            r.word is None,
            !r.disabled,
            r.depths() == no_depths(),
            match language {
                Some(l) => r.language == l,
                None => r.language.view() == no_rules(),
            },
    {
        ColorWord::new(
            None,
            match language {
                Some(l) => l,
                None => Language::new(String::new()),
            },
        )
    }

    /// Whether the last dialog closed was a search.
    pub fn find_mode(&self) -> (r: bool)
        ensures
            r == self.mode is Find,
    {
        match self.mode {
            Mode::Find(_) => true,
            _ => false,
        }
    }

    /// The text the mode carries.
    pub fn search_text(&self) -> (r: Option<String>)
        ensures
            match r {
                Some(t) => self.mode.text() == Some(t@),
                None => self.mode.text() is None,
            },
    {
        match &self.mode {
            Mode::Normal => None,
            Mode::Find(t) => Some(t.clone()),
            Mode::Replace(t) => Some(t.clone()),
            Mode::SaveAs(t) => Some(t.clone()),
            Mode::Command(t) => Some(t.clone()),
        }
    }

    /// The page on top.
    pub fn active(&self) -> (r: &Page)
        requires
            self.wf(),
        ensures
            *r == self.page_stack@.last(),
    {
        &self.page_stack[self.page_stack.len() - 1]
    }

    /// The text page, at the bottom.
    pub fn text_page(&self) -> (r: &Page)
        requires
            self.wf(),
        ensures
            *r == self.page_stack@[0],
    {
        &self.page_stack[0]
    }

    /// Sets the banner of the text page to the file's name.
    pub fn reset_prompt(&mut self)
        requires
            old(self).page_stack@.len() >= 1,
        ensures
            final(self).page_stack@.len() == old(self).page_stack@.len(),
            final(self).page_stack@[0].prompt@ == banner(
                match old(self).file_name {
                    Some(t) => t@,
                    None => "Unsaved File"@,
                },
            ),
            forall|i: int|
                1 <= i < old(self).page_stack@.len() ==> final(self).page_stack@[i] == old(
                    self,
                ).page_stack@[i],
            final(self).page_stack@[0].contents@ == old(self).page_stack@[0].contents@,
            final(self).page_stack@[0].row_contents@ == old(self).page_stack@[0].row_contents@,
            final(self).page_stack@[0].display_type == old(self).page_stack@[0].display_type,
            final(self).page_stack@[0].active_cursor_location == old(
                self,
            ).page_stack@[0].active_cursor_location,
            final(self).key_handler == old(self).key_handler,
            final(self).mode == old(self).mode,
            final(self).file_name == old(self).file_name,
            final(self).modified == old(self).modified,
            final(self).color_struct == old(self).color_struct,
            final(self).matches@ == old(self).matches@,
            final(self).match_index == old(self).match_index,
            final(self).save_as_warned == old(self).save_as_warned,
            final(self).model() == old(self).model(),
            old(self).wf() ==> final(self).wf(),
    {
        let name = match &self.file_name {
            Some(t) => t.clone(),
            None => String::from_str("Unsaved File"),
        };
        let mut page = self.page_stack.remove(0);
        page.set_prompt(name);
        self.page_stack.insert(0, page);
        proof {
            assert forall|i: int| 1 <= i < old(self).page_stack@.len() implies self.page_stack@[i]
                == old(self).page_stack@[i] by {}
            assert(self.page_stack@.map_values(|p: Page| saved_of(p)) =~= old(
                self,
            ).page_stack@.map_values(|p: Page| saved_of(p)));
            if old(self).wf() {
                lemma_wf_same_shape(old(self).page_stack@, self.page_stack@);
            }
        }
    }

    /// Puts `page` on top of the stack.
    pub fn push(&mut self, page: Page)
        ensures
            final(self).page_stack@ == old(self).page_stack@.push(page),
            final(self).key_handler == old(self).key_handler,
            final(self).mode == old(self).mode,
            final(self).file_name == old(self).file_name,
            final(self).modified == old(self).modified,
            final(self).color_struct == old(self).color_struct,
            final(self).matches@ == old(self).matches@,
            final(self).match_index == old(self).match_index,
    {
        self.page_stack.push(page);
    }

    /// Closes the dialog on top and gives it back; the page beneath takes
    /// back the cursor it saved. The text page is never closed.
    pub fn pop(&mut self) -> (r: Option<Page>)
        requires
            old(self).wf(),
        ensures
            final(self).wf(),
            final(self).model() == pop_model(old(self).model()),
            old(self).page_stack@.len() > 1 ==> r == Some(old(self).page_stack@.last()),
            old(self).page_stack@.len() == 1 ==> r is None,
            final(self).page_stack@.len() == if old(self).page_stack@.len() > 1 {
                old(self).page_stack@.len() - 1
            } else {
                1
            },
            forall|i: int|
                0 <= i < final(self).page_stack@.len() ==> {
                    let p = #[trigger] final(self).page_stack@[i];
                    let q = old(self).page_stack@[i];
                    &&& p.contents@ == q.contents@
                    &&& p.row_contents@ == q.row_contents@
                    &&& p.prompt@ == q.prompt@
                    &&& p.display_type == q.display_type
                },
            final(self).key_handler.bytes_in_row == old(self).key_handler.bytes_in_row,
            final(self).key_handler.width_in_row == old(self).key_handler.width_in_row,
            final(self).key_handler.num_of_rows == old(self).key_handler.num_of_rows,
            final(self).key_handler.screen_rows == old(self).key_handler.screen_rows,
            final(self).key_handler.screen_cols == old(self).key_handler.screen_cols,
            final(self).key_handler.row_offset == old(self).key_handler.row_offset,
            final(self).key_handler.column_offset == old(self).key_handler.column_offset,
            final(self).mode == old(self).mode,
            final(self).file_name == old(self).file_name,
            final(self).modified == old(self).modified,
            final(self).color_struct == old(self).color_struct,
            final(self).matches@ == old(self).matches@,
            final(self).match_index == old(self).match_index,
    {
        if self.page_stack.len() > 1 {
            let ghost old_stack = self.page_stack@;
            let temp = self.page_stack.pop().unwrap();
            let n = self.page_stack.len();
            let mut below = self.page_stack.pop().unwrap();
            let ip = match &below.active_cursor_location {
                Some(ip) => ip.clone(),
                None => InsertionPoint::new(),
            };
            self.key_handler.ip = ip;
            below.active_cursor_location = None;
            self.page_stack.push(below);
            proof {
                assert(self.page_stack@ =~= old_stack.drop_last().update(
                    n - 1,
                    self.page_stack@[n - 1],
                ));
                assert(self.page_stack@.map_values(|p: Page| saved_of(p)) =~= old_stack.map_values(
                    |p: Page| saved_of(p),
                ).drop_last().update(n - 1, None));
                assert forall|i: int| 1 <= i < self.page_stack@.len() implies (#[trigger] self.page_stack@[i]).display_type != PageType::Text by {
                    assert(self.page_stack@[i].display_type == old_stack[i].display_type);
                }
                assert forall|i: int| 0 <= i < self.page_stack@.len() - 1 implies (#[trigger] self.page_stack@[i]).active_cursor_location is Some by {
                    assert(self.page_stack@[i] == old_stack[i]);
                }
                assert forall|i: int| 0 <= i < self.page_stack@.len() implies (#[trigger] self.page_stack@[i]).rows_fresh() by {
                    assert(self.page_stack@[i].contents == old_stack[i].contents);
                    assert(self.page_stack@[i].row_contents == old_stack[i].row_contents);
                }
            }
            Some(temp)
        } else {
            None
        }
    }

    /// Opens a dialog of kind `display_type`: the page on top saves the
    /// cursor, which starts over at the origin on the new page.
    pub fn add(&mut self, display_type: PageType)
        requires
            old(self).wf(),
            display_type != PageType::Text,
        ensures
            final(self).wf(),
            final(self).model() == add_model(old(self).model()),
            final(self).page_stack@.len() == old(self).page_stack@.len() + 1,
            final(self).page_stack@.last().display_type == display_type,
            final(self).page_stack@.last().contents@ == Seq::<char>::empty(),
            final(self).page_stack@.last().prompt@ == Seq::<char>::empty(),
            forall|i: int|
                0 <= i < old(self).page_stack@.len() ==> {
                    let p = #[trigger] final(self).page_stack@[i];
                    let q = old(self).page_stack@[i];
                    &&& p.contents@ == q.contents@
                    &&& p.row_contents@ == q.row_contents@
                    &&& p.prompt@ == q.prompt@
                    &&& p.display_type == q.display_type
                },
            final(self).key_handler.bytes_in_row == old(self).key_handler.bytes_in_row,
            final(self).key_handler.width_in_row == old(self).key_handler.width_in_row,
            final(self).key_handler.num_of_rows == old(self).key_handler.num_of_rows,
            final(self).key_handler.screen_rows == old(self).key_handler.screen_rows,
            final(self).key_handler.screen_cols == old(self).key_handler.screen_cols,
            final(self).key_handler.row_offset == old(self).key_handler.row_offset,
            final(self).key_handler.column_offset == old(self).key_handler.column_offset,
            final(self).mode == old(self).mode,
            final(self).file_name == old(self).file_name,
            final(self).modified == old(self).modified,
            final(self).color_struct == old(self).color_struct,
            final(self).matches@ == old(self).matches@,
            final(self).match_index == old(self).match_index,
    {
        let ghost old_stack = self.page_stack@;
        let n = self.page_stack.len();
        let mut top = self.page_stack.pop().unwrap();
        top.save_active_cursor_location(self.key_handler.ip.clone());
        self.page_stack.push(top);
        self.key_handler.ip = InsertionPoint::new();
        self.push(Page::new(display_type));
        proof {
            assert(self.page_stack@.map_values(|p: Page| saved_of(p)) =~= old_stack.map_values(
                |p: Page| saved_of(p),
            ).update(n - 1, Some((old(self).key_handler.ip.x, old(self).key_handler.ip.y))).push(
                None,
            ));
            assert forall|i: int| 1 <= i < self.page_stack@.len() implies (#[trigger] self.page_stack@[i]).display_type != PageType::Text by {
                if i < n {
                    assert(self.page_stack@[i].display_type == old_stack[i].display_type);
                }
            }
            assert forall|i: int| 0 <= i < self.page_stack@.len() - 1 implies (#[trigger] self.page_stack@[i]).active_cursor_location is Some by {
                if i < n - 1 {
                    assert(self.page_stack@[i] == old_stack[i]);
                }
            }
            assert forall|i: int| 0 <= i < self.page_stack@.len() implies (#[trigger] self.page_stack@[i]).rows_fresh() by {
                if i < n {
                    assert(self.page_stack@[i].contents@ == old_stack[i].contents@);
                    assert(self.page_stack@[i].row_contents@ == old_stack[i].row_contents@);
                }
            }
        }
    }

    /// The page on top, to change it.
    pub fn active_mut(&mut self) -> (r: &mut Page)
        requires
            old(self).page_stack@.len() >= 1,
        ensures
            *r == old(self).page_stack@.last(),
            final(self).page_stack@ == old(self).page_stack@.update(
                old(self).page_stack@.len() - 1,
                *final(r),
            ),
            final(self).key_handler == old(self).key_handler,
            final(self).mode == old(self).mode,
            final(self).file_name == old(self).file_name,
            final(self).modified == old(self).modified,
            final(self).color_struct == old(self).color_struct,
            final(self).matches@ == old(self).matches@,
            final(self).match_index == old(self).match_index,
    {
        let n = self.page_stack.len();
        &mut self.page_stack[n - 1]
    }

    /// The text page, to change it.
    pub fn text_page_mut(&mut self) -> (r: &mut Page)
        requires
            old(self).page_stack@.len() >= 1,
        ensures
            *r == old(self).page_stack@[0],
            final(self).page_stack@ == old(self).page_stack@.update(0, *final(r)),
            final(self).key_handler == old(self).key_handler,
            final(self).mode == old(self).mode,
            final(self).file_name == old(self).file_name,
            final(self).modified == old(self).modified,
            final(self).color_struct == old(self).color_struct,
            final(self).matches@ == old(self).matches@,
            final(self).match_index == old(self).match_index,
    {
        &mut self.page_stack[0]
    }

    /// Moves the cursor over the rows of the page on top, after bringing it
    /// onto them.
    pub fn move_ip(&mut self, direction: Key)
        requires
            old(self).wf(),
        ensures
            final(self).wf(),
            final(self).page_stack@.len() == old(self).page_stack@.len(),
            forall|i: int|
                0 <= i < old(self).page_stack@.len() ==> {
                    let p = #[trigger] final(self).page_stack@[i];
                    let q = old(self).page_stack@[i];
                    &&& p.contents@ == q.contents@
                    &&& p.prompt@ == q.prompt@
                    &&& p.display_type == q.display_type
                    &&& p.active_cursor_location == q.active_cursor_location
                },
            ({
                let n = old(self).page_stack@.len();
                let text = old(self).page_stack@[n - 1].contents@;
                let (cx, cy) = cursor_on(
                    text,
                    old(self).key_handler.ip.x as nat,
                    old(self).key_handler.ip.y as nat,
                );
                (final(self).key_handler.ip.x as nat, final(self).key_handler.ip.y as nat)
                    == move_spec(text, cx, cy, direction)
            }),
            final(self).key_handler.row_offset == old(self).key_handler.row_offset,
            final(self).key_handler.column_offset == old(self).key_handler.column_offset,
            final(self).mode == old(self).mode,
            final(self).file_name == old(self).file_name,
            final(self).modified == old(self).modified,
            final(self).color_struct == old(self).color_struct,
            final(self).matches@ == old(self).matches@,
            final(self).match_index == old(self).match_index,
    {
        let ghost old_stack = self.page_stack@;
        let mut page = self.page_stack.pop().unwrap();
        self.key_handler.index_rows(&mut page);
        proof {
            crate::text::lemma_lines_shape(page.contents@);
        }
        self.key_handler.clamp_cursor();
        self.key_handler.move_ip(direction, &page);
        self.page_stack.push(page);
        proof {
            assert forall|i: int| 0 <= i < self.page_stack@.len() - 1 implies self.page_stack@[i]
                == old_stack[i] by {}
        }
    }

    /// Applies an edit key to the page on top, after bringing the cursor
    /// onto its rows.
    pub fn insertion(&mut self, input: Key)
        requires
            old(self).wf(),
        ensures
            final(self).wf(),
            final(self).page_stack@.len() == old(self).page_stack@.len(),
            forall|i: int|
                0 <= i < old(self).page_stack@.len() - 1 ==> #[trigger] final(self).page_stack@[i]
                    == old(self).page_stack@[i],
            ({
                let n = old(self).page_stack@.len();
                let text = old(self).page_stack@[n - 1].contents@;
                let (cx, cy) = cursor_on(
                    text,
                    old(self).key_handler.ip.x as nat,
                    old(self).key_handler.ip.y as nat,
                );
                let (t, nx, ny) = edit_step(text, cx, cy, input);
                &&& final(self).page_stack@[n - 1].contents@ == t
                &&& final(self).key_handler.ip.x as nat == nx
                &&& final(self).key_handler.ip.y as nat == ny
                &&& final(self).page_stack@[n - 1].prompt@ == old(self).page_stack@[n - 1].prompt@
                &&& final(self).page_stack@[n - 1].display_type == old(self).page_stack@[n
                    - 1].display_type
            }),
            final(self).key_handler.row_offset == old(self).key_handler.row_offset,
            final(self).key_handler.column_offset == old(self).key_handler.column_offset,
            final(self).mode == old(self).mode,
            final(self).file_name == old(self).file_name,
            final(self).modified == old(self).modified,
            final(self).color_struct == old(self).color_struct,
            final(self).matches@ == old(self).matches@,
            final(self).match_index == old(self).match_index,
    {
        let mut page = self.page_stack.pop().unwrap();
        self.key_handler.index_rows(&mut page);
        proof {
            crate::text::lemma_lines_shape(page.contents@);
        }
        self.key_handler.clamp_cursor();
        self.key_handler.insertion(input, &mut page);
        self.page_stack.push(page);
        proof {
            let s = self.page_stack@;
            assert forall|i: int| 1 <= i < s.len() implies (#[trigger] s[i]).display_type
                != PageType::Text by {
                if i < s.len() - 1 {
                    assert(s[i] == old(self).page_stack@[i]);
                }
            }
            assert forall|i: int| 0 <= i < s.len() - 1 implies (
            #[trigger] s[i]).active_cursor_location is Some by {
                assert(s[i] == old(self).page_stack@[i]);
            }
            assert forall|i: int| 0 <= i < s.len() implies (#[trigger] s[i]).rows_fresh() by {
                if i < s.len() - 1 {
                    assert(s[i] == old(self).page_stack@[i]);
                }
            }
        }
    }

    /// Rebuilds the rows of page `i` and its row index, and gives the text
    /// the window shows of it.
    pub fn draw_content(&mut self, i: usize) -> (r: String)
        requires
            old(self).wf(),
            i < old(self).page_stack@.len(),
        ensures
            final(self).wf(),
            final(self).page_stack@ == old(self).page_stack@,
            final(self).key_handler.indexes(final(self).page_stack@[i as int].contents@),
            final(self).key_handler.ip == old(self).key_handler.ip,
            final(self).key_handler.row_offset == old(self).key_handler.row_offset,
            final(self).key_handler.column_offset == old(self).key_handler.column_offset,
            final(self).key_handler.screen_rows == old(self).key_handler.screen_rows,
            final(self).key_handler.screen_cols == old(self).key_handler.screen_cols,
            final(self).mode == old(self).mode,
            final(self).file_name == old(self).file_name,
            final(self).modified == old(self).modified,
            final(self).color_struct == old(self).color_struct,
            final(self).matches@ == old(self).matches@,
            final(self).match_index == old(self).match_index,
            r@ == window(
                lines_of(old(self).page_stack@[i as int].contents@),
                old(self).key_handler.row_offset as nat,
                old(self).key_handler.column_offset as nat,
                old(self).key_handler.screen_rows as nat,
                old(self).key_handler.screen_cols as nat,
            ),
    {
        let page = &self.page_stack[i];
        let mut handler = KeyHandler {
            ip: self.key_handler.ip.clone(),
            screen_cols: self.key_handler.screen_cols,
            screen_rows: self.key_handler.screen_rows,
            bytes_in_row: Vec::new(),
            width_in_row: Vec::new(),
            num_of_rows: 0,
            row_offset: self.key_handler.row_offset,
            column_offset: self.key_handler.column_offset,
        };
        handler.index_from(page);
        let r = handler.visible_text(page);
        self.key_handler = handler;
        r
    }

    /// What to draw, as pairs of a page's place in the stack and the text
    /// the window shows of it: the page on top alone when it fills the
    /// screen, else every page from the bottom up.
    pub fn render(&mut self) -> (r: Vec<(usize, String)>)
        requires
            old(self).wf(),
        ensures
            final(self).wf(),
            final(self).page_stack@ == old(self).page_stack@,
            final(self).key_handler.ip == old(self).key_handler.ip,
            final(self).key_handler.row_offset == old(self).key_handler.row_offset,
            final(self).key_handler.column_offset == old(self).key_handler.column_offset,
            final(self).mode == old(self).mode,
            final(self).color_struct == old(self).color_struct,
            old(self).page_stack@.last().display_type.overwrites_spec() ==> r@.len() == 1
                && r@[0].0 == old(self).page_stack@.len() - 1,
            !old(self).page_stack@.last().display_type.overwrites_spec() ==> r@.len()
                == old(self).page_stack@.len() && forall|j: int| 0 <= j < r@.len() ==> (#[trigger] r@[j]).0 == j,
            forall|j: int|
                0 <= j < r@.len() ==> (#[trigger] r@[j]).0 < old(self).page_stack@.len() && r@[j].1@
                    == window(
                    lines_of(old(self).page_stack@[r@[j].0 as int].contents@),
                    old(self).key_handler.row_offset as nat,
                    old(self).key_handler.column_offset as nat,
                    old(self).key_handler.screen_rows as nat,
                    old(self).key_handler.screen_cols as nat,
                ),
    {
        let n = self.page_stack.len();
        let mut out: Vec<(usize, String)> = Vec::new();
        if self.active().display_type.overwrites() {
            let t = self.draw_content(n - 1);
            out.push((n - 1, t));
            return out;
        }
        let mut i: usize = 0;
        while i < n
            invariant
                self.wf(),
                n == self.page_stack@.len(),
                self.page_stack@ == old(self).page_stack@,
                self.key_handler.ip == old(self).key_handler.ip,
                self.key_handler.row_offset == old(self).key_handler.row_offset,
                self.key_handler.column_offset == old(self).key_handler.column_offset,
                self.key_handler.screen_rows == old(self).key_handler.screen_rows,
                self.key_handler.screen_cols == old(self).key_handler.screen_cols,
                self.mode == old(self).mode,
                self.color_struct == old(self).color_struct,
                i <= n,
                out@.len() == i,
                forall|j: int|
                    0 <= j < i ==> (#[trigger] out@[j]).0 == j && out@[j].1@ == window(
                        lines_of(old(self).page_stack@[j].contents@),
                        old(self).key_handler.row_offset as nat,
                        old(self).key_handler.column_offset as nat,
                        old(self).key_handler.screen_rows as nat,
                        old(self).key_handler.screen_cols as nat,
                    ),
            decreases n - i,
        {
            let t = self.draw_content(i);
            out.push((i, t));
            i = i + 1;
        }
        out
    }

    /// Where the terminal cursor goes: in the window, below the banner of
    /// the page on top; or in the line of a dialog box.
    pub fn cursor_position(&self) -> (r: (usize, usize))
        requires
            self.wf(),
        ensures
            ({
                let kh = self.key_handler;
                let ip_x = if kh.ip.x >= kh.column_offset {
                    (kh.ip.x - kh.column_offset) as nat
                } else {
                    0
                };
                let ip_y = if kh.ip.y >= kh.row_offset {
                    (kh.ip.y - kh.row_offset) as nat
                } else {
                    0
                };
                let top = self.page_stack@.last();
                if top.display_type.overwrites_spec() {
                    r == (ip_x as usize, sat_add(ip_y, newlines(top.prompt@)) as usize)
                } else {
                    r == (sat_add(sat_add((kh.screen_cols / 6) as nat, 2), ip_x) as usize, kh.screen_rows
                        / 2)
                }
            }),
    {
        let kh = &self.key_handler;
        let ip_x = kh.ip.x.saturating_sub(kh.column_offset);
        let ip_y = kh.ip.y.saturating_sub(kh.row_offset);
        let top = self.active();
        if top.display_type.overwrites() {
            let lines = count_newlines(&top.prompt);
            (ip_x, ip_y.saturating_add(lines))
        } else {
            ((kh.screen_cols / 6).saturating_add(2).saturating_add(ip_x), kh.screen_rows / 2)
        }
    }

    /// Opens the help page showing `help_text`, or a note where the help
    /// file could not be read.
    pub fn add_help_page(&mut self, help_text: Option<String>)
        requires
            old(self).wf(),
        ensures
            final(self).wf(),
            final(self).model() == add_model(old(self).model()),
            final(self).page_stack@.len() == old(self).page_stack@.len() + 1,
            final(self).page_stack@.last().display_type == PageType::Info,
            final(self).page_stack@.last().prompt@ == banner("Help:"@),
            final(self).page_stack@.last().contents@ == match help_text {
                Some(t) => t@,
                None => help_fallback_spec(),
            },
            final(self).mode == old(self).mode,
    {
        self.add(PageType::Info);
        let text = match help_text {
            Some(t) => t,
            None => String::from_str(help_fallback()),
        };
        let ghost before = self.page_stack@;
        let page = self.active_mut();
        page.set_prompt(String::from_str("Help:"));
        page.set_contents(text);
        proof {
            assert(self.page_stack@.map_values(|p: Page| saved_of(p)) =~= before.map_values(
                |p: Page| saved_of(p),
            ));
            lemma_wf_same_shape(before, self.page_stack@);
        }
    }

    /// Opens the page showing `info`.
    pub fn add_info_page(&mut self, info: String)
        requires
            old(self).wf(),
        ensures
            final(self).wf(),
            final(self).model() == add_model(old(self).model()),
            final(self).page_stack@.len() == old(self).page_stack@.len() + 1,
            final(self).page_stack@.last().display_type == PageType::Info,
            final(self).page_stack@.last().contents@ == info@,
            final(self).mode == old(self).mode,
    {
        self.add(PageType::Info);
        let ghost before = self.page_stack@;
        self.active_mut().set_contents(info);
        proof {
            assert(self.page_stack@.map_values(|p: Page| saved_of(p)) =~= before.map_values(
                |p: Page| saved_of(p),
            ));
            lemma_wf_same_shape(before, self.page_stack@);
        }
    }

    /// Sets the banner of the page on top.
    pub fn set_active_prompt(&mut self, prompt: &str)
        requires
            old(self).wf(),
        ensures
            final(self).wf(),
            final(self).model() == old(self).model(),
            final(self).page_stack@.len() == old(self).page_stack@.len(),
            final(self).page_stack@.last().prompt@ == banner(prompt@),
            final(self).page_stack@.last().contents@ == old(self).page_stack@.last().contents@,
            final(self).page_stack@.last().display_type == old(self).page_stack@.last().display_type,
            forall|i: int|
                0 <= i < old(self).page_stack@.len() - 1 ==> #[trigger] final(self).page_stack@[i]
                    == old(self).page_stack@[i],
            final(self).key_handler == old(self).key_handler,
            final(self).mode == old(self).mode,
            final(self).file_name == old(self).file_name,
            final(self).modified == old(self).modified,
            final(self).color_struct == old(self).color_struct,
            final(self).matches@ == old(self).matches@,
            final(self).match_index == old(self).match_index,
    {
        let ghost before = self.page_stack@;
        self.active_mut().set_prompt(String::from_str(prompt));
        proof {
            assert(self.page_stack@.map_values(|p: Page| saved_of(p)) =~= before.map_values(
                |p: Page| saved_of(p),
            ));
            lemma_wf_same_shape(before, self.page_stack@);
        }
    }

    /// Sets the banner of the text page.
    pub fn set_text_prompt(&mut self, prompt: String)
        requires
            old(self).wf(),
        ensures
            final(self).wf(),
            final(self).model() == old(self).model(),
            final(self).page_stack@.len() == old(self).page_stack@.len(),
            final(self).page_stack@[0].prompt@ == banner(prompt@),
            final(self).page_stack@[0].contents@ == old(self).page_stack@[0].contents@,
            forall|i: int|
                1 <= i < old(self).page_stack@.len() ==> #[trigger] final(self).page_stack@[i]
                    == old(self).page_stack@[i],
            final(self).key_handler == old(self).key_handler,
            final(self).mode == old(self).mode,
            final(self).file_name == old(self).file_name,
            final(self).modified == old(self).modified,
            final(self).color_struct == old(self).color_struct,
            final(self).matches@ == old(self).matches@,
            final(self).match_index == old(self).match_index,
    {
        let ghost before = self.page_stack@;
        self.text_page_mut().set_prompt(prompt);
        proof {
            assert(self.page_stack@.map_values(|p: Page| saved_of(p)) =~= before.map_values(
                |p: Page| saved_of(p),
            ));
            lemma_wf_same_shape(before, self.page_stack@);
        }
    }
}


/// Changing what pages hold but not their kinds, saved cursors or rows'
/// freshness keeps the stack well formed.
pub proof fn lemma_wf_same_shape(a: Seq<Page>, b: Seq<Page>)
    requires
        a.len() == b.len(),
        forall|i: int|
            0 <= i < a.len() ==> (#[trigger] b[i]).display_type == a[i].display_type
                && b[i].active_cursor_location == a[i].active_cursor_location && b[i].rows_fresh(),
    ensures
        a.len() >= 1 && a[0].display_type == PageType::Text ==> b[0].display_type == PageType::Text,
        (forall|i: int| 1 <= i < a.len() ==> (#[trigger] a[i]).display_type != PageType::Text) ==> (
        forall|i: int| 1 <= i < b.len() ==> (#[trigger] b[i]).display_type != PageType::Text),
        (forall|i: int|
            0 <= i < a.len() - 1 ==> (#[trigger] a[i]).active_cursor_location is Some) ==> (forall|
            i: int,
        | 0 <= i < b.len() - 1 ==> (#[trigger] b[i]).active_cursor_location is Some),
        a.len() >= 1 && a.last().active_cursor_location is None ==> b.last().active_cursor_location is None,
        forall|i: int| 0 <= i < b.len() ==> (#[trigger] b[i]).rows_fresh(),
{
    if a.len() >= 1 {
        assert(b[0].display_type == a[0].display_type);
        assert(b.last().active_cursor_location == a.last().active_cursor_location);
    }
    if forall|i: int| 1 <= i < a.len() ==> (#[trigger] a[i]).display_type != PageType::Text {
        assert forall|i: int| 1 <= i < b.len() implies (#[trigger] b[i]).display_type != PageType::Text by {
            assert(b[i].display_type == a[i].display_type);
        }
    }
    if forall|i: int| 0 <= i < a.len() - 1 ==> (#[trigger] a[i]).active_cursor_location is Some {
        assert forall|i: int| 0 <= i < b.len() - 1 implies (#[trigger] b[i]).active_cursor_location is Some by {
            assert(b[i].active_cursor_location == a[i].active_cursor_location);
        }
    }
}

/// The note shown when the help file cannot be read.
pub open spec fn help_fallback_spec() -> Seq<char> {
    "Help file not found. More on \"https://github.com/JarodSGilliam/SecureFileEditor\""@
}

/// The note shown when the help file cannot be read.
pub fn help_fallback() -> (r: &'static str)
    ensures
        r@ == help_fallback_spec(),
{
    "Help file not found. More on \"https://github.com/JarodSGilliam/SecureFileEditor\""
}

/// Opening `n` dialogs in turn.
pub open spec fn add_n(m: StackModel, n: nat) -> StackModel
    decreases n,
{
    if n == 0 {
        m
    } else {
        add_model(add_n(m, (n - 1) as nat))
    }
}

/// Closing `n` dialogs in turn.
pub open spec fn pop_n(m: StackModel, n: nat) -> StackModel
    decreases n,
{
    if n == 0 {
        m
    } else {
        pop_model(pop_n(m, (n - 1) as nat))
    }
}

/// Closing a dialog just opened gives back the stack and cursor from before.
proof fn lemma_pop_after_add(m: StackModel)
    requires
        m.saved.len() >= 1,
        m.saved.last() is None,
    ensures
        pop_model(add_model(m)) == m,
{
    let a = add_model(m);
    let n = m.saved.len();
    assert(a.saved.drop_last() =~= m.saved.update(n - 1, Some(m.cursor)));
    assert(pop_model(a).saved =~= m.saved);
}

proof fn lemma_add_n_shape(m: StackModel, n: nat)
    requires
        m.saved.len() >= 1,
        m.saved.last() is None,
    ensures
        add_n(m, n).saved.len() == m.saved.len() + n,
        add_n(m, n).saved.last() is None,
    decreases n,
{
    if n > 0 {
        lemma_add_n_shape(m, (n - 1) as nat);
    }
}

/// Opening `n` dialogs and then closing `j` of them, for any `j` up to `n`,
/// leaves the stack and the cursor as they were after the first `n - j`
/// openings; closing all `n` gives back the cursor from before the first.
pub proof fn lemma_push_pop_restores(m: StackModel, n: nat, j: nat)
    requires
        m.saved.len() >= 1,
        m.saved.last() is None,
        j <= n,
    ensures
        pop_n(add_n(m, n), j) == add_n(m, (n - j) as nat),
        j == n ==> pop_n(add_n(m, n), j).cursor == m.cursor,
    decreases j,
{
    if j > 0 {
        lemma_push_pop_restores(m, n, (j - 1) as nat);
        lemma_add_n_shape(m, (n - j) as nat);
        lemma_pop_after_add(add_n(m, (n - j) as nat));
        assert(add_n(m, (n - (j - 1)) as nat) == add_model(add_n(m, (n - j) as nat)));
    }
}

} // verus!
