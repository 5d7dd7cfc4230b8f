use vstd::prelude::*;

use crate::insertion_point::InsertionPoint;
use crate::key_handler::split_with_n;
use crate::text::{chars_of, lines_of, string_of};

verus! {

/// What a page is for. Every kind but `Text` and `Info` is a small dialog
/// drawn over the page beneath it.
#[derive(PartialEq, Eq, Structural, Clone, Copy, Debug)]
pub enum PageType {
    Text,
    Find,
    Info,
    ReplaceP1,
    ReplaceP2,
    Command,
    SaveAs,
}

impl PageType {
    /// Whether a page of this kind fills the whole screen.
    pub open spec fn overwrites_spec(&self) -> bool {
        *self == PageType::Text || *self == PageType::Info
    }

    /// Whether a page of this kind fills the whole screen.
    pub fn overwrites(&self) -> (r: bool)
        ensures
            r == self.overwrites_spec(),
    {
        match self {
            PageType::Find => false,
            PageType::Command => false,
            PageType::ReplaceP1 => false,
            PageType::ReplaceP2 => false,
            PageType::SaveAs => false,
            _ => true,
        }
    }
}

/// One screen of the editor: the text being edited or a dialog.
pub struct Page {
    pub display_type: PageType,
    pub contents: String,
    pub row_contents: Vec<String>,
    pub prompt: String,
    pub active_cursor_location: Option<InsertionPoint>,
}

impl Page {
    /// The cached rows are those of the contents.
    pub open spec fn rows_fresh(&self) -> bool {
        &&& self.row_contents@.len() == lines_of(self.contents@).len()
        &&& forall|i: int|
            0 <= i < self.row_contents@.len() ==> (#[trigger] self.row_contents@[i])@ == lines_of(
                self.contents@,
            )[i]
    }

    /// An empty page of the given kind.
    pub fn new(display_type: PageType) -> (r: Page)
        ensures
            r.display_type == display_type,
            r.contents@ == Seq::<char>::empty(),
            r.prompt@ == Seq::<char>::empty(),
            r.active_cursor_location.is_none(),
            r.rows_fresh(),
    {
        Page::new_with_contents(display_type, String::new())
    }

    /// A page of the given kind holding `contents`.
    pub fn new_with_contents(display_type: PageType, contents: String) -> (r: Page)
        ensures
            r.display_type == display_type,
            r.contents@ == contents@,
            r.prompt@ == Seq::<char>::empty(),
            r.active_cursor_location.is_none(),
            r.rows_fresh(),
    {
        let row_contents = split_with_n(&contents);
        Page {
            display_type,
            contents,
            row_contents,
            prompt: String::new(),
            active_cursor_location: None,
        }
    }

    /// Replaces the text of the page and its rows.
    pub fn set_contents(&mut self, new_contents: String)
        ensures
            final(self).contents@ == new_contents@,
            final(self).display_type == old(self).display_type,
            final(self).prompt@ == old(self).prompt@,
            final(self).active_cursor_location == old(self).active_cursor_location,
            final(self).rows_fresh(),
    {
        self.row_contents = split_with_n(&new_contents);
        self.contents = new_contents;
    }

    /// Sets the banner shown above the page; a banner that is not empty gets
    /// a closing newline.
    pub fn set_prompt(&mut self, new_prompt: String)
        ensures
            final(self).prompt@ == if new_prompt@.len() == 0 {
                new_prompt@
            } else {
                new_prompt@.push('\n')
            },
            final(self).contents@ == old(self).contents@,
            final(self).row_contents@ == old(self).row_contents@,
            final(self).display_type == old(self).display_type,
            final(self).active_cursor_location == old(self).active_cursor_location,
    {
        let mut chars = chars_of(new_prompt.as_str());
        if chars.len() > 0 {
            chars.push('\n');
        }
        self.prompt = string_of(chars.as_slice());
    }

    /// Remembers where the cursor stood while another page is on top.
    pub fn save_active_cursor_location(&mut self, ip: InsertionPoint)
        ensures
            final(self).active_cursor_location == Some(ip),
            final(self).contents@ == old(self).contents@,
            final(self).row_contents@ == old(self).row_contents@,
            final(self).prompt@ == old(self).prompt@,
            final(self).display_type == old(self).display_type,
    {
        self.active_cursor_location = Some(ip);
    }
}

} // verus!
