use vstd::prelude::*;

use crate::find::{
    coords_of, count_from, count_matches, find_text, get_indices, get_xs_and_ys,
    occurrences_from, replace_all, replaced,
};
use crate::key_handler::Key;
use crate::language::{no_rules, Language};
use crate::page::PageType;
use crate::parse::{split_chars, split_on, to_chars, to_string};
use crate::screen::{add_model, banner, pop_model, Mode, Screen};
use crate::text::{chars_of, string_of};

verus! {

/// The decimal digits of `n`.
pub open spec fn decimal(n: nat) -> Seq<char>
    decreases n,
{
    let d = seq!['0', '1', '2', '3', '4', '5', '6', '7', '8', '9'][(n % 10) as int];
    if n < 10 {
        seq![d]
    } else {
        decimal(n / 10).push(d)
    }
}

fn push_decimal(out: &mut Vec<char>, n: usize)
    ensures
        final(out)@ == old(out)@ + decimal(n as nat),
    decreases n,
{
    let ghost start = out@;
    if n >= 10 {
        push_decimal(out, n / 10);
    }
    let digits = ['0', '1', '2', '3', '4', '5', '6', '7', '8', '9'];
    let d = digits[n % 10];
    assert(d == seq!['0', '1', '2', '3', '4', '5', '6', '7', '8', '9'][(n % 10) as int]);
    out.push(d);
    proof {
        assert(out@ =~= start + decimal(n as nat));
    }
}

/// What a search reports on the text page after finding `n` matches.
pub open spec fn found_message(n: nat) -> Seq<char> {
    if n > 1 {
        "Found "@ + decimal(n)
            + " matches: (Ctrl + Left for previous, Ctrl + Right for next, ESC to exit find mode)"@
    } else if n == 1 {
        "Found 1 match: (ESC to exit find mode)"@
    } else {
        "Found no matches: (Try searching for something else, ESC to exit find mode)"@
    }
}

fn append_str(out: &mut Vec<char>, s: &str)
    ensures
        final(out)@ == old(out)@ + s@,
{
    let cs = chars_of(s);
    let mut i: usize = 0;
    while i < cs.len()
        invariant
            i <= cs@.len(),
            cs@ == s@,
            out@ == old(out)@ + cs@.take(i as int),
        decreases cs.len() - i,
    {
        out.push(cs[i]);
        i = i + 1;
        proof {
            assert(out@ =~= old(out)@ + cs@.take(i as int));
        }
    }
    assert(cs@.take(cs@.len() as int) =~= cs@);
}

/// What a search reports after finding `n` matches.
pub fn found_text(n: usize) -> (r: String)
    ensures
        r@ == found_message(n as nat),
{
    if n > 1 {
        let mut out: Vec<char> = Vec::new();
        append_str(&mut out, "Found ");
        push_decimal(&mut out, n);
        append_str(
            &mut out,
            " matches: (Ctrl + Left for previous, Ctrl + Right for next, ESC to exit find mode)",
        );
        string_of(out.as_slice())
    } else if n == 1 {
        String::from_str("Found 1 match: (ESC to exit find mode)")
    } else {
        String::from_str(
            "Found no matches: (Try searching for something else, ESC to exit find mode)",
        )
    }
}

/// What the command palette can run.
#[derive(PartialEq, Eq, Structural, Clone, Copy, Debug)]
pub enum CommandChoice {
    ToggleHighlight,
    Find,
    FileInfo,
    SaveAs,
    Replace,
    Unknown,
}

/// The command named by `lowered`, a name already in lower case.
pub open spec fn command_spec(lowered: Seq<char>) -> CommandChoice {
    if lowered == "toggle highlight"@ {
        CommandChoice::ToggleHighlight
    } else if lowered == "find"@ {
        CommandChoice::Find
    } else if lowered == "file info"@ {
        CommandChoice::FileInfo
    } else if lowered == "save"@ || lowered == "save as"@ {
        CommandChoice::SaveAs
    } else if lowered == "replace"@ {
        CommandChoice::Replace
    } else {
        CommandChoice::Unknown
    }
}

/// The command named by `lowered`, a name already in lower case.
pub fn command_choice(lowered: &String) -> (r: CommandChoice)
    ensures
        r == command_spec(lowered@),
{
    let v = to_chars(lowered);
    if crate::language::is_word(&v, "toggle highlight") {
        CommandChoice::ToggleHighlight
    } else if crate::language::is_word(&v, "find") {
        CommandChoice::Find
    } else if crate::language::is_word(&v, "file info") {
        CommandChoice::FileInfo
    } else if crate::language::is_word(&v, "save") || crate::language::is_word(&v, "save as") {
        CommandChoice::SaveAs
    } else if crate::language::is_word(&v, "replace") {
        CommandChoice::Replace
    } else {
        CommandChoice::Unknown
    }
}

/// `s` in lower case, as std's `str::to_lowercase` gives it.
pub uninterp spec fn lower_of(s: Seq<char>) -> Seq<char>;

/// Relies on `str::to_lowercase`: the lower case of a string depends on its
/// characters alone, and an empty string stays empty.
#[verifier::external_body]
fn lowercase(s: &str) -> (r: String)
    ensures
        r@ == lower_of(s@),
        s@.len() == 0 ==> r@.len() == 0,
{
    s.to_lowercase()
}

/// The extension of `full_name`: what follows its dot when it has exactly
/// one, else nothing.
pub open spec fn extension_spec(full_name: Seq<char>) -> Seq<char> {
    let parts = split_on(full_name, '.');
    if parts.len() != 2 {
        Seq::empty()
    } else {
        parts[1]
    }
}

/// The extension of `full_name`: what follows its dot when it has exactly
/// one, else nothing.
pub fn get_extension(full_name: String) -> (r: String)
    ensures
        r@ == extension_spec(full_name@),
{
    let tokens = split_chars(&to_chars(&full_name), '.');
    if tokens.len() != 2 {
        String::new()
    } else {
        to_string(&tokens[1])
    }
}

/// What a key does, once its modifiers are read.
#[derive(PartialEq, Eq, Structural, Clone, Copy, Debug)]
pub enum Command {
    Quit,
    Save,
    SaveAs,
    NextMatch,
    PreviousMatch,
    FileInfo,
    CommandPalette,
    Help,
    Find,
    Replace,
    Escape,
    Confirm,
    Move(Key),
    Edit(Key),
    Nothing,
}

/// The key bindings: Control with W quits, with S saves, with F finds, with
/// R replaces, with D shows the file's details, with C or Space opens the
/// command palette, with H opens help, with Left and Right steps through
/// the matches; Alt with S saves under a new name; arrows, Home and End move;
/// characters, Tab, Backspace and Delete edit; Enter confirms; Esc closes.
pub open spec fn command_spec_of(key: Key, ctrl: bool, alt: bool) -> Command {
    if ctrl {
        match key {
            Key::Char('w') => Command::Quit,
            Key::Char('s') => Command::Save,
            Key::Char('f') => Command::Find,
            Key::Char('r') => Command::Replace,
            Key::Char('d') => Command::FileInfo,
            Key::Char('c') => Command::CommandPalette,
            Key::Char(' ') => Command::CommandPalette,
            Key::Char('h') => Command::Help,
            Key::Right => Command::NextMatch,
            Key::Left => Command::PreviousMatch,
            _ => Command::Nothing,
        }
    } else if alt {
        match key {
            Key::Char('s') => Command::SaveAs,
            _ => Command::Nothing,
        }
    } else {
        match key {
            Key::Up | Key::Down | Key::Left | Key::Right | Key::Home | Key::End => Command::Move(
                key,
            ),
            Key::Char(_) | Key::Tab | Key::Backspace | Key::Delete => Command::Edit(key),
            Key::Enter => Command::Confirm,
            Key::Esc => Command::Escape,
            _ => Command::Nothing,
        }
    }
}

/// What `key` does with Control or Alt held or not.
pub fn command_of(key: Key, ctrl: bool, alt: bool) -> (r: Command)
    ensures
        r == command_spec_of(key, ctrl, alt),
{
    if ctrl {
        match key {
            Key::Char('w') => Command::Quit,
            Key::Char('s') => Command::Save,
            Key::Char('f') => Command::Find,
            Key::Char('r') => Command::Replace,
            Key::Char('d') => Command::FileInfo,
            Key::Char('c') => Command::CommandPalette,
            Key::Char(' ') => Command::CommandPalette,
            Key::Char('h') => Command::Help,
            Key::Right => Command::NextMatch,
            Key::Left => Command::PreviousMatch,
            _ => Command::Nothing,
        }
    } else if alt {
        match key {
            Key::Char('s') => Command::SaveAs,
            _ => Command::Nothing,
        }
    } else {
        match key {
            Key::Up | Key::Down | Key::Left | Key::Right | Key::Home | Key::End => Command::Move(
                key,
            ),
            Key::Char(_) | Key::Tab | Key::Backspace | Key::Delete => Command::Edit(key),
            Key::Enter => Command::Confirm,
            Key::Esc => Command::Escape,
            _ => Command::Nothing,
        }
    }
}


/// Opens the search dialog when no other dialog is open.
pub fn trigger_find(scr: &mut Screen)
    requires
        old(scr).wf(),
    ensures
        final(scr).wf(),
        final(scr).mode is Normal,
        final(scr).color_struct == old(scr).color_struct,
        old(scr).page_stack@.len() == 1 ==> final(scr).page_stack@.len() == 2
            && final(scr).page_stack@.last().display_type == PageType::Find
            && final(scr).page_stack@.last().prompt@ == banner("Text to Find"@)
            && final(scr).model() == add_model(old(scr).model()),
        old(scr).page_stack@.len() != 1 ==> final(scr).page_stack@.len() == old(scr).page_stack@.len(),
{
    if scr.page_stack.len() == 1 {
        scr.add(PageType::Find);
        scr.set_active_prompt("Text to Find");
    }
    if scr.find_mode() {
        scr.reset_prompt();
    }
    scr.mode = Mode::Normal;
}

/// Opens the dialog that asks for a file name when no other dialog is open.
pub fn trigger_saveas(scr: &mut Screen)
    requires
        old(scr).wf(),
    ensures
        final(scr).wf(),
        final(scr).mode is Normal,
        final(scr).color_struct == old(scr).color_struct,
        !final(scr).modified,
        old(scr).page_stack@.len() == 1 ==> final(scr).page_stack@.len() == 2
            && final(scr).page_stack@.last().display_type == PageType::SaveAs
            && final(scr).page_stack@.last().prompt@ == banner("Save As"@)
            && final(scr).model() == add_model(old(scr).model()),
        old(scr).page_stack@.len() != 1 ==> final(scr).page_stack@.len() == old(scr).page_stack@.len(),
{
    if scr.page_stack.len() == 1 {
        scr.add(PageType::SaveAs);
        scr.set_active_prompt("Save As");
    }
    scr.modified = false;
    scr.mode = Mode::Normal;
}

/// Opens the first dialog of a replacement when no other dialog is open.
pub fn trigger_replace(screen: &mut Screen)
    requires
        old(screen).wf(),
    ensures
        final(screen).wf(),
        final(screen).mode is Normal,
        final(screen).color_struct == old(screen).color_struct,
        old(screen).page_stack@.len() == 1 ==> final(screen).page_stack@.len() == 2
            && final(screen).page_stack@.last().display_type == PageType::ReplaceP1
            && final(screen).page_stack@.last().prompt@ == banner("Replace:\nFind:"@)
            && final(screen).model() == add_model(old(screen).model()),
        old(screen).page_stack@.len() != 1 ==> final(screen).page_stack@.len() == old(screen).page_stack@.len(),
{
    if screen.page_stack.len() == 1 {
        screen.add(PageType::ReplaceP1);
        screen.set_active_prompt("Replace:\nFind:");
    }
    if screen.find_mode() {
        screen.reset_prompt();
    }
    screen.mode = Mode::Normal;
}

impl Screen {
    /// Enter in the search dialog: searches the text page for what was
    /// typed, reports the number of matches in its banner, closes the
    /// dialog, keeps the position of every match and puts the cursor on the
    /// first. Nothing is searched for an empty text.
    pub fn confirm_find(&mut self)
        requires
            old(self).wf(),
            old(self).page_stack@.len() > 1,
        ensures
            final(self).wf(),
            final(self).mode is Find,
            final(self).mode.text() == Some(old(self).page_stack@.last().contents@),
            ({
                let q = old(self).page_stack@.last().contents@;
                let t = old(self).page_stack@[0].contents@;
                let occ = occurrences_from(t, q, 0);
                if q.len() == 0 {
                    &&& final(self).page_stack@ == old(self).page_stack@
                    &&& final(self).key_handler == old(self).key_handler
                } else {
                    &&& final(self).page_stack@.len() == old(self).page_stack@.len() - 1
                    &&& final(self).page_stack@[0].contents@ == t
                    &&& final(self).page_stack@[0].prompt@ == banner(
                        found_message(count_from(t, q, 0)),
                    )
                    &&& final(self).matches@.len() == occ.len()
                    &&& forall|j: int|
                        0 <= j < occ.len() ==> ((#[trigger] final(self).matches@[j]).0 as nat,
                        final(self).matches@[j].1 as nat) == coords_of(t, occ[j])
                    &&& final(self).match_index == 0
                    &&& (final(self).key_handler.ip.x as nat, final(self).key_handler.ip.y as nat)
                        == if occ.len() > 0 {
                        coords_of(t, occ[0])
                    } else {
                        let c = pop_model(old(self).model()).cursor;
                        (c.0 as nat, c.1 as nat)
                    }
                }
            }),
    {
        let query = self.active().contents.clone();
        self.mode = Mode::Find(query.clone());
        if query.as_str().is_empty() {
            return ;
        }
        let number_found = count_matches(&self.text_page().contents, &query);
        self.set_text_prompt(found_text(number_found));
        self.pop();
        let indices = get_indices(&self.text_page().contents, &query);
        self.matches = get_xs_and_ys(indices, &self.text_page().contents);
        self.match_index = 0;
        let (res1, res2) = find_text(self.text_page(), &query);
        match (res1, res2) {
            (Some(x), Some(y)) => {
                self.key_handler.ip.x = x;
                self.key_handler.ip.y = y;
            },
            _ => {},
        }
    }

    /// Control and Right after a search: the cursor goes to the next match.
    pub fn next_match(&mut self)
        requires
            old(self).wf(),
        ensures
            final(self).wf(),
            final(self).page_stack@ == old(self).page_stack@,
            final(self).matches@ == old(self).matches@,
            if old(self).mode is Find && old(self).match_index + 1 < old(self).matches@.len() {
                &&& final(self).match_index == old(self).match_index + 1
                &&& final(self).key_handler.ip.x == old(self).matches@[old(self).match_index + 1].0
                &&& final(self).key_handler.ip.y == old(self).matches@[old(self).match_index + 1].1
            } else {
                &&& final(self).match_index == old(self).match_index
                &&& final(self).key_handler.ip == old(self).key_handler.ip
            },
    {
        if self.find_mode() && self.matches.len() > 0 && self.match_index < self.matches.len() - 1 {
            self.match_index = self.match_index + 1;
            self.key_handler.ip.x = self.matches[self.match_index].0;
            self.key_handler.ip.y = self.matches[self.match_index].1;
        }
    }

    /// Control and Left after a search: the cursor goes to the previous match.
    pub fn previous_match(&mut self)
        requires
            old(self).wf(),
        ensures
            final(self).wf(),
            final(self).page_stack@ == old(self).page_stack@,
            final(self).matches@ == old(self).matches@,
            if old(self).mode is Find && old(self).matches@.len() > 0 && 0 < old(self).match_index
                < old(self).matches@.len() + 1 && old(self).match_index - 1 < old(self).matches@.len() {
                &&& final(self).match_index == old(self).match_index - 1
                &&& final(self).key_handler.ip.x == old(self).matches@[old(self).match_index - 1].0
                &&& final(self).key_handler.ip.y == old(self).matches@[old(self).match_index - 1].1
            } else {
                &&& final(self).match_index == old(self).match_index
                &&& final(self).key_handler.ip == old(self).key_handler.ip
            },
    {
        if self.find_mode() && self.matches.len() > 0 && self.match_index > 0
            && self.match_index - 1 < self.matches.len() {
            self.match_index = self.match_index - 1;
            self.key_handler.ip.x = self.matches[self.match_index].0;
            self.key_handler.ip.y = self.matches[self.match_index].1;
        }
    }

    /// Enter in the first replacement dialog: keeps what to replace and
    /// opens the dialog that asks for the replacement.
    pub fn confirm_replace_find(&mut self)
        requires
            old(self).wf(),
            old(self).page_stack@.len() > 1,
        ensures
            final(self).wf(),
            final(self).mode is Replace,
            final(self).mode.text() == Some(old(self).page_stack@.last().contents@),
            final(self).page_stack@.len() == old(self).page_stack@.len(),
            final(self).page_stack@.last().display_type == PageType::ReplaceP2,
            final(self).page_stack@.last().prompt@ == banner("Replace:\nReplace with:"@),
            final(self).model() == add_model(pop_model(old(self).model())),
    {
        let what = self.active().contents.clone();
        self.mode = Mode::Replace(what);
        self.pop();
        self.add(PageType::ReplaceP2);
        self.set_active_prompt("Replace:\nReplace with:");
    }

    /// Enter in the second replacement dialog: replaces, in the text page,
    /// every occurrence of what the first dialog was given by what this one
    /// was given, closes the dialog and says so in the text page's banner.
    /// Nothing happens unless a replacement was begun.
    pub fn confirm_replace_with(&mut self)
        requires
            old(self).wf(),
            old(self).page_stack@.len() > 1,
        ensures
            final(self).wf(),
            ({
                let to = old(self).page_stack@.last().contents@;
                let t = old(self).page_stack@[0].contents@;
                match old(self).mode.text() {
                    Some(from) => if old(self).mode is Replace {
                        &&& final(self).page_stack@.len() == old(self).page_stack@.len() - 1
                        &&& final(self).page_stack@[0].contents@ == replaced(t, from, to)
                        &&& final(self).page_stack@[0].prompt@ == banner("Replaced here:"@)
                        &&& final(self).mode is Replace
                        &&& final(self).mode.text() == Some(to)
                        &&& final(self).model() == pop_model(old(self).model())
                    } else {
                        final(self).page_stack@ == old(self).page_stack@
                    },
                    None => final(self).page_stack@ == old(self).page_stack@,
                }
            }),
    {
        let to_replace = self.active().contents.clone();
        let from = match &self.mode {
            Mode::Replace(t) => t.clone(),
            _ => {
                return ;
            },
        };
        let new_text = replace_all(&self.text_page().contents, &from, &to_replace);
        let ghost before = self.page_stack@;
        self.text_page_mut().set_contents(new_text);
        proof {
            assert(self.page_stack@.map_values(|p: crate::page::Page| crate::screen::saved_of(p))
                =~= before.map_values(|p: crate::page::Page| crate::screen::saved_of(p)));
            crate::screen::lemma_wf_same_shape(before, self.page_stack@);
        }
        self.pop();
        self.set_text_prompt(String::from_str("Replaced here:"));
        self.mode = Mode::Replace(to_replace);
    }

    /// Enter in the command palette: runs the command typed, in any case,
    /// after closing the palette, and says which it was. File details are
    /// left to the caller, which reads them.
    pub fn confirm_command(&mut self) -> (r: CommandChoice)
        requires
            old(self).wf(),
            old(self).page_stack@.len() > 1,
        ensures
            final(self).wf(),
            r == command_spec(lower_of(old(self).page_stack@.last().contents@)),
            r == CommandChoice::ToggleHighlight ==> final(self).color_struct.disabled
                == !old(self).color_struct.disabled,
            r != CommandChoice::ToggleHighlight ==> final(self).color_struct.disabled
                == old(self).color_struct.disabled,
            r == CommandChoice::Find || r == CommandChoice::SaveAs || r == CommandChoice::Replace
                ==> final(self).mode is Normal,
            old(self).page_stack@.len() == 2 && r == CommandChoice::Find ==> final(self).page_stack@.len() == 2 && final(self).page_stack@.last().display_type
                == PageType::Find,
            old(self).page_stack@.len() == 2 && r == CommandChoice::SaveAs ==> final(self).page_stack@.len() == 2 && final(self).page_stack@.last().display_type
                == PageType::SaveAs,
            old(self).page_stack@.len() == 2 && r == CommandChoice::Replace ==> final(self).page_stack@.len() == 2 && final(self).page_stack@.last().display_type
                == PageType::ReplaceP1,
            r == CommandChoice::Unknown || r == CommandChoice::FileInfo || r
                == CommandChoice::ToggleHighlight ==> final(self).model() == pop_model(
                old(self).model(),
            ),
    {
        let typed = self.active().contents.clone();
        self.mode = Mode::Command(typed.clone());
        let choice = command_choice(&lowercase(typed.as_str()));
        self.pop();
        match choice {
            CommandChoice::ToggleHighlight => self.color_struct.toggle_status(),
            CommandChoice::Find => trigger_find(self),
            CommandChoice::SaveAs => trigger_saveas(self),
            CommandChoice::Replace => trigger_replace(self),
            _ => {},
        }
        choice
    }

    /// Esc: closes the dialog on top; with none open, ends a search or a
    /// replacement. Says whether help should open instead, which the caller
    /// does once it has read the help text.
    pub fn escape(&mut self) -> (r: bool)
        requires
            old(self).wf(),
        ensures
            final(self).wf(),
            old(self).page_stack@.len() > 1 ==> !r && final(self).model() == pop_model(
                old(self).model(),
            ) && final(self).page_stack@.len() == old(self).page_stack@.len() - 1,
            old(self).page_stack@.len() == 1 && (old(self).mode is Find || old(self).mode is Replace)
                ==> !r && final(self).mode is Normal && final(self).page_stack@[0].prompt@ == banner(
                match old(self).file_name {
                    Some(t) => t@,
                    None => "Unsaved File"@,
                },
            ),
            old(self).page_stack@.len() == 1 && !(old(self).mode is Find || old(self).mode is Replace)
                ==> r && final(self).page_stack@ == old(self).page_stack@,
    {
        if self.page_stack.len() > 1 {
            self.pop();
            false
        } else {
            let replacing = match self.mode {
                Mode::Replace(_) => true,
                _ => false,
            };
            if self.find_mode() || replacing {
                self.reset_prompt();
                self.mode = Mode::Normal;
                false
            } else {
                true
            }
        }
    }

    /// Enter in the file name dialog: the name typed, or `None` after
    /// closing the dialog when nothing was typed.
    pub fn save_as_request(&mut self) -> (r: Option<String>)
        requires
            old(self).wf(),
        ensures
            final(self).wf(),
            final(self).mode is SaveAs,
            final(self).mode.text() == Some(old(self).page_stack@.last().contents@),
            old(self).page_stack@.last().contents@.len() == 0 ==> r is None && final(self).model() == pop_model(old(self).model()) && !final(self).save_as_warned,
            old(self).page_stack@.last().contents@.len() > 0 ==> r is Some && r->0@ == old(self).page_stack@.last().contents@ && final(self).page_stack@ == old(self).page_stack@,
    {
        let name = self.active().contents.clone();
        self.mode = Mode::SaveAs(name.clone());
        if name.as_str().is_empty() {
            self.pop();
            self.save_as_warned = false;
            None
        } else {
            Some(name)
        }
    }

    /// Whether saving under the name typed may go on: the file does not
    /// exist yet, or the warning that it does was given already.
    pub fn save_as_may_write(&self, file_exists: bool) -> (r: bool)
        ensures
            r == (!file_exists || self.save_as_warned),
    {
        !file_exists || self.save_as_warned
    }

    /// The file was written under `name`: it becomes the file edited, its
    /// rules color the text, and the dialog closes.
    pub fn finish_save_as(&mut self, name: String, language: Option<Language>)
        requires
            old(self).wf(),
        ensures
            final(self).wf(),
            final(self).file_name == Some(name),
            !final(self).modified,
            !final(self).save_as_warned,
            final(self).model() == pop_model(old(self).model()),
            final(self).page_stack@[0].prompt@ == banner(name@),
            final(self).color_struct.word is None,
            !final(self).color_struct.disabled,
            match language {
                Some(l) => final(self).color_struct.language == l,
                None => final(self).color_struct.language.view() == no_rules(),
            },
    {
        self.file_name = Some(name);
        self.reset_prompt();
        self.modified = false;
        self.pop();
        self.save_as_warned = false;
        self.color_struct = Screen::get_color_struct(language);
    }

    /// The file named exists: warn once before writing over it.
    pub fn warn_overwrite(&mut self)
        requires
            old(self).wf(),
        ensures
            final(self).wf(),
            final(self).save_as_warned,
            final(self).page_stack@.last().prompt@ == banner(
                "Warning: File Already Exists, Press Enter to Overwrite or choose new file name"@,
            ),
    {
        self.set_active_prompt(
            "Warning: File Already Exists, Press Enter to Overwrite or choose new file name",
        );
        self.save_as_warned = true;
    }
}

} // verus!
