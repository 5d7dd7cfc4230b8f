use secure_file_editor::flow::{command_choice, command_of, Command, CommandChoice};
use secure_file_editor::highlight::{split_up, ColorWord, StyledWord};
use secure_file_editor::key_handler::Key;
use secure_file_editor::language::{rules_for, Color, Language};
use secure_file_editor::page::PageType;
use secure_file_editor::screen::{Mode, Screen};

fn s(t: &str) -> String {
    String::from(t)
}

fn words(out: &[StyledWord]) -> Vec<String> {
    out.iter().map(|w| w.text.clone()).collect()
}

#[test]
fn push_and_pop_restore_each_cursor() {
    let mut scr = Screen::new(None, (80, 24), None, s("one\ntwo\nthree"));
    scr.key_handler.ip.x = 2;
    scr.key_handler.ip.y = 1;
    scr.add(PageType::Find);
    scr.insertion(Key::Char('a'));
    assert_eq!((scr.key_handler.ip.x, scr.key_handler.ip.y), (1, 0));
    scr.add(PageType::Command);
    scr.insertion(Key::Char('b'));
    scr.insertion(Key::Char('c'));
    scr.add(PageType::Info);
    assert_eq!((scr.key_handler.ip.x, scr.key_handler.ip.y), (0, 0));
    assert!(scr.pop().is_some());
    assert_eq!((scr.key_handler.ip.x, scr.key_handler.ip.y), (2, 0));
    assert!(scr.pop().is_some());
    assert_eq!((scr.key_handler.ip.x, scr.key_handler.ip.y), (1, 0));
    assert!(scr.pop().is_some());
    assert_eq!((scr.key_handler.ip.x, scr.key_handler.ip.y), (2, 1));
    assert!(scr.pop().is_none());
    assert_eq!(scr.page_stack.len(), 1);
}

#[test]
fn help_and_info_pages() {
    let mut scr = Screen::new(None, (80, 24), None, s(""));
    scr.add_help_page(None);
    assert_eq!(scr.active().display_type, PageType::Info);
    assert_eq!(scr.active().prompt, "Help:\n");
    assert!(scr.active().contents.starts_with("Help file not found"));
    scr.pop();
    scr.add_help_page(Some(s("keys")));
    assert_eq!(scr.active().contents, "keys");
    scr.pop();
    scr.add_info_page(s("File name: x"));
    assert_eq!(scr.active().contents, "File name: x");
    assert!(scr.escape() == false);
    assert_eq!(scr.page_stack.len(), 1);
    assert!(scr.escape());
}

#[test]
fn modes_name_themselves() {
    assert_eq!(Mode::Normal.to_str(), "normal");
    assert_eq!(Mode::Find(s("a")).to_str(), "find");
    assert_eq!(Mode::Replace(s("a")).to_str(), "replace");
    assert_eq!(Mode::SaveAs(s("a")).to_str(), "saveas");
    assert_eq!(Mode::Command(s("a")).to_str(), "command");
}

#[test]
fn window_shows_the_visible_part() {
    let mut scr = Screen::new(None, (4, 4), None, s("abcdef\nxy\n\nlast"));
    assert_eq!(scr.draw_content(0), "abcd\r\nxy");
    let mut scr = Screen::new(None, (4, 6), None, s("abcdef\nxy\n\nlast"));
    assert_eq!(scr.draw_content(0), "abcd\r\nxy\r\n\r\nlast");
    scr.key_handler.column_offset = 1;
    assert_eq!(scr.draw_content(0), "bcde\r\ny\r\n\r\nast");
    scr.key_handler.row_offset = 2;
    scr.key_handler.column_offset = 0;
    assert_eq!(scr.draw_content(0), "\r\nlast");
}

#[test]
fn window_has_no_separator_after_the_last_row() {
    let mut scr = Screen::new(None, (1, 4), None, s("ab"));
    assert_eq!(scr.draw_content(0), "a");
    let mut scr = Screen::new(None, (1, 4), None, s("ab\ncd"));
    assert_eq!(scr.draw_content(0), "a\r\nc");
    let mut scr = Screen::new(None, (5, 4), None, s("ab\n"));
    assert_eq!(scr.draw_content(0), "ab\r\n");
}

#[test]
fn window_rows_fit_the_width() {
    let mut scr = Screen::new(None, (2, 3), None, s("中中"));
    scr.key_handler.column_offset = 1;
    assert_eq!(scr.draw_content(0), " ");
    let mut scr = Screen::new(None, (3, 3), None, s("中中"));
    scr.key_handler.column_offset = 1;
    assert_eq!(scr.draw_content(0), " 中");
}

#[test]
fn window_pads_a_cut_wide_character() {
    let mut scr = Screen::new(None, (10, 3), None, s("你好"));
    scr.key_handler.column_offset = 1;
    assert_eq!(scr.draw_content(0), " 好");
}

#[test]
fn render_draws_dialogs_over_the_text() {
    let mut scr = Screen::new(None, (20, 5), None, s("text"));
    assert_eq!(scr.render(), vec![(0, s("text"))]);
    scr.add(PageType::Find);
    scr.insertion(Key::Char('q'));
    assert_eq!(scr.render(), vec![(0, s("text")), (1, s("q"))]);
    scr.pop();
    scr.add(PageType::Info);
    assert_eq!(scr.render().len(), 1);
}

#[test]
fn terminal_cursor_position() {
    let mut scr = Screen::new(None, (60, 22), None, s("ab\ncd"));
    scr.key_handler.ip.x = 1;
    scr.key_handler.ip.y = 1;
    assert_eq!(scr.cursor_position(), (1, 2));
    scr.add(PageType::Find);
    scr.insertion(Key::Char('z'));
    assert_eq!(scr.cursor_position(), (60 / 6 + 2 + 1, 20 / 2));
}

#[test]
fn rules_are_read_and_bad_records_skipped() {
    let lang = Language::new(s(
        "comment //\nmlcomment /* */\ncapitals (1, 2, 3)\nnumbers 4,5,6\ntext (7,8,9)\n(255, 0, 0) fn, let\n(bad) x\nnumbers 1,2\n(0,0,300) y\n(0,0,255) if",
    ));
    assert_eq!(lang.comment_keyword, "//");
    assert_eq!(lang.ml_comment_start_keyword, "/*");
    assert_eq!(lang.ml_comment_end_keyword, "*/");
    assert_eq!(lang.capitals_color, Color::Rgb { r: 1, g: 2, b: 3 });
    assert_eq!(lang.numbers_color, Color::Rgb { r: 4, g: 5, b: 6 });
    assert_eq!(lang.text_color, Color::Rgb { r: 7, g: 8, b: 9 });
    assert_eq!(lang.colors.len(), 2);
    assert_eq!(lang.colors[0].keywords, vec![s("fn"), s("let")]);
    assert_eq!(lang.get_color(&s("let")), Some(Color::Rgb { r: 255, g: 0, b: 0 }));
    assert_eq!(lang.get_color(&s("if")), Some(Color::Rgb { r: 0, g: 0, b: 255 }));
    assert_eq!(lang.get_color(&s("x")), None);
    let empty = Language::new(s(""));
    assert_eq!(empty.text_color, Color::Reset);
    assert_eq!(empty.colors.len(), 0);
    let defaults = Language::new(s("\n"));
    assert_eq!(defaults.text_color, Color::Magenta);
    assert_eq!(defaults.capitals_color, Color::Rgb { r: 100, g: 255, b: 255 });
}

#[test]
fn words_are_cut_at_delimiters() {
    assert_eq!(
        split_up(s("let x = f(a, \"b\");")),
        vec![
            s("let"),
            s(" "),
            s("x"),
            s(" "),
            s("="),
            s(" "),
            s("f"),
            s("("),
            s("a"),
            s(","),
            s(" "),
            s("\""),
            s("b"),
            s("\""),
            s(")"),
            s(";"),
        ]
    );
    assert_eq!(split_up(s("a->b // c")), vec![s("a"), s("->"), s("b"), s(" "), s("//"), s(" "), s("c")]);
    assert_eq!(split_up(s("")), Vec::<String>::new());
    assert_eq!(split_up(s("/*note*/")), vec![s("/*"), s("note"), s("*/")]);
}

#[test]
fn word_colors() {
    let mut cw = ColorWord::new(None, Language::new(s("(255,0,0) fn\ntext 1,1,1")));
    assert_eq!(cw.get_color("fn"), Color::Rgb { r: 255, g: 0, b: 0 });
    assert_eq!(cw.get_color("42"), Color::Rgb { r: 100, g: 255, b: 100 });
    assert_eq!(cw.get_color("Foo"), Color::Rgb { r: 100, g: 255, b: 255 });
    assert_eq!(cw.get_color("foo"), Color::Reset);
    assert_eq!(cw.get_color("("), Color::Yellow);
    assert_eq!(cw.get_color("("), Color::Red);
    assert_eq!(cw.get_color(")"), Color::Red);
    assert_eq!(cw.get_color(")"), Color::Yellow);
    assert_eq!(cw.get_color(")"), Color::Yellow);
    assert_eq!(cw.get_color("{"), Color::Yellow);
    assert_eq!(cw.get_color("}"), Color::Yellow);
    assert_eq!(cw.get_color("\""), Color::Rgb { r: 1, g: 1, b: 1 });
    assert_eq!(cw.get_color("fn"), Color::Rgb { r: 1, g: 1, b: 1 });
    assert_eq!(cw.get_color("'"), Color::Rgb { r: 1, g: 1, b: 1 });
    assert_eq!(cw.get_color("\""), Color::Rgb { r: 1, g: 1, b: 1 });
    assert_eq!(cw.get_color("fn"), Color::Rgb { r: 255, g: 0, b: 0 });
}

#[test]
fn keyword_quotes_and_toggle() {
    let mut cw = ColorWord::new(Some(s("fn")), Language::new(s("(255,0,0) fn")));
    let out = cw.coloring("fn \"fn\"");
    assert_eq!(words(&out), vec![s("fn"), s(" "), s("\""), s("fn"), s("\"")]);
    assert_eq!(out[0].foreground, Color::Rgb { r: 255, g: 0, b: 0 });
    assert_eq!(out[3].foreground, Color::Magenta);
    assert_eq!(out[0].background, Color::Red);
    assert_eq!(out[3].background, Color::Red);
    assert_eq!(out[1].background, Color::Reset);
    cw.toggle_status();
    let off = cw.coloring("fn \"fn\"");
    assert!(off.iter().all(|w| w.foreground == Color::Reset));
    let bg_on: Vec<Color> = out.iter().map(|w| w.background).collect();
    let bg_off: Vec<Color> = off.iter().map(|w| w.background).collect();
    assert_eq!(bg_on, bg_off);
}

#[test]
fn comments_calls_and_lines() {
    let lang = Language::new(s("comment //\nmlcomment /* */"));
    let mut cw = ColorWord::new(None, lang);
    let out = cw.coloring("f(x) // note\r\n/*a\r\nb */ c");
    let green = Color::Rgb { r: 0, g: 255, b: 0 };
    assert_eq!(out[0].text, "f");
    assert_eq!(out[0].foreground, Color::Rgb { r: 255, g: 150, b: 0 });
    let note = out.iter().position(|w| w.text == "note").unwrap();
    assert_eq!(out[note].foreground, green);
    let breaks: Vec<usize> = out.iter().enumerate().filter(|(_, w)| w.text == "\r\n").map(|(i, _)| i).collect();
    assert_eq!(breaks.len(), 2);
    let a = out.iter().position(|w| w.text == "a").unwrap();
    assert_eq!(out[a].foreground, green);
    let b = out.iter().position(|w| w.text == "b").unwrap();
    assert_eq!(out[b].foreground, green);
    let c = out.iter().position(|w| w.text == "c").unwrap();
    assert_eq!(out[c].foreground, Color::Reset);
}

#[test]
fn search_term_is_cut_out_of_words() {
    let mut cw = ColorWord::new(Some(s("lo")), Language::new(s("")));
    let out = cw.coloring("hello");
    assert_eq!(words(&out), vec![s("hel"), s("lo")]);
    assert_eq!(out[1].background, Color::Red);
    assert_eq!(out[0].background, Color::Reset);
    assert_eq!(cw.get_background_color("lo"), Color::Red);
    cw.set_find(None);
    assert_eq!(cw.get_background_color("lo"), Color::Reset);
}

#[test]
fn key_bindings() {
    assert_eq!(command_of(Key::Char('w'), true, false), Command::Quit);
    assert_eq!(command_of(Key::Char('s'), true, false), Command::Save);
    assert_eq!(command_of(Key::Char('s'), false, true), Command::SaveAs);
    assert_eq!(command_of(Key::Char(' '), true, false), Command::CommandPalette);
    assert_eq!(command_of(Key::Right, true, false), Command::NextMatch);
    assert_eq!(command_of(Key::Up, false, false), Command::Move(Key::Up));
    assert_eq!(command_of(Key::Char('q'), false, false), Command::Edit(Key::Char('q')));
    assert_eq!(command_of(Key::Enter, false, false), Command::Confirm);
    assert_eq!(command_of(Key::Esc, false, false), Command::Escape);
    assert_eq!(command_of(Key::Other, false, false), Command::Nothing);
}

#[test]
fn command_palette() {
    assert_eq!(command_choice(&s("find")), CommandChoice::Find);
    assert_eq!(command_choice(&s("save as")), CommandChoice::SaveAs);
    assert_eq!(command_choice(&s("nope")), CommandChoice::Unknown);
    let mut scr = Screen::new(None, (80, 24), None, s("abc"));
    scr.add(PageType::Command);
    for c in "Toggle Highlight".chars() {
        scr.insertion(Key::Char(c));
    }
    assert_eq!(scr.confirm_command(), CommandChoice::ToggleHighlight);
    assert!(scr.color_struct.disabled);
    assert_eq!(scr.page_stack.len(), 1);
    scr.add(PageType::Command);
    for c in "FIND".chars() {
        scr.insertion(Key::Char(c));
    }
    assert_eq!(scr.confirm_command(), CommandChoice::Find);
    assert_eq!(scr.active().display_type, PageType::Find);
}

#[test]
fn rules_for_a_kind_of_file() {
    let text = s("! rs c\ncomment //\n  (1,2,3) fn  \n! py\ncomment #\n");
    assert_eq!(rules_for(&text, &s("rs")), Some(s("comment //\n(1,2,3) fn\n")));
    assert_eq!(rules_for(&text, &s("c")), Some(s("comment //\n(1,2,3) fn\n")));
    assert_eq!(rules_for(&text, &s("py")), Some(s("comment #\n\n")));
    assert_eq!(rules_for(&text, &s("go")), None);
    assert_eq!(rules_for(&text, &s("")), None);
}

#[test]
fn dialog_box_layout() {
    let mut scr = Screen::new(None, (12, 8), None, s("text"));
    scr.add(PageType::Find);
    scr.set_active_prompt("Text to Find");
    let layout = scr.overlay_layout(1, s("ab"));
    assert_eq!(
        layout,
        vec![
            (2, 1, s("--------")),
            (2, 2, s("|      |")),
            (4, 2, s("Text to Find")),
            (2, 3, s("|      |")),
            (4, 3, s("ab")),
            (2, 4, s("--------")),
        ]
    );
    scr.pop();
    scr.add(PageType::Command);
    let layout = scr.overlay_layout(1, s(""));
    assert_eq!(layout.len(), 11);
    assert_eq!(layout[0], (2, 2, s("--------")));
    assert_eq!(layout[4], (3, 5, s("|    |")));
    assert_eq!(layout[5], (5, 5, s("Toggle Highlight")));
    assert_eq!(layout[10], (3, 8, s("------")));
}
