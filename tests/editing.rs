use secure_file_editor::insertion_point::InsertionPoint;
use secure_file_editor::key_handler::{split_with_n, Key, KeyHandler};
use secure_file_editor::page::{Page, PageType};
use secure_file_editor::screen::Screen;

fn screen_with(text: &str) -> Screen {
    Screen::new(None, (80, 24), None, String::from(text))
}

fn type_text(screen: &mut Screen, text: &str) {
    for c in text.chars() {
        if c == '\n' {
            screen.insertion(Key::Enter);
        } else {
            screen.insertion(Key::Char(c));
        }
    }
}

#[test]
fn insertion_point_starts_at_origin_and_clones() {
    let p = InsertionPoint::new();
    assert_eq!((p.x, p.y), (0, 0));
    let q = InsertionPoint { x: 3, y: 7 }.clone();
    assert_eq!((q.x, q.y), (3, 7));
}

#[test]
fn split_keeps_newlines_and_a_last_row() {
    assert_eq!(split_with_n(&String::from("")), vec![String::from("")]);
    assert_eq!(
        split_with_n(&String::from("ab\ncd")),
        vec![String::from("ab\n"), String::from("cd")]
    );
    assert_eq!(
        split_with_n(&String::from("ab\n")),
        vec![String::from("ab\n"), String::from("")]
    );
    assert_eq!(
        split_with_n(&String::from("\n\n")),
        vec![String::from("\n"), String::from("\n"), String::from("")]
    );
}

#[test]
fn page_kinds_that_fill_the_screen() {
    assert!(PageType::Text.overwrites());
    assert!(PageType::Info.overwrites());
    assert!(!PageType::Find.overwrites());
    assert!(!PageType::ReplaceP1.overwrites());
    assert!(!PageType::ReplaceP2.overwrites());
    assert!(!PageType::Command.overwrites());
    assert!(!PageType::SaveAs.overwrites());
}

#[test]
fn page_prompt_gets_a_newline() {
    let mut p = Page::new(PageType::Find);
    p.set_prompt(String::from("Find:"));
    assert_eq!(p.prompt, "Find:\n");
    p.set_prompt(String::new());
    assert_eq!(p.prompt, "");
    p.set_contents(String::from("a\nb"));
    assert_eq!(p.row_contents, vec![String::from("a\n"), String::from("b")]);
    p.save_active_cursor_location(InsertionPoint { x: 1, y: 1 });
    let saved = p.active_cursor_location.as_ref().unwrap();
    assert_eq!((saved.x, saved.y), (1, 1));
}

#[test]
fn typing_and_backspace_keep_the_typed_text() {
    let mut s = screen_with("");
    type_text(&mut s, "abc");
    s.insertion(Key::Backspace);
    type_text(&mut s, "d");
    assert_eq!(s.page_stack[0].contents, "abd");
    assert_eq!((s.key_handler.ip.x, s.key_handler.ip.y), (3, 0));
    s.insertion(Key::Backspace);
    s.insertion(Key::Backspace);
    s.insertion(Key::Backspace);
    s.insertion(Key::Backspace);
    assert_eq!(s.page_stack[0].contents, "");
    assert_eq!((s.key_handler.ip.x, s.key_handler.ip.y), (0, 0));
}

#[test]
fn home_up_end_reaches_end_of_first_row() {
    let mut s = screen_with("");
    type_text(&mut s, "hi\nworld");
    assert_eq!(s.page_stack[0].contents, "hi\nworld");
    s.move_ip(Key::Home);
    s.move_ip(Key::Up);
    s.move_ip(Key::End);
    assert_eq!((s.key_handler.ip.x, s.key_handler.ip.y), (2, 0));
}

#[test]
fn row_bookkeeping_adds_up_after_edits() {
    let mut s = screen_with("");
    type_text(&mut s, "héllo\nwörld\n你好");
    s.insertion(Key::Tab);
    s.move_ip(Key::Up);
    s.insertion(Key::Backspace);
    s.insertion(Key::Delete);
    let text = s.page_stack[0].contents.clone();
    let kh = &s.key_handler;
    assert_eq!(kh.bytes_in_row.iter().sum::<usize>(), text.len());
    assert_eq!(kh.bytes_in_row.len(), text.matches('\n').count() + 1);
    assert_eq!(kh.width_in_row.len(), kh.num_of_rows);
}

#[test]
fn backspace_at_row_start_joins_rows() {
    let mut s = screen_with("ab\ncd");
    s.key_handler.ip.y = 1;
    s.key_handler.ip.x = 0;
    s.insertion(Key::Backspace);
    assert_eq!(s.page_stack[0].contents, "abcd");
    assert_eq!((s.key_handler.ip.x, s.key_handler.ip.y), (2, 0));
    s.insertion(Key::Backspace);
    assert_eq!(s.page_stack[0].contents, "acd");
}

#[test]
fn backspace_at_origin_and_delete_at_end_do_nothing() {
    let mut s = screen_with("xy");
    s.insertion(Key::Backspace);
    assert_eq!(s.page_stack[0].contents, "xy");
    s.key_handler.ip.x = 2;
    s.insertion(Key::Delete);
    assert_eq!(s.page_stack[0].contents, "xy");
}

#[test]
fn delete_at_row_end_joins_rows() {
    let mut s = screen_with("ab\ncd");
    s.key_handler.ip.x = 2;
    s.insertion(Key::Delete);
    assert_eq!(s.page_stack[0].contents, "abcd");
    s.key_handler.ip.x = 0;
    s.insertion(Key::Delete);
    assert_eq!(s.page_stack[0].contents, "bcd");
}

#[test]
fn enter_splits_the_row() {
    let mut s = screen_with("abcd");
    s.key_handler.ip.x = 2;
    s.insertion(Key::Enter);
    assert_eq!(s.page_stack[0].contents, "ab\ncd");
    assert_eq!((s.key_handler.ip.x, s.key_handler.ip.y), (0, 1));
}

#[test]
fn tab_inserts_four_spaces() {
    let mut s = screen_with("ab");
    s.key_handler.ip.x = 1;
    s.insertion(Key::Tab);
    assert_eq!(s.page_stack[0].contents, "a    b");
    assert_eq!(s.key_handler.ip.x, 5);
}

#[test]
fn wide_characters_move_by_their_width() {
    let mut s = screen_with("你好x");
    s.move_ip(Key::Right);
    assert_eq!(s.key_handler.ip.x, 2);
    s.move_ip(Key::Right);
    assert_eq!(s.key_handler.ip.x, 4);
    s.move_ip(Key::End);
    assert_eq!(s.key_handler.ip.x, 5);
    s.move_ip(Key::Left);
    assert_eq!(s.key_handler.ip.x, 4);
    s.move_ip(Key::Left);
    assert_eq!(s.key_handler.ip.x, 2);
    s.insertion(Key::Char('a'));
    assert_eq!(s.page_stack[0].contents, "你a好x");
    assert_eq!(s.key_handler.ip.x, 3);
}

#[test]
fn left_and_right_wrap_between_rows() {
    let mut s = screen_with("ab\ncd");
    s.key_handler.ip.x = 2;
    s.move_ip(Key::Right);
    assert_eq!((s.key_handler.ip.x, s.key_handler.ip.y), (0, 1));
    s.move_ip(Key::Left);
    assert_eq!((s.key_handler.ip.x, s.key_handler.ip.y), (2, 0));
    s.move_ip(Key::Down);
    assert_eq!((s.key_handler.ip.x, s.key_handler.ip.y), (2, 1));
}

#[test]
fn cursor_offset_counts_bytes() {
    let mut page = Page::new_with_contents(PageType::Text, String::from("héllo\nwörld"));
    let mut kh = KeyHandler::new((80, 24));
    kh.index_rows(&mut page);
    assert_eq!(kh.bytes_in_row, vec![7, 6]);
    assert_eq!(kh.width_in_row, vec![5, 5]);
    kh.ip.y = 1;
    kh.ip.x = 2;
    assert_eq!(kh.get_current_location_in_string(&page), 7 + 3);
    kh.ip.y = 0;
    kh.ip.x = 5;
    assert_eq!(kh.get_current_location_in_string(&page), 6);
}

#[test]
fn window_size_and_scrolling() {
    let mut kh = KeyHandler::new((10, 7));
    assert_eq!((kh.screen_cols, kh.screen_rows), (10, 5));
    kh.ip.y = 9;
    kh.ip.x = 12;
    kh.scroll();
    assert_eq!((kh.row_offset, kh.column_offset), (5, 3));
    kh.ip.y = 2;
    kh.ip.x = 0;
    kh.scroll();
    assert_eq!((kh.row_offset, kh.column_offset), (2, 0));
    let small = KeyHandler::new((0, 1));
    assert_eq!((small.screen_cols, small.screen_rows), (1, 1));
}

#[test]
fn long_typing_sequence_matches_model() {
    let mut s = screen_with("");
    let mut model: Vec<char> = Vec::new();
    let alphabet = ['a', 'é', '你', 'Z', '1', ' ', 'ß', '好'];
    let mut seed: usize = 7;
    for _ in 0..300 {
        seed = (seed * 1103515245 + 12345) % 2147483648;
        if seed % 4 == 0 {
            s.insertion(Key::Backspace);
            model.pop();
        } else {
            let c = alphabet[(seed / 4) % alphabet.len()];
            s.insertion(Key::Char(c));
            model.push(c);
        }
        let expected: String = model.iter().collect();
        assert_eq!(s.page_stack[0].contents, expected);
    }
}

#[test]
fn backspace_after_wide_character_lands_before_next() {
    let mut s = screen_with("中a");
    s.key_handler.ip.x = 2;
    s.insertion(Key::Backspace);
    assert_eq!(s.page_stack[0].contents, "a");
    assert_eq!((s.key_handler.ip.x, s.key_handler.ip.y), (0, 0));
    let mut s = screen_with("a中b");
    s.key_handler.ip.x = 3;
    s.insertion(Key::Backspace);
    assert_eq!(s.page_stack[0].contents, "ab");
    assert_eq!(s.key_handler.ip.x, 1);
}

#[test]
fn arrows_move_over_the_dialog_on_top() {
    let mut s = screen_with("a\nb");
    s.add(PageType::Find);
    s.move_ip(Key::Down);
    assert_eq!((s.key_handler.ip.x, s.key_handler.ip.y), (0, 0));
    s.insertion(Key::Char('x'));
    s.insertion(Key::Char('y'));
    s.move_ip(Key::Left);
    assert_eq!((s.key_handler.ip.x, s.key_handler.ip.y), (1, 0));
    s.move_ip(Key::Home);
    assert_eq!(s.key_handler.ip.x, 0);
    assert_eq!(s.page_stack[0].contents, "a\nb");
}
