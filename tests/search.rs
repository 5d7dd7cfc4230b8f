use secure_file_editor::find::{count_matches, find_text, get_indices, get_newx_newy, get_xs_and_ys, replace_all};
use secure_file_editor::flow::{found_text, get_extension, trigger_find, trigger_replace, trigger_saveas};
use secure_file_editor::key_handler::{Key, KeyHandler};
use secure_file_editor::page::{Page, PageType};
use secure_file_editor::screen::{Mode, Screen};

fn s(t: &str) -> String {
    String::from(t)
}

#[test]
fn overlapping_occurrences_are_all_found() {
    assert_eq!(get_indices(&s("aaa"), &s("aa")), vec![0, 1]);
    assert_eq!(get_indices(&s("hello world hello"), &s("lo")), vec![3, 15]);
    assert_eq!(get_indices(&s("abc"), &s("x")), Vec::<usize>::new());
    assert_eq!(get_indices(&s("éaé"), &s("é")), vec![0, 3]);
}

#[test]
fn matches_are_counted_without_overlap() {
    assert_eq!(count_matches(&s("aaa"), &s("aa")), 1);
    assert_eq!(count_matches(&s("aaaa"), &s("aa")), 2);
    assert_eq!(count_matches(&s("hello world hello"), &s("lo")), 2);
    assert_eq!(count_matches(&s("ab"), &s("")), 3);
}

#[test]
fn replace_matches_std() {
    for (t, a, b) in [
        ("cat dog cat", "cat", "bird"),
        ("aaa", "aa", "b"),
        ("abc", "", "-"),
        ("", "x", "y"),
        ("xyz", "q", "r"),
    ] {
        assert_eq!(replace_all(&s(t), &s(a), &s(b)), t.replace(a, b));
    }
}

#[test]
fn positions_of_offsets() {
    let text = s("ab\ncde\n你好x");
    assert_eq!(get_newx_newy(&text, 0), (0, 0));
    assert_eq!(get_newx_newy(&text, 2), (2, 0));
    assert_eq!(get_newx_newy(&text, 3), (0, 1));
    assert_eq!(get_newx_newy(&text, 5), (2, 1));
    assert_eq!(get_newx_newy(&text, 10), (2, 2));
    assert_eq!(get_newx_newy(&text, 13), (4, 2));
    assert_eq!(get_newx_newy(&text, 14), (5, 2));
    assert_eq!(get_xs_and_ys(vec![0, 3, 10], &text), vec![(0, 0), (0, 1), (2, 2)]);
}

#[test]
fn offset_and_position_round_trip() {
    let text = s("héllo\nwörld\n你好x\n");
    let mut page = Page::new_with_contents(PageType::Text, text.clone());
    let mut kh = KeyHandler::new((80, 24));
    kh.index_rows(&mut page);
    for (k, _) in text.char_indices().chain(std::iter::once((text.len(), ' '))) {
        let (x, y) = get_newx_newy(&text, k);
        kh.ip.x = x;
        kh.ip.y = y;
        assert_eq!(kh.get_current_location_in_string(&page), k);
    }
}

#[test]
fn first_match_position() {
    let page = Page::new_with_contents(PageType::Text, s("one\ntwo two"));
    assert_eq!(find_text(&page, &s("two")), (Some(0), Some(1)));
    assert_eq!(find_text(&page, &s("six")), (None, None));
}

#[test]
fn found_messages() {
    assert_eq!(
        found_text(2),
        "Found 2 matches: (Ctrl + Left for previous, Ctrl + Right for next, ESC to exit find mode)"
    );
    assert_eq!(found_text(12).starts_with("Found 12 matches"), true);
    assert_eq!(found_text(1), "Found 1 match: (ESC to exit find mode)");
    assert_eq!(
        found_text(0),
        "Found no matches: (Try searching for something else, ESC to exit find mode)"
    );
}

#[test]
fn find_flow_moves_to_matches() {
    let mut scr = Screen::new(None, (80, 24), None, s("hello world hello"));
    trigger_find(&mut scr);
    assert_eq!(scr.page_stack.len(), 2);
    assert_eq!(scr.page_stack[1].display_type, PageType::Find);
    for c in "lo".chars() {
        scr.insertion(Key::Char(c));
    }
    scr.confirm_find();
    assert_eq!(scr.page_stack.len(), 1);
    assert_eq!((scr.key_handler.ip.x, scr.key_handler.ip.y), (3, 0));
    assert!(scr.page_stack[0].prompt.starts_with("Found 2 matches"));
    assert!(scr.find_mode());
    scr.next_match();
    assert_eq!((scr.key_handler.ip.x, scr.key_handler.ip.y), (15, 0));
    scr.next_match();
    assert_eq!((scr.key_handler.ip.x, scr.key_handler.ip.y), (15, 0));
    scr.previous_match();
    assert_eq!((scr.key_handler.ip.x, scr.key_handler.ip.y), (3, 0));
    assert!(!scr.escape());
    assert_eq!(scr.page_stack[0].prompt, "Unsaved File\n");
    assert!(matches!(scr.mode, Mode::Normal));
}

#[test]
fn find_with_nothing_typed_keeps_the_dialog() {
    let mut scr = Screen::new(None, (80, 24), None, s("abc"));
    trigger_find(&mut scr);
    scr.confirm_find();
    assert_eq!(scr.page_stack.len(), 2);
}

#[test]
fn replace_flow_replaces_every_match() {
    let mut scr = Screen::new(Some(s("pets.txt")), (80, 24), None, s("cat dog cat"));
    trigger_replace(&mut scr);
    assert_eq!(scr.page_stack[1].prompt, "Replace:\nFind:\n");
    for c in "cat".chars() {
        scr.insertion(Key::Char(c));
    }
    scr.confirm_replace_find();
    assert_eq!(scr.page_stack.len(), 2);
    assert_eq!(scr.page_stack[1].display_type, PageType::ReplaceP2);
    for c in "bird".chars() {
        scr.insertion(Key::Char(c));
    }
    scr.confirm_replace_with();
    assert_eq!(scr.page_stack.len(), 1);
    assert_eq!(scr.page_stack[0].contents, "bird dog bird");
    assert_eq!(scr.page_stack[0].display_type, PageType::Text);
    assert_eq!(scr.page_stack[0].prompt, "Replaced here:\n");
    assert_eq!(scr.search_text(), Some(s("bird")));
}

#[test]
fn save_as_dialog_and_extension() {
    let mut scr = Screen::new(None, (80, 24), None, s("x"));
    scr.modified = true;
    trigger_saveas(&mut scr);
    assert!(!scr.modified);
    assert_eq!(scr.page_stack[1].display_type, PageType::SaveAs);
    assert_eq!(scr.save_as_request(), None);
    assert_eq!(scr.page_stack.len(), 1);
    trigger_saveas(&mut scr);
    for c in "a.rs".chars() {
        scr.insertion(Key::Char(c));
    }
    assert_eq!(scr.save_as_request(), Some(s("a.rs")));
    assert!(scr.save_as_may_write(false));
    assert!(!scr.save_as_may_write(true));
    scr.warn_overwrite();
    assert!(scr.save_as_may_write(true));
    scr.finish_save_as(s("a.rs"), None);
    assert_eq!(scr.page_stack.len(), 1);
    assert_eq!(scr.file_name, Some(s("a.rs")));
    assert_eq!(scr.page_stack[0].prompt, "a.rs\n");
    assert_eq!(get_extension(s("a.rs")), "rs");
    assert_eq!(get_extension(s("a.b.rs")), "");
    assert_eq!(get_extension(s("noext")), "");
}
