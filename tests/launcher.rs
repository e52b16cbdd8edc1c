use startify::item::{last_separator, Item};
use startify::selection::{hex_char, hex_value, label, resolve, Slot};
use startify::session::{render, step, Input, Key, Line, Session};
use startify::store::{AppState, DeleteError};

fn item(p: &str) -> Item {
    Item::new(p.to_string()).unwrap()
}

fn recents_of(s: &AppState) -> Vec<String> {
    s.recents.iter().map(|i| i.path().clone()).collect()
}

fn bookmarks_of(s: &AppState) -> Vec<String> {
    s.bookmarks.iter().map(|i| i.path().clone()).collect()
}

fn state(recents: &[&str], bookmarks: &[&str]) -> AppState {
    let mut s = AppState::new();
    for p in recents.iter().rev() {
        s.record_recent(item(p));
    }
    for p in bookmarks {
        assert!(s.add_bookmark(item(p)));
    }
    s
}

fn opened(s: Session) -> Option<Option<String>> {
    match s {
        Session::Running => None,
        Session::Exiting(p) => Some(p),
    }
}

#[test]
fn recents_never_exceed_ten() {
    let mut s = AppState::new();
    for k in 0..25 {
        s.record_recent(item(&format!("/dir/f{k}")));
        assert!(s.recents.len() <= 10);
    }
    assert_eq!(s.recents.len(), 10);
    assert_eq!(s.recents[0].path(), "/dir/f24");
    assert_eq!(s.recents[9].path(), "/dir/f15");
}

#[test]
fn seventh_bookmark_is_refused() {
    let mut s = AppState::new();
    for k in 0..6 {
        assert!(s.add_bookmark(item(&format!("/b/{k}"))));
    }
    assert!(!s.add_bookmark(item("/b/extra")));
    assert_eq!(s.bookmarks.len(), 6);
    assert_eq!(bookmarks_of(&s)[5], "/b/5");
}

#[test]
fn bookmarks_are_not_deduplicated() {
    let mut s = AppState::new();
    assert!(s.add_bookmark(item("/x/y")));
    assert!(s.add_bookmark(item("/x/y")));
    assert_eq!(bookmarks_of(&s), vec!["/x/y", "/x/y"]);
}

#[test]
fn recording_twice_keeps_length() {
    let mut s = state(&["/a/1", "/b/2"], &[]);
    s.record_recent(item("/c/3"));
    s.record_recent(item("/c/3"));
    assert_eq!(recents_of(&s), vec!["/c/3", "/a/1", "/b/2"]);
}

#[test]
fn recording_a_b_a_gives_a_b() {
    let mut s = AppState::new();
    s.record_recent(item("/p/a"));
    s.record_recent(item("/p/b"));
    s.record_recent(item("/p/a"));
    assert_eq!(recents_of(&s), vec!["/p/a", "/p/b"]);
}

#[test]
fn reopening_index_three_moves_it_to_front() {
    let mut s = state(&["/r/0", "/r/1", "/r/2", "/r/3", "/r/4"], &[]);
    s.record_recent(item("/r/3"));
    assert_eq!(recents_of(&s), vec!["/r/3", "/r/0", "/r/1", "/r/2", "/r/4"]);
}

#[test]
fn record_leaves_bookmarks() {
    let mut s = state(&[], &["/c/3"]);
    s.record_recent(item("/c/3"));
    assert_eq!(bookmarks_of(&s), vec!["/c/3"]);
    assert_eq!(recents_of(&s), vec!["/c/3"]);
}

#[test]
fn keys_select_across_both_lists() {
    let s = state(&["/a/1", "/b/2"], &["/c/3"]);
    assert_eq!(opened(step(&s, Input::Press(Key::Char('0')))), Some(Some("/a/1".to_string())));
    assert_eq!(opened(step(&s, Input::Press(Key::Char('1')))), Some(Some("/b/2".to_string())));
    assert_eq!(opened(step(&s, Input::Press(Key::Char('2')))), Some(Some("/c/3".to_string())));
    for c in "3456789abcdef".chars() {
        assert_eq!(opened(step(&s, Input::Press(Key::Char(c)))), None);
    }
    assert_eq!(opened(step(&s, Input::Press(Key::Esc))), Some(None));
}

#[test]
fn quit_and_other_inputs() {
    let s = state(&["/a/1"], &[]);
    assert_eq!(opened(step(&s, Input::Press(Key::Char('q')))), Some(None));
    assert_eq!(opened(step(&s, Input::Press(Key::Char('z')))), None);
    assert_eq!(opened(step(&s, Input::Press(Key::Other))), None);
    assert_eq!(opened(step(&s, Input::Timeout)), None);
    assert_eq!(opened(step(&s, Input::Other)), None);
    assert_eq!(opened(step(&s, Input::Press(Key::Char('A')))), None);
}

#[test]
fn upper_case_digit_selects() {
    let s = state(&["/r/0", "/r/1", "/r/2", "/r/3", "/r/4", "/r/5", "/r/6", "/r/7", "/r/8", "/r/9"], &["/b/a", "/b/b"]);
    assert_eq!(opened(step(&s, Input::Press(Key::Char('B')))), Some(Some("/b/b".to_string())));
    assert_eq!(opened(step(&s, Input::Press(Key::Char('c')))), None);
}

#[test]
fn resolve_and_label_round_trip() {
    for r in 0..=10usize {
        for b in 0..=6usize {
            for i in 0..r {
                let d = label(r, Slot::Recent(i)).unwrap();
                assert_eq!(resolve(r, b, d), Slot::Recent(i));
            }
            for j in 0..b {
                let d = label(r, Slot::Bookmark(j)).unwrap();
                assert_eq!(d, r + j);
                assert_eq!(resolve(r, b, d), Slot::Bookmark(j));
            }
            for d in (r + b)..16 {
                assert_eq!(resolve(r, b, d), Slot::Vacant);
            }
        }
    }
    assert_eq!(label(3, Slot::Vacant), None);
}

#[test]
fn hex_digits() {
    assert_eq!(hex_value('0'), Some(0));
    assert_eq!(hex_value('9'), Some(9));
    assert_eq!(hex_value('a'), Some(10));
    assert_eq!(hex_value('F'), Some(15));
    assert_eq!(hex_value('g'), None);
    assert_eq!(hex_value(':'), None);
    assert_eq!(hex_char(0), '0');
    assert_eq!(hex_char(11), 'b');
    assert_eq!(hex_char(15), 'f');
}

#[test]
fn delete_from_each_list() {
    let mut s = state(&["/a/1", "/b/2"], &["/c/3", "/d/4"]);
    assert_eq!(s.delete('1'), Ok(()));
    assert_eq!(recents_of(&s), vec!["/a/1"]);
    assert_eq!(s.delete('2'), Ok(()));
    assert_eq!(bookmarks_of(&s), vec!["/c/3"]);
    assert_eq!(s.delete('1'), Ok(()));
    assert_eq!(bookmarks_of(&s), Vec::<String>::new());
    assert_eq!(recents_of(&s), vec!["/a/1"]);
}

#[test]
fn delete_errors() {
    let mut s = state(&["/a/1"], &["/c/3"]);
    assert_eq!(s.delete('2'), Err(DeleteError::OutOfRange));
    assert_eq!(s.delete('x'), Err(DeleteError::NotAKey));
    assert_eq!(recents_of(&s), vec!["/a/1"]);
    assert_eq!(bookmarks_of(&s), vec!["/c/3"]);
}

#[test]
fn clear_empties_both() {
    let mut s = state(&["/a/1"], &["/c/3"]);
    s.clear();
    assert!(s.recents.is_empty());
    assert!(s.bookmarks.is_empty());
}

#[test]
fn save_then_load_round_trips() {
    let s = state(&["/home/u/a.rs", "/tmp/\"quoted\"\\x", "/ü/ñ"], &["/c/3", "/c/3"]);
    let text = s.save().unwrap();
    let t = AppState::load(&text);
    assert_eq!(recents_of(&t), recents_of(&s));
    assert_eq!(bookmarks_of(&t), bookmarks_of(&s));
    assert_ne!(text, "");
}

#[test]
fn empty_state_round_trips() {
    let s = AppState::new();
    let t = AppState::load(&s.save().unwrap());
    assert!(t.recents.is_empty() && t.bookmarks.is_empty());
}

#[test]
fn garbage_loads_empty() {
    for text in ["", "not json", "{", "[1,2]", "[[\"/a/1\"]]", "{\"recents\":3}"] {
        let s = AppState::load(text);
        assert!(s.recents.is_empty());
        assert!(s.bookmarks.is_empty());
    }
}

#[test]
fn invalid_lists_load_empty() {
    let dup = "[[\"/a/1\",\"/a/1\"],[]]";
    assert!(AppState::load(dup).recents.is_empty());
    let nosep = "[[\"plain\"],[]]";
    assert!(AppState::load(nosep).recents.is_empty());
    let many: Vec<String> = (0..7).map(|k| format!("\"/b/{k}\"")).collect();
    let too_many = format!("[[],[{}]]", many.join(","));
    assert!(AppState::load(&too_many).bookmarks.is_empty());
    let ok = AppState::load("[[\"/a/1\"],[\"/b/2\"]]");
    assert_eq!(recents_of(&ok), vec!["/a/1"]);
    assert_eq!(bookmarks_of(&ok), vec!["/b/2"]);
}

#[test]
fn item_needs_separator() {
    assert!(Item::new("noslash".to_string()).is_none());
    assert_eq!(last_separator("/a/b/c"), Some(4));
    assert_eq!(last_separator("abc"), None);
    let (dir, name) = item("/home/u/notes.txt").split();
    assert_eq!(dir, "/home/u/");
    assert_eq!(name, "notes.txt");
}

#[test]
fn render_orders_lines() {
    let s = state(&["/a/1", "/b/2"], &["/c/3"]);
    let lines = render(&s);
    assert_eq!(lines.len(), 7);
    assert!(matches!(lines[0], Line::Logo));
    assert!(matches!(lines[1], Line::RecentsHeading));
    match &lines[3] {
        Line::Entry { label, dir, name } => {
            assert_eq!(*label, '1');
            assert_eq!(dir, "/b/");
            assert_eq!(name, "2");
        }
        _ => panic!("expected an entry"),
    }
    assert!(matches!(lines[4], Line::Blank));
    assert!(matches!(lines[5], Line::BookmarksHeading));
    match &lines[6] {
        Line::Entry { label, dir, name } => {
            assert_eq!(*label, '2');
            assert_eq!(dir, "/c/");
            assert_eq!(name, "3");
        }
        _ => panic!("expected an entry"),
    }
}
