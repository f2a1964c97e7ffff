use tmux_thumbs::layout::{hint_column, match_offset, role_colors, row_text, screen_size, ColorPair, HintDraw, Role};
use tmux_thumbs::view::{Key, KeyOutcome, ListenStart, Match, View};
use tmux_thumbs::width::{char_display_width, slice_line_to_width, visual_width};

fn picker(matches: Vec<Match>, multi: bool) -> View {
    View::new(matches, multi, false, false, "".to_string())
}

fn m(text: &str, hint: &str, x: i32, y: i32) -> Match {
    Match { x, y, text: text.to_string(), hint: Some(hint.to_string()) }
}

#[test]
fn hint_text() {
    let mut view = View {
        skip: 0,
        multi: false,
        contrast: false,
        position: "".to_string(),
        matches: vec![],
        chosen: vec![],
    };
    let result = view.make_hint_text("a");
    assert_eq!(result, "a".to_string());
    view.contrast = true;
    let result = view.make_hint_text("a");
    assert_eq!(result, "[a]".to_string());
}

#[test]
fn test_slice_line_to_width() {
    assert_eq!(slice_line_to_width("hello", 3), "hel");
    assert_eq!(slice_line_to_width("\x1b[31mhello\x1b[m", 3), "\x1b[31mhel");
    assert_eq!(slice_line_to_width("hello \x1b[31mworld\x1b[m", 8), "hello \x1b[31mwo");
    assert_eq!(slice_line_to_width("\tmodified", 12), "\tmodi");
    assert_eq!(slice_line_to_width("a\tmodified", 12), "a\tmodi");
}

#[test]
fn slice_wide_characters() {
    assert_eq!(slice_line_to_width("日本語", 3), "日");
    assert_eq!(slice_line_to_width("日本語", 0), "");
    assert_eq!(slice_line_to_width("", 5), "");
    assert_eq!(visual_width("\x1b[31m日本\x1b[m\tx"), 9);
    assert_eq!(visual_width("ab"), 2);
}

#[test]
fn navigation() {
    let mut view = View::new(vec![m("a", "a", 0, 0), m("b", "b", 2, 0)], false, true, false, "".to_string());
    assert_eq!(view.skip, 1);
    view.next();
    assert_eq!(view.skip, 1);
    view.prev();
    assert_eq!(view.skip, 0);
    view.prev();
    assert_eq!(view.skip, 0);
    view.next();
    assert_eq!(view.skip, 1);
}

#[test]
fn typing_a_hint_picks_its_match() {
    let mut view = picker(vec![m("foo", "ab", 0, 0), m("bar", "ac", 4, 0)], false);
    let longest = view.longest_hint_len().unwrap();
    assert_eq!(longest, 2);
    let mut typed = String::new();
    assert_eq!(view.handle_key(&mut typed, longest, Key::Char('a')), KeyOutcome::Continue);
    assert_eq!(typed, "a");
    assert_eq!(view.handle_key(&mut typed, longest, Key::Char('C')), KeyOutcome::Hint);
    assert_eq!(view.chosen, vec![("bar".to_string(), true)]);
}

#[test]
fn wrong_hint_ends_single_pick() {
    let mut view = picker(vec![m("foo", "ab", 0, 0)], false);
    let mut typed = String::new();
    assert_eq!(view.handle_key(&mut typed, 2, Key::Char('x')), KeyOutcome::Continue);
    assert_eq!(view.handle_key(&mut typed, 2, Key::Char('y')), KeyOutcome::Exit);
    assert!(view.chosen.is_empty());
}

#[test]
fn multi_selection_keys() {
    let mut view = picker(vec![m("foo", "a", 0, 0), m("bar", "b", 4, 0)], false);
    let mut typed = String::new();
    assert_eq!(view.handle_key(&mut typed, 1, Key::Char(' ')), KeyOutcome::Continue);
    assert!(view.multi);
    assert_eq!(view.handle_key(&mut typed, 1, Key::Char('b')), KeyOutcome::Continue);
    assert_eq!(typed, "");
    assert_eq!(view.handle_key(&mut typed, 1, Key::Down), KeyOutcome::Continue);
    assert_eq!(view.handle_key(&mut typed, 1, Key::Char('\n')), KeyOutcome::Continue);
    assert_eq!(view.handle_key(&mut typed, 1, Key::Char('z')), KeyOutcome::Continue);
    assert_eq!(view.handle_key(&mut typed, 1, Key::Backspace), KeyOutcome::Continue);
    assert_eq!(typed, "");
    assert_eq!(view.handle_key(&mut typed, 1, Key::Char('z')), KeyOutcome::Continue);
    assert_eq!(view.handle_key(&mut typed, 1, Key::Esc), KeyOutcome::Continue);
    assert_eq!(typed, "");
    assert_eq!(view.handle_key(&mut typed, 1, Key::Other), KeyOutcome::Continue);
    assert_eq!(view.handle_key(&mut typed, 1, Key::Char(' ')), KeyOutcome::Hint);
    assert_eq!(view.chosen, vec![("bar".to_string(), false), ("bar".to_string(), false)]);
    assert_eq!(view.handle_key(&mut typed, 1, Key::Esc), KeyOutcome::Exit);
}

#[test]
fn enter_picks_selected() {
    let mut view = picker(vec![m("foo", "a", 0, 0), m("bar", "b", 4, 0)], false);
    let mut typed = String::new();
    view.handle_key(&mut typed, 1, Key::Right);
    assert_eq!(view.handle_key(&mut typed, 1, Key::Char('\n')), KeyOutcome::Hint);
    assert_eq!(view.chosen, vec![("bar".to_string(), false)]);
    let no_hints = picker(vec![Match { x: 0, y: 0, text: "t".to_string(), hint: None }], false);
    assert_eq!(no_hints.longest_hint_len(), None);
}

#[test]
fn layout_of_rows() {
    assert_eq!(screen_size(0, 0), (80, 24));
    assert_eq!(screen_size(100, 30), (100, 30));
    assert_eq!(row_text("abc", 0, 10, 3, false), Some("abc".to_string()));
    assert_eq!(row_text("abc", 0, 10, 3, true), Some("abc      ".to_string()));
    assert_eq!(row_text("   ", 1, 10, 3, false), None);
    assert_eq!(row_text("abcdefghijkl", 2, 10, 3, false), Some("abcdefghi".to_string()));
    assert_eq!(row_text("abc", 3, 10, 3, false), None);
}

#[test]
fn layout_of_matches() {
    let mut view = picker(vec![m("foo", "ab", 4, 0), m("foo", "ab", 4, 0), m("bar", "c", 0, 1)], false);
    assert_eq!(view.match_role(0), Role::Selected);
    assert_eq!(view.match_role(1), Role::Selected);
    assert_eq!(view.match_role(2), Role::Normal);
    view.chosen.push(("bar".to_string(), false));
    assert_eq!(view.match_role(2), Role::Chosen);
    assert_eq!(match_offset("日本 foo", 3), 5);
    assert_eq!(match_offset("ab", -1), 2);
    assert_eq!(hint_column("right", false, 3, 1, 4), 6);
    assert_eq!(hint_column("off_left", true, 3, 1, 1), 0);
    assert_eq!(hint_column("off_right", false, 3, 1, 4), 7);
    assert_eq!(hint_column("left", false, 3, 1, 4), 4);
    view.position = "right".to_string();
    let layout = view.hint_layout("foo", "ab", "a", 4).unwrap();
    assert_eq!(layout.column, 5);
    assert_eq!(layout.text, "ab");
    assert!(layout.typed_overlay);
    view.contrast = true;
    let layout = view.hint_layout("foo", "ab", "b", 4).unwrap();
    assert_eq!(layout.column, 7);
    assert_eq!(layout.text, "[ab]");
    assert!(!layout.typed_overlay);
}

#[test]
fn colours_of_roles() {
    assert_eq!(role_colors(Role::Chosen), ColorPair::Multi);
    assert_eq!(role_colors(Role::Selected), ColorPair::Select);
    assert_eq!(role_colors(Role::Normal), ColorPair::Plain);
}

#[test]
fn matches_below_the_screen_are_not_drawn() {
    let lines = vec!["x foo".to_string(), "bar".to_string(), "baz".to_string()];
    let mut view = picker(
        vec![m("foo", "a", 2, 0), m("bar", "b", 0, 1), Match { x: 0, y: 2, text: "baz".to_string(), hint: None }],
        false,
    );
    view.position = "off_right".to_string();
    assert!(view.match_layout(&lines, 1, 1, "").is_none());
    assert!(view.match_layout(&lines, 2, 2, "").is_none());

    let first = view.match_layout(&lines, 0, 1, "a").unwrap();
    assert_eq!((first.column, first.row), (2, 0));
    assert_eq!(first.text, "foo");
    assert_eq!(first.colors, ColorPair::Select);
    match first.hint {
        HintDraw::Shown(layout) => {
            assert_eq!(layout.column, 5);
            assert_eq!(layout.text, "a");
            assert!(layout.typed_overlay);
        }
        _ => panic!("the hint of the first match is drawn"),
    }

    view.chosen.push(("bar".to_string(), false));
    let second = view.match_layout(&lines, 1, 3, "").unwrap();
    assert_eq!((second.column, second.row), (0, 1));
    assert_eq!(second.colors, ColorPair::Multi);
    let third = view.match_layout(&lines, 2, 3, "").unwrap();
    assert_eq!(third.colors, ColorPair::Plain);
    assert!(matches!(third.hint, HintDraw::Absent));
}

#[test]
fn hint_column_overflow_is_reported() {
    let lines = vec!["a".repeat(40000)];
    let mut view = picker(vec![m("a", "b", 32767, 0)], false);
    view.position = "off_right".to_string();
    let draw = view.match_layout(&lines, 0, 24, "").unwrap();
    assert_eq!(draw.column, 32767);
    assert!(matches!(draw.hint, HintDraw::Overflow));
}

#[test]
fn how_listening_starts() {
    assert_eq!(picker(vec![], false).listen_start(), ListenStart::NoMatches);
    let no_hints = picker(vec![Match { x: 0, y: 0, text: "t".to_string(), hint: None }], false);
    assert_eq!(no_hints.listen_start(), ListenStart::NoHint);
    let view = picker(vec![m("foo", "ab", 0, 0), m("bar", "abc", 4, 0)], false);
    assert_eq!(view.listen_start(), ListenStart::Ready(3));
}

#[test]
fn widths_of_characters() {
    assert_eq!(char_display_width('a'), Some(1));
    assert_eq!(char_display_width('\x07'), None);
    assert_eq!(char_display_width('\u{85}'), None);
    assert_eq!(char_display_width('日'), Some(2));
}
