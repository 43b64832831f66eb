use luminousity::config::Config;
use luminousity::editor::{Command, Editor, Key, Mode};

fn config(tab: usize, expand: bool) -> Config {
    Config { default_save_directory: "/home/u".to_string(), tab_size: tab, expand_tabs: expand }
}

fn editor_with(lines: &[&str]) -> Editor {
    let mut e = Editor::new(config(4, true), None, None);
    e.lines = lines.iter().map(|s| s.to_string()).collect();
    e
}

fn press(e: &mut Editor, key: Key) -> Command {
    assert!(e.can_handle(key, false));
    e.handle_key(key, false)
}

fn type_str(e: &mut Editor, s: &str) {
    for c in s.chars() {
        press(e, Key::Char(c));
    }
}

#[test]
fn label_names_modes() {
    assert_eq!(Mode::Normal.label(), "NORMAL");
    assert_eq!(Mode::Insert.label(), "INSERT");
}

#[test]
fn leading_spaces() {
    assert_eq!(Editor::get_leading_spaces("   ab "), "   ");
    assert_eq!(Editor::get_leading_spaces("ab"), "");
    assert_eq!(Editor::get_leading_spaces("\t x"), "");
}

#[test]
fn new_editor_state() {
    let e = Editor::new(config(4, true), None, None);
    assert_eq!(e.lines, vec![String::new()]);
    assert_eq!(e.mode, Mode::Normal);
    assert_eq!(e.status_msg, "Welcome to Luminousity | Press 'i' to Edit");
    assert_eq!(e.filename, None);
}

#[test]
fn new_editor_with_missing_file() {
    let e = Editor::new(config(4, true), Some("notes.txt".to_string()), None);
    assert_eq!(e.filename, Some("notes.txt".to_string()));
    assert_eq!(e.lines, vec![String::new()]);
}

#[test]
fn new_editor_opens_file() {
    let e = Editor::new(config(2, true), Some("a.txt".to_string()), Some(Ok("x\ny\n".to_string())));
    assert_eq!(e.lines, vec!["x".to_string(), "y".to_string()]);
    assert_eq!(e.status_msg, "Opened: a.txt");
    assert_eq!(e.tab_size, 2);
}

#[test]
fn load_file_error_and_empty() {
    let mut e = editor_with(&["keep"]);
    e.load_file("gone.txt", Err("No such file".to_string()));
    assert_eq!(e.status_msg, "Error opening file: No such file");
    assert_eq!(e.lines, vec!["keep".to_string()]);
    assert_eq!(e.filename, None);
    e.load_file("empty.txt", Ok(String::new()));
    assert_eq!(e.lines, vec![String::new()]);
    assert_eq!(e.filename, Some("empty.txt".to_string()));
}

#[test]
fn insert_mode_typing() {
    let mut e = editor_with(&[""]);
    press(&mut e, Key::Char('i'));
    assert_eq!(e.mode, Mode::Insert);
    type_str(&mut e, "hi there");
    assert_eq!(e.lines[0], "hi there");
    assert_eq!(e.cx, 8);
    press(&mut e, Key::Char('é'));
    assert_eq!(e.lines[0], "hi there");
    press(&mut e, Key::Esc);
    assert_eq!(e.mode, Mode::Normal);
}

#[test]
fn enter_keeps_indentation() {
    let mut e = editor_with(&["    foo(bar)"]);
    e.mode = Mode::Insert;
    e.cx = 8;
    press(&mut e, Key::Enter);
    assert_eq!(e.lines, vec!["    foo(".to_string(), "    bar)".to_string()]);
    assert_eq!((e.cy, e.cx), (1, 4));
}

#[test]
fn backspace_removes_indent_block() {
    let mut e = editor_with(&["        x"]);
    e.mode = Mode::Insert;
    e.cx = 8;
    press(&mut e, Key::Backspace);
    assert_eq!(e.lines[0], "    x");
    assert_eq!(e.cx, 4);
    e.cx = 5;
    press(&mut e, Key::Backspace);
    assert_eq!(e.lines[0], "    ");
    assert_eq!(e.cx, 4);
}

#[test]
fn backspace_joins_lines() {
    let mut e = editor_with(&["ab", "cd"]);
    e.mode = Mode::Insert;
    e.cy = 1;
    e.cx = 0;
    press(&mut e, Key::Backspace);
    assert_eq!(e.lines, vec!["abcd".to_string()]);
    assert_eq!((e.cy, e.cx), (0, 2));
    e.cx = 0;
    press(&mut e, Key::Backspace);
    assert_eq!(e.lines, vec!["abcd".to_string()]);
}

#[test]
fn backspace_with_zero_tab_size_deletes_one_character() {
    let mut e = editor_with(&["abc"]);
    e.tab_size = 0;
    e.mode = Mode::Insert;
    e.cx = 2;
    press(&mut e, Key::Backspace);
    assert_eq!(e.lines[0], "ac");
    assert_eq!(e.cx, 1);
}

#[test]
fn ctrl_backspace_deletes_word() {
    let mut e = editor_with(&["ab cd"]);
    e.mode = Mode::Insert;
    e.cx = 5;
    assert!(e.can_handle(Key::Backspace, true));
    assert_eq!(e.handle_key(Key::Backspace, true), Command::Continue);
    assert_eq!(e.lines[0], "ab ");
    assert_eq!(e.cx, 3);
}

#[test]
fn ctrl_h_deletes_word() {
    let mut e = editor_with(&["let foo = bar  "]);
    e.mode = Mode::Insert;
    e.cx = 15;
    assert!(e.can_handle(Key::Char('h'), true));
    assert_eq!(e.handle_key(Key::Char('h'), true), Command::Continue);
    assert_eq!(e.lines[0], "let foo = ");
    assert_eq!(e.cx, 10);
    e.handle_key(Key::Char('H'), true);
    assert_eq!(e.lines[0], "let foo ");
    assert_eq!(e.cx, 8);
}

#[test]
fn delete_word_backward_direct() {
    let mut e = editor_with(&["one two", "three"]);
    e.cx = 7;
    e.delete_word_backward();
    assert_eq!(e.lines[0], "one ");
    e.cy = 1;
    e.cx = 0;
    e.delete_word_backward();
    assert_eq!(e.lines, vec!["one three".to_string()]);
    assert_eq!((e.cy, e.cx), (0, 4));
    e.cx = 100;
    e.delete_word_backward();
    assert_eq!(e.lines[0], "one ");
    assert_eq!(e.cx, 4);
}

#[test]
fn tab_and_back_tab() {
    let mut e = editor_with(&["x"]);
    e.mode = Mode::Insert;
    press(&mut e, Key::Tab);
    assert_eq!(e.lines[0], "    x");
    assert_eq!(e.cx, 4);
    press(&mut e, Key::BackTab);
    assert_eq!(e.lines[0], "x");
    assert_eq!(e.cx, 0);
    press(&mut e, Key::BackTab);
    assert_eq!(e.lines[0], "x");
}

#[test]
fn raw_tab_when_not_expanding() {
    let mut e = Editor::new(config(4, false), None, None);
    e.lines = vec!["ab".to_string()];
    e.mode = Mode::Insert;
    e.cx = 1;
    press(&mut e, Key::Tab);
    assert_eq!(e.lines[0], "a\tb");
    assert_eq!(e.cx, 2);
}

#[test]
fn normal_mode_motions() {
    let mut e = editor_with(&["hello", "hi", "world!"]);
    press(&mut e, Key::Char('l'));
    press(&mut e, Key::Right);
    press(&mut e, Key::Right);
    press(&mut e, Key::Right);
    assert_eq!(e.cx, 4);
    press(&mut e, Key::Char('j'));
    assert_eq!((e.cy, e.cx), (1, 2));
    press(&mut e, Key::Down);
    press(&mut e, Key::Down);
    assert_eq!(e.cy, 2);
    press(&mut e, Key::Char('k'));
    press(&mut e, Key::Up);
    press(&mut e, Key::Up);
    assert_eq!(e.cy, 0);
    press(&mut e, Key::Char('h'));
    press(&mut e, Key::Left);
    press(&mut e, Key::Left);
    press(&mut e, Key::Left);
    assert_eq!(e.cx, 0);
    press(&mut e, Key::Char('G'));
    assert_eq!(e.cy, 2);
    press(&mut e, Key::Char('g'));
    assert_eq!(e.cy, 0);
}

#[test]
fn normal_mode_edits() {
    let mut e = editor_with(&["  abc"]);
    e.cx = 2;
    press(&mut e, Key::Char('x'));
    assert_eq!(e.lines[0], "  bc");
    e.cx = 10;
    press(&mut e, Key::Char('x'));
    assert_eq!(e.lines[0], "  bc");
    e.mode = Mode::Normal;
    press(&mut e, Key::Char('o'));
    assert_eq!(e.lines, vec!["  bc".to_string(), "  ".to_string()]);
    assert_eq!((e.cy, e.cx, e.mode), (1, 2, Mode::Insert));
    e.mode = Mode::Normal;
    e.cy = 0;
    press(&mut e, Key::Char('O'));
    assert_eq!(e.lines, vec!["  ".to_string(), "  bc".to_string(), "  ".to_string()]);
    assert_eq!((e.cy, e.cx), (0, 2));
    e.mode = Mode::Normal;
    e.filename = Some("f".to_string());
    press(&mut e, Key::Char('n'));
    assert_eq!(e.lines, vec![String::new()]);
    assert_eq!((e.cy, e.cx, e.filename.clone()), (0, 0, None));
    assert_eq!(e.status_msg, "Created a new empty buffer.");
}

#[test]
fn hotkeys_become_commands() {
    let mut e = editor_with(&["a"]);
    e.status_msg = "old".to_string();
    assert_eq!(e.handle_key(Key::Char('s'), true), Command::Save);
    assert_eq!(e.status_msg, "");
    assert_eq!(e.handle_key(Key::Char('r'), true), Command::ReopenRecent);
    assert_eq!(e.handle_key(Key::Char('t'), true), Command::PickRecent);
    assert_eq!(e.handle_key(Key::Char('q'), true), Command::Quit);
    assert_eq!(e.handle_key(Key::Char('x'), true), Command::Continue);
    assert_eq!(e.lines[0], "");
}

#[test]
fn ctrl_chord_types_nothing_in_insert_mode() {
    let mut e = editor_with(&["a"]);
    e.mode = Mode::Insert;
    e.handle_key(Key::Char('z'), true);
    assert_eq!(e.lines[0], "a");
}

#[test]
fn cursor_past_line_end_cannot_type() {
    let mut e = editor_with(&["", "abcdef"]);
    e.cy = 1;
    e.cx = 6;
    press(&mut e, Key::Char('g'));
    assert_eq!((e.cy, e.cx), (0, 6));
    press(&mut e, Key::Char('i'));
    assert!(!e.can_handle(Key::Char('a'), false));
    assert!(!e.can_handle(Key::Enter, false));
    assert!(e.can_handle(Key::Esc, false));
    assert!(e.can_handle(Key::Char('q'), true));
}

#[test]
fn cursor_line_past_buffer_after_load() {
    let mut e = editor_with(&["a", "b", "c"]);
    e.cy = 2;
    e.load_file("short.txt", Ok("x".to_string()));
    assert!(!e.can_handle(Key::Char('x'), false));
    assert!(e.can_handle(Key::Char('g'), false));
}
