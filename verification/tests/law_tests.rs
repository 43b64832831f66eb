use luminousity::config::Config;
use luminousity::editor::{Editor, Key, Mode};

fn editor_with(lines: &[&str]) -> Editor {
    let cfg = Config { default_save_directory: "/save".to_string(), tab_size: 4, expand_tabs: true };
    let mut e = Editor::new(cfg, None, None);
    e.lines = lines.iter().map(|s| s.to_string()).collect();
    e.mode = Mode::Insert;
    e
}

#[test]
fn typing_then_backspace_restores() {
    let mut e = editor_with(&["abc def"]);
    e.cx = 3;
    e.handle_key(Key::Char('x'), false);
    assert_eq!(e.lines[0], "abcx def");
    e.handle_key(Key::Backspace, false);
    assert_eq!(e.lines[0], "abc def");
    assert_eq!(e.cx, 3);
}

#[test]
fn tab_then_backspace_restores() {
    let mut e = editor_with(&["ab"]);
    e.cx = 1;
    e.handle_key(Key::Tab, false);
    assert_eq!(e.lines[0], "a    b");
    e.handle_key(Key::Backspace, false);
    assert_eq!(e.lines[0], "ab");
    assert_eq!(e.cx, 1);
}

#[test]
fn tab_then_back_tab_at_line_start_restores() {
    let mut e = editor_with(&["  x"]);
    e.handle_key(Key::Tab, false);
    e.handle_key(Key::BackTab, false);
    assert_eq!(e.lines[0], "  x");
    assert_eq!(e.cx, 0);
}

#[test]
fn enter_then_backspace_restores() {
    let mut e = editor_with(&["hello world", "next"]);
    e.cx = 5;
    e.handle_key(Key::Enter, false);
    assert_eq!(e.lines, vec!["hello".to_string(), " world".to_string(), "next".to_string()]);
    e.handle_key(Key::Backspace, false);
    assert_eq!(e.lines, vec!["hello world".to_string(), "next".to_string()]);
    assert_eq!((e.cy, e.cx), (0, 5));
}

#[test]
fn insert_then_escape_returns() {
    let mut e = editor_with(&["a"]);
    e.mode = Mode::Normal;
    e.handle_key(Key::Char('i'), false);
    e.handle_key(Key::Esc, false);
    assert_eq!(e.mode, Mode::Normal);
    assert_eq!(e.lines[0], "a");
}

#[test]
fn editing_never_puts_a_newline_in_a_line() {
    let mut e = editor_with(&["ab", "cd"]);
    e.cx = 1;
    for key in [Key::Enter, Key::Char('x'), Key::Tab, Key::Backspace, Key::Backspace, Key::Backspace] {
        assert!(e.can_handle(key, false));
        e.handle_key(key, false);
        assert!(e.lines.iter().all(|l| !l.contains('\n')));
    }
    e.load_file("f", Ok("one\ntwo\r\n\nthree".to_string()));
    assert!(e.lines.iter().all(|l| !l.contains('\n')));
    assert_eq!(e.lines.len(), 4);
}

#[test]
fn insert_keys_keep_cursor_within_line() {
    let keys = [
        Key::Char('a'), Key::Tab, Key::Enter, Key::Backspace, Key::BackTab, Key::Left, Key::Char('b'),
        Key::Enter, Key::Backspace, Key::Backspace, Key::Backspace, Key::Backspace, Key::Esc,
    ];
    let mut e = editor_with(&["  x y", "z"]);
    e.cx = 3;
    for key in keys {
        for ctrl in [false, true] {
            if matches!(key, Key::Char('q') | Key::Char('r') | Key::Char('s') | Key::Char('t')) && ctrl {
                continue;
            }
            let mut f = editor_with(&[]);
            f.lines = e.lines.clone();
            f.cy = e.cy;
            f.cx = e.cx;
            assert!(f.can_handle(key, ctrl));
            f.handle_key(key, ctrl);
            assert!(f.cy < f.lines.len());
            assert!(f.cx <= f.lines[f.cy].chars().count());
        }
        e.handle_key(key, false);
        e.mode = Mode::Insert;
        assert!(e.cy < e.lines.len() && e.cx <= e.lines[e.cy].chars().count());
    }
}
