use luminousity::config::Config;
use luminousity::editor::{Editor, Key, Mode};
use luminousity::files::SavePlan;
use luminousity::picker::{PickerStep, RecentPicker};
use luminousity::prompt::{Prompt, PromptStep};
use luminousity::screen::line_number_text;

fn editor_with(lines: &[&str]) -> Editor {
    let cfg = Config { default_save_directory: "/save".to_string(), tab_size: 4, expand_tabs: true };
    let mut e = Editor::new(cfg, None, None);
    e.lines = lines.iter().map(|s| s.to_string()).collect();
    e
}

#[test]
fn save_plan_and_names() {
    let mut e = editor_with(&["a", "b"]);
    match e.save_plan() {
        SavePlan::Ask { save_dir, prompt } => {
            assert_eq!(save_dir, "/save");
            assert_eq!(prompt, "Save file in [/save]: ");
        }
        SavePlan::Write(_) => panic!("expected a prompt"),
    }
    assert_eq!(e.choose_save_name("/save", ""), None);
    assert_eq!(e.status_msg, "Save cancelled.");
    assert_eq!(e.choose_save_name("/save", "x.txt"), Some("/save/x.txt".to_string()));
    assert_eq!(e.filename, Some("/save/x.txt".to_string()));
    match e.save_plan() {
        SavePlan::Write(t) => assert_eq!(t, "/save/x.txt"),
        SavePlan::Ask { .. } => panic!("expected the current file"),
    }
    assert_eq!(e.buffer_text(), "a\nb");
    e.finish_save("/save/x.txt", None);
    assert_eq!(e.status_msg, "Successfully saved: /save/x.txt");
    e.finish_save("/save/x.txt", Some("denied".to_string()));
    assert_eq!(e.status_msg, "Error saving file: denied");
}

#[test]
fn save_then_open_gives_same_lines() {
    let mut e = editor_with(&["fn main() {", "", "    x();", "}"]);
    let text = e.buffer_text();
    let before = e.lines.clone();
    e.load_file("f.rs", Ok(text));
    assert_eq!(e.lines, before);
    let mut e = editor_with(&[""]);
    let text = e.buffer_text();
    e.load_file("f.rs", Ok(text));
    assert_eq!(e.lines, vec![String::new()]);
}

#[test]
fn reopen_and_pick_recent() {
    let mut e = editor_with(&["a"]);
    assert_eq!(e.recent_to_reopen(&Vec::new()), None);
    assert_eq!(e.status_msg, "No recent file history.");
    assert_eq!(e.recent_to_reopen(&vec!["/x".to_string(), "/y".to_string()]), Some("/x".to_string()));
    assert!(!e.can_pick_recent(0));
    assert_eq!(e.status_msg, "No recent files found.");
    assert!(e.can_pick_recent(3));
}

#[test]
fn line_numbers_right_aligned() {
    assert_eq!(line_number_text(1), "  1 ");
    assert_eq!(line_number_text(42), " 42 ");
    assert_eq!(line_number_text(1234), "1234 ");
    for n in [0usize, 9, 10, 99, 100, 999, 1000, 65535] {
        assert_eq!(line_number_text(n), format!("{:>3} ", n));
    }
}

#[test]
fn frame_scrolls_and_lays_out() {
    let lines: Vec<String> = (0..10).map(|i| format!("line\t{i}")).collect();
    let mut e = editor_with(&[]);
    e.lines = lines;
    e.cy = 7;
    e.cx = 2;
    e.filename = Some("f.txt".to_string());
    e.status_msg = "hello".to_string();
    let f = e.frame(20, 6);
    assert_eq!(e.scroll_top, 4);
    assert_eq!(f.rows.len(), 4);
    assert_eq!(f.rows[0].y, 0);
    assert_eq!(f.rows[0].number, "  5 ");
    assert_eq!(f.rows[0].text, "line    4");
    assert_eq!(f.cursor_y, 3);
    assert_eq!(f.cursor_x, 6);
    assert_eq!(f.status_row, 4);
    assert_eq!(f.message_row, 5);
    assert_eq!(f.message, "hello");
    let full = " LUMINOUSITY | NORMAL | f.txt | Ln 8, Col 3 ";
    assert_eq!(e.status_line(), full);
    assert_eq!(f.status, full.chars().take(19).collect::<String>());
    e.cy = 1;
    let f = e.frame(80, 6);
    assert_eq!(e.scroll_top, 1);
    assert_eq!(f.rows[0].number, "  2 ");
    assert_eq!(f.status.chars().count(), 79);
    assert!(f.status.starts_with(" LUMINOUSITY | NORMAL | f.txt | Ln 2, Col 3 "));
}

#[test]
fn frame_of_new_buffer() {
    let mut e = editor_with(&["abc"]);
    e.mode = Mode::Insert;
    let f = e.frame(40, 10);
    assert_eq!(f.rows.len(), 1);
    assert_eq!(e.status_line(), " LUMINOUSITY | INSERT | [New Buffer] | Ln 1, Col 1 ");
    assert_eq!(f.message, "Welcome to Luminousity | Press 'i' to E");
    assert_eq!(f.message.chars().count(), 39);
}

#[test]
fn picker_moves_and_wraps() {
    let mut p = RecentPicker::new(3);
    assert_eq!((p.idx, p.max_items), (0, 3));
    assert_eq!(p.step(Key::Up), PickerStep::Stay);
    assert_eq!(p.idx, 2);
    p.step(Key::Char('j'));
    assert_eq!(p.idx, 0);
    p.step(Key::Down);
    p.step(Key::Char('k'));
    assert_eq!(p.idx, 0);
    p.step(Key::Down);
    assert_eq!(p.step(Key::Enter), PickerStep::Open(1));
    assert_eq!(p.step(Key::Esc), PickerStep::Cancel);
    assert_eq!(p.step(Key::Char('x')), PickerStep::Stay);
    assert_eq!(RecentPicker::new(25).max_items, 10);
}

#[test]
fn picker_draws_window_and_entries() {
    let history: Vec<String> = vec!["/home/u/a.txt".to_string(), "/b".to_string()];
    let mut p = RecentPicker::new(history.len());
    p.step(Key::Down);
    let d = p.draw(&history, 20, 8);
    assert_eq!(d.len(), 6 + 1 + 2);
    assert_eq!(d[0].text, "+--------------+");
    assert_eq!((d[0].x, d[0].y), (2, 2));
    assert_eq!(d[1].text, "|              |");
    assert_eq!(d[5].text, "+--------------+");
    assert_eq!(d[6].text, "Luminousity Recent Files");
    assert_eq!((d[6].x, d[6].y), (4, 2));
    assert_eq!(d[7].text, "  /home/u/");
    assert!(!d[7].highlighted);
    assert_eq!(d[8].text, "> /b");
    assert!(d[8].highlighted);
    assert_eq!((d[8].x, d[8].y), (4, 4));
    let small = p.draw(&history, 5, 2);
    assert_eq!(small.len(), 3 + 1 + 2);
    assert_eq!(small[0].text, "+--------+");
}

#[test]
fn prompt_edits_and_answers() {
    let mut p = Prompt::new("Name: ".to_string());
    for c in "  ab".chars() {
        assert!(matches!(p.step(Key::Char(c)), PromptStep::Editing));
    }
    p.step(Key::Backspace);
    assert_eq!(p.input, "  a");
    p.step(Key::Char('c'));
    p.step(Key::Left);
    assert_eq!(p.display(12), "Name:   ac ");
    assert_eq!(p.cursor_col(), 10);
    match p.step(Key::Enter) {
        PromptStep::Done(a) => assert_eq!(a, "ac"),
        PromptStep::Editing => panic!("expected an answer"),
    }
    match p.step(Key::Esc) {
        PromptStep::Done(a) => assert_eq!(a, ""),
        PromptStep::Editing => panic!("expected an answer"),
    }
    assert_eq!(p.input, "");
    p.step(Key::Backspace);
    assert_eq!(p.input, "");
}
