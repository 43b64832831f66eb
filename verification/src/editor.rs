use vstd::prelude::*;

use crate::config::Config;
use crate::paths::opt_view;
use crate::text::{
    chars_of, indent_len, is_white_space, leading_space_count, leading_spaces,
    lemma_indent_len_bounds, push_char, spaces, splice, spliced, string_of, views, white_space,
};

verus! {

/// The two editing modes.
#[derive(PartialEq, Eq, Structural, Clone, Copy, Debug)]
pub enum Mode {
    Normal,
    Insert,
}

/// The name of a mode on the status line.
pub open spec fn mode_label(m: Mode) -> Seq<char> {
    match m {
        Mode::Normal => "NORMAL"@,
        Mode::Insert => "INSERT"@,
    }
}

impl Mode {
    /// The name of the mode on the status line.
    pub fn label(&self) -> (r: &'static str)
        ensures
            r@ == mode_label(*self),
    {
        match self {
            Mode::Normal => "NORMAL",
            Mode::Insert => "INSERT",
        }
    }
}

/// A key the editor reacts to.
#[derive(PartialEq, Eq, Structural, Clone, Copy, Debug)]
pub enum Key {
    Char(char),
    Enter,
    Esc,
    Backspace,
    Tab,
    BackTab,
    Left,
    Right,
    Up,
    Down,
    Other,
}

/// What the surrounding loop does after a key.
#[derive(PartialEq, Eq, Structural, Clone, Copy, Debug)]
pub enum Command {
    /// Draw and read the next key.
    Continue,
    /// Reopen the most recent file of the history (Ctrl+R).
    ReopenRecent,
    /// Let the user pick a recent file (Ctrl+T).
    PickRecent,
    /// Save the buffer (Ctrl+S).
    Save,
    /// Leave the editor (Ctrl+Q).
    Quit,
}

/// The editor: a buffer of lines, a cursor, a mode and a status message.
pub struct Editor {
    pub filename: Option<String>,
    pub lines: Vec<String>,
    pub cy: usize,
    pub cx: usize,
    pub scroll_top: usize,
    pub mode: Mode,
    pub config: Config,
    pub tab_size: usize,
    pub status_msg: String,
}

/// The editor as values: the buffer is a sequence of lines of characters.
#[verifier::ext_equal]
pub struct EditorState {
    pub filename: Option<Seq<char>>,
    pub lines: Seq<Seq<char>>,
    pub cy: int,
    pub cx: int,
    pub scroll_top: int,
    pub mode: Mode,
    pub save_dir: Seq<char>,
    pub config_tab_size: int,
    pub expand_tabs: bool,
    pub tab_size: int,
    pub status: Seq<char>,
}

impl View for Editor {
    type V = EditorState;

    open spec fn view(&self) -> EditorState {
        EditorState {
            filename: opt_view(self.filename),
            lines: views(self.lines@),
            cy: self.cy as int,
            cx: self.cx as int,
            scroll_top: self.scroll_top as int,
            mode: self.mode,
            save_dir: self.config.default_save_directory@,
            config_tab_size: self.config.tab_size as int,
            expand_tabs: self.config.expand_tabs,
            tab_size: self.tab_size as int,
            status: self.status_msg@,
        }
    }
}

/// The smaller of two integers.
pub open spec fn min(a: int, b: int) -> int {
    if a <= b {
        a
    } else {
        b
    }
}

impl EditorState {
    /// The buffer has a line, and lines, line lengths and cursor stay within
    /// what memory can hold.
    pub open spec fn wf(self) -> bool {
        &&& 1 <= self.lines.len() <= isize::MAX
        &&& forall|i: int| 0 <= i < self.lines.len() ==> (#[trigger] self.lines[i]).len() <= isize::MAX
        &&& 0 <= self.cx <= isize::MAX
        &&& 0 <= self.cy <= isize::MAX
        &&& 0 <= self.scroll_top <= isize::MAX
        &&& 0 <= self.tab_size
    }

    /// The line under the cursor.
    pub open spec fn cur_line(self) -> Seq<char> {
        self.lines[self.cy]
    }

    /// The buffer with the line under the cursor replaced.
    pub open spec fn with_cur_line(self, line: Seq<char>) -> Seq<Seq<char>> {
        self.lines.update(self.cy, line)
    }
}

/// `o`: a new line below, indented as the current one; insert mode.
pub open spec fn open_below(s: EditorState) -> EditorState {
    let ind = leading_spaces(s.cur_line());
    EditorState {
        lines: s.lines.insert(s.cy + 1, ind),
        cy: s.cy + 1,
        cx: ind.len() as int,
        mode: Mode::Insert,
        ..s
    }
}

/// `O`: a new line above, indented as the current one; insert mode.
pub open spec fn open_above(s: EditorState) -> EditorState {
    let ind = leading_spaces(s.cur_line());
    EditorState { lines: s.lines.insert(s.cy, ind), cx: ind.len() as int, mode: Mode::Insert, ..s }
}

/// `h` / Left: one column left, stopping at the first.
pub open spec fn cursor_left(s: EditorState) -> EditorState {
    EditorState { cx: if s.cx > 0 { s.cx - 1 } else { 0 }, ..s }
}

/// `l` / Right: one column right, stopping after the last character.
pub open spec fn cursor_right(s: EditorState) -> EditorState {
    EditorState { cx: min(s.cur_line().len() as int, s.cx + 1), ..s }
}

/// `k` / Up: one line up, the column kept within that line.
pub open spec fn cursor_up(s: EditorState) -> EditorState {
    if s.cy > 0 {
        EditorState { cy: s.cy - 1, cx: min(s.cx, s.lines[s.cy - 1].len() as int), ..s }
    } else {
        s
    }
}

/// `j` / Down: one line down, the column kept within that line.
pub open spec fn cursor_down(s: EditorState) -> EditorState {
    if s.cy < s.lines.len() - 1 {
        EditorState { cy: s.cy + 1, cx: min(s.cx, s.lines[s.cy + 1].len() as int), ..s }
    } else {
        s
    }
}

/// `x`: the character under the cursor deleted, if there is one.
pub open spec fn delete_under_cursor(s: EditorState) -> EditorState {
    if s.cx < s.cur_line().len() {
        EditorState { lines: s.with_cur_line(s.cur_line().remove(s.cx)), ..s }
    } else {
        s
    }
}

/// The effect of a key in normal mode.
pub open spec fn normal_step(s: EditorState, key: Key) -> EditorState {
    match key {
        Key::Char(c) => if c == 'i' {
            EditorState { mode: Mode::Insert, ..s }
        } else if c == 'n' {
            EditorState {
                lines: seq![Seq::empty()],
                cy: 0,
                cx: 0,
                filename: None,
                status: "Created a new empty buffer."@,
                ..s
            }
        } else if c == 'o' {
            open_below(s)
        } else if c == 'O' {
            open_above(s)
        } else if c == 'h' {
            cursor_left(s)
        } else if c == 'l' {
            cursor_right(s)
        } else if c == 'k' {
            cursor_up(s)
        } else if c == 'j' {
            cursor_down(s)
        } else if c == 'x' {
            delete_under_cursor(s)
        } else if c == 'g' {
            EditorState { cy: 0, ..s }
        } else if c == 'G' {
            EditorState { cy: s.lines.len() - 1, ..s }
        } else {
            s
        },
        Key::Left => cursor_left(s),
        Key::Right => cursor_right(s),
        Key::Up => cursor_up(s),
        Key::Down => cursor_down(s),
        _ => s,
    }
}

/// The normal-mode keys that read the line under the cursor need it to
/// exist; a new line needs room in the buffer.
pub open spec fn normal_ok(s: EditorState, key: Key) -> bool {
    match key {
        Key::Char(c) => if c == 'o' || c == 'O' {
            s.cy < s.lines.len() && s.lines.len() < isize::MAX
        } else if c == 'l' || c == 'x' {
            s.cy < s.lines.len()
        } else if c == 'k' {
            s.cy > 0 ==> s.cy <= s.lines.len()
        } else {
            true
        },
        Key::Right => s.cy < s.lines.len(),
        Key::Up => s.cy > 0 ==> s.cy <= s.lines.len(),
        _ => true,
    }
}

/// Backspace: at a column past the start, the tab's worth of spaces before
/// the cursor goes as one step when it is all spaces (and the tab size is
/// not zero), else the one character before the cursor;
/// at the start of a line, the line joins the one above.
pub open spec fn backspace_step(s: EditorState) -> EditorState {
    if s.cx > 0 {
        let line = s.cur_line();
        if s.tab_size > 0 && s.cx >= s.tab_size && line.subrange(s.cx - s.tab_size, s.cx) == spaces(
            s.tab_size as nat,
        ) {
            EditorState {
                lines: s.with_cur_line(spliced(line, s.cx - s.tab_size, s.cx, Seq::empty())),
                cx: s.cx - s.tab_size,
                ..s
            }
        } else {
            EditorState { lines: s.with_cur_line(line.remove(s.cx - 1)), cx: s.cx - 1, ..s }
        }
    } else if s.cy > 0 {
        EditorState {
            lines: s.lines.update(s.cy - 1, s.lines[s.cy - 1] + s.lines[s.cy]).remove(s.cy),
            cy: s.cy - 1,
            cx: s.lines[s.cy - 1].len() as int,
            ..s
        }
    } else {
        s
    }
}

/// Backspace reads the line under the cursor up to the cursor; a join
/// needs the joined line to fit.
pub open spec fn backspace_ok(s: EditorState) -> bool {
    if s.cx > 0 {
        s.cy < s.lines.len() && s.cx <= s.cur_line().len()
    } else if s.cy > 0 {
        s.cy < s.lines.len() && s.lines[s.cy - 1].len() + s.lines[s.cy].len() <= isize::MAX
    } else {
        true
    }
}

/// Moving left from `i` over white space.
pub open spec fn skip_white_back(line: Seq<char>, i: int) -> int
    decreases i,
{
    if i > 0 && white_space(line[i - 1]) {
        skip_white_back(line, i - 1)
    } else {
        i
    }
}

/// Moving left from `i` over characters that are not white space.
pub open spec fn skip_word_back(line: Seq<char>, i: int) -> int
    decreases i,
{
    if i > 0 && !white_space(line[i - 1]) {
        skip_word_back(line, i - 1)
    } else {
        i
    }
}

/// Where the word behind column `end` starts: white space right before
/// `end` is passed first, then the run of other characters.
pub open spec fn word_start(line: Seq<char>, end: int) -> int {
    skip_word_back(line, skip_white_back(line, end))
}

/// Ctrl+Backspace: the word behind the cursor deleted; at the start of a
/// line, as Backspace.
pub open spec fn word_back_step(s: EditorState) -> EditorState {
    if s.cx == 0 {
        backspace_step(s)
    } else {
        let line = s.cur_line();
        let end = min(s.cx, line.len() as int);
        let start = word_start(line, end);
        EditorState { lines: s.with_cur_line(spliced(line, start, end, Seq::empty())), cx: start, ..s }
    }
}

/// Deleting a word reads the line under the cursor.
pub open spec fn word_back_ok(s: EditorState) -> bool {
    if s.cx == 0 {
        backspace_ok(s)
    } else {
        s.cy < s.lines.len()
    }
}

/// Enter: the line split at the cursor; the new line below starts with the
/// indentation of the part that stays.
pub open spec fn split_line(s: EditorState) -> EditorState {
    let line = s.cur_line();
    let left = line.take(s.cx);
    let right = line.skip(s.cx);
    let ind = leading_spaces(left);
    EditorState {
        lines: s.with_cur_line(left).insert(s.cy + 1, ind + right),
        cy: s.cy + 1,
        cx: ind.len() as int,
        ..s
    }
}

/// Tab: spaces up to the tab size, or a tab character, at the cursor.
pub open spec fn tab_step(s: EditorState) -> EditorState {
    if s.expand_tabs {
        if s.tab_size == 0 {
            s
        } else {
            EditorState {
                lines: s.with_cur_line(spliced(s.cur_line(), s.cx, s.cx, spaces(s.tab_size as nat))),
                cx: s.cx + s.tab_size,
                ..s
            }
        }
    } else {
        EditorState {
            lines: s.with_cur_line(spliced(s.cur_line(), s.cx, s.cx, seq!['\t'])),
            cx: s.cx + 1,
            ..s
        }
    }
}

/// Shift+Tab: one indentation level removed from the start of the line.
pub open spec fn back_tab_step(s: EditorState) -> EditorState {
    let line = s.cur_line();
    if line.len() >= s.tab_size && line.take(s.tab_size) == spaces(s.tab_size as nat) {
        EditorState {
            lines: s.with_cur_line(line.skip(s.tab_size)),
            cx: if s.cx >= s.tab_size { s.cx - s.tab_size } else { 0 },
            ..s
        }
    } else {
        s
    }
}

/// Whether a character is typed as text (printable ASCII).
pub open spec fn printable(c: char) -> bool {
    ' ' <= c <= '~'
}

/// Whether the key is Ctrl+Backspace, or Ctrl+H, which many terminals send
/// for it.
pub open spec fn is_word_delete(key: Key, ctrl: bool) -> bool {
    ctrl && (key == Key::Char('h') || key == Key::Char('H') || key == Key::Backspace)
}

/// The effect of a key in insert mode.
pub open spec fn insert_step(s: EditorState, key: Key, ctrl: bool) -> EditorState {
    if is_word_delete(key, ctrl) {
        word_back_step(s)
    } else {
        match key {
            Key::Esc => EditorState { mode: Mode::Normal, ..s },
            Key::Tab => tab_step(s),
            Key::BackTab => back_tab_step(s),
            Key::Enter => split_line(s),
            Key::Backspace => backspace_step(s),
            Key::Char(c) => if !ctrl && printable(c) {
                EditorState {
                    lines: s.with_cur_line(spliced(s.cur_line(), s.cx, s.cx, seq![c])),
                    cx: s.cx + 1,
                    ..s
                }
            } else {
                s
            },
            _ => s,
        }
    }
}

/// The insert-mode keys that edit at the cursor need the line under it and
/// the cursor within it; the edited line must fit.
pub open spec fn insert_ok(s: EditorState, key: Key, ctrl: bool) -> bool {
    if is_word_delete(key, ctrl) {
        word_back_ok(s)
    } else {
        match key {
            Key::Tab => s.cy < s.lines.len() && (if s.expand_tabs {
                s.tab_size == 0 || (s.cx <= s.cur_line().len() && s.cur_line().len() + s.tab_size
                    <= isize::MAX)
            } else {
                s.cx <= s.cur_line().len() && s.cur_line().len() + 1 <= isize::MAX
            }),
            Key::BackTab => s.cy < s.lines.len(),
            Key::Enter => s.cy < s.lines.len() && s.cx <= s.cur_line().len() && s.lines.len()
                < isize::MAX,
            Key::Backspace => backspace_ok(s),
            Key::Char(c) => (!ctrl && printable(c)) ==> (s.cy < s.lines.len() && s.cx
                <= s.cur_line().len() && s.cur_line().len() + 1 <= isize::MAX),
            _ => true,
        }
    }
}

/// Whether the characters from `from` to `to` are all spaces.
fn all_spaces(chars: &Vec<char>, from: usize, to: usize) -> (r: bool)
    requires
        from <= to <= chars.len(),
    ensures
        r == (chars@.subrange(from as int, to as int) == spaces((to - from) as nat)),
{
    let mut k: usize = from;
    while k < to
        invariant
            from <= k <= to <= chars.len(),
            forall|j: int| from <= j < k ==> chars@[j] == ' ',
        decreases to - k,
    {
        if chars[k] != ' ' {
            assert(chars@.subrange(from as int, to as int)[k - from] != ' ');
            return false;
        }
        k += 1;
    }
    assert(chars@.subrange(from as int, to as int) =~= spaces((to - from) as nat));
    true
}

/// The command a Control chord asks for, in any mode.
pub open spec fn hotkey(key: Key, ctrl: bool) -> Option<Command> {
    if ctrl {
        match key {
            Key::Char(c) => if c == 'r' {
                Some(Command::ReopenRecent)
            } else if c == 't' {
                Some(Command::PickRecent)
            } else if c == 's' {
                Some(Command::Save)
            } else if c == 'q' {
                Some(Command::Quit)
            } else {
                None
            },
            _ => None,
        }
    } else {
        None
    }
}

/// The effect of a key: the status message is cleared; a Control chord
/// becomes a command; any other key acts in the current mode.
pub open spec fn key_step(s: EditorState, key: Key, ctrl: bool) -> (EditorState, Command) {
    let s0 = EditorState { status: Seq::empty(), ..s };
    match hotkey(key, ctrl) {
        Some(cmd) => (s0, cmd),
        None => (
            match s.mode {
                Mode::Normal => normal_step(s0, key),
                Mode::Insert => insert_step(s0, key, ctrl),
            },
            Command::Continue,
        ),
    }
}

/// The keys the editor can act on in its state.
pub open spec fn key_ok(s: EditorState, key: Key, ctrl: bool) -> bool {
    ||| hotkey(key, ctrl) is Some
    ||| match s.mode {
        Mode::Normal => normal_ok(s, key),
        Mode::Insert => insert_ok(s, key, ctrl),
    }
}

/// The number of characters of a string.
pub fn char_count(s: &str) -> (n: usize)
    ensures
        n == s@.len(),
{
    chars_of(s).len()
}

impl Editor {
    /// The spaces that start `line`.
    pub fn get_leading_spaces(line: &str) -> (r: String)
        ensures
            r@ == leading_spaces(line@),
    {
        let chars = chars_of(line);
        let n = leading_space_count(chars.as_slice());
        proof {
            lemma_indent_len_bounds(line@);
        }
        let mut r = String::new();
        let mut i: usize = 0;
        while i < n
            invariant
                i <= n,
                n == indent_len(line@),
                n <= line@.len(),
                forall|j: int| 0 <= j < n ==> line@[j] == ' ',
                r@ == line@.take(i as int),
            decreases n - i,
        {
            push_char(&mut r, ' ');
            assert(line@.take(i as int).push(' ') == line@.take(i + 1));
            i += 1;
        }
        r
    }

    /// Replaces line `i` by the given characters.
    fn set_line(&mut self, i: usize, chars: &Vec<char>)
        requires
            i < old(self).lines.len(),
        ensures
            final(self)@ == (EditorState { lines: old(self)@.lines.update(i as int, chars@), ..old(self)@ }),
    {
        let s = string_of(chars.as_slice());
        self.lines[i] = s;
        assert(views(self.lines@) =~= views(old(self).lines@).update(i as int, chars@));
    }

    /// Acts on a key pressed in normal mode.
    pub fn handle_normal(&mut self, key: Key)
        requires
            old(self)@.wf(),
            normal_ok(old(self)@, key),
        ensures
            final(self)@ == normal_step(old(self)@, key),
            final(self)@.wf(),
    {
        let ghost s = self@;
        match key {
            Key::Char('i') => {
                self.mode = Mode::Insert;
            },
            Key::Char('n') => {
                let mut fresh: Vec<String> = Vec::new();
                fresh.push(String::new());
                self.lines = fresh;
                self.cy = 0;
                self.cx = 0;
                self.filename = None;
                self.status_msg = String::from_str("Created a new empty buffer.");
                assert(views(self.lines@) =~= seq![Seq::<char>::empty()]);
            },
            Key::Char('o') => {
                let indent = Self::get_leading_spaces(self.lines[self.cy].as_str());
                let n = char_count(indent.as_str());
                let ghost ind = indent@;
                self.lines.insert(self.cy + 1, indent);
                self.cy += 1;
                self.cx = n;
                self.mode = Mode::Insert;
                proof {
                    lemma_indent_len_bounds(s.cur_line());
                    assert(views(self.lines@) =~= s.lines.insert(s.cy + 1, ind));
                    self.lemma_lines_fit(s, s.cy + 1, ind);
                }
            },
            Key::Char('O') => {
                let indent = Self::get_leading_spaces(self.lines[self.cy].as_str());
                let n = char_count(indent.as_str());
                let ghost ind = indent@;
                self.lines.insert(self.cy, indent);
                self.cx = n;
                self.mode = Mode::Insert;
                proof {
                    lemma_indent_len_bounds(s.cur_line());
                    assert(views(self.lines@) =~= s.lines.insert(s.cy, ind));
                    self.lemma_lines_fit(s, s.cy, ind);
                }
            },
            Key::Char('h') | Key::Left => {
                if self.cx > 0 {
                    self.cx -= 1;
                }
            },
            Key::Char('l') | Key::Right => {
                let len = char_count(self.lines[self.cy].as_str());
                self.cx = if len < self.cx + 1 { len } else { self.cx + 1 };
            },
            Key::Char('k') | Key::Up => {
                if self.cy > 0 {
                    self.cy -= 1;
                    let len = char_count(self.lines[self.cy].as_str());
                    self.cx = if self.cx < len { self.cx } else { len };
                }
            },
            Key::Char('j') | Key::Down => {
                if self.cy < self.lines.len() - 1 {
                    self.cy += 1;
                    let len = char_count(self.lines[self.cy].as_str());
                    self.cx = if self.cx < len { self.cx } else { len };
                }
            },
            Key::Char('x') => {
                let mut chars = chars_of(self.lines[self.cy].as_str());
                if chars.len() > 0 && self.cx < chars.len() {
                    chars.remove(self.cx);
                    let cy = self.cy;
                    self.set_line(cy, &chars);
                }
            },
            Key::Char('g') => {
                self.cy = 0;
            },
            Key::Char('G') => {
                self.cy = self.lines.len() - 1;
            },
            _ => {},
        }
        proof {
            reveal_strlit("Created a new empty buffer.");
        }
        assert(self@ =~= normal_step(s, key));
    }

    /// Backspace: deletes the character before the cursor, or the tab's worth
    /// of spaces before it as one step, or joins the line with the one above
    /// when the cursor is at its start.
    pub fn backspace(&mut self)
        requires
            old(self)@.wf(),
            backspace_ok(old(self)@),
        ensures
            final(self)@ == backspace_step(old(self)@),
            final(self)@.wf(),
    {
        let ghost s = self@;
        if self.cx > 0 {
            let chars = chars_of(self.lines[self.cy].as_str());
            let tab = self.tab_size;
            let cx = self.cx;
            let is_block = tab > 0 && cx >= tab && all_spaces(&chars, cx - tab, cx);
            let cy = self.cy;
            if is_block {
                let none: Vec<char> = Vec::new();
                let new_chars = splice(&chars, cx - tab, cx, &none);
                self.set_line(cy, &new_chars);
                self.cx = cx - tab;
                proof { self.lemma_line_fits(s, cy as int); }
            } else {
                let mut new_chars = chars;
                new_chars.remove(cx - 1);
                self.set_line(cy, &new_chars);
                self.cx = cx - 1;
                proof { self.lemma_line_fits(s, cy as int); }
            }
        } else if self.cy > 0 {
            let prev_len = char_count(self.lines[self.cy - 1].as_str());
            let current = self.lines.remove(self.cy);
            let mut prev = self.lines[self.cy - 1].clone();
            prev.append(current.as_str());
            self.lines[self.cy - 1] = prev;
            self.cy -= 1;
            self.cx = prev_len;
            proof {
                let want = s.lines.update(s.cy - 1, s.lines[s.cy - 1] + s.lines[s.cy]).remove(s.cy);
                assert(views(self.lines@) =~= want);
                assert forall|i: int| 0 <= i < want.len() implies (#[trigger] want[i]).len()
                    <= isize::MAX by {
                    if i < s.cy - 1 {
                        assert(want[i] == s.lines[i]);
                    } else if i > s.cy - 1 {
                        assert(want[i] == s.lines[i + 1]);
                    }
                }
            }
        }
        assert(self@ =~= backspace_step(s));
    }

    /// Ctrl+Backspace: deletes the white space right before the cursor and
    /// the word before it; at the start of a line, as Backspace.
    pub fn delete_word_backward(&mut self)
        requires
            old(self)@.wf(),
            word_back_ok(old(self)@),
        ensures
            final(self)@ == word_back_step(old(self)@),
            final(self)@.wf(),
    {
        if self.cx == 0 {
            self.backspace();
            return ;
        }
        let ghost s = self@;
        let chars = chars_of(self.lines[self.cy].as_str());
        let ghost line = chars@;
        let end = if self.cx < chars.len() { self.cx } else { chars.len() };
        let mut start = end;
        while start > 0 && is_white_space(chars[start - 1])
            invariant
                start <= end <= chars.len(),
                chars@ == line,
                skip_white_back(line, start as int) == skip_white_back(line, end as int),
            decreases start,
        {
            start -= 1;
        }
        let ghost mid = start;
        assert(skip_white_back(line, end as int) == mid);
        while start > 0 && !is_white_space(chars[start - 1])
            invariant
                start <= mid <= end <= chars.len(),
                chars@ == line,
                skip_word_back(line, start as int) == skip_word_back(line, mid as int),
            decreases start,
        {
            start -= 1;
        }
        assert(word_start(line, end as int) == start);
        let none: Vec<char> = Vec::new();
        let new_chars = splice(&chars, start, end, &none);
        let cy = self.cy;
        self.set_line(cy, &new_chars);
        self.cx = start;
        proof { self.lemma_line_fits(s, cy as int); }
        assert(self@ =~= word_back_step(s));
    }

    /// Acts on a key pressed in insert mode (`ctrl` tells whether Control
    /// was held).
    pub fn handle_insert(&mut self, key: Key, ctrl: bool)
        requires
            old(self)@.wf(),
            insert_ok(old(self)@, key, ctrl),
        ensures
            final(self)@ == insert_step(old(self)@, key, ctrl),
            final(self)@.wf(),
    {
        let ghost s = self@;
        if ctrl {
            let word_delete = match key {
                Key::Char(c) => c == 'h' || c == 'H',
                Key::Backspace => true,
                _ => false,
            };
            if word_delete {
                self.delete_word_backward();
                return ;
            }
        }
        let cy = self.cy;
        match key {
            Key::Esc => {
                self.mode = Mode::Normal;
            },
            Key::Tab => self.insert_tab(),
            Key::BackTab => self.back_tab(),
            Key::Enter => self.split_at_cursor(),
            Key::Backspace => {
                self.backspace();
            },
            Key::Char(c) => {
                if !ctrl && ' ' <= c && c <= '~' {
                    self.type_char(c);
                }
            },
            _ => {},
        }
        assert(self@ =~= insert_step(s, key, ctrl));
    }

    /// Tab: the tab's worth of spaces, or a tab character, at the cursor.
    fn insert_tab(&mut self)
        requires
            old(self)@.wf(),
            insert_ok(old(self)@, Key::Tab, false),
        ensures
            final(self)@ == tab_step(old(self)@),
            final(self)@.wf(),
    {
        let ghost s = self@;
        let cy = self.cy;
        if self.config.expand_tabs {
            if self.tab_size > 0 {
                let chars = chars_of(self.lines[cy].as_str());
                let mut spaces_v: Vec<char> = Vec::new();
                let mut k: usize = 0;
                while k < self.tab_size
                    invariant
                        k <= self.tab_size,
                        spaces_v@ == spaces(k as nat),
                    decreases self.tab_size - k,
                {
                    spaces_v.push(' ');
                    assert(spaces(k as nat).push(' ') =~= spaces((k + 1) as nat));
                    k += 1;
                }
                let new_chars = splice(&chars, self.cx, self.cx, &spaces_v);
                self.set_line(cy, &new_chars);
                self.cx = self.cx + self.tab_size;
                proof { self.lemma_line_fits(s, cy as int); }
            }
        } else {
            let chars = chars_of(self.lines[cy].as_str());
            let mut tab_v: Vec<char> = Vec::new();
            tab_v.push('\t');
            let new_chars = splice(&chars, self.cx, self.cx, &tab_v);
            self.set_line(cy, &new_chars);
            self.cx = self.cx + 1;
            proof { self.lemma_line_fits(s, cy as int); }
        }
        assert(self@ =~= tab_step(s));
    }

    /// Shift+Tab: one indentation level off the start of the line.
    fn back_tab(&mut self)
        requires
            old(self)@.wf(),
            old(self)@.cy < old(self)@.lines.len(),
        ensures
            final(self)@ == back_tab_step(old(self)@),
            final(self)@.wf(),
    {
        let ghost s = self@;
        let cy = self.cy;
        let chars = chars_of(self.lines[cy].as_str());
        let tab = self.tab_size;
        let starts = chars.len() >= tab && all_spaces(&chars, 0, tab);
        proof {
            if chars.len() >= tab {
                assert(chars@.subrange(0, tab as int) == chars@.take(tab as int));
            }
        }
        if starts {
            let none: Vec<char> = Vec::new();
            let new_chars = splice(&chars, 0, tab, &none);
            assert(new_chars@ =~= chars@.skip(tab as int));
            self.set_line(cy, &new_chars);
            self.cx = if self.cx >= tab { self.cx - tab } else { 0 };
            proof { self.lemma_line_fits(s, cy as int); }
        }
        assert(self@ =~= back_tab_step(s));
    }

    /// Enter: splits the line at the cursor, indenting the new line as the
    /// part that stays.
    fn split_at_cursor(&mut self)
        requires
            old(self)@.wf(),
            insert_ok(old(self)@, Key::Enter, false),
        ensures
            final(self)@ == split_line(old(self)@),
            final(self)@.wf(),
    {
        let ghost s = self@;
        let cy = self.cy;
        let chars = chars_of(self.lines[cy].as_str());
        let none: Vec<char> = Vec::new();
        let left_v = splice(&chars, self.cx, chars.len(), &none);
        let right_v = splice(&chars, 0, self.cx, &none);
        assert(left_v@ =~= chars@.take(self.cx as int));
        assert(right_v@ =~= chars@.skip(self.cx as int));
        let left = string_of(left_v.as_slice());
        let indent = Self::get_leading_spaces(left.as_str());
        let n = char_count(indent.as_str());
        let mut below = indent;
        let right = string_of(right_v.as_slice());
        below.append(right.as_str());
        let ghost below_v = below@;
        self.lines[cy] = left;
        self.lines.insert(cy + 1, below);
        self.cy = cy + 1;
        self.cx = n;
        proof {
            lemma_indent_len_bounds(left_v@);
            let want = s.with_cur_line(left_v@).insert(s.cy + 1, below_v);
            assert(views(self.lines@) =~= want);
            assert forall|i: int| 0 <= i < want.len() implies (#[trigger] want[i]).len()
                <= isize::MAX by {
                if i < s.cy {
                    assert(want[i] == s.lines[i]);
                } else if i > s.cy + 1 {
                    assert(want[i] == s.lines[i - 1]);
                }
            }
        }
        assert(self@ =~= split_line(s));
    }

    /// Types a printable character at the cursor.
    fn type_char(&mut self, c: char)
        requires
            old(self)@.wf(),
            printable(c),
            insert_ok(old(self)@, Key::Char(c), false),
        ensures
            final(self)@ == insert_step(old(self)@, Key::Char(c), false),
            final(self)@.wf(),
    {
        let ghost s = self@;
        let cy = self.cy;
        let mut chars = chars_of(self.lines[cy].as_str());
        chars.insert(self.cx, c);
        assert(chars@ =~= spliced(s.cur_line(), s.cx, s.cx, seq![c]));
        self.set_line(cy, &chars);
        self.cx = self.cx + 1;
        proof { self.lemma_line_fits(s, cy as int); }
        assert(self@ =~= insert_step(s, Key::Char(c), false));
    }

    /// Acts on a key (`ctrl` tells whether Control was held) and tells the
    /// surrounding loop what to do next.
    pub fn handle_key(&mut self, key: Key, ctrl: bool) -> (cmd: Command)
        requires
            old(self)@.wf(),
            key_ok(old(self)@, key, ctrl),
        ensures
            (final(self)@, cmd) == key_step(old(self)@, key, ctrl),
            final(self)@.wf(),
    {
        self.status_msg = String::new();
        if ctrl {
            if let Key::Char(c) = key {
                if c == 'r' {
                    return Command::ReopenRecent;
                } else if c == 't' {
                    return Command::PickRecent;
                } else if c == 's' {
                    return Command::Save;
                } else if c == 'q' {
                    return Command::Quit;
                }
            }
        }
        match self.mode {
            Mode::Normal => self.handle_normal(key),
            Mode::Insert => self.handle_insert(key, ctrl),
        }
        Command::Continue
    }

    /// Whether the editor can act on the key in its present state; where it
    /// cannot, the key would index past the buffer or the edited line would
    /// not fit in memory.
    pub fn can_handle(&self, key: Key, ctrl: bool) -> (r: bool)
        requires
            self@.wf(),
        ensures
            r == key_ok(self@, key, ctrl),
    {
        if ctrl {
            if let Key::Char(c) = key {
                if c == 'r' || c == 't' || c == 's' || c == 'q' {
                    return true;
                }
            }
        }
        let n = self.lines.len();
        let has_line = self.cy < n;
        let cur_len: usize = if has_line { char_count(self.lines[self.cy].as_str()) } else { 0 };
        let max: usize = isize::MAX as usize;
        proof {
            if has_line {
                assert(self@.lines[self.cy as int].len() <= isize::MAX);
            }
        }
        let cx_in = has_line && self.cx <= cur_len;
        let backspace_fine = if self.cx > 0 {
            cx_in
        } else if self.cy > 0 {
            has_line && char_count(self.lines[self.cy - 1].as_str()) <= max - cur_len
        } else {
            true
        };
        match self.mode {
            Mode::Normal => match key {
                Key::Char(c) => if c == 'o' || c == 'O' {
                    has_line && n < max
                } else if c == 'l' || c == 'x' {
                    has_line
                } else if c == 'k' {
                    !(self.cy > 0) || self.cy <= n
                } else {
                    true
                },
                Key::Right => has_line,
                Key::Up => !(self.cy > 0) || self.cy <= n,
                _ => true,
            },
            Mode::Insert => {
                if ctrl {
                    let word_delete = match key {
                        Key::Char(c) => c == 'h' || c == 'H',
                        Key::Backspace => true,
                        _ => false,
                    };
                    if word_delete {
                        return if self.cx == 0 { backspace_fine } else { has_line };
                    }
                }
                match key {
                    Key::Tab => has_line && (if self.config.expand_tabs {
                        self.tab_size == 0 || (cx_in && self.tab_size <= max && cur_len <= max - self.tab_size)
                    } else {
                        cx_in && cur_len < max
                    }),
                    Key::BackTab => has_line,
                    Key::Enter => cx_in && n < max,
                    Key::Backspace => backspace_fine,
                    Key::Char(c) => !(!ctrl && ' ' <= c && c <= '~') || (cx_in && cur_len < max),
                    _ => true,
                }
            },
        }
    }

    /// After the line `i` of `s` was replaced by one that fits, the buffer
    /// still fits.
    proof fn lemma_line_fits(&self, s: EditorState, i: int)
        requires
            s.wf(),
            0 <= i < s.lines.len(),
            self@.lines == s.lines.update(i, self@.lines[i]),
            self@.lines[i].len() <= isize::MAX,
        ensures
            forall|j: int| 0 <= j < self@.lines.len() ==> (#[trigger] self@.lines[j]).len() <= isize::MAX,
    {
        assert forall|j: int| 0 <= j < self@.lines.len() implies (#[trigger] self@.lines[j]).len()
            <= isize::MAX by {
            if j != i {
                assert(self@.lines[j] == s.lines[j]);
            }
        }
    }

    /// After inserting a line no longer than a line of `s`, every line still fits.
    proof fn lemma_lines_fit(&self, s: EditorState, at: int, new_line: Seq<char>)
        requires
            s.wf(),
            0 <= at <= s.lines.len(),
            new_line.len() <= isize::MAX,
            self@.lines == s.lines.insert(at, new_line),
        ensures
            forall|i: int| 0 <= i < self@.lines.len() ==> (#[trigger] self@.lines[i]).len() <= isize::MAX,
    {
        assert forall|i: int| 0 <= i < self@.lines.len() implies (#[trigger] self@.lines[i]).len()
            <= isize::MAX by {
            if i < at {
                assert(self@.lines[i] == s.lines[i]);
            } else if i > at {
                assert(self@.lines[i] == s.lines[i - 1]);
            }
        }
    }
}

} // verus!
