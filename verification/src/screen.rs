use vstd::prelude::*;
use vstd::string::StringExecFns;

use crate::editor::{mode_label, Editor, EditorState};
use crate::text::{
    decimal, expand_tabs, expanded, expanded_fits, pad_right, padded, push_decimal, push_spaces, right_aligned,
    spaces, truncate,
};

verus! {

/// One line of text on the screen.
pub struct ScreenRow {
    /// The screen row.
    pub y: usize,
    /// The line number, right-aligned, then a space.
    pub number: String,
    /// The line with its tabs expanded, cut to the screen width.
    pub text: String,
}

/// What the screen shows: the visible lines, the status line, the message
/// line and where the cursor goes.
pub struct Frame {
    pub rows: Vec<ScreenRow>,
    pub status_row: usize,
    pub status: String,
    pub message_row: usize,
    pub message: String,
    pub cursor_x: usize,
    pub cursor_y: usize,
}

/// `a - b`, or 0 when `b` is larger.
pub open spec fn sat_sub(a: int, b: int) -> int {
    if a >= b {
        a - b
    } else {
        0
    }
}

/// The first `n` characters of `s` (all of it when shorter).
pub open spec fn first_chars(s: Seq<char>, n: int) -> Seq<char> {
    s.take(if n < s.len() { n } else { s.len() as int })
}

/// The first line shown, moved just enough to keep line `cy` among the
/// `rows` lines shown.
pub open spec fn scrolled(top: int, cy: int, rows: int) -> int {
    if cy < top {
        cy
    } else if cy >= top + rows {
        cy + 1 - rows
    } else {
        top
    }
}

/// The line number as shown: right-aligned in three columns, then a space.
pub open spec fn line_number(n: nat) -> Seq<char> {
    right_aligned(decimal(n), 3) + seq![' ']
}

/// A line number as shown is its decimal digits followed by one space,
/// with spaces before them to fill three columns when shorter.
pub proof fn lemma_line_number_layout(n: nat)
    ensures
        ({
            let l = line_number(n);
            let d = decimal(n);
            let pad = if d.len() < 3 { 3 - d.len() } else { 0 };
            &&& l.len() == pad + d.len() + 1
            &&& l.last() == ' '
            &&& l.subrange(pad, pad + d.len()) == d
            &&& forall|k: int| 0 <= k < pad ==> #[trigger] l[k] == ' '
        }),
{
    let l = line_number(n);
    let d = decimal(n);
    let pad: int = if d.len() < 3 { 3 - d.len() } else { 0 };
    assert(l.subrange(pad, pad + d.len()) =~= d);
}

/// The text of the status line.
pub open spec fn status_text(s: EditorState) -> Seq<char> {
    let file = match s.filename {
        Some(f) => f,
        None => "[New Buffer]"@,
    };
    " LUMINOUSITY | "@ + mode_label(s.mode) + " | "@ + file + " | Ln "@ + decimal((s.cy + 1) as nat)
        + ", Col "@ + decimal((s.cx + 1) as nat) + " "@
}

/// How many lines are shown from the first shown line `top`.
pub open spec fn shown_count(s: EditorState, top: int, rows: int) -> int {
    if top >= s.lines.len() {
        0
    } else if s.lines.len() - top < rows {
        s.lines.len() - top
    } else {
        rows
    }
}

/// The lines shown can be drawn: a tab needs a positive tab size, and the
/// expanded line must fit in memory.
pub open spec fn drawable(s: EditorState, height: int) -> bool {
    let rows = sat_sub(height, 2);
    let top = scrolled(s.scroll_top, s.cy, rows);
    forall|i: int|
        top <= i < top + shown_count(s, top, rows) ==> {
            &&& (s.tab_size > 0 || !(#[trigger] s.lines[i]).contains('\t'))
            &&& expanded(s.lines[i], s.tab_size as nat).len() <= usize::MAX
        }
}

/// Whether a line holds a tab character.
fn contains_tab(line: &str) -> (r: bool)
    ensures
        r == line@.contains('\t'),
{
    let chars = crate::text::chars_of(line);
    let mut i: usize = 0;
    while i < chars.len()
        invariant
            i <= chars.len(),
            chars@ == line@,
            forall|j: int| 0 <= j < i ==> line@[j] != '\t',
        decreases chars.len() - i,
    {
        if chars[i] == '\t' {
            return true;
        }
        i += 1;
    }
    false
}

/// The line number `n` as shown.
pub fn line_number_text(n: usize) -> (r: String)
    ensures
        r@ == line_number(n as nat),
{
    let mut digits = String::new();
    push_decimal(&mut digits, n);
    let len = crate::editor::char_count(digits.as_str());
    let mut r = String::new();
    if len < 3 {
        push_spaces(&mut r, 3 - len);
    }
    r.append(digits.as_str());
    r.append(" ");
    proof {
        reveal_strlit(" ");
        assert(Seq::<char>::empty() + decimal(n as nat) == decimal(n as nat));
        if len < 3 {
            assert(spaces((3 - len) as nat) == spaces((3 - decimal(n as nat).len()) as nat));
        }
    }
    r
}

impl Editor {
    /// The text of the status line.
    pub fn status_line(&self) -> (r: String)
        requires
            self@.wf(),
        ensures
            r@ == status_text(self@),
    {
        let mut r = String::from_str(" LUMINOUSITY | ");
        r.append(self.mode.label());
        r.append(" | ");
        match &self.filename {
            Some(f) => r.append(f.as_str()),
            None => r.append("[New Buffer]"),
        }
        r.append(" | Ln ");
        push_decimal(&mut r, self.cy + 1);
        r.append(", Col ");
        push_decimal(&mut r, self.cx + 1);
        r.append(" ");
        r
    }

    /// Whether the screen can be laid out for a terminal `height` rows high:
    /// with no text row, the cursor line must be above the first shown line;
    /// each shown line with a tab needs a positive tab size, and must fit in
    /// memory once expanded.
    pub fn can_draw(&self, height: u16) -> (r: bool)
        requires
            self@.wf(),
        ensures
            r == ((height >= 3 || self@.cy < self@.scroll_top) && drawable(self@, height as int)),
    {
        let ghost s = self@;
        let h = height as usize;
        let text_rows: usize = if h >= 2 { h - 2 } else { 0 };
        if !(h >= 3 || self.cy < self.scroll_top) {
            return false;
        }
        let top: usize = if self.cy < self.scroll_top {
            self.cy
        } else if self.cy >= self.scroll_top + text_rows {
            self.cy + 1 - text_rows
        } else {
            self.scroll_top
        };
        let ghost count = shown_count(s, top as int, text_rows as int);
        let mut idx: usize = 0;
        while idx < text_rows && top + idx < self.lines.len()
            invariant
                self@ == s,
                s.wf(),
                top == scrolled(s.scroll_top, s.cy, text_rows as int),
                top <= isize::MAX,
                text_rows <= u16::MAX,
                text_rows == sat_sub(height as int, 2),
                count == shown_count(s, top as int, text_rows as int),
                idx <= count,
                forall|i: int|
                    top <= i < top + idx ==> {
                        &&& (s.tab_size > 0 || !(#[trigger] s.lines[i]).contains('\t'))
                        &&& expanded(s.lines[i], s.tab_size as nat).len() <= usize::MAX
                    },
            decreases text_rows - idx,
        {
            let line_idx = top + idx;
            assert(self.lines@[line_idx as int]@ == s.lines[line_idx as int]);
            let line = self.lines[line_idx].as_str();
            if self.tab_size == 0 && contains_tab(line) {
                return false;
            }
            if !expanded_fits(line, self.tab_size, usize::MAX) {
                return false;
            }
            idx += 1;
        }
        true
    }

    /// Lays out the screen for a terminal of `width` by `height` cells,
    /// first scrolling so that the cursor line is shown.
    pub fn frame(&mut self, width: u16, height: u16) -> (f: Frame)
        requires
            old(self)@.wf(),
            height >= 3 || old(self)@.cy < old(self)@.scroll_top,
            drawable(old(self)@, height as int),
        ensures
            ({
                let s = old(self)@;
                let rows = sat_sub(height as int, 2);
                let top = scrolled(s.scroll_top, s.cy, rows);
                let t = EditorState { scroll_top: top, ..s };
                let w = sat_sub(width as int, 1);
                &&& final(self)@ == t
                &&& f.rows@.len() == shown_count(s, top, rows)
                &&& forall|k: int| 0 <= k < f.rows@.len() ==> {
                    &&& (#[trigger] f.rows@[k]).y == k
                    &&& f.rows@[k].number@ == line_number((top + k + 1) as nat)
                    &&& f.rows@[k].text@ == first_chars(
                        expanded(s.lines[top + k], s.tab_size as nat),
                        sat_sub(width as int, 5),
                    )
                }
                &&& f.status_row == rows
                &&& f.status@ == padded(first_chars(status_text(t), w), w as nat)
                &&& f.message_row == sat_sub(height as int, 1)
                &&& f.message@ == first_chars(s.status, w)
                &&& f.cursor_y == s.cy - top
                &&& f.cursor_x == (if s.cx + 4 < w { s.cx + 4 } else { w })
            }),
            final(self)@.wf(),
    {
        let ghost s = self@;
        let width = width as usize;
        let height = height as usize;
        let text_rows: usize = if height >= 2 { height - 2 } else { 0 };
        if self.cy < self.scroll_top {
            self.scroll_top = self.cy;
        } else if self.cy >= self.scroll_top + text_rows {
            self.scroll_top = self.cy + 1 - text_rows;
        }
        let top = self.scroll_top;
        let ghost count = shown_count(s, top as int, text_rows as int);
        let mut rows: Vec<ScreenRow> = Vec::new();
        let avail: usize = if width >= 5 { width - 5 } else { 0 };
        let mut idx: usize = 0;
        while idx < text_rows && top + idx < self.lines.len()
            invariant
                self@ == (EditorState { scroll_top: top as int, ..s }),
                s.wf(),
                top == scrolled(s.scroll_top, s.cy, text_rows as int),
                top <= isize::MAX,
                text_rows <= u16::MAX,
                drawable(s, height as int),
                text_rows == sat_sub(height as int, 2),
                count == shown_count(s, top as int, text_rows as int),
                idx <= text_rows,
                idx <= count,
                rows@.len() == idx,
                forall|k: int| 0 <= k < idx ==> {
                    &&& (#[trigger] rows@[k]).y == k
                    &&& rows@[k].number@ == line_number((top + k + 1) as nat)
                    &&& rows@[k].text@ == first_chars(
                        expanded(s.lines[top + k], s.tab_size as nat),
                        avail as int,
                    )
                },
            decreases text_rows - idx,
        {
            let line_idx = top + idx;
            assert(top <= line_idx < top + count);
            assert(s.tab_size > 0 || !s.lines[line_idx as int].contains('\t'));
            assert(self.lines@[line_idx as int]@ == s.lines[line_idx as int]);
            let shown = expand_tabs(self.lines[line_idx].as_str(), self.tab_size);
            let text = truncate(shown.as_str(), avail);
            let number = line_number_text(line_idx + 1);
            rows.push(ScreenRow { y: idx, number, text });
            idx += 1;
        }
        let status_width: usize = if width >= 1 { width - 1 } else { 0 };
        let status_full = self.status_line();
        let status = pad_right(truncate(status_full.as_str(), status_width).as_str(), status_width);
        let message = truncate(self.status_msg.as_str(), status_width);
        let cursor_y = self.cy - top;
        let cursor_x = if self.cx + 4 < status_width { self.cx + 4 } else { status_width };
        Frame {
            rows,
            status_row: text_rows,
            status,
            message_row: if height >= 1 { height - 1 } else { 0 },
            message,
            cursor_x,
            cursor_y,
        }
    }
}

} // verus!
