use vstd::prelude::*;

use crate::editor::{
    backspace_step, insert_step, key_ok, key_step, normal_step, printable, word_back_step,
    EditorState, Key, Mode,
};
use crate::files::{buffer_lines, loaded};
use crate::text::{
    joined, lemma_split_nonempty, lemma_text_lines_of_joined, spaces, spliced, split_at_newlines,
    text_lines, without_cr,
};

verus! {

/// Saving the buffer and opening the saved text again gives the same lines,
/// when no line holds a newline (as every key keeps it, and as any opened
/// file gives), no line but the last ends in a carriage return, and the last
/// line is not empty unless it is the only one.
pub proof fn lemma_save_then_open(s: EditorState, t: EditorState, name: Seq<char>)
    requires
        s.wf(),
        newline_free(s.lines),
        forall|i: int| 0 <= i < s.lines.len() - 1 ==> without_cr(#[trigger] s.lines[i]) == s.lines[i],
        s.lines.last().len() > 0 || s.lines.len() == 1,
    ensures
        loaded(t, name, Ok(joined(s.lines))).lines == s.lines,
        loaded(t, name, Ok(joined(s.lines))).filename == Some(name),
{
    assert forall|i: int| 0 <= i < s.lines.len() implies !(#[trigger] s.lines[i]).contains('\n') by {
        if s.lines[i].contains('\n') {
            let k = choose|k: int| 0 <= k < s.lines[i].len() && s.lines[i][k] == '\n';
            assert(s.lines[i][k] != '\n');
        }
    }
    if s.lines.last().len() > 0 {
        lemma_text_lines_of_joined(s.lines);
    } else {
        assert(s.lines[0] =~= Seq::<char>::empty());
        assert(s.lines =~= seq![Seq::<char>::empty()]);
        assert(joined(s.lines) == Seq::<char>::empty());
        lemma_split_nonempty(Seq::<char>::empty());
        assert(split_at_newlines(Seq::<char>::empty()) == seq![Seq::<char>::empty()]);
        assert(text_lines(Seq::<char>::empty()) =~= Seq::<Seq<char>>::empty());
        assert(buffer_lines(Seq::<char>::empty()) == s.lines);
    }
}

/// In insert mode, typing a character other than a space and then pressing
/// Backspace gives back the buffer and cursor (with a tab size of at least one).
pub proof fn lemma_type_then_backspace(s: EditorState, c: char)
    requires
        s.wf(),
        s.cy < s.lines.len(),
        s.cx <= s.cur_line().len(),
        printable(c),
        c != ' ',
        s.tab_size >= 1,
    ensures
        insert_step(insert_step(s, Key::Char(c), false), Key::Backspace, false) == s,
{
    let t = insert_step(s, Key::Char(c), false);
    let line = s.cur_line();
    let nl = spliced(line, s.cx, s.cx, seq![c]);
    assert(t.cur_line() == nl);
    assert(nl[s.cx] == c);
    if t.cx >= t.tab_size {
        assert(nl.subrange(t.cx - t.tab_size, t.cx)[t.tab_size - 1] == c);
        assert(nl.subrange(t.cx - t.tab_size, t.cx) != spaces(t.tab_size as nat));
    }
    assert(nl.remove(s.cx) =~= line);
    assert(s.lines.update(s.cy, line) =~= s.lines);
    assert(insert_step(t, Key::Backspace, false) =~= s);
}

proof fn lemma_insert_then_cut(line: Seq<char>, at: int, ins: Seq<char>)
    requires
        0 <= at <= line.len(),
    ensures
        spliced(line, at, at, ins).subrange(at, at + ins.len()) == ins,
        spliced(spliced(line, at, at, ins), at, at + ins.len(), Seq::empty()) == line,
        spliced(line, at, at, ins).len() == line.len() + ins.len(),
{
    let nl = spliced(line, at, at, ins);
    assert(nl.subrange(at, at + ins.len()) =~= ins);
    assert(spliced(nl, at, at + ins.len(), Seq::empty()) =~= line);
}

/// In insert mode with tabs expanded, Tab and then Backspace give back the
/// buffer and cursor (with a tab size of at least one).
pub proof fn lemma_tab_then_backspace(s: EditorState)
    requires
        s.expand_tabs,
        s.tab_size >= 1,
        0 <= s.cy < s.lines.len(),
        0 <= s.cx <= s.cur_line().len(),
    ensures
        insert_step(insert_step(s, Key::Tab, false), Key::Backspace, false) == s,
{
    let line = s.cur_line();
    let sp = spaces(s.tab_size as nat);
    let nl = spliced(line, s.cx, s.cx, sp);
    lemma_insert_then_cut(line, s.cx, sp);
    let t = EditorState { lines: s.lines.update(s.cy, nl), cx: s.cx + s.tab_size, ..s };
    assert(insert_step(s, Key::Tab, false) == t);
    assert(t.cur_line() == nl);
    let u = EditorState { lines: t.lines.update(t.cy, line), cx: s.cx, ..t };
    assert(crate::editor::backspace_step(t) == u);
    assert(s.lines.update(s.cy, nl).update(s.cy, line) =~= s.lines);
    assert(u =~= s);
}

/// In insert mode with tabs expanded and the cursor at the start of a line,
/// Tab and then Shift+Tab give back the buffer and cursor.
pub proof fn lemma_tab_then_back_tab(s: EditorState)
    requires
        s.expand_tabs,
        0 <= s.cy < s.lines.len(),
        s.cx == 0,
        s.tab_size >= 0,
    ensures
        insert_step(insert_step(s, Key::Tab, false), Key::BackTab, false) == s,
{
    let line = s.cur_line();
    if s.tab_size > 0 {
        let sp = spaces(s.tab_size as nat);
        let nl = spliced(line, 0, 0, sp);
        lemma_insert_then_cut(line, 0, sp);
        assert(nl.take(s.tab_size) =~= sp);
        assert(nl.skip(s.tab_size) =~= line);
        let t = EditorState { lines: s.lines.update(s.cy, nl), cx: s.tab_size, ..s };
        assert(insert_step(s, Key::Tab, false) == t);
        let u = EditorState { lines: t.lines.update(t.cy, line), cx: 0, ..t };
        assert(crate::editor::back_tab_step(t) == u);
        assert(s.lines.update(s.cy, nl).update(s.cy, line) =~= s.lines);
        assert(u =~= s);
    } else {
        assert(line.take(0) =~= spaces(0));
        assert(line.skip(0) =~= line);
        assert(s.lines.update(s.cy, line) =~= s.lines);
        assert(insert_step(insert_step(s, Key::Tab, false), Key::BackTab, false) =~= s);
    }
}

/// In insert mode, Enter and then Backspace give back the buffer and cursor
/// when the new line starts unindented: the cursor is at the start of the
/// line or the line does not start with a space.
pub proof fn lemma_enter_then_backspace(s: EditorState)
    requires
        s.wf(),
        s.cy < s.lines.len(),
        s.cx <= s.cur_line().len(),
        s.cx == 0 || s.cur_line()[0] != ' ',
    ensures
        insert_step(insert_step(s, Key::Enter, false), Key::Backspace, false) == s,
{
    let t = insert_step(s, Key::Enter, false);
    let line = s.cur_line();
    let left = line.take(s.cx);
    let right = line.skip(s.cx);
    assert(crate::text::indent_len(left) == 0);
    assert(left.take(0) =~= Seq::<char>::empty());
    assert(Seq::<char>::empty() + right =~= right);
    assert(t.lines[t.cy - 1] == left);
    assert(t.lines[t.cy] == right);
    assert(left + right =~= line);
    assert(t.lines.update(t.cy - 1, left + right).remove(t.cy) =~= s.lines);
    assert(insert_step(t, Key::Backspace, false) =~= s);
}

/// From normal mode, `i` and then Esc come back to the same state.
pub proof fn lemma_insert_then_escape(s: EditorState)
    requires
        s.mode == Mode::Normal,
    ensures
        insert_step(normal_step(s, Key::Char('i')), Key::Esc, false) == s,
{
    assert(insert_step(normal_step(s, Key::Char('i')), Key::Esc, false) =~= s);
}


/// No line holds a newline character.
pub open spec fn newline_free(lines: Seq<Seq<char>>) -> bool {
    forall|i: int, k: int| 0 <= i < lines.len() && 0 <= k < lines[i].len() ==> #[trigger] lines[i][k] != '\n'
}

proof fn lemma_line_newline_free(lines: Seq<Seq<char>>, i: int, line: Seq<char>)
    requires
        newline_free(lines),
        0 <= i < lines.len(),
        forall|k: int| 0 <= k < line.len() ==> #[trigger] line[k] != '\n',
    ensures
        newline_free(lines.update(i, line)),
{
    assert forall|j: int, k: int|
        0 <= j < lines.update(i, line).len() && 0 <= k < lines.update(i, line)[j].len() implies #[trigger] lines.update(
        i,
        line,
    )[j][k] != '\n' by {
        if j != i {
            assert(lines.update(i, line)[j] == lines[j]);
        }
    }
}

proof fn lemma_insert_line_newline_free(lines: Seq<Seq<char>>, i: int, line: Seq<char>)
    requires
        newline_free(lines),
        0 <= i <= lines.len(),
        forall|k: int| 0 <= k < line.len() ==> #[trigger] line[k] != '\n',
    ensures
        newline_free(lines.insert(i, line)),
{
    assert forall|j: int, k: int|
        0 <= j < lines.insert(i, line).len() && 0 <= k < lines.insert(i, line)[j].len() implies #[trigger] lines.insert(
        i,
        line,
    )[j][k] != '\n' by {
        if j < i {
            assert(lines.insert(i, line)[j] == lines[j]);
        } else if j > i {
            assert(lines.insert(i, line)[j] == lines[j - 1]);
        }
    }
}

proof fn lemma_backspace_newline_free(s: EditorState)
    requires
        s.wf(),
        crate::editor::backspace_ok(s),
        newline_free(s.lines),
    ensures
        newline_free(backspace_step(s).lines),
{
    if s.cx > 0 {
        let line = s.cur_line();
        assert(forall|k: int| 0 <= k < line.len() ==> #[trigger] line[k] != '\n' == (s.lines[s.cy][k] != '\n'));
        if s.tab_size > 0 && s.cx >= s.tab_size && line.subrange(s.cx - s.tab_size, s.cx) == spaces(
            s.tab_size as nat,
        ) {
            let nl = spliced(line, s.cx - s.tab_size, s.cx, Seq::empty());
            assert forall|k: int| 0 <= k < nl.len() implies #[trigger] nl[k] != '\n' by {
                if k < s.cx - s.tab_size {
                    assert(nl[k] == line[k]);
                } else {
                    assert(nl[k] == line[k + s.tab_size]);
                }
            }
            lemma_line_newline_free(s.lines, s.cy, nl);
        } else {
            let nl = line.remove(s.cx - 1);
            assert forall|k: int| 0 <= k < nl.len() implies #[trigger] nl[k] != '\n' by {
                if k < s.cx - 1 {
                    assert(nl[k] == line[k]);
                } else {
                    assert(nl[k] == line[k + 1]);
                }
            }
            lemma_line_newline_free(s.lines, s.cy, nl);
        }
    } else if s.cy > 0 {
        let a = s.lines[s.cy - 1];
        let b = s.lines[s.cy];
        let j = a + b;
        assert forall|k: int| 0 <= k < j.len() implies #[trigger] j[k] != '\n' by {
            if k < a.len() {
                assert(j[k] == s.lines[s.cy - 1][k]);
            } else {
                assert(j[k] == s.lines[s.cy][k - a.len()]);
            }
        }
        lemma_line_newline_free(s.lines, s.cy - 1, j);
        let u = s.lines.update(s.cy - 1, j);
        let r = u.remove(s.cy);
        assert forall|i: int, k: int| 0 <= i < r.len() && 0 <= k < r[i].len() implies #[trigger] r[i][k]
            != '\n' by {
            if i < s.cy {
                assert(r[i] == u[i]);
            } else {
                assert(r[i] == u[i + 1]);
            }
        }
    }
}

/// Every key keeps the buffer free of newline characters: editing never
/// puts a line break inside a line.
pub proof fn lemma_key_keeps_newline_free(s: EditorState, key: Key, ctrl: bool)
    requires
        s.wf(),
        key_ok(s, key, ctrl),
        newline_free(s.lines),
    ensures
        newline_free(key_step(s, key, ctrl).0.lines),
{
    let s0 = EditorState { status: Seq::empty(), ..s };
    assert(s0.lines == s.lines);
    if crate::editor::hotkey(key, ctrl) is Some {
        return;
    }
    if s.mode == Mode::Normal {
        lemma_normal_newline_free(s0, key);
    } else {
        lemma_insert_newline_free(s0, key, ctrl);
    }
}

proof fn lemma_normal_newline_free(s: EditorState, key: Key)
    requires
        s.wf(),
        crate::editor::normal_ok(s, key),
        newline_free(s.lines),
    ensures
        newline_free(normal_step(s, key).lines),
{
    let t = normal_step(s, key);
    if let Key::Char(c) = key {
        if c == 'n' {
            assert(t.lines == seq![Seq::<char>::empty()]);
        } else if c == 'o' || c == 'O' {
            let line = s.cur_line();
            let ind = crate::text::leading_spaces(line);
            crate::text::lemma_indent_len_bounds(line);
            assert forall|k: int| 0 <= k < ind.len() implies #[trigger] ind[k] != '\n' by {
                assert(ind[k] == line[k]);
            }
            lemma_insert_line_newline_free(s.lines, if c == 'o' { s.cy + 1 } else { s.cy }, ind);
            if c == 'o' {
                assert(s.lines.insert(s.cy + 1, ind) == t.lines);
            }
        } else if c == 'x' {
            let line = s.cur_line();
            if s.cx < line.len() {
                let nl = line.remove(s.cx);
                assert forall|k: int| 0 <= k < nl.len() implies #[trigger] nl[k] != '\n' by {
                    if k < s.cx {
                        assert(nl[k] == line[k]);
                    } else {
                        assert(nl[k] == line[k + 1]);
                    }
                }
                lemma_line_newline_free(s.lines, s.cy, nl);
            }
        }
    }
}

proof fn lemma_insert_newline_free(s: EditorState, key: Key, ctrl: bool)
    requires
        s.wf(),
        crate::editor::insert_ok(s, key, ctrl),
        newline_free(s.lines),
    ensures
        newline_free(insert_step(s, key, ctrl).lines),
{
    if crate::editor::is_word_delete(key, ctrl) {
        if s.cx == 0 {
            lemma_backspace_newline_free(s);
        } else {
            let line = s.cur_line();
            let end = crate::editor::min(s.cx, line.len() as int);
            let start = crate::editor::word_start(line, end);
            lemma_word_start_bounds(line, end);
            let nl = spliced(line, start, end, Seq::empty());
            assert forall|k: int| 0 <= k < nl.len() implies #[trigger] nl[k] != '\n' by {
                if k < start {
                    assert(nl[k] == line[k]);
                } else {
                    assert(nl[k] == line[k + end - start]);
                }
            }
            lemma_line_newline_free(s.lines, s.cy, nl);
            assert(word_back_step(s).lines == s.lines.update(s.cy, nl));
        }
        return;
    }
    match key {
        Key::Tab => {
            if !(s.expand_tabs && s.tab_size == 0) {
                let line = s.cur_line();
                let ins = if s.expand_tabs { spaces(s.tab_size as nat) } else { seq!['\t'] };
                let nl = spliced(line, s.cx, s.cx, ins);
                assert forall|k: int| 0 <= k < nl.len() implies #[trigger] nl[k] != '\n' by {
                    if k < s.cx {
                        assert(nl[k] == line[k]);
                    } else if k < s.cx + ins.len() {
                        assert(nl[k] == ins[k - s.cx]);
                    } else {
                        assert(nl[k] == line[k - ins.len()]);
                    }
                }
                lemma_line_newline_free(s.lines, s.cy, nl);
            }
        },
        Key::BackTab => {
            let line = s.cur_line();
            if line.len() >= s.tab_size && line.take(s.tab_size) == spaces(s.tab_size as nat) {
                let nl = line.skip(s.tab_size);
                assert forall|k: int| 0 <= k < nl.len() implies #[trigger] nl[k] != '\n' by {
                    assert(nl[k] == line[k + s.tab_size]);
                }
                lemma_line_newline_free(s.lines, s.cy, nl);
            }
        },
        Key::Enter => {
            let line = s.cur_line();
            let left = line.take(s.cx);
            let right = line.skip(s.cx);
            let ind = crate::text::leading_spaces(left);
            crate::text::lemma_indent_len_bounds(left);
            assert forall|k: int| 0 <= k < left.len() implies #[trigger] left[k] != '\n' by {
                assert(left[k] == line[k]);
            }
            let below = ind + right;
            assert forall|k: int| 0 <= k < below.len() implies #[trigger] below[k] != '\n' by {
                if k < ind.len() {
                    assert(below[k] == left[k]);
                } else {
                    assert(below[k] == line[k - ind.len() + s.cx]);
                }
            }
            lemma_line_newline_free(s.lines, s.cy, left);
            lemma_insert_line_newline_free(s.lines.update(s.cy, left), s.cy + 1, below);
        },
        Key::Backspace => {
            lemma_backspace_newline_free(s);
        },
        Key::Char(c) => {
            if !ctrl && printable(c) {
                let line = s.cur_line();
                let nl = spliced(line, s.cx, s.cx, seq![c]);
                assert forall|k: int| 0 <= k < nl.len() implies #[trigger] nl[k] != '\n' by {
                    if k < s.cx {
                        assert(nl[k] == line[k]);
                    } else if k > s.cx {
                        assert(nl[k] == line[k - 1]);
                    }
                }
                lemma_line_newline_free(s.lines, s.cy, nl);
            }
        },
        _ => {},
    }
}

proof fn lemma_word_start_bounds(line: Seq<char>, end: int)
    requires
        0 <= end,
    ensures
        0 <= crate::editor::word_start(line, end) <= end,
{
    lemma_skip_white_back_bounds(line, end);
    lemma_skip_word_back_bounds(line, crate::editor::skip_white_back(line, end));
}

proof fn lemma_skip_white_back_bounds(line: Seq<char>, i: int)
    requires
        0 <= i,
    ensures
        0 <= crate::editor::skip_white_back(line, i) <= i,
        forall|k: int|
            crate::editor::skip_white_back(line, i) <= k < i ==> crate::text::white_space(
                #[trigger] line[k],
            ),
        crate::editor::skip_white_back(line, i) == 0 || !crate::text::white_space(
            line[crate::editor::skip_white_back(line, i) - 1],
        ),
    decreases i,
{
    if i > 0 && crate::text::white_space(line[i - 1]) {
        lemma_skip_white_back_bounds(line, i - 1);
    }
}

proof fn lemma_skip_word_back_bounds(line: Seq<char>, i: int)
    requires
        0 <= i,
    ensures
        0 <= crate::editor::skip_word_back(line, i) <= i,
        forall|k: int|
            crate::editor::skip_word_back(line, i) <= k < i ==> !crate::text::white_space(
                #[trigger] line[k],
            ),
        crate::editor::skip_word_back(line, i) == 0 || crate::text::white_space(
            line[crate::editor::skip_word_back(line, i) - 1],
        ),
    decreases i,
{
    if i > 0 && !crate::text::white_space(line[i - 1]) {
        lemma_skip_word_back_bounds(line, i - 1);
    }
}

proof fn lemma_split_newline_free(s: Seq<char>)
    ensures
        newline_free(split_at_newlines(s)),
    decreases s.len(),
{
    lemma_split_nonempty(s);
    if s.len() > 0 {
        lemma_split_newline_free(s.drop_last());
        lemma_split_nonempty(s.drop_last());
        let p = split_at_newlines(s.drop_last());
        if s.last() == '\n' {
            let q = p.push(Seq::<char>::empty());
            assert forall|i: int, k: int| 0 <= i < q.len() && 0 <= k < q[i].len() implies #[trigger] q[i][k]
                != '\n' by {
                assert(q[i] == p[i]);
            }
        } else {
            let last = p.last().push(s.last());
            assert forall|k: int| 0 <= k < last.len() implies #[trigger] last[k] != '\n' by {
                if k < p.last().len() {
                    assert(last[k] == p[p.len() - 1][k]);
                }
            }
            lemma_line_newline_free(p, p.len() - 1, last);
        }
    }
}

/// The buffer read from any text holds no newline character.
pub proof fn lemma_loaded_newline_free(t: Seq<char>)
    ensures
        newline_free(buffer_lines(t)),
{
    lemma_split_newline_free(t);
    lemma_split_nonempty(t);
    let p = split_at_newlines(t);
    let tl = text_lines(t);
    assert forall|i: int, k: int| 0 <= i < tl.len() && 0 <= k < tl[i].len() implies #[trigger] tl[i][k]
        != '\n' by {
        if i < p.len() - 1 {
            assert(tl[i] == without_cr(p[i]));
            assert(tl[i][k] == p[i][k]);
        } else {
            assert(tl[i] == p[p.len() - 1]);
        }
    }
    if tl.len() == 0 {
        assert(buffer_lines(t) == seq![Seq::<char>::empty()]);
    }
}


/// The cursor is on a line of the buffer, at most one column past its end.
pub open spec fn cursor_in_line(s: EditorState) -> bool {
    &&& 0 <= s.cy < s.lines.len()
    &&& 0 <= s.cx <= s.cur_line().len()
}

/// Memory has room for the largest edit a key makes here: one more line,
/// a tab's worth more on the cursor line, or the cursor line joined to the
/// one above.
pub open spec fn room_to_edit(s: EditorState) -> bool {
    &&& s.lines.len() < isize::MAX
    &&& s.cur_line().len() + s.tab_size + 1 <= isize::MAX
    &&& s.cy > 0 ==> s.lines[s.cy - 1].len() + s.cur_line().len() <= isize::MAX
}

/// Backspace with the cursor within its line: it can always act, the cursor
/// stays within its line, the buffer loses at most one line, mode and file
/// stay, and at the very start of the buffer nothing changes.
pub proof fn lemma_backspace_keeps_cursor(s: EditorState)
    requires
        s.wf(),
        cursor_in_line(s),
        s.cy > 0 ==> s.lines[s.cy - 1].len() + s.cur_line().len() <= isize::MAX,
    ensures
        crate::editor::backspace_ok(s),
        cursor_in_line(backspace_step(s)),
        s.lines.len() - 1 <= backspace_step(s).lines.len() <= s.lines.len(),
        s.cx == 0 && s.cy == 0 ==> backspace_step(s) == s,
        backspace_step(s).mode == s.mode,
        backspace_step(s).filename == s.filename,
{
    let t = backspace_step(s);
    let line = s.cur_line();
    if s.cx > 0 {
        if s.tab_size > 0 && s.cx >= s.tab_size && line.subrange(s.cx - s.tab_size, s.cx) == spaces(
            s.tab_size as nat,
        ) {
            let nl = spliced(line, s.cx - s.tab_size, s.cx, Seq::empty());
            assert(nl.len() == line.len() - s.tab_size);
            assert(t.cur_line() == nl);
        } else {
            assert(t.cur_line() == line.remove(s.cx - 1));
        }
    } else if s.cy > 0 {
        let j = s.lines[s.cy - 1] + s.lines[s.cy];
        assert(t.lines.len() == s.lines.len() - 1);
        assert(t.lines[s.cy - 1] == j);
    }
}

/// In insert mode, with the cursor within its line and room for the edit,
/// every key can act, and the cursor stays on a line and within it.
pub proof fn lemma_insert_keeps_cursor(s: EditorState, key: Key, ctrl: bool)
    requires
        s.wf(),
        cursor_in_line(s),
        room_to_edit(s),
    ensures
        crate::editor::insert_ok(s, key, ctrl),
        cursor_in_line(insert_step(s, key, ctrl)),
        insert_step(s, key, ctrl).lines.len() >= 1,
{
    let line = s.cur_line();
    if crate::editor::is_word_delete(key, ctrl) {
        if s.cx == 0 {
            lemma_backspace_keeps_cursor(s);
        } else {
            let end = crate::editor::min(s.cx, line.len() as int);
            let start = crate::editor::word_start(line, end);
            lemma_word_start_bounds(line, end);
            let nl = spliced(line, start, end, Seq::empty());
            assert(nl.len() == line.len() - (end - start));
            assert(word_back_step(s).cur_line() == nl);
        }
        return;
    }
    match key {
        Key::Tab => {
            if !(s.expand_tabs && s.tab_size == 0) {
                let ins = if s.expand_tabs { spaces(s.tab_size as nat) } else { seq!['\t'] };
                let nl = spliced(line, s.cx, s.cx, ins);
                assert(nl.len() == line.len() + ins.len());
                assert(insert_step(s, key, ctrl).cur_line() == nl);
            }
        },
        Key::BackTab => {
            if line.len() >= s.tab_size && line.take(s.tab_size) == spaces(s.tab_size as nat) {
                assert(insert_step(s, key, ctrl).cur_line() == line.skip(s.tab_size));
            }
        },
        Key::Enter => {
            let left = line.take(s.cx);
            let right = line.skip(s.cx);
            let ind = crate::text::leading_spaces(left);
            crate::text::lemma_indent_len_bounds(left);
            let t = insert_step(s, key, ctrl);
            assert(t.lines == s.lines.update(s.cy, left).insert(s.cy + 1, ind + right));
            assert(t.cur_line() == ind + right);
        },
        Key::Backspace => {
            lemma_backspace_keeps_cursor(s);
        },
        Key::Char(c) => {
            if !ctrl && printable(c) {
                let nl = spliced(line, s.cx, s.cx, seq![c]);
                assert(nl.len() == line.len() + 1);
                assert(insert_step(s, key, ctrl).cur_line() == nl);
            }
        },
        _ => {},
    }
}

/// In normal mode, with the cursor within its line and room for a new line,
/// every key can act and the cursor stays on a line of the buffer; apart
/// from `g` and `G`, which keep the column, it also stays within its line.
pub proof fn lemma_normal_keeps_cursor(s: EditorState, key: Key)
    requires
        s.wf(),
        cursor_in_line(s),
        s.lines.len() < isize::MAX,
    ensures
        crate::editor::normal_ok(s, key),
        normal_step(s, key).lines.len() >= 1,
        0 <= normal_step(s, key).cy < normal_step(s, key).lines.len(),
        key != Key::Char('g') && key != Key::Char('G') ==> cursor_in_line(normal_step(s, key)),
{
    let line = s.cur_line();
    let t = normal_step(s, key);
    if let Key::Char(c) = key {
        if c == 'o' || c == 'O' {
            crate::text::lemma_indent_len_bounds(line);
            let ind = crate::text::leading_spaces(line);
            if c == 'o' {
                assert(t.lines == s.lines.insert(s.cy + 1, ind));
                assert(t.cur_line() == ind);
            } else {
                assert(t.lines == s.lines.insert(s.cy, ind));
                assert(t.cur_line() == ind);
            }
        } else if c == 'x' {
            if s.cx < line.len() {
                assert(t.cur_line() == line.remove(s.cx));
            }
        } else if c == 'n' {
            assert(t.lines == seq![Seq::<char>::empty()]);
        }
    }
}


/// Ctrl+Backspace past the start of a line deletes exactly the characters
/// from a word boundary up to the cursor (or the line's end when the cursor
/// is past it): what goes is some other characters followed by white space
/// (no white space before a non-white character), it starts at the line's
/// start or right after white space, and unless it starts at the line's
/// start it holds a character that is not white space; the cursor lands
/// where the deletion started.
pub proof fn lemma_word_delete_removes_whole_word(s: EditorState)
    requires
        0 <= s.cy < s.lines.len(),
        s.cx > 0,
    ensures
        ({
            let line = s.cur_line();
            let end = if s.cx <= line.len() { s.cx } else { line.len() as int };
            let t = word_back_step(s);
            let start = t.cx;
            &&& 0 <= start <= end
            &&& t.lines == s.lines.update(s.cy, line.take(start) + line.skip(end))
            &&& t.cy == s.cy && t.mode == s.mode
            &&& start == 0 || crate::text::white_space(line[start - 1])
            &&& forall|i: int, j: int|
                start <= i < j < end && crate::text::white_space(#[trigger] line[i])
                    ==> crate::text::white_space(#[trigger] line[j])
            &&& start > 0 ==> exists|k: int|
                start <= k < end && !crate::text::white_space(#[trigger] line[k])
        }),
{
    let line = s.cur_line();
    let end = if s.cx <= line.len() { s.cx } else { line.len() as int };
    assert(end == crate::editor::min(s.cx, line.len() as int));
    let a = crate::editor::skip_white_back(line, end);
    lemma_skip_white_back_bounds(line, end);
    lemma_skip_word_back_bounds(line, a);
    let start = crate::editor::word_start(line, end);
    assert(spliced(line, start, end, Seq::empty()) =~= line.take(start) + line.skip(end));
    assert(start <= a <= end);
    if start > 0 {
        assert(start < a);
        assert(!crate::text::white_space(line[start]));
    }
}

/// Ctrl+S, Ctrl+R, Ctrl+T and Ctrl+Q give their commands in every mode and
/// leave the buffer, cursor and mode as they were.
pub proof fn lemma_hotkeys_in_any_mode(s: EditorState)
    ensures
        key_step(s, Key::Char('s'), true).1 == crate::editor::Command::Save,
        key_step(s, Key::Char('r'), true).1 == crate::editor::Command::ReopenRecent,
        key_step(s, Key::Char('t'), true).1 == crate::editor::Command::PickRecent,
        key_step(s, Key::Char('q'), true).1 == crate::editor::Command::Quit,
        forall|c: char|
            (c == 's' || c == 'r' || c == 't' || c == 'q') ==> {
                let t = #[trigger] key_step(s, Key::Char(c), true).0;
                &&& t.lines == s.lines
                &&& t.cy == s.cy
                &&& t.cx == s.cx
                &&& t.mode == s.mode
                &&& t.filename == s.filename
            },
{
}

/// Moving down or up in normal mode keeps the column when the line reached
/// is long enough, and otherwise puts the cursor at that line's end.
pub proof fn lemma_vertical_motion_keeps_column(s: EditorState)
    ensures
        forall|key: Key|
            (key == Key::Down || key == Key::Char('j')) && 0 <= s.cy < s.lines.len() - 1 ==> {
                let t = #[trigger] normal_step(s, key);
                let len = s.lines[s.cy + 1].len();
                &&& t.cy == s.cy + 1
                &&& t.cx == (if s.cx <= len { s.cx } else { len as int })
                &&& t.lines == s.lines
                &&& t.mode == s.mode
            },
        forall|key: Key|
            (key == Key::Up || key == Key::Char('k')) && 0 < s.cy <= s.lines.len() ==> {
                let t = #[trigger] normal_step(s, key);
                let len = s.lines[s.cy - 1].len();
                &&& t.cy == s.cy - 1
                &&& t.cx == (if s.cx <= len { s.cx } else { len as int })
                &&& t.lines == s.lines
                &&& t.mode == s.mode
            },
        0 <= s.cy < s.lines.len() - 1 && s.cx <= s.lines[s.cy].len() && s.cx <= s.lines[s.cy + 1].len()
            ==> normal_step(normal_step(s, Key::Down), Key::Up) == s,
{
    if 0 <= s.cy < s.lines.len() - 1 && s.cx <= s.lines[s.cy].len() && s.cx <= s.lines[s.cy + 1].len() {
        assert(normal_step(normal_step(s, Key::Down), Key::Up) =~= s);
    }
}

/// Each tab of a displayed line ends on a tab stop: the expansion of a text
/// that ends in a tab is a multiple of the tab size long, the tab adding
/// between one and `tab` spaces after the expansion of what comes before it;
/// any other character is kept as it is.
pub proof fn lemma_tab_reaches_tab_stop(s: Seq<char>, tab: nat)
    requires
        tab > 0,
        s.len() > 0,
    ensures
        s.last() == '\t' ==> {
            let p = crate::text::expanded(s.drop_last(), tab);
            let e = crate::text::expanded(s, tab);
            &&& e.len() % tab == 0
            &&& p.len() + 1 <= e.len() <= p.len() + tab
            &&& e.take(p.len() as int) == p
            &&& forall|k: int| p.len() <= k < e.len() ==> #[trigger] e[k] == ' '
        },
        s.last() != '\t' ==> crate::text::expanded(s, tab) == crate::text::expanded(s.drop_last(), tab).push(
            s.last(),
        ),
{
    if s.last() == '\t' {
        let p = crate::text::expanded(s.drop_last(), tab);
        let e = crate::text::expanded(s, tab);
        let x = p.len() as int;
        let t = tab as int;
        vstd::arithmetic::div_mod::lemma_fundamental_div_mod(x, t);
        let q = x / t;
        let r = x % t;
        assert(0 <= r < t) by {
            vstd::arithmetic::div_mod::lemma_mod_bound(x, t);
        }
        assert(e.len() == x + t - r);
        assert(x + t - r == t * (q + 1)) by (nonlinear_arith)
            requires
                x == t * q + r,
        ;
        vstd::arithmetic::div_mod::lemma_mod_multiples_basic(q + 1, t);
        assert((t * (q + 1)) == (q + 1) * t) by (nonlinear_arith);
        assert(e.take(x) =~= p);
    }
}

/// Opening a line with `o` or `O` enters insert mode, the new line below or
/// above holding exactly the spaces that start the current line, with the
/// cursor at its end.
pub proof fn lemma_open_line_enters_insert(s: EditorState)
    requires
        0 <= s.cy < s.lines.len(),
    ensures
        forall|c: char|
            (c == 'o' || c == 'O') ==> {
                let t = #[trigger] normal_step(s, Key::Char(c));
                let at = if c == 'o' { s.cy + 1 } else { s.cy };
                let line = s.cur_line();
                let ind = t.lines[at];
                &&& t.mode == Mode::Insert
                &&& t.cy == at
                &&& t.lines == s.lines.insert(at, ind)
                &&& t.cx == ind.len()
                &&& ind.len() <= line.len()
                &&& ind == line.take(ind.len() as int)
                &&& forall|k: int| 0 <= k < ind.len() ==> #[trigger] ind[k] == ' '
                &&& ind.len() == line.len() || line[ind.len() as int] != ' '
            },
{
    let line = s.cur_line();
    crate::text::lemma_indent_len_bounds(line);
    let ind = crate::text::leading_spaces(line);
    assert forall|c: char| (c == 'o' || c == 'O') implies {
        let t = #[trigger] normal_step(s, Key::Char(c));
        let at = if c == 'o' { s.cy + 1 } else { s.cy };
        let ind2 = t.lines[at];
        &&& t.mode == Mode::Insert
        &&& t.cy == at
        &&& t.lines == s.lines.insert(at, ind2)
        &&& t.cx == ind2.len()
        &&& ind2.len() <= line.len()
        &&& ind2 == line.take(ind2.len() as int)
        &&& forall|k: int| 0 <= k < ind2.len() ==> #[trigger] ind2[k] == ' '
        &&& ind2.len() == line.len() || line[ind2.len() as int] != ' '
    } by {
        let t = normal_step(s, Key::Char(c));
        let at = if c == 'o' { s.cy + 1 } else { s.cy };
        assert(t.lines == s.lines.insert(at, ind));
        assert(t.lines[at] == ind);
    }
}


/// The other normal-mode keys: `h` and Left move one column left, stopping
/// at the first; `l` and Right one column right, stopping after the last
/// character; `x` deletes the character under the cursor, if any; `g` and
/// `G` go to the first and last line; `i` enters insert mode; `n` starts an
/// empty buffer with no file. None of them touches anything else.
pub proof fn lemma_normal_keys(s: EditorState)
    requires
        0 <= s.cy < s.lines.len(),
        0 <= s.cx,
    ensures
        forall|key: Key|
            (key == Key::Left || key == Key::Char('h')) ==> {
                let t = #[trigger] normal_step(s, key);
                t.cx == (if s.cx > 0 { s.cx - 1 } else { 0 }) && t.cy == s.cy && t.lines == s.lines
                    && t.mode == s.mode
            },
        forall|key: Key|
            (key == Key::Right || key == Key::Char('l')) ==> {
                let t = #[trigger] normal_step(s, key);
                let len = s.cur_line().len() as int;
                t.cx == (if s.cx + 1 <= len { s.cx + 1 } else { len }) && t.cy == s.cy && t.lines
                    == s.lines && t.mode == s.mode
            },
        ({
            let t = normal_step(s, Key::Char('x'));
            let line = s.cur_line();
            &&& t.cx == s.cx && t.cy == s.cy && t.mode == s.mode
            &&& t.lines == (if s.cx < line.len() {
                s.lines.update(s.cy, line.take(s.cx) + line.skip(s.cx + 1))
            } else {
                s.lines
            })
        }),
        normal_step(s, Key::Char('g')) == (EditorState { cy: 0, ..s }),
        normal_step(s, Key::Char('G')) == (EditorState { cy: s.lines.len() - 1, ..s }),
        normal_step(s, Key::Char('i')) == (EditorState { mode: Mode::Insert, ..s }),
        ({
            let t = normal_step(s, Key::Char('n'));
            &&& t.lines.len() == 1 && t.lines[0].len() == 0
            &&& t.cy == 0 && t.cx == 0 && t.filename is None && t.mode == s.mode
        }),
{
    let line = s.cur_line();
    if s.cx < line.len() {
        assert(line.remove(s.cx) =~= line.take(s.cx) + line.skip(s.cx + 1));
    }
}

/// The insert-mode keys: a printable character typed without Control goes
/// in at the cursor, which moves past it; Enter splits the line at the
/// cursor, the new line below starting with the spaces that start the part
/// kept and the cursor after them; Tab puts the tab's worth of spaces (or a
/// tab character) at the cursor and moves past it; Esc goes back to normal
/// mode.
pub proof fn lemma_insert_keys(s: EditorState, c: char)
    requires
        0 <= s.cy < s.lines.len(),
        0 <= s.cx <= s.cur_line().len(),
        s.tab_size >= 0,
    ensures
        printable(c) ==> {
            let t = insert_step(s, Key::Char(c), false);
            let line = s.cur_line();
            &&& t.lines == s.lines.update(s.cy, line.take(s.cx) + seq![c] + line.skip(s.cx))
            &&& t.cx == s.cx + 1 && t.cy == s.cy && t.mode == s.mode
        },
        !printable(c) ==> insert_step(s, Key::Char(c), false) == s,
        ({
            let t = insert_step(s, Key::Enter, false);
            let line = s.cur_line();
            let below = t.lines[s.cy + 1];
            let n = t.cx;
            &&& t.cy == s.cy + 1 && t.mode == s.mode
            &&& t.lines == s.lines.update(s.cy, line.take(s.cx)).insert(s.cy + 1, below)
            &&& 0 <= n <= s.cx
            &&& below == line.take(n) + line.skip(s.cx)
            &&& forall|k: int| 0 <= k < n ==> #[trigger] line[k] == ' '
            &&& n == s.cx || line[n] != ' '
        }),
        ({
            let t = insert_step(s, Key::Tab, false);
            let line = s.cur_line();
            let ins = if s.expand_tabs { Seq::new(s.tab_size as nat, |i: int| ' ') } else { seq!['\t'] };
            &&& t.lines == s.lines.update(s.cy, line.take(s.cx) + ins + line.skip(s.cx))
            &&& t.cx == s.cx + ins.len() && t.cy == s.cy && t.mode == s.mode
        }),
        insert_step(s, Key::Esc, false) == (EditorState { mode: Mode::Normal, ..s }),
{
    let line = s.cur_line();
    let left = line.take(s.cx);
    crate::text::lemma_indent_len_bounds(left);
    let n = crate::text::indent_len(left);
    assert forall|k: int| 0 <= k < n implies #[trigger] line[k] == ' ' by {
        assert(left[k] == line[k]);
    }
    if n < s.cx {
        assert(left[n as int] == line[n as int]);
    }
    assert(crate::text::leading_spaces(left) =~= line.take(n as int));
    let t = insert_step(s, Key::Enter, false);
    assert(t.lines == s.lines.update(s.cy, left).insert(s.cy + 1, crate::text::leading_spaces(left) + line.skip(s.cx)));
    if s.expand_tabs && s.tab_size == 0 {
        assert(line.take(s.cx) + Seq::new(0, |i: int| ' ') + line.skip(s.cx) =~= line);
        assert(s.lines.update(s.cy, line) =~= s.lines);
    }
    assert(spaces(s.tab_size as nat) =~= Seq::new(s.tab_size as nat, |i: int| ' '));
}

/// Backspace in the middle of a line deletes the tab's worth of spaces right
/// before the cursor when they are all spaces and the tab size is not zero,
/// else the one character before the cursor; at the start of a line below
/// the first, it joins the line to the one above, the cursor going to where
/// they meet.
pub proof fn lemma_backspace_deletes_before_cursor(s: EditorState)
    requires
        0 <= s.cy < s.lines.len(),
        0 <= s.cx <= s.cur_line().len(),
        s.tab_size >= 0,
    ensures
        s.cx > 0 ==> {
            let t = backspace_step(s);
            let line = s.cur_line();
            let gone = s.cx - t.cx;
            &&& t.cy == s.cy && t.lines.len() == s.lines.len() && t.mode == s.mode
            &&& t.lines == s.lines.update(s.cy, line.take(t.cx) + line.skip(s.cx))
            &&& (s.tab_size > 0 && s.cx >= s.tab_size && forall|k: int|
                s.cx - s.tab_size <= k < s.cx ==> #[trigger] line[k] == ' ') ==> gone == s.tab_size
            &&& !(s.tab_size > 0 && s.cx >= s.tab_size && forall|k: int|
                s.cx - s.tab_size <= k < s.cx ==> #[trigger] line[k] == ' ') ==> gone == 1
        },
        s.cx == 0 && s.cy > 0 ==> {
            let t = backspace_step(s);
            &&& t.cy == s.cy - 1
            &&& t.cx == s.lines[s.cy - 1].len()
            &&& t.lines == s.lines.update(s.cy - 1, s.lines[s.cy - 1] + s.lines[s.cy]).remove(s.cy)
        },
        s.cx == 0 && s.cy == 0 ==> backspace_step(s) == s,
{
    let line = s.cur_line();
    if s.cx > 0 {
        let tab = s.tab_size;
        let all = s.tab_size > 0 && s.cx >= s.tab_size && forall|k: int|
            s.cx - s.tab_size <= k < s.cx ==> #[trigger] line[k] == ' ';
        if s.tab_size > 0 && s.cx >= s.tab_size {
            if all {
                assert(line.subrange(s.cx - tab, s.cx) =~= spaces(tab as nat));
            } else {
                let k = choose|k: int| s.cx - s.tab_size <= k < s.cx && line[k] != ' ';
                assert(line.subrange(s.cx - tab, s.cx)[k - (s.cx - tab)] != ' ');
            }
        }
        if all {
            assert(spliced(line, s.cx - tab, s.cx, Seq::empty()) =~= line.take(s.cx - tab) + line.skip(s.cx));
        } else {
            assert(line.remove(s.cx - 1) =~= line.take(s.cx - 1) + line.skip(s.cx));
        }
    }
}


/// Scrolling keeps the cursor line on screen with the least movement: with
/// at least one text row, the cursor line falls among the rows shown; a
/// cursor line already shown leaves the first shown line where it was; one
/// above becomes the first shown line, one below the last.
pub proof fn lemma_scroll_shows_cursor(top: int, cy: int, rows: int)
    requires
        rows > 0,
        0 <= top,
        0 <= cy,
    ensures
        ({
            let t = crate::screen::scrolled(top, cy, rows);
            &&& 0 <= t <= cy < t + rows
            &&& top <= cy < top + rows ==> t == top
            &&& cy < top ==> t == cy
            &&& cy >= top + rows ==> t + rows - 1 == cy
        }),
{
}

/// Shift+Tab takes a tab's worth of spaces off the start of the line when
/// the line starts with them (moving the cursor left by as much, stopping
/// at the first column), and otherwise changes nothing.
pub proof fn lemma_back_tab_unindents(s: EditorState)
    requires
        0 <= s.cy < s.lines.len(),
        0 <= s.cx,
        s.tab_size >= 0,
    ensures
        ({
            let t = insert_step(s, Key::BackTab, false);
            let line = s.cur_line();
            if line.len() >= s.tab_size && forall|k: int| 0 <= k < s.tab_size ==> #[trigger] line[k] == ' ' {
                &&& t.lines == s.lines.update(s.cy, line.skip(s.tab_size))
                &&& t.cx == (if s.cx >= s.tab_size { s.cx - s.tab_size } else { 0 })
                &&& t.cy == s.cy && t.mode == s.mode
            } else {
                t == s
            }
        }),
{
    let line = s.cur_line();
    if line.len() >= s.tab_size {
        if forall|k: int| 0 <= k < s.tab_size ==> #[trigger] line[k] == ' ' {
            assert(line.take(s.tab_size) =~= spaces(s.tab_size as nat));
        } else {
            let k = choose|k: int| 0 <= k < s.tab_size && line[k] != ' ';
            assert(line.take(s.tab_size)[k] != ' ');
        }
    }
}

} // verus!
