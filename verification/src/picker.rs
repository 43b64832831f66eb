use vstd::prelude::*;
use vstd::string::StringExecFns;

use vstd::arithmetic::div_mod::{lemma_mod_add_multiples_vanish, lemma_mod_self_0, lemma_small_mod};

use crate::editor::Key;
use crate::screen::{first_chars, sat_sub};
use crate::text::{push_char, push_spaces, spaces, truncate};

verus! {

/// How many recent files the picker lists at most.
pub const PICKER_ITEMS: usize = 10;

/// The recent-file picker: which entry is selected among how many listed.
pub struct RecentPicker {
    pub idx: usize,
    pub max_items: usize,
}

/// What a key does in the picker.
#[derive(PartialEq, Eq, Structural, Clone, Copy, Debug)]
pub enum PickerStep {
    /// Keep picking.
    Stay,
    /// Open the entry at this index.
    Open(usize),
    /// Leave without opening anything.
    Cancel,
}

/// Some text placed on the screen, drawn in reverse video when highlighted.
pub struct Placed {
    pub x: usize,
    pub y: usize,
    pub text: String,
    pub highlighted: bool,
}

/// The index above `idx`, wrapping from the first entry to the last.
pub open spec fn picker_up(idx: int, max: int) -> int {
    (idx + max - 1) % max
}

/// The index below `idx`, wrapping from the last entry to the first.
pub open spec fn picker_down(idx: int, max: int) -> int {
    (idx + 1) % max
}

/// The larger of two integers.
pub open spec fn max(a: int, b: int) -> int {
    if a >= b {
        a
    } else {
        b
    }
}

/// The smaller of two integers.
pub open spec fn min(a: int, b: int) -> int {
    if a <= b {
        a
    } else {
        b
    }
}

/// The height of the picker window for a terminal `h` rows high.
pub open spec fn window_height(h: int) -> int {
    max(min(12, sat_sub(h, 2)), 3)
}

/// The width of the picker window for a terminal `w` columns wide.
pub open spec fn window_width(w: int) -> int {
    max(min(65, sat_sub(w, 4)), 10)
}

/// Row `row` of a window `height` rows high and `width` columns wide: a
/// border of `+`, `-` and `|` around blank space.
pub open spec fn window_row(row: int, height: int, width: int) -> Seq<char> {
    if row == 0 || row == height - 1 {
        seq!['+'] + Seq::new((width - 2) as nat, |i: int| '-') + seq!['+']
    } else {
        seq!['|'] + spaces((width - 2) as nat) + seq!['|']
    }
}

/// The listed entry `i`: marked with `>` when selected, cut to fit.
pub open spec fn picker_item(entry: Seq<char>, selected: bool, term_width: int) -> Seq<char> {
    (if selected {
        seq!['>', ' ']
    } else {
        seq![' ', ' ']
    }) + first_chars(entry, sat_sub(term_width, 12))
}

impl RecentPicker {
    /// The picker over a history of `history_len` entries: the first
    /// selected, at most `PICKER_ITEMS` listed.
    pub fn new(history_len: usize) -> (p: RecentPicker)
        requires
            history_len > 0,
        ensures
            p.idx == 0,
            p.max_items == min(PICKER_ITEMS as int, history_len as int),
            p.wf(),
    {
        RecentPicker { idx: 0, max_items: if history_len < PICKER_ITEMS { history_len } else { PICKER_ITEMS } }
    }

    /// Something is listed, and the selection is one of the listed entries.
    pub open spec fn wf(self) -> bool {
        0 < self.max_items <= PICKER_ITEMS && self.idx < self.max_items
    }

    /// Moves the selection with Up/`k` and Down/`j` (wrapping around),
    /// opens the selected entry with Enter, leaves with Esc.
    pub fn step(&mut self, key: Key) -> (r: PickerStep)
        requires
            old(self).wf(),
        ensures
            final(self).wf(),
            final(self).max_items == old(self).max_items,
            match key {
                Key::Up | Key::Char('k') => r == PickerStep::Stay && final(self).idx == picker_up(
                    old(self).idx as int,
                    old(self).max_items as int,
                ),
                Key::Down | Key::Char('j') => r == PickerStep::Stay && final(self).idx == picker_down(
                    old(self).idx as int,
                    old(self).max_items as int,
                ),
                Key::Enter => r == PickerStep::Open(old(self).idx) && final(self).idx == old(self).idx,
                Key::Esc => r == PickerStep::Cancel && final(self).idx == old(self).idx,
                _ => r == PickerStep::Stay && final(self).idx == old(self).idx,
            },
    {
        match key {
            Key::Up | Key::Char('k') => {
                self.idx = (self.idx + self.max_items - 1) % self.max_items;
                PickerStep::Stay
            },
            Key::Down | Key::Char('j') => {
                self.idx = (self.idx + 1) % self.max_items;
                PickerStep::Stay
            },
            Key::Enter => PickerStep::Open(self.idx),
            Key::Esc => PickerStep::Cancel,
            _ => PickerStep::Stay,
        }
    }

    /// What the picker draws on a terminal of the given size: the window's
    /// rows from (2, 2) down, the title at (4, 2), then the listed entries
    /// from (4, 3) down, the selected one highlighted.
    pub fn draw(&self, history: &Vec<String>, term_width: u16, term_height: u16) -> (r: Vec<Placed>)
        requires
            self.wf(),
            history@.len() >= self.max_items,
        ensures
            ({
                let wh = window_height(term_height as int);
                let ww = window_width(term_width as int);
                &&& r@.len() == wh + 1 + self.max_items
                &&& forall|row: int| 0 <= row < wh ==> {
                    &&& (#[trigger] r@[row]).x == 2
                    &&& r@[row].y == 2 + row
                    &&& r@[row].text@ == window_row(row, wh, ww)
                    &&& !r@[row].highlighted
                }
                &&& r@[wh].x == 4 && r@[wh].y == 2 && !r@[wh].highlighted
                &&& r@[wh].text@ == "Luminousity Recent Files"@
                &&& forall|i: int| 0 <= i < self.max_items ==> {
                    &&& (#[trigger] r@[wh + 1 + i]).x == 4
                    &&& r@[wh + 1 + i].y == 3 + i
                    &&& r@[wh + 1 + i].text@ == picker_item(
                        history@[i]@,
                        i == self.idx,
                        term_width as int,
                    )
                    &&& r@[wh + 1 + i].highlighted == (i == self.idx)
                }
            }),
    {
        let th = term_height as usize;
        let tw = term_width as usize;
        let h0: usize = if th >= 2 { th - 2 } else { 0 };
        let h1: usize = if h0 < 12 { h0 } else { 12 };
        let wh: usize = if h1 >= 3 { h1 } else { 3 };
        let w0: usize = if tw >= 4 { tw - 4 } else { 0 };
        let w1: usize = if w0 < 65 { w0 } else { 65 };
        let ww: usize = if w1 >= 10 { w1 } else { 10 };
        let mut r: Vec<Placed> = Vec::new();
        let mut row: usize = 0;
        while row < wh
            invariant
                row <= wh,
                wh == window_height(term_height as int),
                ww == window_width(term_width as int),
                3 <= wh <= 12,
                10 <= ww <= 65,
                r@.len() == row,
                forall|k: int| 0 <= k < row ==> {
                    &&& (#[trigger] r@[k]).x == 2
                    &&& r@[k].y == 2 + k
                    &&& r@[k].text@ == window_row(k, wh as int, ww as int)
                    &&& !r@[k].highlighted
                },
            decreases wh - row,
        {
            let mut line = String::new();
            if row == 0 || row == wh - 1 {
                push_char(&mut line, '+');
                let mut j: usize = 0;
                while j < ww - 2
                    invariant
                        j <= ww - 2,
                        line@ == seq!['+'] + Seq::new(j as nat, |i: int| '-'),
                    decreases ww - 2 - j,
                {
                    push_char(&mut line, '-');
                    assert(line@ =~= seq!['+'] + Seq::new((j + 1) as nat, |i: int| '-'));
                    j += 1;
                }
                push_char(&mut line, '+');
            } else {
                push_char(&mut line, '|');
                push_spaces(&mut line, ww - 2);
                push_char(&mut line, '|');
            }
            assert(line@ =~= window_row(row as int, wh as int, ww as int));
            r.push(Placed { x: 2, y: 2 + row, text: line, highlighted: false });
            row += 1;
        }
        r.push(Placed { x: 4, y: 2, text: String::from_str("Luminousity Recent Files"), highlighted: false });
        let avail: usize = if tw >= 12 { tw - 12 } else { 0 };
        let mut i: usize = 0;
        while i < self.max_items
            invariant
                self.wf(),
                history@.len() >= self.max_items,
                i <= self.max_items,
                wh == window_height(term_height as int),
                3 <= wh <= 12,
                avail == sat_sub(term_width as int, 12),
                r@.len() == wh + 1 + i,
                forall|k: int| 0 <= k < wh ==> {
                    &&& (#[trigger] r@[k]).x == 2
                    &&& r@[k].y == 2 + k
                    &&& r@[k].text@ == window_row(k, wh as int, window_width(term_width as int))
                    &&& !r@[k].highlighted
                },
                r@[wh as int].x == 4 && r@[wh as int].y == 2 && !r@[wh as int].highlighted,
                r@[wh as int].text@ == "Luminousity Recent Files"@,
                forall|k: int| 0 <= k < i ==> {
                    &&& (#[trigger] r@[wh + 1 + k]).x == 4
                    &&& r@[wh + 1 + k].y == 3 + k
                    &&& r@[wh + 1 + k].text@ == picker_item(history@[k]@, k == self.idx, term_width as int)
                    &&& r@[wh + 1 + k].highlighted == (k == self.idx)
                },
            decreases self.max_items - i,
        {
            let shown = truncate(history[i].as_str(), avail);
            let selected = i == self.idx;
            let mut text = if selected { String::from_str("> ") } else { String::from_str("  ") };
            text.append(shown.as_str());
            proof {
                reveal_strlit("> ");
                reveal_strlit("  ");
                assert(text@ =~= picker_item(history@[i as int]@, selected, term_width as int));
            }
            r.push(Placed { x: 4, y: 3 + i, text, highlighted: selected });
            i += 1;
        }
        r
    }
}

/// Moving the selection up and then down comes back to it.
pub proof fn lemma_picker_up_down(idx: int, max: int)
    requires
        0 <= idx < max,
    ensures
        0 <= picker_up(idx, max) < max,
        picker_down(picker_up(idx, max), max) == idx,
        picker_up(picker_down(idx, max), max) == idx,
{
    let up = picker_up(idx, max);
    if idx == 0 {
        lemma_small_mod((max - 1) as nat, max as nat);
    } else {
        lemma_mod_add_multiples_vanish(idx - 1, max);
        lemma_small_mod((idx - 1) as nat, max as nat);
    }
    assert(0 <= up < max);
    if up + 1 < max {
        lemma_small_mod((up + 1) as nat, max as nat);
    } else {
        lemma_mod_self_0(max);
    }
    let down = picker_down(idx, max);
    if idx + 1 < max {
        lemma_small_mod((idx + 1) as nat, max as nat);
        lemma_mod_add_multiples_vanish(idx, max);
        lemma_small_mod(idx as nat, max as nat);
    } else {
        lemma_mod_self_0(max);
        lemma_small_mod((max - 1) as nat, max as nat);
    }
}


/// Up moves the selection to the entry above, from the first entry to the
/// last; Down to the entry below, from the last entry to the first.
pub proof fn lemma_picker_moves_by_one(idx: int, max: int)
    requires
        0 <= idx < max,
    ensures
        picker_up(idx, max) == (if idx == 0 { max - 1 } else { idx - 1 }),
        picker_down(idx, max) == (if idx == max - 1 { 0 } else { idx + 1 }),
{
    if idx == 0 {
        lemma_small_mod((max - 1) as nat, max as nat);
    } else {
        lemma_mod_add_multiples_vanish(idx - 1, max);
        lemma_small_mod((idx - 1) as nat, max as nat);
    }
    if idx + 1 < max {
        lemma_small_mod((idx + 1) as nat, max as nat);
    } else {
        lemma_mod_self_0(max);
    }
}

} // verus!
