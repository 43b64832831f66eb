use vstd::prelude::*;
use vstd::string::StringExecFns;

use crate::editor::Key;
use crate::screen::sat_sub;
use crate::text::{chars_of, pad_right, padded, push_char, string_of, trim, trimmed};

verus! {

/// A one-line prompt on the bottom row: the question and what was typed.
pub struct Prompt {
    pub prompt: String,
    pub input: String,
}

/// What a key does at the prompt.
pub enum PromptStep {
    /// Keep reading keys.
    Editing,
    /// The answer, without surrounding white space.
    Done(String),
}

impl Prompt {
    /// A prompt with nothing typed yet.
    pub fn new(prompt: String) -> (p: Prompt)
        ensures
            p.prompt@ == prompt@,
            p.input@ == Seq::<char>::empty(),
    {
        Prompt { prompt, input: String::new() }
    }

    /// Enter answers with what was typed, trimmed; Esc answers with nothing;
    /// Backspace deletes the last character typed; a character is typed;
    /// other keys do nothing.
    pub fn step(&mut self, key: Key) -> (r: PromptStep)
        ensures
            final(self).prompt@ == old(self).prompt@,
            match key {
                Key::Enter => (r matches PromptStep::Done(a) && a@ == trimmed(old(self).input@))
                    && final(self).input@ == old(self).input@,
                Key::Esc => (r matches PromptStep::Done(a) && a@ == Seq::<char>::empty())
                    && final(self).input@ == Seq::<char>::empty(),
                Key::Backspace => r is Editing && final(self).input@ == (if old(self).input@.len() > 0 {
                    old(self).input@.drop_last()
                } else {
                    old(self).input@
                }),
                Key::Char(c) => r is Editing && final(self).input@ == old(self).input@.push(c),
                _ => r is Editing && final(self).input@ == old(self).input@,
            },
    {
        match key {
            Key::Enter => PromptStep::Done(trim(self.input.as_str())),
            Key::Esc => {
                self.input = String::new();
                let a = trim(self.input.as_str());
                assert(trimmed(Seq::<char>::empty()) =~= Seq::<char>::empty());
                PromptStep::Done(a)
            },
            Key::Backspace => {
                let mut chars = chars_of(self.input.as_str());
                if chars.len() > 0 {
                    chars.pop();
                }
                self.input = string_of(chars.as_slice());
                PromptStep::Editing
            },
            Key::Char(c) => {
                push_char(&mut self.input, c);
                PromptStep::Editing
            },
            _ => PromptStep::Editing,
        }
    }

    /// The bottom row: the question and the answer so far, padded to one
    /// column less than the terminal width.
    pub fn display(&self, width: u16) -> (r: String)
        ensures
            r@ == padded(self.prompt@ + self.input@, sat_sub(width as int, 1) as nat),
    {
        let mut line = String::from_str(self.prompt.as_str());
        line.append(self.input.as_str());
        let w: usize = if width >= 1 { width as usize - 1 } else { 0 };
        pad_right(line.as_str(), w)
    }

    /// The column of the cursor: after the question and the answer so far.
    pub fn cursor_col(&self) -> (n: usize)
        requires
            self.prompt@.len() + self.input@.len() <= usize::MAX,
        ensures
            n == self.prompt@.len() + self.input@.len(),
    {
        crate::editor::char_count(self.prompt.as_str()) + crate::editor::char_count(self.input.as_str())
    }
}

} // verus!
