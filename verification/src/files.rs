use vstd::prelude::*;
use vstd::string::StringExecFns;

use crate::config::Config;
use crate::editor::{Editor, EditorState, Mode};
use crate::paths::{expand_user, home_text, join_path, path_joined, user_expanded, valid_home};
use crate::text::{join_lines, joined, lemma_text_lines_fit, split_lines, text_lines, views};

verus! {

/// The characters of a result of strings.
pub open spec fn result_view(r: Result<String, String>) -> Result<Seq<char>, Seq<char>> {
    match r {
        Ok(t) => Ok(t@),
        Err(e) => Err(e@),
    }
}

/// The buffer for a file's text: its lines, or one empty line when it has none.
pub open spec fn buffer_lines(t: Seq<char>) -> Seq<Seq<char>> {
    if text_lines(t).len() == 0 {
        seq![Seq::empty()]
    } else {
        text_lines(t)
    }
}

/// The editor after the file `name` was read: on success its lines fill the
/// buffer (the cursor stays where it was) and it becomes the current file;
/// on failure only the message changes.
pub open spec fn loaded(s: EditorState, name: Seq<char>, read: Result<Seq<char>, Seq<char>>) -> EditorState {
    match read {
        Ok(t) => EditorState {
            lines: buffer_lines(t),
            filename: Some(name),
            status: "Opened: "@ + name,
            ..s
        },
        Err(e) => EditorState { status: "Error opening file: "@ + e, ..s },
    }
}

/// The editor before any file: one empty line, normal mode, a greeting.
pub open spec fn fresh(save_dir: Seq<char>, tab_size: int, expand_tabs: bool) -> EditorState {
    EditorState {
        filename: None,
        lines: seq![Seq::empty()],
        cy: 0,
        cx: 0,
        scroll_top: 0,
        mode: Mode::Normal,
        save_dir: save_dir,
        config_tab_size: tab_size,
        expand_tabs: expand_tabs,
        tab_size: tab_size,
        status: "Welcome to Luminousity | Press 'i' to Edit"@,
    }
}

/// The editor at start: a file named on the command line is read when it
/// exists (`read` is its reading), else only remembered as the file to save to.
pub open spec fn started(
    s: EditorState,
    filename: Option<Seq<char>>,
    read: Option<Result<Seq<char>, Seq<char>>>,
) -> EditorState {
    match filename {
        None => s,
        Some(f) => match read {
            Some(r) => loaded(s, f, r),
            None => EditorState { filename: Some(f), ..s },
        },
    }
}

/// Whether a text read from a file fits in memory as a buffer.
pub open spec fn readable(read: Option<Result<Seq<char>, Seq<char>>>) -> bool {
    read matches Some(Ok(t)) ==> t.len() < isize::MAX
}

/// The characters of an optional result of strings.
pub open spec fn opt_result_view(r: Option<Result<String, String>>) -> Option<
    Result<Seq<char>, Seq<char>>,
> {
    match r {
        Some(x) => Some(result_view(x)),
        None => None,
    }
}

/// Where a save goes: the current file, or a name to ask for in a directory.
pub enum SavePlan {
    /// Write to this path.
    Write(String),
    /// Ask for a file name, to be placed in `save_dir`.
    Ask { save_dir: String, prompt: String },
}

impl Editor {
    /// A new editor with the given settings, opening `filename` when given:
    /// `contents` is the reading of the file when it exists, `None` when it
    /// does not.
    pub fn new(config: Config, filename: Option<String>, contents: Option<Result<String, String>>) -> (e: Editor)
        requires
            readable(opt_result_view(contents)),
        ensures
            e@ == started(
                fresh(config.default_save_directory@, config.tab_size as int, config.expand_tabs),
                crate::paths::opt_view(filename),
                opt_result_view(contents),
            ),
            e@.wf(),
    {
        let tab_size = config.tab_size;
        let mut lines: Vec<String> = Vec::new();
        lines.push(String::new());
        let mut editor = Editor {
            filename: None,
            lines: lines,
            cy: 0,
            cx: 0,
            scroll_top: 0,
            mode: Mode::Normal,
            config: config,
            tab_size: tab_size,
            status_msg: String::from_str("Welcome to Luminousity | Press 'i' to Edit"),
        };
        assert(views(editor.lines@) =~= seq![Seq::<char>::empty()]);
        if let Some(f) = filename {
            match contents {
                Some(read) => editor.load_file(f.as_str(), read),
                None => editor.filename = Some(f),
            }
        }
        editor
    }

    /// Takes in the reading of the file `filename`: its lines on success,
    /// an error message otherwise.
    pub fn load_file(&mut self, filename: &str, contents: Result<String, String>)
        requires
            old(self)@.wf(),
            readable(Some(result_view(contents))),
        ensures
            final(self)@ == loaded(old(self)@, filename@, result_view(contents)),
            final(self)@.wf(),
    {
        let ghost s = self@;
        match contents {
            Ok(text) => {
                let mut lines = split_lines(text.as_str());
                proof {
                    lemma_text_lines_fit(text@);
                }
                if lines.len() == 0 {
                    lines.push(String::new());
                    assert(views(lines@) =~= seq![Seq::<char>::empty()]);
                }
                self.lines = lines;
                self.filename = Some(String::from_str(filename));
                let mut msg = String::from_str("Opened: ");
                msg.append(filename);
                self.status_msg = msg;
            },
            Err(e) => {
                let mut msg = String::from_str("Error opening file: ");
                msg.append(e.as_str());
                self.status_msg = msg;
            },
        }
        assert(self@ =~= loaded(s, filename@, result_view(contents)));
    }

    /// Where Ctrl+S writes: the current file, or else a name to ask for in
    /// the default save directory (a leading `~` stands for the home
    /// directory), with the prompt to show.
    pub fn save_plan(&self) -> (r: SavePlan)
        ensures
            match self.filename {
                Some(f) => r matches SavePlan::Write(t) && t@ == f@,
                None => (r matches SavePlan::Ask { save_dir, prompt } && (exists|home: Option<Seq<u8>>|
                    valid_home(home) && save_dir@ == user_expanded(self@.save_dir, home_text(home)))
                    && prompt@ == "Save file in ["@ + save_dir@ + "]: "@),
            },
    {
        match &self.filename {
            Some(f) => SavePlan::Write(f.clone()),
            None => {
                let save_dir = expand_user(self.config.default_save_directory.as_str());
                let mut prompt = String::from_str("Save file in [");
                prompt.append(save_dir.as_str());
                prompt.append("]: ");
                SavePlan::Ask { save_dir, prompt }
            },
        }
    }

    /// Takes the name typed at the save prompt: an empty name cancels the
    /// save; any other becomes the current file, placed in `save_dir`.
    pub fn choose_save_name(&mut self, save_dir: &str, input: &str) -> (r: Option<String>)
        ensures
            input@.len() == 0 ==> r is None && final(self)@ == (EditorState {
                status: "Save cancelled."@,
                ..old(self)@
            }),
            input@.len() > 0 ==> (r matches Some(t) && t@ == path_joined(save_dir@, input@)
                && final(self)@ == (EditorState { filename: Some(t@), ..old(self)@ })),
    {
        if input.is_empty() {
            self.status_msg = String::from_str("Save cancelled.");
            None
        } else {
            let target = join_path(save_dir, input);
            self.filename = Some(target.clone());
            Some(target)
        }
    }

    /// The text written to the file: the lines joined by newlines.
    pub fn buffer_text(&self) -> (r: String)
        ensures
            r@ == joined(self@.lines),
    {
        join_lines(&self.lines)
    }

    /// Reports how writing `target` went: `error` is the failure's message.
    pub fn finish_save(&mut self, target: &str, error: Option<String>)
        ensures
            final(self)@ == (EditorState {
                status: match error {
                    None => "Successfully saved: "@ + target@,
                    Some(e) => "Error saving file: "@ + e@,
                },
                ..old(self)@
            }),
    {
        match error {
            None => {
                let mut msg = String::from_str("Successfully saved: ");
                msg.append(target);
                self.status_msg = msg;
            },
            Some(e) => {
                let mut msg = String::from_str("Error saving file: ");
                msg.append(e.as_str());
                self.status_msg = msg;
            },
        }
    }

    /// Ctrl+R: the most recent file of the history, to be opened; with an
    /// empty history, a message instead.
    pub fn recent_to_reopen(&mut self, history: &Vec<String>) -> (r: Option<String>)
        ensures
            history@.len() == 0 ==> r is None && final(self)@ == (EditorState {
                status: "No recent file history."@,
                ..old(self)@
            }),
            history@.len() > 0 ==> (r matches Some(t) && t@ == history@[0]@ && final(self)@ == old(
                self,
            )@),
    {
        if history.len() == 0 {
            self.status_msg = String::from_str("No recent file history.");
            None
        } else {
            Some(history[0].clone())
        }
    }

    /// Ctrl+T with an empty history: a message; otherwise nothing changes.
    /// Tells whether there is anything to pick from.
    pub fn can_pick_recent(&mut self, history_len: usize) -> (r: bool)
        ensures
            r == (history_len > 0),
            history_len == 0 ==> final(self)@ == (EditorState {
                status: "No recent files found."@,
                ..old(self)@
            }),
            history_len > 0 ==> final(self)@ == old(self)@,
    {
        if history_len == 0 {
            self.status_msg = String::from_str("No recent files found.");
            false
        } else {
            true
        }
    }
}

} // verus!
