use vstd::prelude::*;
use vstd::string::StringExecFns;

verus! {

/// A navigation command built from key presses.
#[derive(Debug, Clone)]
pub enum NavigationCommand {
    NextMatch,
    PreviousMatch,
    FirstMatch,
    LastMatch,
    NextMatchWithCount(usize),
    PreviousMatchWithCount(usize),
    FirstMatchInCurrentFile,
    LastMatchInCurrentFile,
    NextFile,
    PreviousFile,
    NextFileWithCount(usize),
    PreviousFileWithCount(usize),
    YankMatchedLine,
    OpenInExplorer,
    SetMark(char),
    GotoMark(char),
}

/// State of a multi-key command being typed (like "gg" or "3n").
pub struct InputHandler {
    pub pending_keys: String,
    pub count_buffer: String,
    pub waiting_for_mark_char: bool,
    pub waiting_for_goto_mark_char: bool,
}

impl InputHandler {
    /// No keys pending.
    pub fn new() -> (r: InputHandler)
        ensures
            r.pending_keys@.len() == 0,
            r.count_buffer@.len() == 0,
            !r.waiting_for_mark_char,
            !r.waiting_for_goto_mark_char,
    {
        InputHandler {
            pending_keys: String::new(),
            count_buffer: String::new(),
            waiting_for_mark_char: false,
            waiting_for_goto_mark_char: false,
        }
    }

    /// Drops whatever was being typed.
    pub fn reset(&mut self)
        ensures
            final(self).pending_keys@.len() == 0,
            final(self).count_buffer@.len() == 0,
            !final(self).waiting_for_mark_char,
            !final(self).waiting_for_goto_mark_char,
    {
        self.pending_keys = String::new();
        self.count_buffer = String::new();
        self.waiting_for_mark_char = false;
        self.waiting_for_goto_mark_char = false;
    }

    /// What is being typed, for display: the count, then the pending keys
    /// (e.g. "3" or "g").
    pub fn get_status(&self) -> (r: String)
        ensures
            r@ == self.count_buffer@ + self.pending_keys@,
    {
        let mut s = self.count_buffer.clone();
        s.append(self.pending_keys.as_str());
        s
    }
}

} // verus!
