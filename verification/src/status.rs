//! The shell's global status: the message line and search highlighting.

use vstd::prelude::*;

verus! {

/// Global state shown by the shell: the status-bar message (an error or
/// not) and whether search matches are highlighted.
#[derive(Debug, Clone)]
pub struct GlobalState {
    pub message: Option<String>,
    pub message_is_error: bool,
    pub hlsearch_enabled: bool,
}

impl GlobalState {
    /// No message, highlighting on.
    pub fn new() -> (r: Self)
        ensures
            r.message.is_none(),
            !r.message_is_error,
            r.hlsearch_enabled,
    {
        GlobalState { message: None, message_is_error: false, hlsearch_enabled: true }
    }

    /// Show `text` as an informational message.
    pub fn set_message(&mut self, text: &str)
        ensures
            final(self).message matches Some(m) && m@ == text@,
            !final(self).message_is_error,
            final(self).hlsearch_enabled == old(self).hlsearch_enabled,
    {
        self.message = Some(text.to_owned());
        self.message_is_error = false;
    }

    /// Show `text` as an error.
    pub fn set_error(&mut self, text: &str)
        ensures
            final(self).message matches Some(m) && m@ == text@,
            final(self).message_is_error,
            final(self).hlsearch_enabled == old(self).hlsearch_enabled,
    {
        self.message = Some(text.to_owned());
        self.message_is_error = true;
    }

    /// Remove the message.
    pub fn clear_message(&mut self)
        ensures
            final(self).message.is_none(),
            !final(self).message_is_error,
            final(self).hlsearch_enabled == old(self).hlsearch_enabled,
    {
        self.message = None;
        self.message_is_error = false;
    }

    /// Turn search highlighting on or off.
    pub fn set_hlsearch_enabled(&mut self, on: bool)
        ensures
            final(self).hlsearch_enabled == on,
            final(self).message == old(self).message,
            final(self).message_is_error == old(self).message_is_error,
    {
        self.hlsearch_enabled = on;
    }
}

/// Show a message effect in the status bar.
pub fn handle_show_message(globals: &mut GlobalState, text: &str)
    ensures
        final(globals).message matches Some(m) && m@ == text@,
        !final(globals).message_is_error,
        final(globals).hlsearch_enabled == old(globals).hlsearch_enabled,
{
    globals.set_message(text);
}

/// Show an error effect (its rendered text) in the status bar.
pub fn handle_show_error(globals: &mut GlobalState, error_text: &str)
    ensures
        final(globals).message matches Some(m) && m@ == error_text@,
        final(globals).message_is_error,
        final(globals).hlsearch_enabled == old(globals).hlsearch_enabled,
{
    globals.set_error(error_text);
}

/// Clear the status-bar message.
pub fn handle_clear_message(globals: &mut GlobalState)
    ensures
        final(globals).message.is_none(),
        !final(globals).message_is_error,
        final(globals).hlsearch_enabled == old(globals).hlsearch_enabled,
{
    globals.clear_message();
}

/// `:nohlsearch`: stop highlighting search matches.
pub fn handle_clear_highlights(globals: &mut GlobalState)
    ensures
        !final(globals).hlsearch_enabled,
        final(globals).message == old(globals).message,
        final(globals).message_is_error == old(globals).message_is_error,
{
    globals.set_hlsearch_enabled(false);
}

/// A line number (0-based).
#[derive(Debug, Clone, Copy, PartialEq, Eq)]
pub struct LineNumber(usize);

impl LineNumber {
    pub fn new(val: usize) -> (r: Self)
        ensures
            r.get_spec() == val,
    {
        LineNumber(val)
    }

    pub closed spec fn get_spec(self) -> usize {
        self.0
    }

    pub fn get(self) -> (r: usize)
        ensures
            r == self.get_spec(),
    {
        self.0
    }
}

} // verus!
