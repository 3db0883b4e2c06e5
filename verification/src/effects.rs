//! What the shell does with the engine's non-text effects: folds, window
//! commands, messages, search state, registers, and where cursor effects
//! put carets. Each decision is a plain function; the host performs the
//! editor calls it names.

use crate::codec::usize_to_i32;
use crate::codec::sat_i32;
use crate::codec::DocumentView;
use crate::codec::byte_to_line_col_spec;
use crate::perf::decimal;
use crate::perf::push_decimal;
use crate::status::GlobalState;
use crate::status::handle_clear_highlights;
use crate::status::handle_clear_message;
use crate::status::handle_show_error;
use crate::status::handle_show_message;
use crate::types::CharLineCol;
use crate::types::MatchRange;
use vstd::prelude::*;
use vstd::string::StringExecFns;

verus! {

// ---------------------------------------------------------------------------
// Carets
// ---------------------------------------------------------------------------

/// Where the `index`-th caret of a batch of cursor effects goes.
#[derive(Clone, Copy, Debug, PartialEq, Eq, Structural)]
pub enum CaretPlacement {
    /// With several engine cursors the carets are synced afterwards: skip.
    Skip,
    /// The primary caret: placed with scrolloff.
    Primary,
    /// A new secondary caret.
    Add,
    /// Move the existing caret with this index.
    Move(i32),
}

/// The `index`-th cursor effect of a batch, with `caret_count` carets in the
/// editor and `cursor_count` engine cursors.
pub open spec fn caret_placement_spec(cursor_count: usize, index: usize, caret_count: i32) -> CaretPlacement {
    if cursor_count > 1 {
        CaretPlacement::Skip
    } else if index == 0 {
        CaretPlacement::Primary
    } else if (index as i32) >= caret_count {
        CaretPlacement::Add
    } else {
        CaretPlacement::Move(index as i32)
    }
}

pub fn caret_placement(cursor_count: usize, index: usize, caret_count: i32) -> (r: CaretPlacement)
    ensures
        r == caret_placement_spec(cursor_count, index, caret_count),
{
    if cursor_count > 1 {
        CaretPlacement::Skip
    } else if index == 0 {
        CaretPlacement::Primary
    } else {
        let idx = index as i32;
        if idx >= caret_count {
            CaretPlacement::Add
        } else {
            CaretPlacement::Move(idx)
        }
    }
}

/// What happens to leftover carets once the cursor effects are placed.
#[derive(Clone, Copy, Debug, PartialEq, Eq, Structural)]
pub enum CaretCleanup {
    /// Several engine cursors: the multi-cursor sync owns the carets.
    Keep,
    /// Remove every caret from this index on (last first).
    RemoveFrom(i32),
    /// Keep the primary caret only.
    RemoveSecondary,
}

/// After `placed` cursor effects were placed: keep the carets they placed
/// when there were two or more, else drop all secondary carets.
pub fn caret_cleanup(cursor_count: usize, placed: usize) -> (r: CaretCleanup)
    ensures
        cursor_count > 1 ==> r == CaretCleanup::Keep,
        cursor_count <= 1 && placed >= 2 ==> r == CaretCleanup::RemoveFrom(placed as i32),
        cursor_count <= 1 && placed < 2 ==> r == CaretCleanup::RemoveSecondary,
{
    if cursor_count > 1 {
        CaretCleanup::Keep
    } else if placed >= 2 {
        CaretCleanup::RemoveFrom(placed as i32)
    } else {
        CaretCleanup::RemoveSecondary
    }
}

// ---------------------------------------------------------------------------
// Folds
// ---------------------------------------------------------------------------

/// The engine's fold effects.
#[derive(Clone, Copy, Debug, PartialEq, Eq, Structural)]
pub enum FoldEffect {
    FoldLine(usize),
    UnfoldLine(usize),
    ToggleFold(usize),
    ToggleFoldRecursive(usize),
    FoldAll,
    UnfoldAll,
    FoldLineRecursive(usize),
    UnfoldLineRecursive(usize),
    DeleteFold(usize),
    DeleteFoldRecursive(usize),
    SetFoldEnable(bool),
    EliminateAllFolds,
    ToggleFoldEnable,
}

/// The fold calls the editor offers.
#[derive(Clone, Copy, Debug, PartialEq, Eq, Structural)]
pub enum FoldCommand {
    Fold(i32),
    Unfold(i32),
    Toggle(i32),
    FoldAll,
    UnfoldAll,
}

/// The editor has no recursive folds, no fold markers and no fold-enable
/// switch: recursive commands act on the one line, deleting a fold unfolds
/// it, and disabling (or toggling) folding unfolds everything. Enabling
/// folding does nothing.
pub open spec fn fold_command_spec(e: FoldEffect) -> Option<FoldCommand> {
    match e {
        FoldEffect::FoldLine(l) => Some(FoldCommand::Fold(sat_i32(l as int))),
        FoldEffect::UnfoldLine(l) => Some(FoldCommand::Unfold(sat_i32(l as int))),
        FoldEffect::ToggleFold(l) => Some(FoldCommand::Toggle(sat_i32(l as int))),
        FoldEffect::ToggleFoldRecursive(l) => Some(FoldCommand::Toggle(sat_i32(l as int))),
        FoldEffect::FoldAll => Some(FoldCommand::FoldAll),
        FoldEffect::UnfoldAll => Some(FoldCommand::UnfoldAll),
        FoldEffect::FoldLineRecursive(l) => Some(FoldCommand::Fold(sat_i32(l as int))),
        FoldEffect::UnfoldLineRecursive(l) => Some(FoldCommand::Unfold(sat_i32(l as int))),
        FoldEffect::DeleteFold(l) => Some(FoldCommand::Unfold(sat_i32(l as int))),
        FoldEffect::DeleteFoldRecursive(l) => Some(FoldCommand::Unfold(sat_i32(l as int))),
        FoldEffect::SetFoldEnable(enabled) => if enabled {
            None
        } else {
            Some(FoldCommand::UnfoldAll)
        },
        FoldEffect::EliminateAllFolds => Some(FoldCommand::UnfoldAll),
        FoldEffect::ToggleFoldEnable => Some(FoldCommand::UnfoldAll),
    }
}

/// Fold effects do what they name, on their own line: opening (`zo`,
/// `zO`) and deleting (`zd`, `zD`) a fold unfold that line, closing (`zc`,
/// `zC`) folds it, toggling (`za`, `zA`) toggles it; `zM` folds everything;
/// `zR`, `zE` and turning folding off or toggling it unfold everything;
/// turning folding on does nothing. Lines past `i32::MAX` are addressed as
/// `i32::MAX`.
pub proof fn lemma_fold_effects_do_what_they_name(l: usize, on: bool)
    ensures
        ({
            let line = if l > i32::MAX { i32::MAX } else { l as i32 };
            &&& fold_command_spec(FoldEffect::UnfoldLine(l)) == Some(FoldCommand::Unfold(line))
            &&& fold_command_spec(FoldEffect::UnfoldLineRecursive(l)) == Some(FoldCommand::Unfold(line))
            &&& fold_command_spec(FoldEffect::DeleteFold(l)) == Some(FoldCommand::Unfold(line))
            &&& fold_command_spec(FoldEffect::DeleteFoldRecursive(l)) == Some(FoldCommand::Unfold(line))
            &&& fold_command_spec(FoldEffect::FoldLine(l)) == Some(FoldCommand::Fold(line))
            &&& fold_command_spec(FoldEffect::FoldLineRecursive(l)) == Some(FoldCommand::Fold(line))
            &&& fold_command_spec(FoldEffect::ToggleFold(l)) == Some(FoldCommand::Toggle(line))
            &&& fold_command_spec(FoldEffect::ToggleFoldRecursive(l)) == Some(FoldCommand::Toggle(line))
            &&& fold_command_spec(FoldEffect::FoldAll) == Some(FoldCommand::FoldAll)
            &&& fold_command_spec(FoldEffect::UnfoldAll) == Some(FoldCommand::UnfoldAll)
            &&& fold_command_spec(FoldEffect::EliminateAllFolds) == Some(FoldCommand::UnfoldAll)
            &&& fold_command_spec(FoldEffect::ToggleFoldEnable) == Some(FoldCommand::UnfoldAll)
            &&& fold_command_spec(FoldEffect::SetFoldEnable(on)) == (if on {
                None
            } else {
                Some(FoldCommand::UnfoldAll)
            })
        }),
{
}

pub fn fold_command(e: FoldEffect) -> (r: Option<FoldCommand>)
    ensures
        r == fold_command_spec(e),
{
    match e {
        FoldEffect::FoldLine(l) => Some(FoldCommand::Fold(usize_to_i32(l))),
        FoldEffect::UnfoldLine(l) => Some(FoldCommand::Unfold(usize_to_i32(l))),
        FoldEffect::ToggleFold(l) => Some(FoldCommand::Toggle(usize_to_i32(l))),
        FoldEffect::ToggleFoldRecursive(l) => Some(FoldCommand::Toggle(usize_to_i32(l))),
        FoldEffect::FoldAll => Some(FoldCommand::FoldAll),
        FoldEffect::UnfoldAll => Some(FoldCommand::UnfoldAll),
        FoldEffect::FoldLineRecursive(l) => Some(FoldCommand::Fold(usize_to_i32(l))),
        FoldEffect::UnfoldLineRecursive(l) => Some(FoldCommand::Unfold(usize_to_i32(l))),
        FoldEffect::DeleteFold(l) => Some(FoldCommand::Unfold(usize_to_i32(l))),
        FoldEffect::DeleteFoldRecursive(l) => Some(FoldCommand::Unfold(usize_to_i32(l))),
        FoldEffect::SetFoldEnable(enabled) => {
            if enabled {
                None
            } else {
                Some(FoldCommand::UnfoldAll)
            }
        },
        FoldEffect::EliminateAllFolds => Some(FoldCommand::UnfoldAll),
        FoldEffect::ToggleFoldEnable => Some(FoldCommand::UnfoldAll),
    }
}

// ---------------------------------------------------------------------------
// Windows
// ---------------------------------------------------------------------------

/// The engine's `Ctrl-W` window effects.
#[derive(Clone, Copy, Debug, PartialEq, Eq, Structural)]
pub enum WindowEffect {
    MoveLeft,
    MoveRight,
    MoveUp,
    MoveDown,
    Next,
    Prev,
    Close,
    Split,
    VSplit,
    Only,
    EqualSize,
    New,
    RotateDown,
    RotateUp,
    IncreaseHeight,
    DecreaseHeight,
    IncreaseWidth,
    DecreaseWidth,
}

/// Window navigation the editor can carry out (between script tabs).
#[derive(Clone, Copy, Debug, PartialEq, Eq, Structural)]
pub enum WindowNavAction {
    MoveLeft,
    MoveRight,
    MoveUp,
    MoveDown,
    CycleNext,
    CyclePrev,
    CloseTab,
}

/// Moves, cycling and closing map to tab navigation; splits, sizes,
/// rotation and new windows have no meaning with one editor per tab.
pub open spec fn window_nav_spec(e: WindowEffect) -> Option<WindowNavAction> {
    match e {
        WindowEffect::MoveLeft => Some(WindowNavAction::MoveLeft),
        WindowEffect::MoveRight => Some(WindowNavAction::MoveRight),
        WindowEffect::MoveUp => Some(WindowNavAction::MoveUp),
        WindowEffect::MoveDown => Some(WindowNavAction::MoveDown),
        WindowEffect::Next => Some(WindowNavAction::CycleNext),
        WindowEffect::Prev => Some(WindowNavAction::CyclePrev),
        WindowEffect::Close => Some(WindowNavAction::CloseTab),
        _ => None,
    }
}

pub fn window_nav_for_effect(e: WindowEffect) -> (r: Option<WindowNavAction>)
    ensures
        r == window_nav_spec(e),
{
    match e {
        WindowEffect::MoveLeft => Some(WindowNavAction::MoveLeft),
        WindowEffect::MoveRight => Some(WindowNavAction::MoveRight),
        WindowEffect::MoveUp => Some(WindowNavAction::MoveUp),
        WindowEffect::MoveDown => Some(WindowNavAction::MoveDown),
        WindowEffect::Next => Some(WindowNavAction::CycleNext),
        WindowEffect::Prev => Some(WindowNavAction::CyclePrev),
        WindowEffect::Close => Some(WindowNavAction::CloseTab),
        _ => None,
    }
}

/// The session's deferred window navigation requests.
#[derive(Clone, Copy, Debug, PartialEq, Eq, Structural)]
pub enum SessionWindowNav {
    MoveLeft,
    MoveRight,
    MoveUp,
    MoveDown,
    CycleNext,
    CyclePrev,
    Close,
    RotateDown,
    RotateUp,
    Split,
    VSplit,
    Only,
}

/// Whether the keys of a `:norm` command go through mappings.
#[derive(Debug, Clone, Copy, PartialEq, Eq, Structural)]
pub enum RemapPolicy {
    Remap,
    NoRemap,
}

/// A multi-step action the controller carries out after dispatch: a
/// `:norm` command over a line range, or a window navigation.
#[derive(Debug, Clone)]
pub enum CompoundAction {
    NormCommand { start_line: usize, end_line: usize, keys: String, remap: RemapPolicy },
    WindowNav { action: WindowNavAction },
}

/// The `:norm` command effect as the compound action the controller runs:
/// the same line range and keys, with mappings applied when `remap`.
pub fn norm_command_action(start_line: usize, end_line: usize, keys: &str, remap: bool) -> (r: CompoundAction)
    ensures
        r matches CompoundAction::NormCommand { start_line: s, end_line: e, keys: k, remap: p } && s == start_line
            && e == end_line && k@ == keys@ && p == (if remap {
            RemapPolicy::Remap
        } else {
            RemapPolicy::NoRemap
        }),
{
    let policy = if remap {
        RemapPolicy::Remap
    } else {
        RemapPolicy::NoRemap
    };
    CompoundAction::NormCommand { start_line, end_line, keys: keys.to_owned(), remap: policy }
}

/// A window effect as the compound action the controller runs, when it is
/// a navigation (see [`window_nav_spec`]).
pub fn window_compound_action(e: WindowEffect) -> (r: Option<CompoundAction>)
    ensures
        match window_nav_spec(e) {
            Some(a) => r matches Some(CompoundAction::WindowNav { action }) && action == a,
            None => r is None,
        },
{
    match window_nav_for_effect(e) {
        Some(action) => Some(CompoundAction::WindowNav { action }),
        None => None,
    }
}

/// Rotation cycles the tabs; the rest maps one to one; splitting and
/// `only` are not supported.
pub open spec fn convert_window_nav_spec(nav: SessionWindowNav) -> Option<WindowNavAction> {
    match nav {
        SessionWindowNav::MoveLeft => Some(WindowNavAction::MoveLeft),
        SessionWindowNav::MoveRight => Some(WindowNavAction::MoveRight),
        SessionWindowNav::MoveUp => Some(WindowNavAction::MoveUp),
        SessionWindowNav::MoveDown => Some(WindowNavAction::MoveDown),
        SessionWindowNav::CycleNext => Some(WindowNavAction::CycleNext),
        SessionWindowNav::CyclePrev => Some(WindowNavAction::CyclePrev),
        SessionWindowNav::Close => Some(WindowNavAction::CloseTab),
        SessionWindowNav::RotateDown => Some(WindowNavAction::CycleNext),
        SessionWindowNav::RotateUp => Some(WindowNavAction::CyclePrev),
        _ => None,
    }
}

pub fn convert_window_nav_action(nav: SessionWindowNav) -> (r: Option<WindowNavAction>)
    ensures
        r == convert_window_nav_spec(nav),
{
    match nav {
        SessionWindowNav::MoveLeft => Some(WindowNavAction::MoveLeft),
        SessionWindowNav::MoveRight => Some(WindowNavAction::MoveRight),
        SessionWindowNav::MoveUp => Some(WindowNavAction::MoveUp),
        SessionWindowNav::MoveDown => Some(WindowNavAction::MoveDown),
        SessionWindowNav::CycleNext => Some(WindowNavAction::CycleNext),
        SessionWindowNav::CyclePrev => Some(WindowNavAction::CyclePrev),
        SessionWindowNav::Close => Some(WindowNavAction::CloseTab),
        SessionWindowNav::RotateDown => Some(WindowNavAction::CycleNext),
        SessionWindowNav::RotateUp => Some(WindowNavAction::CyclePrev),
        _ => None,
    }
}

// ---------------------------------------------------------------------------
// Messages, errors, search state
// ---------------------------------------------------------------------------

/// Effects that only change the shell's status and search state.
pub enum StatusEffect {
    ShowInfo(String),
    ShowWarning(String),
    /// An error, by its rendered text.
    ShowError(String),
    ClearMessage,
    /// A search pattern was set: highlighting comes back on.
    SetSearchPattern,
    /// `:nohlsearch`.
    ClearHighlights,
    /// Position of the current match among all matches.
    SearchMatchInfo { current: usize, total: usize },
    /// A named host action, reported to the user.
    HostAction(String),
    /// A filter command reached the shell instead of being handled first.
    OperatorFilter,
    /// `q:` / `q/`.
    OpenCommandWindow,
    /// `g@`.
    CallOperatorFunc,
}

/// The status line after a status effect: `Some((text, is_error))` for a
/// message, `None` when the message is cleared, unchanged otherwise; and the
/// highlight switch.
pub open spec fn status_effect_spec(e: StatusEffect, before: GlobalState) -> (Option<(Seq<char>, bool)>, bool) {
    let msg = match before.message {
        Some(m) => Some((m@, before.message_is_error)),
        None => None,
    };
    match e {
        StatusEffect::ShowInfo(t) => (Some((t@, false)), before.hlsearch_enabled),
        StatusEffect::ShowWarning(t) => (Some((t@, false)), before.hlsearch_enabled),
        StatusEffect::ShowError(t) => (Some((t@, true)), before.hlsearch_enabled),
        StatusEffect::ClearMessage => (None, before.hlsearch_enabled),
        StatusEffect::SetSearchPattern => (msg, true),
        StatusEffect::ClearHighlights => (msg, false),
        StatusEffect::SearchMatchInfo { current, total } => (
            Some(("["@ + decimal(current as nat) + "/"@ + decimal(total as nat) + "]"@, false)),
            before.hlsearch_enabled,
        ),
        StatusEffect::HostAction(name) => (Some(("HostAction: "@ + name@, false)), before.hlsearch_enabled),
        StatusEffect::OperatorFilter => (
            Some(("Internal error: filter command not processed — please report this bug"@, true)),
            before.hlsearch_enabled,
        ),
        StatusEffect::OpenCommandWindow => (
            Some(("E11: Command window not supported in CodeEdit"@, true)),
            before.hlsearch_enabled,
        ),
        StatusEffect::CallOperatorFunc => (
            Some(("E774: operatorfunc (g@) not yet supported"@, true)),
            before.hlsearch_enabled,
        ),
    }
}

/// The shell status seen as `(message and whether it is an error,
/// highlighting on)`.
pub open spec fn status_view(g: GlobalState) -> (Option<(Seq<char>, bool)>, bool) {
    (
        match g.message {
            Some(m) => Some((m@, g.message_is_error)),
            None => None,
        },
        g.hlsearch_enabled,
    )
}

/// Apply a status effect to the shell's status.
pub fn apply_status_effect(globals: &mut GlobalState, e: StatusEffect)
    ensures
        status_view(*final(globals)) == status_effect_spec(e, *old(globals)),
{
    match e {
        StatusEffect::ShowInfo(t) => handle_show_message(globals, t.as_str()),
        StatusEffect::ShowWarning(t) => handle_show_message(globals, t.as_str()),
        StatusEffect::ShowError(t) => handle_show_error(globals, t.as_str()),
        StatusEffect::ClearMessage => handle_clear_message(globals),
        StatusEffect::SetSearchPattern => globals.set_hlsearch_enabled(true),
        StatusEffect::ClearHighlights => handle_clear_highlights(globals),
        StatusEffect::SearchMatchInfo { current, total } => {
            let mut msg = String::new();
            msg.append("[");
            push_decimal(&mut msg, current as u64);
            msg.append("/");
            push_decimal(&mut msg, total as u64);
            msg.append("]");
            handle_show_message(globals, msg.as_str());
        },
        StatusEffect::HostAction(name) => {
            let mut msg = String::new();
            msg.append("HostAction: ");
            msg.append(name.as_str());
            handle_show_message(globals, msg.as_str());
        },
        StatusEffect::OperatorFilter => {
            globals.set_error("Internal error: filter command not processed — please report this bug");
        },
        StatusEffect::OpenCommandWindow => {
            globals.set_error("E11: Command window not supported in CodeEdit");
        },
        StatusEffect::CallOperatorFunc => {
            globals.set_error("E774: operatorfunc (g@) not yet supported");
        },
    }
}

// ---------------------------------------------------------------------------
// Registers
// ---------------------------------------------------------------------------

/// Only the selection and clipboard registers (`*` and `+`) reach the
/// system clipboard.
pub fn register_syncs_clipboard(name: char) -> (r: bool)
    ensures
        r == (name == '*' || name == '+'),
{
    name == '*' || name == '+'
}

/// The system clipboard. `contents` is the text it holds: a read gives it
/// back, and a write replaces it.
pub trait ClipboardPort {
    spec fn contents(&self) -> String;

    fn read(&self) -> (r: String)
        ensures
            r@ == self.contents()@,
    ;

    fn write(&mut self, text: &str)
        ensures
            final(self).contents()@ == text@,
    ;
}

/// An in-memory clipboard.
pub struct MockClipboard {
    pub content: String,
}

impl MockClipboard {
    /// An empty clipboard.
    pub fn new() -> (r: Self)
        ensures
            r.content@ == Seq::<char>::empty(),
    {
        MockClipboard { content: String::new() }
    }
}

impl ClipboardPort for MockClipboard {
    open spec fn contents(&self) -> String {
        self.content
    }

    fn read(&self) -> (r: String)
        ensures
            r@ == self.content@,
    {
        self.content.clone()
    }

    fn write(&mut self, text: &str)
        ensures
            final(self).content@ == text@,
    {
        self.content = text.to_owned();
    }
}

/// A register write reaches the clipboard for `*` and `+`; returns whether
/// it was written.
pub fn sync_register_to_clipboard<C: ClipboardPort>(name: char, content: &str, clipboard: &mut C) -> (r: bool)
    ensures
        r == (name == '*' || name == '+'),
        r ==> final(clipboard).contents()@ == content@,
        !r ==> *final(clipboard) == *old(clipboard),
{
    if register_syncs_clipboard(name) {
        clipboard.write(content);
        true
    } else {
        false
    }
}

/// An explicit copy always reaches the clipboard.
pub fn handle_copy_to_clipboard<C: ClipboardPort>(content: &str, clipboard: &mut C)
    ensures
        final(clipboard).contents()@ == content@,
{
    clipboard.write(content);
}

// ---------------------------------------------------------------------------
// Substitute preview
// ---------------------------------------------------------------------------

/// Most matches shown in a substitute preview.
pub const MAX_SUBSTITUTE_PREVIEW_MATCHES: usize = 100;

/// The editor positions of a match `[start, end)`.
pub open spec fn match_range_spec(cs: Seq<char>, start: int, end: int) -> MatchRange {
    let (sl, sc) = byte_to_line_col_spec(cs, start);
    let (el, ec) = byte_to_line_col_spec(cs, end);
    MatchRange { start: CharLineCol { line: sl, col: sc }, end: CharLineCol { line: el, col: ec } }
}

/// `p` shows the match `m` of the text `cs`.
pub open spec fn previews(cs: Seq<char>, m: (usize, usize, String), p: (MatchRange, String)) -> bool {
    &&& p.0 == match_range_spec(cs, m.0 as int, m.1 as int)
    &&& p.1@ == m.2@
}

/// The preview of a substitution: the first
/// [`MAX_SUBSTITUTE_PREVIEW_MATCHES`] matches `(start, end, replacement)`
/// as editor ranges with their replacements.
pub fn substitute_preview(doc: &DocumentView, matches: &Vec<(usize, usize, String)>) -> (r: Vec<(MatchRange, String)>)
    requires
        doc.wf(),
    ensures
        r@.len() == if matches@.len() < MAX_SUBSTITUTE_PREVIEW_MATCHES {
            matches@.len() as int
        } else {
            MAX_SUBSTITUTE_PREVIEW_MATCHES as int
        },
        forall|i: int| 0 <= i < r@.len() ==> #[trigger] previews(doc.text@, matches@[i], r@[i]),
{
    let n = if matches.len() < MAX_SUBSTITUTE_PREVIEW_MATCHES {
        matches.len()
    } else {
        MAX_SUBSTITUTE_PREVIEW_MATCHES
    };
    let mut out: Vec<(MatchRange, String)> = Vec::new();
    let mut i: usize = 0;
    while i < n
        invariant
            doc.wf(),
            i <= n,
            n <= matches@.len(),
            out@.len() == i,
            forall|j: int| 0 <= j < i ==> #[trigger] previews(doc.text@, matches@[j], out@[j]),
        decreases n - i,
    {
        let (start, end, ref repl) = matches[i];
        let s = doc.line_index.byte_to_line_col(doc.text, start);
        let e = doc.line_index.byte_to_line_col(doc.text, end);
        let r = repl.clone();
        out.push((MatchRange::new(s, e), r));
        i = i + 1;
    }
    out
}

} // verus!
