//! State of `:vimdebug`, a developer tool for inspecting the engine's
//! effect pipeline.
//!
//! Two modes:
//! - **Watch**: status annotations (provenance, effect summary, range);
//! - **Step**: the effects of a key are held back and applied one by one
//!   with n(ext) / p(rev) / c(ontinue) / q(uit).
//!
//! Every held effect is applied at most once: `step_prev` only moves the
//! display back, and `step_next` and `step_continue` skip what was applied.

use crate::codec::floor_char_boundary;
use crate::codec::min_int;
use crate::perf::decimal;
use crate::perf::push_decimal;
use crate::text::byte_at;
use crate::text::byte_len;
use crate::text::chars_within;
use crate::text::lemma_byte_at_full;
use crate::text::lemma_chars_within;
use crate::text::slice_chars;
use crate::text::str_byte_len;
use crate::status::handle_show_message;
use crate::status::GlobalState;
use crate::strs::str_equal;
use crate::strs::trim;
use crate::strs::trim_spec;
use crate::types::MatchRange;
use vstd::prelude::*;

verus! {

/// Longest effect description shown on the step status line, in bytes.
pub const STEP_DESC_MAX_LEN: usize = 60;

/// Whether `:vimdebug` is off, watching, or stepping.
#[derive(Clone, Copy, Debug, PartialEq, Eq, Structural)]
pub enum VimdebugMode {
    Off,
    Watch,
    Step,
}

/// The `:vimdebug` state: mode, the captured annotations of the last key,
/// and the held effects with which of them were applied.
pub struct VimdebugState {
    mode: VimdebugMode,
    provenance: Option<String>,
    effects: Option<String>,
    range: Option<MatchRange>,
    descriptions: Vec<String>,
    applied: Vec<bool>,
    step_index: usize,
}

/// The description shown for an effect: cut at the last character
/// boundary within [`STEP_DESC_MAX_LEN`] bytes when longer.
pub open spec fn shown_description(d: Seq<char>) -> Seq<char> {
    if byte_len(d) > STEP_DESC_MAX_LEN {
        d.take(chars_within(d, STEP_DESC_MAX_LEN as int))
    } else {
        d
    }
}

impl VimdebugState {
    /// The applied flags match the held effects, and the cursor is within them.
    pub closed spec fn wf(&self) -> bool {
        &&& self.descriptions@.len() == self.applied@.len()
        &&& self.step_index <= self.applied@.len()
    }

    pub closed spec fn mode_spec(&self) -> VimdebugMode {
        self.mode
    }

    /// Which held effects were applied, in order.
    pub closed spec fn applied_spec(&self) -> Seq<bool> {
        self.applied@
    }

    /// Descriptions of the held effects.
    pub closed spec fn descriptions_spec(&self) -> Seq<Seq<char>> {
        self.descriptions@.map_values(|d: String| d@)
    }

    /// Position of the step cursor among the held effects.
    pub closed spec fn index_spec(&self) -> int {
        self.step_index as int
    }

    pub closed spec fn provenance_spec(&self) -> Option<Seq<char>> {
        match self.provenance {
            Some(p) => Some(p@),
            None => None,
        }
    }

    pub closed spec fn effects_spec(&self) -> Option<Seq<char>> {
        match self.effects {
            Some(e) => Some(e@),
            None => None,
        }
    }

    pub closed spec fn range_spec(&self) -> Option<MatchRange> {
        self.range
    }

    pub open spec fn enabled_spec(&self) -> bool {
        self.mode_spec() != VimdebugMode::Off
    }

    /// Nothing captured and nothing held.
    pub open spec fn is_cleared(&self) -> bool {
        &&& self.provenance_spec() is None
        &&& self.effects_spec() is None
        &&& self.range_spec() is None
        &&& self.applied_spec().len() == 0
        &&& self.index_spec() == 0
    }

    /// The captures and held effects are those of `other`.
    pub open spec fn keeps_captures(&self, other: Self) -> bool {
        &&& self.provenance_spec() == other.provenance_spec()
        &&& self.effects_spec() == other.effects_spec()
        &&& self.range_spec() == other.range_spec()
        &&& self.applied_spec() == other.applied_spec()
        &&& self.descriptions_spec() == other.descriptions_spec()
        &&& self.index_spec() == other.index_spec()
    }

    /// The step cursor lies within the held effects.
    pub proof fn lemma_index_within(&self)
        requires
            self.wf(),
        ensures
            0 <= self.index_spec() <= self.applied_spec().len(),
    {
    }

    /// Off, with nothing captured or held.
    pub fn new() -> (r: Self)
        ensures
            r.wf(),
            r.mode_spec() == VimdebugMode::Off,
            r.is_cleared(),
    {
        VimdebugState {
            mode: VimdebugMode::Off,
            provenance: None,
            effects: None,
            range: None,
            descriptions: Vec::new(),
            applied: Vec::new(),
            step_index: 0,
        }
    }

    pub fn is_enabled(&self) -> (r: bool)
        ensures
            r == self.enabled_spec(),
    {
        !matches!(self.mode, VimdebugMode::Off)
    }

    pub fn is_step_mode(&self) -> (r: bool)
        ensures
            r == (self.mode_spec() == VimdebugMode::Step),
    {
        matches!(self.mode, VimdebugMode::Step)
    }

    pub fn mode(&self) -> (r: VimdebugMode)
        ensures
            r == self.mode_spec(),
    {
        self.mode
    }

    /// Switch mode; switching off drops every capture and held effect.
    pub fn set_mode(&mut self, mode: VimdebugMode)
        requires
            old(self).wf(),
        ensures
            final(self).wf(),
            final(self).mode_spec() == mode,
            mode == VimdebugMode::Off ==> final(self).is_cleared(),
            mode != VimdebugMode::Off ==> {
                &&& final(self).provenance_spec() == old(self).provenance_spec()
                &&& final(self).effects_spec() == old(self).effects_spec()
                &&& final(self).range_spec() == old(self).range_spec()
                &&& final(self).applied_spec() == old(self).applied_spec()
                &&& final(self).descriptions_spec() == old(self).descriptions_spec()
                &&& final(self).index_spec() == old(self).index_spec()
            },
    {
        self.mode = mode;
        if let VimdebugMode::Off = mode {
            self.provenance = None;
            self.effects = None;
            self.range = None;
            self.descriptions = Vec::new();
            self.applied = Vec::new();
            self.step_index = 0;
        }
    }

    pub fn provenance(&self) -> (r: Option<&String>)
        ensures
            match r {
                Some(p) => self.provenance_spec() == Some(p@),
                None => self.provenance_spec() is None,
            },
    {
        self.provenance.as_ref()
    }

    pub fn effects_summary(&self) -> (r: Option<&String>)
        ensures
            match r {
                Some(e) => self.effects_spec() == Some(e@),
                None => self.effects_spec() is None,
            },
    {
        self.effects.as_ref()
    }

    pub fn range(&self) -> (r: Option<MatchRange>)
        ensures
            r == self.range_spec(),
    {
        self.range
    }

    /// Record where the key's command came from, while enabled.
    pub fn capture_provenance(&mut self, provenance: Option<&str>)
        requires
            old(self).wf(),
        ensures
            final(self).wf(),
            final(self).provenance_spec() == (if old(self).enabled_spec() {
                match provenance {
                    Some(p) => Some(p@),
                    None => None,
                }
            } else {
                old(self).provenance_spec()
            }),
            final(self).mode_spec() == old(self).mode_spec(),
            final(self).effects_spec() == old(self).effects_spec(),
            final(self).range_spec() == old(self).range_spec(),
            final(self).applied_spec() == old(self).applied_spec(),
            final(self).index_spec() == old(self).index_spec(),
    {
        if self.is_enabled() {
            self.provenance = match provenance {
                Some(p) => Some(p.to_owned()),
                None => None,
            };
        }
    }

    /// Record the summary of the key's effects, while enabled.
    pub fn capture_effects_summary(&mut self, summary: String)
        requires
            old(self).wf(),
        ensures
            final(self).wf(),
            final(self).effects_spec() == (if old(self).enabled_spec() {
                Some(summary@)
            } else {
                old(self).effects_spec()
            }),
            final(self).mode_spec() == old(self).mode_spec(),
            final(self).provenance_spec() == old(self).provenance_spec(),
            final(self).range_spec() == old(self).range_spec(),
            final(self).applied_spec() == old(self).applied_spec(),
            final(self).index_spec() == old(self).index_spec(),
    {
        if self.is_enabled() {
            self.effects = Some(summary);
        }
    }

    /// Record the range the key's effects touched, while enabled.
    pub fn capture_range(&mut self, range: Option<MatchRange>)
        requires
            old(self).wf(),
        ensures
            final(self).wf(),
            final(self).range_spec() == (if old(self).enabled_spec() {
                range
            } else {
                old(self).range_spec()
            }),
            final(self).mode_spec() == old(self).mode_spec(),
            final(self).provenance_spec() == old(self).provenance_spec(),
            final(self).effects_spec() == old(self).effects_spec(),
            final(self).applied_spec() == old(self).applied_spec(),
            final(self).index_spec() == old(self).index_spec(),
    {
        if self.is_enabled() {
            self.range = range;
        }
    }

    /// Drop the captured annotations of the previous key.
    pub fn clear_captures(&mut self)
        requires
            old(self).wf(),
        ensures
            final(self).wf(),
            final(self).provenance_spec() is None,
            final(self).effects_spec() is None,
            final(self).range_spec() is None,
            final(self).mode_spec() == old(self).mode_spec(),
            final(self).applied_spec() == old(self).applied_spec(),
            final(self).descriptions_spec() == old(self).descriptions_spec(),
            final(self).index_spec() == old(self).index_spec(),
    {
        self.provenance = None;
        self.effects = None;
        self.range = None;
    }

    /// Hold a new list of effects, none applied, the cursor on the first.
    pub fn load_step_effects(&mut self, descriptions: Vec<String>)
        requires
            old(self).wf(),
        ensures
            final(self).wf(),
            final(self).descriptions_spec() == descriptions@.map_values(|d: String| d@),
            final(self).applied_spec() == Seq::new(descriptions@.len(), |i: int| false),
            final(self).index_spec() == 0,
            final(self).mode_spec() == old(self).mode_spec(),
    {
        let n = descriptions.len();
        let mut applied: Vec<bool> = Vec::new();
        let mut i: usize = 0;
        while i < n
            invariant
                i <= n,
                applied@ == Seq::new(i as nat, |j: int| false),
            decreases n - i,
        {
            applied.push(false);
            i = i + 1;
        }
        self.descriptions = descriptions;
        self.applied = applied;
        self.step_index = 0;
    }

    /// Apply the next effect that was not applied yet: its index is
    /// returned and marked applied, and the cursor moves past it. `None`
    /// (cursor at the end) when every effect from the cursor on was applied.
    pub fn step_next(&mut self) -> (r: Option<usize>)
        requires
            old(self).wf(),
        ensures
            final(self).wf(),
            final(self).descriptions_spec() == old(self).descriptions_spec(),
            final(self).mode_spec() == old(self).mode_spec(),
            match r {
                Some(i) => {
                    &&& old(self).index_spec() <= i < old(self).applied_spec().len()
                    &&& !old(self).applied_spec()[i as int]
                    &&& forall|j: int| old(self).index_spec() <= j < i ==> old(self).applied_spec()[j]
                    &&& final(self).applied_spec() == old(self).applied_spec().update(i as int, true)
                    &&& final(self).index_spec() == i + 1
                },
                None => {
                    &&& forall|j: int| old(self).index_spec() <= j < old(self).applied_spec().len() ==> old(self).applied_spec()[j]
                    &&& final(self).applied_spec() == old(self).applied_spec()
                    &&& final(self).index_spec() == old(self).applied_spec().len()
                },
            },
    {
        let n = self.applied.len();
        let k = first_unapplied(&self.applied, self.step_index);
        if k < n {
            self.applied.set(k, true);
            self.step_index = k + 1;
            Some(k)
        } else {
            self.step_index = n;
            None
        }
    }

    /// Move the display back one effect; nothing is unapplied.
    pub fn step_prev(&mut self)
        requires
            old(self).wf(),
        ensures
            final(self).wf(),
            final(self).index_spec() == (if old(self).index_spec() > 0 {
                old(self).index_spec() - 1
            } else {
                0
            }),
            final(self).applied_spec() == old(self).applied_spec(),
            final(self).descriptions_spec() == old(self).descriptions_spec(),
            final(self).mode_spec() == old(self).mode_spec(),
    {
        if self.step_index > 0 {
            self.step_index = self.step_index - 1;
        }
    }

    /// Apply every remaining effect not applied yet: their indices are
    /// returned in order, all are marked applied, and the cursor goes to the
    /// end.
    pub fn step_continue(&mut self) -> (r: Vec<usize>)
        requires
            old(self).wf(),
        ensures
            final(self).wf(),
            final(self).descriptions_spec() == old(self).descriptions_spec(),
            final(self).mode_spec() == old(self).mode_spec(),
            final(self).index_spec() == old(self).applied_spec().len(),
            final(self).applied_spec() == Seq::new(
                old(self).applied_spec().len(),
                |j: int| old(self).applied_spec()[j] || old(self).index_spec() <= j,
            ),
            forall|a: int, b: int| 0 <= a < b < r@.len() ==> r@[a] < r@[b],
            forall|a: int|
                0 <= a < r@.len() ==> old(self).index_spec() <= #[trigger] r@[a] < old(
                    self,
                ).applied_spec().len() && !old(self).applied_spec()[r@[a] as int],
            forall|j: int|
                old(self).index_spec() <= j < old(self).applied_spec().len() && !old(
                    self,
                ).applied_spec()[j] ==> r@.contains(j as usize),
    {
        let (applied, remaining) = apply_remaining(&self.applied, self.step_index);
        self.step_index = self.applied.len();
        self.applied = applied;
        remaining
    }

    /// Drop the held effects.
    pub fn step_quit(&mut self)
        requires
            old(self).wf(),
        ensures
            final(self).wf(),
            final(self).applied_spec().len() == 0,
            final(self).index_spec() == 0,
            final(self).mode_spec() == old(self).mode_spec(),
            final(self).provenance_spec() == old(self).provenance_spec(),
            final(self).effects_spec() == old(self).effects_spec(),
            final(self).range_spec() == old(self).range_spec(),
    {
        self.descriptions = Vec::new();
        self.applied = Vec::new();
        self.step_index = 0;
    }

    /// Whether effects are held and the cursor is before the end.
    pub fn has_pending_steps(&self) -> (r: bool)
        requires
            self.wf(),
        ensures
            r == (self.applied_spec().len() > 0 && self.index_spec() < self.applied_spec().len()),
    {
        self.applied.len() > 0 && self.step_index < self.applied.len()
    }

    /// The step status line `[k/n] description | n:next p:prev c:all q:quit`,
    /// where `k` counts from 1 the effect under the cursor (or is `n` at the
    /// end, with `(all applied)` as the description). `None` when nothing is
    /// held.
    pub fn step_status_line(&self) -> (r: Option<String>)
        requires
            self.wf(),
        ensures
            ({
                let n = self.applied_spec().len();
                let cur = self.index_spec();
                if n == 0 {
                    r is None
                } else {
                    let shown = if cur < n {
                        shown_description(self.descriptions_spec()[cur])
                    } else {
                        "(all applied)"@
                    };
                    let k = if cur < n {
                        cur + 1
                    } else {
                        n as int
                    };
                    r matches Some(s) && s@ == "["@ + decimal(k as nat) + "/"@ + decimal(n) + "] "@
                        + shown + " | n:next p:prev c:all q:quit"@
                }
            }),
    {
        let total = self.applied.len();
        if total == 0 {
            return None;
        }
        let current = if self.step_index < total {
            self.step_index
        } else {
            total
        };
        let mut out = String::new();
        out.append("[");
        let shown_idx = if current < total {
            current + 1
        } else {
            total
        };
        push_decimal(&mut out, shown_idx as u64);
        out.append("/");
        push_decimal(&mut out, total as u64);
        out.append("] ");
        if current < total {
            let d: &str = self.descriptions[current].as_str();
            proof {
                assert(self.descriptions_spec()[current as int] == d@);
            }
            if str_byte_len(d) > STEP_DESC_MAX_LEN {
                let end = floor_char_boundary(d, STEP_DESC_MAX_LEN);
                proof {
                    lemma_chars_within(d@, STEP_DESC_MAX_LEN as int);
                    lemma_byte_at_full(d@);
                    assert(min_int(STEP_DESC_MAX_LEN as int, byte_len(d@) as int) == STEP_DESC_MAX_LEN);
                }
                let cut = slice_chars(d, 0, end, Ghost(0), Ghost(chars_within(d@, STEP_DESC_MAX_LEN as int)));
                proof {
                    assert(d@.subrange(0, chars_within(d@, STEP_DESC_MAX_LEN as int)) =~= d@.take(
                        chars_within(d@, STEP_DESC_MAX_LEN as int),
                    ));
                }
                out.append(cut);
            } else {
                out.append(d);
            }
        } else {
            out.append("(all applied)");
        }
        out.append(" | n:next p:prev c:all q:quit");
        Some(out)
    }
}

impl Default for VimdebugState {
    fn default() -> (r: Self)
        ensures
            r.wf(),
            r.mode_spec() == VimdebugMode::Off,
            r.is_cleared(),
    {
        VimdebugState::new()
    }
}

/// What the status bar shows of `:vimdebug`.
pub enum VimdebugSnapshot {
    /// Nothing captured.
    Inactive,
    Watch { provenance: String, effects: String, range: Option<MatchRange> },
    Step { provenance: String, effects: String, range: Option<MatchRange>, step_status: String },
}

impl VimdebugState {
    /// The status-bar view: annotations only once both the provenance and
    /// the effect summary were captured, with the step status line while
    /// effects are held.
    pub fn snapshot(&self) -> (r: VimdebugSnapshot)
        requires
            self.wf(),
        ensures
            match (self.provenance_spec(), self.effects_spec()) {
                (Some(p), Some(e)) => if self.applied_spec().len() > 0 {
                    r matches VimdebugSnapshot::Step { provenance, effects, range, step_status: _ } && provenance@ == p
                        && effects@ == e && range == self.range_spec()
                } else {
                    r matches VimdebugSnapshot::Watch { provenance, effects, range } && provenance@ == p && effects@
                        == e && range == self.range_spec()
                },
                _ => r is Inactive,
            },
    {
        match (&self.provenance, &self.effects) {
            (Some(p), Some(e)) => {
                let provenance = p.clone();
                let effects = e.clone();
                match self.step_status_line() {
                    Some(step_status) => VimdebugSnapshot::Step { provenance, effects, range: self.range, step_status },
                    None => VimdebugSnapshot::Watch { provenance, effects, range: self.range },
                }
            },
            _ => VimdebugSnapshot::Inactive,
        }
    }
}

/// The effect of a `:vimdebug` command: the new mode and the message to
/// show. Bare `:vimdebug` (or `on`) toggles between off and watch; `off`,
/// `watch` and `step` set their mode. `None` for anything else.
pub open spec fn vimdebug_command_spec(cmd: Seq<char>, current: VimdebugMode) -> Option<(VimdebugMode, Seq<char>)> {
    let c = trim_spec(cmd);
    if c == "vimdebug"@ || c == "vimdebug on"@ {
        if current == VimdebugMode::Off {
            Some((VimdebugMode::Watch, ":vimdebug ON (watch)"@))
        } else {
            Some((VimdebugMode::Off, ":vimdebug OFF"@))
        }
    } else if c == "vimdebug off"@ {
        Some((VimdebugMode::Off, ":vimdebug OFF"@))
    } else if c == "vimdebug watch"@ {
        Some((VimdebugMode::Watch, ":vimdebug ON (watch)"@))
    } else if c == "vimdebug step"@ {
        Some((VimdebugMode::Step, ":vimdebug ON (step)"@))
    } else {
        None
    }
}

/// Decide a `:vimdebug` command (see [`vimdebug_command_spec`]).
pub fn vimdebug_command(cmd: &str, current: VimdebugMode) -> (r: Option<(VimdebugMode, &'static str)>)
    ensures
        match r {
            Some((m, msg)) => vimdebug_command_spec(cmd@, current) == Some((m, msg@)),
            None => vimdebug_command_spec(cmd@, current) is None,
        },
{
    let c = trim(cmd);
    if str_equal(c, "vimdebug") || str_equal(c, "vimdebug on") {
        if let VimdebugMode::Off = current {
            Some((VimdebugMode::Watch, ":vimdebug ON (watch)"))
        } else {
            Some((VimdebugMode::Off, ":vimdebug OFF"))
        }
    } else if str_equal(c, "vimdebug off") {
        Some((VimdebugMode::Off, ":vimdebug OFF"))
    } else if str_equal(c, "vimdebug watch") {
        Some((VimdebugMode::Watch, ":vimdebug ON (watch)"))
    } else if str_equal(c, "vimdebug step") {
        Some((VimdebugMode::Step, ":vimdebug ON (step)"))
    } else {
        None
    }
}

/// Carry out a `:vimdebug` command: set the mode and show its message.
/// Unknown commands change nothing.
pub fn handle_vimdebug_command(debug: &mut VimdebugState, globals: &mut GlobalState, cmd: &str)
    requires
        old(debug).wf(),
    ensures
        final(debug).wf(),
        match vimdebug_command_spec(cmd@, old(debug).mode_spec()) {
            Some((m, msg)) => {
                &&& final(debug).mode_spec() == m
                &&& (m == VimdebugMode::Off ==> final(debug).is_cleared())
                &&& (m != VimdebugMode::Off ==> final(debug).keeps_captures(*old(debug)))
                &&& final(globals).message matches Some(t) && t@ == msg
                &&& !final(globals).message_is_error
                &&& final(globals).hlsearch_enabled == old(globals).hlsearch_enabled
            },
            None => *final(debug) == *old(debug) && *final(globals) == *old(globals),
        },
{
    match vimdebug_command(cmd, debug.mode()) {
        Some((mode, msg)) => {
            debug.set_mode(mode);
            handle_show_message(globals, msg);
        },
        None => {},
    }
}

/// The first index at or after `start` whose flag is unset, or the length.
fn first_unapplied(applied: &Vec<bool>, start: usize) -> (k: usize)
    requires
        start <= applied@.len(),
    ensures
        start <= k <= applied@.len(),
        forall|j: int| start <= j < k ==> applied@[j],
        k < applied@.len() ==> !applied@[k as int],
{
    let n = applied.len();
    let mut k = start;
    while k < n
        invariant
            start <= k <= n,
            n == applied@.len(),
            forall|j: int| start <= j < k ==> applied@[j],
        decreases n - k,
    {
        if !applied[k] {
            return k;
        }
        k = k + 1;
    }
    k
}

/// The flags with every index from `start` on set, and the indices from
/// `start` on that were unset, in order.
fn apply_remaining(applied: &Vec<bool>, start: usize) -> (r: (Vec<bool>, Vec<usize>))
    requires
        start <= applied@.len(),
    ensures
        r.0@ == Seq::new(applied@.len(), |j: int| applied@[j] || start <= j),
        forall|a: int, b: int| 0 <= a < b < r.1@.len() ==> r.1@[a] < r.1@[b],
        forall|a: int| 0 <= a < r.1@.len() ==> start <= #[trigger] r.1@[a] < applied@.len() && !applied@[r.1@[a] as int],
        forall|j: int| start <= j < applied@.len() && !applied@[j] ==> r.1@.contains(j as usize),
{
    let n = applied.len();
    let mut out: Vec<bool> = Vec::new();
    let mut remaining: Vec<usize> = Vec::new();
    let mut k: usize = 0;
    while k < n
        invariant
            k <= n,
            n == applied@.len(),
            start <= n,
            out@ == Seq::new(k as nat, |j: int| applied@[j] || start <= j),
            forall|a: int, b: int| 0 <= a < b < remaining@.len() ==> remaining@[a] < remaining@[b],
            forall|a: int| 0 <= a < remaining@.len() ==> start <= #[trigger] remaining@[a] < k && !applied@[remaining@[a] as int],
            forall|j: int| start <= j < k && !applied@[j] ==> remaining@.contains(j as usize),
        decreases n - k,
    {
        let was = applied[k];
        let ghost old_rem = remaining@;
        if k >= start && !was {
            remaining.push(k);
        }
        proof {
            assert forall|j: int| start <= j < k + 1 && !applied@[j] implies remaining@.contains(j as usize) by {
                if j == k {
                    assert(remaining@[remaining@.len() - 1] == k);
                } else {
                    assert(old_rem.contains(j as usize));
                    let w = choose|w: int| 0 <= w < old_rem.len() && old_rem[w] == j as usize;
                    assert(remaining@[w] == j as usize);
                }
            }
        }
        out.push(was || k >= start);
        k = k + 1;
    }
    (out, remaining)
}

} // verus!
