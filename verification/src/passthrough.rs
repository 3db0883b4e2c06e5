//! Key passthrough: whether a key bypasses the Vim engine and goes to the
//! editor's own input handling.
//!
//! Four filters decide, in priority order:
//! 1. **MappingPriority**: a pending mapping, or one the key could start,
//!    claims the key for the engine;
//! 2. **UserOverride**: the user's passthrough keys go to the editor;
//! 3. **HostPolicy**: F-keys and Meta combinations go to the editor (Alt
//!    does not: the engine may have a binding for it);
//! 4. **EngineQuery**: the engine takes what it would handle; the rest goes
//!    to the editor.
//!
//! The engine's answers are taken as plain values.

use crate::keymap::normalize_key_for_mapping;
use crate::keymap::Key;
use crate::keymap::KeyEvent;
use vstd::prelude::*;

verus! {

/// The verdict of one filter.
#[derive(Debug, Clone, Copy, PartialEq, Eq, Structural)]
pub enum FilterVerdict {
    /// The key goes to the editor.
    Passthrough,
    /// The key goes to the engine.
    SendToEngine,
    /// No opinion: the next filter decides.
    Undecided,
}

/// The filters of the chain.
#[derive(Debug, Clone, Copy, PartialEq, Eq, Structural)]
pub enum PassthroughFilter {
    MappingPriority,
    UserOverride,
    HostPolicy,
    EngineQuery,
}

/// The chain, in the order the filters are asked.
pub fn filter_chain() -> (r: Vec<PassthroughFilter>)
    ensures
        r@ == seq![
            PassthroughFilter::MappingPriority,
            PassthroughFilter::UserOverride,
            PassthroughFilter::HostPolicy,
            PassthroughFilter::EngineQuery,
        ],
{
    vec![
        PassthroughFilter::MappingPriority,
        PassthroughFilter::UserOverride,
        PassthroughFilter::HostPolicy,
        PassthroughFilter::EngineQuery,
    ]
}

/// What the engine answers about the key.
#[derive(Debug, Clone, Copy, PartialEq, Eq, Structural)]
pub struct EngineAnswers {
    /// A mapping is part-way typed.
    pub has_pending_mapping: bool,
    /// The (Latin-normalized) key could start a mapping.
    pub could_start_mapping: bool,
    /// The engine's commands handle the key.
    pub would_handle_key: bool,
}

/// Everything the filters look at.
pub struct FilterContext {
    /// The key as typed.
    pub key: KeyEvent,
    /// The key with its Latin equivalent in place of a non-Latin character.
    pub normalized_key: KeyEvent,
    pub engine: EngineAnswers,
    /// The user's passthrough keys.
    pub user_overrides: Vec<KeyEvent>,
}

/// Key equality: same key and modifiers (the Latin hint does not count).
pub open spec fn same_key(a: KeyEvent, b: KeyEvent) -> bool {
    a.key == b.key && a.modifiers == b.modifiers
}

/// Whether the user listed `k` as a passthrough key.
pub open spec fn overridden(overrides: Seq<KeyEvent>, k: KeyEvent) -> bool {
    exists|i: int| 0 <= i < overrides.len() && same_key(#[trigger] overrides[i], k)
}

pub open spec fn mapping_priority_spec(ctx: FilterContext) -> FilterVerdict {
    if ctx.engine.has_pending_mapping || ctx.engine.could_start_mapping {
        FilterVerdict::SendToEngine
    } else {
        FilterVerdict::Undecided
    }
}

pub open spec fn user_override_spec(ctx: FilterContext) -> FilterVerdict {
    if overridden(ctx.user_overrides@, ctx.key) || overridden(ctx.user_overrides@, ctx.normalized_key) {
        FilterVerdict::Passthrough
    } else {
        FilterVerdict::Undecided
    }
}

pub open spec fn host_policy_spec(ctx: FilterContext) -> FilterVerdict {
    if ctx.key.key is F || ctx.key.modifiers.meta {
        FilterVerdict::Passthrough
    } else {
        FilterVerdict::Undecided
    }
}

pub open spec fn engine_query_spec(ctx: FilterContext) -> FilterVerdict {
    if ctx.engine.would_handle_key {
        FilterVerdict::SendToEngine
    } else {
        FilterVerdict::Passthrough
    }
}

pub open spec fn verdict_spec(f: PassthroughFilter, ctx: FilterContext) -> FilterVerdict {
    match f {
        PassthroughFilter::MappingPriority => mapping_priority_spec(ctx),
        PassthroughFilter::UserOverride => user_override_spec(ctx),
        PassthroughFilter::HostPolicy => host_policy_spec(ctx),
        PassthroughFilter::EngineQuery => engine_query_spec(ctx),
    }
}

/// The first decided verdict of the chain (the editor gets the key when
/// none decides).
pub open spec fn passthrough_spec(ctx: FilterContext) -> bool {
    if mapping_priority_spec(ctx) != FilterVerdict::Undecided {
        mapping_priority_spec(ctx) == FilterVerdict::Passthrough
    } else if user_override_spec(ctx) != FilterVerdict::Undecided {
        user_override_spec(ctx) == FilterVerdict::Passthrough
    } else if host_policy_spec(ctx) != FilterVerdict::Undecided {
        host_policy_spec(ctx) == FilterVerdict::Passthrough
    } else if engine_query_spec(ctx) != FilterVerdict::Undecided {
        engine_query_spec(ctx) == FilterVerdict::Passthrough
    } else {
        true
    }
}

fn contains_key(overrides: &Vec<KeyEvent>, k: KeyEvent) -> (r: bool)
    ensures
        r == overridden(overrides@, k),
{
    let mut i: usize = 0;
    while i < overrides.len()
        invariant
            i <= overrides@.len(),
            forall|j: int| 0 <= j < i ==> !same_key(#[trigger] overrides@[j], k),
        decreases overrides@.len() - i,
    {
        let o = overrides[i];
        if o.key == k.key && o.modifiers == k.modifiers {
            return true;
        }
        i = i + 1;
    }
    false
}

/// Mappings come first: a pending mapping, or one that the normalized key
/// could start, claims the key.
pub fn evaluate_mapping_priority(ctx: &FilterContext) -> (r: FilterVerdict)
    ensures
        r == mapping_priority_spec(*ctx),
{
    if ctx.engine.has_pending_mapping || ctx.engine.could_start_mapping {
        FilterVerdict::SendToEngine
    } else {
        FilterVerdict::Undecided
    }
}

/// The user's passthrough keys, matched by the key as typed or normalized.
pub fn evaluate_user_override(ctx: &FilterContext) -> (r: FilterVerdict)
    ensures
        r == user_override_spec(*ctx),
{
    if contains_key(&ctx.user_overrides, ctx.key) || contains_key(&ctx.user_overrides, ctx.normalized_key) {
        FilterVerdict::Passthrough
    } else {
        FilterVerdict::Undecided
    }
}

/// F-keys and Meta combinations belong to the editor and the system.
pub fn evaluate_host_policy(ctx: &FilterContext) -> (r: FilterVerdict)
    ensures
        r == host_policy_spec(*ctx),
{
    if let Key::F(_) = ctx.key.key {
        return FilterVerdict::Passthrough;
    }
    if ctx.key.modifiers.meta {
        return FilterVerdict::Passthrough;
    }
    FilterVerdict::Undecided
}

/// The engine decides last: it takes the keys it handles.
pub fn evaluate_engine_query(ctx: &FilterContext) -> (r: FilterVerdict)
    ensures
        r == engine_query_spec(*ctx),
{
    if ctx.engine.would_handle_key {
        FilterVerdict::SendToEngine
    } else {
        FilterVerdict::Passthrough
    }
}

/// The verdict of one filter.
pub fn evaluate(f: PassthroughFilter, ctx: &FilterContext) -> (r: FilterVerdict)
    ensures
        r == verdict_spec(f, *ctx),
{
    match f {
        PassthroughFilter::MappingPriority => evaluate_mapping_priority(ctx),
        PassthroughFilter::UserOverride => evaluate_user_override(ctx),
        PassthroughFilter::HostPolicy => evaluate_host_policy(ctx),
        PassthroughFilter::EngineQuery => evaluate_engine_query(ctx),
    }
}

/// Run the chain: `true` when the key goes to the editor.
pub fn run_passthrough_chain(ctx: &FilterContext) -> (r: bool)
    ensures
        r == passthrough_spec(*ctx),
{
    let chain = filter_chain();
    let mut i: usize = 0;
    while i < chain.len()
        invariant
            chain@ == seq![
                PassthroughFilter::MappingPriority,
                PassthroughFilter::UserOverride,
                PassthroughFilter::HostPolicy,
                PassthroughFilter::EngineQuery,
            ],
            i <= 4,
            forall|j: int| 0 <= j < i ==> verdict_spec(#[trigger] chain@[j], *ctx) == FilterVerdict::Undecided,
        decreases 4 - i,
    {
        match evaluate(chain[i], ctx) {
            FilterVerdict::Passthrough => return true,
            FilterVerdict::SendToEngine => return false,
            FilterVerdict::Undecided => {},
        }
        i = i + 1;
    }
    true
}

/// Whether `key` bypasses the engine, with the engine's answers about it
/// and the user's passthrough keys. Mapping and override lookups use the
/// key's Latin equivalent where it has one.
pub fn should_passthrough_key(key: KeyEvent, engine: EngineAnswers, user_overrides: Vec<KeyEvent>) -> (r: bool)
    ensures
        r == passthrough_spec(
            FilterContext {
                key,
                normalized_key: match key.latin {
                    Some(l) => KeyEvent::new_spec(l, key.modifiers),
                    None => key,
                },
                engine,
                user_overrides,
            },
        ),
{
    let normalized_key = normalize_key_for_mapping(key);
    let ctx = FilterContext { key, normalized_key, engine, user_overrides };
    run_passthrough_chain(&ctx)
}

/// A pending or startable mapping always sends the key to the engine,
/// whatever the overrides and policies say.
pub proof fn lemma_mappings_take_priority(ctx: FilterContext)
    requires
        ctx.engine.has_pending_mapping || ctx.engine.could_start_mapping,
    ensures
        !passthrough_spec(ctx),
{
}

/// Short of a mapping, a user passthrough key always reaches the editor,
/// even when the engine would handle it.
pub proof fn lemma_user_override_wins_over_engine(ctx: FilterContext)
    requires
        !ctx.engine.has_pending_mapping,
        !ctx.engine.could_start_mapping,
        overridden(ctx.user_overrides@, ctx.key),
    ensures
        passthrough_spec(ctx),
{
}

/// Alt alone never makes a key pass through: without a mapping or
/// override, an Alt key that is not an F-key goes where the engine says.
pub proof fn lemma_alt_left_to_engine(ctx: FilterContext)
    requires
        !ctx.engine.has_pending_mapping,
        !ctx.engine.could_start_mapping,
        !overridden(ctx.user_overrides@, ctx.key),
        !overridden(ctx.user_overrides@, ctx.normalized_key),
        !(ctx.key.key is F),
        !ctx.key.modifiers.meta,
    ensures
        passthrough_spec(ctx) == !ctx.engine.would_handle_key,
{
}

} // verus!
