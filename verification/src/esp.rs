//! State of the administrator ESP: which viewers turned it on, which of them
//! currently see outlines, and the glow entities published for each target.
//!
//! Slots 0..64 are followed; each is one bit of the `u64` masks.
use crate::esp_config::Color;
use crate::text::{
    append_chars, ascii_lower_chars, ascii_lower_seq, chars_of, string_of, strip_both, strip_chars,
    trim, trim_str, Strip,
};
use std::hash::Hasher;
use vstd::std_specs::hash::DefaultHasherAdditionalSpecFns;
use vstd::string::StringSliceAdditionalSpecFns;
use vstd::prelude::*;

verus! {

pub const MAX_TRACKED_CLIENTS: usize = 64;

pub const INVALID_ENTITY_HANDLE: i32 = -1;

/// The bit of `slot` in a mask; 0 for a slot outside 0..64.
pub open spec fn slot_mask(slot: int) -> u64 {
    if 0 <= slot < 64 {
        1u64 << (slot as u64)
    } else {
        0
    }
}

/// Whether `mask` holds slot `s` (0 <= s < 64).
pub open spec fn holds(mask: u64, s: int) -> bool {
    (mask >> (s as u64)) & 1u64 == 1u64
}

pub proof fn lemma_bit_has(s: u64, t: u64)
    requires
        s < 64,
        t < 64,
    ensures
        (((1u64 << s) >> t) & 1u64 == 1u64) <==> s == t,
{
    assert((((1u64 << s) >> t) & 1u64 == 1u64) <==> s == t) by (bit_vector)
        requires
            s < 64,
            t < 64,
    ;
}

pub proof fn lemma_or_has(a: u64, b: u64, t: u64)
    requires
        t < 64,
    ensures
        (((a | b) >> t) & 1u64 == 1u64) <==> (((a >> t) & 1u64 == 1u64) || ((b >> t) & 1u64
            == 1u64)),
{
    assert((((a | b) >> t) & 1u64 == 1u64) <==> (((a >> t) & 1u64 == 1u64) || ((b >> t) & 1u64
        == 1u64))) by (bit_vector);
}

pub proof fn lemma_and_not_has(a: u64, b: u64, t: u64)
    requires
        t < 64,
    ensures
        (((a & !b) >> t) & 1u64 == 1u64) <==> (((a >> t) & 1u64 == 1u64) && !((b >> t) & 1u64
            == 1u64)),
{
    assert((((a & !b) >> t) & 1u64 == 1u64) <==> (((a >> t) & 1u64 == 1u64) && !((b >> t) & 1u64
        == 1u64))) by (bit_vector);
}

pub proof fn lemma_zero_has(t: u64)
    requires
        t < 64,
    ensures
        !(((0u64 >> t) & 1u64) == 1u64),
{
    assert(!(((0u64 >> t) & 1u64) == 1u64)) by (bit_vector);
}

/// The index of `slot` when it is in 0..64.
pub fn slot_index(slot: i32) -> (r: Option<usize>)
    ensures
        r == (if 0 <= slot < 64 {
            Some(slot as usize)
        } else {
            None
        }),
{
    if 0 <= slot && slot < 64 {
        Some(slot as usize)
    } else {
        None
    }
}

/// The mask bit of `slot`; 0 for a slot outside 0..64.
pub fn slot_bit(slot: i32) -> (r: u64)
    ensures
        r == slot_mask(slot as int),
{
    match slot_index(slot) {
        Some(index) => 1u64 << (index as u64),
        None => 0,
    }
}

/// The abstract ESP state.
#[verifier::ext_equal]
pub struct EspView {
    /// Viewers who turned the ESP on.
    pub enabled: u64,
    /// Viewers who currently see outlines.
    pub active: u64,
    /// Targets whose glow pair is fully published.
    pub published: u64,
    pub relay: Seq<i32>,
    pub glow: Seq<i32>,
    pub pawn: Seq<i32>,
    pub team: Seq<i32>,
    pub model_hash: Seq<u64>,
}

/// Well-formedness: 64 entries per slot table; a slot's glow and relay are
/// published together, exactly when its published bit is set, and its pawn,
/// team and model hash are reset when nothing is published; only enabled
/// viewers are active.
pub open spec fn esp_wf(v: EspView) -> bool {
    &&& v.relay.len() == 64
    &&& v.glow.len() == 64
    &&& v.pawn.len() == 64
    &&& v.team.len() == 64
    &&& v.model_hash.len() == 64
    &&& forall|i: int|
        0 <= i < 64 ==> {
            &&& (#[trigger] v.glow[i] == INVALID_ENTITY_HANDLE <==> v.relay[i]
                == INVALID_ENTITY_HANDLE)
            &&& (holds(v.published, i) <==> v.glow[i] != INVALID_ENTITY_HANDLE)
            &&& (v.glow[i] == INVALID_ENTITY_HANDLE ==> v.pawn[i] == INVALID_ENTITY_HANDLE
                && v.team[i] == 0 && v.model_hash[i] == 0)
            &&& (holds(v.active, i) ==> holds(v.enabled, i))
        }
}

/// The ESP state of all slots.
pub struct EspState {
    enabled_viewers: u64,
    active_viewers: u64,
    published_targets: u64,
    relay: Vec<i32>,
    glow: Vec<i32>,
    pawn: Vec<i32>,
    team: Vec<i32>,
    model_hash: Vec<u64>,
}

impl View for EspState {
    type V = EspView;

    closed spec fn view(&self) -> EspView {
        EspView {
            enabled: self.enabled_viewers,
            active: self.active_viewers,
            published: self.published_targets,
            relay: self.relay@,
            glow: self.glow@,
            pawn: self.pawn@,
            team: self.team@,
            model_hash: self.model_hash@,
        }
    }
}

/// No viewer and no published entity.
pub open spec fn initial_view() -> EspView {
    EspView {
        enabled: 0,
        active: 0,
        published: 0,
        relay: Seq::new(64, |i: int| INVALID_ENTITY_HANDLE),
        glow: Seq::new(64, |i: int| INVALID_ENTITY_HANDLE),
        pawn: Seq::new(64, |i: int| INVALID_ENTITY_HANDLE),
        team: Seq::new(64, |i: int| 0i32),
        model_hash: Seq::new(64, |i: int| 0u64),
    }
}

fn filled_i32(value: i32) -> (r: Vec<i32>)
    ensures
        r@ == Seq::new(64, |i: int| value),
{
    let mut r: Vec<i32> = Vec::new();
    let mut i: usize = 0;
    while i < 64
        invariant
            i <= 64,
            r@ == Seq::new(i as nat, |k: int| value),
        decreases 64 - i,
    {
        r.push(value);
        i = i + 1;
        assert(r@ =~= Seq::new(i as nat, |k: int| value));
    }
    r
}

fn filled_u64(value: u64) -> (r: Vec<u64>)
    ensures
        r@ == Seq::new(64, |i: int| value),
{
    let mut r: Vec<u64> = Vec::new();
    let mut i: usize = 0;
    while i < 64
        invariant
            i <= 64,
            r@ == Seq::new(i as nat, |k: int| value),
        decreases 64 - i,
    {
        r.push(value);
        i = i + 1;
        assert(r@ =~= Seq::new(i as nat, |k: int| value));
    }
    r
}

impl EspState {
    pub open spec fn wf(&self) -> bool {
        esp_wf(self@)
    }

    /// The state with no viewer and nothing published.
    pub fn new() -> (r: Self)
        ensures
            r.wf(),
            r@ == initial_view(),
    {
        let r = EspState {
            enabled_viewers: 0,
            active_viewers: 0,
            published_targets: 0,
            relay: filled_i32(INVALID_ENTITY_HANDLE),
            glow: filled_i32(INVALID_ENTITY_HANDLE),
            pawn: filled_i32(INVALID_ENTITY_HANDLE),
            team: filled_i32(0),
            model_hash: filled_u64(0),
        };
        assert forall|i: int| 0 <= i < 64 implies !holds(0u64, i) by {
            lemma_zero_has(i as u64);
        }
        r
    }
}

/// The view with `slot` no longer enabled nor active.
pub open spec fn without_viewer(v: EspView, slot: int) -> EspView {
    EspView { enabled: v.enabled & !slot_mask(slot), active: v.active & !slot_mask(slot), ..v }
}

/// Turns the ESP off for `slot`.
pub fn clear_viewer(state: &mut EspState, slot: i32)
    requires
        old(state).wf(),
    ensures
        final(state).wf(),
        final(state)@ == (if 0 <= slot < 64 {
            without_viewer(old(state)@, slot as int)
        } else {
            old(state)@
        }),
{
    if slot_index(slot).is_none() {
        return;
    }
    let bit = slot_bit(slot);
    state.enabled_viewers = state.enabled_viewers & !bit;
    state.active_viewers = state.active_viewers & !bit;
    proof {
        lemma_without_viewer_wf(old(state)@, slot as int);
    }
}

/// Clearing the bit of slot `i` removes exactly that slot from a mask.
pub proof fn lemma_mask_clear(m: u64, i: int)
    requires
        0 <= i < 64,
    ensures
        forall|t: int|
            0 <= t < 64 ==> (#[trigger] holds(m & !slot_mask(i), t) <==> holds(m, t) && t != i),
{
    assert forall|t: int| 0 <= t < 64 implies (#[trigger] holds(m & !slot_mask(i), t) <==> holds(
        m,
        t,
    ) && t != i) by {
        lemma_and_not_has(m, slot_mask(i), t as u64);
        lemma_bit_has(i as u64, t as u64);
    }
}

/// Setting the bit of slot `i` adds exactly that slot to a mask.
pub proof fn lemma_mask_set(m: u64, i: int)
    requires
        0 <= i < 64,
    ensures
        forall|t: int|
            0 <= t < 64 ==> (#[trigger] holds(m | slot_mask(i), t) <==> holds(m, t) || t == i),
{
    assert forall|t: int| 0 <= t < 64 implies (#[trigger] holds(m | slot_mask(i), t) <==> holds(
        m,
        t,
    ) || t == i) by {
        lemma_or_has(m, slot_mask(i), t as u64);
        lemma_bit_has(i as u64, t as u64);
    }
}

proof fn lemma_without_viewer_wf(v: EspView, slot: int)
    requires
        esp_wf(v),
        0 <= slot < 64,
    ensures
        esp_wf(without_viewer(v, slot)),
{
    lemma_mask_clear(v.enabled, slot);
    lemma_mask_clear(v.active, slot);
}

/// The view with nothing published for slot index `i`.
pub open spec fn unpublished(v: EspView, i: int) -> EspView {
    EspView {
        published: v.published & !slot_mask(i),
        relay: v.relay.update(i, INVALID_ENTITY_HANDLE),
        glow: v.glow.update(i, INVALID_ENTITY_HANDLE),
        pawn: v.pawn.update(i, INVALID_ENTITY_HANDLE),
        team: v.team.update(i, 0),
        model_hash: v.model_hash.update(i, 0),
        ..v
    }
}

proof fn lemma_unpublished_wf(v: EspView, i: int)
    requires
        esp_wf(v),
        0 <= i < 64,
    ensures
        esp_wf(unpublished(v, i)),
{
    lemma_mask_clear(v.published, i);
    let w = unpublished(v, i);
    assert forall|t: int| 0 <= t < 64 implies (holds(w.published, t) <==> #[trigger] w.glow[t]
        != INVALID_ENTITY_HANDLE) by {
        assert(holds(w.published, t) == holds(v.published & !slot_mask(i), t));
    }
}

fn clear_target_publication(state: &mut EspState, index: usize, bit: u64)
    requires
        old(state).wf(),
        index < 64,
        bit == slot_mask(index as int),
    ensures
        final(state).wf(),
        final(state)@ == unpublished(old(state)@, index as int),
{
    state.glow.set(index, INVALID_ENTITY_HANDLE);
    state.relay.set(index, INVALID_ENTITY_HANDLE);
    state.pawn.set(index, INVALID_ENTITY_HANDLE);
    state.team.set(index, 0);
    state.model_hash.set(index, 0);
    state.published_targets = state.published_targets & !bit;
    proof {
        lemma_unpublished_wf(old(state)@, index as int);
    }
}

/// Whether a glow or relay entity is published for slot index `index`.
pub fn has_published_entities(state: &EspState, index: usize) -> (r: bool)
    requires
        state.wf(),
        index < 64,
    ensures
        r == (state@.relay[index as int] != INVALID_ENTITY_HANDLE || state@.glow[index as int]
            != INVALID_ENTITY_HANDLE),
{
    state.relay[index] != INVALID_ENTITY_HANDLE || state.glow[index] != INVALID_ENTITY_HANDLE
}

/// The entities to detach and remove when unpublishing slot index `i`.
pub open spec fn removal(v: EspView, i: int) -> Seq<i32> {
    if v.glow[i] == INVALID_ENTITY_HANDLE && v.relay[i] == INVALID_ENTITY_HANDLE {
        Seq::empty()
    } else {
        seq![v.glow[i], v.relay[i]]
    }
}

/// The view after unpublishing slot index `i`.
pub open spec fn after_removal(v: EspView, i: int) -> EspView {
    if v.glow[i] == INVALID_ENTITY_HANDLE && v.relay[i] == INVALID_ENTITY_HANDLE && !holds(
        v.published,
        i,
    ) {
        v
    } else {
        unpublished(v, i)
    }
}

/// Unpublishes the glow pair of `slot`: returns the glow and relay entities
/// that the caller detaches and removes, in that order.
pub fn request_remove_target_entities(state: &mut EspState, slot: i32) -> (r: Vec<i32>)
    requires
        old(state).wf(),
    ensures
        final(state).wf(),
        0 <= slot < 64 ==> r@ == removal(old(state)@, slot as int) && final(state)@
            == after_removal(old(state)@, slot as int),
        !(0 <= slot < 64) ==> r@ == Seq::<i32>::empty() && final(state)@ == old(state)@,
{
    let index = match slot_index(slot) {
        Some(i) => i,
        None => {
            return Vec::new();
        },
    };
    let bit = slot_bit(slot);
    let glow = state.glow[index];
    let relay = state.relay[index];
    if glow == INVALID_ENTITY_HANDLE && relay == INVALID_ENTITY_HANDLE {
        proof {
            lemma_bit_and_holds(state.published_targets, index as int);
        }
        if state.published_targets & bit != 0 {
            clear_target_publication(state, index, bit);
        }
        return Vec::new();
    }
    clear_target_publication(state, index, bit);
    let mut r: Vec<i32> = Vec::new();
    r.push(glow);
    r.push(relay);
    assert(r@ =~= seq![glow, relay]);
    r
}

/// The entities that unpublishing slots 0..n hands back, slot by slot.
pub open spec fn removals(v: EspView, n: nat) -> Seq<i32>
    decreases n,
{
    if n == 0 {
        Seq::empty()
    } else {
        removals(v, (n - 1) as nat) + removal(v, n - 1)
    }
}

/// Nothing is published for any slot; the viewers are as in `v`.
pub open spec fn all_unpublished(w: EspView, v: EspView) -> bool {
    &&& w.enabled == v.enabled
    &&& w.active == v.active
    &&& w.relay == Seq::new(64, |i: int| INVALID_ENTITY_HANDLE)
    &&& w.glow == Seq::new(64, |i: int| INVALID_ENTITY_HANDLE)
    &&& w.pawn == Seq::new(64, |i: int| INVALID_ENTITY_HANDLE)
    &&& w.team == Seq::new(64, |i: int| 0i32)
    &&& w.model_hash == Seq::new(64, |i: int| 0u64)
    &&& forall|t: int| 0 <= t < 64 ==> !#[trigger] holds(w.published, t)
}

/// Unpublishes the glow pairs of all slots; returns the entities that the
/// caller detaches and removes, slot by slot.
pub fn request_remove_all_entities(state: &mut EspState) -> (r: Vec<i32>)
    requires
        old(state).wf(),
    ensures
        final(state).wf(),
        r@ == removals(old(state)@, 64),
        all_unpublished(final(state)@, old(state)@),
{
    let ghost v0 = state@;
    let mut r: Vec<i32> = Vec::new();
    let mut slot: i32 = 0;
    while slot < 64
        invariant
            0 <= slot <= 64,
            state.wf(),
            esp_wf(v0),
            r@ == removals(v0, slot as nat),
            state@.enabled == v0.enabled,
            state@.active == v0.active,
            forall|t: int|
                0 <= t < 64 ==> if t < slot {
                    &&& #[trigger] state@.glow[t] == INVALID_ENTITY_HANDLE
                    &&& state@.relay[t] == INVALID_ENTITY_HANDLE
                    &&& state@.pawn[t] == INVALID_ENTITY_HANDLE
                    &&& state@.team[t] == 0
                    &&& state@.model_hash[t] == 0
                } else {
                    &&& state@.glow[t] == v0.glow[t]
                    &&& state@.relay[t] == v0.relay[t]
                },
        decreases 64 - slot,
    {
        let ghost before = state@;
        let mut part = request_remove_target_entities(state, slot);
        proof {
            assert(removal(before, slot as int) == removal(v0, slot as int));
            assert(removals(v0, (slot + 1) as nat) == removals(v0, slot as nat) + removal(
                v0,
                slot as int,
            ));
        }
        r.append(&mut part);
        slot = slot + 1;
    }
    proof {
        assert forall|t: int| 0 <= t < 64 implies state@.relay[t] == INVALID_ENTITY_HANDLE
            && state@.team[t] == 0 && state@.pawn[t] == INVALID_ENTITY_HANDLE
            && state@.model_hash[t] == 0 && !holds(state@.published, t) by {
            assert(state@.glow[t] == INVALID_ENTITY_HANDLE);
        }
        assert(state@.relay =~= Seq::new(64, |i: int| INVALID_ENTITY_HANDLE));
        assert(state@.glow =~= Seq::new(64, |i: int| INVALID_ENTITY_HANDLE));
        assert(state@.pawn =~= Seq::new(64, |i: int| INVALID_ENTITY_HANDLE));
        assert(state@.team =~= Seq::new(64, |i: int| 0i32));
        assert(state@.model_hash =~= Seq::new(64, |i: int| 0u64));
    }
    r
}

/// Forgets a disconnected client: it stops viewing and its glow pair is
/// unpublished; returns the entities to detach and remove.
pub fn clear_client(state: &mut EspState, slot: i32) -> (r: Vec<i32>)
    requires
        old(state).wf(),
    ensures
        final(state).wf(),
        0 <= slot < 64 ==> r@ == removal(old(state)@, slot as int) && final(state)@
            == after_removal(without_viewer(old(state)@, slot as int), slot as int),
        !(0 <= slot < 64) ==> r@ == Seq::<i32>::empty() && final(state)@ == old(state)@,
{
    clear_viewer(state, slot);
    request_remove_target_entities(state, slot)
}

/// Turns the ESP off for everyone and unpublishes all glow pairs; returns
/// the entities to detach and remove.
pub fn reset_all(state: &mut EspState) -> (r: Vec<i32>)
    requires
        old(state).wf(),
    ensures
        final(state).wf(),
        r@ == removals(old(state)@, 64),
        all_unpublished(final(state)@, EspView { enabled: 0, active: 0, ..old(state)@ }),
{
    state.enabled_viewers = 0;
    state.active_viewers = 0;
    proof {
        assert forall|t: int| 0 <= t < 64 implies !holds(0u64, t) by {
            lemma_zero_has(t as u64);
        }
        assert(removals(state@, 64) == removals(old(state)@, 64)) by {
            lemma_removals_viewers(old(state)@, state@, 64);
        }
    }
    request_remove_all_entities(state)
}

proof fn lemma_removals_viewers(v: EspView, w: EspView, n: nat)
    requires
        v.glow == w.glow,
        v.relay == w.relay,
    ensures
        removals(v, n) == removals(w, n),
    decreases n,
{
    if n > 0 {
        lemma_removals_viewers(v, w, (n - 1) as nat);
    }
}

/// A player's team.
#[derive(Clone, Copy, Debug, PartialEq, Eq, Structural)]
pub enum CSTeam {
    Unassigned,
    Spectator,
    T,
    CT,
}

/// The engine's number for a team.
pub open spec fn team_number(team: CSTeam) -> i32 {
    match team {
        CSTeam::Unassigned => 0,
        CSTeam::Spectator => 1,
        CSTeam::T => 2,
        CSTeam::CT => 3,
    }
}

pub fn team_value(team: CSTeam) -> (r: i32)
    ensures
        r == team_number(team),
{
    match team {
        CSTeam::Unassigned => 0,
        CSTeam::Spectator => 1,
        CSTeam::T => 2,
        CSTeam::CT => 3,
    }
}

/// A player that can carry an outline: in game, alive, and on a playing team.
pub fn valid_target(in_game: bool, alive: bool, team: CSTeam) -> (r: bool)
    ensures
        r == (in_game && alive && (team == CSTeam::T || team == CSTeam::CT)),
{
    in_game && alive && match team {
        CSTeam::T | CSTeam::CT => true,
        _ => false,
    }
}

/// A player that can view outlines: a slot in 0..64, in game, and not a bot.
pub fn valid_human_viewer(slot: i32, in_game: bool, fake: bool) -> (r: bool)
    ensures
        r == (0 <= slot < 64 && in_game && !fake),
{
    slot_index(slot).is_some() && in_game && !fake
}

/// A spectator, or a dead player of a playing team.
pub fn is_dead_or_spectator(team: CSTeam, alive: bool) -> (r: bool)
    ensures
        r == (team == CSTeam::Spectator || ((team == CSTeam::T || team == CSTeam::CT) && !alive)),
{
    match team {
        CSTeam::Spectator => true,
        CSTeam::T | CSTeam::CT => !alive,
        _ => false,
    }
}

/// The glow and relay entities published for slot index `index`.
pub fn published_entities(state: &EspState, index: usize) -> (r: (i32, i32))
    requires
        state.wf(),
        index < 64,
    ensures
        r == (state@.glow[index as int], state@.relay[index as int]),
{
    (state.glow[index], state.relay[index])
}

/// The viewers who turned the ESP on.
pub fn enabled_viewers(state: &EspState) -> (r: u64)
    ensures
        r == state@.enabled,
{
    state.enabled_viewers
}

/// Whether the published pair of `index` is complete and both entities are
/// still valid (`relay_valid`, `glow_valid` report the engine's view of them).
pub fn valid_pair(state: &EspState, index: usize, relay_valid: bool, glow_valid: bool) -> (r: bool)
    requires
        state.wf(),
        index < 64,
    ensures
        r == (state@.relay[index as int] != INVALID_ENTITY_HANDLE && state@.glow[index as int]
            != INVALID_ENTITY_HANDLE && relay_valid && glow_valid),
{
    state.relay[index] != INVALID_ENTITY_HANDLE && state.glow[index] != INVALID_ENTITY_HANDLE
        && relay_valid && glow_valid
}

/// What the engine and the admin plugin report about a viewer.
#[derive(Clone, Copy, Debug)]
pub struct ViewerCheck {
    /// In game, not a bot, slot in 0..64.
    pub human_viewer: bool,
    /// Holds the flag that shows outlines at all times.
    pub always_access: bool,
    /// Holds the flag that shows outlines while dead or spectating.
    pub observer_access: bool,
    pub dead_or_spectator: bool,
}

/// Whether a viewer keeps the ESP turned on.
pub open spec fn keeps_esp(c: ViewerCheck) -> bool {
    c.human_viewer && (c.always_access || c.observer_access)
}

/// Whether a viewer currently sees outlines.
pub open spec fn sees_outlines(c: ViewerCheck) -> bool {
    c.human_viewer && (c.always_access || (c.observer_access && c.dead_or_spectator))
}

/// The outcome of a viewer's ESP command.
#[derive(Clone, Copy, Debug, PartialEq, Eq, Structural)]
pub enum EspToggle {
    /// Not a human viewer, or a slot outside 0..64: nothing happens.
    Ignored,
    Disabled,
    NoAccess,
    ObserverOnly,
    Enabled,
}

/// What toggling gives for a viewer in `v`.
pub open spec fn toggle_outcome(v: EspView, slot: int, config_loaded: bool, c: ViewerCheck) -> EspToggle {
    if !(0 <= slot < 64) || !c.human_viewer {
        EspToggle::Ignored
    } else if v.enabled & slot_mask(slot) != 0 {
        EspToggle::Disabled
    } else if !config_loaded || (!c.always_access && !c.observer_access) {
        EspToggle::NoAccess
    } else if !c.always_access && !c.dead_or_spectator {
        EspToggle::ObserverOnly
    } else {
        EspToggle::Enabled
    }
}

/// The view after a toggle of `slot` with `outcome`.
pub open spec fn after_toggle(v: EspView, slot: int, outcome: EspToggle) -> EspView {
    match outcome {
        EspToggle::Disabled => without_viewer(v, slot),
        EspToggle::Enabled => EspView {
            enabled: v.enabled | slot_mask(slot),
            active: v.active | slot_mask(slot),
            ..v
        },
        _ => v,
    }
}

/// A viewer who turned the ESP on and then issues the command again turns it off, and the
/// state is back where it was before the first command.
pub proof fn law_toggle_twice_restores(
    v: EspView,
    slot: int,
    config_loaded: bool,
    first: ViewerCheck,
    second_loaded: bool,
    second: ViewerCheck,
)
    requires
        esp_wf(v),
        0 <= slot < 64,
        toggle_outcome(v, slot, config_loaded, first) == EspToggle::Enabled,
        second.human_viewer,
    ensures
        toggle_outcome(after_toggle(v, slot, EspToggle::Enabled), slot, second_loaded, second)
            == EspToggle::Disabled,
        after_toggle(after_toggle(v, slot, EspToggle::Enabled), slot, EspToggle::Disabled) == v,
{
    let e = v.enabled;
    let a = v.active;
    let t = slot as u64;
    lemma_bit_and_holds(e, slot);
    lemma_bit_and_holds(a, slot);
    assert(holds(a, slot) ==> holds(e, slot)) by {
        assert(v.glow[slot] == INVALID_ENTITY_HANDLE <==> v.relay[slot] == INVALID_ENTITY_HANDLE);
    }
    assert(e & (1u64 << t) == 0);
    assert(a & (1u64 << t) == 0);
    assert((e | (1u64 << t)) & (1u64 << t) != 0 && (e | (1u64 << t)) & !(1u64 << t) == e)
        by (bit_vector)
        requires
            t < 64,
            e & (1u64 << t) == 0,
    ;
    assert((a | (1u64 << t)) & !(1u64 << t) == a) by (bit_vector)
        requires
            t < 64,
            a & (1u64 << t) == 0,
    ;
    assert(after_toggle(after_toggle(v, slot, EspToggle::Enabled), slot, EspToggle::Disabled) =~= v);
}

/// Turns the ESP of `slot` off when it is on; otherwise turns it on when the
/// viewer may see outlines now. A slot outside 0..64 is ignored.
pub fn toggle(state: &mut EspState, slot: i32, config_loaded: bool, check: ViewerCheck) -> (r:
    EspToggle)
    requires
        old(state).wf(),
    ensures
        final(state).wf(),
        r == toggle_outcome(old(state)@, slot as int, config_loaded, check),
        final(state)@ == after_toggle(old(state)@, slot as int, r),
{
    if slot_index(slot).is_none() || !check.human_viewer {
        return EspToggle::Ignored;
    }
    let bit = slot_bit(slot);
    if state.enabled_viewers & bit != 0 {
        state.enabled_viewers = state.enabled_viewers & !bit;
        state.active_viewers = state.active_viewers & !bit;
        proof {
            lemma_without_viewer_wf(old(state)@, slot as int);
        }
        return EspToggle::Disabled;
    }
    if !config_loaded || (!check.always_access && !check.observer_access) {
        return EspToggle::NoAccess;
    }
    if !check.always_access && !check.dead_or_spectator {
        return EspToggle::ObserverOnly;
    }
    state.enabled_viewers = state.enabled_viewers | bit;
    state.active_viewers = state.active_viewers | bit;
    proof {
        let v = old(state)@;
        lemma_mask_set(v.enabled, slot as int);
        lemma_mask_set(v.active, slot as int);
    }
    EspToggle::Enabled
}

/// The chat text that answers a toggle that did something.
pub open spec fn toggle_text(outcome: EspToggle) -> Seq<char> {
    match outcome {
        EspToggle::Disabled => " {RED}[ESP]{DEFAULT} Вы успешно {RED}выключили{DEFAULT} ESP"@,
        EspToggle::NoAccess => " {RED}[ESP]{DEFAULT} У вас нет доступа к ESP"@,
        EspToggle::ObserverOnly =>
            " {RED}[ESP]{DEFAULT} ESP с вашим флагом доступен только после смерти или в наблюдателях"@,
        EspToggle::Enabled => " {GREEN}[ESP]{DEFAULT} Вы успешно {GREEN}включили{DEFAULT} ESP"@,
        EspToggle::Ignored => Seq::empty(),
    }
}

/// The chat message that answers a toggle, if any.
pub fn toggle_message(outcome: EspToggle) -> (r: Option<&'static str>)
    ensures
        outcome == EspToggle::Ignored <==> r is None,
        r matches Some(m) ==> m@ == toggle_text(outcome),
{
    match outcome {
        EspToggle::Ignored => None,
        EspToggle::Disabled => Some(" {RED}[ESP]{DEFAULT} Вы успешно {RED}выключили{DEFAULT} ESP"),
        EspToggle::NoAccess => Some(" {RED}[ESP]{DEFAULT} У вас нет доступа к ESP"),
        EspToggle::ObserverOnly => Some(
            " {RED}[ESP]{DEFAULT} ESP с вашим флагом доступен только после смерти или в наблюдателях",
        ),
        EspToggle::Enabled => Some(" {GREEN}[ESP]{DEFAULT} Вы успешно {GREEN}включили{DEFAULT} ESP"),
    }
}

/// `max_clients` clamped to 0..=64: the slots the engine may use.
pub open spec fn client_limit(max_clients: i32) -> int {
    if max_clients < 0 {
        0
    } else if max_clients > 64 {
        64
    } else {
        max_clients as int
    }
}

/// Who sees outlines: a human viewer with the always-on flag sees them alive
/// or dead; one with only the observer flag keeps the ESP but sees outlines
/// only while dead or spectating; a viewer with neither flag, or no human
/// viewer, neither keeps the ESP nor sees outlines.
pub proof fn law_who_sees_outlines(c: ViewerCheck)
    ensures
        c.human_viewer && c.always_access ==> sees_outlines(c) && keeps_esp(c),
        c.human_viewer && !c.always_access && c.observer_access ==> keeps_esp(c) && (sees_outlines(
            c,
        ) <==> c.dead_or_spectator),
        !c.human_viewer || (!c.always_access && !c.observer_access) ==> !sees_outlines(c)
            && !keeps_esp(c),
{
}

/// Rechecks every enabled viewer below the client limit: a viewer who may no
/// longer use the ESP has it turned off, and the active viewers become those
/// who may see outlines now. `checks[s]` reports on slot `s`.
pub fn recompute_active_viewers(state: &mut EspState, max_clients: i32, checks: &Vec<ViewerCheck>)
    requires
        old(state).wf(),
        checks@.len() >= client_limit(max_clients),
    ensures
        final(state).wf(),
        final(state)@ == (EspView {
            enabled: final(state)@.enabled,
            active: final(state)@.active,
            ..old(state)@
        }),
        old(state)@.enabled == 0 ==> final(state)@.active == 0 && final(state)@.enabled == 0,
        forall|t: int|
            0 <= t < 64 ==> {
                &&& (#[trigger] holds(final(state)@.active, t) <==> holds(old(state)@.enabled, t)
                    && t < client_limit(max_clients) && sees_outlines(checks@[t]))
                &&& (holds(final(state)@.enabled, t) <==> holds(old(state)@.enabled, t) && (t
                    >= client_limit(max_clients) || keeps_esp(checks@[t])))
            },
        forall|t: int|
            0 <= t < client_limit(max_clients) && #[trigger] holds(old(state)@.enabled, t)
                && checks@[t].human_viewer ==> {
                &&& checks@[t].always_access ==> holds(final(state)@.active, t) && holds(
                    final(state)@.enabled,
                    t,
                )
                &&& !checks@[t].always_access && checks@[t].observer_access ==> holds(
                    final(state)@.enabled,
                    t,
                ) && (holds(final(state)@.active, t) <==> checks@[t].dead_or_spectator)
                &&& !checks@[t].always_access && !checks@[t].observer_access ==> !holds(
                    final(state)@.enabled,
                    t,
                ) && !holds(final(state)@.active, t)
            },
{
    let enabled = state.enabled_viewers;
    if enabled == 0 {
        state.active_viewers = 0;
        proof {
            assert forall|t: int| 0 <= t < 64 implies !holds(0u64, t) by {
                lemma_zero_has(t as u64);
            }
        }
        return;
    }
    let limit: i32 = if max_clients < 0 {
        0
    } else if max_clients > 64 {
        64
    } else {
        max_clients
    };
    let ghost v0 = state@;
    let mut active: u64 = 0;
    let mut slot: i32 = 0;
    proof {
        assert forall|t: int| 0 <= t < 64 implies !holds(0u64, t) by {
            lemma_zero_has(t as u64);
        }
    }
    while slot < limit
        invariant
            0 <= slot <= limit,
            limit == client_limit(max_clients),
            checks@.len() >= limit,
            enabled == v0.enabled,
            esp_wf(v0),
            state.wf(),
            state@ == (EspView { enabled: state@.enabled, active: state@.active, ..v0 }),
            forall|t: int|
                0 <= t < 64 ==> {
                    &&& (#[trigger] holds(active, t) <==> holds(enabled, t) && t < slot
                        && sees_outlines(checks@[t]))
                    &&& (holds(state@.enabled, t) <==> holds(enabled, t) && (t >= slot
                        || keeps_esp(checks@[t])))
                },
        decreases limit - slot,
    {
        let bit = slot_bit(slot);
        let check = checks[slot as usize];
        let ghost a0 = active;
        let ghost e0 = state@.enabled;
        proof {
            lemma_bit_and_holds(enabled, slot as int);
            lemma_mask_set(a0, slot as int);
            lemma_mask_clear(e0, slot as int);
        }
        if enabled & bit != 0 {
            if !check.human_viewer {
                clear_viewer(state, slot);
            } else if check.always_access {
                active = active | bit;
            } else if !check.observer_access {
                clear_viewer(state, slot);
            } else if check.dead_or_spectator {
                active = active | bit;
            }
        }
        proof {
            let s = slot as int;
            assert forall|t: int| 0 <= t < 64 implies {
                &&& (#[trigger] holds(active, t) <==> holds(enabled, t) && t < s + 1
                    && sees_outlines(checks@[t]))
                &&& (holds(state@.enabled, t) <==> holds(enabled, t) && (t >= s + 1
                    || keeps_esp(checks@[t])))
            } by {
                assert(check == checks@[s]);
                assert(active == a0 || active == a0 | slot_mask(s));
                assert(state@.enabled == e0 || state@.enabled == e0 & !slot_mask(s));
                if t != s {
                    assert(holds(a0 | slot_mask(s), t) == holds(a0, t));
                    assert(holds(e0 & !slot_mask(s), t) == holds(e0, t));
                } else {
                    assert(holds(a0 | slot_mask(s), t));
                    assert(!holds(e0 & !slot_mask(s), t));
                    assert(!holds(a0, t));
                    if holds(enabled, s) {
                        assert(holds(e0, t));
                        if sees_outlines(check) {
                            assert(active == a0 | slot_mask(s));
                        } else {
                            assert(active == a0);
                        }
                        if keeps_esp(check) {
                            assert(state@.enabled == e0);
                        } else {
                            assert(state@.enabled == e0 & !slot_mask(s));
                        }
                    } else {
                        assert(active == a0);
                        assert(state@.enabled == e0);
                    }
                }
            }
        }
        slot = slot + 1;
    }
    state.active_viewers = active;
    proof {
        assert forall|t: int|
            0 <= t < client_limit(max_clients) && #[trigger] holds(old(state)@.enabled, t)
                && checks@[t].human_viewer implies {
            &&& checks@[t].always_access ==> holds(active, t) && holds(state@.enabled, t)
            &&& !checks@[t].always_access && checks@[t].observer_access ==> holds(state@.enabled, t)
                && (holds(active, t) <==> checks@[t].dead_or_spectator)
            &&& !checks@[t].always_access && !checks@[t].observer_access ==> !holds(
                state@.enabled,
                t,
            ) && !holds(active, t)
        } by {
            law_who_sees_outlines(checks@[t]);
            assert(enabled == old(state)@.enabled);
            assert(holds(active, t) <==> holds(enabled, t) && t < slot && sees_outlines(checks@[t]));
            assert(holds(state@.enabled, t) <==> holds(enabled, t) && (t >= slot || keeps_esp(checks@[t])));
        }
        let w = state@;
        assert forall|i: int| 0 <= i < 64 && holds(w.active, i) implies holds(w.enabled, i) by {
            assert(holds(active, i) == holds(w.active, i));
        }
    }
}

proof fn lemma_bit_and_holds(m: u64, s: int)
    requires
        0 <= s < 64,
    ensures
        (m & slot_mask(s) == 0) <==> !holds(m, s),
{
    let t = s as u64;
    assert((m & (1u64 << t) == 0u64) <==> !((m >> t) & 1u64 == 1u64)) by (bit_vector)
        requires
            t < 64,
    ;
}

/// What the engine reports about a slot as a possible outline target.
#[derive(Clone, Copy, Debug)]
pub enum TargetObservation {
    /// Not a valid target: not in game, dead, not on a playing team, or its
    /// pawn or model is missing.
    Gone,
    /// A valid target with its pawn, team and model; `pair_valid` tells
    /// whether the engine still knows both published entities of the slot.
    Present { pawn_handle: i32, team: CSTeam, model_hash: u64, pair_valid: bool },
}

/// What to do for one slot during reconciliation.
#[derive(Debug)]
pub enum TargetPlan {
    /// Unpublished: detach and remove these entities.
    Remove(Vec<i32>),
    /// The published pair still matches the target.
    Keep,
    /// A target on no colour team: leave it.
    Skip,
    /// Create a glow pair in this colour.
    Create(Color),
}

/// Whether the pair published for slot index `i` still matches the observed target.
pub open spec fn pair_unchanged(v: EspView, i: int, pawn_handle: i32, team: CSTeam, model_hash: u64, pair_valid: bool) -> bool {
    &&& v.pawn[i] == pawn_handle
    &&& v.team[i] == team_number(team)
    &&& v.model_hash[i] == model_hash
    &&& v.relay[i] != INVALID_ENTITY_HANDLE
    &&& v.glow[i] != INVALID_ENTITY_HANDLE
    &&& pair_valid
}

/// A published pair is kept only for the target it was made for: the same
/// pawn, team and model, with both entities published and still valid.
pub proof fn law_kept_pair_is_current(
    v: EspView,
    i: int,
    pawn_handle: i32,
    team: CSTeam,
    model_hash: u64,
    pair_valid: bool,
)
    requires
        pair_unchanged(v, i, pawn_handle, team, model_hash, pair_valid),
    ensures
        v.pawn[i] == pawn_handle,
        v.team[i] == team_number(team),
        v.model_hash[i] == model_hash,
        pair_valid,
        v.glow[i] != INVALID_ENTITY_HANDLE,
        v.relay[i] != INVALID_ENTITY_HANDLE,
{
}

/// A published pair whose pawn, team or model differs from the observed
/// target is stale: it is not kept, both its entities are handed back for
/// removal, and the slot is left with nothing published.
pub proof fn law_stale_pair_is_removed(
    v: EspView,
    i: int,
    pawn_handle: i32,
    team: CSTeam,
    model_hash: u64,
    pair_valid: bool,
)
    requires
        esp_wf(v),
        0 <= i < 64,
        v.glow[i] != INVALID_ENTITY_HANDLE,
        v.pawn[i] != pawn_handle || v.team[i] != team_number(team) || v.model_hash[i] != model_hash,
    ensures
        !pair_unchanged(v, i, pawn_handle, team, model_hash, pair_valid),
        removal(v, i) == seq![v.glow[i], v.relay[i]],
        after_removal(v, i).glow[i] == INVALID_ENTITY_HANDLE,
        after_removal(v, i).relay[i] == INVALID_ENTITY_HANDLE,
        !holds(after_removal(v, i).published, i),
{
    lemma_unpublished_wf(v, i);
    let w = after_removal(v, i);
    assert(w == unpublished(v, i));
    assert(w.glow[i] == INVALID_ENTITY_HANDLE);
    assert(w.glow[i] == INVALID_ENTITY_HANDLE <==> w.relay[i] == INVALID_ENTITY_HANDLE);
}

/// Decides what reconciliation does for `slot`: a slot beyond the client
/// limit or without a valid target is unpublished; an unchanged pair is
/// kept; a stale pair is unpublished; otherwise a pair is created in the
/// team's colour, except for a team without one.
pub fn plan_target(
    state: &mut EspState,
    slot: i32,
    max_clients: i32,
    observation: TargetObservation,
    ct_color: Color,
    t_color: Color,
) -> (r: TargetPlan)
    requires
        old(state).wf(),
        0 <= slot < 64,
    ensures
        final(state).wf(),
        match observation {
            TargetObservation::Present { pawn_handle, team, model_hash, pair_valid } if slot
                < client_limit(max_clients) => {
                let v = old(state)@;
                if pair_unchanged(v, slot as int, pawn_handle, team, model_hash, pair_valid) {
                    r is Keep && final(state)@ == v
                } else if v.relay[slot as int] != INVALID_ENTITY_HANDLE || v.glow[slot as int]
                    != INVALID_ENTITY_HANDLE {
                    r matches TargetPlan::Remove(e) && e@ == removal(v, slot as int)
                        && final(state)@ == after_removal(v, slot as int)
                } else if team == CSTeam::CT {
                    r == TargetPlan::Create(ct_color) && final(state)@ == v
                } else if team == CSTeam::T {
                    r == TargetPlan::Create(t_color) && final(state)@ == v
                } else {
                    r is Skip && final(state)@ == v
                }
            },
            _ => r matches TargetPlan::Remove(e) && e@ == removal(old(state)@, slot as int)
                && final(state)@ == after_removal(old(state)@, slot as int),
        },
        r is Keep ==> (observation matches TargetObservation::Present {
            pawn_handle,
            team,
            model_hash,
            pair_valid,
        } && old(state)@.pawn[slot as int] == pawn_handle && old(state)@.team[slot as int]
            == team_number(team) && old(state)@.model_hash[slot as int] == model_hash && pair_valid
            && old(state)@.glow[slot as int] != INVALID_ENTITY_HANDLE && old(state)@.relay[slot as int]
            != INVALID_ENTITY_HANDLE),
        final(state)@.glow[slot as int] != INVALID_ENTITY_HANDLE ==> (observation matches TargetObservation::Present {
            pawn_handle,
            team,
            model_hash,
            ..
        } && final(state)@.pawn[slot as int] == pawn_handle && final(state)@.team[slot as int]
            == team_number(team) && final(state)@.model_hash[slot as int] == model_hash),
        (observation matches TargetObservation::Present { pawn_handle, .. } && slot < client_limit(
            max_clients,
        ) && old(state)@.glow[slot as int] != INVALID_ENTITY_HANDLE && old(state)@.pawn[slot as int]
            != pawn_handle) ==> (r matches TargetPlan::Remove(e) && e@ == seq![
            old(state)@.glow[slot as int],
            old(state)@.relay[slot as int],
        ]),
{
    let limit: i32 = if max_clients < 0 {
        0
    } else if max_clients > 64 {
        64
    } else {
        max_clients
    };
    match observation {
        TargetObservation::Present { pawn_handle, team, model_hash, pair_valid } => {
            if slot < limit {
                let index = slot as usize;
                let unchanged = state.pawn[index] == pawn_handle && state.team[index] == team_value(
                    team,
                ) && state.model_hash[index] == model_hash && valid_pair(
                    state,
                    index,
                    pair_valid,
                    true,
                );
                if unchanged {
                    return TargetPlan::Keep;
                }
                if has_published_entities(state, index) {
                    return TargetPlan::Remove(request_remove_target_entities(state, slot));
                }
                return match team {
                    CSTeam::CT => TargetPlan::Create(ct_color),
                    CSTeam::T => TargetPlan::Create(t_color),
                    _ => TargetPlan::Skip,
                };
            }
        },
        TargetObservation::Gone => {},
    }
    TargetPlan::Remove(request_remove_target_entities(state, slot))
}

/// The view once the pair `glow`, `relay` is published for slot index `index`.
pub open spec fn with_published_pair(
    v: EspView,
    index: int,
    glow: i32,
    relay: i32,
    pawn_handle: i32,
    team: CSTeam,
    model_hash: u64,
) -> EspView {
    EspView {
        published: v.published | slot_mask(index),
        glow: v.glow.update(index, glow),
        relay: v.relay.update(index, relay),
        pawn: v.pawn.update(index, pawn_handle),
        team: v.team.update(index, team_number(team)),
        model_hash: v.model_hash.update(index, model_hash),
        ..v
    }
}

/// Publishes the glow pair created for slot index `index`, with the pawn,
/// team and model it follows.
pub fn publish_glow_pair(
    state: &mut EspState,
    index: usize,
    glow: i32,
    relay: i32,
    pawn_handle: i32,
    team: CSTeam,
    model_hash: u64,
)
    requires
        old(state).wf(),
        index < 64,
        old(state)@.glow[index as int] == INVALID_ENTITY_HANDLE,
        glow != INVALID_ENTITY_HANDLE,
        relay != INVALID_ENTITY_HANDLE,
    ensures
        final(state).wf(),
        final(state)@ == with_published_pair(old(state)@, index as int, glow, relay, pawn_handle, team, model_hash),
{
    let bit = slot_bit(index as i32);
    state.glow.set(index, glow);
    state.relay.set(index, relay);
    state.published_targets = state.published_targets | bit;
    state.pawn.set(index, pawn_handle);
    state.team.set(index, team_value(team));
    state.model_hash.set(index, model_hash);
    proof {
        lemma_published_pair_wf(old(state)@, index as int, glow, relay, pawn_handle, team, model_hash);
    }
}

/// Publishing a complete pair for a slot with nothing published keeps the
/// state well formed, publishes that slot, and leaves every other slot as it was.
proof fn lemma_published_pair_wf(
    v: EspView,
    index: int,
    glow: i32,
    relay: i32,
    pawn_handle: i32,
    team: CSTeam,
    model_hash: u64,
)
    requires
        esp_wf(v),
        0 <= index < 64,
        v.glow[index] == INVALID_ENTITY_HANDLE,
        glow != INVALID_ENTITY_HANDLE,
        relay != INVALID_ENTITY_HANDLE,
    ensures
        ({
            let w = with_published_pair(v, index, glow, relay, pawn_handle, team, model_hash);
            &&& esp_wf(w)
            &&& holds(w.published, index)
            &&& forall|t: int| 0 <= t < 64 && t != index ==> (holds(w.published, t) <==> holds(v.published, t))
        }),
{
    lemma_mask_set(v.published, index);
    let w = with_published_pair(v, index, glow, relay, pawn_handle, team, model_hash);
    assert forall|t: int| 0 <= t < 64 implies (holds(w.published, t) <==> #[trigger] w.glow[t]
        != INVALID_ENTITY_HANDLE) by {
        assert(holds(w.published, t) == holds(v.published | slot_mask(index), t));
    }
}

/// The stages of creating a glow pair for a target.
#[derive(Clone, Copy, Debug, PartialEq, Eq, Structural)]
pub enum GlowPairStage {
    /// The glow entity is being created.
    CreateGlow,
    /// The relay entity is being created.
    CreateRelay { glow: i32 },
    /// Both entities were spawned with their key values.
    Spawned { glow: i32, relay: i32 },
    /// The relay follows the pawn and the glow follows the relay.
    Linked { glow: i32, relay: i32 },
}

/// What the engine reported for the last step.
#[derive(Clone, Copy, Debug)]
pub enum GlowPairReport {
    /// An entity was created: its handle, and whether the engine knows it.
    Created { handle: i32, valid: bool },
    /// Whether the engine still knows the glow and the relay entities.
    Checked { glow_valid: bool, relay_valid: bool },
}

/// What the caller does next while creating a glow pair.
#[derive(Debug)]
pub enum GlowPairStep {
    /// Create a `prop_dynamic` entity and report it.
    CreateEntity,
    /// Spawn both entities with their key values and report whether they are valid.
    SpawnBoth { glow: i32, relay: i32 },
    /// Make the relay follow the pawn and the glow follow the relay, and
    /// report whether they are valid.
    LinkBoth { glow: i32, relay: i32 },
    /// Give up: detach and remove these entities, and report the message.
    Failed { remove: Vec<i32>, message: String },
    /// The pair is ready to be published.
    Done { glow: i32, relay: i32 },
}

/// The next stage and step of creating a glow pair, given the engine's report.
pub open spec fn glow_pair_transition(stage: GlowPairStage, report: GlowPairReport) -> (
    Option<GlowPairStage>,
    GlowPairStepView,
) {
    match (stage, report) {
        (GlowPairStage::CreateGlow, GlowPairReport::Created { handle, valid }) => {
            if handle == INVALID_ENTITY_HANDLE || !valid {
                (None, GlowPairStepView::Failed(Seq::empty(), "failed to create glow prop_dynamic"@))
            } else {
                (Some(GlowPairStage::CreateRelay { glow: handle }), GlowPairStepView::CreateEntity)
            }
        },
        (GlowPairStage::CreateRelay { glow }, GlowPairReport::Created { handle, valid }) => {
            if handle == INVALID_ENTITY_HANDLE || !valid {
                (None, GlowPairStepView::Failed(seq![glow], "failed to create relay prop_dynamic"@))
            } else {
                (
                    Some(GlowPairStage::Spawned { glow, relay: handle }),
                    GlowPairStepView::SpawnBoth(glow, handle),
                )
            }
        },
        (GlowPairStage::Spawned { glow, relay }, GlowPairReport::Checked { glow_valid, relay_valid }) => {
            if !glow_valid || !relay_valid {
                (
                    None,
                    GlowPairStepView::Failed(
                        seq![glow, relay],
                        "glow pair became invalid during DispatchSpawn2"@,
                    ),
                )
            } else {
                (Some(GlowPairStage::Linked { glow, relay }), GlowPairStepView::LinkBoth(glow, relay))
            }
        },
        (GlowPairStage::Linked { glow, relay }, GlowPairReport::Checked { glow_valid, relay_valid }) => {
            if !glow_valid || !relay_valid {
                (
                    None,
                    GlowPairStepView::Failed(
                        seq![glow, relay],
                        "glow pair became invalid while linking FollowEntity"@,
                    ),
                )
            } else {
                (None, GlowPairStepView::Done(glow, relay))
            }
        },
        _ => (None, GlowPairStepView::Mismatch),
    }
}

/// The abstract form of a step.
pub enum GlowPairStepView {
    CreateEntity,
    SpawnBoth(i32, i32),
    LinkBoth(i32, i32),
    Failed(Seq<i32>, Seq<char>),
    Done(i32, i32),
    Mismatch,
}

pub open spec fn step_view(s: GlowPairStep) -> GlowPairStepView {
    match s {
        GlowPairStep::CreateEntity => GlowPairStepView::CreateEntity,
        GlowPairStep::SpawnBoth { glow, relay } => GlowPairStepView::SpawnBoth(glow, relay),
        GlowPairStep::LinkBoth { glow, relay } => GlowPairStepView::LinkBoth(glow, relay),
        GlowPairStep::Failed { remove, message } => GlowPairStepView::Failed(remove@, message@),
        GlowPairStep::Done { glow, relay } => GlowPairStepView::Done(glow, relay),
    }
}

/// Whether `report` answers the step that `stage` waits for.
pub open spec fn report_fits(stage: GlowPairStage, report: GlowPairReport) -> bool {
    match stage {
        GlowPairStage::CreateGlow | GlowPairStage::CreateRelay { .. } => report is Created,
        _ => report is Checked,
    }
}

/// The entities created so far at `stage`.
pub open spec fn created_entities(stage: GlowPairStage) -> Seq<i32> {
    match stage {
        GlowPairStage::CreateGlow => Seq::empty(),
        GlowPairStage::CreateRelay { glow } => seq![glow],
        GlowPairStage::Spawned { glow, relay } => seq![glow, relay],
        GlowPairStage::Linked { glow, relay } => seq![glow, relay],
    }
}

/// Creating a glow pair leaves nothing behind when it fails: the entities to
/// remove are exactly those created so far; and it only ever finishes with
/// the two entities it created.
pub proof fn law_failed_creation_removes_what_it_created(stage: GlowPairStage, report: GlowPairReport)
    requires
        report_fits(stage, report),
    ensures
        glow_pair_transition(stage, report).1 matches GlowPairStepView::Failed(removed, _)
            ==> removed == created_entities(stage),
        glow_pair_transition(stage, report).1 matches GlowPairStepView::Done(glow, relay)
            ==> stage == (GlowPairStage::Linked { glow, relay }),
        glow_pair_transition(stage, report).0 matches Some(next) ==> created_entities(stage).len()
            <= created_entities(next).len() && created_entities(next).subrange(
            0,
            created_entities(stage).len() as int,
        ) == created_entities(stage),
{
    match glow_pair_transition(stage, report).0 {
        Some(next) => {
            assert(created_entities(next).subrange(0, created_entities(stage).len() as int)
                =~= created_entities(stage));
        },
        None => {},
    }
}

/// Whether the entities a stage holds are real handles.
pub open spec fn stage_handles_valid(stage: GlowPairStage) -> bool {
    match stage {
        GlowPairStage::CreateGlow => true,
        GlowPairStage::CreateRelay { glow } => glow != INVALID_ENTITY_HANDLE,
        GlowPairStage::Spawned { glow, relay } => glow != INVALID_ENTITY_HANDLE && relay
            != INVALID_ENTITY_HANDLE,
        GlowPairStage::Linked { glow, relay } => glow != INVALID_ENTITY_HANDLE && relay
            != INVALID_ENTITY_HANDLE,
    }
}

/// A target is outlined only once its whole pair exists: every stage of the
/// creation holds real handles, and the pair it finishes with can be
/// published for a slot with nothing published, which marks that slot
/// published with exactly those two entities, keeps the state well formed,
/// and leaves every other slot as it was.
pub proof fn law_created_pair_is_publishable(
    v: EspView,
    index: int,
    stage: GlowPairStage,
    report: GlowPairReport,
    pawn_handle: i32,
    team: CSTeam,
    model_hash: u64,
)
    requires
        esp_wf(v),
        0 <= index < 64,
        v.glow[index] == INVALID_ENTITY_HANDLE,
        stage_handles_valid(stage),
        report_fits(stage, report),
    ensures
        glow_pair_transition(stage, report).0 matches Some(next) ==> stage_handles_valid(next),
        glow_pair_transition(stage, report).1 matches GlowPairStepView::Done(glow, relay) ==> {
            let w = with_published_pair(v, index, glow, relay, pawn_handle, team, model_hash);
            &&& glow != INVALID_ENTITY_HANDLE
            &&& relay != INVALID_ENTITY_HANDLE
            &&& esp_wf(w)
            &&& holds(w.published, index)
            &&& w.glow[index] == glow
            &&& w.relay[index] == relay
            &&& forall|t: int|
                0 <= t < 64 && t != index ==> (holds(w.published, t) <==> holds(v.published, t))
                    && w.glow[t] == v.glow[t] && w.relay[t] == v.relay[t]
        },
{
    match glow_pair_transition(stage, report).1 {
        GlowPairStepView::Done(glow, relay) => {
            lemma_published_pair_wf(v, index, glow, relay, pawn_handle, team, model_hash);
        },
        _ => {},
    }
}

/// The last step of feeding `reports` in order to the creation from `stage`:
/// it stops at the first step that has no next stage.
pub open spec fn final_step(stage: GlowPairStage, reports: Seq<GlowPairReport>) -> GlowPairStepView
    decreases reports.len(),
{
    if reports.len() == 0 {
        GlowPairStepView::Mismatch
    } else {
        let (next, step) = glow_pair_transition(stage, reports[0]);
        match next {
            Some(n) if reports.len() > 1 => final_step(n, reports.drop_first()),
            _ => step,
        }
    }
}

/// A creation finishes with a pair only when the engine created the glow and
/// then the relay, both real, and both stayed valid through spawning and
/// through linking; the pair is exactly those two entities.
pub proof fn law_finished_creation(reports: Seq<GlowPairReport>, glow: i32, relay: i32)
    requires
        final_step(GlowPairStage::CreateGlow, reports) == GlowPairStepView::Done(glow, relay),
    ensures
        reports.len() >= 4,
        reports[0] == (GlowPairReport::Created { handle: glow, valid: true }),
        reports[1] == (GlowPairReport::Created { handle: relay, valid: true }),
        reports[2] == (GlowPairReport::Checked { glow_valid: true, relay_valid: true }),
        reports[3] == (GlowPairReport::Checked { glow_valid: true, relay_valid: true }),
        glow != INVALID_ENTITY_HANDLE,
        relay != INVALID_ENTITY_HANDLE,
{
    let r1 = reports.drop_first();
    let r2 = r1.drop_first();
    let r3 = r2.drop_first();
    reveal_with_fuel(final_step, 5);
    assert(reports.len() >= 2);
    let g = match reports[0] {
        GlowPairReport::Created { handle, .. } => handle,
        _ => 0,
    };
    assert(reports[0] matches GlowPairReport::Created { handle, valid } && handle != INVALID_ENTITY_HANDLE && valid);
    assert(final_step(GlowPairStage::CreateRelay { glow: g }, r1) == GlowPairStepView::Done(glow, relay));
    assert(r1.len() >= 2);
    assert(r1[0] matches GlowPairReport::Created { handle, valid } && handle != INVALID_ENTITY_HANDLE && valid);
    let rl = match r1[0] {
        GlowPairReport::Created { handle, .. } => handle,
        _ => 0,
    };
    assert(final_step(GlowPairStage::Spawned { glow: g, relay: rl }, r2) == GlowPairStepView::Done(glow, relay));
    assert(r2.len() >= 2);
    assert(r2[0] == (GlowPairReport::Checked { glow_valid: true, relay_valid: true }));
    assert(final_step(GlowPairStage::Linked { glow: g, relay: rl }, r3) == GlowPairStepView::Done(glow, relay));
    assert(r3[0] == (GlowPairReport::Checked { glow_valid: true, relay_valid: true }));
    assert(g == glow && rl == relay);
    assert(reports[1] == r1[0] && reports[2] == r2[0] && reports[3] == r3[0]);
}

/// Creating a glow pair starts by creating the glow entity.
pub fn create_glow_pair() -> (r: (GlowPairStage, GlowPairStep))
    ensures
        r.0 == GlowPairStage::CreateGlow,
        r.1 is CreateEntity,
{
    (GlowPairStage::CreateGlow, GlowPairStep::CreateEntity)
}

/// Advances the creation of a glow pair: an entity that the engine does not
/// know aborts the creation, removing what was created so far.
pub fn advance_glow_pair(stage: GlowPairStage, report: GlowPairReport) -> (r: (
    Option<GlowPairStage>,
    GlowPairStep,
))
    requires
        report_fits(stage, report),
    ensures
        (r.0, step_view(r.1)) == glow_pair_transition(stage, report),
{
    match (stage, report) {
        (GlowPairStage::CreateGlow, GlowPairReport::Created { handle, valid }) => {
            if handle == INVALID_ENTITY_HANDLE || !valid {
                (
                    None,
                    GlowPairStep::Failed {
                        remove: Vec::new(),
                        message: String::from_str("failed to create glow prop_dynamic"),
                    },
                )
            } else {
                (Some(GlowPairStage::CreateRelay { glow: handle }), GlowPairStep::CreateEntity)
            }
        },
        (GlowPairStage::CreateRelay { glow }, GlowPairReport::Created { handle, valid }) => {
            if handle == INVALID_ENTITY_HANDLE || !valid {
                let mut remove: Vec<i32> = Vec::new();
                remove.push(glow);
                assert(remove@ =~= seq![glow]);
                (
                    None,
                    GlowPairStep::Failed {
                        remove,
                        message: String::from_str("failed to create relay prop_dynamic"),
                    },
                )
            } else {
                (
                    Some(GlowPairStage::Spawned { glow, relay: handle }),
                    GlowPairStep::SpawnBoth { glow, relay: handle },
                )
            }
        },
        (GlowPairStage::Spawned { glow, relay }, GlowPairReport::Checked { glow_valid, relay_valid }) => {
            if !glow_valid || !relay_valid {
                let mut remove: Vec<i32> = Vec::new();
                remove.push(glow);
                remove.push(relay);
                assert(remove@ =~= seq![glow, relay]);
                (
                    None,
                    GlowPairStep::Failed {
                        remove,
                        message: String::from_str("glow pair became invalid during DispatchSpawn2"),
                    },
                )
            } else {
                (Some(GlowPairStage::Linked { glow, relay }), GlowPairStep::LinkBoth { glow, relay })
            }
        },
        (GlowPairStage::Linked { glow, relay }, GlowPairReport::Checked { glow_valid, relay_valid }) => {
            if !glow_valid || !relay_valid {
                let mut remove: Vec<i32> = Vec::new();
                remove.push(glow);
                remove.push(relay);
                assert(remove@ =~= seq![glow, relay]);
                (
                    None,
                    GlowPairStep::Failed {
                        remove,
                        message: String::from_str(
                            "glow pair became invalid while linking FollowEntity",
                        ),
                    },
                )
            } else {
                (None, GlowPairStep::Done { glow, relay })
            }
        },
        (GlowPairStage::CreateGlow, GlowPairReport::Checked { .. }) => {
            proof {
                assert(false);
            }
            (None, GlowPairStep::CreateEntity)
        },
        (GlowPairStage::CreateRelay { .. }, GlowPairReport::Checked { .. }) => {
            proof {
                assert(false);
            }
            (None, GlowPairStep::CreateEntity)
        },
        (GlowPairStage::Spawned { .. }, GlowPairReport::Created { .. }) => {
            proof {
                assert(false);
            }
            (None, GlowPairStep::CreateEntity)
        },
        (GlowPairStage::Linked { .. }, GlowPairReport::Created { .. }) => {
            proof {
                assert(false);
            }
            (None, GlowPairStep::CreateEntity)
        },
    }
}

/// A key value handed to the engine when spawning an entity.
#[derive(Debug)]
pub enum SpawnValue {
    Text(String),
    Int64(i64),
    Int32(i32),
}

/// The abstract form of a key value.
pub enum SpawnValueView {
    Text(Seq<char>),
    Int64(i64),
    Int32(i32),
}

pub open spec fn spawn_view(kv: Seq<(String, SpawnValue)>) -> Seq<(Seq<char>, SpawnValueView)> {
    kv.map_values(
        |p: (String, SpawnValue)|
            (
                p.0@,
                match p.1 {
                    SpawnValue::Text(s) => SpawnValueView::Text(s@),
                    SpawnValue::Int64(n) => SpawnValueView::Int64(n),
                    SpawnValue::Int32(n) => SpawnValueView::Int32(n),
                },
            ),
    )
}

/// The key values of the glow entity: the target's model, glowing in
/// `glow_color` at any distance for everybody.
pub open spec fn glow_key_values(model: Seq<char>, glow_color: Seq<char>) -> Seq<(Seq<char>, SpawnValueView)> {
    seq![
        ("model"@, SpawnValueView::Text(model)),
        ("spawnflags"@, SpawnValueView::Int64(256)),
        ("glowcolor"@, SpawnValueView::Text(glow_color)),
        ("glowrange"@, SpawnValueView::Int32(5000)),
        ("glowrangemin"@, SpawnValueView::Int32(-1000i32)),
        ("glowteam"@, SpawnValueView::Int32(-1i32)),
        ("glowtype"@, SpawnValueView::Int32(2)),
        ("glowstate"@, SpawnValueView::Int32(3)),
        ("renderamt"@, SpawnValueView::Int32(1)),
    ]
}

/// The key values of the relay entity: the target's model, not rendered.
pub open spec fn relay_key_values(model: Seq<char>) -> Seq<(Seq<char>, SpawnValueView)> {
    seq![
        ("model"@, SpawnValueView::Text(model)),
        ("spawnflags"@, SpawnValueView::Int64(256)),
        ("rendermode"@, SpawnValueView::Int32(2)),
    ]
}

pub fn glow_spawn_values(model: &str, glow_color: String) -> (r: Vec<(String, SpawnValue)>)
    ensures
        spawn_view(r@) == glow_key_values(model@, glow_color@),
{
    let mut r: Vec<(String, SpawnValue)> = Vec::new();
    r.push((String::from_str("model"), SpawnValue::Text(String::from_str(model))));
    r.push((String::from_str("spawnflags"), SpawnValue::Int64(256)));
    r.push((String::from_str("glowcolor"), SpawnValue::Text(glow_color)));
    r.push((String::from_str("glowrange"), SpawnValue::Int32(5000)));
    r.push((String::from_str("glowrangemin"), SpawnValue::Int32(-1000)));
    r.push((String::from_str("glowteam"), SpawnValue::Int32(-1)));
    r.push((String::from_str("glowtype"), SpawnValue::Int32(2)));
    r.push((String::from_str("glowstate"), SpawnValue::Int32(3)));
    r.push((String::from_str("renderamt"), SpawnValue::Int32(1)));
    assert(spawn_view(r@) =~= glow_key_values(model@, glow_color@));
    r
}

pub fn relay_spawn_values(model: &str) -> (r: Vec<(String, SpawnValue)>)
    ensures
        spawn_view(r@) == relay_key_values(model@),
{
    let mut r: Vec<(String, SpawnValue)> = Vec::new();
    r.push((String::from_str("model"), SpawnValue::Text(String::from_str(model))));
    r.push((String::from_str("spawnflags"), SpawnValue::Int64(256)));
    r.push((String::from_str("rendermode"), SpawnValue::Int32(2)));
    assert(spawn_view(r@) =~= relay_key_values(model@));
    r
}

/// Where the spawned pair gets its key values: the glow entity the glow's,
/// the relay entity the relay's.
pub fn spawn_plan(glow: i32, relay: i32, model: &str, glow_color: String) -> (r: Vec<
    (i32, Vec<(String, SpawnValue)>),
>)
    ensures
        r@.len() == 2,
        r@[0].0 == glow,
        spawn_view(r@[0].1@) == glow_key_values(model@, glow_color@),
        r@[1].0 == relay,
        spawn_view(r@[1].1@) == relay_key_values(model@),
{
    let glow_values = glow_spawn_values(model, glow_color);
    let relay_values = relay_spawn_values(model);
    let mut r: Vec<(i32, Vec<(String, SpawnValue)>)> = Vec::new();
    r.push((glow, glow_values));
    r.push((relay, relay_values));
    r
}

/// Which entity follows which once the pair is spawned, in the order the
/// links are made: the relay follows the pawn, then the glow follows the relay.
pub open spec fn follow_links(glow: i32, relay: i32, pawn_handle: i32) -> Seq<(i32, i32)> {
    seq![(relay, pawn_handle), (glow, relay)]
}

/// The links to make for a spawned pair, as (entity, entity it follows).
pub fn link_targets(glow: i32, relay: i32, pawn_handle: i32) -> (r: Vec<(i32, i32)>)
    ensures
        r@ == follow_links(glow, relay, pawn_handle),
{
    let mut r: Vec<(i32, i32)> = Vec::new();
    r.push((relay, pawn_handle));
    r.push((glow, relay));
    assert(r@ =~= follow_links(glow, relay, pawn_handle));
    r
}

/// The entity input and value that make an entity follow another
/// (`FollowEntity` with `!activator`), and those that detach it (`FollowEntity`
/// with an empty value, toward no entity).
pub fn follow_input() -> (r: (&'static str, &'static str, &'static str))
    ensures
        r.0@ == "FollowEntity"@,
        r.1@ == "!activator"@,
        r.2@ == ""@,
{
    ("FollowEntity", "!activator", "")
}

/// Whether `viewer` is an active viewer.
pub open spec fn viewer_active(v: EspView, viewer: int) -> bool {
    0 <= viewer < 64 && holds(v.active, viewer)
}

/// Whether the glow of target `t` is hidden from `viewer`: every published
/// glow is hidden from a viewer who is not active, and an active viewer does
/// not see its own glow.
pub open spec fn hides(v: EspView, viewer: int, t: int) -> bool {
    holds(v.published, t) && (!viewer_active(v, viewer) || viewer == t) && v.glow[t]
        != INVALID_ENTITY_HANDLE
}

/// The glow entities of targets 0..n hidden from `viewer`, in target order.
pub open spec fn hidden_glows(v: EspView, viewer: int, n: nat) -> Seq<i32>
    decreases n,
{
    if n == 0 {
        Seq::empty()
    } else if hides(v, viewer, n - 1) {
        hidden_glows(v, viewer, (n - 1) as nat).push(v.glow[n - 1])
    } else {
        hidden_glows(v, viewer, (n - 1) as nat)
    }
}

/// The glow entities that must not be transmitted to `viewer_slot`.
pub fn glows_hidden_from(state: &EspState, viewer_slot: i32) -> (r: Vec<i32>)
    requires
        state.wf(),
    ensures
        r@ == hidden_glows(state@, viewer_slot as int, 64),
{
    let mut r: Vec<i32> = Vec::new();
    let published = state.published_targets;
    if published == 0 {
        proof {
            assert forall|t: int| 0 <= t < 64 implies !holds(0u64, t) by {
                lemma_zero_has(t as u64);
            }
            lemma_hidden_none(state@, viewer_slot as int, 64);
        }
        return r;
    }
    let active = state.active_viewers & slot_bit(viewer_slot) != 0;
    proof {
        if 0 <= viewer_slot < 64 {
            lemma_bit_and_holds(state.active_viewers, viewer_slot as int);
        } else {
            let a = state.active_viewers;
            assert(a & 0u64 == 0u64) by (bit_vector);
        }
    }
    let mut target: i32 = 0;
    while target < 64
        invariant
            0 <= target <= 64,
            state.wf(),
            published == state@.published,
            active == viewer_active(state@, viewer_slot as int),
            r@ == hidden_glows(state@, viewer_slot as int, target as nat),
        decreases 64 - target,
    {
        proof {
            lemma_bit_and_holds(published, target as int);
        }
        if published & slot_bit(target) != 0 {
            if !(active && viewer_slot != target) {
                let glow = state.glow[target as usize];
                if glow != INVALID_ENTITY_HANDLE {
                    r.push(glow);
                }
            }
        }
        target = target + 1;
    }
    r
}

proof fn lemma_hidden_glows(v: EspView, viewer: int, n: nat)
    requires
        esp_wf(v),
        n <= 64,
    ensures
        forall|t: int|
            0 <= t < n && holds(v.published, t) && (!viewer_active(v, viewer) || viewer == t)
                ==> hidden_glows(v, viewer, n).contains(#[trigger] v.glow[t]),
        viewer_active(v, viewer) ==> forall|k: int|
            0 <= k < hidden_glows(v, viewer, n).len() ==> #[trigger] hidden_glows(v, viewer, n)[k]
                == v.glow[viewer],
    decreases n,
{
    if n > 0 {
        let m = (n - 1) as nat;
        lemma_hidden_glows(v, viewer, m);
        let h = hidden_glows(v, viewer, m);
        assert forall|t: int|
            0 <= t < n && holds(v.published, t) && (!viewer_active(v, viewer) || viewer == t)
                implies hidden_glows(v, viewer, n).contains(#[trigger] v.glow[t]) by {
            if t < m {
                assert(h.contains(v.glow[t]));
                let k = choose|k: int| 0 <= k < h.len() && h[k] == v.glow[t];
                if hides(v, viewer, m as int) {
                    assert(h.push(v.glow[m as int])[k] == v.glow[t]);
                }
            } else {
                assert(v.glow[t] != INVALID_ENTITY_HANDLE);
                assert(hides(v, viewer, t));
                assert(h.push(v.glow[t])[h.len() as int] == v.glow[t]);
            }
        }
    }
}

/// What a viewer is not sent: a viewer who does not see outlines is sent no published glow
/// at all, and an active viewer is sent every published glow but its own.
pub proof fn law_glow_visibility(v: EspView, viewer: int)
    requires
        esp_wf(v),
    ensures
        !viewer_active(v, viewer) ==> forall|t: int|
            0 <= t < 64 && holds(v.published, t) ==> hidden_glows(v, viewer, 64).contains(
                #[trigger] v.glow[t],
            ),
        viewer_active(v, viewer) && holds(v.published, viewer) ==> hidden_glows(v, viewer, 64).contains(
            v.glow[viewer],
        ),
        viewer_active(v, viewer) ==> forall|k: int|
            0 <= k < hidden_glows(v, viewer, 64).len() ==> #[trigger] hidden_glows(v, viewer, 64)[k]
                == v.glow[viewer],
{
    lemma_hidden_glows(v, viewer, 64);
    if viewer_active(v, viewer) && holds(v.published, viewer) {
        assert(0 <= viewer < 64);
        assert(hidden_glows(v, viewer, 64).contains(v.glow[viewer]));
    }
}

proof fn lemma_hidden_none(v: EspView, viewer: int, n: nat)
    requires
        n <= 64,
        forall|t: int| 0 <= t < 64 ==> !holds(v.published, t),
    ensures
        hidden_glows(v, viewer, n) == Seq::<i32>::empty(),
    decreases n,
{
    if n > 0 {
        lemma_hidden_none(v, viewer, (n - 1) as nat);
    }
}

/// The words joined with one space between each two.
pub open spec fn join_words(ws: Seq<Seq<char>>) -> Seq<char>
    decreases ws.len(),
{
    if ws.len() == 0 {
        Seq::empty()
    } else if ws.len() == 1 {
        ws[0]
    } else {
        join_words(ws.drop_last()) + seq![' '] + ws.last()
    }
}

pub open spec fn strings_view(v: Seq<String>) -> Seq<Seq<char>> {
    v.map_values(|s: String| s@)
}

/// The chat message of a `say` command: its arguments after the first,
/// joined by spaces, trimmed, without surrounding quotes, trimmed again and
/// in ASCII lower case; nothing when that is empty or there is no argument.
pub open spec fn chat_text(args: Seq<Seq<char>>) -> Option<Seq<char>> {
    if args.len() < 2 {
        None
    } else {
        let m = ascii_lower_seq(
            trim(strip_both(trim(join_words(args.subrange(1, args.len() as int))), Strip::Char('"'))),
        );
        if m.len() == 0 {
            None
        } else {
            Some(m)
        }
    }
}

pub fn chat_message(args: &Vec<String>) -> (r: Option<String>)
    ensures
        match r {
            Some(m) => chat_text(strings_view(args@)) == Some(m@),
            None => chat_text(strings_view(args@)) is None,
        },
{
    if args.len() < 2 {
        return None;
    }
    let ghost ws = strings_view(args@);
    let mut joined: Vec<char> = Vec::new();
    let mut i: usize = 1;
    while i < args.len()
        invariant
            1 <= i <= args@.len(),
            ws == strings_view(args@),
            joined@ == join_words(ws.subrange(1, i as int)),
        decreases args.len() - i,
    {
        let word = chars_of(args[i].as_str());
        let ghost before = joined@;
        if i > 1 {
            joined.push(' ');
        }
        let mut k: usize = 0;
        while k < word.len()
            invariant
                k <= word@.len(),
                joined@ == (if i > 1 { before + seq![' '] } else { before }) + word@.subrange(0, k as int),
            decreases word.len() - k,
        {
            joined.push(word[k]);
            k = k + 1;
            assert(joined@ =~= (if i > 1 { before + seq![' '] } else { before }) + word@.subrange(0, k as int));
        }
        proof {
            let p = ws.subrange(1, i + 1);
            assert(word@.subrange(0, word@.len() as int) =~= word@);
            assert(p.drop_last() =~= ws.subrange(1, i as int));
            assert(p.last() == ws[i as int]);
            if i == 1 {
                assert(before =~= Seq::<char>::empty());
                assert(joined@ =~= join_words(p));
            } else {
                assert(joined@ =~= join_words(p));
            }
        }
        i = i + 1;
    }
    let once = strip_chars(joined.as_slice(), Strip::Whitespace);
    let unquoted = strip_chars(once.as_slice(), Strip::Char('"'));
    let twice = strip_chars(unquoted.as_slice(), Strip::Whitespace);
    let lowered = ascii_lower_chars(twice.as_slice());
    proof {
        assert(ws.subrange(1, ws.len() as int) == ws.subrange(1, args@.len() as int));
    }
    if lowered.len() == 0 {
        return None;
    }
    Some(string_of(lowered.as_slice()))
}

/// Whether a chat command asks for the ESP (`!esp` or `/esp`).
pub fn esp_chat_trigger(args: &Vec<String>) -> (r: bool)
    ensures
        r == (chat_text(strings_view(args@)) == Some("!esp"@) || chat_text(strings_view(args@))
            == Some("/esp"@)),
{
    match chat_message(args) {
        Some(m) => {
            let bang = String::from_str("!esp");
            let slash = String::from_str("/esp");
            m == bang || m == slash
        },
        None => false,
    }
}

/// The hash of a model name: `DefaultHasher` over its UTF-8 bytes followed by
/// the byte 0xff, as `str::hash` feeds them.
pub open spec fn model_hash_of(model: Seq<char>) -> u64 {
    std::collections::hash_map::DefaultHasher::spec_finish(
        seq![vstd::utf8::encode_utf8(model), seq![0xffu8]],
    )
}

/// The hash that tells whether a target's model changed.
pub fn hash_model(model: &str) -> (r: u64)
    ensures
        r == model_hash_of(model@),
{
    let mut hasher = std::collections::hash_map::DefaultHasher::new();
    hasher.write(model.as_bytes());
    let end: [u8; 1] = [0xff];
    hasher.write(&end);
    proof {
        assert(end@ =~= seq![0xffu8]);
        assert(hasher@ =~= seq![model.spec_bytes(), seq![0xffu8]]);
    }
    hasher.finish()
}

/// A valid target as reconciliation sees it, from its pawn, team and model
/// name: without a model (blank once trimmed) it is gone; otherwise present
/// with the hash of its trimmed model.
pub fn observe_target(pawn_handle: i32, team: CSTeam, model: &str, pair_valid: bool) -> (r:
    TargetObservation)
    ensures
        trim(model@).len() == 0 ==> r is Gone,
        trim(model@).len() > 0 ==> r == (TargetObservation::Present {
            pawn_handle,
            team,
            model_hash: model_hash_of(trim(model@)),
            pair_valid,
        }),
{
    let trimmed = trim_str(model);
    if trimmed.len() == 0 {
        return TargetObservation::Gone;
    }
    let name = string_of(trimmed.as_slice());
    let model_hash = hash_model(name.as_str());
    TargetObservation::Present { pawn_handle, team, model_hash, pair_valid }
}

/// With no active viewer nobody sees outlines, so reconciliation unpublishes
/// every glow pair and hands back the entities to remove; otherwise it goes
/// on slot by slot (`None`).
pub fn remove_all_when_unwatched(state: &mut EspState) -> (r: Option<Vec<i32>>)
    requires
        old(state).wf(),
    ensures
        final(state).wf(),
        old(state)@.active != 0 ==> r is None && final(state)@ == old(state)@,
        old(state)@.active == 0 ==> (r matches Some(e) && e@ == removals(old(state)@, 64))
            && all_unpublished(final(state)@, old(state)@),
{
    if state.active_viewers != 0 {
        return None;
    }
    Some(request_remove_all_entities(state))
}

pub open spec fn msg_admin_unavailable() -> Seq<char> {
    "RustAdmin AdminCheckAccess binding is unavailable"@
}

pub open spec fn msg_bindings_incomplete() -> Seq<char> {
    "S2SDK bindings required by RustAdminESP are incomplete"@
}

/// Whether the plugin can start: the RustAdmin access binding must be linked, then every
/// engine binding the plugin calls must be present.
pub fn check_dependencies(admin_linked: bool, sdk_bindings: &Vec<bool>) -> (r: Result<(), String>)
    ensures
        !admin_linked ==> (r matches Err(e) && e@ == msg_admin_unavailable()),
        admin_linked && (exists|i: int| 0 <= i < sdk_bindings@.len() && !sdk_bindings@[i]) ==> (
        r matches Err(e) && e@ == msg_bindings_incomplete()),
        admin_linked && (forall|i: int| 0 <= i < sdk_bindings@.len() ==> sdk_bindings@[i]) ==> r
            is Ok,
{
    if !admin_linked {
        return Err(String::from_str("RustAdmin AdminCheckAccess binding is unavailable"));
    }
    let mut i: usize = 0;
    while i < sdk_bindings.len()
        invariant
            admin_linked,
            i <= sdk_bindings@.len(),
            forall|j: int| 0 <= j < i ==> sdk_bindings@[j],
        decreases sdk_bindings.len() - i,
    {
        if !sdk_bindings[i] {
            return Err(String::from_str("S2SDK bindings required by RustAdminESP are incomplete"));
        }
        i = i + 1;
    }
    Ok(())
}

} // verus!
