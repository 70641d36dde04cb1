//! Runtime state of the map-chooser admin plugin: the menu screen of each
//! player, the maps each admin selected for a vote, the pending round-end map
//! change, and the admin votes in progress.
use std::collections::HashMap;
use vstd::prelude::*;
use vstd::std_specs::hash::spec_keys_iter;
use vstd::std_specs::iter::IteratorSpec;

verus! {

broadcast use vstd::std_specs::hash::group_hash_axioms;

/// The menu screen a player currently looks at.
#[derive(Clone, Copy, Debug, PartialEq, Eq, Structural)]
pub enum Screen {
    Home,
    ManualMaps { page: usize },
    ManualAction { map_id: i32, page: usize },
    VoteHome,
    VoteMaps { page: usize },
}

/// A map change that waits for the end of the round.
#[derive(Debug)]
pub struct PendingRoundChange {
    pub map_id: i32,
    pub requested_by: u64,
    pub display_name: String,
    pub source: String,
    pub requested: bool,
}

impl View for PendingRoundChange {
    type V = PendingRoundChange;

    open spec fn view(&self) -> PendingRoundChange {
        *self
    }
}

impl Clone for PendingRoundChange {
    fn clone(&self) -> (r: Self)
        ensures
            r == *self,
    {
        PendingRoundChange {
            map_id: self.map_id,
            requested_by: self.requested_by,
            display_name: self.display_name.clone(),
            source: self.source.clone(),
            requested: self.requested,
        }
    }
}

/// A multi-map vote that an admin started.
#[derive(Debug)]
pub struct ActiveMultiVote {
    pub requested_by: u64,
    pub vote_id: u64,
    pub displaced_next_map_id: i32,
    pub candidates: Vec<i32>,
    pub runoff_started: bool,
}

pub struct ActiveMultiVoteView {
    pub requested_by: u64,
    pub vote_id: u64,
    pub displaced_next_map_id: i32,
    pub candidates: Seq<i32>,
    pub runoff_started: bool,
}

impl View for ActiveMultiVote {
    type V = ActiveMultiVoteView;

    open spec fn view(&self) -> ActiveMultiVoteView {
        ActiveMultiVoteView {
            requested_by: self.requested_by,
            vote_id: self.vote_id,
            displaced_next_map_id: self.displaced_next_map_id,
            candidates: self.candidates@,
            runoff_started: self.runoff_started,
        }
    }
}

/// A copy of `v` with the same elements.
pub fn copy_ids(v: &Vec<i32>) -> (r: Vec<i32>)
    ensures
        r@ == v@,
{
    let mut r: Vec<i32> = Vec::new();
    let mut i: usize = 0;
    while i < v.len()
        invariant
            i <= v@.len(),
            r@ == v@.subrange(0, i as int),
        decreases v.len() - i,
    {
        r.push(v[i]);
        i = i + 1;
        assert(r@ =~= v@.subrange(0, i as int));
    }
    assert(r@ =~= v@);
    r
}

impl Clone for ActiveMultiVote {
    fn clone(&self) -> (r: Self)
        ensures
            r@ == self@,
    {
        ActiveMultiVote {
            requested_by: self.requested_by,
            vote_id: self.vote_id,
            displaced_next_map_id: self.displaced_next_map_id,
            candidates: copy_ids(&self.candidates),
            runoff_started: self.runoff_started,
        }
    }
}

/// The outcome of a yes/no vote.
#[derive(Clone, Copy, Debug, PartialEq, Eq, Structural)]
pub struct YesNoResult {
    pub passed: bool,
    pub total_votes: i32,
    pub yes_votes: i32,
    pub no_votes: i32,
}

/// A yes/no vote on one map that an admin started. `choices` maps a player
/// slot to the option that player chose: 0 for yes, 1 for no.
#[derive(Debug)]
pub struct ActiveYesNoVote {
    pub map_id: i32,
    pub requested_by: u64,
    pub display_name: String,
    pub displaced_next_map_id: i32,
    pub result: Option<YesNoResult>,
    pub choices: HashMap<i32, i32>,
}

pub struct ActiveYesNoVoteView {
    pub map_id: i32,
    pub requested_by: u64,
    pub display_name: String,
    pub displaced_next_map_id: i32,
    pub result: Option<YesNoResult>,
    pub choices: Map<i32, i32>,
}

impl View for ActiveYesNoVote {
    type V = ActiveYesNoVoteView;

    open spec fn view(&self) -> ActiveYesNoVoteView {
        ActiveYesNoVoteView {
            map_id: self.map_id,
            requested_by: self.requested_by,
            display_name: self.display_name,
            displaced_next_map_id: self.displaced_next_map_id,
            result: self.result,
            choices: self.choices@,
        }
    }
}

impl Clone for ActiveYesNoVote {
    fn clone(&self) -> (r: Self)
        ensures
            r@ == self@,
    {
        ActiveYesNoVote {
            map_id: self.map_id,
            requested_by: self.requested_by,
            display_name: self.display_name.clone(),
            displaced_next_map_id: self.displaced_next_map_id,
            result: self.result,
            choices: self.choices.clone(),
        }
    }
}

/// The players in `choices` who chose `choice`.
pub open spec fn voters_for(choices: Map<i32, i32>, choice: i32) -> Set<i32> {
    Set::new(|slot: i32| choices.dom().contains(slot) && choices[slot] == choice)
}

/// Number of players in `choices` who chose `choice`.
pub open spec fn choice_count(choices: Map<i32, i32>, choice: i32) -> nat {
    voters_for(choices, choice).len()
}

/// The tally of a yes/no vote: option 0 is yes, option 1 is no.
pub open spec fn tally(choices: Map<i32, i32>) -> YesNoResult {
    let yes = choice_count(choices, 0);
    let no = choice_count(choices, 1);
    YesNoResult {
        passed: yes > no,
        total_votes: (yes + no) as i32,
        yes_votes: yes as i32,
        no_votes: no as i32,
    }
}

impl ActiveYesNoVote {
    pub fn new(map_id: i32, requested_by: u64, display_name: String, displaced_next_map_id: i32) -> (r:
        Self)
        ensures
            r@ == (ActiveYesNoVoteView {
                map_id,
                requested_by,
                display_name,
                displaced_next_map_id,
                result: None,
                choices: Map::empty(),
            }),
    {
        ActiveYesNoVote {
            map_id,
            requested_by,
            display_name,
            displaced_next_map_id,
            result: None,
            choices: HashMap::new(),
        }
    }

    /// The tally of the choices recorded so far.
    pub fn tracked_result(&self) -> (r: YesNoResult)
        requires
            self.choices@.len() <= i32::MAX,
        ensures
            r == tally(self.choices@),
    {
        let ghost m = self.choices@;
        let mut yes: i32 = 0;
        let mut no: i32 = 0;
        let ghost mut seen: Set<i32> = Set::empty();
        let ghost p0 = |s: i32| m[s] == 0;
        let ghost p1 = |s: i32| m[s] == 1;
        proof {
            assert(seen.filter(p0) =~= Set::empty());
            assert(seen.filter(p1) =~= Set::empty());
        }
        for slot in it: self.choices.keys()
            invariant
                m == self.choices@,
                m.dom().finite(),
                m.dom().len() <= i32::MAX,
                it.seq() == spec_keys_iter(&self.choices).remaining(),
                seen.finite(),
                seen.subset_of(self.choices@.dom()),
                seen.len() == it.index(),
                it.seq().len() == m.dom().len(),
                it.index() == it.seq().len() ==> seen == m.dom(),
                forall|k: i32| #[trigger]
                    seen.contains(k) <==> exists|i: int| 0 <= i < it.index() && *it.seq()[i] == k,
                0 <= yes,
                0 <= no,
                yes as nat == seen.filter(p0).len(),
                no as nat == seen.filter(p1).len(),
                p0 == (|s: i32| m[s] == 0),
                p1 == (|s: i32| m[s] == 1),
        {
            let ghost k = *slot;
            let ghost sq = it.seq();
            let ghost idx = it.index();
            let ghost u = sq.map_values(|r: &i32| *r);
            let ghost old_seen = seen;
            proof {
                assert(*sq[idx] == k);
                vstd::std_specs::hash::axiom_spec_keys_iter(&self.choices);
                assert(sq.unref() =~= u);
                assert(u[idx] == k);
                assert(m.dom().contains(k)) by {
                    assert(u.to_set().contains(k));
                }
                assert(!seen.contains(k)) by {
                    if seen.contains(k) {
                        let i = choose|i: int| 0 <= i < idx && *sq[i] == k;
                        assert(u[i] == u[idx]);
                    }
                }
                assert(seen.subset_of(m.dom())) by {
                    assert forall|x: i32| seen.contains(x) implies m.dom().contains(x) by {
                        let i = choose|i: int| 0 <= i < idx && *sq[i] == x;
                        assert(u[i] == x);
                        assert(u.to_set().contains(x));
                    }
                }
                vstd::set_lib::lemma_len_subset(seen.insert(k), m.dom());
                seen.lemma_len_filter(p0);
                seen.lemma_len_filter(p1);
            }
            let choice = *self.choices.get(slot).unwrap();
            if choice == 0 {
                yes = yes + 1;
            } else if choice == 1 {
                no = no + 1;
            }
            proof {
                seen = seen.insert(k);
            }
            proof {
                assert(choice == m[k]);
                old_seen.lemma_len_filter(p0);
                old_seen.lemma_len_filter(p1);
                assert(!old_seen.filter(p0).contains(k));
                assert(!old_seen.filter(p1).contains(k));
                assert(seen.filter(p0) =~= if p0(k) { old_seen.filter(p0).insert(k) } else { old_seen.filter(p0) });
                assert(seen.filter(p1) =~= if p1(k) { old_seen.filter(p1).insert(k) } else { old_seen.filter(p1) });
                assert(p0(k) <==> choice == 0);
                assert(p1(k) <==> choice == 1);
                assert(old_seen.filter(p0).insert(k).len() == old_seen.filter(p0).len() + 1);
                assert(old_seen.filter(p1).insert(k).len() == old_seen.filter(p1).len() + 1);
                assert forall|x: i32| idx + 1 == sq.len() && m.dom().contains(x) implies seen.contains(x) by {
                    assert(u.to_set().contains(x));
                    let i = choose|i: int| 0 <= i < u.len() && u[i] == x;
                    assert(*sq[i] == x);
                    assert(i < idx ==> old_seen.contains(x));
                }
                assert(idx + 1 == sq.len() ==> seen =~= m.dom());
            }
        }
        proof {
            assert(seen == m.dom());
            m.dom().lemma_len_filter(p0);
            m.dom().lemma_len_filter(p1);
            assert(m.dom().filter(p0).disjoint(m.dom().filter(p1)));
            vstd::set_lib::lemma_set_disjoint_lens(m.dom().filter(p0), m.dom().filter(p1));
            vstd::set_lib::lemma_len_subset(m.dom().filter(p0) + m.dom().filter(p1), m.dom());
            assert(voters_for(m, 0) =~= m.dom().filter(p0));
            assert(voters_for(m, 1) =~= m.dom().filter(p1));
            assert(choice_count(m, 0) == yes as nat);
            assert(choice_count(m, 1) == no as nat);
        }
        YesNoResult { passed: yes > no, total_votes: yes + no, yes_votes: yes, no_votes: no }
    }
}

/// A vote that starts when its countdown timer fires.
#[derive(Debug)]
pub struct PendingVoteStart {
    pub timer_id: u32,
    pub slot: i32,
    pub requested_by: u64,
    pub candidates: Vec<i32>,
}

pub struct PendingVoteStartView {
    pub timer_id: u32,
    pub slot: i32,
    pub requested_by: u64,
    pub candidates: Seq<i32>,
}

impl View for PendingVoteStart {
    type V = PendingVoteStartView;

    open spec fn view(&self) -> PendingVoteStartView {
        PendingVoteStartView {
            timer_id: self.timer_id,
            slot: self.slot,
            requested_by: self.requested_by,
            candidates: self.candidates@,
        }
    }
}

impl Clone for PendingVoteStart {
    fn clone(&self) -> (r: Self)
        ensures
            r@ == self@,
    {
        PendingVoteStart {
            timer_id: self.timer_id,
            slot: self.slot,
            requested_by: self.requested_by,
            candidates: copy_ids(&self.candidates),
        }
    }
}

/// Result of toggling one map in an admin's vote selection.
#[derive(Clone, Copy, Debug, PartialEq, Eq, Structural)]
pub enum ToggleResult {
    Added,
    Removed,
    Full,
    Failed,
}

/// `s` without its first occurrence of `x` (unchanged when `x` does not occur).
pub open spec fn remove_first(s: Seq<i32>, x: i32) -> Seq<i32>
    decreases s.len(),
{
    if s.len() == 0 {
        s
    } else if s[0] == x {
        s.subrange(1, s.len() as int)
    } else {
        seq![s[0]] + remove_first(s.subrange(1, s.len() as int), x)
    }
}

pub proof fn lemma_remove_first(s: Seq<i32>, x: i32, i: int)
    requires
        0 <= i < s.len(),
        s[i] == x,
        forall|j: int| 0 <= j < i ==> s[j] != x,
    ensures
        remove_first(s, x) == s.remove(i),
    decreases i,
{
    if i > 0 {
        let t = s.subrange(1, s.len() as int);
        assert forall|j: int| 0 <= j < i - 1 implies t[j] != x by {
            assert(t[j] == s[j + 1]);
        }
        lemma_remove_first(t, x, i - 1);
        assert(remove_first(s, x) =~= s.remove(i));
    } else {
        assert(remove_first(s, x) =~= s.remove(i));
    }
}

/// The abstract runtime state of the admin plugin.
#[verifier::ext_equal]
pub struct AdminStateView {
    pub screens: Map<i32, Screen>,
    pub selections: Map<i32, Seq<i32>>,
    pub pending: Option<PendingRoundChange>,
    pub multi_vote: Option<ActiveMultiVoteView>,
    pub yes_no_vote: Option<ActiveYesNoVoteView>,
    pub vote_countdown: Option<PendingVoteStartView>,
}

/// The runtime state of the admin plugin: one menu screen and one vote
/// selection per player slot, at most one pending map change, and at most one
/// vote of each kind.
pub struct AdminState {
    screens: HashMap<i32, Screen>,
    selections: HashMap<i32, Vec<i32>>,
    pending: Option<PendingRoundChange>,
    multi_vote: Option<ActiveMultiVote>,
    yes_no_vote: Option<ActiveYesNoVote>,
    vote_countdown: Option<PendingVoteStart>,
}

pub open spec fn opt_view<T: View>(o: Option<T>) -> Option<T::V> {
    match o {
        Some(t) => Some(t@),
        None => None,
    }
}

impl View for AdminState {
    type V = AdminStateView;

    closed spec fn view(&self) -> AdminStateView {
        AdminStateView {
            screens: self.screens@,
            selections: selections_view(self.selections@),
            pending: self.pending,
            multi_vote: opt_view(self.multi_vote),
            yes_no_vote: opt_view(self.yes_no_vote),
            vote_countdown: opt_view(self.vote_countdown),
        }
    }
}

/// The selections with each list of map ids taken by its view.
pub open spec fn selections_view(m: Map<i32, Vec<i32>>) -> Map<i32, Seq<i32>> {
    Map::new(|k: i32| m.contains_key(k), |k: i32| m[k]@)
}

proof fn lemma_selections_insert(m: Map<i32, Vec<i32>>, k: i32, v: Vec<i32>)
    ensures
        selections_view(m.remove(k).insert(k, v)) == selections_view(m).insert(k, v@),
{
    assert(selections_view(m.remove(k).insert(k, v)) =~= selections_view(m).insert(k, v@));
}

proof fn lemma_selections_remove(m: Map<i32, Vec<i32>>, k: i32)
    ensures
        selections_view(m.remove(k)) == selections_view(m).remove(k),
{
    assert(selections_view(m.remove(k)) =~= selections_view(m).remove(k));
}

/// The maps that `slot` selected: empty when it has no selection.
pub open spec fn selection_of(s: AdminStateView, slot: i32) -> Seq<i32> {
    if s.selections.contains_key(slot) {
        s.selections[slot]
    } else {
        Seq::empty()
    }
}

impl AdminState {
    pub fn new() -> (r: Self)
        ensures
            r@ == (AdminStateView {
                screens: Map::empty(),
                selections: Map::empty(),
                pending: None,
                multi_vote: None,
                yes_no_vote: None,
                vote_countdown: None,
            }),
    {
        let r = AdminState {
            screens: HashMap::new(),
            selections: HashMap::new(),
            pending: None,
            multi_vote: None,
            yes_no_vote: None,
            vote_countdown: None,
        };
        assert(r@.selections =~= Map::empty());
        r
    }
}

pub fn set_screen(state: &mut AdminState, slot: i32, screen: Screen)
    ensures
        final(state)@ == (AdminStateView { screens: old(state)@.screens.insert(slot, screen), ..old(state)@ }),
{
    state.screens.insert(slot, screen);
}

pub fn screen(state: &AdminState, slot: i32) -> (r: Option<Screen>)
    ensures
        r == (if state@.screens.contains_key(slot) { Some(state@.screens[slot]) } else { None }),
{
    match state.screens.get(&slot) {
        Some(s) => Some(*s),
        None => None,
    }
}

pub fn clear_screen(state: &mut AdminState, slot: i32)
    ensures
        final(state)@ == (AdminStateView { screens: old(state)@.screens.remove(slot), ..old(state)@ }),
{
    state.screens.remove(&slot);
}

pub fn clear_screens(state: &mut AdminState)
    ensures
        final(state)@ == (AdminStateView { screens: Map::empty(), ..old(state)@ }),
{
    state.screens.clear();
}

pub fn selected_maps(state: &AdminState, slot: i32) -> (r: Vec<i32>)
    ensures
        r@ == selection_of(state@, slot),
{
    match state.selections.get(&slot) {
        Some(v) => copy_ids(v),
        None => Vec::new(),
    }
}

/// What toggling `map_id` in selection `sel` reports.
pub open spec fn toggle_outcome(sel: Seq<i32>, map_id: i32, max_selected: nat) -> ToggleResult {
    if sel.contains(map_id) {
        ToggleResult::Removed
    } else if sel.len() >= max_selected {
        ToggleResult::Full
    } else {
        ToggleResult::Added
    }
}

/// The selection after toggling `map_id` in `sel`.
pub open spec fn toggled_selection(sel: Seq<i32>, map_id: i32, max_selected: nat) -> Seq<i32> {
    if sel.contains(map_id) {
        remove_first(sel, map_id)
    } else if sel.len() >= max_selected {
        sel
    } else {
        sel.push(map_id)
    }
}

/// The first index at which `x` occurs in `v`.
pub fn first_position(v: &Vec<i32>, x: i32) -> (r: Option<usize>)
    ensures
        match r {
            Some(i) => i < v@.len() && v@[i as int] == x && forall|j: int| 0 <= j < i ==> v@[j] != x,
            None => !v@.contains(x),
        },
{
    let mut i: usize = 0;
    while i < v.len()
        invariant
            i <= v@.len(),
            forall|j: int| 0 <= j < i ==> v@[j] != x,
        decreases v.len() - i,
    {
        if v[i] == x {
            return Some(i);
        }
        i = i + 1;
    }
    None
}

/// Adds `map_id` to the selection of `slot`, or removes its first occurrence
/// when it is already selected; refuses to add beyond `max_selected` maps.
pub fn toggle_selected_map(state: &mut AdminState, slot: i32, map_id: i32, max_selected: usize) -> (r:
    ToggleResult)
    ensures
        ({
            let sel = selection_of(old(state)@, slot);
            &&& r == toggle_outcome(sel, map_id, max_selected as nat)
            &&& final(state)@ == (AdminStateView {
                selections: old(state)@.selections.insert(
                    slot,
                    toggled_selection(sel, map_id, max_selected as nat),
                ),
                ..old(state)@
            })
        }),
{
    let ghost sel = selection_of(state@, slot);
    let mut selected: Vec<i32> = match state.selections.remove(&slot) {
        Some(v) => v,
        None => Vec::new(),
    };
    assert(selected@ == sel);
    match first_position(&selected, map_id) {
        Some(i) => {
            proof {
                lemma_remove_first(sel, map_id, i as int);
            }
            selected.remove(i);
            let ghost sv = selected;
            state.selections.insert(slot, selected);
            proof {
                lemma_selections_insert(old(state).selections@, slot, sv);
            }
            return ToggleResult::Removed;
        },
        None => {},
    }
    if selected.len() >= max_selected {
        let ghost sv = selected;
        state.selections.insert(slot, selected);
        proof {
            lemma_selections_insert(old(state).selections@, slot, sv);
        }
        return ToggleResult::Full;
    }
    selected.push(map_id);
    let ghost sv = selected;
    state.selections.insert(slot, selected);
    proof {
        lemma_selections_insert(old(state).selections@, slot, sv);
    }
    ToggleResult::Added
}

/// Keeps in the selection of `slot` only the maps listed in `allowed`.
pub fn retain_selected_maps(state: &mut AdminState, slot: i32, allowed: &[i32])
    ensures
        final(state)@ == (if old(state)@.selections.contains_key(slot) {
            AdminStateView {
                selections: old(state)@.selections.insert(
                    slot,
                    old(state)@.selections[slot].filter(|m: i32| allowed@.contains(m)),
                ),
                ..old(state)@
            }
        } else {
            old(state)@
        }),
{
    match state.selections.remove(&slot) {
        Some(selected) => {
            let ghost sel = selected@;
            let mut kept: Vec<i32> = Vec::new();
            let mut i: usize = 0;
            while i < selected.len()
                invariant
                    sel == selected@,
                    i <= sel.len(),
                    kept@ == sel.subrange(0, i as int).filter(|m: i32| allowed@.contains(m)),
                decreases selected.len() - i,
            {
                let m = selected[i];
                let mut found = false;
                let mut j: usize = 0;
                while j < allowed.len()
                    invariant
                        j <= allowed@.len(),
                        found <==> allowed@.subrange(0, j as int).contains(m),
                    decreases allowed.len() - j,
                {
                    if allowed[j] == m {
                        found = true;
                    }
                    proof {
                        let a = allowed@.subrange(0, j as int);
                        let b = allowed@.subrange(0, j + 1);
                        assert(b =~= a.push(allowed@[j as int]));
                        if a.contains(m) {
                            let k = choose|k: int| 0 <= k < a.len() && a[k] == m;
                            assert(b[k] == m);
                        }
                        if b.contains(m) && allowed@[j as int] != m {
                            let k = choose|k: int| 0 <= k < b.len() && b[k] == m;
                            assert(a[k] == m);
                        }
                        if allowed@[j as int] == m {
                            assert(b[j as int] == m);
                        }
                    }
                    j = j + 1;
                }
                assert(allowed@.subrange(0, allowed@.len() as int) =~= allowed@);
                if found {
                    kept.push(m);
                }
                proof {
                    let f = |m: i32| allowed@.contains(m);
                    assert(sel.subrange(0, i + 1) =~= sel.subrange(0, i as int).push(m));
                    sel.subrange(0, i as int).lemma_filter_push(m, f);
                }
                i = i + 1;
            }
            assert(sel.subrange(0, sel.len() as int) =~= sel);
            let ghost kv = kept;
            state.selections.insert(slot, kept);
            proof {
                lemma_selections_insert(old(state).selections@, slot, kv);
            }
        },
        None => {},
    }
}

pub fn clear_selection(state: &mut AdminState, slot: i32)
    ensures
        final(state)@ == (AdminStateView { selections: old(state)@.selections.remove(slot), ..old(state)@ }),
{
    state.selections.remove(&slot);
    proof {
        lemma_selections_remove(old(state).selections@, slot);
    }
}

pub fn clear_selections(state: &mut AdminState)
    ensures
        final(state)@ == (AdminStateView { selections: Map::empty(), ..old(state)@ }),
{
    state.selections.clear();
    assert(state@.selections =~= Map::empty());
}

pub fn set_pending(state: &mut AdminState, value: PendingRoundChange)
    ensures
        final(state)@ == (AdminStateView { pending: Some(value), ..old(state)@ }),
{
    state.pending = Some(value);
}

pub fn pending_snapshot(state: &AdminState) -> (r: Option<PendingRoundChange>)
    ensures
        r == state@.pending,
{
    match &state.pending {
        Some(p) => Some(p.clone()),
        None => None,
    }
}

/// Whether a pending map change exists that was not requested yet.
pub open spec fn claimable(s: AdminStateView) -> bool {
    s.pending matches Some(p) && !p.requested
}

/// The pending map change, marked as requested.
pub open spec fn claimed_change(s: AdminStateView) -> PendingRoundChange {
    PendingRoundChange { requested: true, ..s.pending->Some_0 }
}

/// Marks the pending map change as requested and returns its snapshot;
/// `None` when there is no pending change or it was already requested.
pub fn claim_pending_request(state: &mut AdminState) -> (r: Option<PendingRoundChange>)
    ensures
        r == (if claimable(old(state)@) { Some(claimed_change(old(state)@)) } else { None }),
        final(state)@ == (if claimable(old(state)@) {
            AdminStateView { pending: Some(claimed_change(old(state)@)), ..old(state)@ }
        } else {
            old(state)@
        }),
{
    match &mut state.pending {
        Some(p) => {
            if p.requested {
                return None;
            }
            p.requested = true;
            Some(p.clone())
        },
        None => None,
    }
}

pub fn clear_pending(state: &mut AdminState)
    ensures
        final(state)@ == (AdminStateView { pending: None, ..old(state)@ }),
{
    state.pending = None;
}

/// Starts tracking a multi-map vote, replacing any tracked one; its vote id is
/// not known yet (0).
pub fn begin_multi_vote(
    state: &mut AdminState,
    requested_by: u64,
    displaced_next_map_id: i32,
    candidates: Vec<i32>,
)
    ensures
        final(state)@ == (AdminStateView {
            multi_vote: Some(
                ActiveMultiVoteView {
                    requested_by,
                    vote_id: 0,
                    displaced_next_map_id,
                    candidates: candidates@,
                    runoff_started: false,
                },
            ),
            ..old(state)@
        }),
{
    state.multi_vote = Some(
        ActiveMultiVote {
            requested_by,
            vote_id: 0,
            displaced_next_map_id,
            candidates,
            runoff_started: false,
        },
    );
}

/// Records the vote id of the tracked multi-map vote; false when none is tracked.
pub fn set_multi_vote_id(state: &mut AdminState, vote_id: u64) -> (r: bool)
    ensures
        r == old(state)@.multi_vote is Some,
        final(state)@ == (match old(state)@.multi_vote {
            Some(v) => AdminStateView {
                multi_vote: Some(ActiveMultiVoteView { vote_id, ..v }),
                ..old(state)@
            },
            None => old(state)@,
        }),
{
    match &mut state.multi_vote {
        Some(active) => {
            active.vote_id = vote_id;
            true
        },
        None => false,
    }
}

/// Marks that the runoff of the tracked multi-map vote started; only for
/// that vote's own nonzero id.
pub fn mark_multi_vote_runoff(state: &mut AdminState, vote_id: u64) -> (r: bool)
    ensures
        r == (old(state)@.multi_vote matches Some(v) && v.vote_id == vote_id && vote_id != 0),
        final(state)@ == (match old(state)@.multi_vote {
            Some(v) if v.vote_id == vote_id && vote_id != 0 => AdminStateView {
                multi_vote: Some(ActiveMultiVoteView { runoff_started: true, ..v }),
                ..old(state)@
            },
            _ => old(state)@,
        }),
{
    match &mut state.multi_vote {
        Some(active) => {
            if active.vote_id != vote_id || vote_id == 0 {
                return false;
            }
            active.runoff_started = true;
            true
        },
        None => false,
    }
}

/// Whether `vote_id` is the nonzero id of the tracked multi-map vote.
pub fn is_our_multi_vote(state: &AdminState, vote_id: u64) -> (r: bool)
    ensures
        r == (state@.multi_vote matches Some(v) && v.vote_id == vote_id && vote_id > 0),
{
    match &state.multi_vote {
        Some(active) => active.vote_id == vote_id && vote_id > 0,
        None => false,
    }
}

pub fn multi_vote_snapshot(state: &AdminState) -> (r: Option<ActiveMultiVote>)
    ensures
        opt_view(r) == state@.multi_vote,
{
    match &state.multi_vote {
        Some(v) => Some(v.clone()),
        None => None,
    }
}

pub fn clear_multi_vote(state: &mut AdminState)
    ensures
        final(state)@ == (AdminStateView { multi_vote: None, ..old(state)@ }),
{
    state.multi_vote = None;
}

/// Starts tracking a yes/no vote; refused (false) while one is tracked.
pub fn begin_yes_no_vote(state: &mut AdminState, value: ActiveYesNoVote) -> (r: bool)
    ensures
        r == old(state)@.yes_no_vote is None,
        final(state)@ == (if r {
            AdminStateView { yes_no_vote: Some(value@), ..old(state)@ }
        } else {
            old(state)@
        }),
{
    if state.yes_no_vote.is_some() {
        return false;
    }
    state.yes_no_vote = Some(value);
    true
}

/// Stores the result of the tracked yes/no vote; false when none is tracked.
pub fn set_yes_no_result(state: &mut AdminState, result: YesNoResult) -> (r: bool)
    ensures
        r == old(state)@.yes_no_vote is Some,
        final(state)@ == (match old(state)@.yes_no_vote {
            Some(v) => AdminStateView {
                yes_no_vote: Some(ActiveYesNoVoteView { result: Some(result), ..v }),
                ..old(state)@
            },
            None => old(state)@,
        }),
{
    match &mut state.yes_no_vote {
        Some(active) => {
            active.result = Some(result);
            true
        },
        None => false,
    }
}

/// Records the choice of `slot` (0 yes, 1 no) in the tracked yes/no vote,
/// replacing an earlier choice of that slot. Refused for a negative slot, any
/// other choice, or when no vote is tracked.
pub fn record_yes_no_choice(state: &mut AdminState, slot: i32, choice: i32) -> (r: bool)
    ensures
        r == (slot >= 0 && (choice == 0 || choice == 1) && old(state)@.yes_no_vote is Some),
        final(state)@ == (if r {
            let v = old(state)@.yes_no_vote->Some_0;
            AdminStateView {
                yes_no_vote: Some(ActiveYesNoVoteView { choices: v.choices.insert(slot, choice), ..v }),
                ..old(state)@
            }
        } else {
            old(state)@
        }),
{
    if slot < 0 || !(choice == 0 || choice == 1) {
        return false;
    }
    match &mut state.yes_no_vote {
        Some(active) => {
            active.choices.insert(slot, choice);
            true
        },
        None => false,
    }
}

pub fn yes_no_snapshot(state: &AdminState) -> (r: Option<ActiveYesNoVote>)
    ensures
        opt_view(r) == state@.yes_no_vote,
{
    match &state.yes_no_vote {
        Some(v) => Some(v.clone()),
        None => None,
    }
}

/// Stops tracking the yes/no vote and hands it over.
pub fn take_yes_no_vote(state: &mut AdminState) -> (r: Option<ActiveYesNoVote>)
    ensures
        opt_view(r) == old(state)@.yes_no_vote,
        final(state)@ == (AdminStateView { yes_no_vote: None, ..old(state)@ }),
{
    state.yes_no_vote.take()
}

pub fn clear_yes_no_vote(state: &mut AdminState)
    ensures
        final(state)@ == (AdminStateView { yes_no_vote: None, ..old(state)@ }),
{
    state.yes_no_vote = None;
}

/// Starts tracking a vote countdown; refused (false) while one is tracked.
pub fn begin_vote_countdown(state: &mut AdminState, value: PendingVoteStart) -> (r: bool)
    ensures
        r == old(state)@.vote_countdown is None,
        final(state)@ == (if r {
            AdminStateView { vote_countdown: Some(value@), ..old(state)@ }
        } else {
            old(state)@
        }),
{
    if state.vote_countdown.is_some() {
        return false;
    }
    state.vote_countdown = Some(value);
    true
}

/// Hands over the tracked countdown when its timer is `timer_id`.
pub fn take_vote_countdown(state: &mut AdminState, timer_id: u32) -> (r: Option<PendingVoteStart>)
    ensures
        match old(state)@.vote_countdown {
            Some(c) if c.timer_id == timer_id => {
                &&& opt_view(r) == Some(c)
                &&& final(state)@ == (AdminStateView { vote_countdown: None, ..old(state)@ })
            },
            _ => r is None && final(state)@ == old(state)@,
        },
{
    let matches = match &state.vote_countdown {
        Some(pending) => pending.timer_id == timer_id,
        None => false,
    };
    if matches {
        state.vote_countdown.take()
    } else {
        None
    }
}

/// Stops tracking the countdown and returns its timer id.
pub fn clear_vote_countdown(state: &mut AdminState) -> (r: Option<u32>)
    ensures
        r == (match old(state)@.vote_countdown {
            Some(c) => Some(c.timer_id),
            None => None,
        }),
        final(state)@ == (AdminStateView { vote_countdown: None, ..old(state)@ }),
{
    match state.vote_countdown.take() {
        Some(pending) => Some(pending.timer_id),
        None => None,
    }
}

/// Whether an admin vote is counting down or running.
pub open spec fn vote_active(s: AdminStateView) -> bool {
    s.vote_countdown is Some || s.multi_vote is Some || s.yes_no_vote is Some
}

pub fn admin_vote_active(state: &AdminState) -> (r: bool)
    ensures
        r == vote_active(state@),
{
    if state.vote_countdown.is_some() {
        return true;
    }
    if state.multi_vote.is_some() {
        return true;
    }
    state.yes_no_vote.is_some()
}

pub fn admin_pending_map_change(state: &AdminState) -> (r: bool)
    ensures
        r == state@.pending is Some,
{
    state.pending.is_some()
}

/// Forgets all screens, selections, the pending change and all votes.
pub fn clear_runtime(state: &mut AdminState)
    ensures
        final(state)@ == (AdminStateView {
            screens: Map::empty(),
            selections: Map::empty(),
            pending: None,
            multi_vote: None,
            yes_no_vote: None,
            vote_countdown: None,
        }),
{
    clear_screens(state);
    clear_selections(state);
    clear_pending(state);
    clear_multi_vote(state);
    clear_yes_no_vote(state);
    let _ = clear_vote_countdown(state);
}

/// Toggling a map that is not selected, while there is room, adds it; toggling
/// it again removes it and gives back the selection it started from.
pub proof fn law_toggle_twice_restores(sel: Seq<i32>, map_id: i32, max_selected: nat)
    requires
        !sel.contains(map_id),
        sel.len() < max_selected,
    ensures
        toggle_outcome(sel, map_id, max_selected) == ToggleResult::Added,
        toggle_outcome(toggled_selection(sel, map_id, max_selected), map_id, max_selected)
            == ToggleResult::Removed,
        toggled_selection(toggled_selection(sel, map_id, max_selected), map_id, max_selected)
            == sel,
{
    let t = sel.push(map_id);
    assert(t[sel.len() as int] == map_id);
    assert forall|j: int| 0 <= j < sel.len() implies t[j] != map_id by {
        assert(t[j] == sel[j]);
    }
    lemma_remove_first(t, map_id, sel.len() as int);
    assert(t.remove(sel.len() as int) =~= sel);
}

/// A selection without repeated maps that holds at most `max_selected` maps.
pub open spec fn selection_ok(sel: Seq<i32>, max_selected: nat) -> bool {
    sel.no_duplicates() && sel.len() <= max_selected
}

/// Toggling keeps a selection free of repeats and within the limit.
pub proof fn law_toggle_keeps_selection_ok(sel: Seq<i32>, map_id: i32, max_selected: nat)
    requires
        selection_ok(sel, max_selected),
    ensures
        selection_ok(toggled_selection(sel, map_id, max_selected), max_selected),
{
    if sel.contains(map_id) {
        let i = choose|i: int| 0 <= i < sel.len() && sel[i] == map_id;
        assert forall|j: int| 0 <= j < i implies sel[j] != map_id by {}
        lemma_remove_first(sel, map_id, i);
        let r = sel.remove(i);
        assert forall|a: int, b: int| 0 <= a < r.len() && 0 <= b < r.len() && a != b implies r[a]
            != r[b] by {
            let a2 = if a < i { a } else { a + 1 };
            let b2 = if b < i { b } else { b + 1 };
            assert(r[a] == sel[a2]);
            assert(r[b] == sel[b2]);
        }
    } else if sel.len() < max_selected {
        let r = sel.push(map_id);
        assert forall|a: int, b: int| 0 <= a < r.len() && 0 <= b < r.len() && a != b implies r[a]
            != r[b] by {
            if a < sel.len() && b < sel.len() {
                assert(r[a] == sel[a] && r[b] == sel[b]);
            } else if a < sel.len() {
                assert(r[a] == sel[a]);
            } else if b < sel.len() {
                assert(r[b] == sel[b]);
            }
        }
    }
}

proof fn lemma_filter_no_duplicates(s: Seq<i32>, f: spec_fn(i32) -> bool)
    requires
        s.no_duplicates(),
    ensures
        s.filter(f).no_duplicates(),
        s.filter(f).len() <= s.len(),
    decreases s.len(),
{
    reveal_with_fuel(Seq::filter, 1);
    s.lemma_filter_len(f);
    if s.len() > 0 {
        let t = s.drop_last();
        assert forall|a: int, b: int| 0 <= a < t.len() && 0 <= b < t.len() && a != b implies t[a]
            != t[b] by {
            assert(t[a] == s[a] && t[b] == s[b]);
        }
        lemma_filter_no_duplicates(t, f);
        assert(s =~= t.push(s.last()));
        t.lemma_filter_push(s.last(), f);
        if f(s.last()) {
            let ft = t.filter(f);
            let r = ft.push(s.last());
            assert(!ft.contains(s.last())) by {
                if ft.contains(s.last()) {
                    let k = choose|k: int| 0 <= k < ft.len() && ft[k] == s.last();
                    t.lemma_filter_contains_rev(f, s.last());
                    let m = choose|m: int| 0 <= m < t.len() && t[m] == s.last();
                    assert(s[m] == s[s.len() - 1]);
                }
            }
            assert forall|a: int, b: int| 0 <= a < r.len() && 0 <= b < r.len() && a != b implies r[a]
                != r[b] by {
                if a < ft.len() && b < ft.len() {
                    assert(r[a] == ft[a] && r[b] == ft[b]);
                } else if a < ft.len() {
                    assert(r[a] == ft[a]);
                } else if b < ft.len() {
                    assert(r[b] == ft[b]);
                }
            }
        }
    }
}

/// Retaining only allowed maps keeps a selection free of repeats and within the limit.
pub proof fn law_retain_keeps_selection_ok(sel: Seq<i32>, allowed: Seq<i32>, max_selected: nat)
    requires
        selection_ok(sel, max_selected),
    ensures
        selection_ok(sel.filter(|m: i32| allowed.contains(m)), max_selected),
{
    lemma_filter_no_duplicates(sel, |m: i32| allowed.contains(m));
}

/// One change to an admin's selection: toggling a map, or keeping only the
/// maps still listed.
pub enum SelectionChange {
    Toggle(i32),
    Retain(Seq<i32>),
}

/// The selection after the changes, in order, with `max_selected` as the limit.
pub open spec fn after_changes(sel: Seq<i32>, changes: Seq<SelectionChange>, max_selected: nat) -> Seq<i32>
    decreases changes.len(),
{
    if changes.len() == 0 {
        sel
    } else {
        let before = after_changes(sel, changes.drop_last(), max_selected);
        match changes.last() {
            SelectionChange::Toggle(map_id) => toggled_selection(before, map_id, max_selected),
            SelectionChange::Retain(allowed) => before.filter(|m: i32| allowed.contains(m)),
        }
    }
}

/// However many toggles and retains follow a cleared selection (which is
/// empty), with one limit throughout, the selection never repeats a map and
/// never holds more maps than the limit.
pub proof fn law_selection_stays_ok(changes: Seq<SelectionChange>, max_selected: nat)
    ensures
        selection_ok(after_changes(Seq::empty(), changes, max_selected), max_selected),
    decreases changes.len(),
{
    if changes.len() > 0 {
        law_selection_stays_ok(changes.drop_last(), max_selected);
        let before = after_changes(Seq::empty(), changes.drop_last(), max_selected);
        match changes.last() {
            SelectionChange::Toggle(map_id) => {
                law_toggle_keeps_selection_ok(before, map_id, max_selected);
            },
            SelectionChange::Retain(allowed) => {
                law_retain_keeps_selection_ok(before, allowed, max_selected);
            },
        }
    }
}

/// A pending map change is claimed at most once: once claimed, it cannot be claimed again.
pub proof fn law_claim_at_most_once(s: AdminStateView)
    requires
        claimable(s),
    ensures
        !claimable(AdminStateView { pending: Some(claimed_change(s)), ..s }),
{
}

/// When every recorded choice is yes (0) or no (1), the tally counts each voter
/// exactly once, and the vote passes exactly when yes outnumbers no.
pub proof fn law_tally_counts_each_voter(choices: Map<i32, i32>)
    requires
        choices.dom().finite(),
        choices.len() <= i32::MAX,
        forall|k: i32| #[trigger] choices.contains_key(k) ==> choices[k] == 0 || choices[k] == 1,
    ensures
        tally(choices).total_votes == choices.len(),
        tally(choices).yes_votes + tally(choices).no_votes == choices.len(),
        tally(choices).passed <==> tally(choices).yes_votes > tally(choices).no_votes,
{
    let y = voters_for(choices, 0);
    let n = voters_for(choices, 1);
    assert(y =~= choices.dom().filter(|k: i32| choices[k] == 0));
    assert(n =~= choices.dom().filter(|k: i32| choices[k] == 1));
    choices.dom().lemma_len_filter(|k: i32| choices[k] == 0);
    choices.dom().lemma_len_filter(|k: i32| choices[k] == 1);
    assert(y.disjoint(n));
    vstd::set_lib::lemma_set_disjoint_lens(y, n);
    assert(y + n =~= choices.dom());
}

/// Recording a choice for a slot counts that slot for its latest choice only.
pub proof fn law_latest_choice_counts(choices: Map<i32, i32>, slot: i32, choice: i32, other: i32)
    requires
        other != choice,
    ensures
        voters_for(choices.insert(slot, choice), choice) == voters_for(choices, choice).insert(slot),
        voters_for(choices.insert(slot, choice), other) == voters_for(choices, other).remove(slot),
{
    assert(voters_for(choices.insert(slot, choice), choice) =~= voters_for(choices, choice).insert(
        slot,
    ));
    assert(voters_for(choices.insert(slot, choice), other) =~= voters_for(choices, other).remove(
        slot,
    ));
}

/// After the runtime is cleared no admin vote is active and no map change is pending.
pub proof fn law_cleared_runtime_is_idle(s: AdminStateView)
    requires
        s == (AdminStateView {
            screens: Map::empty(),
            selections: Map::empty(),
            pending: None,
            multi_vote: None,
            yes_no_vote: None,
            vote_countdown: None,
        }),
    ensures
        !vote_active(s),
        s.pending is None,
        forall|slot: i32| selection_of(s, slot).len() == 0,
{
}

} // verus!
