//! The map-chooser admin menu: which screen an action leads to, and the
//! documents (HTML panel, content lines and numbered options) each screen shows.
use crate::state::{
    lemma_remove_first, remove_first, clear_screen, set_screen, clear_selection, retain_selected_maps, selected_maps, selection_of, toggle_outcome,
    toggle_selected_map, toggled_selection, AdminState, AdminStateView, Screen, ToggleResult,
};
use crate::text::{
    chars_le, chars_of, decimal, lemma_lex_total, lemma_lex_trans, lex_le, push_decimal, string_of,
    trim, trim_str,
};
use vstd::prelude::*;

verus! {

pub const ACTION_BACK: i32 = 0;

pub const ACTION_PREV: i32 = 7;

pub const ACTION_NEXT: i32 = 8;

pub const ACTION_EXIT: i32 = 9;

/// The HTML text of one character.
pub open spec fn escape_char(c: char) -> Seq<char> {
    if c == '&' {
        "&amp;"@
    } else if c == '<' {
        "&lt;"@
    } else if c == '>' {
        "&gt;"@
    } else if c == '"' {
        "&quot;"@
    } else if c == '\'' {
        "&#39;"@
    } else {
        seq![c]
    }
}

/// `s` with `&`, `<`, `>`, `"` and `'` written as HTML entities.
pub open spec fn escape(s: Seq<char>) -> Seq<char>
    decreases s.len(),
{
    if s.len() == 0 {
        Seq::empty()
    } else {
        escape(s.drop_last()) + escape_char(s.last())
    }
}

/// Appends the HTML-escaped form of `cs` to `out`.
pub fn push_escaped(out: &mut String, cs: &[char])
    ensures
        final(out)@ == old(out)@ + escape(cs@),
{
    let ghost start = out@;
    let mut i: usize = 0;
    while i < cs.len()
        invariant
            i <= cs@.len(),
            out@ == start + escape(cs@.subrange(0, i as int)),
        decreases cs.len() - i,
    {
        let c = cs[i];
        if c == '&' {
            out.append("&amp;");
        } else if c == '<' {
            out.append("&lt;");
        } else if c == '>' {
            out.append("&gt;");
        } else if c == '"' {
            out.append("&quot;");
        } else if c == '\'' {
            out.append("&#39;");
        } else {
            let one = [c];
            crate::text::append_chars(out, &one);
            assert(one@ =~= seq![c]);
        }
        proof {
            assert(cs@.subrange(0, i + 1).drop_last() =~= cs@.subrange(0, i as int));
            assert(out@ =~= start + escape(cs@.subrange(0, i + 1)));
        }
        i = i + 1;
    }
    assert(cs@.subrange(0, cs@.len() as int) =~= cs@);
}

/// Whether `c` can open or close markup or an attribute value.
pub open spec fn is_markup(c: char) -> bool {
    c == '<' || c == '>' || c == '"' || c == '\''
}

/// The escaped text of a character holds no markup character.
proof fn lemma_escape_char_plain(c: char)
    ensures
        forall|i: int| 0 <= i < escape_char(c).len() ==> !is_markup(#[trigger] escape_char(c)[i]),
{
    reveal_strlit("&amp;");
    reveal_strlit("&lt;");
    reveal_strlit("&gt;");
    reveal_strlit("&quot;");
    reveal_strlit("&#39;");
}

/// Escaped text holds no markup character, whatever it was made from, and text without
/// `&` or markup characters is left as it was.
pub proof fn law_escape_is_inert(s: Seq<char>)
    ensures
        forall|i: int| 0 <= i < escape(s).len() ==> !is_markup(#[trigger] escape(s)[i]),
        (forall|i: int| 0 <= i < s.len() ==> !is_markup(#[trigger] s[i]) && s[i] != '&') ==> escape(s)
            == s,
    decreases s.len(),
{
    if s.len() > 0 {
        law_escape_is_inert(s.drop_last());
        lemma_escape_char_plain(s.last());
        let a = escape(s.drop_last());
        let b = escape_char(s.last());
        assert forall|i: int| 0 <= i < escape(s).len() implies !is_markup(#[trigger] escape(s)[i]) by {
            if i < a.len() {
                assert(escape(s)[i] == a[i]);
            } else {
                assert(escape(s)[i] == b[i - a.len()]);
            }
        }
        if forall|i: int| 0 <= i < s.len() ==> !is_markup(#[trigger] s[i]) && s[i] != '&' {
            assert(forall|i: int|
                0 <= i < s.drop_last().len() ==> !is_markup(#[trigger] s.drop_last()[i])
                    && s.drop_last()[i] != '&') by {
                assert forall|i: int| 0 <= i < s.drop_last().len() implies !is_markup(
                    #[trigger] s.drop_last()[i],
                ) && s.drop_last()[i] != '&' by {
                    assert(s.drop_last()[i] == s[i]);
                }
            }
            assert(!is_markup(s[s.len() - 1]) && s[s.len() - 1] != '&');
            assert(s.drop_last().push(s.last()) =~= s);
        }
    }
}

/// `value` with `&`, `<`, `>`, `"` and `'` written as HTML entities.
pub fn escape_html(value: &str) -> (r: String)
    ensures
        r@ == escape(value@),
{
    let mut r = String::new();
    let cs = chars_of(value);
    push_escaped(&mut r, cs.as_slice());
    assert(r@ =~= escape(value@));
    r
}

/// Number of pages for `n` items: at least one.
pub open spec fn page_count(n: nat, items_per_page: nat) -> nat {
    let c = if n % items_per_page == 0 {
        n / items_per_page
    } else {
        n / items_per_page + 1
    };
    if c == 0 {
        1
    } else {
        c
    }
}

/// The requested page, limited to the last page.
pub open spec fn clamp_page(page: nat, n: nat, items_per_page: nat) -> nat {
    if page < page_count(n, items_per_page) {
        page
    } else {
        (page_count(n, items_per_page) - 1) as nat
    }
}

/// The page count and the clamped page for `n` items.
pub fn pages(n: usize, items_per_page: usize, page: usize) -> (r: (usize, usize))
    requires
        items_per_page > 0,
    ensures
        r.0 == page_count(n as nat, items_per_page as nat),
        r.1 == clamp_page(page as nat, n as nat, items_per_page as nat),
        r.1 < r.0,
        r.1 * items_per_page <= n,
{
    let q = n / items_per_page;
    proof {
        let ipp = items_per_page as int;
        let nn = n as int;
        let qq = q as int;
        assert((nn % ipp) != 0 ==> qq < nn) by (nonlinear_arith)
            requires
                ipp > 0,
                nn >= 0,
                qq == nn / ipp,
        ;
    }
    let c = if n % items_per_page == 0 {
        q
    } else {
        q + 1
    };
    let count = if c == 0 {
        1
    } else {
        c
    };
    let p = if page < count {
        page
    } else {
        count - 1
    };
    proof {
        let ipp = items_per_page as int;
        let nn = n as int;
        let qq = q as int;
        let rr = (n % items_per_page) as int;
        assert(nn == qq * ipp + rr) by (nonlinear_arith)
            requires
                ipp > 0,
                qq == nn / ipp,
                rr == nn % ipp,
        ;
        assert(0 <= rr < ipp) by (nonlinear_arith)
            requires
                ipp > 0,
                rr == nn % ipp,
        ;
        let pp = p as int;
        assert(pp <= qq);
        assert(pp * ipp <= nn) by (nonlinear_arith)
            requires
                ipp > 0,
                pp <= qq,
                nn == qq * ipp + rr,
                rr >= 0,
        ;
    }
    (count, p)
}

/// Where an action leads.
#[derive(Clone, Copy, Debug, PartialEq, Eq, Structural)]
pub enum MenuCommand {
    ShowHome,
    ShowManualMaps { page: usize },
    ShowManualAction { map_id: i32, page: usize },
    ShowVoteHome,
    ShowVoteMaps { page: usize },
    /// Close the menu.
    Close,
    /// Close the menu and reopen the admin menu it came from.
    BackToAdminMenu,
    /// Change to the map now.
    ChangeNow { map_id: i32 },
    /// Change to the map when the round ends.
    ChangeAfterRound { map_id: i32 },
    /// Start a vote on the selected maps.
    StartSelectedVote,
}

/// Home screen: 1 sets a map by hand, 2 opens the admin vote, 0 goes back.
pub fn select_home(action: i32) -> (r: MenuCommand)
    ensures
        r == (if action == 1 {
            MenuCommand::ShowManualMaps { page: 0 }
        } else if action == 2 {
            MenuCommand::ShowVoteHome
        } else if action == ACTION_BACK {
            MenuCommand::BackToAdminMenu
        } else {
            MenuCommand::ShowHome
        }),
{
    if action == 1 {
        MenuCommand::ShowManualMaps { page: 0 }
    } else if action == 2 {
        MenuCommand::ShowVoteHome
    } else if action == ACTION_BACK {
        MenuCommand::BackToAdminMenu
    } else {
        MenuCommand::ShowHome
    }
}

/// The index in the map list that a digit picks on a page, when it picks one.
pub open spec fn picked_index(action: i32, page: nat, n: nat, items_per_page: nat) -> Option<nat> {
    let index = page * items_per_page + (action - 1);
    if 1 <= action <= (items_per_page as i32) && index < n {
        Some(index as nat)
    } else {
        None
    }
}

/// What a map-list action does: 0 goes back, 7 and 8 turn the page when
/// there is one, a digit from 1 to the page size picks a map on the page.
pub enum ListAction {
    Back,
    Page(nat),
    Pick(nat),
    Stay(nat),
}

pub open spec fn list_action(action: i32, page: nat, n: nat, items_per_page: nat) -> ListAction {
    let count = page_count(n, items_per_page);
    let p = clamp_page(page, n, items_per_page);
    if action == ACTION_BACK {
        ListAction::Back
    } else if action == ACTION_PREV && p > 0 {
        ListAction::Page((p - 1) as nat)
    } else if action == ACTION_NEXT && p + 1 < count {
        ListAction::Page(p + 1)
    } else if 1 <= action <= (items_per_page as i32) {
        match picked_index(action, p, n, items_per_page) {
            Some(i) => ListAction::Pick(i),
            None => ListAction::Stay(p),
        }
    } else {
        ListAction::Stay(p)
    }
}

/// Decides a map-list action; `Pick` gives the index in the list.
fn decide_list_action(action: i32, page: usize, n: usize, items_per_page: usize) -> (r: (u8, usize))
    requires
        items_per_page > 0,
    ensures
        match list_action(action, page as nat, n as nat, items_per_page as nat) {
            ListAction::Back => r.0 == 0,
            ListAction::Page(p) => r.0 == 1 && r.1 == p,
            ListAction::Pick(i) => r.0 == 2 && r.1 == i && i < n,
            ListAction::Stay(p) => r.0 == 3 && r.1 == p,
        },
{
    let (count, p) = pages(n, items_per_page, page);
    if action == ACTION_BACK {
        return (0, 0);
    }
    if action == ACTION_PREV && p > 0 {
        return (1, p - 1);
    }
    if action == ACTION_NEXT && p + 1 < count {
        return (1, p + 1);
    }
    if 1 <= action && action <= items_per_page as i32 {
        let start = p * items_per_page;
        let offset = (action - 1) as usize;
        if offset < n - start {
            return (2, start + offset);
        }
        return (3, p);
    }
    (3, p)
}

/// What an action on the list for setting a map by hand leads to.
pub open spec fn manual_maps_command(maps: Seq<(i32, String)>, items_per_page: usize, action: i32, page: usize) -> MenuCommand {
    match list_action(action, page as nat, maps.len(), items_per_page as nat) {
        ListAction::Back => MenuCommand::ShowHome,
        ListAction::Page(p) => MenuCommand::ShowManualMaps { page: p as usize },
        ListAction::Pick(i) => MenuCommand::ShowManualAction {
            map_id: maps[i as int].0,
            page: clamp_page(page as nat, maps.len(), items_per_page as nat) as usize,
        },
        ListAction::Stay(p) => MenuCommand::ShowManualMaps { page: p as usize },
    }
}

/// Map list for setting a map by hand.
pub fn select_manual_maps(maps: &Vec<(i32, String)>, items_per_page: usize, action: i32, page: usize) -> (r:
    MenuCommand)
    requires
        items_per_page > 0,
    ensures
        r == manual_maps_command(maps@, items_per_page, action, page),
{
    let (kind, value) = decide_list_action(action, page, maps.len(), items_per_page);
    let (_, p) = pages(maps.len(), items_per_page, page);
    if kind == 0 {
        MenuCommand::ShowHome
    } else if kind == 1 {
        MenuCommand::ShowManualMaps { page: value }
    } else if kind == 2 {
        MenuCommand::ShowManualAction { map_id: maps[value].0, page: p }
    } else {
        MenuCommand::ShowManualMaps { page: value }
    }
}

/// Choosing when to change to a map: 1 now, 2 after the round, 0 back to the list.
pub fn select_manual_action(action: i32, map_id: i32, page: usize) -> (r: MenuCommand)
    ensures
        r == (if action == ACTION_BACK {
            MenuCommand::ShowManualMaps { page }
        } else if action == 1 {
            MenuCommand::ChangeNow { map_id }
        } else if action == 2 {
            MenuCommand::ChangeAfterRound { map_id }
        } else {
            MenuCommand::ShowManualAction { map_id, page }
        }),
{
    if action == ACTION_BACK {
        MenuCommand::ShowManualMaps { page }
    } else if action == 1 {
        MenuCommand::ChangeNow { map_id }
    } else if action == 2 {
        MenuCommand::ChangeAfterRound { map_id }
    } else {
        MenuCommand::ShowManualAction { map_id, page }
    }
}

/// Admin vote screen: 1 selects maps, 2 starts the vote, 3 clears the selection.
pub fn select_vote_home(state: &mut AdminState, slot: i32, action: i32) -> (r: MenuCommand)
    ensures
        r == (if action == ACTION_BACK {
            MenuCommand::ShowHome
        } else if action == 1 {
            MenuCommand::ShowVoteMaps { page: 0 }
        } else if action == 2 {
            MenuCommand::StartSelectedVote
        } else {
            MenuCommand::ShowVoteHome
        }),
        final(state)@ == (if action == 3 {
            AdminStateView { selections: old(state)@.selections.remove(slot), ..old(state)@ }
        } else {
            old(state)@
        }),
{
    if action == ACTION_BACK {
        MenuCommand::ShowHome
    } else if action == 1 {
        MenuCommand::ShowVoteMaps { page: 0 }
    } else if action == 2 {
        MenuCommand::StartSelectedVote
    } else if action == 3 {
        clear_selection(state, slot);
        MenuCommand::ShowVoteHome
    } else {
        MenuCommand::ShowVoteHome
    }
}

/// The map ids of a map list.
pub open spec fn map_ids(maps: Seq<(i32, String)>) -> Seq<i32> {
    maps.map_values(|m: (i32, String)| m.0)
}

pub fn collect_map_ids(maps: &Vec<(i32, String)>) -> (r: Vec<i32>)
    ensures
        r@ == map_ids(maps@),
{
    let mut r: Vec<i32> = Vec::new();
    let mut i: usize = 0;
    while i < maps.len()
        invariant
            i <= maps@.len(),
            r@ == map_ids(maps@.subrange(0, i as int)),
        decreases maps.len() - i,
    {
        r.push(maps[i].0);
        i = i + 1;
        assert(r@ =~= map_ids(maps@.subrange(0, i as int)));
    }
    assert(maps@.subrange(0, maps@.len() as int) =~= maps@);
    r
}

/// The selection of `slot` restricted to the maps of the list.
pub open spec fn retained(s: AdminStateView, slot: i32, maps: Seq<(i32, String)>) -> AdminStateView {
    if s.selections.contains_key(slot) {
        AdminStateView {
            selections: s.selections.insert(
                slot,
                s.selections[slot].filter(|m: i32| map_ids(maps).contains(m)),
            ),
            ..s
        }
    } else {
        s
    }
}

/// Drops from the selection of `slot` the maps no longer in the list, and
/// returns the selection.
pub fn prepare_vote_selection(state: &mut AdminState, slot: i32, maps: &Vec<(i32, String)>) -> (r: Vec<
    i32,
>)
    ensures
        final(state)@ == retained(old(state)@, slot, maps@),
        r@ == selection_of(final(state)@, slot),
{
    let allowed = collect_map_ids(maps);
    retain_selected_maps(state, slot, allowed.as_slice());
    selected_maps(state, slot)
}

pub open spec fn full_notice(max_vote_maps: usize) -> Seq<char> {
    "[MapChooser] Для голосования можно выбрать не больше "@ + decimal(max_vote_maps as nat)
        + " карт."@
}

/// What an action on the admin vote's map list leads to, the notice for the
/// player if any, and the state after it.
pub open spec fn vote_maps_step(
    s: AdminStateView,
    slot: i32,
    action: i32,
    page: usize,
    maps: Seq<(i32, String)>,
    items_per_page: usize,
    max_vote_maps: usize,
) -> (MenuCommand, Option<Seq<char>>, AdminStateView) {
    let s1 = retained(s, slot, maps);
    let p = clamp_page(page as nat, maps.len(), items_per_page as nat) as usize;
    match list_action(action, page as nat, maps.len(), items_per_page as nat) {
        ListAction::Back => (MenuCommand::ShowVoteHome, None, s1),
        ListAction::Page(q) => (MenuCommand::ShowVoteMaps { page: q as usize }, None, s1),
        ListAction::Pick(i) => {
            let sel = selection_of(s1, slot);
            let id = maps[i as int].0;
            (
                MenuCommand::ShowVoteMaps { page: p },
                if toggle_outcome(sel, id, max_vote_maps as nat) == ToggleResult::Full {
                    Some(full_notice(max_vote_maps))
                } else {
                    None
                },
                AdminStateView {
                    selections: s1.selections.insert(
                        slot,
                        toggled_selection(sel, id, max_vote_maps as nat),
                    ),
                    ..s1
                },
            )
        },
        ListAction::Stay(q) => (MenuCommand::ShowVoteMaps { page: q as usize }, None, s1),
    }
}

/// Every map of the selection restricted to the list is in the list.
proof fn lemma_retained_listed(s: AdminStateView, slot: i32, maps: Seq<(i32, String)>)
    ensures
        forall|k: int|
            0 <= k < selection_of(retained(s, slot, maps), slot).len() ==> map_ids(maps).contains(
                #[trigger] selection_of(retained(s, slot, maps), slot)[k],
            ),
{
    if s.selections.contains_key(slot) {
        let f = |m: i32| map_ids(maps).contains(m);
        let sel = s.selections[slot].filter(f);
        assert(selection_of(retained(s, slot, maps), slot) == sel);
        assert forall|k: int| 0 <= k < sel.len() implies map_ids(maps).contains(#[trigger] sel[k]) by {
            s.selections[slot].lemma_filter_pred(f, k);
        }
    }
}

/// Toggling a listed map in a selection of listed maps leaves only listed maps.
proof fn lemma_toggle_listed(sel: Seq<i32>, id: i32, max_selected: nat, listed: Seq<i32>)
    requires
        listed.contains(id),
        forall|k: int| 0 <= k < sel.len() ==> listed.contains(#[trigger] sel[k]),
    ensures
        forall|k: int|
            0 <= k < toggled_selection(sel, id, max_selected).len() ==> listed.contains(
                #[trigger] toggled_selection(sel, id, max_selected)[k],
            ),
{
    let t = toggled_selection(sel, id, max_selected);
    if sel.contains(id) {
        let i = choose|i: int| 0 <= i < sel.len() && sel[i] == id;
        let first = choose|j: int| 0 <= j <= i && sel[j] == id && forall|m: int| 0 <= m < j ==> sel[m] != id;
        assert(exists|j: int| 0 <= j <= i && sel[j] == id && forall|m: int| 0 <= m < j ==> sel[m] != id) by {
            lemma_first_occurrence(sel, id, i);
        }
        lemma_remove_first(sel, id, first);
        assert forall|k: int| 0 <= k < t.len() implies listed.contains(#[trigger] t[k]) by {
            if k < first {
                assert(t[k] == sel[k]);
            } else {
                assert(t[k] == sel[k + 1]);
            }
        }
    } else if sel.len() < max_selected {
        assert forall|k: int| 0 <= k < t.len() implies listed.contains(#[trigger] t[k]) by {
            if k < sel.len() {
                assert(t[k] == sel[k]);
            }
        }
    }
}

proof fn lemma_first_occurrence(s: Seq<i32>, x: i32, i: int)
    requires
        0 <= i < s.len(),
        s[i] == x,
    ensures
        exists|j: int| 0 <= j <= i && s[j] == x && forall|m: int| 0 <= m < j ==> s[m] != x,
    decreases i,
{
    if exists|m: int| 0 <= m < i && s[m] == x {
        let m = choose|m: int| 0 <= m < i && s[m] == x;
        lemma_first_occurrence(s, x, m);
    } else {
        assert(forall|m: int| 0 <= m < i ==> s[m] != x);
    }
}

/// Whatever an action on the admin vote's map list does, the admin's
/// selection afterwards holds only maps of the list: maps no longer listed
/// leave it before a digit toggles a map, and a digit only ever adds the map
/// listed under it.
pub proof fn law_vote_selection_stays_listed(
    s: AdminStateView,
    slot: i32,
    action: i32,
    page: usize,
    maps: Seq<(i32, String)>,
    items_per_page: usize,
    max_vote_maps: usize,
)
    requires
        items_per_page > 0,
    ensures
        ({
            let sel = selection_of(
                vote_maps_step(s, slot, action, page, maps, items_per_page, max_vote_maps).2,
                slot,
            );
            forall|k: int| 0 <= k < sel.len() ==> map_ids(maps).contains(#[trigger] sel[k])
        }),
{
    let s1 = retained(s, slot, maps);
    lemma_retained_listed(s, slot, maps);
    match list_action(action, page as nat, maps.len(), items_per_page as nat) {
        ListAction::Pick(i) => {
            let sel = selection_of(s1, slot);
            let id = maps[i as int].0;
            assert(map_ids(maps)[i as int] == id);
            lemma_toggle_listed(sel, id, max_vote_maps as nat, map_ids(maps));
        },
        _ => {},
    }
}

/// Map list of the admin vote: a digit toggles the map in the selection and
/// the list is shown again; a refused toggle gives a notice for the player.
pub fn select_vote_maps(
    state: &mut AdminState,
    slot: i32,
    action: i32,
    page: usize,
    maps: &Vec<(i32, String)>,
    items_per_page: usize,
    max_vote_maps: usize,
) -> (r: (MenuCommand, Option<String>))
    requires
        items_per_page > 0,
    ensures
        ({
            let (c, notice, s2) = vote_maps_step(old(state)@, slot, action, page, maps@, items_per_page, max_vote_maps);
            &&& r.0 == c
            &&& final(state)@ == s2
            &&& match notice {
                Some(m) => r.1 matches Some(x) && x@ == m,
                None => r.1 is None,
            }
        }),
{
    let _ = prepare_vote_selection(state, slot, maps);
    let (kind, value) = decide_list_action(action, page, maps.len(), items_per_page);
    let (_, p) = pages(maps.len(), items_per_page, page);
    if kind == 0 {
        (MenuCommand::ShowVoteHome, None)
    } else if kind == 1 {
        (MenuCommand::ShowVoteMaps { page: value }, None)
    } else if kind == 2 {
        let outcome = toggle_selected_map(state, slot, maps[value].0, max_vote_maps);
        if outcome == ToggleResult::Full {
            let mut m = String::from_str("[MapChooser] Для голосования можно выбрать не больше ");
            push_decimal(&mut m, max_vote_maps as u64);
            m.append(" карт.");
            (MenuCommand::ShowVoteMaps { page: p }, Some(m))
        } else {
            (MenuCommand::ShowVoteMaps { page: p }, None)
        }
    } else {
        (MenuCommand::ShowVoteMaps { page: value }, None)
    }
}

/// A menu screen as shown to a player: its id and title, the HTML panel,
/// the content lines and the numbered options.
pub struct MenuDocument {
    pub screen_id: String,
    pub title: String,
    pub html: String,
    pub content: Vec<String>,
    pub options: Vec<(i32, String)>,
    pub screen: Screen,
}

pub open spec fn texts(v: Seq<String>) -> Seq<Seq<char>> {
    v.map_values(|s: String| s@)
}

pub open spec fn option_texts(v: Seq<(i32, String)>) -> Seq<(i32, Seq<char>)> {
    v.map_values(|o: (i32, String)| (o.0, o.1@))
}

fn text_line(s: &str) -> (r: String)
    ensures
        r@ == s@,
{
    String::from_str(s)
}

/// The options after the map entries: previous and next page when there is
/// one, then back and exit.
pub open spec fn navigation(page: nat, count: nat, back_label: Seq<char>) -> Seq<(i32, Seq<char>)> {
    (if page > 0 { seq![(ACTION_PREV, "Предыдущая страница"@)] } else { Seq::empty() })
        + (if page + 1 < count { seq![(ACTION_NEXT, "Следующая страница"@)] } else { Seq::empty() })
        + seq![(ACTION_BACK, back_label), (ACTION_EXIT, "Выход"@)]
}

pub fn append_navigation(page: usize, page_count: usize, back_label: &str, options: &mut Vec<(i32, String)>)
    ensures
        option_texts(final(options)@) == option_texts(old(options)@) + navigation(
            page as nat,
            page_count as nat,
            back_label@,
        ),
{
    let ghost start = option_texts(options@);
    if page > 0 {
        options.push((ACTION_PREV, text_line("Предыдущая страница")));
    }
    if page < page_count && page + 1 < page_count {
        options.push((ACTION_NEXT, text_line("Следующая страница")));
    }
    options.push((ACTION_BACK, text_line(back_label)));
    options.push((ACTION_EXIT, text_line("Выход")));
    assert(option_texts(options@) =~= start + navigation(page as nat, page_count as nat, back_label@));
}

/// The marker of a selected map.
pub open spec fn marker(selected: Seq<i32>, id: i32) -> Seq<char> {
    if selected.contains(id) {
        "[✓] "@
    } else {
        Seq::empty()
    }
}

/// The number of map entries on a page that starts at `start`.
pub open spec fn entries_on_page(n: nat, start: nat, items_per_page: nat) -> nat {
    if start >= n {
        0
    } else if n - start < items_per_page {
        (n - start) as nat
    } else {
        items_per_page
    }
}

/// The HTML of the first `k` entries of the page starting at `start`.
pub open spec fn entries_html(maps: Seq<(i32, String)>, start: nat, selected: Seq<i32>, k: nat) -> Seq<char>
    decreases k,
{
    if k == 0 {
        Seq::empty()
    } else {
        let m = maps[start + k - 1];
        entries_html(maps, start, selected, (k - 1) as nat) + "<font color='#8FD3FF'>!"@ + decimal(k)
            + "</font> - <font color='#FFD700'>"@ + marker(selected, m.0) + escape(m.1@)
            + "</font><br>"@
    }
}

/// The option labels of the first `k` entries of the page starting at `start`.
pub open spec fn entries_labels(maps: Seq<(i32, String)>, start: nat, selected: Seq<i32>, k: nat) -> Seq<Seq<char>>
    decreases k,
{
    if k == 0 {
        Seq::empty()
    } else {
        let m = maps[start + k - 1];
        entries_labels(maps, start, selected, (k - 1) as nat).push(marker(selected, m.0) + m.1@)
    }
}

/// The options of the first `k` entries: digit `j + 1` for entry `j`.
pub open spec fn entries_options(maps: Seq<(i32, String)>, start: nat, selected: Seq<i32>, k: nat) -> Seq<(i32, Seq<char>)>
    decreases k,
{
    if k == 0 {
        Seq::empty()
    } else {
        let m = maps[start + k - 1];
        entries_options(maps, start, selected, (k - 1) as nat).push(((k as i32), marker(selected, m.0) + m.1@))
    }
}

pub open spec fn empty_list_html() -> Seq<char> {
    "Нет карт, разрешённых текущими фильтрами.<br>"@
}

pub open spec fn empty_list_line() -> Seq<char> {
    "Нет доступных карт"@
}

fn contains_id(v: &[i32], id: i32) -> (r: bool)
    ensures
        r == v@.contains(id),
{
    let mut i: usize = 0;
    while i < v.len()
        invariant
            i <= v@.len(),
            forall|j: int| 0 <= j < i ==> v@[j] != id,
        decreases v.len() - i,
    {
        if v[i] == id {
            assert(v@[i as int] == id);
            return true;
        }
        i = i + 1;
    }
    false
}

/// Appends the entries of the page starting at `start` (or a notice when
/// there is no map) to the HTML, the content lines and the options.
#[verifier::spinoff_prover]
#[verifier::rlimit(40)]
pub fn append_map_page(
    maps: &Vec<(i32, String)>,
    start: usize,
    items_per_page: usize,
    selected: &[i32],
    html: &mut String,
    content: &mut Vec<String>,
    options: &mut Vec<(i32, String)>,
)
    requires
        items_per_page <= 0x7fff_ffff,
    ensures
        maps@.len() == 0 ==> {
            &&& final(html)@ == old(html)@ + empty_list_html()
            &&& texts(final(content)@) == texts(old(content)@).push(empty_list_line())
            &&& final(options)@ == old(options)@
        },
        maps@.len() > 0 ==> {
            let k = entries_on_page(maps@.len(), start as nat, items_per_page as nat);
            &&& final(html)@ == old(html)@ + entries_html(maps@, start as nat, selected@, k)
            &&& texts(final(content)@) == texts(old(content)@) + entries_labels(maps@, start as nat, selected@, k)
            &&& option_texts(final(options)@) == option_texts(old(options)@) + entries_options(maps@, start as nat, selected@, k)
        },
{
    if maps.len() == 0 {
        html.append("Нет карт, разрешённых текущими фильтрами.<br>");
        content.push(text_line("Нет доступных карт"));
        assert(texts(content@) =~= texts(old(content)@).push(empty_list_line()));
        return;
    }
    let k: usize = if start >= maps.len() {
        0
    } else if maps.len() - start < items_per_page {
        maps.len() - start
    } else {
        items_per_page
    };
    let ghost h0 = html@;
    let ghost c0 = texts(content@);
    let ghost o0 = option_texts(options@);
    assert(k > 0 ==> start + k <= maps@.len());
    let n = maps.len();
    let mut j: usize = 0;
    while j < k
        invariant
            j <= k,
            k == entries_on_page(maps@.len(), start as nat, items_per_page as nat),
            k <= items_per_page <= 0x7fff_ffff,
            k > 0 ==> start + k <= maps@.len(),
            n == maps@.len(),
            html@ == h0 + entries_html(maps@, start as nat, selected@, j as nat),
            texts(content@) == c0 + entries_labels(maps@, start as nat, selected@, j as nat),
            option_texts(options@) == o0 + entries_options(maps@, start as nat, selected@, j as nat),
        decreases k - j,
    {
        assert(start + j < maps@.len());
        let entry = &maps[start + j];
        let id = entry.0;
        let label_chars = chars_of(entry.1.as_str());
        let digit: i32 = (j as i32) + 1;
        let mut mark = String::new();
        if contains_id(selected, id) {
            mark.append("[✓] ");
        }
        assert(mark@ == marker(selected@, id));
        html.append("<font color='#8FD3FF'>!");
        push_decimal(html, (j + 1) as u64);
        html.append("</font> - <font color='#FFD700'>");
        html.append(mark.as_str());
        push_escaped(html, label_chars.as_slice());
        html.append("</font><br>");
        let mut option_label = mark.clone();
        option_label.append(entry.1.as_str());
        let line = option_label.clone();
        let ghost cbefore = content@;
        content.push(line);
        proof {
            assert(content@ == cbefore.push(line));
            assert(texts(content@) =~= texts(cbefore).push(line@));
            assert(line@ == marker(selected@, id) + maps@[start + j].1@);
        }
        let ghost obefore = options@;
        let ghost ol = option_label;
        options.push((digit, option_label));
        proof {
            assert(options@ == obefore.push((digit, ol)));
            assert(option_texts(options@) =~= option_texts(obefore).push((digit, ol@)));
            assert(digit == (j + 1) as i32);
        }
        proof {
            let e = entries_html(maps@, start as nat, selected@, j as nat);
            assert(html@ =~= h0 + entries_html(maps@, start as nat, selected@, (j + 1) as nat));
            assert(texts(content@) =~= c0 + entries_labels(maps@, start as nat, selected@, (j + 1) as nat));
            assert(option_texts(options@) =~= o0 + entries_options(maps@, start as nat, selected@, (j + 1) as nat));
        }
        j = j + 1;
    }
}

pub open spec fn home_html(next_map: Seq<char>) -> Seq<char> {
    "<b>=== УПРАВЛЕНИЕ КАРТАМИ ===</b><br><font color='#888'>0 — Назад | 9 — Выход</font><br><br>Следующая карта: <font color='#FFD700'>"@
        + escape(next_map)
        + "</font><br><br><font color='#8FD3FF'>!1</font> - Ручная установка<br><font color='#8FD3FF'>!2</font> - Голосование за карту<br>"@
}

/// The home screen, naming the next map.
pub fn show_home(next_map: &str) -> (r: MenuDocument)
    ensures
        r.screen_id@ == "mapadmin.home"@,
        r.title@ == "Управление картами"@,
        r.html@ == home_html(next_map@),
        texts(r.content@) == seq!["Ручная установка"@, "Голосование за карту"@],
        option_texts(r.options@) == seq![
            (1i32, "Ручная установка"@),
            (2i32, "Голосование за карту"@),
            (ACTION_BACK, "Назад"@),
            (ACTION_EXIT, "Выход"@),
        ],
        r.screen == Screen::Home,
{
    let mut html = text_line(
        "<b>=== УПРАВЛЕНИЕ КАРТАМИ ===</b><br><font color='#888'>0 — Назад | 9 — Выход</font><br><br>Следующая карта: <font color='#FFD700'>",
    );
    let next = chars_of(next_map);
    push_escaped(&mut html, next.as_slice());
    html.append(
        "</font><br><br><font color='#8FD3FF'>!1</font> - Ручная установка<br><font color='#8FD3FF'>!2</font> - Голосование за карту<br>",
    );
    let mut content: Vec<String> = Vec::new();
    content.push(text_line("Ручная установка"));
    content.push(text_line("Голосование за карту"));
    let mut options: Vec<(i32, String)> = Vec::new();
    options.push((1, text_line("Ручная установка")));
    options.push((2, text_line("Голосование за карту")));
    options.push((ACTION_BACK, text_line("Назад")));
    options.push((ACTION_EXIT, text_line("Выход")));
    assert(texts(content@) =~= seq!["Ручная установка"@, "Голосование за карту"@]);
    assert(option_texts(options@) =~= seq![
        (1i32, "Ручная установка"@),
        (2i32, "Голосование за карту"@),
        (ACTION_BACK, "Назад"@),
        (ACTION_EXIT, "Выход"@),
    ]);
    MenuDocument {
        screen_id: text_line("mapadmin.home"),
        title: text_line("Управление картами"),
        html,
        content,
        options,
        screen: Screen::Home,
    }
}

pub open spec fn manual_action_html(label: Seq<char>) -> Seq<char> {
    "<b>=== РУЧНАЯ УСТАНОВКА ===</b><br><font color='#888'>0 — Назад | 9 — Выход</font><br><br>Карта: <font color='#FFD700'>"@
        + escape(label)
        + "</font><br><br><font color='#8FD3FF'>!1</font> - Сейчас<br><font color='#8FD3FF'>!2</font> - После раунда<br>"@
}

/// Choosing when to change to the map `map_id`, named `label`.
pub fn show_manual_action(map_id: i32, label: &str, page: usize) -> (r: MenuDocument)
    ensures
        r.screen_id@ == "mapadmin.manual.action"@,
        r.title@ == "Когда сменить карту"@,
        r.html@ == manual_action_html(label@),
        texts(r.content@) == seq!["Сейчас"@, "После раунда"@],
        option_texts(r.options@) == seq![
            (1i32, "Сейчас"@),
            (2i32, "После раунда"@),
            (ACTION_BACK, "Назад"@),
            (ACTION_EXIT, "Выход"@),
        ],
        r.screen == (Screen::ManualAction { map_id, page }),
{
    let mut html = text_line(
        "<b>=== РУЧНАЯ УСТАНОВКА ===</b><br><font color='#888'>0 — Назад | 9 — Выход</font><br><br>Карта: <font color='#FFD700'>",
    );
    let cs = chars_of(label);
    push_escaped(&mut html, cs.as_slice());
    html.append(
        "</font><br><br><font color='#8FD3FF'>!1</font> - Сейчас<br><font color='#8FD3FF'>!2</font> - После раунда<br>",
    );
    let mut content: Vec<String> = Vec::new();
    content.push(text_line("Сейчас"));
    content.push(text_line("После раунда"));
    let mut options: Vec<(i32, String)> = Vec::new();
    options.push((1, text_line("Сейчас")));
    options.push((2, text_line("После раунда")));
    options.push((ACTION_BACK, text_line("Назад")));
    options.push((ACTION_EXIT, text_line("Выход")));
    assert(texts(content@) =~= seq!["Сейчас"@, "После раунда"@]);
    assert(option_texts(options@) =~= seq![
        (1i32, "Сейчас"@),
        (2i32, "После раунда"@),
        (ACTION_BACK, "Назад"@),
        (ACTION_EXIT, "Выход"@),
    ]);
    MenuDocument {
        screen_id: text_line("mapadmin.manual.action"),
        title: text_line("Когда сменить карту"),
        html,
        content,
        options,
        screen: Screen::ManualAction { map_id, page },
    }
}

pub open spec fn manual_maps_header(page: nat, count: nat) -> Seq<char> {
    "<b>=== ВЫБОР КАРТЫ ===</b> <font color='#888'>["@ + decimal(page + 1) + "/"@ + decimal(count)
        + "]</font><br><font color='#888'>0 — Назад | 7 — Назад страница | 8 — Вперёд | 9 — Выход</font><br><br>"@
}

/// The map list for setting a map by hand, on the requested page (limited
/// to the last one).
pub fn show_manual_maps(maps: &Vec<(i32, String)>, requested_page: usize, items_per_page: usize) -> (r:
    MenuDocument)
    requires
        0 < items_per_page <= 0x7fff_ffff,
    ensures
        ({
            let n = maps@.len();
            let count = page_count(n, items_per_page as nat);
            let page = clamp_page(requested_page as nat, n, items_per_page as nat);
            let start = (page * items_per_page) as nat;
            let k = entries_on_page(n, start, items_per_page as nat);
            &&& r.screen_id@ == "mapadmin.manual.maps"@
            &&& r.title@ == "Выбор карты"@
            &&& r.screen == (Screen::ManualMaps { page: page as usize })
            &&& n == 0 ==> {
                &&& r.html@ == manual_maps_header(page, count) + empty_list_html()
                &&& texts(r.content@) == seq![empty_list_line()]
            }
            &&& n > 0 ==> {
                &&& r.html@ == manual_maps_header(page, count) + entries_html(maps@, start, Seq::empty(), k)
                &&& texts(r.content@) == entries_labels(maps@, start, Seq::empty(), k)
            }
            &&& option_texts(r.options@) == (if n == 0 {
                Seq::empty()
            } else {
                entries_options(maps@, start, Seq::empty(), k)
            }) + navigation(page, count, "Назад"@)
        }),
{
    let (count, page) = pages(maps.len(), items_per_page, requested_page);
    let start = page * items_per_page;
    let mut html = text_line("<b>=== ВЫБОР КАРТЫ ===</b> <font color='#888'>[");
    push_decimal(&mut html, (page + 1) as u64);
    html.append("/");
    push_decimal(&mut html, count as u64);
    html.append(
        "]</font><br><font color='#888'>0 — Назад | 7 — Назад страница | 8 — Вперёд | 9 — Выход</font><br><br>",
    );
    let mut content: Vec<String> = Vec::new();
    let mut options: Vec<(i32, String)> = Vec::new();
    let none: Vec<i32> = Vec::new();
    append_map_page(maps, start, items_per_page, none.as_slice(), &mut html, &mut content, &mut options);
    append_navigation(page, count, "Назад", &mut options);
    proof {
        assert(texts(Seq::<String>::empty()) =~= Seq::<Seq<char>>::empty());
        assert(option_texts(Seq::<(i32, String)>::empty()) =~= Seq::<(i32, Seq<char>)>::empty());
        assert(none@ =~= Seq::<i32>::empty());
    }
    MenuDocument {
        screen_id: text_line("mapadmin.manual.maps"),
        title: text_line("Выбор карты"),
        html,
        content,
        options,
        screen: Screen::ManualMaps { page },
    }
}

/// The labels joined by `", "`.
pub open spec fn join_labels(ls: Seq<Seq<char>>) -> Seq<char>
    decreases ls.len(),
{
    if ls.len() == 0 {
        Seq::empty()
    } else if ls.len() == 1 {
        ls[0]
    } else {
        join_labels(ls.drop_last()) + ", "@ + ls.last()
    }
}

pub open spec fn vote_home_html(selected: Seq<Seq<char>>, max_vote_maps: nat) -> Seq<char> {
    let text = if selected.len() == 0 {
        "нет"@
    } else {
        join_labels(selected)
    };
    "<b>=== АДМИНСКОЕ ГОЛОСОВАНИЕ ===</b><br><font color='#888'>0 — Назад | 9 — Выход</font><br><br>Выбрано: <font color='#FFD700'>"@
        + decimal(selected.len()) + "/"@ + decimal(max_vote_maps)
        + "</font><br><font color='#AAA'>"@ + escape(text)
        + "</font><br><br><font color='#8FD3FF'>!1</font> - Выбрать карты<br><font color='#8FD3FF'>!2</font> - Запустить голосование<br><font color='#8FD3FF'>!3</font> - Очистить выбор<br>"@
}

/// The label of map `id` in the map list: that of its first entry, empty
/// when the list does not have it.
pub open spec fn label_in(maps: Seq<(i32, String)>, id: i32) -> Seq<char>
    decreases maps.len(),
{
    if maps.len() == 0 {
        Seq::empty()
    } else if maps[0].0 == id {
        maps[0].1@
    } else {
        label_in(maps.drop_first(), id)
    }
}

/// The labels of the selected maps, in the order selected.
pub open spec fn selection_labels(maps: Seq<(i32, String)>, selected: Seq<i32>) -> Seq<Seq<char>> {
    selected.map_values(|id: i32| label_in(maps, id))
}

fn find_label(maps: &Vec<(i32, String)>, id: i32) -> (r: String)
    ensures
        r@ == label_in(maps@, id),
{
    let n = maps.len();
    let mut j: usize = 0;
    assert(maps@.subrange(0, n as int) =~= maps@);
    while j < n
        invariant
            n == maps@.len(),
            j <= n,
            label_in(maps@, id) == label_in(maps@.subrange(j as int, n as int), id),
        decreases n - j,
    {
        let ghost rest = maps@.subrange(j as int, n as int);
        assert(rest[0] == maps@[j as int]);
        if maps[j].0 == id {
            return maps[j].1.clone();
        }
        assert(rest.drop_first() =~= maps@.subrange(j + 1, n as int));
        j = j + 1;
    }
    String::new()
}

/// The admin vote screen for `slot`: the selection first loses the maps no
/// longer in the list of eligible maps `maps`; then the screen shows how
/// many maps are selected and their labels in that list.
pub fn show_vote_home(state: &mut AdminState, slot: i32, maps: &Vec<(i32, String)>, max_vote_maps: usize) -> (r:
    MenuDocument)
    ensures
        final(state)@ == retained(old(state)@, slot, maps@),
        r.screen_id@ == "mapadmin.vote.home"@,
        r.title@ == "Админское голосование"@,
        r.html@ == vote_home_html(
            selection_labels(maps@, selection_of(final(state)@, slot)),
            max_vote_maps as nat,
        ),
        texts(r.content@) == seq!["Выбрать карты"@, "Запустить голосование"@, "Очистить выбор"@],
        option_texts(r.options@) == seq![
            (1i32, "Выбрать карты"@),
            (2i32, "Запустить голосование"@),
            (3i32, "Очистить выбор"@),
            (ACTION_BACK, "Назад"@),
            (ACTION_EXIT, "Выход"@),
        ],
        r.screen == Screen::VoteHome,
{
    let selected = prepare_vote_selection(state, slot, maps);
    let mut labels: Vec<String> = Vec::new();
    let mut i: usize = 0;
    while i < selected.len()
        invariant
            i <= selected@.len(),
            labels@.len() == i,
            forall|k: int| 0 <= k < i ==> #[trigger] labels@[k]@ == label_in(maps@, selected@[k]),
        decreases selected.len() - i,
    {
        let label = find_label(maps, selected[i]);
        labels.push(label);
        i = i + 1;
    }
    assert(texts(labels@) =~= selection_labels(maps@, selected@));
    vote_home_document(&labels, max_vote_maps)
}

/// The admin vote screen showing the labels of the selected maps.
fn vote_home_document(selected_labels: &Vec<String>, max_vote_maps: usize) -> (r: MenuDocument)
    ensures
        r.screen_id@ == "mapadmin.vote.home"@,
        r.title@ == "Админское голосование"@,
        r.html@ == vote_home_html(texts(selected_labels@), max_vote_maps as nat),
        texts(r.content@) == seq!["Выбрать карты"@, "Запустить голосование"@, "Очистить выбор"@],
        option_texts(r.options@) == seq![
            (1i32, "Выбрать карты"@),
            (2i32, "Запустить голосование"@),
            (3i32, "Очистить выбор"@),
            (ACTION_BACK, "Назад"@),
            (ACTION_EXIT, "Выход"@),
        ],
        r.screen == Screen::VoteHome,
{
    let ghost ls = texts(selected_labels@);
    let mut text = String::new();
    if selected_labels.len() == 0 {
        text.append("нет");
    } else {
        let mut i: usize = 0;
        while i < selected_labels.len()
            invariant
                i <= selected_labels@.len(),
                ls == texts(selected_labels@),
                text@ == join_labels(ls.subrange(0, i as int)),
            decreases selected_labels.len() - i,
        {
            if i > 0 {
                text.append(", ");
            }
            text.append(selected_labels[i].as_str());
            proof {
                let p = ls.subrange(0, i + 1);
                assert(p.drop_last() =~= ls.subrange(0, i as int));
                if i == 0 {
                    assert(text@ =~= join_labels(p));
                } else {
                    assert(text@ =~= join_labels(p));
                }
            }
            i = i + 1;
        }
        assert(ls.subrange(0, ls.len() as int) =~= ls);
    }
    let mut html = text_line(
        "<b>=== АДМИНСКОЕ ГОЛОСОВАНИЕ ===</b><br><font color='#888'>0 — Назад | 9 — Выход</font><br><br>Выбрано: <font color='#FFD700'>",
    );
    push_decimal(&mut html, selected_labels.len() as u64);
    html.append("/");
    push_decimal(&mut html, max_vote_maps as u64);
    html.append("</font><br><font color='#AAA'>");
    let cs = chars_of(text.as_str());
    push_escaped(&mut html, cs.as_slice());
    html.append(
        "</font><br><br><font color='#8FD3FF'>!1</font> - Выбрать карты<br><font color='#8FD3FF'>!2</font> - Запустить голосование<br><font color='#8FD3FF'>!3</font> - Очистить выбор<br>",
    );
    let mut content: Vec<String> = Vec::new();
    content.push(text_line("Выбрать карты"));
    content.push(text_line("Запустить голосование"));
    content.push(text_line("Очистить выбор"));
    let mut options: Vec<(i32, String)> = Vec::new();
    options.push((1, text_line("Выбрать карты")));
    options.push((2, text_line("Запустить голосование")));
    options.push((3, text_line("Очистить выбор")));
    options.push((ACTION_BACK, text_line("Назад")));
    options.push((ACTION_EXIT, text_line("Выход")));
    assert(texts(content@) =~= seq!["Выбрать карты"@, "Запустить голосование"@, "Очистить выбор"@]);
    assert(option_texts(options@) =~= seq![
        (1i32, "Выбрать карты"@),
        (2i32, "Запустить голосование"@),
        (3i32, "Очистить выбор"@),
        (ACTION_BACK, "Назад"@),
        (ACTION_EXIT, "Выход"@),
    ]);
    MenuDocument {
        screen_id: text_line("mapadmin.vote.home"),
        title: text_line("Админское голосование"),
        html,
        content,
        options,
        screen: Screen::VoteHome,
    }
}

pub open spec fn vote_maps_header(page: nat, count: nat, selected: nat, max_vote_maps: nat) -> Seq<char> {
    "<b>=== ВЫБОР КАРТ ДЛЯ ГОЛОСОВАНИЯ ===</b> <font color='#888'>["@ + decimal(page + 1) + "/"@
        + decimal(count)
        + "]</font><br><font color='#888'>0 — Готово | 7 — Назад страница | 8 — Вперёд | 9 — Выход</font><br>Выбрано: <font color='#FFD700'>"@
        + decimal(selected) + "/"@ + decimal(max_vote_maps) + "</font><br><br>"@
}

proof fn lemma_entries_options_at(maps: Seq<(i32, String)>, start: nat, selected: Seq<i32>, k: nat, j: int)
    requires
        0 <= j < k,
    ensures
        entries_options(maps, start, selected, k).len() == k,
        entries_options(maps, start, selected, k)[j] == ((j + 1) as i32, marker(
            selected,
            maps[start + j].0,
        ) + maps[start + j].1@),
    decreases k,
{
    if j < k - 1 {
        lemma_entries_options_at(maps, start, selected, (k - 1) as nat, j);
    } else {
        if k > 1 {
            lemma_entries_options_at(maps, start, selected, (k - 1) as nat, 0);
        } else {
            assert(entries_options(maps, start, selected, 0).len() == 0);
        }
    }
}

/// The menu keeps its word: on the page a player is shown, the option with
/// digit `d` names the map that pressing `d` on that page picks (for the
/// page sizes the settings allow, 1 to 5).
pub proof fn law_shown_digit_picks_listed_map(
    maps: Seq<(i32, String)>,
    selected: Seq<i32>,
    page: nat,
    items_per_page: nat,
    d: int,
)
    requires
        0 < items_per_page <= 5,
        1 <= d <= entries_on_page(
            maps.len(),
            clamp_page(page, maps.len(), items_per_page) * items_per_page,
            items_per_page,
        ),
    ensures
        ({
            let start = clamp_page(page, maps.len(), items_per_page) * items_per_page;
            let k = entries_on_page(maps.len(), start, items_per_page);
            let shown = entries_options(maps, start, selected, k)[d - 1];
            &&& shown.0 == d
            &&& shown.1 == marker(selected, maps[start + d - 1].0) + maps[start + d - 1].1@
            &&& list_action(d as i32, page, maps.len(), items_per_page) == ListAction::Pick(
                (start + d - 1) as nat,
            )
        }),
{
    let n = maps.len();
    let p = clamp_page(page, n, items_per_page);
    let start = p * items_per_page;
    let k = entries_on_page(n, start, items_per_page);
    lemma_entries_options_at(maps, start, selected, k, d - 1);
    assert(k <= items_per_page);
    assert(picked_index(d as i32, p, n, items_per_page) == Some((start + d - 1) as nat));
}

/// The map list of the admin vote on the requested page (limited to the last
/// one), marking the selected maps; the selection first loses the maps no
/// longer in the list.
pub fn show_vote_maps(
    state: &mut AdminState,
    slot: i32,
    maps: &Vec<(i32, String)>,
    requested_page: usize,
    items_per_page: usize,
    max_vote_maps: usize,
) -> (r: MenuDocument)
    requires
        0 < items_per_page <= 0x7fff_ffff,
    ensures
        final(state)@ == retained(old(state)@, slot, maps@),
        ({
            let sel = selection_of(final(state)@, slot);
            let n = maps@.len();
            let count = page_count(n, items_per_page as nat);
            let page = clamp_page(requested_page as nat, n, items_per_page as nat);
            let start = (page * items_per_page) as nat;
            let k = entries_on_page(n, start, items_per_page as nat);
            let head = vote_maps_header(page, count, sel.len(), max_vote_maps as nat);
            &&& r.screen_id@ == "mapadmin.vote.maps"@
            &&& r.title@ == "Выбор карт"@
            &&& r.screen == (Screen::VoteMaps { page: page as usize })
            &&& n == 0 ==> {
                &&& r.html@ == head + empty_list_html()
                &&& texts(r.content@) == seq![empty_list_line()]
            }
            &&& n > 0 ==> {
                &&& r.html@ == head + entries_html(maps@, start, sel, k)
                &&& texts(r.content@) == entries_labels(maps@, start, sel, k)
            }
            &&& option_texts(r.options@) == (if n == 0 {
                Seq::empty()
            } else {
                entries_options(maps@, start, sel, k)
            }) + navigation(page, count, "Готово"@)
        }),
{
    let selected = prepare_vote_selection(state, slot, maps);
    let (count, page) = pages(maps.len(), items_per_page, requested_page);
    let start = page * items_per_page;
    let mut html = text_line("<b>=== ВЫБОР КАРТ ДЛЯ ГОЛОСОВАНИЯ ===</b> <font color='#888'>[");
    push_decimal(&mut html, (page + 1) as u64);
    html.append("/");
    push_decimal(&mut html, count as u64);
    html.append(
        "]</font><br><font color='#888'>0 — Готово | 7 — Назад страница | 8 — Вперёд | 9 — Выход</font><br>Выбрано: <font color='#FFD700'>",
    );
    push_decimal(&mut html, selected.len() as u64);
    html.append("/");
    push_decimal(&mut html, max_vote_maps as u64);
    html.append("</font><br><br>");
    let mut content: Vec<String> = Vec::new();
    let mut options: Vec<(i32, String)> = Vec::new();
    append_map_page(maps, start, items_per_page, selected.as_slice(), &mut html, &mut content, &mut options);
    append_navigation(page, count, "Готово", &mut options);
    proof {
        assert(texts(Seq::<String>::empty()) =~= Seq::<Seq<char>>::empty());
        assert(option_texts(Seq::<(i32, String)>::empty()) =~= Seq::<(i32, Seq<char>)>::empty());
    }
    MenuDocument {
        screen_id: text_line("mapadmin.vote.maps"),
        title: text_line("Выбор карт"),
        html,
        content,
        options,
        screen: Screen::VoteMaps { page },
    }
}

/// The label of a map: its display name, or its engine name when the
/// display name is blank, without surrounding whitespace.
pub fn map_label(display_name: &str, engine_name: &str) -> (r: String)
    ensures
        r@ == (if trim(display_name@).len() > 0 {
            trim(display_name@)
        } else {
            trim(engine_name@)
        }),
{
    let display = trim_str(display_name);
    if display.len() > 0 {
        return string_of(display.as_slice());
    }
    let engine = trim_str(engine_name);
    string_of(engine.as_slice())
}

/// What `str::to_lowercase` gives for a text.
pub uninterp spec fn lowercase(s: Seq<char>) -> Seq<char>;

/// `str::to_lowercase`: the Unicode lower case of `s`. The contract names its
/// result and claims no more than that it depends on `s` alone.
#[verifier::external_body]
fn to_lowercase(s: &str) -> (r: String)
    ensures
        r@ == lowercase(s@),
{
    s.to_lowercase()
}

/// A map entry as the menu lists it: id and label.
pub open spec fn entry_view(m: (i32, String)) -> (i32, Seq<char>) {
    (m.0, m.1@)
}

/// The entries of `maps`, each with its key from `keys`: id, label, key.
pub open spec fn keyed(maps: Seq<(i32, String)>, keys: Seq<String>) -> Seq<(i32, Seq<char>, Seq<char>)> {
    Seq::new(maps.len(), |i: int| (maps[i].0, maps[i].1@, keys[i]@))
}

/// The id and label of keyed entries.
pub open spec fn unkeyed(s: Seq<(i32, Seq<char>, Seq<char>)>) -> Seq<(i32, Seq<char>)> {
    s.map_values(|e: (i32, Seq<char>, Seq<char>)| (e.0, e.1))
}

/// `r` with `e` inserted after the last entry whose key is not greater than its own.
pub open spec fn insert_by_key(r: Seq<(i32, Seq<char>, Seq<char>)>, e: (i32, Seq<char>, Seq<char>)) -> Seq<
    (i32, Seq<char>, Seq<char>),
>
    decreases r.len(),
{
    if r.len() == 0 {
        seq![e]
    } else if lex_le(r.last().2, e.2) {
        r.push(e)
    } else {
        insert_by_key(r.drop_last(), e).push(r.last())
    }
}

/// `s` sorted by key, entries with equal keys in the order of `s`: each entry
/// in turn is inserted after those whose key is not greater.
pub open spec fn sort_by_key(s: Seq<(i32, Seq<char>, Seq<char>)>) -> Seq<(i32, Seq<char>, Seq<char>)>
    decreases s.len(),
{
    if s.len() == 0 {
        s
    } else {
        insert_by_key(sort_by_key(s.drop_last()), s.last())
    }
}

/// Entries in ascending order of their keys.
pub open spec fn sorted_by_key(r: Seq<(i32, Seq<char>, Seq<char>)>) -> bool {
    forall|i: int, j: int| 0 <= i < j < r.len() ==> lex_le(r[i].2, r[j].2)
}

/// The entries whose key is `k`, in order.
pub open spec fn with_key(r: Seq<(i32, Seq<char>, Seq<char>)>, k: Seq<char>) -> Seq<(i32, Seq<char>, Seq<char>)> {
    r.filter(|e: (i32, Seq<char>, Seq<char>)| e.2 == k)
}

/// `r` lists the entries of `f` sorted by key, and entries with equal keys
/// keep their order in `f` (a stable sort).
pub open spec fn stably_sorted(r: Seq<(i32, Seq<char>, Seq<char>)>, f: Seq<(i32, Seq<char>, Seq<char>)>) -> bool {
    &&& sorted_by_key(r)
    &&& forall|k: Seq<char>| #[trigger] with_key(r, k) == with_key(f, k)
}

/// Where `insert_by_key` puts `e`.
pub open spec fn insert_position(r: Seq<(i32, Seq<char>, Seq<char>)>, e: (i32, Seq<char>, Seq<char>)) -> int
    decreases r.len(),
{
    if r.len() == 0 {
        0
    } else if lex_le(r.last().2, e.2) {
        r.len() as int
    } else {
        insert_position(r.drop_last(), e)
    }
}

proof fn lemma_insert_position(r: Seq<(i32, Seq<char>, Seq<char>)>, e: (i32, Seq<char>, Seq<char>))
    ensures
        ({
            let p = insert_position(r, e);
            &&& 0 <= p <= r.len()
            &&& insert_by_key(r, e) == r.insert(p, e)
            &&& p > 0 ==> lex_le(r[p - 1].2, e.2)
            &&& forall|j: int| p <= j < r.len() ==> !lex_le(#[trigger] r[j].2, e.2)
        }),
    decreases r.len(),
{
    if r.len() == 0 {
        assert(r.insert(0, e) =~= seq![e]);
    } else if lex_le(r.last().2, e.2) {
        assert(r.insert(r.len() as int, e) =~= r.push(e));
    } else {
        let t = r.drop_last();
        lemma_insert_position(t, e);
        let p = insert_position(t, e);
        assert(insert_by_key(r, e) =~= r.insert(p, e));
        assert forall|j: int| p <= j < r.len() implies !lex_le(#[trigger] r[j].2, e.2) by {
            if j < t.len() {
                assert(r[j] == t[j]);
            }
        }
        if p > 0 {
            assert(r[p - 1] == t[p - 1]);
        }
    }
}

/// The one place after the entries whose key is not greater than that of `e`
/// and before the others is where `insert_by_key` puts it.
proof fn lemma_insert_position_unique(r: Seq<(i32, Seq<char>, Seq<char>)>, e: (i32, Seq<char>, Seq<char>), p: int)
    requires
        0 <= p <= r.len(),
        p > 0 ==> lex_le(r[p - 1].2, e.2),
        forall|j: int| p <= j < r.len() ==> !lex_le(#[trigger] r[j].2, e.2),
    ensures
        insert_by_key(r, e) == r.insert(p, e),
{
    lemma_insert_position(r, e);
    let q = insert_position(r, e);
    if q < p {
        assert(!lex_le(r[p - 1].2, e.2));
    } else if p < q {
        assert(!lex_le(r[q - 1].2, e.2));
    }
}

/// Sorting by key is a stable sort: the result is ordered by key, and the
/// entries of each key come in the order given.
pub proof fn law_sort_by_key_is_stable(s: Seq<(i32, Seq<char>, Seq<char>)>)
    ensures
        stably_sorted(sort_by_key(s), s),
    decreases s.len(),
{
    if s.len() == 0 {
        assert forall|k: Seq<char>| #[trigger] with_key(sort_by_key(s), k) == with_key(s, k) by {}
    } else {
        let f = s.drop_last();
        let e = s.last();
        law_sort_by_key_is_stable(f);
        let r = sort_by_key(f);
        lemma_insert_position(r, e);
        let p = insert_position(r, e);
        lemma_insert_stable(r, f, e, p);
        assert(f.push(e) =~= s);
    }
}

/// Inserting `e` after the entries whose key is not greater than its own
/// keeps a stable sort of `f` a stable sort of `f` followed by `e`.
#[verifier::spinoff_prover]
#[verifier::rlimit(60)]
proof fn lemma_insert_stable(
    r: Seq<(i32, Seq<char>, Seq<char>)>,
    f: Seq<(i32, Seq<char>, Seq<char>)>,
    e: (i32, Seq<char>, Seq<char>),
    p: int,
)
    requires
        stably_sorted(r, f),
        0 <= p <= r.len(),
        p > 0 ==> lex_le(r[p - 1].2, e.2),
        forall|j: int| p <= j < r.len() ==> !lex_le(#[trigger] r[j].2, e.2),
    ensures
        stably_sorted(r.insert(p, e), f.push(e)),
{
    let r2 = r.insert(p, e);
    let a = r.subrange(0, p);
    let b = r.subrange(p, r.len() as int);
    assert(r =~= a + b);
    assert(r2 =~= a + seq![e] + b);
    lemma_lex_total(e.2, e.2);
    assert forall|i: int, j: int| 0 <= i < j < r2.len() implies lex_le(r2[i].2, r2[j].2) by {
        if j < p {
            assert(r2[i] == r[i] && r2[j] == r[j]);
        } else if j == p {
            assert(r2[i] == r[i]);
            if i < p - 1 {
                lemma_lex_trans(r[i].2, r[p - 1].2, e.2);
            }
        } else if i < p {
            assert(r2[i] == r[i] && r2[j] == r[j - 1]);
        } else if i == p {
            assert(r2[j] == r[j - 1]);
            lemma_lex_total(r[j - 1].2, e.2);
        } else {
            assert(r2[i] == r[i - 1] && r2[j] == r[j - 1]);
        }
    }
    assert forall|k: Seq<char>| #[trigger] with_key(r2, k) == with_key(f.push(e), k) by {
        let pr = |x: (i32, Seq<char>, Seq<char>)| x.2 == k;
        Seq::filter_distributes_over_add(a + seq![e], b, pr);
        Seq::filter_distributes_over_add(a, seq![e], pr);
        Seq::filter_distributes_over_add(a, b, pr);
        f.lemma_filter_push(e, pr);
        reveal_with_fuel(Seq::filter, 2);
        assert(seq![e].filter(pr) =~= if pr(e) { seq![e] } else { Seq::empty() }) by {
            assert(seq![e].drop_last() =~= Seq::<(i32, Seq<char>, Seq<char>)>::empty());
        }
        if pr(e) {
            assert(b.filter(pr) =~= Seq::empty()) by {
                if b.filter(pr).len() > 0 {
                    b.lemma_filter_pred(pr, 0);
                    b.lemma_filter_contains_rev(pr, b.filter(pr)[0]);
                    let x = b.filter(pr)[0];
                    let j = choose|j: int| 0 <= j < b.len() && b[j] == x;
                    assert(r[p + j] == b[j]);
                }
            }
        }
        assert(with_key(r, k) == with_key(f, k));
    }
}

/// The keyed entries of the lists being sorted.
spec fn sorting_view(items: Seq<(i32, String)>, keys: Seq<Vec<char>>) -> Seq<(i32, Seq<char>, Seq<char>)> {
    Seq::new(items.len(), |j: int| (items[j].0, items[j].1@, keys[j]@))
}

/// Sorts the maps by their keys (`keys[i]` is the key of `maps[i]`), maps
/// with equal keys in the order given.
pub fn sort_maps_by_key(maps: &Vec<(i32, String)>, keys: &Vec<String>) -> (r: Vec<(i32, String)>)
    requires
        maps@.len() == keys@.len(),
    ensures
        r@.map_values(|m: (i32, String)| entry_view(m)) == unkeyed(sort_by_key(keyed(maps@, keys@))),
{
    let ghost all = keyed(maps@, keys@);
    let mut items: Vec<(i32, String)> = Vec::new();
    let mut ks: Vec<Vec<char>> = Vec::new();
    let mut i: usize = 0;
    assert(all.subrange(0, 0) =~= Seq::<(i32, Seq<char>, Seq<char>)>::empty());
    assert(sorting_view(items@, ks@) =~= sort_by_key(all.subrange(0, 0)));
    while i < maps.len()
        invariant
            i <= maps@.len(),
            maps@.len() == keys@.len(),
            all == keyed(maps@, keys@),
            items@.len() == ks@.len(),
            sorting_view(items@, ks@) == sort_by_key(all.subrange(0, i as int)),
        decreases maps.len() - i,
    {
        let ghost cur = sorting_view(items@, ks@);
        let ghost e = all[i as int];
        let key = chars_of(keys[i].as_str());
        let mut p: usize = items.len();
        while p > 0 && !chars_le(ks[p - 1].as_slice(), key.as_slice())
            invariant
                p <= items@.len(),
                items@.len() == ks@.len(),
                cur == sorting_view(items@, ks@),
                key@ == e.2,
                forall|j: int| p <= j < items@.len() ==> !lex_le(#[trigger] ks@[j]@, key@),
            decreases p,
        {
            p = p - 1;
        }
        proof {
            assert forall|j: int| p <= j < cur.len() implies !lex_le(#[trigger] cur[j].2, e.2) by {
                assert(cur[j].2 == ks@[j]@);
            }
            if p > 0 {
                assert(cur[p - 1].2 == ks@[p - 1]@);
            }
            lemma_insert_position_unique(cur, e, p as int);
            let s1 = all.subrange(0, i + 1);
            assert(s1.drop_last() =~= all.subrange(0, i as int));
            assert(s1.last() == e);
        }
        let entry = (maps[i].0, maps[i].1.clone());
        items.insert(p, entry);
        ks.insert(p, key);
        proof {
            assert(sorting_view(items@, ks@) =~= cur.insert(p as int, e));
        }
        i = i + 1;
    }
    proof {
        assert(all.subrange(0, maps@.len() as int) =~= all);
        assert(items@.map_values(|m: (i32, String)| entry_view(m)) =~= unkeyed(sorting_view(items@, ks@)));
    }
    items
}

/// The entries with a non-empty label, in the order given.
pub open spec fn labelled(ids: Seq<i32>, labels: Seq<Seq<char>>, n: nat) -> Seq<(i32, Seq<char>)>
    decreases n,
{
    if n == 0 {
        Seq::empty()
    } else if labels[n - 1].len() > 0 {
        labelled(ids, labels, (n - 1) as nat).push((ids[n - 1], labels[n - 1]))
    } else {
        labelled(ids, labels, (n - 1) as nat)
    }
}

/// Entries keyed by the lower case of their labels.
pub open spec fn by_lowercase(s: Seq<(i32, Seq<char>)>) -> Seq<(i32, Seq<char>, Seq<char>)> {
    Seq::new(s.len(), |i: int| (s[i].0, s[i].1, lowercase(s[i].1)))
}

/// The maps that can be listed: those with a non-empty label, sorted by the
/// lower case of their labels, maps with equal keys in the order given.
/// `labels[i]` is the label of `ids[i]`.
pub fn eligible_maps(ids: &Vec<i32>, labels: &Vec<String>) -> (r: Vec<(i32, String)>)
    requires
        ids@.len() == labels@.len(),
    ensures
        r@.map_values(|m: (i32, String)| entry_view(m)) == unkeyed(
            sort_by_key(by_lowercase(labelled(ids@, texts(labels@), ids@.len()))),
        ),
        stably_sorted(
            sort_by_key(by_lowercase(labelled(ids@, texts(labels@), ids@.len()))),
            by_lowercase(labelled(ids@, texts(labels@), ids@.len())),
        ),
{
    let ghost ls = texts(labels@);
    let mut maps: Vec<(i32, String)> = Vec::new();
    let mut keys: Vec<String> = Vec::new();
    let mut i: usize = 0;
    assert(keyed(maps@, keys@) =~= by_lowercase(labelled(ids@, ls, 0)));
    while i < ids.len()
        invariant
            i <= ids@.len(),
            ids@.len() == labels@.len(),
            ls == texts(labels@),
            maps@.len() == keys@.len(),
            keyed(maps@, keys@) == by_lowercase(labelled(ids@, ls, i as nat)),
        decreases ids.len() - i,
    {
        let ghost before = keyed(maps@, keys@);
        if labels[i].as_str().unicode_len() > 0 {
            let label = labels[i].clone();
            let key = to_lowercase(label.as_str());
            maps.push((ids[i], label));
            keys.push(key);
            proof {
                assert(keyed(maps@, keys@) =~= before.push((ids@[i as int], ls[i as int], lowercase(ls[i as int]))));
                assert(labelled(ids@, ls, (i + 1) as nat) == labelled(ids@, ls, i as nat).push((ids@[i as int], ls[i as int])));
                assert(keyed(maps@, keys@) =~= by_lowercase(labelled(ids@, ls, (i + 1) as nat)));
            }
        } else {
            proof {
                assert(labelled(ids@, ls, (i + 1) as nat) == labelled(ids@, ls, i as nat));
            }
        }
        i = i + 1;
    }
    proof {
        law_sort_by_key_is_stable(by_lowercase(labelled(ids@, ls, ids@.len())));
    }
    sort_maps_by_key(&maps, &keys)
}

pub open spec fn msg_show_failed() -> Seq<char> {
    "[MapChooser] Не удалось открыть меню."@
}

/// Records the outcome of handing a document for `screen` to the menu plugin:
/// when it was shown the player is on `screen`; when it was not, the player
/// has no screen and is told that the menu could not be opened.
pub fn record_shown(state: &mut AdminState, slot: i32, screen: Screen, shown: bool) -> (r: Option<&'static str>)
    ensures
        shown ==> r is None && final(state)@ == (AdminStateView {
            screens: old(state)@.screens.insert(slot, screen),
            ..old(state)@
        }),
        !shown ==> (r matches Some(m) && m@ == msg_show_failed()) && final(state)@ == (AdminStateView {
            screens: old(state)@.screens.remove(slot),
            ..old(state)@
        }),
{
    set_screen(state, slot, screen);
    if shown {
        return None;
    }
    clear_screen(state, slot);
    assert(old(state)@.screens.insert(slot, screen).remove(slot) =~= old(state)@.screens.remove(slot));
    Some("[MapChooser] Не удалось открыть меню.")
}

pub open spec fn msg_unavailable() -> Seq<char> {
    "[MapChooser] Управление картами временно недоступно."@
}

pub open spec fn msg_no_access() -> Seq<char> {
    "[MapChooser] Недостаточно прав для управления картами."@
}

pub open spec fn msg_access_revoked() -> Seq<char> {
    "[MapChooser] Доступ к управлению картами отозван."@
}

/// Opening the menu from the admin menu: the home screen, or the notice for
/// the player when the plugin is not ready or the player lacks access.
pub fn open_from_admin(runtime_ready: bool, has_access: bool) -> (r: Result<MenuCommand, &'static str>)
    ensures
        !runtime_ready ==> (r matches Err(m) && m@ == msg_unavailable()),
        runtime_ready && !has_access ==> (r matches Err(m) && m@ == msg_no_access()),
        runtime_ready && has_access ==> r == Ok::<MenuCommand, &'static str>(MenuCommand::ShowHome),
{
    if !runtime_ready {
        return Err("[MapChooser] Управление картами временно недоступно.");
    }
    if !has_access {
        return Err("[MapChooser] Недостаточно прав для управления картами.");
    }
    Ok(MenuCommand::ShowHome)
}

/// Before an action is handled: the menu is closed with a notice when the
/// plugin is not ready or the player's access was revoked; `None` lets the
/// action through.
pub fn action_refusal(runtime_ready: bool, has_access: bool) -> (r: Option<&'static str>)
    ensures
        !runtime_ready ==> (r matches Some(m) && m@ == msg_unavailable()),
        runtime_ready && !has_access ==> (r matches Some(m) && m@ == msg_access_revoked()),
        runtime_ready && has_access ==> r is None,
{
    if !runtime_ready {
        return Some("[MapChooser] Управление картами временно недоступно.");
    }
    if !has_access {
        return Some("[MapChooser] Доступ к управлению картами отозван.");
    }
    None
}

/// What an action on the menu of `slot` leads to: 9 closes the menu; other
/// actions are handled by the screen the player is on, and the home screen
/// is shown when the player has none. `maps` is the list of eligible maps,
/// used by the map-list screens.
pub fn on_action(
    state: &mut AdminState,
    slot: i32,
    action: i32,
    maps: &Vec<(i32, String)>,
    items_per_page: usize,
    max_vote_maps: usize,
) -> (r: (MenuCommand, Option<String>))
    requires
        items_per_page > 0,
    ensures
        action == ACTION_EXIT ==> r.0 == MenuCommand::Close && r.1 is None && final(state)@ == old(
            state,
        )@,
        action != ACTION_EXIT ==> {
            let s = old(state)@;
            if !s.screens.contains_key(slot) {
                r.0 == MenuCommand::ShowHome && r.1 is None && final(state)@ == s
            } else {
                match s.screens[slot] {
                    Screen::Home => {
                        &&& r.0 == (if action == 1 {
                            MenuCommand::ShowManualMaps { page: 0 }
                        } else if action == 2 {
                            MenuCommand::ShowVoteHome
                        } else if action == ACTION_BACK {
                            MenuCommand::BackToAdminMenu
                        } else {
                            MenuCommand::ShowHome
                        })
                        &&& r.1 is None
                        &&& final(state)@ == s
                    },
                    Screen::ManualMaps { page } => {
                        &&& r.0 == manual_maps_command(maps@, items_per_page, action, page)
                        &&& r.1 is None
                        &&& final(state)@ == s
                    },
                    Screen::ManualAction { map_id, page } => {
                        &&& r.0 == (if action == ACTION_BACK {
                            MenuCommand::ShowManualMaps { page }
                        } else if action == 1 {
                            MenuCommand::ChangeNow { map_id }
                        } else if action == 2 {
                            MenuCommand::ChangeAfterRound { map_id }
                        } else {
                            MenuCommand::ShowManualAction { map_id, page }
                        })
                        &&& r.1 is None
                        &&& final(state)@ == s
                    },
                    Screen::VoteHome => {
                        &&& r.0 == (if action == ACTION_BACK {
                            MenuCommand::ShowHome
                        } else if action == 1 {
                            MenuCommand::ShowVoteMaps { page: 0 }
                        } else if action == 2 {
                            MenuCommand::StartSelectedVote
                        } else {
                            MenuCommand::ShowVoteHome
                        })
                        &&& r.1 is None
                        &&& final(state)@ == (if action == 3 {
                            AdminStateView { selections: s.selections.remove(slot), ..s }
                        } else {
                            s
                        })
                    },
                    Screen::VoteMaps { page } => {
                        let (c, notice, s2) = vote_maps_step(s, slot, action, page, maps@, items_per_page, max_vote_maps);
                        &&& r.0 == c
                        &&& final(state)@ == s2
                        &&& match notice {
                            Some(m) => r.1 matches Some(x) && x@ == m,
                            None => r.1 is None,
                        }
                    },
                }
            }
        },
{
    if action == ACTION_EXIT {
        return (MenuCommand::Close, None);
    }
    match crate::state::screen(state, slot) {
        Some(Screen::Home) => (select_home(action), None),
        Some(Screen::ManualMaps { page }) => (select_manual_maps(maps, items_per_page, action, page), None),
        Some(Screen::ManualAction { map_id, page }) => (select_manual_action(action, map_id, page), None),
        Some(Screen::VoteHome) => (select_vote_home(state, slot, action), None),
        Some(Screen::VoteMaps { page }) => select_vote_maps(
            state,
            slot,
            action,
            page,
            maps,
            items_per_page,
            max_vote_maps,
        ),
        None => (MenuCommand::ShowHome, None),
    }
}

} // verus!
