use admin_plugins::state::{
    admin_pending_map_change, admin_vote_active, begin_multi_vote, begin_vote_countdown,
    begin_yes_no_vote, claim_pending_request, clear_multi_vote, clear_pending, clear_runtime,
    clear_screen, clear_screens, clear_selection, clear_selections, clear_vote_countdown,
    clear_yes_no_vote, first_position, is_our_multi_vote, mark_multi_vote_runoff,
    multi_vote_snapshot, pending_snapshot, record_yes_no_choice, retain_selected_maps, screen,
    selected_maps, set_multi_vote_id, set_pending, set_screen, set_yes_no_result,
    take_vote_countdown, take_yes_no_vote, toggle_selected_map, yes_no_snapshot, ActiveYesNoVote,
    AdminState, PendingRoundChange, PendingVoteStart, Screen, ToggleResult, YesNoResult,
};

fn pending() -> PendingRoundChange {
    PendingRoundChange {
        map_id: 4,
        requested_by: 76561198000000001,
        display_name: "Dust II".to_string(),
        source: "admin".to_string(),
        requested: false,
    }
}

#[test]
fn screens_are_kept_per_player() {
    let mut s = AdminState::new();
    assert_eq!(screen(&s, 1), None);
    set_screen(&mut s, 1, Screen::VoteMaps { page: 2 });
    set_screen(&mut s, 2, Screen::Home);
    assert_eq!(screen(&s, 1), Some(Screen::VoteMaps { page: 2 }));
    clear_screen(&mut s, 1);
    assert_eq!(screen(&s, 1), None);
    assert_eq!(screen(&s, 2), Some(Screen::Home));
    clear_screens(&mut s);
    assert_eq!(screen(&s, 2), None);
}

#[test]
fn selection_toggles_and_limits() {
    let mut s = AdminState::new();
    assert_eq!(toggle_selected_map(&mut s, 0, 10, 2), ToggleResult::Added);
    assert_eq!(toggle_selected_map(&mut s, 0, 11, 2), ToggleResult::Added);
    assert_eq!(toggle_selected_map(&mut s, 0, 12, 2), ToggleResult::Full);
    assert_eq!(selected_maps(&s, 0), vec![10, 11]);
    assert_eq!(toggle_selected_map(&mut s, 0, 10, 2), ToggleResult::Removed);
    assert_eq!(selected_maps(&s, 0), vec![11]);
    assert_eq!(selected_maps(&s, 1), Vec::<i32>::new());
    assert_eq!(toggle_selected_map(&mut s, 1, 10, 0), ToggleResult::Full);
}

#[test]
fn toggling_a_map_twice_restores_the_selection() {
    let mut s = AdminState::new();
    toggle_selected_map(&mut s, 3, 1, 5);
    toggle_selected_map(&mut s, 3, 2, 5);
    toggle_selected_map(&mut s, 3, 7, 5);
    toggle_selected_map(&mut s, 3, 7, 5);
    assert_eq!(selected_maps(&s, 3), vec![1, 2]);
}

#[test]
fn retain_keeps_allowed_maps_in_order() {
    let mut s = AdminState::new();
    for id in [5, 6, 7, 8] {
        toggle_selected_map(&mut s, 0, id, 5);
    }
    retain_selected_maps(&mut s, 0, &[8, 6, 100]);
    assert_eq!(selected_maps(&s, 0), vec![6, 8]);
    clear_selection(&mut s, 0);
    assert_eq!(selected_maps(&s, 0), Vec::<i32>::new());
    toggle_selected_map(&mut s, 4, 1, 5);
    clear_selections(&mut s);
    assert_eq!(selected_maps(&s, 4), Vec::<i32>::new());
}

#[test]
fn first_position_finds_first_occurrence() {
    assert_eq!(first_position(&vec![3, 4, 3], 3), Some(0));
    assert_eq!(first_position(&vec![3, 4, 3], 4), Some(1));
    assert_eq!(first_position(&vec![3, 4, 3], 5), None);
}

#[test]
fn pending_change_is_claimed_once() {
    let mut s = AdminState::new();
    assert!(claim_pending_request(&mut s).is_none());
    assert!(!admin_pending_map_change(&s));
    set_pending(&mut s, pending());
    assert!(admin_pending_map_change(&s));
    let first = claim_pending_request(&mut s).unwrap();
    assert!(first.requested);
    assert_eq!(first.map_id, 4);
    assert_eq!(first.display_name, "Dust II");
    assert!(claim_pending_request(&mut s).is_none());
    assert!(pending_snapshot(&s).unwrap().requested);
    clear_pending(&mut s);
    assert!(pending_snapshot(&s).is_none());
}

#[test]
fn multi_vote_tracking() {
    let mut s = AdminState::new();
    assert!(!set_multi_vote_id(&mut s, 3));
    assert!(!admin_vote_active(&s));
    begin_multi_vote(&mut s, 1, 9, vec![1, 2, 3]);
    assert!(admin_vote_active(&s));
    assert!(!is_our_multi_vote(&s, 0));
    assert!(set_multi_vote_id(&mut s, 42));
    assert!(is_our_multi_vote(&s, 42));
    assert!(!is_our_multi_vote(&s, 41));
    assert!(!mark_multi_vote_runoff(&mut s, 41));
    assert!(mark_multi_vote_runoff(&mut s, 42));
    let snap = multi_vote_snapshot(&s).unwrap();
    assert!(snap.runoff_started);
    assert_eq!(snap.candidates, vec![1, 2, 3]);
    assert_eq!(snap.displaced_next_map_id, 9);
    clear_multi_vote(&mut s);
    assert!(multi_vote_snapshot(&s).is_none());
    assert!(!admin_vote_active(&s));
}

#[test]
fn yes_no_vote_tally() {
    let mut s = AdminState::new();
    assert!(!record_yes_no_choice(&mut s, 1, 0));
    assert!(begin_yes_no_vote(&mut s, ActiveYesNoVote::new(3, 7, "Mirage".to_string(), -1)));
    assert!(!begin_yes_no_vote(&mut s, ActiveYesNoVote::new(4, 7, "Nuke".to_string(), -1)));
    assert!(record_yes_no_choice(&mut s, 1, 0));
    assert!(record_yes_no_choice(&mut s, 2, 0));
    assert!(record_yes_no_choice(&mut s, 3, 1));
    assert!(!record_yes_no_choice(&mut s, 4, 2));
    assert!(!record_yes_no_choice(&mut s, -1, 0));
    // A player who changes their mind is counted once, with the latest choice.
    assert!(record_yes_no_choice(&mut s, 2, 1));
    let vote = yes_no_snapshot(&s).unwrap();
    assert_eq!(vote.map_id, 3);
    assert_eq!(
        vote.tracked_result(),
        YesNoResult { passed: false, total_votes: 3, yes_votes: 1, no_votes: 2 }
    );
    assert!(record_yes_no_choice(&mut s, 5, 0));
    assert!(record_yes_no_choice(&mut s, 6, 0));
    let result = yes_no_snapshot(&s).unwrap().tracked_result();
    assert_eq!(result, YesNoResult { passed: true, total_votes: 5, yes_votes: 3, no_votes: 2 });
    assert!(set_yes_no_result(&mut s, result));
    assert_eq!(yes_no_snapshot(&s).unwrap().result, Some(result));
    let taken = take_yes_no_vote(&mut s).unwrap();
    assert_eq!(taken.display_name, "Mirage");
    assert!(yes_no_snapshot(&s).is_none());
    assert!(!set_yes_no_result(&mut s, result));
    begin_yes_no_vote(&mut s, ActiveYesNoVote::new(4, 7, "Nuke".to_string(), -1));
    clear_yes_no_vote(&mut s);
    assert!(yes_no_snapshot(&s).is_none());
}

#[test]
fn tie_does_not_pass() {
    let mut vote = ActiveYesNoVote::new(1, 1, "A".to_string(), 0);
    assert_eq!(
        vote.tracked_result(),
        YesNoResult { passed: false, total_votes: 0, yes_votes: 0, no_votes: 0 }
    );
    vote.choices.insert(0, 0);
    vote.choices.insert(1, 1);
    assert_eq!(
        vote.tracked_result(),
        YesNoResult { passed: false, total_votes: 2, yes_votes: 1, no_votes: 1 }
    );
}

#[test]
fn vote_countdown_is_taken_by_its_timer() {
    let mut s = AdminState::new();
    let start = PendingVoteStart { timer_id: 8, slot: 1, requested_by: 2, candidates: vec![5, 6] };
    assert!(begin_vote_countdown(&mut s, start.clone()));
    assert!(!begin_vote_countdown(&mut s, start.clone()));
    assert!(admin_vote_active(&s));
    assert!(take_vote_countdown(&mut s, 9).is_none());
    let taken = take_vote_countdown(&mut s, 8).unwrap();
    assert_eq!(taken.candidates, vec![5, 6]);
    assert!(take_vote_countdown(&mut s, 8).is_none());
    assert_eq!(clear_vote_countdown(&mut s), None);
    begin_vote_countdown(&mut s, start);
    assert_eq!(clear_vote_countdown(&mut s), Some(8));
}

#[test]
fn clear_runtime_leaves_nothing_running() {
    let mut s = AdminState::new();
    set_screen(&mut s, 1, Screen::Home);
    toggle_selected_map(&mut s, 1, 3, 5);
    set_pending(&mut s, pending());
    begin_multi_vote(&mut s, 1, 2, vec![3]);
    begin_yes_no_vote(&mut s, ActiveYesNoVote::new(4, 7, "Nuke".to_string(), -1));
    begin_vote_countdown(&mut s, PendingVoteStart { timer_id: 1, slot: 1, requested_by: 1, candidates: vec![] });
    clear_runtime(&mut s);
    assert_eq!(screen(&s, 1), None);
    assert_eq!(selected_maps(&s, 1), Vec::<i32>::new());
    assert!(!admin_pending_map_change(&s));
    assert!(!admin_vote_active(&s));
}

#[test]
fn a_selection_never_repeats_or_overflows() {
    let mut s = AdminState::new();
    for id in [1, 2, 1, 3, 3, 4, 2, 5, 6, 1] {
        toggle_selected_map(&mut s, 0, id, 3);
        retain_selected_maps(&mut s, 0, &[1, 2, 3, 4, 5]);
        let sel = selected_maps(&s, 0);
        assert!(sel.len() <= 3);
        let mut sorted = sel.clone();
        sorted.sort_unstable();
        sorted.dedup();
        assert_eq!(sorted.len(), sel.len());
    }
}
