use admin_plugins::esp::{follow_input, link_targets, spawn_plan};
use admin_plugins::esp::{observe_target, remove_all_when_unwatched};
use admin_plugins::esp::{
    advance_glow_pair, chat_message, check_dependencies, clear_client, create_glow_pair,
    enabled_viewers, esp_chat_trigger, glow_spawn_values, glows_hidden_from, has_published_entities,
    hash_model, is_dead_or_spectator, plan_target, publish_glow_pair, published_entities,
    recompute_active_viewers, relay_spawn_values, request_remove_all_entities,
    request_remove_target_entities, reset_all, slot_bit, team_value, toggle, toggle_message,
    valid_human_viewer, valid_pair, valid_target, CSTeam, EspState, EspToggle, GlowPairReport,
    GlowPairStage, GlowPairStep, SpawnValue, TargetObservation, TargetPlan, ViewerCheck,
    INVALID_ENTITY_HANDLE,
};
use admin_plugins::esp_config::Color;
use std::collections::hash_map::DefaultHasher;
use std::hash::{Hash, Hasher};

const CT: Color = Color { red: 73, green: 104, blue: 247 };
const T: Color = Color { red: 226, green: 173, blue: 54 };

fn admin() -> ViewerCheck {
    ViewerCheck { human_viewer: true, always_access: true, observer_access: false, dead_or_spectator: false }
}

fn observer(dead: bool) -> ViewerCheck {
    ViewerCheck { human_viewer: true, always_access: false, observer_access: true, dead_or_spectator: dead }
}

fn nobody() -> ViewerCheck {
    ViewerCheck { human_viewer: true, always_access: false, observer_access: false, dead_or_spectator: true }
}

fn bot() -> ViewerCheck {
    ViewerCheck { human_viewer: false, always_access: true, observer_access: true, dead_or_spectator: true }
}

fn args(words: &[&str]) -> Vec<String> {
    words.iter().map(|w| w.to_string()).collect()
}

fn present(pawn: i32, team: CSTeam, model: u64) -> TargetObservation {
    TargetObservation::Present { pawn_handle: pawn, team, model_hash: model, pair_valid: true }
}

#[test]
fn slot_bit_rejects_out_of_range_slots() {
    assert_eq!(slot_bit(-1), 0);
    assert_eq!(slot_bit(64), 0);
    assert_eq!(slot_bit(0), 1);
    assert_eq!(slot_bit(63), 1_u64 << 63);
}

#[test]
fn slot_bits_are_powers_of_two() {
    assert_eq!(slot_bit(5), 32);
    assert_eq!(slot_bit(i32::MIN), 0);
}

#[test]
fn toggle_outcomes() {
    let mut s = EspState::new();
    assert_eq!(toggle(&mut s, 3, true, bot()), EspToggle::Ignored);
    assert_eq!(enabled_viewers(&s), 0);
    assert_eq!(toggle(&mut s, 3, false, admin()), EspToggle::NoAccess);
    assert_eq!(toggle(&mut s, 3, true, nobody()), EspToggle::NoAccess);
    assert_eq!(toggle(&mut s, 3, true, observer(false)), EspToggle::ObserverOnly);
    assert_eq!(enabled_viewers(&s), 0);
    assert_eq!(toggle(&mut s, 3, true, observer(true)), EspToggle::Enabled);
    assert_eq!(enabled_viewers(&s), 8);
    assert_eq!(toggle(&mut s, 3, true, nobody()), EspToggle::Disabled);
    assert_eq!(enabled_viewers(&s), 0);
}

#[test]
fn toggling_twice_restores_the_state() {
    let mut s = EspState::new();
    assert_eq!(toggle(&mut s, 1, true, admin()), EspToggle::Enabled);
    let before = enabled_viewers(&s);
    assert_eq!(toggle(&mut s, 7, true, admin()), EspToggle::Enabled);
    assert_eq!(toggle(&mut s, 7, true, admin()), EspToggle::Disabled);
    assert_eq!(enabled_viewers(&s), before);
    assert_eq!(enabled_viewers(&s), 2);
}

#[test]
fn toggle_messages() {
    assert_eq!(toggle_message(EspToggle::Ignored), None);
    assert_eq!(
        toggle_message(EspToggle::Enabled),
        Some(" {GREEN}[ESP]{DEFAULT} Вы успешно {GREEN}включили{DEFAULT} ESP")
    );
    assert_eq!(
        toggle_message(EspToggle::Disabled),
        Some(" {RED}[ESP]{DEFAULT} Вы успешно {RED}выключили{DEFAULT} ESP")
    );
    assert_eq!(toggle_message(EspToggle::NoAccess), Some(" {RED}[ESP]{DEFAULT} У вас нет доступа к ESP"));
    assert!(toggle_message(EspToggle::ObserverOnly).unwrap().contains("только после смерти"));
}

#[test]
fn target_and_viewer_predicates() {
    assert!(valid_target(true, true, CSTeam::CT));
    assert!(!valid_target(true, true, CSTeam::Spectator));
    assert!(!valid_target(true, false, CSTeam::T));
    assert!(!valid_target(false, true, CSTeam::T));
    assert!(valid_human_viewer(0, true, false));
    assert!(!valid_human_viewer(64, true, false));
    assert!(!valid_human_viewer(2, true, true));
    assert!(is_dead_or_spectator(CSTeam::Spectator, true));
    assert!(is_dead_or_spectator(CSTeam::T, false));
    assert!(!is_dead_or_spectator(CSTeam::CT, true));
    assert!(!is_dead_or_spectator(CSTeam::Unassigned, false));
    assert_eq!(team_value(CSTeam::Unassigned), 0);
    assert_eq!(team_value(CSTeam::Spectator), 1);
    assert_eq!(team_value(CSTeam::T), 2);
    assert_eq!(team_value(CSTeam::CT), 3);
}

#[test]
fn recompute_drops_viewers_who_lost_access() {
    let mut s = EspState::new();
    assert_eq!(toggle(&mut s, 0, true, admin()), EspToggle::Enabled);
    assert_eq!(toggle(&mut s, 1, true, observer(true)), EspToggle::Enabled);
    assert_eq!(toggle(&mut s, 2, true, admin()), EspToggle::Enabled);
    assert_eq!(toggle(&mut s, 10, true, admin()), EspToggle::Enabled);
    let checks = vec![admin(), observer(false), nobody(), admin()];
    recompute_active_viewers(&mut s, 4, &checks);
    // slot 2 lost access; slot 10 lies beyond the client limit and is kept.
    assert_eq!(enabled_viewers(&s), 1 | 2 | (1 << 10));
}

fn published_state() -> EspState {
    let mut s = EspState::new();
    publish_glow_pair(&mut s, 1, 100, 101, 11, CSTeam::CT, 7);
    publish_glow_pair(&mut s, 2, 200, 201, 12, CSTeam::T, 8);
    s
}

#[test]
fn hidden_glows_depend_on_the_viewer() {
    let mut s = published_state();
    // Nobody sees outlines: every published glow is hidden.
    assert_eq!(glows_hidden_from(&s, 1), vec![100, 200]);
    assert_eq!(glows_hidden_from(&s, 5), vec![100, 200]);
    assert_eq!(toggle(&mut s, 1, true, admin()), EspToggle::Enabled);
    // An active viewer does not see its own glow only.
    assert_eq!(glows_hidden_from(&s, 1), vec![100]);
    assert_eq!(glows_hidden_from(&s, 5), vec![100, 200]);
    assert_eq!(glows_hidden_from(&s, -3), vec![100, 200]);
    assert_eq!(glows_hidden_from(&EspState::new(), 1), Vec::<i32>::new());
}

#[test]
fn recompute_turns_observers_on_and_off() {
    let mut s = published_state();
    assert_eq!(toggle(&mut s, 4, true, observer(true)), EspToggle::Enabled);
    assert_eq!(glows_hidden_from(&s, 4), Vec::<i32>::new());
    let mut checks = vec![nobody(); 5];
    checks[4] = observer(false);
    recompute_active_viewers(&mut s, 5, &checks);
    assert_eq!(enabled_viewers(&s), 1 << 4);
    assert_eq!(glows_hidden_from(&s, 4), vec![100, 200]);
    checks[4] = observer(true);
    recompute_active_viewers(&mut s, 5, &checks);
    assert_eq!(glows_hidden_from(&s, 4), Vec::<i32>::new());
}

#[test]
fn removing_a_target_hands_back_its_entities() {
    let mut s = published_state();
    assert!(has_published_entities(&s, 1));
    assert_eq!(published_entities(&s, 1), (100, 101));
    assert_eq!(request_remove_target_entities(&mut s, 1), vec![100, 101]);
    assert!(!has_published_entities(&s, 1));
    assert_eq!(published_entities(&s, 1), (INVALID_ENTITY_HANDLE, INVALID_ENTITY_HANDLE));
    assert_eq!(request_remove_target_entities(&mut s, 1), Vec::<i32>::new());
    assert_eq!(request_remove_target_entities(&mut s, 99), Vec::<i32>::new());
    assert_eq!(glows_hidden_from(&s, 0), vec![200]);
}

#[test]
fn reset_all_forgets_everything() {
    let mut s = published_state();
    assert_eq!(toggle(&mut s, 2, true, admin()), EspToggle::Enabled);
    assert_eq!(reset_all(&mut s), vec![100, 101, 200, 201]);
    assert_eq!(enabled_viewers(&s), 0);
    assert!(!has_published_entities(&s, 1));
    assert!(!has_published_entities(&s, 2));
    assert_eq!(glows_hidden_from(&s, 2), Vec::<i32>::new());
    assert_eq!(reset_all(&mut s), Vec::<i32>::new());
}

#[test]
fn remove_all_keeps_viewers() {
    let mut s = published_state();
    assert_eq!(toggle(&mut s, 2, true, admin()), EspToggle::Enabled);
    assert_eq!(request_remove_all_entities(&mut s), vec![100, 101, 200, 201]);
    assert_eq!(enabled_viewers(&s), 4);
}

#[test]
fn clear_client_stops_viewing_and_unpublishes() {
    let mut s = published_state();
    assert_eq!(toggle(&mut s, 2, true, admin()), EspToggle::Enabled);
    assert_eq!(clear_client(&mut s, 2), vec![200, 201]);
    assert_eq!(enabled_viewers(&s), 0);
    assert_eq!(glows_hidden_from(&s, 2), vec![100]);
    assert_eq!(clear_client(&mut s, 70), Vec::<i32>::new());
}

#[test]
fn plan_target_reconciles_one_slot() {
    let mut s = published_state();
    assert!(matches!(plan_target(&mut s, 1, 10, present(11, CSTeam::CT, 7), CT, T), TargetPlan::Keep));
    assert!(valid_pair(&s, 1, true, true));
    assert!(!valid_pair(&s, 1, false, true));
    // The target changed team: its pair is removed first.
    match plan_target(&mut s, 1, 10, present(11, CSTeam::T, 7), CT, T) {
        TargetPlan::Remove(e) => assert_eq!(e, vec![100, 101]),
        other => panic!("unexpected plan {:?}", other),
    }
    match plan_target(&mut s, 1, 10, present(11, CSTeam::T, 7), CT, T) {
        TargetPlan::Create(c) => assert_eq!(c, T),
        other => panic!("unexpected plan {:?}", other),
    }
    match plan_target(&mut s, 5, 10, present(15, CSTeam::CT, 1), CT, T) {
        TargetPlan::Create(c) => assert_eq!(c, CT),
        other => panic!("unexpected plan {:?}", other),
    }
    assert!(matches!(
        plan_target(&mut s, 5, 10, present(15, CSTeam::Spectator, 1), CT, T),
        TargetPlan::Skip
    ));
    // Beyond the client limit, or gone: unpublished.
    match plan_target(&mut s, 2, 2, present(12, CSTeam::T, 8), CT, T) {
        TargetPlan::Remove(e) => assert_eq!(e, vec![200, 201]),
        other => panic!("unexpected plan {:?}", other),
    }
    match plan_target(&mut s, 2, 10, TargetObservation::Gone, CT, T) {
        TargetPlan::Remove(e) => assert!(e.is_empty()),
        other => panic!("unexpected plan {:?}", other),
    }
    // A pair the engine no longer knows is replaced.
    let mut s = published_state();
    let stale = TargetObservation::Present {
        pawn_handle: 12,
        team: CSTeam::T,
        model_hash: 8,
        pair_valid: false,
    };
    match plan_target(&mut s, 2, 10, stale, CT, T) {
        TargetPlan::Remove(e) => assert_eq!(e, vec![200, 201]),
        other => panic!("unexpected plan {:?}", other),
    }
}

#[test]
fn glow_pair_creation_succeeds() {
    let (stage, step) = create_glow_pair();
    assert_eq!(stage, GlowPairStage::CreateGlow);
    assert!(matches!(step, GlowPairStep::CreateEntity));
    let (stage, step) = advance_glow_pair(stage, GlowPairReport::Created { handle: 40, valid: true });
    assert_eq!(stage, Some(GlowPairStage::CreateRelay { glow: 40 }));
    assert!(matches!(step, GlowPairStep::CreateEntity));
    let (stage, step) =
        advance_glow_pair(stage.unwrap(), GlowPairReport::Created { handle: 41, valid: true });
    assert_eq!(stage, Some(GlowPairStage::Spawned { glow: 40, relay: 41 }));
    assert!(matches!(step, GlowPairStep::SpawnBoth { glow: 40, relay: 41 }));
    let (stage, step) = advance_glow_pair(
        stage.unwrap(),
        GlowPairReport::Checked { glow_valid: true, relay_valid: true },
    );
    assert_eq!(stage, Some(GlowPairStage::Linked { glow: 40, relay: 41 }));
    assert!(matches!(step, GlowPairStep::LinkBoth { glow: 40, relay: 41 }));
    let (stage, step) = advance_glow_pair(
        stage.unwrap(),
        GlowPairReport::Checked { glow_valid: true, relay_valid: true },
    );
    assert_eq!(stage, None);
    assert!(matches!(step, GlowPairStep::Done { glow: 40, relay: 41 }));
}

#[test]
fn glow_pair_creation_fails_and_cleans_up() {
    let (_, step) = advance_glow_pair(
        GlowPairStage::CreateGlow,
        GlowPairReport::Created { handle: INVALID_ENTITY_HANDLE, valid: true },
    );
    match step {
        GlowPairStep::Failed { remove, message } => {
            assert!(remove.is_empty());
            assert_eq!(message, "failed to create glow prop_dynamic");
        }
        other => panic!("unexpected step {:?}", other),
    }
    let (stage, step) = advance_glow_pair(
        GlowPairStage::CreateRelay { glow: 40 },
        GlowPairReport::Created { handle: 41, valid: false },
    );
    assert_eq!(stage, None);
    match step {
        GlowPairStep::Failed { remove, message } => {
            assert_eq!(remove, vec![40]);
            assert_eq!(message, "failed to create relay prop_dynamic");
        }
        other => panic!("unexpected step {:?}", other),
    }
    let (_, step) = advance_glow_pair(
        GlowPairStage::Spawned { glow: 40, relay: 41 },
        GlowPairReport::Checked { glow_valid: true, relay_valid: false },
    );
    match step {
        GlowPairStep::Failed { remove, message } => {
            assert_eq!(remove, vec![40, 41]);
            assert_eq!(message, "glow pair became invalid during DispatchSpawn2");
        }
        other => panic!("unexpected step {:?}", other),
    }
    let (_, step) = advance_glow_pair(
        GlowPairStage::Linked { glow: 40, relay: 41 },
        GlowPairReport::Checked { glow_valid: false, relay_valid: true },
    );
    match step {
        GlowPairStep::Failed { remove, message } => {
            assert_eq!(remove, vec![40, 41]);
            assert_eq!(message, "glow pair became invalid while linking FollowEntity");
        }
        other => panic!("unexpected step {:?}", other),
    }
}

fn text(v: &SpawnValue) -> Option<&str> {
    match v {
        SpawnValue::Text(s) => Some(s.as_str()),
        _ => None,
    }
}

#[test]
fn spawn_key_values() {
    let glow = glow_spawn_values("models/a.vmdl", "73 104 247 255".to_string());
    let keys: Vec<&str> = glow.iter().map(|(k, _)| k.as_str()).collect();
    assert_eq!(
        keys,
        vec![
            "model", "spawnflags", "glowcolor", "glowrange", "glowrangemin", "glowteam", "glowtype",
            "glowstate", "renderamt"
        ]
    );
    assert_eq!(text(&glow[0].1), Some("models/a.vmdl"));
    assert!(matches!(glow[1].1, SpawnValue::Int64(256)));
    assert_eq!(text(&glow[2].1), Some("73 104 247 255"));
    assert!(matches!(glow[3].1, SpawnValue::Int32(5000)));
    assert!(matches!(glow[4].1, SpawnValue::Int32(-1000)));
    assert!(matches!(glow[5].1, SpawnValue::Int32(-1)));
    assert!(matches!(glow[6].1, SpawnValue::Int32(2)));
    assert!(matches!(glow[7].1, SpawnValue::Int32(3)));
    assert!(matches!(glow[8].1, SpawnValue::Int32(1)));
    let relay = relay_spawn_values("models/a.vmdl");
    assert_eq!(relay.len(), 3);
    assert_eq!(relay[2].0, "rendermode");
    assert!(matches!(relay[2].1, SpawnValue::Int32(2)));
}

#[test]
fn chat_messages_are_trimmed_unquoted_and_lowercased() {
    assert_eq!(chat_message(&args(&["say"])), None);
    assert_eq!(chat_message(&args(&["say", "\"  !ESP \""])), Some("!esp".to_string()));
    assert_eq!(chat_message(&args(&["say", "hello", "World"])), Some("hello world".to_string()));
    assert_eq!(chat_message(&args(&["say", " \"\" "])), None);
    assert!(esp_chat_trigger(&args(&["say", "!esp"])));
    assert!(esp_chat_trigger(&args(&["say_team", "\"/ESP\""])));
    assert!(!esp_chat_trigger(&args(&["say", "!esp", "now"])));
    assert!(!esp_chat_trigger(&args(&["say"])));
}

#[test]
fn model_hash_matches_std_hashing() {
    for model in ["", "characters/models/ctm_sas/ctm_sas.vmdl", "ü"] {
        let mut hasher = DefaultHasher::new();
        model.hash(&mut hasher);
        assert_eq!(hash_model(model), hasher.finish());
    }
    assert_ne!(hash_model("a"), hash_model("b"));
}

#[test]
fn dependency_check() {
    assert_eq!(
        check_dependencies(false, &vec![true]).unwrap_err(),
        "RustAdmin AdminCheckAccess binding is unavailable"
    );
    assert_eq!(
        check_dependencies(true, &vec![true, false, true]).unwrap_err(),
        "S2SDK bindings required by RustAdminESP are incomplete"
    );
    assert!(check_dependencies(true, &vec![true, true]).is_ok());
}

#[test]
fn observing_a_target_trims_and_hashes_its_model() {
    match observe_target(12, CSTeam::T, "  models/t.vmdl\n", true) {
        TargetObservation::Present { pawn_handle, team, model_hash, pair_valid } => {
            assert_eq!(pawn_handle, 12);
            assert_eq!(team, CSTeam::T);
            assert_eq!(model_hash, hash_model("models/t.vmdl"));
            assert!(pair_valid);
        }
        other => panic!("unexpected observation {:?}", other),
    }
    assert!(matches!(observe_target(12, CSTeam::T, "   ", true), TargetObservation::Gone));
}

#[test]
fn unwatched_targets_are_all_removed() {
    let mut s = published_state();
    assert_eq!(remove_all_when_unwatched(&mut s), Some(vec![100, 101, 200, 201]));
    assert!(!has_published_entities(&s, 1));
    let mut s = published_state();
    assert_eq!(toggle(&mut s, 3, true, admin()), EspToggle::Enabled);
    assert_eq!(remove_all_when_unwatched(&mut s), None);
    assert!(has_published_entities(&s, 1));
}

#[test]
fn toggling_outside_the_slot_range_is_ignored() {
    let mut s = EspState::new();
    assert_eq!(toggle(&mut s, 70, true, admin()), EspToggle::Ignored);
    assert_eq!(toggle(&mut s, -1, true, admin()), EspToggle::Ignored);
    assert_eq!(enabled_viewers(&s), 0);
}

#[test]
fn spawned_pairs_are_linked_relay_to_pawn_and_glow_to_relay() {
    let plan = spawn_plan(40, 41, "models/a.vmdl", "1 2 3 255".to_string());
    assert_eq!(plan.len(), 2);
    assert_eq!(plan[0].0, 40);
    assert_eq!(plan[0].1.len(), 9);
    assert_eq!(plan[0].1[2].0, "glowcolor");
    assert_eq!(plan[1].0, 41);
    assert_eq!(plan[1].1.len(), 3);
    assert_eq!(plan[1].1[2].0, "rendermode");
    assert_eq!(link_targets(40, 41, 7), vec![(41, 7), (40, 41)]);
    assert_eq!(follow_input(), ("FollowEntity", "!activator", ""));
}
