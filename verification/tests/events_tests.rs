use admin_plugins::events::{
    register_commands, unregister_commands, CommandStep, chat_command_outcome, esp_command_outcome, register_events, unregister_events,
    EventHookError, HookMode, HookStep, ResultType,
};

fn args(words: &[&str]) -> Vec<String> {
    words.iter().map(|w| w.to_string()).collect()
}

#[test]
fn events_are_hooked_in_order() {
    match register_events(0, None) {
        HookStep::Hook { name, mode } => {
            assert_eq!(name, "player_spawn");
            assert_eq!(mode, HookMode::Post);
        }
        other => panic!("unexpected step {:?}", other),
    }
    match register_events(1, Some(EventHookError::Okay)) {
        HookStep::Hook { name, mode } => {
            assert_eq!(name, "player_death");
            assert_eq!(mode, HookMode::Post);
        }
        other => panic!("unexpected step {:?}", other),
    }
    assert!(matches!(register_events(2, Some(EventHookError::Okay)), HookStep::Done));
}

#[test]
fn a_refused_hook_undoes_and_names_the_event() {
    match register_events(1, Some(EventHookError::InvalidEvent)) {
        HookStep::UndoAndFail { message } => {
            assert_eq!(message, "failed to hook player_spawn: InvalidEvent")
        }
        other => panic!("unexpected step {:?}", other),
    }
    match register_events(2, Some(EventHookError::NotActive)) {
        HookStep::UndoAndFail { message } => {
            assert_eq!(message, "failed to hook player_death: NotActive")
        }
        other => panic!("unexpected step {:?}", other),
    }
    match register_events(2, Some(EventHookError::InvalidCallback)) {
        HookStep::UndoAndFail { message } => {
            assert_eq!(message, "failed to hook player_death: InvalidCallback")
        }
        other => panic!("unexpected step {:?}", other),
    }
}

#[test]
fn unhooking_lists_every_event() {
    assert_eq!(
        unregister_events(),
        vec![("player_spawn".to_string(), HookMode::Post), ("player_death".to_string(), HookMode::Post)]
    );
}

#[test]
fn console_command_answers() {
    assert_eq!(
        esp_command_outcome(-1),
        (Some("[ESP] Команда доступна только игрокам в игре"), false, ResultType::Handled)
    );
    assert_eq!(esp_command_outcome(0), (None, true, ResultType::Handled));
}

#[test]
fn chat_command_answers() {
    assert_eq!(chat_command_outcome(&args(&["say", "!ESP"])), (true, ResultType::Stop));
    assert_eq!(chat_command_outcome(&args(&["say", "hello"])), (false, ResultType::Continue));
    assert_eq!(chat_command_outcome(&args(&["say"])), (false, ResultType::Continue));
}

#[test]
fn commands_are_registered_in_order() {
    match register_commands(true, true, 0, None) {
        CommandStep::AddCommand { name, description, mode } => {
            assert_eq!(name, "rs_esp");
            assert_eq!(description, "Toggle administrator player-outline ESP");
            assert_eq!(mode, HookMode::Post);
        }
        other => panic!("unexpected step {:?}", other),
    }
    match register_commands(true, true, 1, Some(true)) {
        CommandStep::AddListener { name, mode } => {
            assert_eq!(name, "say");
            assert_eq!(mode, HookMode::Pre);
        }
        other => panic!("unexpected step {:?}", other),
    }
    match register_commands(true, true, 2, Some(true)) {
        CommandStep::AddListener { name, .. } => assert_eq!(name, "say_team"),
        other => panic!("unexpected step {:?}", other),
    }
    assert!(matches!(register_commands(true, true, 3, Some(true)), CommandStep::Done));
}

#[test]
fn command_registration_failures() {
    match register_commands(false, true, 0, None) {
        CommandStep::Fail { message } => assert_eq!(message, "S2SDK AddConsoleCommand is not linked"),
        other => panic!("unexpected step {:?}", other),
    }
    match register_commands(true, false, 0, None) {
        CommandStep::Fail { message } => assert_eq!(message, "S2SDK AddCommandListener is not linked"),
        other => panic!("unexpected step {:?}", other),
    }
    match register_commands(true, true, 1, Some(false)) {
        CommandStep::Fail { message } => assert_eq!(message, "failed to register command rs_esp"),
        other => panic!("unexpected step {:?}", other),
    }
    match register_commands(true, true, 2, Some(false)) {
        CommandStep::UndoAndFail { message } => {
            assert_eq!(message, "failed to register command listener say")
        }
        other => panic!("unexpected step {:?}", other),
    }
    match register_commands(true, true, 3, Some(false)) {
        CommandStep::UndoAndFail { message } => {
            assert_eq!(message, "failed to register command listener say_team")
        }
        other => panic!("unexpected step {:?}", other),
    }
}

#[test]
fn unregistering_lists_the_command_and_listeners() {
    let (command, listeners) = unregister_commands();
    assert_eq!(command, "rs_esp");
    assert_eq!(listeners, vec![("say".to_string(), HookMode::Pre), ("say_team".to_string(), HookMode::Pre)]);
}
