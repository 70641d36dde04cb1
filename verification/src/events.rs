//! Hooking the game events the ESP listens to, and what its console and chat
//! commands answer to the engine.
use crate::esp::esp_chat_trigger;
use vstd::prelude::*;

verus! {

/// When an event hook runs.
#[derive(Clone, Copy, Debug, PartialEq, Eq, Structural)]
pub enum HookMode {
    Pre,
    Post,
}

/// What the engine answers to a request to hook an event.
#[derive(Clone, Copy, Debug, PartialEq, Eq, Structural)]
pub enum EventHookError {
    Okay,
    InvalidEvent,
    NotActive,
    InvalidCallback,
}

/// What a command or event handler tells the engine to do next.
#[derive(Clone, Copy, Debug, PartialEq, Eq, Structural)]
pub enum ResultType {
    Continue,
    Changed,
    Handled,
    Stop,
}

/// The events whose players lose their outline: a respawned or dead player
/// gets a new glow pair on the next reconciliation.
pub open spec fn hooked_events() -> Seq<Seq<char>> {
    seq!["player_spawn"@, "player_death"@]
}

/// The name of an engine answer, as it is reported.
pub open spec fn hook_error_name(e: EventHookError) -> Seq<char> {
    match e {
        EventHookError::Okay => "Okay"@,
        EventHookError::InvalidEvent => "InvalidEvent"@,
        EventHookError::NotActive => "NotActive"@,
        EventHookError::InvalidCallback => "InvalidCallback"@,
    }
}

fn hook_error_text(e: EventHookError) -> (r: &'static str)
    ensures
        r@ == hook_error_name(e),
{
    match e {
        EventHookError::Okay => "Okay",
        EventHookError::InvalidEvent => "InvalidEvent",
        EventHookError::NotActive => "NotActive",
        EventHookError::InvalidCallback => "InvalidCallback",
    }
}

/// The next thing to do while hooking the events.
#[derive(Debug)]
pub enum HookStep {
    /// Hook this event with this mode and report the engine's answer.
    Hook { name: String, mode: HookMode },
    /// Unhook every event and fail with this message.
    UndoAndFail { message: String },
    /// All events are hooked.
    Done,
}

/// The abstract form of a step.
pub enum HookStepView {
    Hook(Seq<char>, HookMode),
    UndoAndFail(Seq<char>),
    Done,
}

pub open spec fn hook_step_view(s: HookStep) -> HookStepView {
    match s {
        HookStep::Hook { name, mode } => HookStepView::Hook(name@, mode),
        HookStep::UndoAndFail { message } => HookStepView::UndoAndFail(message@),
        HookStep::Done => HookStepView::Done,
    }
}

/// What follows once `hooked` events were hooked in order, the last one
/// answered with `last` (`None` before the first).
pub open spec fn next_hook_step(hooked: nat, last: Option<EventHookError>) -> HookStepView {
    match last {
        Some(e) if e != EventHookError::Okay => HookStepView::UndoAndFail(
            "failed to hook "@ + hooked_events()[hooked - 1] + ": "@ + hook_error_name(e),
        ),
        _ => if hooked < hooked_events().len() {
            HookStepView::Hook(hooked_events()[hooked as int], HookMode::Post)
        } else {
            HookStepView::Done
        },
    }
}

/// Hooks the events one after the other, after each hook given the engine's
/// answer: the first refusal undoes everything and fails naming the event.
pub fn register_events(hooked: usize, last: Option<EventHookError>) -> (r: HookStep)
    requires
        hooked <= 2,
        last is None <==> hooked == 0,
    ensures
        hook_step_view(r) == next_hook_step(hooked as nat, last),
{
    proof {
        reveal_strlit("player_spawn");
        reveal_strlit("player_death");
    }
    match last {
        Some(e) => {
            if e != EventHookError::Okay {
                let mut message = String::from_str("failed to hook ");
                if hooked == 1 {
                    message.append("player_spawn");
                } else {
                    message.append("player_death");
                }
                message.append(": ");
                message.append(hook_error_text(e));
                return HookStep::UndoAndFail { message };
            }
        },
        None => {},
    }
    if hooked == 0 {
        HookStep::Hook { name: String::from_str("player_spawn"), mode: HookMode::Post }
    } else if hooked == 1 {
        HookStep::Hook { name: String::from_str("player_death"), mode: HookMode::Post }
    } else {
        HookStep::Done
    }
}

/// The event hooks to remove: every hooked event with its mode.
pub fn unregister_events() -> (r: Vec<(String, HookMode)>)
    ensures
        r@.len() == hooked_events().len(),
        forall|i: int| 0 <= i < r@.len() ==> #[trigger] r@[i].0@ == hooked_events()[i] && r@[i].1 == HookMode::Post,
{
    let mut r: Vec<(String, HookMode)> = Vec::new();
    r.push((String::from_str("player_spawn"), HookMode::Post));
    r.push((String::from_str("player_death"), HookMode::Post));
    r
}

/// The next thing to do while registering the ESP commands.
#[derive(Debug)]
pub enum CommandStep {
    /// Register the console command `name` with this mode and report whether it was accepted.
    AddCommand { name: String, description: String, mode: HookMode },
    /// Listen to the chat command `name` with this mode and report whether it was accepted.
    AddListener { name: String, mode: HookMode },
    /// Fail with this message; nothing needs undoing.
    Fail { message: String },
    /// Remove the command and its listeners, then fail with this message.
    UndoAndFail { message: String },
    /// The command and its listeners are registered.
    Done,
}

/// The abstract form of a command step.
pub enum CommandStepView {
    AddCommand(Seq<char>, Seq<char>, HookMode),
    AddListener(Seq<char>, HookMode),
    Fail(Seq<char>),
    UndoAndFail(Seq<char>),
    Done,
}

pub open spec fn command_step_view(s: CommandStep) -> CommandStepView {
    match s {
        CommandStep::AddCommand { name, description, mode } => CommandStepView::AddCommand(
            name@,
            description@,
            mode,
        ),
        CommandStep::AddListener { name, mode } => CommandStepView::AddListener(name@, mode),
        CommandStep::Fail { message } => CommandStepView::Fail(message@),
        CommandStep::UndoAndFail { message } => CommandStepView::UndoAndFail(message@),
        CommandStep::Done => CommandStepView::Done,
    }
}

/// The chat commands the ESP listens to.
pub open spec fn chat_listeners() -> Seq<Seq<char>> {
    seq!["say"@, "say_team"@]
}

/// What follows once `done` registrations were made in order, the last one
/// answered with `last` (`None` before the first); `add_command_linked` and
/// `add_listener_linked` tell whether the engine offers the two registrations.
pub open spec fn next_command_step(
    add_command_linked: bool,
    add_listener_linked: bool,
    done: nat,
    last: Option<bool>,
) -> CommandStepView {
    if done == 0 {
        if !add_command_linked {
            CommandStepView::Fail("S2SDK AddConsoleCommand is not linked"@)
        } else if !add_listener_linked {
            CommandStepView::Fail("S2SDK AddCommandListener is not linked"@)
        } else {
            CommandStepView::AddCommand(
                "rs_esp"@,
                "Toggle administrator player-outline ESP"@,
                HookMode::Post,
            )
        }
    } else if last == Some(false) {
        if done == 1 {
            CommandStepView::Fail("failed to register command rs_esp"@)
        } else {
            CommandStepView::UndoAndFail(
                "failed to register command listener "@ + chat_listeners()[done - 2],
            )
        }
    } else if done < 3 {
        CommandStepView::AddListener(chat_listeners()[done - 1], HookMode::Pre)
    } else {
        CommandStepView::Done
    }
}

/// Registers the ESP console command, then a listener for each chat command,
/// after each registration given the engine's answer: a refused command
/// fails, a refused listener removes everything registered and fails.
pub fn register_commands(
    add_command_linked: bool,
    add_listener_linked: bool,
    done: usize,
    last: Option<bool>,
) -> (r: CommandStep)
    requires
        done <= 3,
        last is None <==> done == 0,
    ensures
        command_step_view(r) == next_command_step(add_command_linked, add_listener_linked, done as nat, last),
{
    proof {
        reveal_strlit("say");
        reveal_strlit("say_team");
    }
    if done == 0 {
        if !add_command_linked {
            return CommandStep::Fail { message: String::from_str("S2SDK AddConsoleCommand is not linked") };
        }
        if !add_listener_linked {
            return CommandStep::Fail { message: String::from_str("S2SDK AddCommandListener is not linked") };
        }
        return CommandStep::AddCommand {
            name: String::from_str("rs_esp"),
            description: String::from_str("Toggle administrator player-outline ESP"),
            mode: HookMode::Post,
        };
    }
    if last == Some(false) {
        if done == 1 {
            return CommandStep::Fail { message: String::from_str("failed to register command rs_esp") };
        }
        let mut message = String::from_str("failed to register command listener ");
        if done == 2 {
            message.append("say");
        } else {
            message.append("say_team");
        }
        return CommandStep::UndoAndFail { message };
    }
    if done == 1 {
        CommandStep::AddListener { name: String::from_str("say"), mode: HookMode::Pre }
    } else if done == 2 {
        CommandStep::AddListener { name: String::from_str("say_team"), mode: HookMode::Pre }
    } else {
        CommandStep::Done
    }
}

/// The registrations to remove: the console command, then each chat listener with its mode.
pub fn unregister_commands() -> (r: (String, Vec<(String, HookMode)>))
    ensures
        r.0@ == "rs_esp"@,
        r.1@.len() == chat_listeners().len(),
        forall|i: int| 0 <= i < r.1@.len() ==> #[trigger] r.1@[i].0@ == chat_listeners()[i] && r.1@[i].1 == HookMode::Pre,
{
    let mut listeners: Vec<(String, HookMode)> = Vec::new();
    listeners.push((String::from_str("say"), HookMode::Pre));
    listeners.push((String::from_str("say_team"), HookMode::Pre));
    (String::from_str("rs_esp"), listeners)
}

pub open spec fn msg_player_only() -> Seq<char> {
    "[ESP] Команда доступна только игрокам в игре"@
}

/// The answer to the ESP console command: a slot below 0 (the server
/// console) is told that the command is for players; a player's ESP is
/// toggled (`true`). Either way the command is handled.
pub fn esp_command_outcome(player_slot: i32) -> (r: (Option<&'static str>, bool, ResultType))
    ensures
        player_slot < 0 ==> (r.0 matches Some(m) && m@ == msg_player_only()) && !r.1,
        player_slot >= 0 ==> r.0 is None && r.1,
        r.2 == ResultType::Handled,
{
    if player_slot < 0 {
        return (Some("[ESP] Команда доступна только игрокам в игре"), false, ResultType::Handled);
    }
    (None, true, ResultType::Handled)
}

/// The answer to a chat message: `!esp` or `/esp` toggles the ESP (`true`)
/// and stops the message; anything else passes on.
pub fn chat_command_outcome(args: &Vec<String>) -> (r: (bool, ResultType))
    ensures
        r.0 == (crate::esp::chat_text(crate::esp::strings_view(args@)) == Some("!esp"@)
            || crate::esp::chat_text(crate::esp::strings_view(args@)) == Some("/esp"@)),
        r.1 == (if r.0 {
            ResultType::Stop
        } else {
            ResultType::Continue
        }),
{
    if esp_chat_trigger(args) {
        (true, ResultType::Stop)
    } else {
        (false, ResultType::Continue)
    }
}

} // verus!
