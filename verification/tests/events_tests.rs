use twitch_commands::action::Action;
use twitch_commands::action_bowl::ActionBowl;
use twitch_commands::app_config::AppConfig;
use twitch_commands::app_config::Mapping;
use twitch_commands::app_config::TwitchStreamConfig;
use twitch_commands::events::ChatAction;
use twitch_commands::events::ChatEvent;
use twitch_commands::events::ChatMessage;
use twitch_commands::twitch::bits_event;
use twitch_commands::twitch::reward_redeem_event;
use twitch_commands::twitch::sender_is_mod;
use twitch_commands::twitch::PingCommand;
use twitch_commands::twitch::TwitchConnectOptions;

fn message(name: &str, content: &str, is_mod: bool) -> ChatEvent {
    ChatEvent::Message(ChatMessage {
        name: name.to_string(),
        content: content.to_string(),
        is_mod,
    })
}

#[test]
fn describe_renders_messages_and_actions() {
    let m = message("ada", "hello", true);
    assert_eq!(m.describe(), "ada: hello - mod: true");
    let a = ChatEvent::Action(ChatAction {
        name: "bob".to_string(),
        action_id: "150".to_string(),
        action_name: "bits".to_string(),
    });
    assert_eq!(a.describe(), "bob: bits - 150");
}

#[test]
fn stop_command_requires_a_moderator_and_the_stop_text() {
    assert!(message("m", "!stop", true).is_stop_command());
    assert!(message("m", "!StOp", true).is_stop_command());
    assert!(!message("m", "!stop", false).is_stop_command());
    assert!(!message("m", "!stop now", true).is_stop_command());
    assert!(!ChatEvent::Action(ChatAction {
        name: "m".to_string(),
        action_id: "1".to_string(),
        action_name: "bits".to_string(),
    })
    .is_stop_command());
}

#[test]
fn sender_is_mod_reads_tag_and_badges() {
    assert!(sender_is_mod(Some("1".to_string()), &vec![]));
    assert!(!sender_is_mod(Some("0".to_string()), &vec![]));
    assert!(!sender_is_mod(None, &vec![]));
    assert!(sender_is_mod(
        None,
        &vec!["subscriber".to_string(), "broadcaster".to_string()]
    ));
    assert!(!sender_is_mod(None, &vec!["subscriber".to_string()]));
}

#[test]
fn ping_command_carries_the_ping_type() {
    assert_eq!(PingCommand::new()._type, "PING");
}

#[test]
fn connect_options_come_from_the_stream_config() {
    let options = TwitchConnectOptions::from(TwitchStreamConfig {
        user: "u".to_string(),
        token: "t".to_string(),
        channel: "c".to_string(),
        client_id: "i".to_string(),
    });
    assert_eq!(options.user, "u");
    assert_eq!(options.token, "t");
    assert_eq!(options.channel, "c");
    assert_eq!(options.client_id, "i");
}

#[test]
fn version_check_accepts_only_the_current_layout() {
    let config = AppConfig {
        version: "1.0".to_string(),
        file_log_level: "".to_string(),
        terminal_log_level: "".to_string(),
        twitch_stream: TwitchStreamConfig {
            user: "".to_string(),
            token: "".to_string(),
            channel: "".to_string(),
            client_id: "".to_string(),
        },
        mapping: Mapping { config: vec![] },
    };
    assert!(config.version_supported());
    let stale = AppConfig {
        version: "0.9".to_string(),
        ..config
    };
    assert!(!stale.version_supported());
}

#[test]
fn action_bowl_hands_actions_back_in_order() {
    let mut bowl = ActionBowl::new();
    assert_eq!(bowl.pick(), None);
    bowl.insert(Action::KeyRawDown(1));
    bowl.insert(Action::KeyRawUp(1));
    assert_eq!(bowl.pick(), Some(Action::KeyRawDown(1)));
    assert_eq!(bowl.pick(), Some(Action::KeyRawUp(1)));
    assert_eq!(bowl.pick(), None);
}

#[test]
fn channel_event_constructors_fill_the_routing_fields() {
    match bits_event("viewer".to_string(), 150) {
        ChatEvent::Action(a) => {
            assert_eq!(a.name, "viewer");
            assert_eq!(a.action_name, "bits");
            assert_eq!(a.action_id, "150");
        }
        _ => panic!("a bits event is an action event"),
    }
    match reward_redeem_event("viewer".to_string(), "hydrate".to_string()) {
        ChatEvent::Action(a) => {
            assert_eq!(a.name, "viewer");
            assert_eq!(a.action_name, "reward_redeem");
            assert_eq!(a.action_id, "hydrate");
        }
        _ => panic!("a reward event is an action event"),
    }
}
