use twitch_commands::action::Action;
use twitch_commands::action::ActionCategory;
use twitch_commands::action::ActionContainer;
use twitch_commands::action::ActionLocker;
use twitch_commands::app_config::Mapping;
use twitch_commands::app_config::MappingConfig;
use twitch_commands::configurable_event_to_action::event_to_action;
use twitch_commands::configurable_event_to_action::ConfigActionOption;
use twitch_commands::configurable_event_to_action::ConfigOption;
use twitch_commands::configurable_event_to_action::Comparison;
use twitch_commands::configurable_event_to_action::Configuration;
use twitch_commands::configurable_event_to_action::ConfigurableEventToAction;
use twitch_commands::event_to_action::EventToAction;
use twitch_commands::events::ChatEvent;
use twitch_commands::events::ChatMessage;

fn uncategorized(action: Action) -> ActionCategory {
    ActionCategory::Uncategorized(ActionContainer {
        action,
        pause_on: ActionLocker::Unlocked,
    })
}

fn with_category(name: &str, action: Action) -> ActionCategory {
    ActionCategory::WithCategory(
        name.to_string(),
        ActionContainer {
            action,
            pause_on: ActionLocker::Unlocked,
        },
    )
}

fn message_event(content: String) -> ChatEvent {
    ChatEvent::Message(ChatMessage {
        name: "".to_string(),
        content,
        is_mod: false,
    })
}

fn messages(message_options: Vec<ConfigOption>) -> Configuration {
    Configuration {
        message_options,
        action_options: vec![],
    }
}

fn mapping_for(actions: Vec<String>, category: &str) -> Mapping {
    Mapping {
        config: vec![MappingConfig {
            id: "a message".to_string(),
            actions,
            category: category.to_string(),
            source: "message".to_string(),
            comparison: "".to_string(),
            name: "".to_string(),
            limit: None,
        }],
    }
}

fn generated_for(actions: Vec<String>, category: &str) -> ActionCategory {
    let mut config = Configuration::from_mapping(mapping_for(actions, category));
    let maybe_generated = event_to_action(message_event("a message".to_string()), &mut config);
    assert!(maybe_generated.is_some());
    maybe_generated.unwrap()
}

#[test]
fn configuration_created_without_categories_return_no_custom_categories() {
    let mut event_to_action = ConfigurableEventToAction::new(Configuration {
        message_options: vec![ConfigOption {
            actions: uncategorized(Action::KeyRawUp(1)),
            id: "".to_string(),
            times_limit: None,
        }],
        action_options: vec![ConfigActionOption {
            actions: uncategorized(Action::KeyRawUp(2)),
            id: "".to_string(),
            action_name: "".to_string(),
            comparison: Comparison::Exact(String::new()),
            times_limit: None,
        }],
    });

    assert_eq!(event_to_action.custom_categories().len(), 0);
}

#[test]
fn configuration_created_wit_categories_return_list_of_custom_categories() {
    let mut event_to_action = ConfigurableEventToAction::new(Configuration {
        message_options: vec![
            ConfigOption {
                actions: uncategorized(Action::KeyRawUp(1)),
                id: "".to_string(),
                times_limit: None,
            },
            ConfigOption {
                actions: with_category("1", Action::KeyRawUp(1)),
                id: "".to_string(),
                times_limit: None,
            },
        ],
        action_options: vec![
            ConfigActionOption {
                actions: with_category("custom_text", Action::KeyRawUp(2)),
                id: "".to_string(),
                action_name: "".to_string(),
                comparison: Comparison::Exact(String::new()),
                times_limit: None,
            },
            ConfigActionOption {
                actions: uncategorized(Action::KeyRawUp(2)),
                id: "".to_string(),
                action_name: "".to_string(),
                comparison: Comparison::Exact(String::new()),
                times_limit: None,
            },
        ],
    });

    assert_eq!(event_to_action.custom_categories().len(), 2);
    assert!(event_to_action.custom_categories().contains(&"1".to_string()));
    assert!(event_to_action
        .custom_categories()
        .contains(&"custom_text".to_string()));
}

#[test]
fn empty_event_empty_config_return_nothing() {
    let mut config = Configuration::default();
    assert!(event_to_action(message_event("".to_string()), &mut config).is_none());
}

#[test]
fn event_says_up_config_not_match_return_nothing() {
    let mut config = messages(vec![ConfigOption {
        id: "".to_string(),
        actions: uncategorized(Action::WaitFor(1)),
        times_limit: None,
    }]);
    assert!(event_to_action(message_event("I said up".to_string()), &mut config).is_none());
}

#[test]
fn empty_message_config_for_up_return_nothing() {
    let mut config = messages(vec![ConfigOption {
        id: "I said up".to_string(),
        actions: uncategorized(Action::WaitFor(1)),
        times_limit: None,
    }]);
    assert!(event_to_action(message_event("".to_string()), &mut config).is_none());
}

#[test]
fn event_match_config_for_kd_number_then_key_down_raw_40() {
    let generated = generated_for(vec!["kd40".to_string()], "");
    assert!(generated == uncategorized(Action::KeyRawDown(40)));
}

#[test]
fn event_match_config_for_kd_number_then_key_down_raw_100() {
    let generated = generated_for(vec!["kd100".to_string()], "");
    assert!(generated == uncategorized(Action::KeyRawDown(100)));
}

#[test]
fn event_match_config_for_ku_number_then_key_up_raw_100() {
    let generated = generated_for(vec!["ku100".to_string()], "");
    assert!(generated == uncategorized(Action::KeyRawUp(100)));
}

#[test]
fn event_match_config_for_mr_coordinates_then_move_mouse() {
    let generated = generated_for(vec!["mr100x110".to_string()], "");
    assert!(generated == uncategorized(Action::MoveMouseOf(100, 110)));
}

#[test]
fn event_match_config_for_multiple_kd_number_then_sequence_key_down_raw() {
    let generated = generated_for(vec!["kd100".to_string(), "kd35".to_string()], "");
    assert!(
        generated
            == uncategorized(Action::Sequence(vec![
                Action::KeyRawDown(100),
                Action::KeyRawDown(35)
            ]))
    );
}

#[test]
fn event_match_config_for_w_number_then_wait() {
    let generated = generated_for(vec!["w1500".to_string()], "");
    assert!(generated == uncategorized(Action::WaitFor(1500)));
}

#[test]
fn event_match_config_for_empty_category_then_uncategorized() {
    let generated = generated_for(vec!["w1500".to_string()], "");
    assert!(generated == uncategorized(Action::WaitFor(1500)));
}

#[test]
fn event_match_config_for_category_then_action_categorized() {
    let generated = generated_for(vec!["w1500".to_string()], "a");
    assert!(generated == with_category("a", Action::WaitFor(1500)));
}

#[test]
fn event_match_config_for_tilde_then_action_atomic_sequence() {
    let generated = generated_for(vec!["~w1500~ku10~w1500".to_string()], "");
    assert!(
        generated
            == uncategorized(Action::AtomicSequence(vec![
                Action::WaitFor(1500),
                Action::KeyRawUp(10),
                Action::WaitFor(1500)
            ]))
    );
}

#[test]
fn limited_option_fires_only_that_many_times() {
    let mut config = messages(vec![ConfigOption {
        id: "go".to_string(),
        actions: uncategorized(Action::KeyRawDown(7)),
        times_limit: Some(2),
    }]);
    assert!(event_to_action(message_event("go".to_string()), &mut config).is_some());
    assert!(event_to_action(message_event("go".to_string()), &mut config).is_some());
    assert!(event_to_action(message_event("go".to_string()), &mut config).is_none());
}

#[test]
fn action_event_matches_by_name_and_range() {
    let mut config = Configuration {
        message_options: vec![],
        action_options: vec![ConfigActionOption {
            id: "100-200".to_string(),
            actions: uncategorized(Action::KeyRawDown(9)),
            comparison: Comparison::Range(100, 200),
            action_name: "bits".to_string(),
            times_limit: None,
        }],
    };
    let hit = ChatEvent::Action(twitch_commands::events::ChatAction {
        name: "someone".to_string(),
        action_id: "150".to_string(),
        action_name: "bits".to_string(),
    });
    let miss = ChatEvent::Action(twitch_commands::events::ChatAction {
        name: "someone".to_string(),
        action_id: "99".to_string(),
        action_name: "bits".to_string(),
    });
    let not_a_number = ChatEvent::Action(twitch_commands::events::ChatAction {
        name: "someone".to_string(),
        action_id: "many".to_string(),
        action_name: "bits".to_string(),
    });
    assert!(event_to_action(hit, &mut config).is_some());
    assert!(event_to_action(miss, &mut config).is_none());
    assert!(event_to_action(not_a_number, &mut config).is_none());
}

#[test]
fn range_mapping_builds_range_comparison() {
    let mapping = Mapping {
        config: vec![MappingConfig {
            id: "1-10".to_string(),
            actions: vec!["kd1".to_string()],
            category: "".to_string(),
            source: "action".to_string(),
            comparison: "range".to_string(),
            name: "reward_redeem".to_string(),
            limit: None,
        }],
    };
    let config = Configuration::from_mapping(mapping);
    assert_eq!(config.action_options.len(), 1);
    assert!(config.action_options[0].comparison == Comparison::Range(1, 10));
}
