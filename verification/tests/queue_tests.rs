use twitch_commands::action::Action;
use twitch_commands::action::ActionCategory;
use twitch_commands::action::ActionContainer;
use twitch_commands::action::ActionLocker;
use twitch_commands::queue::action_queue_coordinators;
use twitch_commands::queue::add_uncategorized;
use twitch_commands::queue::route_target;
use twitch_commands::queue::RouteError;

fn container(action: Action) -> ActionContainer {
    ActionContainer {
        action,
        pause_on: ActionLocker::Unlocked,
    }
}

#[test]
fn add_uncategorized_appends_the_reserved_name() {
    let all = add_uncategorized(vec!["jump".to_string(), "run".to_string()]);
    assert_eq!(
        all,
        vec![
            "jump".to_string(),
            "run".to_string(),
            "_uncategorized".to_string()
        ]
    );
}

#[test]
fn add_uncategorized_renames_a_colliding_custom_name() {
    let all = add_uncategorized(vec!["_uncategorized".to_string()]);
    assert_eq!(
        all,
        vec![
            "custom_uncategorized".to_string(),
            "_uncategorized".to_string()
        ]
    );
}

#[test]
fn coordinators_provision_one_queue_per_category_plus_default() {
    let queues = action_queue_coordinators(vec!["a".to_string(), "b".to_string()]);
    assert_eq!(queues.queues.len(), 3);
    assert_eq!(queues.queues[0].name, "a");
    assert_eq!(queues.queues[1].name, "b");
    assert_eq!(queues.queues[2].name, "_uncategorized");
    assert!(queues.queues.iter().all(|q| q.buffer.is_empty()));
}

#[test]
fn route_target_maps_uncategorized_to_the_reserved_name() {
    let (name, item) = route_target(ActionCategory::Uncategorized(container(
        Action::KeyRawDown(3),
    )));
    assert_eq!(name, "_uncategorized");
    assert_eq!(item.action, Action::KeyRawDown(3));

    let (name2, item2) = route_target(ActionCategory::WithCategory(
        "jump".to_string(),
        container(Action::KeyRawUp(4)),
    ));
    assert_eq!(name2, "jump");
    assert_eq!(item2.action, Action::KeyRawUp(4));
}

#[test]
fn redirect_appends_to_the_matching_queue_only() {
    let mut queues = action_queue_coordinators(vec!["a".to_string(), "b".to_string()]);
    let result = queues.redirect(ActionCategory::WithCategory(
        "b".to_string(),
        container(Action::KeyRawDown(8)),
    ));
    assert_eq!(result, Ok(()));
    assert!(queues.queues[0].buffer.is_empty());
    assert_eq!(queues.queues[1].buffer.len(), 1);
    assert_eq!(queues.queues[1].buffer[0].action, Action::KeyRawDown(8));
    assert!(queues.queues[2].buffer.is_empty());
}

#[test]
fn redirect_sends_uncategorized_to_the_default_queue() {
    let mut queues = action_queue_coordinators(vec!["a".to_string()]);
    let result = queues.redirect(ActionCategory::Uncategorized(container(Action::WaitFor(5))));
    assert_eq!(result, Ok(()));
    assert!(queues.queues[0].buffer.is_empty());
    assert_eq!(queues.queues[1].buffer.len(), 1);
    assert_eq!(queues.queues[1].buffer[0].action, Action::WaitFor(5));
}

#[test]
fn redirect_unknown_category_changes_no_buffer_and_reports_it() {
    let mut queues = action_queue_coordinators(vec!["a".to_string(), "b".to_string()]);
    queues
        .redirect(ActionCategory::WithCategory(
            "a".to_string(),
            container(Action::KeyRawDown(1)),
        ))
        .unwrap();
    let result = queues.redirect(ActionCategory::WithCategory(
        "nobody".to_string(),
        container(Action::KeyRawDown(2)),
    ));
    assert_eq!(result, Err(RouteError::UnknownCategory));
    assert_eq!(queues.queues[0].buffer.len(), 1);
    assert_eq!(queues.queues[0].buffer[0].action, Action::KeyRawDown(1));
    assert!(queues.queues[1].buffer.is_empty());
    assert!(queues.queues[2].buffer.is_empty());
}

#[test]
fn redirect_keeps_arrival_order_within_a_queue() {
    let mut queues = action_queue_coordinators(vec!["a".to_string()]);
    for code in [1u16, 2, 3] {
        queues
            .redirect(ActionCategory::WithCategory(
                "a".to_string(),
                container(Action::KeyRawDown(code)),
            ))
            .unwrap();
    }
    let actions: Vec<_> = queues.queues[0]
        .buffer
        .iter()
        .map(|c| c.action.clone())
        .collect();
    assert_eq!(
        actions,
        vec![
            Action::KeyRawDown(1),
            Action::KeyRawDown(2),
            Action::KeyRawDown(3)
        ]
    );
}
