use twitch_commands::action::Action;
use twitch_commands::action::ActionContainer;
use twitch_commands::action::ActionLocker;
use twitch_commands::handler::ActionHandler;
use twitch_commands::queue::runner_tick;

fn container(action: Action) -> ActionContainer {
    ActionContainer {
        action,
        pause_on: ActionLocker::Unlocked,
    }
}

#[test]
fn step_on_empty_buffer_is_a_noop() {
    let mut handler = ActionHandler::default();
    let mut buffer: Vec<ActionContainer> = vec![];
    let outcome = handler.run(&mut buffer, 0);
    assert!(buffer.is_empty());
    assert!(outcome.executed.is_empty());
    assert!(outcome.rejected.is_empty());
    let outcome2 = handler.run(&mut buffer, 5);
    assert!(buffer.is_empty());
    assert!(outcome2.executed.is_empty());
}

#[test]
fn atomic_sequence_of_leaves_executes_in_one_step() {
    let mut handler = ActionHandler::default();
    let mut buffer = vec![container(Action::AtomicSequence(vec![
        Action::KeyRawDown(17),
        Action::KeyRawDown(70),
        Action::KeyRawUp(17),
    ]))];
    let outcome = handler.run(&mut buffer, 0);
    assert_eq!(
        outcome.executed,
        vec![
            Action::KeyRawDown(17),
            Action::KeyRawDown(70),
            Action::KeyRawUp(17)
        ]
    );
    assert!(outcome.rejected.is_empty());
    assert!(buffer.is_empty());
}

#[test]
fn atomic_sequence_rejects_nested_compound_actions() {
    let mut handler = ActionHandler::default();
    let mut buffer = vec![container(Action::AtomicSequence(vec![
        Action::KeyRawDown(1),
        Action::Sequence(vec![Action::KeyRawDown(2)]),
        Action::WaitFor(10),
        Action::KeyRawUp(1),
    ]))];
    let outcome = handler.run(&mut buffer, 0);
    assert_eq!(
        outcome.executed,
        vec![Action::KeyRawDown(1), Action::KeyRawUp(1)]
    );
    assert_eq!(
        outcome.rejected,
        vec![
            Action::Sequence(vec![Action::KeyRawDown(2)]),
            Action::WaitFor(10)
        ]
    );
    assert!(buffer.is_empty());
}

/// Drive the buffer until it drains, collecting each executed leaf with the
/// clock value at which it fired; the clock advances one millisecond per
/// step.
fn drain(buffer: &mut Vec<ActionContainer>, start: u64) -> Vec<(Action, u64)> {
    let mut handler = ActionHandler::default();
    let mut now = start;
    let mut fired = vec![];
    let mut steps = 0;
    while !buffer.is_empty() {
        let outcome = handler.run(buffer, now);
        for action in outcome.executed {
            fired.push((action, now));
        }
        now += 1;
        steps += 1;
        assert!(steps < 10_000, "buffer did not drain");
    }
    fired
}

#[test]
fn sequence_executes_leaves_in_order_one_per_step() {
    let mut buffer = vec![container(Action::Sequence(vec![
        Action::KeyRawDown(1),
        Action::KeyRawDown(2),
        Action::KeyRawDown(3),
    ]))];
    let fired = drain(&mut buffer, 0);
    let actions: Vec<Action> = fired.iter().map(|f| f.0.clone()).collect();
    assert_eq!(
        actions,
        vec![
            Action::KeyRawDown(1),
            Action::KeyRawDown(2),
            Action::KeyRawDown(3)
        ]
    );
    // one leaf per step: every firing happens at a distinct clock value
    assert!(fired[0].1 < fired[1].1 && fired[1].1 < fired[2].1);
}

#[test]
fn wait_defers_the_following_leaf() {
    // [Sequence([KeyDown(38), WaitFor(1000), KeyDown(40)])]
    let mut buffer = vec![container(Action::Sequence(vec![
        Action::KeyRawDown(38),
        Action::WaitFor(1000),
        Action::KeyRawDown(40),
    ]))];
    let fired = drain(&mut buffer, 0);
    assert_eq!(fired.len(), 2);
    assert_eq!(fired[0].0, Action::KeyRawDown(38));
    assert_eq!(fired[1].0, Action::KeyRawDown(40));
    // the second key fires no earlier than 1000 ms after the step that armed
    // the wait, which itself comes after the first key fired
    assert!(fired[0].1 < fired[1].1);
    assert!(fired[1].1 >= fired[0].1 + 1000);
}

#[test]
fn wait_until_blocks_until_the_deadline() {
    let mut handler = ActionHandler::default();
    let mut buffer = vec![
        container(Action::WaitUntil(100)),
        container(Action::KeyRawDown(5)),
    ];
    let outcome = handler.run(&mut buffer, 99);
    assert!(outcome.executed.is_empty());
    assert_eq!(buffer.len(), 2);
    assert_eq!(buffer[0].action, Action::WaitUntil(100));
    let outcome2 = handler.run(&mut buffer, 100);
    assert!(outcome2.executed.is_empty());
    assert_eq!(buffer.len(), 1);
    let outcome3 = handler.run(&mut buffer, 100);
    assert_eq!(outcome3.executed, vec![Action::KeyRawDown(5)]);
    assert!(buffer.is_empty());
}

#[test]
fn wait_for_becomes_a_deadline_gate() {
    let mut handler = ActionHandler::default();
    let mut buffer = vec![container(Action::WaitFor(250))];
    let outcome = handler.run(&mut buffer, 1_000);
    assert!(outcome.executed.is_empty());
    assert_eq!(buffer.len(), 1);
    assert_eq!(buffer[0].action, Action::WaitUntil(1_250));
}

#[test]
fn paused_head_keeps_the_buffer_untouched() {
    let mut handler = ActionHandler::default();
    let mut buffer = vec![ActionContainer {
        action: Action::KeyRawDown(1),
        pause_on: ActionLocker::MousePressed,
    }];
    // the button is held: the tick must not step
    let outcome = runner_tick(&mut handler, &mut buffer, true, 0);
    assert!(outcome.is_none());
    assert_eq!(buffer.len(), 1);
    assert_eq!(buffer[0].action, Action::KeyRawDown(1));
    // the button is released: the tick steps and executes the leaf
    let outcome2 = runner_tick(&mut handler, &mut buffer, false, 0);
    let step = outcome2.expect("an unpaused tick steps");
    assert_eq!(step.executed, vec![Action::KeyRawDown(1)]);
    assert!(buffer.is_empty());
}

#[test]
fn can_handle_only_pauses_on_the_matching_condition() {
    let handler = ActionHandler::default();
    let free = vec![container(Action::KeyRawDown(1))];
    let locked = vec![ActionContainer {
        action: Action::KeyRawDown(1),
        pause_on: ActionLocker::MousePressed,
    }];
    let empty: Vec<ActionContainer> = vec![];
    assert!(handler.can_handle(&free, true));
    assert!(handler.can_handle(&free, false));
    assert!(handler.can_handle(&locked, false));
    assert!(!handler.can_handle(&locked, true));
    assert!(handler.can_handle(&empty, true));
}

#[test]
fn sequence_unrolls_one_level_per_step() {
    let mut handler = ActionHandler::default();
    let mut buffer = vec![container(Action::Sequence(vec![
        Action::KeyRawDown(38),
        Action::WaitFor(1000),
        Action::KeyRawDown(40),
    ]))];
    let outcome = handler.run(&mut buffer, 0);
    // the unrolling step itself executes nothing
    assert!(outcome.executed.is_empty());
    assert_eq!(buffer.len(), 2);
    assert_eq!(buffer[0].action, Action::KeyRawDown(38));
    assert_eq!(
        buffer[1].action,
        Action::Sequence(vec![Action::WaitFor(1000), Action::KeyRawDown(40)])
    );
}
