//! The single-step action interpreter.
//!
//! `ActionHandler::run` advances one category buffer by exactly one step:
//! it pops the head container, unrolls one level of compound structure or
//! executes leaves, and reports what it executed.  The caller owns the
//! clock (`now`, in milliseconds) and performs the reported leaf actions
//! against the input capability; the interpreter itself is pure.
//!
//! The whole step is specified by the ghost transition functions
//! `step_buffer`, `step_executed` and `step_rejected` over the buffer's
//! ghost mirror.

use vstd::prelude::*;

use crate::action::Action;
use crate::action::ActionContainer;
use crate::action::ActionLocker;
use crate::action::ActionView;
use crate::action::ContainerView;
use crate::action::action_view;
use crate::action::action_views;
use crate::action::buffer_view;
use crate::action::is_leaf;
use crate::action::leaf_pred;
use crate::action::non_leaf_pred;
use crate::action::leaves_of;
use crate::action::leaves_of_all;
use crate::action::pending_leaves;
use crate::action::wf_action;
use crate::action::wf_buffer;
use crate::action::lemma_action_views_len;
use crate::action::lemma_action_views_push;
use crate::action::lemma_action_views_drop_first;
use crate::seqs::lemma_filter_all;
use crate::seqs::lemma_filter_empty;
use crate::seqs::lemma_filter_none;
use crate::seqs::lemma_filter_push;

verus! {

/// True unless the head container's pause condition currently applies.
pub open spec fn can_handle_spec(b: Seq<ContainerView>, mouse_down: bool) -> bool {
    b.len() == 0 || match b[0].pause_on {
        ActionLocker::Unlocked => true,
        ActionLocker::MousePressed => !mouse_down,
    }
}

/// A `WaitFor` head must not overflow the clock when turned into a deadline.
pub open spec fn step_fits(b: Seq<ContainerView>, now: u64) -> bool {
    b.len() > 0 && b[0].action is WaitFor ==> now + b[0].action->WaitFor_0 <= u64::MAX
}

/// The buffer after one interpreter step.
///
/// A step that unrolls a `Sequence` only unrolls: the freshly exposed head
/// executes on the following step, not within the unrolling step.  This
/// keeps every step small and lets the pause condition interleave between
/// any two unrolled elements; the order in which leaves execute is
/// unaffected (`lemma_step_preserves_leaf_order`).
pub open spec fn step_buffer(pre: Seq<ContainerView>, now: u64) -> Seq<ContainerView> {
    if pre.len() == 0 {
        pre
    } else {
        let head = pre[0];
        let tail = pre.drop_first();
        match head.action {
            ActionView::Sequence(items) => {
                let first = ContainerView { action: items[0], pause_on: head.pause_on };
                if items.len() > 1 {
                    seq![
                        first,
                        ContainerView {
                            action: ActionView::Sequence(items.drop_first()),
                            pause_on: head.pause_on,
                        },
                    ] + tail
                } else {
                    seq![first] + tail
                }
            },
            ActionView::AtomicSequence(_) => tail,
            ActionView::WaitFor(ms) => seq![
                ContainerView { action: ActionView::WaitUntil((now + ms) as u64), pause_on: head.pause_on },
            ] + tail,
            ActionView::WaitUntil(deadline) => if now < deadline {
                pre
            } else {
                tail
            },
            _ => tail,
        }
    }
}

/// The leaves one interpreter step executes, in execution order.
pub open spec fn step_executed(pre: Seq<ContainerView>, now: u64) -> Seq<ActionView> {
    if pre.len() == 0 {
        Seq::empty()
    } else {
        match pre[0].action {
            ActionView::AtomicSequence(items) => items.filter(leaf_pred()),
            ActionView::KeyRawDown(_) => seq![pre[0].action],
            ActionView::KeyRawUp(_) => seq![pre[0].action],
            ActionView::MoveMouseOf(_, _) => seq![pre[0].action],
            _ => Seq::empty(),
        }
    }
}

/// The atomic elements one interpreter step rejects as wrongly nested.
pub open spec fn step_rejected(pre: Seq<ContainerView>, now: u64) -> Seq<ActionView> {
    if pre.len() == 0 {
        Seq::empty()
    } else {
        match pre[0].action {
            ActionView::AtomicSequence(items) => items.filter(non_leaf_pred()),
            _ => Seq::empty(),
        }
    }
}

/// What one call of `run` reported: the leaf actions it executed, in order,
/// and the wrongly nested actions it rejected.
#[derive(Debug, PartialEq)]
pub struct StepOutcome {
    pub executed: Vec<Action>,
    pub rejected: Vec<Action>,
}

pub struct ActionHandler {}

impl Default for ActionHandler {
    fn default() -> (r: Self) {
        ActionHandler {  }
    }
}

impl ActionHandler {
    /// Classify one action for execution: a leaf comes back as `Ok` to be
    /// performed against the input capability, anything else is wrong
    /// nesting and comes back as `Err`.
    fn execute(&mut self, action: &Action) -> (r: Result<Action, Action>)
        ensures
            is_leaf(action_view(*action)) ==> (r matches Ok(a) && action_view(a) == action_view(
                *action,
            )),
            !is_leaf(action_view(*action)) ==> (r matches Err(a) && action_view(a) == action_view(
                *action,
            )),
    {
        match action {
            Action::KeyRawDown(_) => Ok(action.clone()),
            Action::KeyRawUp(_) => Ok(action.clone()),
            Action::MoveMouseOf(_, _) => Ok(action.clone()),
            _ => Err(action.clone()),
        }
    }

    /// True unless the buffer head's pause condition currently applies;
    /// `mouse_down` is the input capability's current button reading.
    pub fn can_handle(&self, actions: &Vec<ActionContainer>, mouse_down: bool) -> (r: bool)
        ensures
            r == can_handle_spec(buffer_view(actions@), mouse_down),
    {
        if actions.len() == 0 {
            return true;
        }
        let first = &actions[0];
        match first.pause_on {
            ActionLocker::Unlocked => true,
            ActionLocker::MousePressed => !mouse_down,
        }
    }

    /// One interpreter step on the buffer, at clock value `now`.
    pub fn run(&mut self, actions: &mut Vec<ActionContainer>, now: u64) -> (r: StepOutcome)
        requires
            wf_buffer(buffer_view(old(actions)@)),
            step_fits(buffer_view(old(actions)@), now),
        ensures
            buffer_view(final(actions)@) == step_buffer(buffer_view(old(actions)@), now),
            action_views(r.executed@) == step_executed(buffer_view(old(actions)@), now),
            action_views(r.rejected@) == step_rejected(buffer_view(old(actions)@), now),
            wf_buffer(buffer_view(final(actions)@)),
    {
        let ghost pre = buffer_view(old(actions)@);
        let mut outcome = StepOutcome { executed: Vec::new(), rejected: Vec::new() };
        if actions.len() == 0 {
            assert(buffer_view(actions@) =~= step_buffer(pre, now));
            return outcome;
        }
        let action_container = actions.remove(0);
        proof {
            assert(old(actions)@.remove(0) =~= old(actions)@.drop_first());
            assert(buffer_view(old(actions)@.drop_first()) =~= pre.drop_first());
        }
        let ActionContainer { action, pause_on } = action_container;
        match action {
            Action::Sequence(mut vector) => {
                proof {
                    assert(pre[0].action == ActionView::Sequence(action_views(vector@)));
                    lemma_action_views_len(vector@);
                }
                let action_in_sequence = vector.remove(0);
                let ghost items0 = old(actions)@[0].action->Sequence_0@;
                proof {
                    assert(items0.remove(0) =~= items0.drop_first());
                    lemma_action_views_drop_first(items0);
                }
                actions.insert(0, ActionContainer { action: action_in_sequence, pause_on });
                if vector.len() > 0 {
                    actions.insert(1, ActionContainer { action: Action::Sequence(vector), pause_on });
                }
                proof {
                    lemma_action_views_len(items0);
                    assert(buffer_view(actions@) =~= step_buffer(pre, now));
                }
            },
            Action::AtomicSequence(vector) => {
                proof {
                    assert(pre[0].action == ActionView::AtomicSequence(action_views(vector@)));
                }
                let ghost items = action_views(vector@);
                let mut i: usize = 0;
                proof {
                    lemma_action_views_len(vector@);
                    assert(items.take(0) =~= Seq::<ActionView>::empty());
                    lemma_filter_empty(leaf_pred());
                    lemma_filter_empty(non_leaf_pred());
                }
                while i < vector.len()
                    invariant
                        i <= vector@.len(),
                        items == action_views(vector@),
                        items.len() == vector@.len(),
                        forall|j: int|
                            0 <= j < vector@.len() ==> items[j] == action_view(
                                #[trigger] vector@[j],
                            ),
                        action_views(outcome.executed@) == items.take(i as int).filter(
                            leaf_pred(),
                        ),
                        action_views(outcome.rejected@) == items.take(i as int).filter(
                            non_leaf_pred(),
                        ),
                    decreases vector@.len() - i,
                {
                    let ghost prev_exec = outcome.executed@;
                    let ghost prev_rej = outcome.rejected@;
                    let step = self.execute(&vector[i]);
                    match step {
                        Ok(executable) => {
                            outcome.executed.push(executable);
                            proof {
                                lemma_action_views_push(prev_exec, outcome.executed@.last());
                                assert(prev_exec.push(outcome.executed@.last())
                                    =~= outcome.executed@);
                            }
                        },
                        Err(rejected) => {
                            outcome.rejected.push(rejected);
                            proof {
                                lemma_action_views_push(prev_rej, outcome.rejected@.last());
                                assert(prev_rej.push(outcome.rejected@.last())
                                    =~= outcome.rejected@);
                            }
                        },
                    }
                    proof {
                        assert(items.take(i + 1 as int) =~= items.take(i as int).push(items[i as int]));
                        lemma_filter_push(items.take(i as int), items[i as int], leaf_pred());
                        lemma_filter_push(items.take(i as int), items[i as int], non_leaf_pred());
                    }
                    i = i + 1;
                }
                proof {
                    assert(items.take(items.len() as int) =~= items);
                    assert(buffer_view(actions@) =~= step_buffer(pre, now));
                }
            },
            Action::WaitFor(ms) => {
                proof {
                    assert(pre[0].action == ActionView::WaitFor(ms));
                }
                let deadline = now + ms;
                actions.insert(0, ActionContainer { action: Action::WaitUntil(deadline), pause_on });
                proof {
                    assert(buffer_view(actions@) =~= step_buffer(pre, now));
                }
            },
            Action::WaitUntil(until) => {
                if until > now {
                    actions.insert(0, ActionContainer { action: Action::WaitUntil(until), pause_on });
                    proof {
                        assert(buffer_view(actions@) =~= step_buffer(pre, now));
                    }
                } else {
                    proof {
                        assert(buffer_view(actions@) =~= step_buffer(pre, now));
                    }
                }
            },
            executable_action => {
                let step = self.execute(&executable_action);
                match step {
                    Ok(executable) => {
                        outcome.executed.push(executable);
                    },
                    Err(rejected) => {
                        outcome.rejected.push(rejected);
                    },
                }
                proof {
                    lemma_action_views_push(Seq::empty(), outcome.executed@[0]);
                    assert(Seq::<Action>::empty().push(outcome.executed@[0]) =~= outcome.executed@);
                    assert(buffer_view(actions@) =~= step_buffer(pre, now));
                }
            },
        }
        proof {
            lemma_step_buffer_wf(pre, now);
        }
        outcome
    }
}

/// A step of a well-formed buffer leaves a well-formed buffer.
pub proof fn lemma_step_buffer_wf(pre: Seq<ContainerView>, now: u64)
    requires
        wf_buffer(pre),
    ensures
        wf_buffer(step_buffer(pre, now)),
{
    if pre.len() == 0 {
        return;
    }
    let tail = pre.drop_first();
    let post = step_buffer(pre, now);
    assert forall|i: int| 0 <= i < tail.len() implies wf_action(#[trigger] tail[i].action) by {
        assert(tail[i] == pre[i + 1]);
    }
    match pre[0].action {
        ActionView::Sequence(items) => {
            assert(wf_action(pre[0].action));
            assert forall|i: int|
                0 <= i < post.len() implies wf_action(#[trigger] post[i].action) by {
                if items.len() > 1 {
                    if i == 0 {
                        assert(wf_action(items[0]));
                    } else if i == 1 {
                        assert forall|j: int|
                            0 <= j < items.drop_first().len() implies wf_action(
                            #[trigger] items.drop_first()[j],
                        ) by {
                            assert(items.drop_first()[j] == items[j + 1]);
                        }
                    } else {
                        assert(post[i] == tail[i - 2]);
                    }
                } else {
                    if i == 0 {
                        assert(wf_action(items[0]));
                    } else {
                        assert(post[i] == tail[i - 1]);
                    }
                }
            }
        },
        ActionView::WaitFor(_) => {
            assert forall|i: int|
                0 <= i < post.len() implies wf_action(#[trigger] post[i].action) by {
                if i > 0 {
                    assert(post[i] == tail[i - 1]);
                }
            }
        },
        _ => {},
    }
}

/// `pending_leaves` distributes over concatenation.
proof fn lemma_pending_add(b1: Seq<ContainerView>, b2: Seq<ContainerView>)
    ensures
        pending_leaves(b1 + b2) == pending_leaves(b1) + pending_leaves(b2),
    decreases b1,
{
    if b1.len() == 0 {
        assert(b1 + b2 =~= b2);
        assert(pending_leaves(b1) + pending_leaves(b2) =~= pending_leaves(b2));
    } else {
        lemma_pending_add(b1.drop_first(), b2);
        assert((b1 + b2).drop_first() =~= b1.drop_first() + b2);
        assert(leaves_of((b1 + b2)[0].action) + (pending_leaves(b1.drop_first()) + pending_leaves(
            b2,
        )) =~= pending_leaves(b1) + pending_leaves(b2));
    }
}

proof fn lemma_pending_one(a: ContainerView)
    ensures
        pending_leaves(seq![a]) == leaves_of(a.action),
{
    reveal_with_fuel(pending_leaves, 2);
    assert(seq![a].drop_first() =~= Seq::<ContainerView>::empty());
    assert(pending_leaves(Seq::<ContainerView>::empty()) == Seq::<ActionView>::empty());
    assert(pending_leaves(seq![a]) == leaves_of(seq![a][0].action) + pending_leaves(
        seq![a].drop_first(),
    ));
    assert(seq![a][0] == a);
    assert(leaves_of(a.action) + Seq::<ActionView>::empty() =~= leaves_of(a.action));
}

proof fn lemma_pending_two(a: ContainerView, b: ContainerView)
    ensures
        pending_leaves(seq![a, b]) == leaves_of(a.action) + leaves_of(b.action),
{
    assert(seq![a, b].drop_first() =~= seq![b]);
    lemma_pending_one(b);
}

/// Leaf order is invariant under stepping: the leaves a step executes,
/// followed by the leaves still pending afterwards, are exactly the leaves
/// that were pending before, in the same order.  Repeated steps therefore
/// execute the pending leaves of a well-formed buffer in exactly their
/// buffer order, whatever bookkeeping steps happen in between.
pub proof fn lemma_step_preserves_leaf_order(pre: Seq<ContainerView>, now: u64)
    requires
        wf_buffer(pre),
    ensures
        step_executed(pre, now) + pending_leaves(step_buffer(pre, now)) == pending_leaves(pre),
    decreases pre,
{
    if pre.len() == 0 {
        assert(step_executed(pre, now) + pending_leaves(step_buffer(pre, now)) =~= pending_leaves(
            pre,
        ));
        return;
    }
    let tail = pre.drop_first();
    let head = pre[0];
    let executed = step_executed(pre, now);
    let post = step_buffer(pre, now);
    match head.action {
        ActionView::Sequence(items) => {
            assert(wf_action(head.action));
            let first = ContainerView { action: items[0], pause_on: head.pause_on };
            if items.len() > 1 {
                let rest = ContainerView {
                    action: ActionView::Sequence(items.drop_first()),
                    pause_on: head.pause_on,
                };
                lemma_pending_add(seq![first, rest], tail);
                lemma_pending_two(first, rest);
                assert(leaves_of(head.action) == leaves_of(items[0]) + leaves_of_all(
                    items.drop_first(),
                ));
            } else {
                lemma_pending_add(seq![first], tail);
                lemma_pending_one(first);
                assert(leaves_of_all(items.drop_first()) =~= Seq::<ActionView>::empty());
                assert(leaves_of(head.action) =~= leaves_of(items[0]));
            }
            assert(executed + pending_leaves(post) =~= pending_leaves(pre));
        },
        ActionView::AtomicSequence(items) => {
            assert(executed == items.filter(leaf_pred()));
            assert(leaves_of(head.action) == items.filter(leaf_pred()));
            assert(executed + pending_leaves(post) =~= pending_leaves(pre));
        },
        ActionView::WaitFor(_) => {
            let gate = ContainerView {
                action: ActionView::WaitUntil((now + head.action->WaitFor_0) as u64),
                pause_on: head.pause_on,
            };
            lemma_pending_add(seq![gate], tail);
            lemma_pending_one(gate);
            assert(executed + pending_leaves(post) =~= pending_leaves(pre));
        },
        ActionView::WaitUntil(_) => {
            assert(executed + pending_leaves(post) =~= pending_leaves(pre));
        },
        _ => {
            assert(leaves_of(head.action) =~= seq![head.action]);
            assert(executed + pending_leaves(post) =~= pending_leaves(pre));
        },
    }
}

proof fn lemma_leaves_of_all_leaves(items: Seq<ActionView>)
    requires
        forall|i: int| 0 <= i < items.len() ==> is_leaf(#[trigger] items[i]),
    ensures
        leaves_of_all(items) == items,
    decreases items,
{
    if items.len() == 0 {
        assert(leaves_of_all(items) =~= items);
    } else {
        assert forall|i: int| 0 <= i < items.drop_first().len() implies is_leaf(
            #[trigger] items.drop_first()[i],
        ) by {
            assert(items.drop_first()[i] == items[i + 1]);
        }
        lemma_leaves_of_all_leaves(items.drop_first());
        assert(leaves_of(items[0]) == seq![items[0]]);
        assert(seq![items[0]] + items.drop_first() =~= items);
    }
}

/// In a sequence of leaf actions, the pending leaves are exactly the
/// elements.  Together with `lemma_step_preserves_leaf_order`, repeated
/// steps on a buffer holding such a sequence execute its elements in
/// exactly their order, one leaf per executing step.
pub proof fn lemma_sequence_of_leaves_pending(items: Seq<ActionView>, pause_on: ActionLocker)
    requires
        forall|i: int| 0 <= i < items.len() ==> is_leaf(#[trigger] items[i]),
    ensures
        pending_leaves(
            seq![ContainerView { action: ActionView::Sequence(items), pause_on }],
        ) == items,
{
    lemma_leaves_of_all_leaves(items);
    lemma_pending_one(ContainerView { action: ActionView::Sequence(items), pause_on });
}

/// An atomic group of leaf actions executes completely, in order, within a
/// single step, and the step consumes exactly the head container.
pub proof fn lemma_atomic_executes_in_one_step(pre: Seq<ContainerView>, now: u64)
    requires
        pre.len() > 0,
        pre[0].action is AtomicSequence,
        forall|i: int|
            0 <= i < pre[0].action->AtomicSequence_0.len() ==> is_leaf(
                #[trigger] pre[0].action->AtomicSequence_0[i],
            ),
    ensures
        step_executed(pre, now) == pre[0].action->AtomicSequence_0,
        step_rejected(pre, now) == Seq::<ActionView>::empty(),
        step_buffer(pre, now) == pre.drop_first(),
{
    let items = pre[0].action->AtomicSequence_0;
    assert(forall|i: int| 0 <= i < items.len() ==> leaf_pred()(#[trigger] items[i]));
    assert(forall|i: int| 0 <= i < items.len() ==> !non_leaf_pred()(#[trigger] items[i]));
    lemma_filter_all(items, leaf_pred());
    lemma_filter_none(items, non_leaf_pred());
}

/// A pending deadline gate blocks the whole buffer: while the clock has not
/// reached the deadline, a step executes nothing and changes nothing.
pub proof fn lemma_gate_blocks(pre: Seq<ContainerView>, now: u64)
    requires
        pre.len() > 0,
        pre[0].action is WaitUntil,
        now < pre[0].action->WaitUntil_0,
    ensures
        step_buffer(pre, now) == pre,
        step_executed(pre, now) == Seq::<ActionView>::empty(),
{
}

/// Stepping a `WaitFor(ms)` head executes nothing and arms a deadline gate
/// `ms` past the current clock; until that deadline the buffer then stays
/// unchanged, so nothing behind the wait can execute earlier.
pub proof fn lemma_wait_defers(pre: Seq<ContainerView>, now: u64, later: u64)
    requires
        pre.len() > 0,
        pre[0].action is WaitFor,
        now + pre[0].action->WaitFor_0 <= u64::MAX,
        later < now + pre[0].action->WaitFor_0,
    ensures
        step_executed(pre, now) == Seq::<ActionView>::empty(),
        step_buffer(pre, now)[0].action == ActionView::WaitUntil(
            (now + pre[0].action->WaitFor_0) as u64,
        ),
        step_buffer(step_buffer(pre, now), later) == step_buffer(pre, now),
        step_executed(step_buffer(pre, now), later) == Seq::<ActionView>::empty(),
{
    let post = step_buffer(pre, now);
    assert(post[0].action == ActionView::WaitUntil((now + pre[0].action->WaitFor_0) as u64));
    lemma_gate_blocks(post, later);
}

/// A step on an empty buffer is a no-op.
pub proof fn lemma_empty_step(pre: Seq<ContainerView>, now: u64)
    requires
        pre.len() == 0,
    ensures
        step_buffer(pre, now) == pre,
        step_executed(pre, now) == Seq::<ActionView>::empty(),
        step_rejected(pre, now) == Seq::<ActionView>::empty(),
{
}

} // verus!
