//! Category queues and the router.
//!
//! Each category owns a named FIFO buffer of pending action containers.
//! `ActionQueues::redirect` demultiplexes a routing envelope into the
//! matching queue's buffer; `runner_tick` is one iteration of a category
//! runner: check the pause condition first, and only then step the buffer.
//! The asynchronous plumbing around these decisions (channels, sleeps,
//! tasks) lives outside the library and hands in plain values.

use vstd::prelude::*;
use vstd::string::StringExecFns;

use crate::action::ActionCategory;
use crate::action::ActionContainer;
use crate::action::ContainerView;
use crate::action::CategoryView;
use crate::action::buffer_view;
use crate::action::category_view;
use crate::action::container_view;
use crate::action::wf_buffer;
use crate::handler::ActionHandler;
use crate::handler::StepOutcome;
use crate::handler::can_handle_spec;
use crate::handler::step_buffer;
use crate::handler::step_executed;
use crate::handler::step_rejected;
use crate::handler::step_fits;
use crate::text::string_eq;

verus! {

/// The reserved category name for uncategorized actions.
pub open spec fn uncategorized_name() -> Seq<char> {
    "_uncategorized"@
}

/// The reserved category name, as a string slice.
pub fn uncategorized_channel_name() -> (r: &'static str)
    ensures
        r@ == uncategorized_name(),
{
    "_uncategorized"
}

/// The queue name a custom category is provisioned under: a custom category
/// that collides with the reserved name is prefixed, every other name is
/// kept.
pub open spec fn provisioned_name(n: Seq<char>) -> Seq<char> {
    if n == uncategorized_name() {
        "custom"@ + n
    } else {
        n
    }
}

/// Append the reserved default category to a list of custom category names,
/// renaming any custom category that collides with the reserved name.
pub fn add_uncategorized(custom_categories: Vec<String>) -> (r: Vec<String>)
    ensures
        r@.len() == custom_categories@.len() + 1,
        forall|i: int|
            0 <= i < custom_categories@.len() ==> r@[i]@ == provisioned_name(
                #[trigger] custom_categories@[i]@,
            ),
        r@[custom_categories@.len() as int]@ == uncategorized_name(),
{
    let reserved: String = uncategorized_channel_name().to_owned();
    let mut all_categories: Vec<String> = Vec::new();
    let mut i: usize = 0;
    while i < custom_categories.len()
        invariant
            i <= custom_categories@.len(),
            all_categories@.len() == i,
            reserved@ == uncategorized_name(),
            forall|j: int|
                0 <= j < i ==> all_categories@[j]@ == provisioned_name(
                    #[trigger] custom_categories@[j]@,
                ),
        decreases custom_categories@.len() - i,
    {
        let name = &custom_categories[i];
        if string_eq(name, &reserved) {
            all_categories.push("custom".to_owned().concat(name.as_str()));
        } else {
            all_categories.push(name.clone());
        }
        i = i + 1;
    }
    all_categories.push(reserved);
    all_categories
}

/// One category's queue: its name and its resident buffer of pending
/// containers, in arrival order.
pub struct CategoryQueue {
    pub name: String,
    pub buffer: Vec<ActionContainer>,
}

/// All provisioned category queues.
pub struct ActionQueues {
    pub queues: Vec<CategoryQueue>,
}

/// Routing errors: an envelope named a category nobody provisioned.
#[derive(Debug, PartialEq)]
pub enum RouteError {
    UnknownCategory,
}

/// The queue name an envelope is addressed to.
pub open spec fn target_name(c: CategoryView) -> Seq<char> {
    match c {
        CategoryView::WithCategory(name, _) => name,
        CategoryView::Uncategorized(_) => uncategorized_name(),
    }
}

/// The container an envelope carries.
pub open spec fn target_container(c: CategoryView) -> ContainerView {
    match c {
        CategoryView::WithCategory(_, container) => container,
        CategoryView::Uncategorized(container) => container,
    }
}

/// Extract the addressed queue name and the carried container from a
/// routing envelope; `Uncategorized` maps to the reserved default name.
pub fn route_target(category: ActionCategory) -> (r: (String, ActionContainer))
    ensures
        r.0@ == target_name(category_view(category)),
        container_view(r.1) == target_container(category_view(category)),
{
    match category {
        ActionCategory::Uncategorized(item) => (uncategorized_channel_name().to_owned(), item),
        ActionCategory::WithCategory(name, item) => (name, item),
    }
}

impl ActionQueues {
    pub open spec fn names(self) -> Seq<Seq<char>> {
        self.queues@.map_values(|q: CategoryQueue| q.name@)
    }

    /// Whether some queue carries this name.
    pub open spec fn has_queue(self, name: Seq<char>) -> bool {
        exists|i: int| 0 <= i < self.queues@.len() && self.names()[i] == name
    }

    /// Every queue's buffer is well formed.
    pub open spec fn wf(self) -> bool {
        forall|i: int|
            0 <= i < self.queues@.len() ==> wf_buffer(
                buffer_view(#[trigger] self.queues@[i].buffer@),
            )
    }

    /// Deliver a routing envelope into the buffer of the first queue whose
    /// name matches the envelope's category.  An envelope for a category
    /// nobody provisioned is dropped, reported as an error, and leaves
    /// every buffer unchanged.
    pub fn redirect(&mut self, category: ActionCategory) -> (r: Result<(), RouteError>)
        ensures
            !old(self).has_queue(target_name(category_view(category))) ==> (r matches Err(
                RouteError::UnknownCategory,
            ) && *final(self) == *old(self)),
            old(self).has_queue(target_name(category_view(category))) ==> (r matches Ok(())
                && exists|i: int|
                routed_at(*old(self), *final(self), category_view(category), i)),
    {
        let ghost cv = category_view(category);
        let ghost target = target_name(cv);
        let (category_name, action) = route_target(category);
        let mut i: usize = 0;
        while i < self.queues.len()
            invariant
                i <= self.queues@.len(),
                *self == *old(self),
                category_name@ == target,
                cv == category_view(category),
                target == target_name(cv),
                container_view(action) == target_container(cv),
                forall|j: int| 0 <= j < i ==> old(self).names()[j] != target,
            decreases self.queues@.len() - i,
        {
            let matches_name = string_eq(&self.queues[i].name, &category_name);
            proof {
                assert(self.names()[i as int] == self.queues@[i as int].name@);
            }
            if matches_name {
                let ghost prev = self.queues@;
                let queue = &mut self.queues[i];
                queue.buffer.push(action);
                proof {
                    assert(self.queues@ =~= prev.update(i as int, self.queues@[i as int]));
                    assert(buffer_view(self.queues@[i as int].buffer@) =~= buffer_view(
                        prev[i as int].buffer@,
                    ).push(container_view(action)));
                    assert(routed_at(*old(self), *self, cv, i as int));
                    assert(old(self).has_queue(target));
                }
                return Ok(());
            }
            i = i + 1;
        }
        proof {
            assert(!old(self).has_queue(target));
        }
        Err(RouteError::UnknownCategory)
    }
}

/// The envelope `c` was delivered into queue `i`: that queue's name is the
/// envelope's target, no earlier queue carries that name, the carried
/// container now ends queue `i`'s buffer, and every other queue is
/// untouched.
pub open spec fn routed_at(pre: ActionQueues, post: ActionQueues, c: CategoryView, i: int) -> bool {
    &&& 0 <= i < pre.queues@.len()
    &&& pre.names()[i] == target_name(c)
    &&& forall|j: int| 0 <= j < i ==> pre.names()[j] != target_name(c)
    &&& post.queues@ == pre.queues@.update(i, post.queues@[i])
    &&& post.queues@[i].name == pre.queues@[i].name
    &&& buffer_view(post.queues@[i].buffer@) == buffer_view(pre.queues@[i].buffer@).push(
        target_container(c),
    )
}

/// Routing preserves well-formedness of every buffer, provided the routed
/// container is itself well formed.
pub proof fn lemma_routed_wf(pre: ActionQueues, post: ActionQueues, c: CategoryView, i: int)
    requires
        routed_at(pre, post, c, i),
        pre.wf(),
        crate::action::wf_action(target_container(c).action),
    ensures
        post.wf(),
{
    assert forall|k: int|
        0 <= k < post.queues@.len() implies wf_buffer(
        buffer_view(#[trigger] post.queues@[k].buffer@),
    ) by {
        if k != i {
            assert(post.queues@[k] == pre.queues@[k]);
        } else {
            let bv = buffer_view(post.queues@[i].buffer@);
            let prev = buffer_view(pre.queues@[i].buffer@);
            assert forall|m: int|
                0 <= m < bv.len() implies crate::action::wf_action(#[trigger] bv[m].action) by {
                if m < bv.len() - 1 {
                    assert(bv[m] == prev[m]);
                } else {
                    assert(bv[m] == target_container(c));
                }
            }
        }
    }
}

/// Build one queue, with an empty buffer, for every custom category plus
/// the reserved default category.
pub fn action_queue_coordinators(custom_categories: Vec<String>) -> (r: ActionQueues)
    ensures
        r.queues@.len() == custom_categories@.len() + 1,
        forall|i: int|
            0 <= i < custom_categories@.len() ==> r.names()[i] == provisioned_name(
                #[trigger] custom_categories@[i]@,
            ),
        r.names()[custom_categories@.len() as int] == uncategorized_name(),
        forall|i: int| 0 <= i < r.queues@.len() ==> #[trigger] r.queues@[i].buffer@.len() == 0,
        r.wf(),
{
    let ghost customs = custom_categories@;
    let mut all_categories = add_uncategorized(custom_categories);
    let mut queues: Vec<CategoryQueue> = Vec::new();
    let ghost names = all_categories@;
    let mut i: usize = 0;
    while i < all_categories.len()
        invariant
            i <= all_categories@.len(),
            all_categories@ == names,
            queues@.len() == i,
            forall|j: int| 0 <= j < i ==> queues@[j].name == #[trigger] names[j],
            forall|j: int| 0 <= j < i ==> #[trigger] queues@[j].buffer@.len() == 0,
        decreases all_categories@.len() - i,
    {
        let name = all_categories[i].clone();
        queues.push(CategoryQueue { name, buffer: Vec::new() });
        i = i + 1;
    }
    let r = ActionQueues { queues };
    proof {
        assert forall|j: int| 0 <= j < r.queues@.len() implies wf_buffer(
            buffer_view(#[trigger] r.queues@[j].buffer@),
        ) by {
            assert(buffer_view(r.queues@[j].buffer@).len() == 0);
        }
    }
    r
}

/// One iteration of a category runner: evaluate the pause condition against
/// the current button reading, and only when the queue may advance, step it
/// once.  A paused queue is left completely untouched.
pub fn runner_tick(
    handler: &mut ActionHandler,
    actions: &mut Vec<ActionContainer>,
    mouse_down: bool,
    now: u64,
) -> (r: Option<StepOutcome>)
    requires
        wf_buffer(buffer_view(old(actions)@)),
        step_fits(buffer_view(old(actions)@), now),
    ensures
        !can_handle_spec(buffer_view(old(actions)@), mouse_down) ==> (r is None && final(actions)@
            == old(actions)@),
        can_handle_spec(buffer_view(old(actions)@), mouse_down) ==> (r matches Some(out) && {
            &&& buffer_view(final(actions)@) == step_buffer(buffer_view(old(actions)@), now)
            &&& crate::action::action_views(out.executed@) == step_executed(
                buffer_view(old(actions)@),
                now,
            )
            &&& crate::action::action_views(out.rejected@) == step_rejected(
                buffer_view(old(actions)@),
                now,
            )
        }),
        wf_buffer(buffer_view(final(actions)@)),
{
    if !handler.can_handle(actions, mouse_down) {
        return None;
    }
    Some(handler.run(actions, now))
}

} // verus!
