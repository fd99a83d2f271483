//! The action model: leaf and compound input actions, the container that
//! carries an action together with its pause policy, and the routing envelope.
//!
//! Contracts throughout the crate speak about these values through a ghost
//! mirror (`ActionView` and friends) in which the children of a compound
//! action form a `Seq` rather than a `Vec`.

use vstd::prelude::*;

verus! {

/// One leaf or compound input operation.
///
/// `WaitFor` and `WaitUntil` carry millisecond counts: a duration for
/// `WaitFor`, an absolute timestamp (milliseconds on the caller's clock) for
/// `WaitUntil`.
#[derive(Debug, PartialEq)]
pub enum Action {
    KeyRawDown(u16),
    KeyRawUp(u16),
    MoveMouseOf(i32, i32),
    WaitFor(u64),
    WaitUntil(u64),
    Sequence(Vec<Action>),
    AtomicSequence(Vec<Action>),
}

/// An action plus the pause policy it travels with while queued.
#[derive(Debug, PartialEq)]
pub struct ActionContainer {
    pub action: Action,
    pub pause_on: ActionLocker,
}

/// The pause policies a queued action can carry.
#[derive(Debug, Clone, Copy, PartialEq, Eq, Structural)]
pub enum ActionLocker {
    Unlocked,
    MousePressed,
}

/// The routing envelope: which category queue a container belongs to.
#[derive(Debug, PartialEq)]
pub enum ActionCategory {
    WithCategory(String, ActionContainer),
    Uncategorized(ActionContainer),
}

/// Ghost mirror of `Action`: compound children are a `Seq`, so that
/// contracts can state structural equality directly.
pub enum ActionView {
    KeyRawDown(u16),
    KeyRawUp(u16),
    MoveMouseOf(i32, i32),
    WaitFor(u64),
    WaitUntil(u64),
    Sequence(Seq<ActionView>),
    AtomicSequence(Seq<ActionView>),
}

/// Ghost mirror of `ActionContainer`.
pub struct ContainerView {
    pub action: ActionView,
    pub pause_on: ActionLocker,
}

/// Ghost mirror of `ActionCategory`.
pub enum CategoryView {
    WithCategory(Seq<char>, ContainerView),
    Uncategorized(ContainerView),
}

pub open spec fn action_view(a: Action) -> ActionView
    decreases a,
{
    match a {
        Action::KeyRawDown(code) => ActionView::KeyRawDown(code),
        Action::KeyRawUp(code) => ActionView::KeyRawUp(code),
        Action::MoveMouseOf(x, y) => ActionView::MoveMouseOf(x, y),
        Action::WaitFor(ms) => ActionView::WaitFor(ms),
        Action::WaitUntil(deadline) => ActionView::WaitUntil(deadline),
        Action::Sequence(items) => ActionView::Sequence(action_views(items@)),
        Action::AtomicSequence(items) => ActionView::AtomicSequence(action_views(items@)),
    }
}

pub open spec fn action_views(items: Seq<Action>) -> Seq<ActionView>
    decreases items,
{
    if items.len() == 0 {
        Seq::empty()
    } else {
        seq![action_view(items[0])] + action_views(items.drop_first())
    }
}

pub open spec fn container_view(c: ActionContainer) -> ContainerView {
    ContainerView { action: action_view(c.action), pause_on: c.pause_on }
}

pub open spec fn buffer_view(b: Seq<ActionContainer>) -> Seq<ContainerView> {
    b.map_values(|c: ActionContainer| container_view(c))
}

pub open spec fn category_view(c: ActionCategory) -> CategoryView {
    match c {
        ActionCategory::WithCategory(name, container) => CategoryView::WithCategory(
            name@,
            container_view(container),
        ),
        ActionCategory::Uncategorized(container) => CategoryView::Uncategorized(
            container_view(container),
        ),
    }
}

/// `action_views` is the element-wise image of `action_view`.
pub proof fn lemma_action_views_len(items: Seq<Action>)
    ensures
        action_views(items).len() == items.len(),
        forall|i: int|
            0 <= i < items.len() ==> action_views(items)[i] == action_view(#[trigger] items[i]),
    decreases items,
{
    if items.len() > 0 {
        lemma_action_views_len(items.drop_first());
        assert forall|i: int|
            0 <= i < items.len() implies action_views(items)[i] == action_view(
            #[trigger] items[i],
        ) by {
            if i > 0 {
                assert(action_views(items)[i] == action_views(items.drop_first())[i - 1]);
                assert(items.drop_first()[i - 1] == items[i]);
            }
        }
    }
}

/// Dropping the first element commutes with taking views.
pub proof fn lemma_action_views_drop_first(items: Seq<Action>)
    requires
        items.len() > 0,
    ensures
        action_views(items.drop_first()) == action_views(items).drop_first(),
{
    lemma_action_views_len(items);
    lemma_action_views_len(items.drop_first());
    assert forall|i: int|
        0 <= i < items.len() - 1 implies action_views(items.drop_first())[i] == action_views(
        items,
    ).drop_first()[i] by {
        assert(items.drop_first()[i] == items[i + 1]);
    }
    assert(action_views(items.drop_first()) =~= action_views(items).drop_first());
}

/// A leaf executes immediately against the input capability.
pub open spec fn is_leaf(a: ActionView) -> bool {
    a is KeyRawDown || a is KeyRawUp || a is MoveMouseOf
}

/// The predicate under which an element of an atomic group executes.
pub open spec fn leaf_pred() -> spec_fn(ActionView) -> bool {
    |x: ActionView| is_leaf(x)
}

/// The predicate under which an element of an atomic group is rejected.
pub open spec fn non_leaf_pred() -> spec_fn(ActionView) -> bool {
    |x: ActionView| !is_leaf(x)
}

/// Well-formed action trees never hold an empty `Sequence`: the interpreter
/// unrolls a `Sequence` by splitting off its first element, so an empty one
/// has no meaning.  Children of an `AtomicSequence` are never unrolled, so
/// they are unconstrained here.
pub open spec fn wf_action(a: ActionView) -> bool
    decreases a,
{
    match a {
        ActionView::Sequence(items) => items.len() > 0 && (forall|i: int|
            0 <= i < items.len() ==> wf_action(#[trigger] items[i])),
        _ => true,
    }
}

/// The leaves an action will eventually execute, in execution order.
/// Non-leaf children of an `AtomicSequence` are rejected at execution time,
/// so they contribute nothing.
pub open spec fn leaves_of(a: ActionView) -> Seq<ActionView>
    decreases a,
{
    match a {
        ActionView::KeyRawDown(_) => seq![a],
        ActionView::KeyRawUp(_) => seq![a],
        ActionView::MoveMouseOf(_, _) => seq![a],
        ActionView::WaitFor(_) => Seq::empty(),
        ActionView::WaitUntil(_) => Seq::empty(),
        ActionView::Sequence(items) => leaves_of_all(items),
        ActionView::AtomicSequence(items) => items.filter(leaf_pred()),
    }
}

pub open spec fn leaves_of_all(items: Seq<ActionView>) -> Seq<ActionView>
    decreases items,
{
    if items.len() == 0 {
        Seq::empty()
    } else {
        leaves_of(items[0]) + leaves_of_all(items.drop_first())
    }
}

/// The leaves a whole buffer still has to execute, in order.
pub open spec fn pending_leaves(b: Seq<ContainerView>) -> Seq<ActionView>
    decreases b,
{
    if b.len() == 0 {
        Seq::empty()
    } else {
        leaves_of(b[0].action) + pending_leaves(b.drop_first())
    }
}

pub open spec fn wf_buffer(b: Seq<ContainerView>) -> bool {
    forall|i: int| 0 <= i < b.len() ==> wf_action(#[trigger] b[i].action)
}

fn clone_action(a: &Action) -> (r: Action)
    ensures
        action_view(r) == action_view(*a),
    decreases *a,
{
    match a {
        Action::KeyRawDown(code) => Action::KeyRawDown(*code),
        Action::KeyRawUp(code) => Action::KeyRawUp(*code),
        Action::MoveMouseOf(x, y) => Action::MoveMouseOf(*x, *y),
        Action::WaitFor(ms) => Action::WaitFor(*ms),
        Action::WaitUntil(deadline) => Action::WaitUntil(*deadline),
        Action::Sequence(items) => Action::Sequence(clone_actions(items)),
        Action::AtomicSequence(items) => Action::AtomicSequence(clone_actions(items)),
    }
}

fn clone_actions(items: &Vec<Action>) -> (r: Vec<Action>)
    ensures
        action_views(r@) == action_views(items@),
    decreases *items,
{
    let mut r: Vec<Action> = Vec::new();
    let mut i: usize = 0;
    while i < items.len()
        invariant
            i <= items@.len(),
            action_views(r@) == action_views(items@.take(i as int)),
        decreases items@.len() - i,
    {
        let ghost prev = r@;
        let next = clone_action(&items[i]);
        r.push(next);
        proof {
            lemma_action_views_push(prev, next);
            lemma_action_views_push(items@.take(i as int), items@[i as int]);
            assert(items@.take(i + 1 as int) =~= items@.take(i as int).push(items@[i as int]));
        }
        i = i + 1;
    }
    proof {
        assert(items@.take(items@.len() as int) =~= items@);
    }
    r
}

/// Appending one element extends the view sequence by that element's view.
pub proof fn lemma_action_views_push(items: Seq<Action>, a: Action)
    ensures
        action_views(items.push(a)) == action_views(items).push(action_view(a)),
    decreases items,
{
    lemma_action_views_len(items.push(a));
    lemma_action_views_len(items);
    assert forall|i: int|
        0 <= i < items.len() + 1 implies action_views(items.push(a))[i] == action_views(
        items,
    ).push(action_view(a))[i] by {
        assert(action_views(items.push(a))[i] == action_view(items.push(a)[i]));
        if i < items.len() {
            assert(items.push(a)[i] == items[i]);
        } else {
            assert(items.push(a)[i] == a);
        }
    }
    assert(action_views(items.push(a)) =~= action_views(items).push(action_view(a)));
}

impl Clone for Action {
    /// A clone reads identically through the ghost model.
    fn clone(&self) -> (r: Self)
        ensures
            action_view(r) == action_view(*self),
    {
        clone_action(self)
    }
}

impl Clone for ActionContainer {
    fn clone(&self) -> (r: Self)
        ensures
            container_view(r) == container_view(*self),
    {
        ActionContainer { action: self.action.clone(), pause_on: self.pause_on }
    }
}

impl Clone for ActionCategory {
    fn clone(&self) -> (r: Self)
        ensures
            category_view(r) == category_view(*self),
    {
        match self {
            ActionCategory::WithCategory(name, container) => ActionCategory::WithCategory(
                name.clone(),
                container.clone(),
            ),
            ActionCategory::Uncategorized(container) => ActionCategory::Uncategorized(
                container.clone(),
            ),
        }
    }
}

} // verus!
