//! The configurable event-to-action compiler.
//!
//! A mapping entry describes its actions in a small textual grammar —
//! `kd<n>` and `ku<n>` press and release a raw key, `mr<dx>x<dy>` moves the
//! mouse, `w<n>` waits, and `~a~b~…` groups simple actions into an atomic
//! sequence.  `action_birth` parses one such string; `condense_actions`
//! folds a list of them into one routed action.  The compiler itself
//! (`event_to_action`) matches incoming events against the configured
//! options, counts down per-option execution limits, and hands out the
//! compiled action envelope.

use vstd::prelude::*;
use vstd::string::StrSliceExecFns;

use crate::action::Action;
use crate::action::ActionCategory;
use crate::action::ActionContainer;
use crate::action::ActionLocker;
use crate::action::ActionView;
use crate::action::CategoryView;
use crate::action::ContainerView;
use crate::action::action_view;
use crate::action::action_views;
use crate::action::category_view;
use crate::action::lemma_action_views_push;
use crate::app_config::Mapping;
use crate::app_config::MappingConfig;
use crate::seqs::lemma_filter_empty;
use crate::seqs::lemma_filter_push;
use crate::event_to_action::EventToAction;
use crate::events::ChatEvent;
use crate::run_on_stream::StreamItemReceiver;
use crate::text::clone_strings;
use crate::text::contains_string;
use crate::text::string_eq;
use crate::text::has_prefix;
use crate::text::is_i32_str;
use crate::text::is_u16_str;
use crate::text::is_u64_str;
use crate::text::parse_i32;
use crate::text::parse_u16;
use crate::text::parse_u64;
use crate::text::signed_val;
use crate::text::split_at_char;
use crate::text::split_char;
use crate::text::str_views;
use crate::text::unsigned_val;

verus! {

/// `kd<code>`: press the raw key `code`.
pub open spec fn keydown_ok(s: Seq<char>) -> bool {
    s.len() >= 2 && s.subrange(0, 2) == "kd"@ && is_u16_str(s.skip(2))
}

/// `ku<code>`: release the raw key `code`.
pub open spec fn keyup_ok(s: Seq<char>) -> bool {
    s.len() >= 2 && s.subrange(0, 2) == "ku"@ && is_u16_str(s.skip(2))
}

/// The two coordinate strings of a mouse move.
pub open spec fn mouse_coords(s: Seq<char>) -> Seq<Seq<char>> {
    split_at_char(s.skip(2), 'x')
}

/// `mr<dx>x<dy>`: move the mouse relatively.
pub open spec fn mouse_ok(s: Seq<char>) -> bool {
    s.len() >= 2 && s.subrange(0, 2) == "mr"@ && mouse_coords(s).len() == 2 && is_i32_str(
        mouse_coords(s)[0],
    ) && is_i32_str(mouse_coords(s)[1])
}

/// `w<ms>`: wait the given number of milliseconds.
pub open spec fn wait_ok(s: Seq<char>) -> bool {
    s.len() >= 1 && s[0] == 'w' && is_u64_str(s.skip(1))
}

/// A simple (non-grouping) action string.
pub open spec fn is_simple_action(s: Seq<char>) -> bool {
    keydown_ok(s) || keyup_ok(s) || mouse_ok(s) || wait_ok(s)
}

/// The action a simple action string describes.
pub open spec fn simple_action_of(s: Seq<char>) -> ActionView {
    if keydown_ok(s) {
        ActionView::KeyRawDown(unsigned_val(s.skip(2)) as u16)
    } else if keyup_ok(s) {
        ActionView::KeyRawUp(unsigned_val(s.skip(2)) as u16)
    } else if mouse_ok(s) {
        ActionView::MoveMouseOf(
            signed_val(mouse_coords(s)[0]) as i32,
            signed_val(mouse_coords(s)[1]) as i32,
        )
    } else if wait_ok(s) {
        ActionView::WaitFor(unsigned_val(s.skip(1)) as u64)
    } else {
        arbitrary()
    }
}

/// The piece strings of an atomic group `~a~b~…`.
pub open spec fn atomic_pieces(s: Seq<char>) -> Seq<Seq<char>> {
    split_at_char(s, '~').drop_first()
}

pub open spec fn simple_of_pred() -> spec_fn(Seq<char>) -> ActionView {
    |p: Seq<char>| simple_action_of(p)
}

/// `~a~b~…`: every piece between the tildes is a simple action.
pub open spec fn atomic_ok(s: Seq<char>) -> bool {
    s.len() >= 1 && s[0] == '~' && (forall|i: int|
        0 <= i < atomic_pieces(s).len() ==> is_simple_action(#[trigger] atomic_pieces(s)[i]))
}

/// A valid action string of the grammar.
pub open spec fn is_action_str(s: Seq<char>) -> bool {
    is_simple_action(s) || atomic_ok(s)
}

/// The action an action string describes.
pub open spec fn action_of(s: Seq<char>) -> ActionView {
    if is_simple_action(s) {
        simple_action_of(s)
    } else {
        ActionView::AtomicSequence(atomic_pieces(s).map_values(simple_of_pred()))
    }
}

/// Parse one simple action string.
fn simple_action(s: &str) -> (r: Action)
    requires
        is_simple_action(s@),
    ensures
        action_view(r) == simple_action_of(s@),
{
    proof {
        reveal_strlit("kd");
        reveal_strlit("ku");
        reveal_strlit("mr");
        reveal_strlit("w");
    }
    let len = s.unicode_len();
    if has_prefix(s, "kd") {
        let rest = s.substring_char(2, len);
        proof {
            assert(rest@ =~= s@.skip(2));
            assert(!keyup_ok(s@)) by {
                if s@.len() >= 2 && s@.subrange(0, 2) == "ku"@ {
                    assert(s@.subrange(0, 2)[1] == 'u');
                }
            }
            assert(keydown_ok(s@)) by {
                if mouse_ok(s@) {
                    assert(s@.subrange(0, 2)[1] == 'r');
                }
                if wait_ok(s@) {
                    assert(s@.subrange(0, 2)[0] == 'k');
                }
            }
        }
        match parse_u16(rest) {
            Some(code) => Action::KeyRawDown(code),
            _ => {
                proof {
                    assert(false);
                }
                Action::WaitFor(0)
            },
        }
    } else if has_prefix(s, "ku") {
        let rest = s.substring_char(2, len);
        proof {
            assert(rest@ =~= s@.skip(2));
            assert(!keydown_ok(s@)) by {
                if s@.len() >= 2 && s@.subrange(0, 2) == "kd"@ {
                    assert(s@.subrange(0, 2)[1] == 'd');
                }
            }
            assert(keyup_ok(s@)) by {
                if mouse_ok(s@) {
                    assert(s@.subrange(0, 2)[1] == 'r');
                }
                if wait_ok(s@) {
                    assert(s@.subrange(0, 2)[0] == 'k');
                }
            }
        }
        match parse_u16(rest) {
            Some(code) => Action::KeyRawUp(code),
            _ => {
                proof {
                    assert(false);
                }
                Action::WaitFor(0)
            },
        }
    } else if has_prefix(s, "mr") {
        let rest = s.substring_char(2, len);
        let pieces = split_char(rest, 'x');
        proof {
            assert(rest@ =~= s@.skip(2));
            assert(str_views(pieces@) == mouse_coords(s@));
            assert(mouse_ok(s@)) by {
                if keydown_ok(s@) {
                    assert(s@.subrange(0, 2)[0] == 'k');
                }
                if keyup_ok(s@) {
                    assert(s@.subrange(0, 2)[0] == 'k');
                }
                if wait_ok(s@) {
                    assert(s@.subrange(0, 2)[0] == 'm');
                }
            }
        }
        if pieces.len() != 2 {
            proof {
                assert(false);
            }
            return Action::WaitFor(0);
        }
        let x = match parse_i32(pieces[0].as_str()) {
            Some(v) => v,
            _ => {
                proof {
                    assert(str_views(pieces@)[0] == pieces@[0]@);
                    assert(false);
                }
                0
            },
        };
        let y = match parse_i32(pieces[1].as_str()) {
            Some(v) => v,
            _ => {
                proof {
                    assert(str_views(pieces@)[1] == pieces@[1]@);
                    assert(false);
                }
                0
            },
        };
        proof {
            assert(str_views(pieces@)[0] == pieces@[0]@);
            assert(str_views(pieces@)[1] == pieces@[1]@);
        }
        Action::MoveMouseOf(x, y)
    } else if has_prefix(s, "w") {
        let rest = s.substring_char(1, len);
        proof {
            assert(rest@ =~= s@.skip(1));
            assert(s@.subrange(0, 1)[0] == 'w');
            assert(wait_ok(s@));
            assert(!keydown_ok(s@)) by {
                if s@.len() >= 2 && s@.subrange(0, 2) == "kd"@ {
                    assert(s@.subrange(0, 2)[0] == 'k');
                }
            }
            assert(!keyup_ok(s@)) by {
                if s@.len() >= 2 && s@.subrange(0, 2) == "ku"@ {
                    assert(s@.subrange(0, 2)[0] == 'k');
                }
            }
            assert(!mouse_ok(s@)) by {
                if s@.len() >= 2 && s@.subrange(0, 2) == "mr"@ {
                    assert(s@.subrange(0, 2)[0] == 'm');
                }
            }
        }
        match parse_u64(rest) {
            Some(ms) => Action::WaitFor(ms),
            _ => {
                proof {
                    assert(false);
                }
                Action::WaitFor(0)
            },
        }
    } else {
        proof {
            if keydown_ok(s@) {
                assert(s@.subrange(0, 2) == "kd"@);
            }
            if keyup_ok(s@) {
                assert(s@.subrange(0, 2) == "ku"@);
            }
            if mouse_ok(s@) {
                assert(s@.subrange(0, 2) == "mr"@);
            }
            if wait_ok(s@) {
                assert(s@.subrange(0, 1) =~= "w"@);
            }
            assert(false);
        }
        Action::WaitFor(0)
    }
}

/// Parse one action string of the grammar into an action tree.
pub fn action_birth(action_to_map: &str) -> (r: Action)
    requires
        is_action_str(action_to_map@),
    ensures
        action_view(r) == action_of(action_to_map@),
{
    proof {
        reveal_strlit("kd");
        reveal_strlit("ku");
        reveal_strlit("mr");
        reveal_strlit("w");
        reveal_strlit("~");
    }
    let simple = has_prefix(action_to_map, "kd") || has_prefix(action_to_map, "ku") || has_prefix(
        action_to_map,
        "mr",
    ) || has_prefix(action_to_map, "w");
    if simple {
        proof {
            assert(!atomic_ok(action_to_map@)) by {
                if action_to_map@.len() >= 2 && (action_to_map@.subrange(0, 2) == "kd"@
                    || action_to_map@.subrange(0, 2) == "ku"@ || action_to_map@.subrange(0, 2)
                    == "mr"@) {
                    assert(action_to_map@.subrange(0, 2)[0] == action_to_map@[0]);
                }
                if action_to_map@.len() >= 1 && action_to_map@.subrange(0, 1) == "w"@ {
                    assert(action_to_map@.subrange(0, 1)[0] == action_to_map@[0]);
                }
            }
        }
        simple_action(action_to_map)
    } else if has_prefix(action_to_map, "~") {
        let ghost s = action_to_map@;
        proof {
            assert(s.subrange(0, 1)[0] == '~');
            assert(!is_simple_action(s)) by {
                if keydown_ok(s) || keyup_ok(s) {
                    assert(s.subrange(0, 2)[0] == 'k');
                }
                if mouse_ok(s) {
                    assert(s.subrange(0, 2)[0] == 'm');
                }
                if wait_ok(s) {
                    assert(s[0] == 'w');
                }
            }
            assert(atomic_ok(s));
        }
        let pieces = split_char(action_to_map, '~');
        let ghost ps = atomic_pieces(s);
        let mut actions: Vec<Action> = Vec::new();
        let mut i: usize = 1;
        proof {
            crate::text::lemma_split_len(s, '~');
            assert(ps.take(0) =~= Seq::<Seq<char>>::empty());
            assert(action_views(actions@) =~= ps.take(0).map_values(simple_of_pred()));
        }
        while i < pieces.len()
            invariant
                1 <= i <= pieces@.len(),
                str_views(pieces@) == split_at_char(s, '~'),
                ps == atomic_pieces(s),
                atomic_ok(s),
                action_views(actions@) == ps.take(i - 1).map_values(simple_of_pred()),
            decreases pieces@.len() - i,
        {
            proof {
                assert(pieces@[i as int]@ == str_views(pieces@)[i as int]);
                assert(ps[i - 1] == str_views(pieces@)[i as int]);
            }
            let ghost prev = actions@;
            let a = simple_action(pieces[i].as_str());
            actions.push(a);
            proof {
                lemma_action_views_push(prev, a);
                assert(ps.take(i as int) =~= ps.take(i - 1).push(ps[i - 1]));
                assert(ps.take(i as int).map_values(simple_of_pred()) =~= ps.take(
                    i - 1,
                ).map_values(simple_of_pred()).push(simple_action_of(ps[i - 1])));
            }
            i = i + 1;
        }
        proof {
            assert(ps.take(ps.len() as int) =~= ps);
        }
        Action::AtomicSequence(actions)
    } else {
        proof {
            if keydown_ok(action_to_map@) {
                assert(action_to_map@.subrange(0, 2) == "kd"@);
            }
            if keyup_ok(action_to_map@) {
                assert(action_to_map@.subrange(0, 2) == "ku"@);
            }
            if mouse_ok(action_to_map@) {
                assert(action_to_map@.subrange(0, 2) == "mr"@);
            }
            if wait_ok(action_to_map@) {
                assert(action_to_map@.subrange(0, 1) =~= "w"@);
            }
            if atomic_ok(action_to_map@) {
                assert(action_to_map@.subrange(0, 1) =~= "~"@);
            }
            assert(false);
        }
        Action::WaitFor(0)
    }
}

/// The predicate by which action strings fold into one compiled action.
pub open spec fn action_of_pred() -> spec_fn(Seq<char>) -> ActionView {
    |p: Seq<char>| action_of(p)
}

/// The single action a non-empty list of action strings folds to: the one
/// action itself, or a `Sequence` of all of them.
pub open spec fn condensed_action(strs: Seq<Seq<char>>) -> ActionView {
    if strs.len() == 1 {
        action_of(strs[0])
    } else {
        ActionView::Sequence(strs.map_values(action_of_pred()))
    }
}

/// The envelope a mapping's action strings and category fold to.  A
/// freshly compiled action carries no pause condition.
pub open spec fn condensed_category(strs: Seq<Seq<char>>, category: Seq<char>) -> CategoryView {
    let container = ContainerView {
        action: condensed_action(strs),
        pause_on: ActionLocker::Unlocked,
    };
    if category.len() == 0 {
        CategoryView::Uncategorized(container)
    } else {
        CategoryView::WithCategory(category, container)
    }
}

/// Fold a non-empty list of action strings into one routed action.
pub fn condense_actions(actions: Vec<String>, category: String) -> (r: ActionCategory)
    requires
        actions@.len() > 0,
        forall|i: int| 0 <= i < actions@.len() ==> is_action_str(#[trigger] actions@[i]@),
    ensures
        category_view(r) == condensed_category(str_views(actions@), category@),
{
    let mut action_sequence: Vec<Action> = Vec::new();
    let mut i: usize = 0;
    proof {
        assert(str_views(actions@).take(0) =~= Seq::<Seq<char>>::empty());
        assert(action_views(action_sequence@) =~= str_views(actions@).take(0).map_values(
            action_of_pred(),
        ));
    }
    while i < actions.len()
        invariant
            i <= actions@.len(),
            forall|j: int| 0 <= j < actions@.len() ==> is_action_str(#[trigger] actions@[j]@),
            action_views(action_sequence@) == str_views(actions@).take(i as int).map_values(
                action_of_pred(),
            ),
        decreases actions@.len() - i,
    {
        let ghost prev = action_sequence@;
        let a = action_birth(actions[i].as_str());
        action_sequence.push(a);
        proof {
            lemma_action_views_push(prev, a);
            assert(str_views(actions@)[i as int] == actions@[i as int]@);
            assert(str_views(actions@).take(i + 1 as int) =~= str_views(actions@).take(
                i as int,
            ).push(actions@[i as int]@));
            assert(str_views(actions@).take(i + 1 as int).map_values(action_of_pred())
                =~= str_views(actions@).take(i as int).map_values(action_of_pred()).push(
                action_of(actions@[i as int]@),
            ));
        }
        i = i + 1;
    }
    proof {
        assert(str_views(actions@).take(actions@.len() as int) =~= str_views(actions@));
    }
    let ghost strs = str_views(actions@);
    proof {
        crate::action::lemma_action_views_len(action_sequence@);
        assert(strs.map_values(action_of_pred()).len() == strs.len());
    }
    let condensed: Action = if action_sequence.len() == 1 {
        let a = action_sequence[0].clone();
        proof {
            assert(action_view(a) == strs.map_values(action_of_pred())[0]);
            assert(action_view(a) == condensed_action(strs));
        }
        a
    } else {
        proof {
            assert(strs.len() != 1);
        }
        Action::Sequence(action_sequence)
    };
    proof {
        assert(action_view(condensed) == condensed_action(strs));
    }
    let container = ActionContainer { action: condensed, pause_on: ActionLocker::Unlocked };
    proof {
        assert(crate::action::container_view(container) == ContainerView {
            action: condensed_action(strs),
            pause_on: ActionLocker::Unlocked,
        });
    }
    if category.as_str().is_empty() {
        ActionCategory::Uncategorized(container)
    } else {
        ActionCategory::WithCategory(category, container)
    }
}

/// How a configured option decides whether an incoming action id matches:
/// by literal equality, or by a closed numeric range.
#[derive(Debug, PartialEq)]
pub enum Comparison {
    Exact(String),
    Range(u64, u64),
}

/// Ghost mirror of `Comparison`.
pub enum ComparisonView {
    Exact(Seq<char>),
    Range(u64, u64),
}

pub open spec fn comparison_view(c: Comparison) -> ComparisonView {
    match c {
        Comparison::Exact(id) => ComparisonView::Exact(id@),
        Comparison::Range(low, up) => ComparisonView::Range(low, up),
    }
}

/// Whether an incoming action id satisfies a comparison.  A range accepts
/// exactly the ids that read as a decimal number inside the bounds.
pub open spec fn comparison_accepts(c: ComparisonView, input: Seq<char>) -> bool {
    match c {
        ComparisonView::Exact(id) => input == id,
        ComparisonView::Range(low, up) => is_u64_str(input) && low <= unsigned_val(input)
            && unsigned_val(input) <= up,
    }
}

/// Whether an input falls in a closed numeric range; an input that does
/// not read as a number never matches.
pub fn comparison_range(input: String, low_bound: u64, up_bound: u64) -> (r: bool)
    ensures
        r == (is_u64_str(input@) && low_bound <= unsigned_val(input@) && unsigned_val(input@)
            <= up_bound),
{
    match parse_u64(input.as_str()) {
        Some(input_number) => low_bound <= input_number && up_bound >= input_number,
        _ => false,
    }
}

/// A well-formed range configuration: `low-up`, both decimal.
pub open spec fn is_range_config(s: Seq<char>) -> bool {
    let ps = split_at_char(s, '-');
    ps.len() == 2 && is_u64_str(ps[0]) && is_u64_str(ps[1])
}

/// Build a range comparison from its `low-up` configuration string.
pub fn comparison_range_builder(range_config: String) -> (r: Comparison)
    requires
        is_range_config(range_config@),
    ensures
        comparison_view(r) == ComparisonView::Range(
            unsigned_val(split_at_char(range_config@, '-')[0]) as u64,
            unsigned_val(split_at_char(range_config@, '-')[1]) as u64,
        ),
{
    let ranges = split_char(range_config.as_str(), '-');
    proof {
        assert(str_views(ranges@)[0] == ranges@[0]@);
        assert(str_views(ranges@)[1] == ranges@[1]@);
    }
    if ranges.len() != 2 {
        proof {
            assert(false);
        }
        return Comparison::Range(0, 0);
    }
    let low_bound = match parse_u64(ranges[0].as_str()) {
        Some(v) => v,
        _ => {
            proof {
                assert(false);
            }
            0
        },
    };
    let up_bound = match parse_u64(ranges[1].as_str()) {
        Some(v) => v,
        _ => {
            proof {
                assert(false);
            }
            0
        },
    };
    Comparison::Range(low_bound, up_bound)
}

/// The comparison a mapping entry configures: `range` reads the entry's id
/// as a `low-up` range, anything else matches the id literally.
pub open spec fn comparison_of(comparison_type: Seq<char>, id: Seq<char>) -> ComparisonView {
    if comparison_type == "range"@ {
        ComparisonView::Range(
            unsigned_val(split_at_char(id, '-')[0]) as u64,
            unsigned_val(split_at_char(id, '-')[1]) as u64,
        )
    } else {
        ComparisonView::Exact(id)
    }
}

/// Build the comparison a mapping entry configures.
pub fn into_comparison_fn(comparison_type: String, id: String) -> (r: Comparison)
    requires
        comparison_type@ == "range"@ ==> is_range_config(id@),
    ensures
        comparison_view(r) == comparison_of(comparison_type@, id@),
{
    let range_kind: String = "range".to_owned();
    if string_eq(&comparison_type, &range_kind) {
        comparison_range_builder(id)
    } else {
        Comparison::Exact(id)
    }
}

/// When an option may still fire: either it has no execution limit, or the
/// limit has not been exhausted.
pub open spec fn can_exec(times: Option<u16>) -> bool {
    match times {
        Option::None => true,
        Option::Some(limit) => limit > 0,
    }
}

/// Ghost mirror of `ConfigOption`.
pub struct ConfigOptionView {
    pub id: Seq<char>,
    pub actions: CategoryView,
    pub times_limit: Option<u16>,
}

/// Ghost mirror of `ConfigActionOption`.
pub struct ConfigActionOptionView {
    pub id: Seq<char>,
    pub actions: CategoryView,
    pub comparison: ComparisonView,
    pub action_name: Seq<char>,
    pub times_limit: Option<u16>,
}

/// An option matched against plain chat messages: fires when the message
/// text equals its id.
#[derive(Debug)]
pub struct ConfigOption {
    pub id: String,
    pub actions: ActionCategory,
    pub times_limit: Option<u16>,
}

/// An option matched against channel actions: fires when the action name
/// equals its configured name and the action id satisfies its comparison.
#[derive(Debug)]
pub struct ConfigActionOption {
    pub id: String,
    pub actions: ActionCategory,
    pub comparison: Comparison,
    pub action_name: String,
    pub times_limit: Option<u16>,
}

pub open spec fn config_option_view(o: ConfigOption) -> ConfigOptionView {
    ConfigOptionView {
        id: o.id@,
        actions: category_view(o.actions),
        times_limit: o.times_limit,
    }
}

pub open spec fn action_option_view(o: ConfigActionOption) -> ConfigActionOptionView {
    ConfigActionOptionView {
        id: o.id@,
        actions: category_view(o.actions),
        comparison: comparison_view(o.comparison),
        action_name: o.action_name@,
        times_limit: o.times_limit,
    }
}

/// What a configured option exposes: its compiled actions and its
/// remaining execution limit.
pub trait ConfigOptionWithActions: Sized {
    spec fn times_spec(&self) -> Option<u16>;

    spec fn actions_spec(&self) -> CategoryView;

    /// The same option with its limit replaced.
    spec fn with_times(&self, times: Option<u16>) -> Self;

    fn get_actions(&self) -> (r: ActionCategory)
        ensures
            category_view(r) == self.actions_spec(),
    ;

    fn get_times(&self) -> (r: Option<u16>)
        ensures
            r == self.times_spec(),
    ;

    fn set_times(&mut self, times: u16)
        ensures
            *final(self) == old(self).with_times(Some(times)),
            final(self).actions_spec() == old(self).actions_spec(),
            final(self).times_spec() == Some(times),
    ;
}

/// Consuming an option's actions: hand out the compiled actions and count
/// one execution off the limit.
pub trait ConfigOptionWithActionsTrait: ConfigOptionWithActions {
    fn consume_actions(&mut self) -> (r: ActionCategory)
        ensures
            category_view(r) == old(self).actions_spec(),
            *final(self) == (match old(self).times_spec() {
                Option::None => *old(self),
                Option::Some(limit) => if limit > 0 {
                    old(self).with_times(Some((limit - 1) as u16))
                } else {
                    *old(self)
                },
            }),
    ;

    fn can_be_executed(&self) -> (r: bool)
        ensures
            r == can_exec(self.times_spec()),
    ;
}

impl<T: ConfigOptionWithActions> ConfigOptionWithActionsTrait for T {
    fn consume_actions(&mut self) -> (r: ActionCategory) {
        match self.get_times() {
            None => self.get_actions(),
            Some(limit) => {
                if limit > 0 {
                    self.set_times(limit - 1);
                }
                // an exhausted limit is a caller error worth logging;
                // nothing is counted down
                self.get_actions()
            },
        }
    }

    fn can_be_executed(&self) -> (r: bool) {
        self.get_times().is_none() || self.get_times().unwrap() > 0
    }
}

impl ConfigOptionWithActions for ConfigOption {
    open spec fn times_spec(&self) -> Option<u16> {
        self.times_limit
    }

    open spec fn actions_spec(&self) -> CategoryView {
        category_view(self.actions)
    }

    open spec fn with_times(&self, times: Option<u16>) -> Self {
        ConfigOption { id: self.id, actions: self.actions, times_limit: times }
    }

    fn get_actions(&self) -> (r: ActionCategory) {
        self.actions.clone()
    }

    fn get_times(&self) -> (r: Option<u16>) {
        self.times_limit
    }

    fn set_times(&mut self, times: u16) {
        self.times_limit = Some(times);
    }
}

impl ConfigOptionWithActions for ConfigActionOption {
    open spec fn times_spec(&self) -> Option<u16> {
        self.times_limit
    }

    open spec fn actions_spec(&self) -> CategoryView {
        category_view(self.actions)
    }

    open spec fn with_times(&self, times: Option<u16>) -> Self {
        ConfigActionOption {
            id: self.id,
            actions: self.actions,
            comparison: self.comparison,
            action_name: self.action_name,
            times_limit: times,
        }
    }

    fn get_actions(&self) -> (r: ActionCategory) {
        self.actions.clone()
    }

    fn get_times(&self) -> (r: Option<u16>) {
        self.times_limit
    }

    fn set_times(&mut self, times: u16) {
        self.times_limit = Some(times);
    }
}

/// A mapping entry whose action strings all belong to the grammar.
pub open spec fn mapping_actions_ok(m: MappingConfig) -> bool {
    m.actions@.len() > 0 && (forall|i: int|
        0 <= i < m.actions@.len() ==> is_action_str(#[trigger] m.actions@[i]@))
}

/// The message option a mapping entry compiles to.
pub open spec fn option_of(m: MappingConfig) -> ConfigOptionView {
    ConfigOptionView {
        id: m.id@,
        actions: condensed_category(str_views(m.actions@), m.category@),
        times_limit: m.limit,
    }
}

/// The action option a mapping entry compiles to.
pub open spec fn action_option_of(m: MappingConfig) -> ConfigActionOptionView {
    ConfigActionOptionView {
        id: m.id@,
        actions: condensed_category(str_views(m.actions@), m.category@),
        comparison: comparison_of(m.comparison@, m.id@),
        action_name: m.name@,
        times_limit: m.limit,
    }
}

/// Compile one mapping entry into a message option.
pub fn into_option(mapping: &MappingConfig) -> (r: ConfigOption)
    requires
        mapping_actions_ok(*mapping),
    ensures
        config_option_view(r) == option_of(*mapping),
{
    let actions = clone_strings(&mapping.actions);
    proof {
        assert forall|i: int| 0 <= i < actions@.len() implies is_action_str(
            #[trigger] actions@[i]@,
        ) by {
            assert(actions@[i]@ == mapping.actions@[i]@);
        }
    }
    ConfigOption {
        id: mapping.id.clone(),
        actions: condense_actions(actions, mapping.category.clone()),
        times_limit: mapping.limit,
    }
}

/// Compile one mapping entry into an action option.
pub fn into_action_option(mapping: &MappingConfig) -> (r: ConfigActionOption)
    requires
        mapping_actions_ok(*mapping),
        mapping.comparison@ == "range"@ ==> is_range_config(mapping.id@),
    ensures
        action_option_view(r) == action_option_of(*mapping),
{
    let actions = clone_strings(&mapping.actions);
    proof {
        assert forall|i: int| 0 <= i < actions@.len() implies is_action_str(
            #[trigger] actions@[i]@,
        ) by {
            assert(actions@[i]@ == mapping.actions@[i]@);
        }
    }
    ConfigActionOption {
        id: mapping.id.clone(),
        actions: condense_actions(actions, mapping.category.clone()),
        comparison: into_comparison_fn(mapping.comparison.clone(), mapping.id.clone()),
        action_name: mapping.name.clone(),
        times_limit: mapping.limit,
    }
}

/// The compiled configuration: options matched against messages, and
/// options matched against channel actions.
pub struct Configuration {
    pub message_options: Vec<ConfigOption>,
    pub action_options: Vec<ConfigActionOption>,
}

impl Default for Configuration {
    fn default() -> (r: Self)
        ensures
            r.message_options@.len() == 0,
            r.action_options@.len() == 0,
    {
        Configuration { message_options: Vec::new(), action_options: Vec::new() }
    }
}

/// Mapping entries that feed the message options.
pub open spec fn message_pred() -> spec_fn(MappingConfig) -> bool {
    |c: MappingConfig| c.source@ == "message"@
}

/// Mapping entries that feed the action options.
pub open spec fn action_pred() -> spec_fn(MappingConfig) -> bool {
    |c: MappingConfig| c.source@ == "action"@
}

/// Every entry the compiler will use is well formed: its action strings
/// belong to the grammar, and a `range` comparison has a `low-up` id.
pub open spec fn mapping_wf(m: Mapping) -> bool {
    forall|i: int|
        0 <= i < m.config@.len() ==> {
            let c = #[trigger] m.config@[i];
            &&& (message_pred()(c) ==> mapping_actions_ok(c))
            &&& (action_pred()(c) ==> (mapping_actions_ok(c) && (c.comparison@ == "range"@
                ==> is_range_config(c.id@))))
        }
}

/// The message options line up with the `message` entries of the mapping.
pub open spec fn message_options_match(opts: Seq<ConfigOption>, cfgs: Seq<MappingConfig>) -> bool {
    &&& opts.len() == cfgs.filter(message_pred()).len()
    &&& forall|j: int|
        0 <= j < opts.len() ==> config_option_view(#[trigger] opts[j]) == option_of(
            cfgs.filter(message_pred())[j],
        )
}

/// The action options line up with the `action` entries of the mapping.
pub open spec fn action_options_match(
    opts: Seq<ConfigActionOption>,
    cfgs: Seq<MappingConfig>,
) -> bool {
    &&& opts.len() == cfgs.filter(action_pred()).len()
    &&& forall|j: int|
        0 <= j < opts.len() ==> action_option_view(#[trigger] opts[j]) == action_option_of(
            cfgs.filter(action_pred())[j],
        )
}

impl Configuration {
    /// Compile a mapping into a configuration: `message` entries become
    /// message options, `action` entries become action options, anything
    /// else is ignored.
    pub fn from_mapping(mapping: Mapping) -> (r: Configuration)
        requires
            mapping_wf(mapping),
        ensures
            message_options_match(r.message_options@, mapping.config@),
            action_options_match(r.action_options@, mapping.config@),
    {
        let ghost cfgs = mapping.config@;
        let message_kind: String = "message".to_owned();
        let action_kind: String = "action".to_owned();
        let mut message_options: Vec<ConfigOption> = Vec::new();
        let mut action_options: Vec<ConfigActionOption> = Vec::new();
        let mut i: usize = 0;
        proof {
            reveal_strlit("message");
            reveal_strlit("action");
            assert("message"@.len() == 7);
            assert("action"@.len() == 6);
            assert("message"@ != "action"@);
            assert(cfgs.take(0) =~= Seq::<MappingConfig>::empty());
            lemma_filter_empty(message_pred());
            lemma_filter_empty(action_pred());
        }
        while i < mapping.config.len()
            invariant
                i <= cfgs.len(),
                mapping.config@ == cfgs,
                mapping_wf(mapping),
                message_kind@ == "message"@,
                action_kind@ == "action"@,
                message_kind@ != action_kind@,
                message_options_match(message_options@, cfgs.take(i as int)),
                action_options_match(action_options@, cfgs.take(i as int)),
            decreases cfgs.len() - i,
        {
            let c = &mapping.config[i];
            proof {
                assert(cfgs.take(i + 1 as int) =~= cfgs.take(i as int).push(cfgs[i as int]));
                lemma_filter_push(cfgs.take(i as int), cfgs[i as int], message_pred());
                lemma_filter_push(cfgs.take(i as int), cfgs[i as int], action_pred());
            }
            if string_eq(&c.source, &message_kind) {
                let option = into_option(c);
                message_options.push(option);
            } else if string_eq(&c.source, &action_kind) {
                let option = into_action_option(c);
                action_options.push(option);
            }
            i = i + 1;
        }
        proof {
            assert(cfgs.take(cfgs.len() as int) =~= cfgs);
        }
        Configuration { message_options, action_options }
    }
}

/// An option after one consumption: its limit counted down where one was
/// configured and not yet exhausted.
pub open spec fn consumed<T: ConfigOptionWithActions>(pre: T) -> T {
    match pre.times_spec() {
        Option::None => pre,
        Option::Some(limit) => if limit > 0 {
            pre.with_times(Some((limit - 1) as u16))
        } else {
            pre
        },
    }
}

/// Whether a message option fires on a message with this text.
pub open spec fn msg_matches(o: ConfigOption, content: Seq<char>) -> bool {
    can_exec(o.times_limit) && o.id@ == content
}

/// Whether an action option fires on a channel action with this name and id.
pub open spec fn act_matches(o: ConfigActionOption, name: Seq<char>, id: Seq<char>) -> bool {
    can_exec(o.times_limit) && o.action_name@ == name && comparison_accepts(
        comparison_view(o.comparison),
        id,
    )
}

/// The message options after a hit at index `i`: that option was the first
/// match, its limit was counted down, its actions were handed out.
pub open spec fn message_consumed_at(
    pre: Seq<ConfigOption>,
    post: Seq<ConfigOption>,
    content: Seq<char>,
    actions: CategoryView,
    i: int,
) -> bool {
    &&& 0 <= i < pre.len()
    &&& msg_matches(pre[i], content)
    &&& forall|j: int| 0 <= j < i ==> !msg_matches(#[trigger] pre[j], content)
    &&& post == pre.update(i, consumed(pre[i]))
    &&& actions == category_view(pre[i].actions)
}

/// The action options after a hit at index `i`.
pub open spec fn action_consumed_at(
    pre: Seq<ConfigActionOption>,
    post: Seq<ConfigActionOption>,
    name: Seq<char>,
    id: Seq<char>,
    actions: CategoryView,
    i: int,
) -> bool {
    &&& 0 <= i < pre.len()
    &&& act_matches(pre[i], name, id)
    &&& forall|j: int| 0 <= j < i ==> !act_matches(#[trigger] pre[j], name, id)
    &&& post == pre.update(i, consumed(pre[i]))
    &&& actions == category_view(pre[i].actions)
}

/// What one call of `event_to_action` does: a message is matched against
/// the message options, a channel action against the action options; the
/// first executable match is consumed and its actions are handed out, and
/// an event nothing matches leaves the configuration untouched.
/// What matching a message with this text did to the message options.
pub open spec fn message_post(
    pre: Configuration,
    post: Configuration,
    content: Seq<char>,
    r: Option<ActionCategory>,
) -> bool {
    match r {
        Option::None => {
            &&& post == pre
            &&& forall|j: int|
                0 <= j < pre.message_options@.len() ==> !msg_matches(
                    #[trigger] pre.message_options@[j],
                    content,
                )
        },
        Option::Some(actions) => {
            &&& post.action_options@ == pre.action_options@
            &&& exists|i: int|
                message_consumed_at(
                    pre.message_options@,
                    post.message_options@,
                    content,
                    category_view(actions),
                    i,
                )
        },
    }
}

/// What matching a channel action did to the action options.
pub open spec fn action_post(
    pre: Configuration,
    post: Configuration,
    name: Seq<char>,
    id: Seq<char>,
    r: Option<ActionCategory>,
) -> bool {
    match r {
        Option::None => {
            &&& post == pre
            &&& forall|j: int|
                0 <= j < pre.action_options@.len() ==> !act_matches(
                    #[trigger] pre.action_options@[j],
                    name,
                    id,
                )
        },
        Option::Some(actions) => {
            &&& post.message_options@ == pre.message_options@
            &&& exists|i: int|
                action_consumed_at(
                    pre.action_options@,
                    post.action_options@,
                    name,
                    id,
                    category_view(actions),
                    i,
                )
        },
    }
}

/// What one call of `event_to_action` does: a message is matched against
/// the message options, a channel action against the action options; the
/// first executable match is consumed and its actions are handed out, and
/// an event nothing matches leaves the configuration untouched.
pub open spec fn event_to_action_post(
    event: ChatEvent,
    pre: Configuration,
    post: Configuration,
    r: Option<ActionCategory>,
) -> bool {
    match event {
        ChatEvent::Message(m) => message_post(pre, post, m.content@, r),
        ChatEvent::Action(a) => action_post(pre, post, a.action_name@, a.action_id@, r),
    }
}

/// Match one event against the configuration; consume and hand out the
/// first executable option that fires.
#[verifier::rlimit(50)]
pub fn event_to_action(event: ChatEvent, config: &mut Configuration) -> (r: Option<
    ActionCategory,
>)
    ensures
        event_to_action_post(event, *old(config), *final(config), r),
{
    match event {
        ChatEvent::Message(message) => {
            let mut i: usize = 0;
            while i < config.message_options.len()
                invariant
                    event == ChatEvent::Message(message),
                    i <= config.message_options@.len(),
                    *config == *old(config),
                    forall|j: int|
                        0 <= j < i ==> !msg_matches(
                            #[trigger] old(config).message_options@[j],
                            message.content@,
                        ),
                decreases config.message_options@.len() - i,
            {
                let executable = config.message_options[i].can_be_executed();
                if executable && string_eq(&config.message_options[i].id, &message.content) {
                    let ghost pre_opts = config.message_options@;
                    let option = &mut config.message_options[i];
                    let actions = option.consume_actions();
                    proof {
                        assert(config.message_options@ =~= pre_opts.update(
                            i as int,
                            consumed(pre_opts[i as int]),
                        ));
                        assert(message_consumed_at(
                            old(config).message_options@,
                            config.message_options@,
                            message.content@,
                            category_view(actions),
                            i as int,
                        ));
                        assert(exists|w: int|
                            message_consumed_at(
                                old(config).message_options@,
                                config.message_options@,
                                message.content@,
                                category_view(actions),
                                w,
                            ));
                        assert(message_post(
                            *old(config),
                            *config,
                            message.content@,
                            Option::Some(actions),
                        ));
                    }
                    return Some(actions);
                }
                i = i + 1;
            }
            None
        },
        ChatEvent::Action(action) => {
            let mut i: usize = 0;
            while i < config.action_options.len()
                invariant
                    event == ChatEvent::Action(action),
                    i <= config.action_options@.len(),
                    *config == *old(config),
                    forall|j: int|
                        0 <= j < i ==> !act_matches(
                            #[trigger] old(config).action_options@[j],
                            action.action_name@,
                            action.action_id@,
                        ),
                decreases config.action_options@.len() - i,
            {
                let executable = config.action_options[i].can_be_executed();
                if executable && string_eq(
                    &config.action_options[i].action_name,
                    &action.action_name,
                ) {
                    let accepts = match &config.action_options[i].comparison {
                        Comparison::Exact(id) => string_eq(&action.action_id, id),
                        Comparison::Range(low_bound, up_bound) => comparison_range(
                            action.action_id.clone(),
                            *low_bound,
                            *up_bound,
                        ),
                    };
                    if accepts {
                        let ghost pre_opts = config.action_options@;
                        let option = &mut config.action_options[i];
                        let actions = option.consume_actions();
                        proof {
                            assert(config.action_options@ =~= pre_opts.update(
                                i as int,
                                consumed(pre_opts[i as int]),
                            ));
                            assert(action_consumed_at(
                                old(config).action_options@,
                                config.action_options@,
                                action.action_name@,
                                action.action_id@,
                                category_view(actions),
                                i as int,
                            ));
                            assert(exists|w: int|
                                action_consumed_at(
                                    old(config).action_options@,
                                    config.action_options@,
                                    action.action_name@,
                                    action.action_id@,
                                    category_view(actions),
                                    w,
                                ));
                            assert(action_post(
                                *old(config),
                                *config,
                                action.action_name@,
                                action.action_id@,
                                Option::Some(actions),
                            ));
                        }
                        return Some(actions);
                    }
                }
                i = i + 1;
            }
            None
        },
    }
}

/// The category name an option routes to, if it names one.
pub open spec fn category_name_of(cv: CategoryView) -> Option<Seq<char>> {
    match cv {
        CategoryView::WithCategory(name, _) => Some(name),
        CategoryView::Uncategorized(_) => Option::None,
    }
}

/// Whether some configured option routes to the category named `n`.
pub open spec fn has_custom_category(c: Configuration, n: Seq<char>) -> bool {
    (exists|i: int|
        0 <= i < c.message_options@.len() && category_name_of(
            category_view(#[trigger] c.message_options@[i].actions),
        ) == Some(n)) || (exists|i: int|
        0 <= i < c.action_options@.len() && category_name_of(
            category_view(#[trigger] c.action_options@[i].actions),
        ) == Some(n))
}

/// The configurable compiler: holds the compiled configuration and matches
/// incoming events against it.
pub struct ConfigurableEventToAction {
    pub configuration: Configuration,
}

impl ConfigurableEventToAction {
    pub fn new(configuration: Configuration) -> (r: ConfigurableEventToAction)
        ensures
            r.configuration == configuration,
    {
        ConfigurableEventToAction { configuration }
    }
}

impl EventToAction for ConfigurableEventToAction {
    fn execute(&mut self, event: ChatEvent) -> (r: Option<ActionCategory>)
        ensures
            event_to_action_post(event, old(self).configuration, final(self).configuration, r),
    {
        event_to_action(event, &mut self.configuration)
    }

    /// The distinct category names the configuration routes to, without
    /// duplicates, in no promised order.
    fn custom_categories(&mut self) -> (r: Vec<String>)
        ensures
            *final(self) == *old(self),
            forall|k: int|
                0 <= k < r@.len() ==> has_custom_category(
                    old(self).configuration,
                    #[trigger] r@[k]@,
                ),
            forall|n: Seq<char>|
                #[trigger] has_custom_category(old(self).configuration, n) ==> exists|k: int|
                    0 <= k < r@.len() && #[trigger] r@[k]@ == n,
            forall|k1: int, k2: int| 0 <= k1 < k2 < r@.len() ==> r@[k1]@ != r@[k2]@,
    {
        let mut categories_map: Vec<String> = Vec::new();
        let msgs = &self.configuration.message_options;
        let mut i: usize = 0;
        while i < msgs.len()
            invariant
                i <= msgs@.len(),
                msgs@ == self.configuration.message_options@,
                *self == *old(self),
                forall|k: int|
                    0 <= k < categories_map@.len() ==> has_custom_category(
                        self.configuration,
                        #[trigger] categories_map@[k]@,
                    ),
                forall|j: int|
                    0 <= j < i ==> (category_name_of(
                        category_view(#[trigger] msgs@[j].actions),
                    ) matches Some(n) ==> exists|k: int|
                        0 <= k < categories_map@.len() && #[trigger] categories_map@[k]@ == n),
                forall|k1: int, k2: int|
                    0 <= k1 < k2 < categories_map@.len() ==> categories_map@[k1]@
                        != categories_map@[k2]@,
            decreases msgs@.len() - i,
        {
            let ghost prev = categories_map@;
            match &msgs[i].actions {
                ActionCategory::WithCategory(category_name, _) => {
                    proof {
                        assert(category_name_of(category_view(msgs@[i as int].actions)) == Some(
                            category_name@,
                        ));
                    }
                    if !contains_string(&categories_map, category_name) {
                        categories_map.push(category_name.clone());
                        proof {
                            assert(categories_map@.last()@ == category_name@);
                            assert forall|j: int|
                                0 <= j < i + 1 implies (category_name_of(
                                category_view(#[trigger] msgs@[j].actions),
                            ) matches Some(n) ==> exists|k: int|
                                0 <= k < categories_map@.len() && #[trigger] categories_map@[k]@
                                    == n) by {
                                if j < i {
                                    match category_name_of(category_view(msgs@[j].actions)) {
                                        Some(n) => {
                                            let k = choose|k: int|
                                                0 <= k < prev.len() && #[trigger] prev[k]@ == n;
                                            assert(categories_map@[k]@ == n);
                                        },
                                        _ => {},
                                    }
                                } else {
                                    assert(categories_map@[categories_map@.len() - 1]@
                                        == category_name@);
                                }
                            }
                        }
                    }
                },
                _ => {
                    proof {
                        assert(category_name_of(category_view(msgs@[i as int].actions))
                            is None);
                    }
                },
            }
            i = i + 1;
        }
        let acts = &self.configuration.action_options;
        let mut i2: usize = 0;
        while i2 < acts.len()
            invariant
                i2 <= acts@.len(),
                acts@ == self.configuration.action_options@,
                *self == *old(self),
                forall|k: int|
                    0 <= k < categories_map@.len() ==> has_custom_category(
                        self.configuration,
                        #[trigger] categories_map@[k]@,
                    ),
                forall|j: int|
                    0 <= j < self.configuration.message_options@.len() ==> (category_name_of(
                        category_view(#[trigger] self.configuration.message_options@[j].actions),
                    ) matches Some(n) ==> exists|k: int|
                        0 <= k < categories_map@.len() && #[trigger] categories_map@[k]@ == n),
                forall|j: int|
                    0 <= j < i2 ==> (category_name_of(
                        category_view(#[trigger] acts@[j].actions),
                    ) matches Some(n) ==> exists|k: int|
                        0 <= k < categories_map@.len() && #[trigger] categories_map@[k]@ == n),
                forall|k1: int, k2: int|
                    0 <= k1 < k2 < categories_map@.len() ==> categories_map@[k1]@
                        != categories_map@[k2]@,
            decreases acts@.len() - i2,
        {
            let ghost prev = categories_map@;
            match &acts[i2].actions {
                ActionCategory::WithCategory(category_name, _) => {
                    proof {
                        assert(category_name_of(category_view(acts@[i2 as int].actions)) == Some(
                            category_name@,
                        ));
                    }
                    if !contains_string(&categories_map, category_name) {
                        categories_map.push(category_name.clone());
                        proof {
                            assert(categories_map@.last()@ == category_name@);
                            assert forall|j: int|
                                0 <= j < self.configuration.message_options@.len() implies (
                            category_name_of(
                                category_view(
                                    #[trigger] self.configuration.message_options@[j].actions,
                                ),
                            ) matches Some(n) ==> exists|k: int|
                                0 <= k < categories_map@.len() && #[trigger] categories_map@[k]@
                                    == n) by {
                                match category_name_of(
                                    category_view(self.configuration.message_options@[j].actions),
                                ) {
                                    Some(n) => {
                                        let k = choose|k: int|
                                            0 <= k < prev.len() && #[trigger] prev[k]@ == n;
                                        assert(categories_map@[k]@ == n);
                                    },
                                    _ => {},
                                }
                            }
                            assert forall|j: int|
                                0 <= j < i2 + 1 implies (category_name_of(
                                category_view(#[trigger] acts@[j].actions),
                            ) matches Some(n) ==> exists|k: int|
                                0 <= k < categories_map@.len() && #[trigger] categories_map@[k]@
                                    == n) by {
                                if j < i2 {
                                    match category_name_of(category_view(acts@[j].actions)) {
                                        Some(n) => {
                                            let k = choose|k: int|
                                                0 <= k < prev.len() && #[trigger] prev[k]@ == n;
                                            assert(categories_map@[k]@ == n);
                                        },
                                        _ => {},
                                    }
                                } else {
                                    assert(categories_map@[categories_map@.len() - 1]@
                                        == category_name@);
                                }
                            }
                        }
                    }
                },
                _ => {
                    proof {
                        assert(category_name_of(category_view(acts@[i2 as int].actions))
                            is None);
                    }
                },
            }
            i2 = i2 + 1;
        }
        categories_map
    }
}

impl StreamItemReceiver for ConfigurableEventToAction {
    type Item = ChatEvent;

    type Output = Option<ActionCategory>;

    fn receive(&mut self, event: ChatEvent) -> (r: Option<ActionCategory>)
        ensures
            event_to_action_post(event, old(self).configuration, final(self).configuration, r),
    {
        self.execute(event)
    }
}

} // verus!
