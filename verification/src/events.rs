//! Chat and channel events as they arrive from the stream interface, and
//! the moderator command that stops the whole run.

use vstd::prelude::*;
use vstd::string::StringExecFns;

use crate::text::string_eq;

verus! {

/// One tagged record from the event stream.
#[derive(Debug, Clone)]
pub enum ChatEvent {
    Message(ChatMessage),
    Action(ChatAction),
}

/// A plain chat message.
#[derive(Debug, Clone)]
pub struct ChatMessage {
    pub name: String,
    pub content: String,
    pub is_mod: bool,
}

/// A channel action (a reward redemption, bits, and the like).
#[derive(Debug, Clone)]
pub struct ChatAction {
    pub name: String,
    pub action_id: String,
    pub action_name: String,
}

pub open spec fn bool_text(b: bool) -> Seq<char> {
    if b {
        "true"@
    } else {
        "false"@
    }
}

/// The one-line rendering of an event, as shown in logs.
pub open spec fn event_text(e: ChatEvent) -> Seq<char> {
    match e {
        ChatEvent::Message(m) => m.name@ + ": "@ + m.content@ + " - mod: "@ + bool_text(m.is_mod),
        ChatEvent::Action(a) => a.name@ + ": "@ + a.action_name@ + " - "@ + a.action_id@,
    }
}

/// What `str::to_lowercase` returns for the given characters; the result
/// depends on the characters alone.
pub uninterp spec fn lower_of(s: Seq<char>) -> Seq<char>;

/// Relies on str::to_lowercase: Unicode lowercasing of the characters.
#[verifier::external_body]
fn lowercase(s: &str) -> (r: String)
    ensures
        r@ == lower_of(s@),
{
    s.to_lowercase()
}

/// A stop command: a moderator message whose lowercased text is `!stop`.
pub open spec fn is_stop_event(e: ChatEvent) -> bool {
    match e {
        ChatEvent::Message(m) => m.is_mod && lower_of(m.content@) == "!stop"@,
        ChatEvent::Action(_) => false,
    }
}

impl ChatEvent {
    /// Render the event on one line, as the logs show it.
    pub fn describe(&self) -> (r: String)
        ensures
            r@ == event_text(*self),
    {
        match self {
            ChatEvent::Message(m) => {
                let mut out = m.name.clone();
                out.append(": ");
                out.append(m.content.as_str());
                out.append(" - mod: ");
                if m.is_mod {
                    out.append("true");
                } else {
                    out.append("false");
                }
                out
            },
            ChatEvent::Action(a) => {
                let mut out = a.name.clone();
                out.append(": ");
                out.append(a.action_name.as_str());
                out.append(" - ");
                out.append(a.action_id.as_str());
                out
            },
        }
    }

    /// Whether this event is the moderator's stop command, which ends the
    /// whole run by closing the event stream.
    pub fn is_stop_command(&self) -> (r: bool)
        ensures
            r == is_stop_event(*self),
    {
        match self {
            ChatEvent::Message(m) => {
                if !m.is_mod {
                    return false;
                }
                let lowered = lowercase(m.content.as_str());
                let stop: String = "!stop".to_owned();
                string_eq(&lowered, &stop)
            },
            ChatEvent::Action(_) => false,
        }
    }
}

} // verus!
