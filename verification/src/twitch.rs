//! Plain values used by the stream connection: the connection options, the
//! keep-alive command body, and the moderator test applied to incoming
//! chat messages.  The connection itself lives outside the library and
//! hands in plain values.

use vstd::prelude::*;
use vstd::string::StringExecFns;

use crate::app_config::TwitchStreamConfig;
use crate::events::ChatAction;
use crate::events::ChatEvent;
use crate::text::dec_string_of;
use crate::text::lemma_dec_string_val;
use crate::text::string_eq;
use crate::text::u64_to_dec_string;
use crate::text::unsigned_val;

verus! {

/// Login, channel and credentials for the stream connection.
#[derive(Clone)]
pub struct TwitchConnectOptions {
    pub user: String,
    pub token: String,
    pub channel: String,
    pub client_id: String,
}

impl From<TwitchStreamConfig> for TwitchConnectOptions {
    fn from(config: TwitchStreamConfig) -> (r: Self) {
        TwitchConnectOptions {
            user: config.user,
            token: config.token,
            channel: config.channel,
            client_id: config.client_id,
        }
    }
}

impl vstd::std_specs::convert::FromSpecImpl<TwitchStreamConfig> for TwitchConnectOptions {
    open spec fn obeys_from_spec() -> bool {
        true
    }

    open spec fn from_spec(config: TwitchStreamConfig) -> Self {
        TwitchConnectOptions {
            user: config.user,
            token: config.token,
            channel: config.channel,
            client_id: config.client_id,
        }
    }
}

/// The keep-alive command sent over the event socket.
pub struct PingCommand {
    pub _type: String,
}

impl PingCommand {
    pub fn new() -> (r: PingCommand)
        ensures
            r._type@ == "PING"@,
    {
        PingCommand { _type: "PING".to_owned() }
    }
}

/// The channel event for a redeemed reward: the reward's title rides in
/// the action id, under the action name `reward_redeem`.
pub fn reward_redeem_event(user: String, reward_title: String) -> (r: ChatEvent)
    ensures
        (r matches ChatEvent::Action(a) && a.name == user && a.action_name@ == "reward_redeem"@
            && a.action_id == reward_title),
{
    ChatEvent::Action(ChatAction {
        name: user,
        action_name: "reward_redeem".to_owned(),
        action_id: reward_title,
    })
}

/// The channel event for spent bits: the bits count rides in the action id
/// as its decimal rendering, under the action name `bits`, so a numeric
/// range comparison on the id reads back exactly the count.
pub fn bits_event(user: String, bits_used: u64) -> (r: ChatEvent)
    ensures
        (r matches ChatEvent::Action(a) && a.name == user && a.action_name@ == "bits"@
            && a.action_id@ == dec_string_of(bits_used as nat) && unsigned_val(a.action_id@)
            == bits_used),
{
    proof {
        lemma_dec_string_val(bits_used as nat);
    }
    ChatEvent::Action(ChatAction {
        name: user,
        action_name: "bits".to_owned(),
        action_id: u64_to_dec_string(bits_used),
    })
}

/// Whether a chat message's sender counts as a moderator: either the
/// message carries the moderator tag value `1`, or the sender wears the
/// broadcaster badge.
pub fn sender_is_mod(mod_tag: Option<String>, badge_names: &Vec<String>) -> (r: bool)
    ensures
        r == ((mod_tag matches Some(v) && v@ == "1"@) || exists|i: int|
            0 <= i < badge_names@.len() && badge_names@[i]@ == "broadcaster"@),
{
    let has_mod_tag = match &mod_tag {
        Some(value) => string_eq(value, &"1".to_owned()),
        _ => false,
    };
    if has_mod_tag {
        return true;
    }
    let broadcaster: String = "broadcaster".to_owned();
    let mut i: usize = 0;
    while i < badge_names.len()
        invariant
            i <= badge_names@.len(),
            broadcaster@ == "broadcaster"@,
            forall|j: int| 0 <= j < i ==> badge_names@[j]@ != "broadcaster"@,
        decreases badge_names@.len() - i,
    {
        if string_eq(&badge_names[i], &broadcaster) {
            return true;
        }
        i = i + 1;
    }
    false
}

} // verus!
