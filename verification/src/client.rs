//! A client's own bookkeeping: its id, whether it is connected, which topics
//! it is subscribed to and which subscriptions wait for a connection, and the
//! events it sends a broker.
use crate::contract::{Message, PeerEvent, Route};
use crate::topics::{contains_name, names, retain_others, with_name, without};
use core::time::Duration;
use vstd::prelude::*;

verus! {

/// How a client connects.
pub struct ClientSettings {
    /// Number of additional connection attempts after the first failure
    /// before connecting gives up: `Some(0)` makes a single attempt,
    /// `Some(n)` retries up to `n` more times, `None` retries forever.
    pub max_connection_attempts: Option<u16>,
    pub autoreconnect: bool,
    pub timeout_per_attempt: Duration,
    pub read_timeout: Option<Duration>,
}

/// `std::time::Duration::from_secs`: a duration of `secs` seconds. Nothing
/// is stated of the value, which Verus sees as opaque.
#[verifier::external_body]
fn seconds(secs: u64) -> Duration {
    Duration::from_secs(secs)
}

impl Default for ClientSettings {
    /// A hundred retries, reconnection on, two seconds per attempt, no read
    /// timeout.
    fn default() -> (settings: Self)
        ensures
            settings.max_connection_attempts == Some(100u16),
            settings.autoreconnect,
            settings.read_timeout is None,
    {
        ClientSettings {
            max_connection_attempts: Some(100),
            autoreconnect: true,
            timeout_per_attempt: seconds(2),
            read_timeout: None,
        }
    }
}

/// What a non-blocking receive found: a message, an empty queue on a live
/// connection, or a closed connection.
pub enum Reception {
    Message(Message),
    Empty,
    Disconnected,
}

/// `uuid::Uuid::new_v4()` written with its `Display` impl: a random version 4
/// UUID in lower-case hyphenated form. The claim is the form the crate's
/// `format_hyphenated` writes: 36 characters, hyphens at 8, 13, 18 and 23,
/// lower-case hex digits elsewhere, the version digit `4` at 14. Which digits
/// come is chance and is not stated.
#[verifier::external_body]
pub(crate) fn random_uuid() -> (text: String)
    ensures
        uuid_shaped(text@),
{
    uuid::Uuid::new_v4().to_string()
}

pub open spec fn is_lower_hex(c: char) -> bool {
    ('0' <= c && c <= '9') || ('a' <= c && c <= 'f')
}

/// The shape of a hyphenated lower-case version 4 UUID.
pub open spec fn uuid_shaped(text: Seq<char>) -> bool {
    &&& text.len() == 36
    &&& forall|i: int|
        0 <= i < 36 ==> if i == 8 || i == 13 || i == 18 || i == 23 {
            text[i] == '-'
        } else {
            is_lower_hex(#[trigger] text[i])
        }
    &&& text[14] == '4'
}

/// The id a new client gets: its name, an underscore and a random UUID.
pub fn client_id_for(name: &str) -> (id: String)
    ensures
        id@.len() == name@.len() + 37,
        id@.subrange(0, name@.len() as int) == name@,
        id@[name@.len() as int] == '_',
        uuid_shaped(id@.subrange(name@.len() as int + 1, id@.len() as int)),
{
    let suffix = random_uuid();
    let mut id = String::from_str(name);
    id.append("_");
    proof {
        reveal_strlit("_");
    }
    let ghost prefix = id@;
    id.append(suffix.as_str());
    assert(id@.subrange(0, name@.len() as int) =~= name@);
    assert(id@.subrange(name@.len() as int + 1, id@.len() as int) =~= suffix@);
    id
}

/// Adds `name` to a list of distinct names unless it is there.
pub fn insert_name(list: &mut Vec<String>, name: &String)
    ensures
        names(final(list)@) == with_name(names(old(list)@), name@),
{
    if !contains_name(list, name) {
        let ghost before = list@;
        list.push(name.clone());
        assert(names(list@) =~= names(before).push(name@));
    }
}

/// A client's state.
pub struct ClientState {
    pub id: String,
    pub connected: bool,
    pub subscriptions: Vec<String>,
    pub pending_subscriptions: Vec<String>,
    pub broker_address: Option<String>,
    pub reconnection_task_spawned: bool,
}

impl ClientState {
    /// The topics the client is subscribed to.
    pub open spec fn subscribed(&self) -> Seq<Seq<char>> {
        names(self.subscriptions@)
    }

    /// The topics waiting for a connection to be subscribed.
    pub open spec fn pending(&self) -> Seq<Seq<char>> {
        names(self.pending_subscriptions@)
    }

    /// A client that has not connected yet.
    pub fn new(id: String) -> (state: ClientState)
        ensures
            state.id == id,
            !state.connected,
            state.subscribed().len() == 0,
            state.pending().len() == 0,
            state.broker_address is None,
            !state.reconnection_task_spawned,
    {
        let state = ClientState {
            id,
            connected: false,
            subscriptions: Vec::new(),
            pending_subscriptions: Vec::new(),
            broker_address: None,
            reconnection_task_spawned: false,
        };
        assert(state.subscribed() =~= Seq::<Seq<char>>::empty());
        assert(state.pending() =~= Seq::<Seq<char>>::empty());
        state
    }

    /// Renames the client; a bridge takes the id of the peer that asked for it.
    pub fn assign_client_id(&mut self, id: &str)
        ensures
            final(self).id@ == id@,
            final(self).connected == old(self).connected,
            final(self).subscriptions == old(self).subscriptions,
            final(self).pending_subscriptions == old(self).pending_subscriptions,
            final(self).broker_address == old(self).broker_address,
            final(self).reconnection_task_spawned == old(self).reconnection_task_spawned,
    {
        self.id = String::from_str(id);
    }

    /// The first half of subscribing to `topic`: offline, the topic waits
    /// for the connection and nothing is sent; online, the client sends a
    /// subscription.
    pub fn subscribe_request(&mut self, topic: &String) -> (event: Option<PeerEvent>)
        ensures
            final(self).id == old(self).id,
            final(self).connected == old(self).connected,
            final(self).subscriptions == old(self).subscriptions,
            !old(self).connected ==> event is None && final(self).pending() == with_name(old(self).pending(), topic@),
            old(self).connected ==> final(self).pending_subscriptions == old(self).pending_subscriptions,
            old(self).connected ==> (event matches Some(PeerEvent::Subscribe { id, topic: subscribed }) && id@
                == old(self).id@ && subscribed@ == topic@),
    {
        if !self.connected {
            insert_name(&mut self.pending_subscriptions, topic);
            None
        } else {
            Some(PeerEvent::Subscribe { id: self.id.clone(), topic: topic.clone() })
        }
    }

    /// The second half of subscribing online: a sent subscription holds; one
    /// that could not be sent waits for the next connection.
    pub fn subscribe_sent(&mut self, topic: &String, sent: bool)
        ensures
            final(self).id == old(self).id,
            final(self).connected == old(self).connected,
            sent ==> final(self).subscribed() == with_name(old(self).subscribed(), topic@)
                && final(self).pending_subscriptions == old(self).pending_subscriptions,
            !sent ==> final(self).pending() == with_name(old(self).pending(), topic@)
                && final(self).subscriptions == old(self).subscriptions,
    {
        if sent {
            insert_name(&mut self.subscriptions, topic);
        } else {
            insert_name(&mut self.pending_subscriptions, topic);
        }
    }

    /// Unsubscribing from `topic`: it is forgotten at once, whether
    /// subscribed or waiting; online, the client also tells the broker.
    pub fn unsubscribe_request(&mut self, topic: &String) -> (event: Option<PeerEvent>)
        ensures
            final(self).id == old(self).id,
            final(self).connected == old(self).connected,
            final(self).subscribed() == without(old(self).subscribed(), topic@),
            final(self).pending() == without(old(self).pending(), topic@),
            !old(self).connected ==> event is None,
            old(self).connected ==> (event matches Some(PeerEvent::Unsubscribe { id, topic: dropped }) && id@
                == old(self).id@ && dropped@ == topic@),
    {
        self.pending_subscriptions = retain_others(&self.pending_subscriptions, topic);
        self.subscriptions = retain_others(&self.subscriptions, topic);
        if self.connected {
            Some(PeerEvent::Unsubscribe { id: self.id.clone(), topic: topic.clone() })
        } else {
            None
        }
    }

    /// The topics to subscribe to on (re)connection: the subscribed ones,
    /// then the waiting ones not among them.
    pub fn resubscription_topics(&self) -> (topics: Vec<String>)
        ensures
            forall|topic: Seq<char>|
                #[trigger] names(topics@).contains(topic) <==> self.subscribed().contains(topic) || self.pending().contains(
                    topic,
                ),
    {
        let mut topics: Vec<String> = crate::topics::copy_names(&self.subscriptions);
        let mut index: usize = 0;
        while index < self.pending_subscriptions.len()
            invariant
                index <= self.pending_subscriptions@.len(),
                forall|topic: Seq<char>|
                    #[trigger] names(topics@).contains(topic) <==> self.subscribed().contains(topic) || self.pending().take(
                        index as int,
                    ).contains(topic),
            decreases self.pending_subscriptions@.len() - index,
        {
            let ghost before = topics@;
            insert_name(&mut topics, &self.pending_subscriptions[index]);
            proof {
                let next = self.pending().take(index as int + 1);
                let current = self.pending().take(index as int);
                let p = self.pending()[index as int];
                assert(next =~= current.push(p));
                assert forall|topic: Seq<char>| #[trigger] names(topics@).contains(topic) <==> self.subscribed().contains(
                    topic,
                ) || next.contains(topic) by {
                    crate::topics::lemma_with_name_contains(names(before), p, topic);
                    crate::topics::lemma_push_contains(current, p, topic);
                    assert(names(before).contains(topic) <==> self.subscribed().contains(topic) || current.contains(topic));
                }
            }
            index = index + 1;
        }
        assert(self.pending().take(self.pending_subscriptions@.len() as int) =~= self.pending());
        topics
    }

    /// A resubscription went through: the topic is subscribed and no longer
    /// waits.
    pub fn subscription_confirmed(&mut self, topic: &String)
        ensures
            final(self).id == old(self).id,
            final(self).connected == old(self).connected,
            final(self).subscribed() == with_name(old(self).subscribed(), topic@),
            final(self).pending() == without(old(self).pending(), topic@),
    {
        insert_name(&mut self.subscriptions, topic);
        self.pending_subscriptions = retain_others(&self.pending_subscriptions, topic);
    }

    /// The connection is up.
    pub fn mark_connected(&mut self)
        ensures
            final(self).connected,
            final(self).id == old(self).id,
            final(self).subscriptions == old(self).subscriptions,
            final(self).pending_subscriptions == old(self).pending_subscriptions,
            final(self).broker_address == old(self).broker_address,
            final(self).reconnection_task_spawned == old(self).reconnection_task_spawned,
    {
        self.connected = true;
    }

    /// The connection is gone; subscriptions are kept for the next one.
    pub fn mark_disconnected(&mut self)
        ensures
            !final(self).connected,
            final(self).id == old(self).id,
            final(self).subscriptions == old(self).subscriptions,
            final(self).pending_subscriptions == old(self).pending_subscriptions,
            final(self).broker_address == old(self).broker_address,
            final(self).reconnection_task_spawned == old(self).reconnection_task_spawned,
    {
        self.connected = false;
    }

    /// The introduction a client sends first on every connection.
    pub fn hello_event(&self) -> (event: PeerEvent)
        ensures
            event matches PeerEvent::Hello { id } && id@ == self.id@,
    {
        PeerEvent::Hello { id: self.id.clone() }
    }

    /// A text publication under the client's id.
    pub fn publish_json(&self, topic: &str, payload: &str, route: Route) -> (event: PeerEvent)
        ensures
            event matches PeerEvent::PublishText { id, topic: t, payload: p, local_only } && id@ == self.id@
                && t@ == topic@ && p@ == payload@ && local_only == (route is Local),
    {
        PeerEvent::PublishText {
            id: self.id.clone(),
            topic: String::from_str(topic),
            payload: String::from_str(payload),
            local_only: route.is_local(),
        }
    }

    /// A binary publication under the client's id.
    pub fn publish_bytes(&self, topic: &str, payload: &[u8], route: Route) -> (event: PeerEvent)
        ensures
            event matches PeerEvent::PublishBinary { id, topic: t, payload: p, local_only } && id@ == self.id@
                && t@ == topic@ && p@ == payload@ && local_only == (route is Local),
    {
        PeerEvent::PublishBinary {
            id: self.id.clone(),
            topic: String::from_str(topic),
            payload: vstd::slice::slice_to_vec(payload),
            local_only: route.is_local(),
        }
    }

    /// A text publication a bridge passes on, with its origin details.
    pub fn forward_text(&self, topic: &str, payload: &str, visited: Vec<String>, sequence: u64) -> (event:
        PeerEvent)
        ensures
            event matches PeerEvent::ForwardText { id, topic: t, payload: p, local_only, visited: v, sequence: s }
                && id@ == self.id@ && t@ == topic@ && p@ == payload@ && !local_only && v == visited && s == sequence,
    {
        PeerEvent::ForwardText {
            id: self.id.clone(),
            topic: String::from_str(topic),
            payload: String::from_str(payload),
            local_only: false,
            visited,
            sequence,
        }
    }

    /// A binary publication a bridge passes on, with its origin details.
    pub fn forward_bytes(&self, topic: &str, payload: &[u8], visited: Vec<String>, sequence: u64) -> (event:
        PeerEvent)
        ensures
            event matches PeerEvent::ForwardBinary { id, topic: t, payload: p, local_only, visited: v, sequence: s }
                && id@ == self.id@ && t@ == topic@ && p@ == payload@ && !local_only && v == visited && s == sequence,
    {
        PeerEvent::ForwardBinary {
            id: self.id.clone(),
            topic: String::from_str(topic),
            payload: vstd::slice::slice_to_vec(payload),
            local_only: false,
            visited,
            sequence,
        }
    }

    /// Asks the broker to bridge `source_address` to `target_address`; `ack`
    /// marks the request the far broker sends back.
    pub fn open_bridge_acked(&self, source_address: &str, target_address: &str, ack: bool) -> (event: PeerEvent)
        ensures
            event matches PeerEvent::OpenBridge { id, source_address: s, target_address: t, ack: a } && id@
                == self.id@ && s@ == source_address@ && t@ == target_address@ && a == ack,
    {
        PeerEvent::OpenBridge {
            id: self.id.clone(),
            source_address: String::from_str(source_address),
            target_address: String::from_str(target_address),
            ack,
        }
    }

    /// Asks the broker to close its bridges to `target_address`.
    pub fn close_bridge(&self, target_address: &str) -> (event: PeerEvent)
        ensures
            event matches PeerEvent::CloseBridge { id, target_address: t, ack } && id@ == Seq::<char>::empty()
                && t@ == target_address@ && !ack,
    {
        PeerEvent::CloseBridge { id: String::new(), target_address: String::from_str(target_address), ack: false }
    }

    /// Tells the far broker that bridge `id` closes.
    pub fn notify_close_bridge(&self, id: &str) -> (event: PeerEvent)
        ensures
            event matches PeerEvent::CloseBridge { id: i, target_address, ack } && i@ == id@
                && target_address@ == Seq::<char>::empty() && ack,
    {
        PeerEvent::CloseBridge { id: String::from_str(id), target_address: String::new(), ack: true }
    }
}

/// After a failed connection attempt numbered `attempt`: the next number, or
/// `None` when the settings allow no more.
pub fn next_attempt(attempt: u16, max_connection_attempts: Option<u16>) -> (next: Option<u16>)
    requires
        max_connection_attempts is None ==> attempt < u16::MAX,
    ensures
        match max_connection_attempts {
            Some(max) => if attempt >= max {
                next is None
            } else {
                next == Some((attempt + 1) as u16)
            },
            None => next == Some((attempt + 1) as u16),
        },
{
    match max_connection_attempts {
        Some(max) => if attempt >= max {
            None
        } else {
            Some(attempt + 1)
        },
        None => Some(attempt + 1),
    }
}

/// The first wait between reconnection checks, in milliseconds.
pub const RECONNECTION_INTERVAL_MILLIS: u64 = 2000;

/// The longest wait between reconnection checks, in milliseconds.
pub const MAX_RECONNECTION_BACKOFF_MILLIS: u64 = 30000;

/// The wait after a failed reconnection: double the last one, at most the
/// longest wait.
pub fn next_backoff_millis(backoff: u64) -> (next: u64)
    requires
        backoff <= MAX_RECONNECTION_BACKOFF_MILLIS,
    ensures
        next == if 2 * backoff < MAX_RECONNECTION_BACKOFF_MILLIS {
            2 * backoff
        } else {
            MAX_RECONNECTION_BACKOFF_MILLIS as int
        },
{
    if 2 * backoff < MAX_RECONNECTION_BACKOFF_MILLIS {
        2 * backoff
    } else {
        MAX_RECONNECTION_BACKOFF_MILLIS
    }
}

/// A topic unsubscribed from, online or offline, is neither subscribed nor
/// waiting afterwards, so no later reconnection subscribes to it again.
pub proof fn lemma_unsubscribed_topics_are_not_restored(before: ClientState, after: ClientState, topic: Seq<char>)
    requires
        after.subscribed() == without(before.subscribed(), topic),
        after.pending() == without(before.pending(), topic),
    ensures
        !after.subscribed().contains(topic),
        !after.pending().contains(topic),
{
    crate::topics::lemma_without_facts(before.subscribed(), topic);
    crate::topics::lemma_without_facts(before.pending(), topic);
}

/// A topic subscribed to while offline waits for the connection, and is
/// among the topics subscribed to when the client connects.
pub proof fn lemma_offline_subscriptions_wait_for_connection(
    before: ClientState,
    after: ClientState,
    topic: Seq<char>,
)
    requires
        after.pending() == with_name(before.pending(), topic),
    ensures
        after.pending().contains(topic),
{
    crate::topics::lemma_with_name_contains(before.pending(), topic, topic);
}

} // verus!
