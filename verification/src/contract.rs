use vstd::prelude::*;

verus! {

/// Whether a publication may cross broker bridges.
#[derive(Debug, Clone, Copy, PartialEq, Eq, Hash)]
pub enum Route {
    Global,
    Local,
}

impl Route {
    /// `Route::Local` keeps a publication on the broker it was sent to.
    pub fn is_local(&self) -> (local: bool)
        ensures
            local <==> *self is Local,
    {
        match self {
            Route::Global => false,
            Route::Local => true,
        }
    }
}

impl Default for Route {
    fn default() -> (route: Self)
        ensures
            route is Global,
    {
        Route::Global
    }
}

/// What a broker hands to a subscriber: the topic and either a text payload
/// (`bytes` is `None`) or a binary one (`payload` is empty).
pub struct Message {
    pub topic: String,
    pub payload: String,
    pub bytes: Option<Vec<u8>>,
}

impl Message {
    /// A text message on `topic`.
    pub fn new_text(topic: String, payload: String) -> (message: Message)
        ensures
            message.topic@ == topic@,
            message.payload@ == payload@,
            message.bytes is None,
    {
        Message { topic, payload, bytes: None }
    }

    /// A binary message on `topic`; its text payload is empty.
    pub fn new_binary(topic: String, bytes: Vec<u8>) -> (message: Message)
        ensures
            message.topic@ == topic@,
            message.payload@ == Seq::<char>::empty(),
            message.bytes == Some(bytes),
    {
        Message { topic, payload: String::new(), bytes: Some(bytes) }
    }

    /// The text payload, when the message carries no binary payload.
    pub fn text(&self) -> (text: Option<&str>)
        ensures
            self.bytes is None ==> text is Some && text.unwrap()@ == self.payload@,
            self.bytes is Some ==> text is None,
    {
        match &self.bytes {
            None => Some(self.payload.as_str()),
            Some(_) => None,
        }
    }

    /// The binary payload, when there is one.
    pub fn bytes(&self) -> (bytes: Option<&[u8]>)
        ensures
            self.bytes is None ==> bytes is None,
            self.bytes is Some ==> bytes is Some && bytes.unwrap()@ == self.bytes.unwrap()@,
    {
        match &self.bytes {
            None => None,
            Some(data) => Some(data.as_slice()),
        }
    }
}

impl Default for Message {
    fn default() -> (message: Self)
        ensures
            message.topic@ == Seq::<char>::empty(),
            message.payload@ == Seq::<char>::empty(),
            message.bytes is None,
    {
        Message { topic: String::new(), payload: String::new(), bytes: None }
    }
}

/// What peers send to a broker, over TCP or a WebSocket.
#[allow(inconsistent_fields)]
pub enum PeerEvent {
    Hello { id: String },
    Subscribe { id: String, topic: String },
    Unsubscribe { id: String, topic: String },
    PublishText { id: String, topic: String, payload: String, local_only: bool },
    PublishBinary { id: String, topic: String, payload: Vec<u8>, local_only: bool },
    OpenBridge { id: String, source_address: String, target_address: String, ack: bool },
    CloseBridge { id: String, target_address: String, ack: bool },
    ForwardText {
        id: String,
        topic: String,
        payload: String,
        local_only: bool,
        visited: Vec<String>,
        sequence: u64,
    },
    ForwardBinary {
        id: String,
        topic: String,
        payload: Vec<u8>,
        local_only: bool,
        visited: Vec<String>,
        sequence: u64,
    },
}

/// The broker's own topics: announcements it makes and introspection
/// requests it answers.
pub enum BrokerContract {
    PeerConnected { id: String },
    RequestPeers,
    ReportPeers { peers: Vec<String> },
    RequestSubscriptions,
    ReportSubscriptions { subscriptions: Vec<(String, Vec<String>)> },
    BridgeCreated { id: String, source_address: String, target_address: String },
    RequestBridges,
    ReportBridges { bridges: Vec<String> },
}

pub open spec fn peer_connected_topic_spec() -> Seq<char> {
    "hearsay/peers/connected"@
}

pub open spec fn request_peers_topic_spec() -> Seq<char> {
    "hearsay/peers/request"@
}

pub open spec fn report_peers_topic_spec() -> Seq<char> {
    "hearsay/peers/report"@
}

pub open spec fn request_subscriptions_topic_spec() -> Seq<char> {
    "hearsay/subscriptions/request"@
}

pub open spec fn report_subscriptions_topic_spec() -> Seq<char> {
    "hearsay/subscriptions/report"@
}

pub open spec fn bridge_created_topic_spec() -> Seq<char> {
    "hearsay/bridges/created"@
}

pub open spec fn request_bridges_topic_spec() -> Seq<char> {
    "hearsay/bridges/request"@
}

pub open spec fn report_bridges_topic_spec() -> Seq<char> {
    "hearsay/bridges/report"@
}

impl BrokerContract {
    pub fn peer_connected_topic() -> (topic: String)
        ensures
            topic@ == peer_connected_topic_spec(),
    {
        String::from_str("hearsay/peers/connected")
    }

    pub fn request_peers_topic() -> (topic: String)
        ensures
            topic@ == request_peers_topic_spec(),
    {
        String::from_str("hearsay/peers/request")
    }

    pub fn report_peers_topic() -> (topic: String)
        ensures
            topic@ == report_peers_topic_spec(),
    {
        String::from_str("hearsay/peers/report")
    }

    pub fn request_subscriptions_topic() -> (topic: String)
        ensures
            topic@ == request_subscriptions_topic_spec(),
    {
        String::from_str("hearsay/subscriptions/request")
    }

    pub fn report_subscriptions_topic() -> (topic: String)
        ensures
            topic@ == report_subscriptions_topic_spec(),
    {
        String::from_str("hearsay/subscriptions/report")
    }

    pub fn bridge_created_topic() -> (topic: String)
        ensures
            topic@ == bridge_created_topic_spec(),
    {
        String::from_str("hearsay/bridges/created")
    }

    pub fn request_bridges_topic() -> (topic: String)
        ensures
            topic@ == request_bridges_topic_spec(),
    {
        String::from_str("hearsay/bridges/request")
    }

    pub fn report_bridges_topic() -> (topic: String)
        ensures
            topic@ == report_bridges_topic_spec(),
    {
        String::from_str("hearsay/bridges/report")
    }
}

/// The prefix that marks a topic as the broker's own; such messages travel on
/// a peer's control queue.
pub open spec fn control_prefix() -> Seq<char> {
    "hearsay/"@
}

pub open spec fn has_prefix(text: Seq<char>, prefix: Seq<char>) -> bool {
    prefix.len() <= text.len() && text.subrange(0, prefix.len() as int) == prefix
}

/// Whether `text` begins with `prefix`.
pub fn starts_with(text: &str, prefix: &str) -> (result: bool)
    ensures
        result == has_prefix(text@, prefix@),
{
    let text_len = text.unicode_len();
    let prefix_len = prefix.unicode_len();
    if prefix_len > text_len {
        return false;
    }
    let mut index: usize = 0;
    while index < prefix_len
        invariant
            text_len == text@.len(),
            prefix_len == prefix@.len(),
            prefix_len <= text_len,
            index <= prefix_len,
            forall|j: int| 0 <= j < index ==> text@[j] == prefix@[j],
        decreases prefix_len - index,
    {
        if text.get_char(index) != prefix.get_char(index) {
            assert(text@.subrange(0, prefix@.len() as int)[index as int] != prefix@[index as int]);
            return false;
        }
        index = index + 1;
    }
    assert(text@.subrange(0, prefix@.len() as int) =~= prefix@);
    true
}

/// Whether `topic` is one of the broker's own topics.
pub fn is_control_topic(topic: &str) -> (control: bool)
    ensures
        control == has_prefix(topic@, control_prefix()),
{
    starts_with(topic, "hearsay/")
}

} // verus!
