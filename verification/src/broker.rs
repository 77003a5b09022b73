//! The broker's decisions. `BrokerState` holds what the broker knows: its
//! peers, their subscriptions, its bridges and the messages it has seen.
//! Each event a peer sends becomes a list of `BrokerAction`s, which the
//! runtime around the broker carries out on sockets and queues.
use crate::contract::{
    has_prefix, control_prefix, is_control_topic, request_bridges_topic_spec, request_peers_topic_spec,
    request_subscriptions_topic_spec, BrokerContract, Message, PeerEvent,
};
use crate::bridge::{bridge_ids, BridgeEntry, BridgeRegistry};
use crate::dedup::OriginTracker;
use crate::topics::{copy_names, names, no_duplicates, TopicEntry, TopicTable};
use vstd::prelude::*;

verus! {

/// The name under which the broker publishes its introspection reports.
pub open spec fn broker_id_spec() -> Seq<char> {
    "broker"@
}

/// A connected peer, and the number of the connection it came in on.
pub struct PeerEntry {
    pub id: String,
    pub generation: u64,
}

/// One peer a message goes to.
pub struct Recipient {
    pub peer: String,
    pub generation: u64,
}

/// A publication's payload as it crosses a bridge.
pub enum ForwardPayload {
    Text(String),
    Binary(Vec<u8>),
}

/// A report the broker publishes about itself.
pub enum Report {
    PeerConnected { id: String },
    Subscriptions { subscriptions: Vec<(String, Vec<String>)> },
    Peers { peers: Vec<String> },
    Bridges { bridges: Vec<String> },
    BridgeCreated { id: String, source_address: String, target_address: String },
}

/// What the broker's runtime is to do.
pub enum BrokerAction {
    /// Start the writer for a newly connected peer, replacing any earlier one
    /// under the same id.
    StartWriter { peer: String, generation: u64 },
    /// Hand a publication to a bridge; a full bridge queue drops it.
    Forward {
        bridge: String,
        topic: String,
        payload: ForwardPayload,
        visited: Vec<String>,
        sequence: u64,
    },
    /// Send `message` to each recipient, on its control queue when `control`
    /// holds and on its data queue otherwise. A full control queue
    /// disconnects the peer; a full data queue drops the message.
    Deliver { message: Message, control: bool, recipients: Vec<Recipient> },
    /// Encode `report` as JSON and publish it with these origin details.
    Announce { publisher: String, report: Report, visited: Vec<String>, sequence: u64 },
    /// Shut a bridge down, telling the broker across it first when
    /// `notify_remote` holds.
    CloseBridge { bridge: String, notify_remote: bool },
    /// Connect a bridge client to `target_address`; on success the runtime
    /// announces the bridge through `announce_bridge` when `ack` holds, and
    /// otherwise asks the broker across it to bridge back, then keeps it with
    /// `register_bridge`.
    ConnectBridge {
        requester: String,
        override_id: Option<String>,
        source_address: String,
        target_address: String,
        ack: bool,
    },
}

/// What reaches the broker's event loop.
pub enum BrokerEvent {
    /// A connection introduced itself as `id`.
    Hello { id: String },
    /// Anything else a peer sent.
    Peer(PeerEvent),
    /// The writer of connection `generation` of peer `name` stopped.
    Disconnected { name: String, generation: u64 },
}

pub enum PayloadModel {
    Text(Seq<char>),
    Binary(Seq<u8>),
}

pub enum ReportModel {
    PeerConnected { id: Seq<char> },
    Subscriptions { subscriptions: Seq<(Seq<char>, Seq<Seq<char>>)> },
    Peers { peers: Seq<Seq<char>> },
    Bridges { bridges: Seq<Seq<char>> },
    BridgeCreated { id: Seq<char>, source_address: Seq<char>, target_address: Seq<char> },
}

#[allow(inconsistent_fields)]
pub enum ActionModel {
    StartWriter { peer: Seq<char>, generation: u64 },
    Forward { bridge: Seq<char>, topic: Seq<char>, payload: PayloadModel, visited: Seq<Seq<char>>, sequence: u64 },
    Deliver {
        topic: Seq<char>,
        payload: Seq<char>,
        bytes: Option<Seq<u8>>,
        control: bool,
        recipients: Seq<(Seq<char>, u64)>,
    },
    Announce { publisher: Seq<char>, report: ReportModel, visited: Seq<Seq<char>>, sequence: u64 },
    CloseBridge { bridge: Seq<char>, notify_remote: bool },
    ConnectBridge {
        requester: Seq<char>,
        override_id: Option<Seq<char>>,
        source_address: Seq<char>,
        target_address: Seq<char>,
        ack: bool,
    },
}

impl View for ForwardPayload {
    type V = PayloadModel;

    open spec fn view(&self) -> PayloadModel {
        match self {
            ForwardPayload::Text(text) => PayloadModel::Text(text@),
            ForwardPayload::Binary(bytes) => PayloadModel::Binary(bytes@),
        }
    }
}

pub open spec fn pair_view(pair: (String, Vec<String>)) -> (Seq<char>, Seq<Seq<char>>) {
    (pair.0@, names(pair.1@))
}

pub open spec fn pairs_view(pairs: Seq<(String, Vec<String>)>) -> Seq<(Seq<char>, Seq<Seq<char>>)> {
    pairs.map_values(|pair: (String, Vec<String>)| pair_view(pair))
}

impl View for Report {
    type V = ReportModel;

    open spec fn view(&self) -> ReportModel {
        match self {
            Report::PeerConnected { id } => ReportModel::PeerConnected { id: id@ },
            Report::Subscriptions { subscriptions } => ReportModel::Subscriptions {
                subscriptions: pairs_view(subscriptions@),
            },
            Report::Peers { peers } => ReportModel::Peers { peers: names(peers@) },
            Report::Bridges { bridges } => ReportModel::Bridges { bridges: names(bridges@) },
            Report::BridgeCreated { id, source_address, target_address } => ReportModel::BridgeCreated {
                id: id@,
                source_address: source_address@,
                target_address: target_address@,
            },
        }
    }
}

pub open spec fn recipient_view(recipient: Recipient) -> (Seq<char>, u64) {
    (recipient.peer@, recipient.generation)
}

pub open spec fn recipients_view(recipients: Seq<Recipient>) -> Seq<(Seq<char>, u64)> {
    recipients.map_values(|recipient: Recipient| recipient_view(recipient))
}

pub open spec fn bytes_view(bytes: Option<Vec<u8>>) -> Option<Seq<u8>> {
    match bytes {
        Some(data) => Some(data@),
        None => None,
    }
}

impl View for BrokerAction {
    type V = ActionModel;

    open spec fn view(&self) -> ActionModel {
        match self {
            BrokerAction::StartWriter { peer, generation } => ActionModel::StartWriter {
                peer: peer@,
                generation: *generation,
            },
            BrokerAction::Forward { bridge, topic, payload, visited, sequence } => ActionModel::Forward {
                bridge: bridge@,
                topic: topic@,
                payload: payload@,
                visited: names(visited@),
                sequence: *sequence,
            },
            BrokerAction::Deliver { message, control, recipients } => ActionModel::Deliver {
                topic: message.topic@,
                payload: message.payload@,
                bytes: bytes_view(message.bytes),
                control: *control,
                recipients: recipients_view(recipients@),
            },
            BrokerAction::Announce { publisher, report, visited, sequence } => ActionModel::Announce {
                publisher: publisher@,
                report: report@,
                visited: names(visited@),
                sequence: *sequence,
            },
            BrokerAction::CloseBridge { bridge, notify_remote } => ActionModel::CloseBridge {
                bridge: bridge@,
                notify_remote: *notify_remote,
            },
            BrokerAction::ConnectBridge { requester, override_id, source_address, target_address, ack } =>
                ActionModel::ConnectBridge {
                requester: requester@,
                override_id: match override_id {
                    Some(id) => Some(id@),
                    None => None,
                },
                source_address: source_address@,
                target_address: target_address@,
                ack: *ack,
            },
        }
    }
}

pub open spec fn actions_view(actions: Seq<BrokerAction>) -> Seq<ActionModel> {
    actions.map_values(|action: BrokerAction| action@)
}

pub open spec fn peer_ids(peers: Seq<PeerEntry>) -> Seq<Seq<char>> {
    peers.map_values(|peer: PeerEntry| peer.id@)
}

pub open spec fn peer_index(peers: Seq<PeerEntry>, name: Seq<char>) -> int {
    choose|i: int| 0 <= i < peers.len() && #[trigger] peers[i].id@ == name
}

pub open spec fn is_peer(peers: Seq<PeerEntry>, name: Seq<char>) -> bool {
    exists|i: int| 0 <= i < peers.len() && #[trigger] peers[i].id@ == name
}

/// The generation of `name`'s connection.
pub open spec fn generation_of(peers: Seq<PeerEntry>, name: Seq<char>) -> u64 {
    peers[peer_index(peers, name)].generation
}

pub open spec fn distinct_ids(peers: Seq<PeerEntry>) -> bool {
    forall|i: int, j: int| 0 <= i < j < peers.len() ==> #[trigger] peers[i].id@ != #[trigger] peers[j].id@
}

/// The subscribers that are connected, in subscription order, each with the
/// generation of its connection.
pub open spec fn recipients_of(peers: Seq<PeerEntry>, subscribers: Seq<Seq<char>>) -> Seq<(Seq<char>, u64)>
    decreases subscribers.len(),
{
    if subscribers.len() == 0 {
        Seq::empty()
    } else {
        let rest = recipients_of(peers, subscribers.drop_last());
        if is_peer(peers, subscribers.last()) {
            rest.push((subscribers.last(), generation_of(peers, subscribers.last())))
        } else {
            rest
        }
    }
}

/// One forward per bridge, in bridge order, except the bridge the
/// publication came in on.
pub open spec fn forwards_of(
    bridges: Seq<BridgeEntry>,
    publisher: Seq<char>,
    topic: Seq<char>,
    payload: PayloadModel,
    visited: Seq<Seq<char>>,
    sequence: u64,
) -> Seq<ActionModel>
    decreases bridges.len(),
{
    if bridges.len() == 0 {
        Seq::empty()
    } else {
        let rest = forwards_of(bridges.drop_last(), publisher, topic, payload, visited, sequence);
        if bridges.last().id@ != publisher {
            rest.push(ActionModel::Forward { bridge: bridges.last().id@, topic, payload, visited, sequence })
        } else {
            rest
        }
    }
}

/// What the broker knows.
pub struct BrokerState {
    pub instance_id: String,
    pub publish_counter: u64,
    pub origins: OriginTracker,
    pub peers: Vec<PeerEntry>,
    pub generation_counter: u64,
    pub subscriptions: TopicTable,
    pub bridges: BridgeRegistry,
}

impl BrokerState {
    pub open spec fn wf(&self) -> bool {
        &&& self.origins.wf()
        &&& self.subscriptions.wf()
        &&& distinct_ids(self.peers@)
    }

    /// The delivery a publication on `topic` makes: one, when the topic has
    /// an entry in the subscription table, to its connected subscribers.
    pub open spec fn delivery_of(&self, topic: Seq<char>, payload: PayloadModel) -> Seq<ActionModel> {
        if self.subscriptions.has_topic(topic) {
            seq![
                ActionModel::Deliver {
                    topic,
                    payload: match payload {
                        PayloadModel::Text(text) => text,
                        PayloadModel::Binary(_) => Seq::empty(),
                    },
                    bytes: match payload {
                        PayloadModel::Text(_) => None,
                        PayloadModel::Binary(bytes) => Some(bytes),
                    },
                    control: has_prefix(topic, control_prefix()),
                    recipients: recipients_of(self.peers@, self.subscriptions.subscribers_of(topic)),
                },
            ]
        } else {
            Seq::empty()
        }
    }

    /// What a publication does: it crosses every bridge but the one it came
    /// from unless it is local, then reaches the topic's subscribers.
    pub open spec fn publication_of(
        &self,
        publisher: Seq<char>,
        topic: Seq<char>,
        payload: PayloadModel,
        local_only: bool,
        visited: Seq<Seq<char>>,
        sequence: u64,
    ) -> Seq<ActionModel> {
        (if local_only {
            Seq::empty()
        } else {
            forwards_of(self.bridges.bridges@, publisher, topic, payload, visited, sequence)
        }) + self.delivery_of(topic, payload)
    }

    /// The position of peer `name`, if connected.
    pub fn find_peer(&self, name: &String) -> (found: Option<usize>)
        requires
            distinct_ids(self.peers@),
        ensures
            found is None <==> !is_peer(self.peers@, name@),
            found matches Some(i) ==> i < self.peers@.len() && self.peers@[i as int].id@ == name@
                && peer_index(self.peers@, name@) == i,
    {
        let mut index: usize = 0;
        while index < self.peers.len()
            invariant
                distinct_ids(self.peers@),
                index <= self.peers@.len(),
                forall|j: int| 0 <= j < index ==> #[trigger] self.peers@[j].id@ != name@,
            decreases self.peers@.len() - index,
        {
            if self.peers[index].id == *name {
                proof {
                    let k = peer_index(self.peers@, name@);
                    assert(is_peer(self.peers@, name@));
                    if k != index {
                        if k < index {
                            assert(self.peers@[k].id@ != self.peers@[index as int].id@);
                        } else {
                            assert(self.peers@[index as int].id@ != self.peers@[k].id@);
                        }
                    }
                }
                return Some(index);
            }
            index = index + 1;
        }
        None
    }

    /// The connected subscribers among `subscribers`.
    fn recipients(&self, subscribers: &Vec<String>) -> (recipients: Vec<Recipient>)
        requires
            distinct_ids(self.peers@),
        ensures
            recipients_view(recipients@) == recipients_of(self.peers@, names(subscribers@)),
    {
        let mut recipients: Vec<Recipient> = Vec::new();
        let mut index: usize = 0;
        while index < subscribers.len()
            invariant
                distinct_ids(self.peers@),
                index <= subscribers@.len(),
                recipients_view(recipients@) == recipients_of(self.peers@, names(subscribers@).take(index as int)),
            decreases subscribers@.len() - index,
        {
            let ghost prefix = names(subscribers@).take(index as int + 1);
            assert(prefix.drop_last() =~= names(subscribers@).take(index as int));
            assert(prefix.last() == subscribers@[index as int]@);
            match self.find_peer(&subscribers[index]) {
                Some(position) => {
                    let ghost before = recipients@;
                    recipients.push(
                        Recipient { peer: subscribers[index].clone(), generation: self.peers[position].generation },
                    );
                    assert(recipients_view(recipients@) =~= recipients_view(before).push(
                        (subscribers@[index as int]@, self.peers@[position as int].generation),
                    ));
                },
                None => {},
            }
            index = index + 1;
        }
        assert(names(subscribers@).take(subscribers@.len() as int) =~= names(subscribers@));
        recipients
    }

    /// The delivery of a message on `topic`, if the topic has an entry.
    fn deliver_to_subscribers(&self, topic: &String, payload: ForwardPayload) -> (actions: Vec<BrokerAction>)
        requires
            self.wf(),
        ensures
            actions_view(actions@) == self.delivery_of(topic@, payload@),
    {
        let mut actions: Vec<BrokerAction> = Vec::new();
        match self.subscriptions.subscribers(topic) {
            Some(subscribers) => {
                let recipients = self.recipients(subscribers);
                let control = is_control_topic(topic.as_str());
                let message = match payload {
                    ForwardPayload::Text(text) => Message::new_text(topic.clone(), text),
                    ForwardPayload::Binary(bytes) => Message::new_binary(topic.clone(), bytes),
                };
                actions.push(BrokerAction::Deliver { message, control, recipients });
                assert(actions_view(actions@) =~= self.delivery_of(topic@, payload@));
            },
            None => {
                assert(actions_view(actions@) =~= self.delivery_of(topic@, payload@));
            },
        }
        actions
    }

    /// Publishes a payload: forwards it over the bridges unless it is local,
    /// then delivers it to the topic's subscribers.
    pub fn publish_everywhere(
        &self,
        publisher: &String,
        topic: &String,
        payload: ForwardPayload,
        local_only: bool,
        visited: &Vec<String>,
        sequence: u64,
    ) -> (actions: Vec<BrokerAction>)
        requires
            self.wf(),
        ensures
            actions_view(actions@) == self.publication_of(
                publisher@,
                topic@,
                payload@,
                local_only,
                names(visited@),
                sequence,
            ),
    {
        let mut actions: Vec<BrokerAction> = Vec::new();
        if !local_only {
            let mut index: usize = 0;
            while index < self.bridges.bridges.len()
                invariant
                    index <= self.bridges.bridges@.len(),
                    actions_view(actions@) == forwards_of(
                        self.bridges.bridges@.take(index as int),
                        publisher@,
                        topic@,
                        payload@,
                        names(visited@),
                        sequence,
                    ),
                decreases self.bridges.bridges@.len() - index,
            {
                assert(self.bridges.bridges@.take(index as int + 1).drop_last() =~= self.bridges.bridges@.take(index as int));
                if self.bridges.bridges[index].id != *publisher {
                    let copy = match &payload {
                        ForwardPayload::Text(text) => ForwardPayload::Text(text.clone()),
                        ForwardPayload::Binary(bytes) => ForwardPayload::Binary(
                            vstd::slice::slice_to_vec(bytes.as_slice()),
                        ),
                    };
                    let ghost before = actions@;
                    actions.push(
                        BrokerAction::Forward {
                            bridge: self.bridges.bridges[index].id.clone(),
                            topic: topic.clone(),
                            payload: copy,
                            visited: copy_names(visited),
                            sequence,
                        },
                    );
                    assert(actions_view(actions@) =~= actions_view(before).push(actions@.last()@));
                }
                index = index + 1;
            }
            assert(self.bridges.bridges@.take(self.bridges.bridges@.len() as int) =~= self.bridges.bridges@);
        }
        let ghost forwards = actions_view(actions@);
        let mut delivery = self.deliver_to_subscribers(topic, payload);
        let ghost delivered = actions_view(delivery@);
        actions.append(&mut delivery);
        assert(actions_view(actions@) =~= forwards + delivered);
        actions
    }

    /// The report of the subscription table, topic by topic.
    fn subscription_report(&self) -> (report: Vec<(String, Vec<String>)>)
        ensures
            pairs_view(report@) == subscription_report_of(
                self.subscriptions,
            ),
    {
        let mut report: Vec<(String, Vec<String>)> = Vec::new();
        let mut index: usize = 0;
        while index < self.subscriptions.entries.len()
            invariant
                index <= self.subscriptions.entries@.len(),
                report@.len() == index,
                pairs_view(report@) == subscription_report_of(
                    self.subscriptions,
                ).take(index as int),
            decreases self.subscriptions.entries@.len() - index,
        {
            let ghost before = report@;
            let entry = &self.subscriptions.entries[index];
            report.push((entry.topic.clone(), copy_names(&entry.subscribers)));
            index = index + 1;
            assert(pairs_view(report@) =~= subscription_report_of(
                self.subscriptions,
            ).take(index as int)) by {
                assert forall|j: int| 0 <= j < index implies #[trigger] pairs_view(report@)[j]
                    == subscription_report_of(self.subscriptions).take(index as int)[j] by {
                    if j < index - 1 {
                        assert(report@[j] == before[j]);
                    }
                }
            }
        }
        assert(subscription_report_of(self.subscriptions).take(self.subscriptions.entries@.len() as int)
            =~= subscription_report_of(self.subscriptions));
        report
    }

    /// The ids of the connected peers.
    fn peer_report(&self) -> (report: Vec<String>)
        ensures
            names(report@) == peer_ids(self.peers@),
    {
        let mut report: Vec<String> = Vec::new();
        let mut index: usize = 0;
        while index < self.peers.len()
            invariant
                index <= self.peers@.len(),
                report@.len() == index,
                names(report@) == peer_ids(self.peers@).take(index as int),
            decreases self.peers@.len() - index,
        {
            let ghost before = report@;
            report.push(self.peers[index].id.clone());
            index = index + 1;
            assert(names(report@) =~= peer_ids(self.peers@).take(index as int)) by {
                assert forall|j: int| 0 <= j < index implies names(report@)[j] == peer_ids(self.peers@).take(
                    index as int,
                )[j] by {
                    if j < index - 1 {
                        assert(report@[j] == before[j]);
                    }
                }
            }
        }
        assert(peer_ids(self.peers@).take(self.peers@.len() as int) =~= peer_ids(self.peers@));
        report
    }

    /// The one-element visited list of a publication that starts here.
    fn origin_visited(&self) -> (visited: Vec<String>)
        ensures
            names(visited@) == seq![self.instance_id@],
    {
        let mut visited: Vec<String> = Vec::new();
        visited.push(self.instance_id.clone());
        assert(names(visited@) =~= seq![self.instance_id@]);
        visited
    }

    /// Answers a request for one of the broker's reports, published under the
    /// broker's name. Takes a sequence number whether or not `topic` asks for
    /// a report.
    pub fn answer_introspection_requests(&mut self, topic: &String) -> (actions: Vec<BrokerAction>)
        requires
            old(self).wf(),
            old(self).publish_counter < u64::MAX,
        ensures
            final(self).wf(),
            final(self).publish_counter == old(self).publish_counter + 1,
            final(self).same_tables(old(self)),
            final(self).origins == old(self).origins,
            actions_view(actions@) == old(self).introspection_of(topic@, final(self).publish_counter),
    {
        let visited = self.origin_visited();
        self.publish_counter = self.publish_counter + 1;
        let sequence = self.publish_counter;
        let mut actions: Vec<BrokerAction> = Vec::new();
        let publisher = String::from_str("broker");
        if *topic == BrokerContract::request_subscriptions_topic() {
            let report = Report::Subscriptions { subscriptions: self.subscription_report() };
            actions.push(BrokerAction::Announce { publisher, report, visited, sequence });
        } else if *topic == BrokerContract::request_peers_topic() {
            let report = Report::Peers { peers: self.peer_report() };
            actions.push(BrokerAction::Announce { publisher, report, visited, sequence });
        } else if *topic == BrokerContract::request_bridges_topic() {
            let report = Report::Bridges { bridges: self.bridges.ids() };
            actions.push(BrokerAction::Announce { publisher, report, visited, sequence });
        }
        assert(actions_view(actions@) =~= old(self).introspection_of(topic@, sequence));
        actions
    }

    /// Registers peer `id` under a new connection number, replacing any
    /// earlier connection under that id; returns the number.
    pub fn establish_peer(&mut self, id: String) -> (generation: u64)
        requires
            old(self).wf(),
            old(self).generation_counter < u64::MAX,
        ensures
            final(self).wf(),
            final(self).generation_counter == old(self).generation_counter + 1,
            generation == final(self).generation_counter,
            is_peer(final(self).peers@, id@),
            generation_of(final(self).peers@, id@) == generation,
            forall|name: Seq<char>|
                name != id@ ==> (#[trigger] is_peer(final(self).peers@, name) == is_peer(old(self).peers@, name))
                    && (is_peer(old(self).peers@, name) ==> generation_of(final(self).peers@, name)
                    == generation_of(old(self).peers@, name)),
            final(self).instance_id == old(self).instance_id,
            final(self).publish_counter == old(self).publish_counter,
            final(self).origins == old(self).origins,
            final(self).subscriptions == old(self).subscriptions,
            final(self).bridges == old(self).bridges,
    {
        let ghost start = self.peers@;
        match self.find_peer(&id) {
            Some(position) => {
                self.peers.remove(position);
            },
            None => {},
        }
        let ghost middle = self.peers@;
        proof {
            assert forall|i: int, j: int| 0 <= i < j < middle.len() implies #[trigger] middle[i].id@
                != #[trigger] middle[j].id@ by {
                let ii = if is_peer(start, id@) && i >= peer_index(start, id@) { i + 1 } else { i };
                let jj = if is_peer(start, id@) && j >= peer_index(start, id@) { j + 1 } else { j };
                assert(middle[i] == start[ii]);
                assert(middle[j] == start[jj]);
            }
            assert(!is_peer(middle, id@)) by {
                if is_peer(middle, id@) {
                    let k = choose|k: int| 0 <= k < middle.len() && #[trigger] middle[k].id@ == id@;
                    if is_peer(start, id@) {
                        let p = peer_index(start, id@);
                        let kk = if k >= p { k + 1 } else { k };
                        assert(middle[k] == start[kk]);
                        assert(start[p].id@ == id@);
                    } else {
                        assert(middle[k] == start[k]);
                    }
                }
            }
            assert forall|name: Seq<char>| name != id@ implies (#[trigger] is_peer(middle, name) == is_peer(start, name))
                && (is_peer(start, name) ==> middle[peer_index(middle, name)].generation
                == start[peer_index(start, name)].generation) by {
                if is_peer(start, name) {
                    let k = peer_index(start, name);
                    let p = peer_index(start, id@);
                    let kk = if is_peer(start, id@) && k > p { k - 1 } else { k };
                    if is_peer(start, id@) {
                        assert(k != p);
                    }
                    assert(middle[kk] == start[k]);
                    let m = peer_index(middle, name);
                    if m != kk {
                        if m < kk {
                            assert(middle[m].id@ != middle[kk].id@);
                        } else {
                            assert(middle[kk].id@ != middle[m].id@);
                        }
                    }
                }
                if is_peer(middle, name) {
                    let k = choose|k: int| 0 <= k < middle.len() && #[trigger] middle[k].id@ == name;
                    let kk = if is_peer(start, id@) && k >= peer_index(start, id@) { k + 1 } else { k };
                    assert(middle[k] == start[kk]);
                }
            }
        }
        self.generation_counter = self.generation_counter + 1;
        let generation = self.generation_counter;
        self.peers.push(PeerEntry { id, generation });
        proof {
            let last = self.peers@.len() - 1;
            assert forall|i: int, j: int| 0 <= i < j < self.peers@.len() implies #[trigger] self.peers@[i].id@
                != #[trigger] self.peers@[j].id@ by {
                if j == last {
                    assert(self.peers@[i] == middle[i]);
                    assert(is_peer(middle, middle[i].id@));
                }
            }
            assert(is_peer(self.peers@, id@)) by {
                assert(self.peers@[last].id@ == id@);
            }
            let p = peer_index(self.peers@, id@);
            if p != last {
                assert(self.peers@[p] == middle[p]);
                assert(is_peer(middle, id@));
            }
            assert forall|name: Seq<char>| name != id@ implies (#[trigger] is_peer(self.peers@, name) == is_peer(middle, name))
                && (is_peer(middle, name) ==> generation_of(self.peers@, name) == middle[peer_index(middle, name)].generation) by {
                if is_peer(self.peers@, name) {
                    let k = choose|k: int| 0 <= k < self.peers@.len() && #[trigger] self.peers@[k].id@ == name;
                    assert(k != last);
                    assert(middle[k].id@ == name);
                }
                if is_peer(middle, name) {
                    let k = peer_index(middle, name);
                    assert(self.peers@[k] == middle[k]);
                    let m = peer_index(self.peers@, name);
                    if m != k {
                        if m < k {
                            assert(self.peers@[m].id@ != self.peers@[k].id@);
                        } else {
                            assert(self.peers@[k].id@ != self.peers@[m].id@);
                        }
                    }
                }
            }
        }
        generation
    }

    /// Forgets connection `generation` of peer `name` and its subscriptions,
    /// unless the peer has reconnected since under a newer connection.
    pub fn remove_disconnected_peer(&mut self, name: &String, generation: u64)
        requires
            old(self).wf(),
        ensures
            final(self).wf(),
            final(self).instance_id == old(self).instance_id,
            final(self).publish_counter == old(self).publish_counter,
            final(self).generation_counter == old(self).generation_counter,
            final(self).origins == old(self).origins,
            final(self).bridges == old(self).bridges,
            !(is_peer(old(self).peers@, name@) && generation_of(old(self).peers@, name@) == generation)
                ==> *final(self) == *old(self),
            is_peer(old(self).peers@, name@) && generation_of(old(self).peers@, name@) == generation ==> {
                &&& !is_peer(final(self).peers@, name@)
                &&& forall|other: Seq<char>|
                    other != name@ ==> (#[trigger] is_peer(final(self).peers@, other) == is_peer(
                        old(self).peers@,
                        other,
                    )) && (is_peer(old(self).peers@, other) ==> generation_of(final(self).peers@, other)
                        == generation_of(old(self).peers@, other))
                &&& forall|topic: Seq<char>|
                    #[trigger] final(self).subscriptions.has_topic(topic) == old(self).subscriptions.has_topic(topic)
                &&& forall|topic: Seq<char>|
                    #[trigger] final(self).subscriptions.subscribers_of(topic) == crate::topics::without(
                        old(self).subscriptions.subscribers_of(topic),
                        name@,
                    )
            },
    {
        match self.find_peer(name) {
            Some(position) => {
                if self.peers[position].generation != generation {
                    return;
                }
                let ghost start = self.peers@;
                self.peers.remove(position);
                proof {
                    let middle = self.peers@;
                    assert forall|i: int, j: int| 0 <= i < j < middle.len() implies #[trigger] middle[i].id@
                        != #[trigger] middle[j].id@ by {
                        let ii = if i >= position { i + 1 } else { i };
                        let jj = if j >= position { j + 1 } else { j };
                        assert(middle[i] == start[ii]);
                        assert(middle[j] == start[jj]);
                    }
                    assert(!is_peer(middle, name@)) by {
                        if is_peer(middle, name@) {
                            let k = choose|k: int| 0 <= k < middle.len() && #[trigger] middle[k].id@ == name@;
                            let kk = if k >= position { k + 1 } else { k };
                            assert(middle[k] == start[kk]);
                        }
                    }
                    assert forall|other: Seq<char>| other != name@ implies (#[trigger] is_peer(middle, other) == is_peer(start, other))
                        && (is_peer(start, other) ==> generation_of(middle, other) == generation_of(start, other)) by {
                        if is_peer(start, other) {
                            let k = peer_index(start, other);
                            assert(k != position);
                            let kk = if k > position { k - 1 } else { k };
                            assert(middle[kk] == start[k]);
                            let m = peer_index(middle, other);
                            if m != kk {
                                if m < kk {
                                    assert(middle[m].id@ != middle[kk].id@);
                                } else {
                                    assert(middle[kk].id@ != middle[m].id@);
                                }
                            }
                        }
                        if is_peer(middle, other) {
                            let k = choose|k: int| 0 <= k < middle.len() && #[trigger] middle[k].id@ == other;
                            let kk = if k >= position { k + 1 } else { k };
                            assert(middle[k] == start[kk]);
                        }
                    }
                }
                self.subscriptions.remove_subscriber(name);
            },
            None => {},
        }
    }

    /// Announces the peer that just connected, under its own name.
    fn on_hello(&mut self, id: String) -> (actions: Vec<BrokerAction>)
        requires
            old(self).wf(),
            old(self).has_headroom(),
        ensures
            final(self).wf(),
            actions_view(actions@) == old(self).actions_for(&BrokerEvent::Hello { id }),
            old(self).step_state(&BrokerEvent::Hello { id }, final(self)),
    {
        let writer_id = id.clone();
        let report_id = id.clone();
        let publisher = id.clone();
        let ghost name = id@;
        let generation = self.establish_peer(id);
        let mut actions: Vec<BrokerAction> = Vec::new();
        actions.push(BrokerAction::StartWriter { peer: writer_id, generation });
        self.publish_counter = self.publish_counter + 1;
        let sequence = self.publish_counter;
        let visited = self.origin_visited();
        actions.push(
            BrokerAction::Announce { publisher, report: Report::PeerConnected { id: report_id }, visited, sequence },
        );
        assert(actions_view(actions@) =~= seq![
            ActionModel::StartWriter { peer: name, generation: (old(self).generation_counter + 1) as u64 },
            ActionModel::Announce {
                publisher: name,
                report: ReportModel::PeerConnected { id: name },
                visited: seq![old(self).instance_id@],
                sequence: (old(self).publish_counter + 1) as u64,
            },
        ]);
        actions
    }

    /// A publication made on this broker: it takes a fresh sequence number
    /// and starts its visited list here. Text publications first answer any
    /// introspection request they make.
    fn on_publish(&mut self, id: String, topic: String, payload: ForwardPayload, local_only: bool) -> (actions: Vec<
        BrokerAction,
    >)
        requires
            old(self).wf(),
            old(self).has_headroom(),
        ensures
            final(self).wf(),
            final(self).same_tables(old(self)),
            final(self).origins == old(self).origins,
            payload is Text ==> final(self).publish_counter == old(self).publish_counter + 2
                && actions_view(actions@) == old(self).introspection_of(topic@, (old(self).publish_counter + 1) as u64)
                + old(self).publication_of(
                id@,
                topic@,
                payload@,
                local_only,
                seq![old(self).instance_id@],
                (old(self).publish_counter + 2) as u64,
            ),
            payload is Binary ==> final(self).publish_counter == old(self).publish_counter + 1
                && actions_view(actions@) == old(self).publication_of(
                id@,
                topic@,
                payload@,
                local_only,
                seq![old(self).instance_id@],
                (old(self).publish_counter + 1) as u64,
            ),
    {
        let mut actions = match payload {
            ForwardPayload::Text(_) => self.answer_introspection_requests(&topic),
            ForwardPayload::Binary(_) => Vec::new(),
        };
        let ghost answered = actions_view(actions@);
        self.publish_counter = self.publish_counter + 1;
        let sequence = self.publish_counter;
        let visited = self.origin_visited();
        let mut published = self.publish_everywhere(&id, &topic, payload, local_only, &visited, sequence);
        let ghost publication = actions_view(published@);
        actions.append(&mut published);
        assert(actions_view(actions@) =~= answered + publication);
        actions
    }

    /// A publication that crossed a bridge. It is dropped when it has been
    /// here before, when it names no origin, and when its origin's number
    /// has been seen; otherwise it goes on with this broker added to its
    /// visited list.
    fn on_forward(
        &mut self,
        id: String,
        topic: String,
        payload: ForwardPayload,
        local_only: bool,
        visited: Vec<String>,
        sequence: u64,
    ) -> (actions: Vec<BrokerAction>)
        requires
            old(self).wf(),
            old(self).has_headroom(),
        ensures
            final(self).wf(),
            final(self).same_tables(old(self)),
            !old(self).forward_tracked(names(visited@)) ==> *final(self) == *old(self) && actions@.len() == 0,
            old(self).forward_tracked(names(visited@)) ==> origins_advanced(
                old(self).origins,
                final(self).origins,
                names(visited@)[0],
                sequence,
            ),
            !old(self).forward_accepted(names(visited@), sequence) ==> final(self).publish_counter
                == old(self).publish_counter && actions@.len() == 0,
            old(self).forward_accepted(names(visited@), sequence) && payload is Text ==> final(self).publish_counter
                == old(self).publish_counter + 1 && actions_view(actions@) == old(self).introspection_of(
                topic@,
                (old(self).publish_counter + 1) as u64,
            ) + old(self).publication_of(
                id@,
                topic@,
                payload@,
                local_only,
                names(visited@).push(old(self).instance_id@),
                sequence,
            ),
            old(self).forward_accepted(names(visited@), sequence) && payload is Binary ==> final(self).publish_counter
                == old(self).publish_counter && actions_view(actions@) == old(self).publication_of(
                id@,
                topic@,
                payload@,
                local_only,
                names(visited@).push(old(self).instance_id@),
                sequence,
            ),
    {
        if crate::topics::contains_name(&visited, &self.instance_id) {
            return Vec::new();
        }
        if visited.len() == 0 {
            return Vec::new();
        }
        assert(names(visited@)[0] == visited@[0]@);
        let accepted = self.origins.record_seen_message(&visited[0], sequence);
        if !accepted {
            return Vec::new();
        }
        let mut actions = match payload {
            ForwardPayload::Text(_) => self.answer_introspection_requests(&topic),
            ForwardPayload::Binary(_) => Vec::new(),
        };
        let ghost answered = actions_view(actions@);
        let extended = extend_visited(visited, &self.instance_id);
        let mut published = self.publish_everywhere(&id, &topic, payload, local_only, &extended, sequence);
        let ghost publication = actions_view(published@);
        actions.append(&mut published);
        assert(actions_view(actions@) =~= answered + publication);
        actions
    }

    /// Opening a bridge: any bridge to the same target closes, then the
    /// runtime connects.
    fn on_open_bridge(&mut self, id: String, source_address: String, target_address: String, ack: bool) -> (actions:
        Vec<BrokerAction>)
        requires
            old(self).wf(),
        ensures
            final(self).wf(),
            final(self).instance_id == old(self).instance_id,
            final(self).publish_counter == old(self).publish_counter,
            final(self).generation_counter == old(self).generation_counter,
            final(self).origins == old(self).origins,
            final(self).peers == old(self).peers,
            final(self).subscriptions == old(self).subscriptions,
            final(self).bridges.bridges@ == crate::bridge::kept_unless_target(old(self).bridges.bridges@, target_address@),
            actions_view(actions@) == old(self).actions_for(
                &BrokerEvent::Peer(PeerEvent::OpenBridge { id, source_address, target_address, ack }),
            ),
    {
        let mut actions = self.bridges.close_by_address(&target_address, !ack);
        let ghost closings = actions_view(actions@);
        let override_id = if ack { Some(id.clone()) } else { None };
        let ghost requester = id@;
        let ghost source = source_address@;
        let ghost target = target_address@;
        actions.push(
            BrokerAction::ConnectBridge { requester: id, override_id, source_address, target_address, ack },
        );
        assert(actions_view(actions@) =~= closings.push(
            ActionModel::ConnectBridge {
                requester,
                override_id: if ack { Some(requester) } else { None },
                source_address: source,
                target_address: target,
                ack,
            },
        ));
        actions
    }

    /// Carries out one event. Requires counters with room to count up and a
    /// forwarded number below the largest one.
    pub fn handle_broker_event(&mut self, event: BrokerEvent) -> (actions: Vec<BrokerAction>)
        requires
            old(self).wf(),
            old(self).has_headroom(),
        ensures
            final(self).wf(),
            actions_view(actions@) == old(self).actions_for(&event),
            old(self).step_state(&event, final(self)),
    {
        let ghost original = event;
        match event {
            BrokerEvent::Hello { id } => self.on_hello(id),
            BrokerEvent::Disconnected { name, generation } => {
                self.remove_disconnected_peer(&name, generation);
                Vec::new()
            },
            BrokerEvent::Peer(peer_event) => match peer_event {
                PeerEvent::Hello { .. } => Vec::new(),
                PeerEvent::Subscribe { id, topic } => {
                    subscribe_to_topic(&mut self.subscriptions, id, topic);
                    Vec::new()
                },
                PeerEvent::Unsubscribe { id, topic } => {
                    unsubscribe_from_topic(&mut self.subscriptions, &id, &topic);
                    Vec::new()
                },
                PeerEvent::PublishText { id, topic, payload, local_only } => self.on_publish(
                    id,
                    topic,
                    ForwardPayload::Text(payload),
                    local_only,
                ),
                PeerEvent::PublishBinary { id, topic, payload, local_only } => self.on_publish(
                    id,
                    topic,
                    ForwardPayload::Binary(payload),
                    local_only,
                ),
                PeerEvent::ForwardText { id, topic, payload, local_only, visited, sequence } => self.on_forward(
                    id,
                    topic,
                    ForwardPayload::Text(payload),
                    local_only,
                    visited,
                    sequence,
                ),
                PeerEvent::ForwardBinary { id, topic, payload, local_only, visited, sequence } => self.on_forward(
                    id,
                    topic,
                    ForwardPayload::Binary(payload),
                    local_only,
                    visited,
                    sequence,
                ),
                PeerEvent::OpenBridge { id, source_address, target_address, ack } => self.on_open_bridge(
                    id,
                    source_address,
                    target_address,
                    ack,
                ),
                PeerEvent::CloseBridge { id, target_address, ack } => {
                    if ack {
                        self.bridges.close_by_id(&id)
                    } else {
                        self.bridges.close_by_address(&target_address, true)
                    }
                },
            },
        }
    }

    /// Publishes the creation of bridge `bridge_id`, on behalf of the peer
    /// that asked for it, once its client has connected.
    pub fn announce_bridge(
        &mut self,
        requester: String,
        bridge_id: String,
        source_address: String,
        target_address: String,
    ) -> (action: BrokerAction)
        requires
            old(self).wf(),
            old(self).publish_counter < u64::MAX,
        ensures
            final(self).wf(),
            final(self).publish_counter == old(self).publish_counter + 1,
            final(self).same_tables(old(self)),
            final(self).origins == old(self).origins,
            action@ == (ActionModel::Announce {
                publisher: requester@,
                report: ReportModel::BridgeCreated {
                    id: bridge_id@,
                    source_address: source_address@,
                    target_address: target_address@,
                },
                visited: seq![old(self).instance_id@],
                sequence: final(self).publish_counter,
            }),
    {
        self.publish_counter = self.publish_counter + 1;
        let sequence = self.publish_counter;
        let visited = self.origin_visited();
        BrokerAction::Announce {
            publisher: requester,
            report: Report::BridgeCreated { id: bridge_id, source_address, target_address },
            visited,
            sequence,
        }
    }

    /// Keeps a connected bridge, after the others.
    pub fn register_bridge(&mut self, bridge_id: String, target_address: String)
        ensures
            final(self).bridges.bridges@ == old(self).bridges.bridges@.push(
                BridgeEntry { id: bridge_id, target_address },
            ),
            final(self).instance_id == old(self).instance_id,
            final(self).publish_counter == old(self).publish_counter,
            final(self).generation_counter == old(self).generation_counter,
            final(self).origins == old(self).origins,
            final(self).peers == old(self).peers,
            final(self).subscriptions == old(self).subscriptions,
    {
        self.bridges.insert(BridgeEntry { id: bridge_id, target_address });
    }

    /// Whether the counters leave room for one more event.
    pub fn has_room(&self) -> (room: bool)
        ensures
            room == self.has_headroom(),
    {
        self.publish_counter < u64::MAX - 2 && self.origins.tick < u64::MAX && self.generation_counter < u64::MAX
    }

    /// A broker that knows nothing yet.
    pub fn new(instance_id: String) -> (state: BrokerState)
        ensures
            state.wf(),
            state.has_headroom(),
            state.instance_id@ == instance_id@,
            state.publish_counter == 0,
            state.generation_counter == 0,
            state.peers@.len() == 0,
            state.bridges.bridges@.len() == 0,
            forall|topic: Seq<char>| !state.subscriptions.has_topic(topic),
            forall|origin: Seq<char>| !state.origins.tracks(origin),
    {
        BrokerState {
            instance_id,
            publish_counter: 0,
            origins: OriginTracker::new(),
            peers: Vec::new(),
            generation_counter: 0,
            subscriptions: TopicTable::new(),
            bridges: BridgeRegistry::new(),
        }
    }

    pub open spec fn has_headroom(&self) -> bool {
        &&& self.publish_counter < u64::MAX - 2
        &&& self.origins.tick < u64::MAX
        &&& self.generation_counter < u64::MAX
    }

    /// Everything but the counters and the origin tracker is as in `other`.
    pub open spec fn same_tables(&self, other: &BrokerState) -> bool {
        &&& self.instance_id == other.instance_id
        &&& self.peers == other.peers
        &&& self.generation_counter == other.generation_counter
        &&& self.subscriptions == other.subscriptions
        &&& self.bridges == other.bridges
    }

    /// The report a request on `topic` gets, if `topic` asks for one.
    pub open spec fn introspection_of(&self, topic: Seq<char>, sequence: u64) -> Seq<ActionModel> {
        let visited = seq![self.instance_id@];
        if topic == request_subscriptions_topic_spec() {
            seq![
                ActionModel::Announce {
                    publisher: broker_id_spec(),
                    report: ReportModel::Subscriptions { subscriptions: subscription_report_of(self.subscriptions) },
                    visited,
                    sequence,
                },
            ]
        } else if topic == request_peers_topic_spec() {
            seq![
                ActionModel::Announce {
                    publisher: broker_id_spec(),
                    report: ReportModel::Peers { peers: peer_ids(self.peers@) },
                    visited,
                    sequence,
                },
            ]
        } else if topic == request_bridges_topic_spec() {
            seq![
                ActionModel::Announce {
                    publisher: broker_id_spec(),
                    report: ReportModel::Bridges { bridges: bridge_ids(self.bridges.bridges@) },
                    visited,
                    sequence,
                },
            ]
        } else {
            Seq::empty()
        }
    }

    /// A forwarded publication names an origin and has not been here.
    pub open spec fn forward_tracked(&self, visited: Seq<Seq<char>>) -> bool {
        !visited.contains(self.instance_id@) && visited.len() > 0
    }

    /// A forwarded publication goes on: it names an origin, has not been
    /// here, and its origin's number is new.
    pub open spec fn forward_accepted(&self, visited: Seq<Seq<char>>, sequence: u64) -> bool {
        &&& self.forward_tracked(visited)
        &&& !(self.origins.has_seen(visited[0], sequence) || sequence == 0)
    }

    /// The actions an event leads to.
    pub open spec fn actions_for(&self, event: &BrokerEvent) -> Seq<ActionModel> {
        let here = seq![self.instance_id@];
        match event {
            BrokerEvent::Hello { id } => seq![
                ActionModel::StartWriter { peer: id@, generation: (self.generation_counter + 1) as u64 },
                ActionModel::Announce {
                    publisher: id@,
                    report: ReportModel::PeerConnected { id: id@ },
                    visited: here,
                    sequence: (self.publish_counter + 1) as u64,
                },
            ],
            BrokerEvent::Disconnected { .. } => Seq::empty(),
            BrokerEvent::Peer(peer_event) => match peer_event {
                PeerEvent::PublishText { id, topic, payload, local_only } => self.introspection_of(
                    topic@,
                    (self.publish_counter + 1) as u64,
                ) + self.publication_of(
                    id@,
                    topic@,
                    PayloadModel::Text(payload@),
                    *local_only,
                    here,
                    (self.publish_counter + 2) as u64,
                ),
                PeerEvent::PublishBinary { id, topic, payload, local_only } => self.publication_of(
                    id@,
                    topic@,
                    PayloadModel::Binary(payload@),
                    *local_only,
                    here,
                    (self.publish_counter + 1) as u64,
                ),
                PeerEvent::ForwardText { id, topic, payload, local_only, visited, sequence } => if self.forward_accepted(
                    names(visited@),
                    *sequence,
                ) {
                    self.introspection_of(topic@, (self.publish_counter + 1) as u64) + self.publication_of(
                        id@,
                        topic@,
                        PayloadModel::Text(payload@),
                        *local_only,
                        names(visited@).push(self.instance_id@),
                        *sequence,
                    )
                } else {
                    Seq::empty()
                },
                PeerEvent::ForwardBinary { id, topic, payload, local_only, visited, sequence } => if self.forward_accepted(
                    names(visited@),
                    *sequence,
                ) {
                    self.publication_of(
                        id@,
                        topic@,
                        PayloadModel::Binary(payload@),
                        *local_only,
                        names(visited@).push(self.instance_id@),
                        *sequence,
                    )
                } else {
                    Seq::empty()
                },
                PeerEvent::OpenBridge { id, source_address, target_address, ack } => crate::bridge::closings_for_target(
                    self.bridges.bridges@,
                    target_address@,
                    !*ack,
                ).push(
                    ActionModel::ConnectBridge {
                        requester: id@,
                        override_id: if *ack { Some(id@) } else { None },
                        source_address: source_address@,
                        target_address: target_address@,
                        ack: *ack,
                    },
                ),
                PeerEvent::CloseBridge { id, target_address, ack } => if *ack {
                    crate::bridge::closings_for_id(self.bridges.bridges@, id@)
                } else {
                    crate::bridge::closings_for_target(self.bridges.bridges@, target_address@, true)
                },
                _ => Seq::empty(),
            },
        }
    }

    /// How an event changes what the broker knows.
    pub open spec fn step_state(&self, event: &BrokerEvent, after: &BrokerState) -> bool {
        match event {
            BrokerEvent::Hello { id } => {
                &&& after.instance_id == self.instance_id
                &&& after.publish_counter == self.publish_counter + 1
                &&& after.generation_counter == self.generation_counter + 1
                &&& after.origins == self.origins
                &&& after.subscriptions == self.subscriptions
                &&& after.bridges == self.bridges
                &&& is_peer(after.peers@, id@)
                &&& generation_of(after.peers@, id@) == after.generation_counter
                &&& forall|name: Seq<char>|
                    name != id@ ==> (#[trigger] is_peer(after.peers@, name) == is_peer(self.peers@, name)) && (
                    is_peer(self.peers@, name) ==> generation_of(after.peers@, name) == generation_of(
                        self.peers@,
                        name,
                    ))
            },
            BrokerEvent::Disconnected { name, generation } => {
                &&& after.instance_id == self.instance_id
                &&& after.publish_counter == self.publish_counter
                &&& after.generation_counter == self.generation_counter
                &&& after.origins == self.origins
                &&& after.bridges == self.bridges
                &&& !(is_peer(self.peers@, name@) && generation_of(self.peers@, name@) == *generation) ==> *after
                    == *self
                &&& is_peer(self.peers@, name@) && generation_of(self.peers@, name@) == *generation ==> {
                    &&& !is_peer(after.peers@, name@)
                    &&& forall|other: Seq<char>|
                        other != name@ ==> (#[trigger] is_peer(after.peers@, other) == is_peer(self.peers@, other)) && (
                        is_peer(self.peers@, other) ==> generation_of(after.peers@, other) == generation_of(
                            self.peers@,
                            other,
                        ))
                    &&& forall|topic: Seq<char>|
                        #[trigger] after.subscriptions.has_topic(topic) == self.subscriptions.has_topic(topic)
                    &&& forall|topic: Seq<char>|
                        #[trigger] after.subscriptions.subscribers_of(topic) == crate::topics::without(
                            self.subscriptions.subscribers_of(topic),
                            name@,
                        )
                }
            },
            BrokerEvent::Peer(peer_event) => match peer_event {
                PeerEvent::Hello { .. } => *after == *self,
                PeerEvent::Subscribe { id, topic } => {
                    &&& after.instance_id == self.instance_id
                    &&& after.publish_counter == self.publish_counter
                    &&& after.generation_counter == self.generation_counter
                    &&& after.origins == self.origins
                    &&& after.peers == self.peers
                    &&& after.bridges == self.bridges
                    &&& after.subscriptions.has_topic(topic@)
                    &&& after.subscriptions.subscribers_of(topic@) == crate::topics::with_name(
                        self.subscriptions.subscribers_of(topic@),
                        id@,
                    )
                    &&& forall|other: Seq<char>|
                        other != topic@ ==> (#[trigger] after.subscriptions.has_topic(other)
                            == self.subscriptions.has_topic(other)) && after.subscriptions.subscribers_of(other)
                            == self.subscriptions.subscribers_of(other)
                },
                PeerEvent::Unsubscribe { id, topic } => {
                    &&& after.instance_id == self.instance_id
                    &&& after.publish_counter == self.publish_counter
                    &&& after.generation_counter == self.generation_counter
                    &&& after.origins == self.origins
                    &&& after.peers == self.peers
                    &&& after.bridges == self.bridges
                    &&& forall|other: Seq<char>|
                        #[trigger] after.subscriptions.has_topic(other) == self.subscriptions.has_topic(other)
                    &&& after.subscriptions.subscribers_of(topic@) == crate::topics::without(
                        self.subscriptions.subscribers_of(topic@),
                        id@,
                    )
                    &&& forall|other: Seq<char>|
                        other != topic@ ==> #[trigger] after.subscriptions.subscribers_of(other)
                            == self.subscriptions.subscribers_of(other)
                },
                PeerEvent::PublishText { .. } => {
                    &&& after.same_tables(self)
                    &&& after.origins == self.origins
                    &&& after.publish_counter == self.publish_counter + 2
                },
                PeerEvent::PublishBinary { .. } => {
                    &&& after.same_tables(self)
                    &&& after.origins == self.origins
                    &&& after.publish_counter == self.publish_counter + 1
                },
                PeerEvent::ForwardText { visited, sequence, .. } => {
                    &&& after.same_tables(self)
                    &&& !self.forward_tracked(names(visited@)) ==> *after == *self
                    &&& self.forward_tracked(names(visited@)) ==> origins_advanced(
                        self.origins,
                        after.origins,
                        names(visited@)[0],
                        *sequence,
                    )
                    &&& after.publish_counter == if self.forward_accepted(names(visited@), *sequence) {
                        self.publish_counter + 1
                    } else {
                        self.publish_counter as int
                    }
                },
                PeerEvent::ForwardBinary { visited, sequence, .. } => {
                    &&& after.same_tables(self)
                    &&& !self.forward_tracked(names(visited@)) ==> *after == *self
                    &&& self.forward_tracked(names(visited@)) ==> origins_advanced(
                        self.origins,
                        after.origins,
                        names(visited@)[0],
                        *sequence,
                    )
                    &&& after.publish_counter == self.publish_counter
                },
                PeerEvent::OpenBridge { target_address, .. } => {
                    &&& after.instance_id == self.instance_id
                    &&& after.publish_counter == self.publish_counter
                    &&& after.generation_counter == self.generation_counter
                    &&& after.origins == self.origins
                    &&& after.peers == self.peers
                    &&& after.subscriptions == self.subscriptions
                    &&& after.bridges.bridges@ == crate::bridge::kept_unless_target(
                        self.bridges.bridges@,
                        target_address@,
                    )
                },
                PeerEvent::CloseBridge { id, target_address, ack } => {
                    &&& after.instance_id == self.instance_id
                    &&& after.publish_counter == self.publish_counter
                    &&& after.generation_counter == self.generation_counter
                    &&& after.origins == self.origins
                    &&& after.peers == self.peers
                    &&& after.subscriptions == self.subscriptions
                    &&& after.bridges.bridges@ == if *ack {
                        crate::bridge::kept_unless_id(self.bridges.bridges@, id@)
                    } else {
                        crate::bridge::kept_unless_target(self.bridges.bridges@, target_address@, )
                    }
                },
            },
        }
    }
}

/// What recording `sequence` from `origin` does to the origin tracker.
pub open spec fn origins_advanced(before: OriginTracker, after: OriginTracker, origin: Seq<char>, sequence: u64) -> bool {
    &&& after.wf()
    &&& after.tick == before.tick + 1
    &&& after.tracks(origin)
    &&& after.has_seen(origin, sequence)
    &&& !before.tracks(origin) ==> forall|s: u64| #[trigger] after.has_seen(origin, s) == (s == 0 || s == sequence)
    &&& before.tracks(origin) && (before.has_seen(origin, sequence) || sequence == 0) ==> forall|s: u64|
        #[trigger] after.has_seen(origin, s) == before.has_seen(origin, s)
    &&& before.tracks(origin) && before.progress_of(origin).ahead@.len() < crate::dedup::REORDER_WINDOW ==> forall|
        s: u64,
    | #[trigger] after.has_seen(origin, s) == (before.has_seen(origin, s) || s == sequence)
    &&& before.tracks(origin) && !(before.has_seen(origin, sequence) || sequence == 0)
        && before.progress_of(origin).ahead@.len() >= crate::dedup::REORDER_WINDOW ==> forall|s: u64|
        #[trigger] after.has_seen(origin, s) == (before.has_seen(origin, s) || s == sequence || s
            <= crate::dedup::lowest_with(before.progress_of(origin).ahead@, sequence))
    &&& forall|other: Seq<char>, s: u64|
        before.has_seen(other, s) && after.tracks(other) ==> after.has_seen(other, s)
    &&& forall|other: Seq<char>|
        other != origin && #[trigger] after.tracks(other) ==> before.tracks(other) && after.progress_of(other)
            == before.progress_of(other)
}

/// Adds `instance_id` to the end of a visited list that lacks it.
pub fn extend_visited(visited: Vec<String>, instance_id: &String) -> (extended: Vec<String>)
    ensures
        names(extended@) == crate::topics::with_name(names(visited@), instance_id@),
{
    let mut visited = visited;
    if !crate::topics::contains_name(&visited, instance_id) {
        let ghost before = visited@;
        visited.push(instance_id.clone());
        assert(names(visited@) =~= names(before).push(instance_id@));
    }
    visited
}

/// Subscribes `id` to `topic` in the broker's table.
pub fn subscribe_to_topic(subscriptions: &mut TopicTable, id: String, topic: String)
    requires
        old(subscriptions).wf(),
    ensures
        final(subscriptions).wf(),
        final(subscriptions).has_topic(topic@),
        final(subscriptions).subscribers_of(topic@) == crate::topics::with_name(
            old(subscriptions).subscribers_of(topic@),
            id@,
        ),
        forall|other: Seq<char>|
            other != topic@ ==> (#[trigger] final(subscriptions).has_topic(other) == old(subscriptions).has_topic(other))
                && final(subscriptions).subscribers_of(other) == old(subscriptions).subscribers_of(other),
{
    subscriptions.subscribe(id, topic);
}

/// Unsubscribes `id` from `topic` in the broker's table.
pub fn unsubscribe_from_topic(subscriptions: &mut TopicTable, id: &String, topic: &String)
    requires
        old(subscriptions).wf(),
    ensures
        final(subscriptions).wf(),
        forall|other: Seq<char>| #[trigger] final(subscriptions).has_topic(other) == old(subscriptions).has_topic(other),
        final(subscriptions).subscribers_of(topic@) == crate::topics::without(old(subscriptions).subscribers_of(topic@), id@),
        forall|other: Seq<char>|
            other != topic@ ==> #[trigger] final(subscriptions).subscribers_of(other) == old(subscriptions).subscribers_of(other),
{
    subscriptions.unsubscribe(id, topic);
}

/// The subscription report: each topic with its subscribers.
pub open spec fn subscription_report_of(table: TopicTable) -> Seq<(Seq<char>, Seq<Seq<char>>)> {
    table.entries@.map_values(|entry: TopicEntry| (entry.topic@, names(entry.subscribers@)))
}

} // verus!
