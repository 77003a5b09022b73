//! What holds of every routing decision the broker makes.
use crate::bridge::{bridge_ids, BridgeEntry};
use crate::broker::{
    forwards_of, generation_of, is_peer, origins_advanced, peer_ids, recipients_of, subscription_report_of, ActionModel,
    BrokerEvent, BrokerState, PayloadModel, PeerEntry, ReportModel,
};
use crate::bridge::{closings_for_target, lemma_bridge_ids_list_every_bridge};
use crate::contract::{request_bridges_topic_spec, request_peers_topic_spec, request_subscriptions_topic_spec};
use crate::topics::TopicTable;
use crate::client::ClientState;
use crate::contract::PeerEvent;
use crate::dedup::OriginTracker;
use crate::topics::{names, with_name, without};
use vstd::prelude::*;

verus! {

/// The forwards of a publication go to every bridge but the one it came in
/// on, in bridge order, each carrying the publication unchanged.
pub proof fn lemma_forwards_skip_the_incoming_bridge(
    bridges: Seq<BridgeEntry>,
    publisher: Seq<char>,
    topic: Seq<char>,
    payload: PayloadModel,
    visited: Seq<Seq<char>>,
    sequence: u64,
)
    ensures
        forwards_of(bridges, publisher, topic, payload, visited, sequence).len() == without(
            bridge_ids(bridges),
            publisher,
        ).len(),
        forall|i: int|
            0 <= i < forwards_of(bridges, publisher, topic, payload, visited, sequence).len() ==> #[trigger] forwards_of(
                bridges,
                publisher,
                topic,
                payload,
                visited,
                sequence,
            )[i] == (ActionModel::Forward {
                bridge: without(bridge_ids(bridges), publisher)[i],
                topic,
                payload,
                visited,
                sequence,
            }),
        !without(bridge_ids(bridges), publisher).contains(publisher),
    decreases bridges.len(),
{
    crate::topics::lemma_without_facts(bridge_ids(bridges), publisher);
    if bridges.len() > 0 {
        let rest = bridges.drop_last();
        lemma_forwards_skip_the_incoming_bridge(rest, publisher, topic, payload, visited, sequence);
        assert(bridge_ids(rest) =~= bridge_ids(bridges).take(bridges.len() - 1));
        crate::topics::lemma_without_step(bridge_ids(bridges), publisher, bridges.len() - 1);
        assert(bridge_ids(bridges).take(bridges.len() as int) =~= bridge_ids(bridges));
    }
}

/// A connected subscriber is among the recipients, with the number of its
/// connection; a name that is not subscribed, or not connected, is not.
pub proof fn lemma_recipients_are_connected_subscribers(
    peers: Seq<PeerEntry>,
    subscribers: Seq<Seq<char>>,
    name: Seq<char>,
    generation: u64,
)
    ensures
        recipients_of(peers, subscribers).contains((name, generation)) <==> subscribers.contains(name) && is_peer(
            peers,
            name,
        ) && generation == generation_of(peers, name),
    decreases subscribers.len(),
{
    if subscribers.len() > 0 {
        let rest = subscribers.drop_last();
        lemma_recipients_are_connected_subscribers(peers, rest, name, generation);
        let all = recipients_of(peers, subscribers);
        let part = recipients_of(peers, rest);
        if part.contains((name, generation)) {
            let k = choose|k: int| 0 <= k < part.len() && part[k] == (name, generation);
            assert(all[k] == (name, generation));
            let j = choose|j: int| 0 <= j < rest.len() && rest[j] == name;
            assert(subscribers[j] == name);
        }
        if all.contains((name, generation)) && !part.contains((name, generation)) {
            assert(all.last() == (name, generation));
            assert(subscribers[subscribers.len() - 1] == name);
        }
        if subscribers.contains(name) && is_peer(peers, name) && generation == generation_of(peers, name) {
            let j = choose|j: int| 0 <= j < subscribers.len() && subscribers[j] == name;
            if j < subscribers.len() - 1 {
                assert(rest[j] == name);
            } else {
                assert(all.last() == (name, generation));
            }
        }
    }
}

/// A publication sent with `Route::Local` never crosses a bridge: none of the
/// actions it leads to forwards anything.
pub proof fn lemma_local_publications_stay_local(state: BrokerState, event: BrokerEvent)
    requires
        match event {
            BrokerEvent::Peer(PeerEvent::PublishText { local_only, .. }) => local_only,
            BrokerEvent::Peer(PeerEvent::PublishBinary { local_only, .. }) => local_only,
            _ => false,
        },
    ensures
        forall|i: int| 0 <= i < state.actions_for(&event).len() ==> !(#[trigger] state.actions_for(&event)[i] is Forward),
{
}

/// A forwarded publication that has already passed through this broker is
/// dropped, and leaves the broker as it was.
pub proof fn lemma_visited_brokers_drop_forwards(state: BrokerState, after: BrokerState, event: BrokerEvent)
    requires
        match event {
            BrokerEvent::Peer(PeerEvent::ForwardText { visited, .. }) => names(visited@).contains(state.instance_id@),
            BrokerEvent::Peer(PeerEvent::ForwardBinary { visited, .. }) => names(visited@).contains(
                state.instance_id@,
            ),
            _ => false,
        },
        state.step_state(&event, &after),
    ensures
        state.actions_for(&event).len() == 0,
        after == state,
{
}

/// Each publication reaches a broker's subscribers at most once: after a
/// forwarded publication has been taken in, the same publication (same
/// origin and number) arriving again, over any path, leads to nothing.
pub proof fn lemma_forwarded_publications_arrive_once(state: BrokerState, after: BrokerState, event: BrokerEvent)
    requires
        match event {
            BrokerEvent::Peer(PeerEvent::ForwardText { .. }) => true,
            BrokerEvent::Peer(PeerEvent::ForwardBinary { .. }) => true,
            _ => false,
        },
        state.step_state(&event, &after),
    ensures
        after.actions_for(&event).len() == 0,
{
    match event {
        BrokerEvent::Peer(PeerEvent::ForwardText { visited, sequence, .. }) => {
            if state.forward_tracked(names(visited@)) {
                assert(after.origins.has_seen(names(visited@)[0], sequence));
            }
        },
        BrokerEvent::Peer(PeerEvent::ForwardBinary { visited, sequence, .. }) => {
            if state.forward_tracked(names(visited@)) {
                assert(after.origins.has_seen(names(visited@)[0], sequence));
            }
        },
        _ => {},
    }
}

/// Once a connected peer has subscribed to a topic, every publication on
/// that topic is delivered to it, on the connection it subscribed from.
pub proof fn lemma_subscribers_receive_publications(
    state: BrokerState,
    after: BrokerState,
    subscriber: String,
    topic: String,
    publisher: Seq<char>,
    payload: PayloadModel,
    local_only: bool,
    visited: Seq<Seq<char>>,
    sequence: u64,
)
    requires
        is_peer(state.peers@, subscriber@),
        state.step_state(&BrokerEvent::Peer(PeerEvent::Subscribe { id: subscriber, topic }), &after),
    ensures
        after.subscriptions.has_topic(topic@),
        after.publication_of(publisher, topic@, payload, local_only, visited, sequence).last() matches ActionModel::Deliver {
            recipients,
            ..
        } && recipients.contains((subscriber@, generation_of(state.peers@, subscriber@))),
{
    let subscribers = after.subscriptions.subscribers_of(topic@);
    assert(subscribers.contains(subscriber@)) by {
        let before = state.subscriptions.subscribers_of(topic@);
        if !before.contains(subscriber@) {
            assert(subscribers.last() == subscriber@);
        }
    }
    lemma_recipients_are_connected_subscribers(
        after.peers@,
        subscribers,
        subscriber@,
        generation_of(state.peers@, subscriber@),
    );
}

/// After a peer unsubscribes from a topic, no publication on that topic is
/// delivered to it.
pub proof fn lemma_unsubscribed_peers_receive_nothing(
    state: BrokerState,
    after: BrokerState,
    subscriber: String,
    topic: String,
    publisher: Seq<char>,
    payload: PayloadModel,
    local_only: bool,
    visited: Seq<Seq<char>>,
    sequence: u64,
    generation: u64,
)
    requires
        state.step_state(&BrokerEvent::Peer(PeerEvent::Unsubscribe { id: subscriber, topic }), &after),
    ensures
        forall|i: int|
            0 <= i < after.publication_of(publisher, topic@, payload, local_only, visited, sequence).len() ==> (
            #[trigger] after.publication_of(publisher, topic@, payload, local_only, visited, sequence)[i] matches ActionModel::Deliver {
                recipients,
                ..
            } ==> !recipients.contains((subscriber@, generation))),
{
    let subscribers = after.subscriptions.subscribers_of(topic@);
    crate::topics::lemma_without_facts(state.subscriptions.subscribers_of(topic@), subscriber@);
    lemma_recipients_are_connected_subscribers(after.peers@, subscribers, subscriber@, generation);
    let publication = after.publication_of(publisher, topic@, payload, local_only, visited, sequence);
    let forwards = if local_only {
        Seq::empty()
    } else {
        forwards_of(after.bridges.bridges@, publisher, topic@, payload, visited, sequence)
    };
    lemma_forwards_skip_the_incoming_bridge(after.bridges.bridges@, publisher, topic@, payload, visited, sequence);
    assert forall|i: int| 0 <= i < publication.len() implies (#[trigger] publication[i] matches ActionModel::Deliver {
        recipients,
        ..
    } ==> !recipients.contains((subscriber@, generation))) by {
        if i < forwards.len() {
            assert(publication[i] == forwards[i]);
        }
    }
}


/// Forwarded publications may arrive out of order: taking in one number from
/// an origin leaves every other number not yet heard from it acceptable, as
/// long as the origin's reorder window has room (an origin heard for the
/// first time has all of it).
pub proof fn lemma_out_of_order_numbers_stay_new(
    before: OriginTracker,
    after: OriginTracker,
    origin: Seq<char>,
    taken: u64,
    later: u64,
)
    requires
        origins_advanced(before, after, origin, taken),
        before.tracks(origin) ==> before.progress_of(origin).ahead@.len() < crate::dedup::REORDER_WINDOW,
        !before.has_seen(origin, later),
        later != 0,
        later != taken,
    ensures
        !after.has_seen(origin, later),
{
    assert(after.has_seen(origin, later) == after.has_seen(origin, later));
}


/// A client that reconnects is served again, and only from then on: across
/// the disconnection and the new connection it keeps every topic it was
/// subscribed to or waiting for, which it subscribes to again on connecting;
/// the broker answers its hello and each of those subscriptions without
/// delivering anything, so no publication made while it was away reaches it
/// (a publication reaches only the connected subscribers of its moment, see
/// `lemma_recipients_are_connected_subscribers`).
pub proof fn lemma_reconnection_resubscribes_without_replay(
    before: ClientState,
    reconnected: ClientState,
    state: BrokerState,
    event: BrokerEvent,
    topic: Seq<char>,
)
    requires
        reconnected.subscriptions == before.subscriptions,
        reconnected.pending_subscriptions == before.pending_subscriptions,
        event is Hello || event matches BrokerEvent::Peer(PeerEvent::Subscribe { .. }),
    ensures
        (reconnected.subscribed().contains(topic) || reconnected.pending().contains(topic)) <==> (
        before.subscribed().contains(topic) || before.pending().contains(topic)),
        forall|i: int| 0 <= i < state.actions_for(&event).len() ==> !(#[trigger] state.actions_for(&event)[i] is Deliver),
{
}

/// A publication on a topic with an entry ends in one delivery, on that
/// topic, to exactly its connected subscribers, and the delivery carries what
/// was published: a text payload as its text with no bytes, a binary payload
/// as its bytes, unchanged.
pub proof fn lemma_deliveries_carry_the_published_payload(
    state: BrokerState,
    publisher: Seq<char>,
    topic: Seq<char>,
    payload: PayloadModel,
    local_only: bool,
    visited: Seq<Seq<char>>,
    sequence: u64,
)
    requires
        state.subscriptions.has_topic(topic),
    ensures
        state.publication_of(publisher, topic, payload, local_only, visited, sequence).last() matches ActionModel::Deliver {
            topic: delivered,
            payload: text,
            bytes,
            recipients,
            ..
        } && delivered == topic && (match payload {
            PayloadModel::Text(sent) => text == sent && bytes is None,
            PayloadModel::Binary(sent) => bytes == Some(sent),
        }) && forall|name: Seq<char>, generation: u64|
            #[trigger] recipients.contains((name, generation)) <==> state.subscriptions.subscribers_of(topic).contains(
                name,
            ) && is_peer(state.peers@, name) && generation == generation_of(state.peers@, name),
{
    let subscribers = state.subscriptions.subscribers_of(topic);
    assert forall|name: Seq<char>, generation: u64|
        #[trigger] recipients_of(state.peers@, subscribers).contains((name, generation)) <==> subscribers.contains(name)
            && is_peer(state.peers@, name) && generation == generation_of(state.peers@, name) by {
        lemma_recipients_are_connected_subscribers(state.peers@, subscribers, name, generation);
    }
}

/// A peer's binary publication (a batch, say) reaches the subscribers of a
/// topic with an entry with its bytes exactly as sent.
pub proof fn lemma_binary_publications_arrive_intact(
    state: BrokerState,
    id: String,
    topic: String,
    payload: Vec<u8>,
    local_only: bool,
)
    requires
        state.subscriptions.has_topic(topic@),
    ensures
        state.actions_for(&(BrokerEvent::Peer(PeerEvent::PublishBinary { id, topic, payload, local_only }))).last() matches ActionModel::Deliver {
            topic: delivered,
            bytes,
            ..
        } && delivered == topic@ && bytes == Some(payload@),
{
    lemma_deliveries_carry_the_published_payload(
        state,
        id@,
        topic@,
        PayloadModel::Binary(payload@),
        local_only,
        seq![state.instance_id@],
        (state.publish_counter + 1) as u64,
    );
}

/// Each closing for an address is a closing with the asked notification.
pub proof fn lemma_closings_notify_as_asked(bridges: Seq<BridgeEntry>, target: Seq<char>, notify: bool)
    ensures
        forall|i: int|
            0 <= i < closings_for_target(bridges, target, notify).len() ==> (#[trigger] closings_for_target(
                bridges,
                target,
                notify,
            )[i] matches ActionModel::CloseBridge { notify_remote, .. } && notify_remote == notify),
    decreases bridges.len(),
{
    if bridges.len() > 0 {
        lemma_closings_notify_as_asked(bridges.drop_last(), target, notify);
        let all = closings_for_target(bridges, target, notify);
        let part = closings_for_target(bridges.drop_last(), target, notify);
        assert forall|i: int| 0 <= i < all.len() implies (#[trigger] all[i] matches ActionModel::CloseBridge {
            notify_remote,
            ..
        } && notify_remote == notify) by {
            if i < part.len() {
                assert(all[i] == part[i]);
            }
        }
    }
}

/// Opening a bridge first closes the bridges already reaching that address,
/// then connects to it. The connection carries the request's own
/// acknowledgement flag: the far broker is asked to bridge back exactly when
/// the request is not itself an acknowledgement, and an acknowledged bridge
/// keeps the id the far side gave it. The closings notify the far side
/// exactly when the request is not an acknowledgement.
pub proof fn lemma_open_bridge_asks_back_unless_acknowledging(
    state: BrokerState,
    id: String,
    source_address: String,
    target_address: String,
    ack: bool,
)
    ensures
        ({
            let actions = state.actions_for(
                &(BrokerEvent::Peer(PeerEvent::OpenBridge { id, source_address, target_address, ack })),
            );
            &&& actions.len() >= 1
            &&& actions.last() matches ActionModel::ConnectBridge {
                requester,
                override_id,
                source_address: source,
                target_address: target,
                ack: asked_back_unless,
            }
            &&& requester == id@ && source == source_address@ && target == target_address@
            &&& asked_back_unless == ack
            &&& (ack ==> override_id == Some(id@)) && (!ack ==> override_id is None)
            &&& forall|i: int|
                0 <= i < actions.len() - 1 ==> (#[trigger] actions[i] matches ActionModel::CloseBridge {
                    notify_remote,
                    ..
                } && notify_remote == !ack)
        }),
{
    let closings = closings_for_target(state.bridges.bridges@, target_address@, !ack);
    lemma_closings_notify_as_asked(state.bridges.bridges@, target_address@, !ack);
    let actions = state.actions_for(
        &(BrokerEvent::Peer(PeerEvent::OpenBridge { id, source_address, target_address, ack })),
    );
    assert forall|i: int| 0 <= i < actions.len() - 1 implies (#[trigger] actions[i] matches ActionModel::CloseBridge {
        notify_remote,
        ..
    } && notify_remote == !ack) by {
        assert(actions[i] == closings[i]);
    }
}

/// The peers report names each connected peer once, in connection order, and
/// nothing else: a name is in it exactly when that peer is connected.
pub proof fn lemma_peer_report_lists_every_peer(peers: Seq<PeerEntry>)
    ensures
        peer_ids(peers).len() == peers.len(),
        forall|i: int| 0 <= i < peers.len() ==> #[trigger] peer_ids(peers)[i] == peers[i].id@,
        forall|name: Seq<char>| #[trigger] peer_ids(peers).contains(name) <==> is_peer(peers, name),
{
    let ids = peer_ids(peers);
    assert forall|name: Seq<char>| #[trigger] ids.contains(name) <==> is_peer(peers, name) by {
        if ids.contains(name) {
            let k = choose|k: int| 0 <= k < ids.len() && ids[k] == name;
            assert(peers[k].id@ == name);
        }
        if is_peer(peers, name) {
            let k = choose|k: int| 0 <= k < peers.len() && #[trigger] peers[k].id@ == name;
            assert(ids[k] == name);
        }
    }
}

/// The subscriptions report lists the table's topics in table order, each
/// paired with exactly that topic's subscribers; every topic with an entry is
/// in it with its subscribers.
pub proof fn lemma_subscription_report_pairs_topics_with_subscribers(table: TopicTable)
    requires
        table.wf(),
    ensures
        subscription_report_of(table).len() == table.topics().len(),
        forall|i: int|
            0 <= i < table.topics().len() ==> #[trigger] subscription_report_of(table)[i] == (
            table.topics()[i],
            table.subscribers_of(table.topics()[i]),
        ),
        forall|topic: Seq<char>|
            #[trigger] table.has_topic(topic) ==> subscription_report_of(table).contains(
                (topic, table.subscribers_of(topic)),
            ),
{
    let report = subscription_report_of(table);
    assert forall|i: int| 0 <= i < table.topics().len() implies #[trigger] report[i] == (
        table.topics()[i],
        table.subscribers_of(table.topics()[i]),
    ) by {
        table.lemma_index_of(i);
    }
    assert forall|topic: Seq<char>| #[trigger] table.has_topic(topic) implies report.contains(
        (topic, table.subscribers_of(topic)),
    ) by {
        let k = table.index_of(topic);
        table.lemma_index_of(k);
        assert(report[k] == (topic, table.subscribers_of(topic)));
    }
}

/// A request for the peers report is answered, from the broker, with a
/// report that names exactly the connected peers, one entry each.
pub proof fn lemma_peers_request_is_answered_with_every_peer(
    state: BrokerState,
    id: String,
    topic: String,
    payload: String,
    local_only: bool,
)
    requires
        topic@ == request_peers_topic_spec(),
    ensures
        state.actions_for(&(BrokerEvent::Peer(PeerEvent::PublishText { id, topic, payload, local_only })))[0] matches ActionModel::Announce {
            report: ReportModel::Peers { peers },
            ..
        } && peers.len() == state.peers@.len() && forall|name: Seq<char>|
            #[trigger] peers.contains(name) <==> is_peer(state.peers@, name),
{
    reveal_strlit("hearsay/peers/request");
    reveal_strlit("hearsay/subscriptions/request");
    assert(request_peers_topic_spec() != request_subscriptions_topic_spec()) by {
        assert(request_peers_topic_spec()[8] != request_subscriptions_topic_spec()[8]);
    }
    lemma_peer_report_lists_every_peer(state.peers@);
}

/// A request for the subscriptions report is answered, from the broker, with
/// a report that pairs every topic of the table with exactly its subscribers.
pub proof fn lemma_subscriptions_request_is_answered_with_every_topic(
    state: BrokerState,
    id: String,
    topic: String,
    payload: String,
    local_only: bool,
)
    requires
        state.wf(),
        topic@ == request_subscriptions_topic_spec(),
    ensures
        state.actions_for(&(BrokerEvent::Peer(PeerEvent::PublishText { id, topic, payload, local_only })))[0] matches ActionModel::Announce {
            report: ReportModel::Subscriptions { subscriptions },
            ..
        } && subscriptions.len() == state.subscriptions.topics().len() && forall|i: int|
            0 <= i < subscriptions.len() ==> #[trigger] subscriptions[i] == (
            state.subscriptions.topics()[i],
            state.subscriptions.subscribers_of(state.subscriptions.topics()[i]),
        ),
{
    lemma_subscription_report_pairs_topics_with_subscribers(state.subscriptions);
}

/// A request for the bridges report is answered, from the broker, with a
/// report that names each bridge once, in registry order.
pub proof fn lemma_bridges_request_is_answered_with_every_bridge(
    state: BrokerState,
    id: String,
    topic: String,
    payload: String,
    local_only: bool,
)
    requires
        topic@ == request_bridges_topic_spec(),
    ensures
        state.actions_for(&(BrokerEvent::Peer(PeerEvent::PublishText { id, topic, payload, local_only })))[0] matches ActionModel::Announce {
            report: ReportModel::Bridges { bridges },
            ..
        } && bridges.len() == state.bridges.bridges@.len() && forall|i: int|
            0 <= i < bridges.len() ==> #[trigger] bridges[i] == state.bridges.bridges@[i].id@,
{
    reveal_strlit("hearsay/bridges/request");
    reveal_strlit("hearsay/peers/request");
    reveal_strlit("hearsay/subscriptions/request");
    assert(request_bridges_topic_spec() != request_peers_topic_spec()) by {
        assert(request_bridges_topic_spec()[8] != request_peers_topic_spec()[8]);
    }
    assert(request_bridges_topic_spec() != request_subscriptions_topic_spec()) by {
        assert(request_bridges_topic_spec()[8] != request_subscriptions_topic_spec()[8]);
    }
    lemma_bridge_ids_list_every_bridge(state.bridges.bridges@);
}

/// A hello starts the peer's writer on the connection the broker then
/// records for it, and announces the new peer.
pub proof fn lemma_hello_serves_the_recorded_connection(state: BrokerState, after: BrokerState, id: String)
    requires
        state.step_state(&(BrokerEvent::Hello { id }), &after),
    ensures
        state.actions_for(&(BrokerEvent::Hello { id }))[0] == (ActionModel::StartWriter {
            peer: id@,
            generation: generation_of(after.peers@, id@),
        }),
        is_peer(after.peers@, id@),
        state.actions_for(&(BrokerEvent::Hello { id }))[1] matches ActionModel::Announce {
            report: ReportModel::PeerConnected { id: announced },
            ..
        } && announced == id@,
{
}

} // verus!
