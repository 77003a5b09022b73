//! A desktop window's bookkeeping of which widgets want which topics, and the
//! commands its broker connection receives: a topic is subscribed at the
//! broker while some widget wants it and unsubscribed when the last one lets
//! go.
use crate::topics::{
    lemma_push_contains, lemma_with_name_contains, lemma_without_facts, names, no_duplicates,
    copy_names, with_name, without, TopicTable,
};
use vstd::prelude::*;

verus! {

/// What the window's services ask of its broker connection.
pub enum BrokerServiceMessage {
    Publish { topic: String, message: String },
    PublishBytes { topic: String, bytes: Vec<u8> },
    Subscribe { topics: Vec<String>, widget_id: String },
    Unsubscribe { topics: Vec<String>, widget_id: String },
    WidgetRemoved { widget_id: String },
    SpawnWindow,
    Empty,
}

impl Default for BrokerServiceMessage {
    fn default() -> (message: Self)
        ensures
            message is Empty,
    {
        BrokerServiceMessage::Empty
    }
}

/// What the window's broker connection is told to do.
pub enum RuntimeCommand {
    Publish { topic: String, message: String },
    PublishBytes { topic: String, bytes: Vec<u8> },
    Subscribe { topics: Vec<String> },
    Unsubscribe { topics: Vec<String> },
    SpawnWindow,
}

/// Which widgets want which topics.
pub struct SubscriptionRegistry {
    pub topic_subscribers: TopicTable,
}

/// The topics of `topics` that an unsubscription of `widget` from `table`
/// leaves without subscribers, in the order of their first occurrence.
pub open spec fn orphaned_by(topics: Seq<Seq<char>>, table: TopicTable, widget: Seq<char>) -> Seq<Seq<char>>
    decreases topics.len(),
{
    if topics.len() == 0 {
        Seq::empty()
    } else {
        let earlier = topics.drop_last();
        let topic = topics.last();
        if !earlier.contains(topic) && table.has_topic(topic) && without(table.subscribers_of(topic), widget).len()
            == 0 {
            orphaned_by(earlier, table, widget).push(topic)
        } else {
            orphaned_by(earlier, table, widget)
        }
    }
}

/// `after` is `before` with `widget` registered for each of `topics`.
pub open spec fn subscription(
    before: SubscriptionRegistry,
    after: SubscriptionRegistry,
    topics: Seq<Seq<char>>,
    widget: Seq<char>,
) -> bool {
    &&& forall|topic: Seq<char>|
        topics.contains(topic) ==> #[trigger] after.wanted(topic) && after.widgets_of(topic) == with_name(
            before.widgets_of(topic),
            widget,
        )
    &&& forall|topic: Seq<char>|
        !topics.contains(topic) ==> #[trigger] after.wanted(topic) == before.wanted(topic) && after.widgets_of(topic)
            == before.widgets_of(topic)
}

/// `after` is `before` with `widget` unregistered from each of `topics`,
/// the topics left without widgets dropped.
pub open spec fn unsubscription(
    before: SubscriptionRegistry,
    after: SubscriptionRegistry,
    topics: Seq<Seq<char>>,
    widget: Seq<char>,
) -> bool {
    &&& forall|topic: Seq<char>|
        topics.contains(topic) ==> (#[trigger] after.wanted(topic) <==> before.wanted(topic) && without(
            before.widgets_of(topic),
            widget,
        ).len() > 0)
    &&& forall|topic: Seq<char>|
        topics.contains(topic) && #[trigger] after.wanted(topic) ==> after.widgets_of(topic) == without(
            before.widgets_of(topic),
            widget,
        )
    &&& forall|topic: Seq<char>|
        !topics.contains(topic) ==> #[trigger] after.wanted(topic) == before.wanted(topic) && after.widgets_of(topic)
            == before.widgets_of(topic)
}

/// `after` is `before` with `widget` unregistered from every topic, the
/// topics left without widgets dropped.
pub open spec fn removal(before: SubscriptionRegistry, after: SubscriptionRegistry, widget: Seq<char>) -> bool {
    &&& forall|topic: Seq<char>|
        #[trigger] after.wanted(topic) <==> before.wanted(topic) && without(before.widgets_of(topic), widget).len() > 0
    &&& forall|topic: Seq<char>|
        #[trigger] after.wanted(topic) ==> after.widgets_of(topic) == without(before.widgets_of(topic), widget)
}

impl SubscriptionRegistry {
    /// The table is well formed and every topic in it has a subscriber.
    pub open spec fn wf(&self) -> bool {
        &&& self.topic_subscribers.wf()
        &&& forall|topic: Seq<char>|
            #[trigger] self.topic_subscribers.has_topic(topic) ==> self.topic_subscribers.subscribers_of(topic).len()
                > 0
    }

    /// Whether some widget wants `topic`.
    pub open spec fn wanted(&self, topic: Seq<char>) -> bool {
        self.topic_subscribers.has_topic(topic)
    }

    /// The widgets that want `topic`, in the order they asked.
    pub open spec fn widgets_of(&self, topic: Seq<char>) -> Seq<Seq<char>> {
        self.topic_subscribers.subscribers_of(topic)
    }

    /// A registry in which no widget wants anything.
    pub fn new() -> (registry: SubscriptionRegistry)
        ensures
            registry.wf(),
            forall|topic: Seq<char>| !registry.wanted(topic),
    {
        SubscriptionRegistry { topic_subscribers: TopicTable::new() }
    }
}

impl Default for SubscriptionRegistry {
    fn default() -> (registry: Self)
        ensures
            registry.wf(),
            forall|topic: Seq<char>| !registry.wanted(topic),
    {
        SubscriptionRegistry::new()
    }
}

/// Adding a name that is there already changes nothing.
proof fn lemma_with_name_twice(list: Seq<Seq<char>>, name: Seq<char>)
    ensures
        with_name(with_name(list, name), name) == with_name(list, name),
        with_name(list, name).len() > 0,
{
    lemma_with_name_contains(list, name, name);
}

/// Removing a name a second time changes nothing.
proof fn lemma_without_twice(list: Seq<Seq<char>>, name: Seq<char>)
    ensures
        without(without(list, name), name) == without(list, name),
{
    lemma_without_facts(list, name);
    lemma_without_facts(without(list, name), name);
}

/// Registers `widget` for each of `topics`.
fn subscribe_widget(registry: &mut SubscriptionRegistry, topics: &Vec<String>, widget: &String)
    requires
        old(registry).wf(),
    ensures
        final(registry).wf(),
        subscription(*old(registry), *final(registry), names(topics@), widget@),
{
    let ghost start = *registry;
    let mut index: usize = 0;
    while index < topics.len()
        invariant
            registry.wf(),
            index <= topics@.len(),
            forall|topic: Seq<char>|
                names(topics@).take(index as int).contains(topic) ==> #[trigger] registry.wanted(topic)
                    && registry.widgets_of(topic) == with_name(start.widgets_of(topic), widget@),
            forall|topic: Seq<char>|
                !names(topics@).take(index as int).contains(topic) ==> #[trigger] registry.wanted(topic)
                    == start.wanted(topic) && registry.widgets_of(topic) == start.widgets_of(topic),
        decreases topics@.len() - index,
    {
        let ghost before = *registry;
        let ghost current = names(topics@)[index as int];
        registry.topic_subscribers.subscribe(widget.clone(), topics[index].clone());
        proof {
            assert(names(topics@).take(index + 1) =~= names(topics@).take(index as int).push(current));
            assert forall|topic: Seq<char>|
                names(topics@).take(index + 1).contains(topic) implies #[trigger] registry.wanted(topic)
                    && registry.widgets_of(topic) == with_name(start.widgets_of(topic), widget@) by {
                lemma_push_contains(names(topics@).take(index as int), current, topic);
                assert(before.wanted(topic) == before.topic_subscribers.has_topic(topic));
                if topic == current {
                    lemma_with_name_twice(start.widgets_of(topic), widget@);
                }
            }
            assert forall|topic: Seq<char>|
                !names(topics@).take(index + 1).contains(topic) implies #[trigger] registry.wanted(topic)
                    == start.wanted(topic) && registry.widgets_of(topic) == start.widgets_of(topic) by {
                lemma_push_contains(names(topics@).take(index as int), current, topic);
                assert(before.wanted(topic) == before.topic_subscribers.has_topic(topic));
            }
            assert forall|topic: Seq<char>|
                #[trigger] registry.topic_subscribers.has_topic(topic) implies registry.topic_subscribers.subscribers_of(
                    topic,
                ).len() > 0 by {
                if topic == current {
                    lemma_with_name_twice(before.widgets_of(topic), widget@);
                }
            }
        }
        index = index + 1;
    }
    assert(names(topics@).take(topics@.len() as int) =~= names(topics@));
}

/// Unregisters `widget` from each of `topics`; returns the topics no widget
/// wants any more, in the order of their first occurrence in `topics`.
fn unsubscribe_widget(registry: &mut SubscriptionRegistry, topics: &Vec<String>, widget: &String) -> (orphaned: Vec<
    String,
>)
    requires
        old(registry).wf(),
    ensures
        final(registry).wf(),
        unsubscription(*old(registry), *final(registry), names(topics@), widget@),
        names(orphaned@) == orphaned_by(names(topics@), old(registry).topic_subscribers, widget@),
{
    let ghost start = *registry;
    let mut orphaned: Vec<String> = Vec::new();
    let mut index: usize = 0;
    while index < topics.len()
        invariant
            registry.wf(),
            index <= topics@.len(),
            names(orphaned@) == orphaned_by(names(topics@).take(index as int), start.topic_subscribers, widget@),
            forall|topic: Seq<char>|
                names(topics@).take(index as int).contains(topic) ==> (#[trigger] registry.wanted(topic)
                    <==> start.wanted(topic) && without(start.widgets_of(topic), widget@).len() > 0),
            forall|topic: Seq<char>|
                names(topics@).take(index as int).contains(topic) && #[trigger] registry.wanted(topic)
                    ==> registry.widgets_of(topic) == without(start.widgets_of(topic), widget@),
            forall|topic: Seq<char>|
                !names(topics@).take(index as int).contains(topic) ==> #[trigger] registry.wanted(topic)
                    == start.wanted(topic) && registry.widgets_of(topic) == start.widgets_of(topic),
        decreases topics@.len() - index,
    {
        let ghost before = *registry;
        let ghost current = names(topics@)[index as int];
        let ghost seen = names(topics@).take(index as int);
        proof {
            lemma_without_twice(start.widgets_of(current), widget@);
        }
        let dropped = registry.topic_subscribers.unsubscribe_and_prune(widget, &topics[index]);
        if dropped {
            orphaned.push(topics[index].clone());
        }
        proof {
            let next = names(topics@).take(index + 1);
            assert(next =~= seen.push(current));
            assert(next.drop_last() =~= seen);
            assert(before.wanted(current) == before.topic_subscribers.has_topic(current));
            assert(names(orphaned@) =~= orphaned_by(next, start.topic_subscribers, widget@));
            assert forall|topic: Seq<char>|
                next.contains(topic) implies (#[trigger] registry.wanted(topic) <==> start.wanted(topic) && without(
                    start.widgets_of(topic),
                    widget@,
                ).len() > 0) by {
                lemma_push_contains(seen, current, topic);
                assert(before.wanted(topic) == before.topic_subscribers.has_topic(topic));
            }
            assert forall|topic: Seq<char>|
                next.contains(topic) && #[trigger] registry.wanted(topic) implies registry.widgets_of(topic)
                    == without(start.widgets_of(topic), widget@) by {
                lemma_push_contains(seen, current, topic);
                assert(before.wanted(topic) == before.topic_subscribers.has_topic(topic));
            }
            assert forall|topic: Seq<char>|
                !next.contains(topic) implies #[trigger] registry.wanted(topic) == start.wanted(topic)
                    && registry.widgets_of(topic) == start.widgets_of(topic) by {
                lemma_push_contains(seen, current, topic);
                assert(before.wanted(topic) == before.topic_subscribers.has_topic(topic));
            }
        }
        index = index + 1;
    }
    assert(names(topics@).take(topics@.len() as int) =~= names(topics@));
    proof {
        assert forall|topic: Seq<char>|
            names(topics@).contains(topic) && #[trigger] registry.wanted(topic) implies registry.widgets_of(topic)
                == without(start.widgets_of(topic), widget@) by {
            assert(names(topics@).take(topics@.len() as int).contains(topic));
        }
        assert forall|topic: Seq<char>|
            names(topics@).contains(topic) implies (#[trigger] registry.wanted(topic) <==> start.wanted(topic)
                && without(start.widgets_of(topic), widget@).len() > 0) by {
            assert(names(topics@).take(topics@.len() as int).contains(topic));
        }
        assert forall|topic: Seq<char>|
            !names(topics@).contains(topic) implies #[trigger] registry.wanted(topic) == start.wanted(topic)
                && registry.widgets_of(topic) == start.widgets_of(topic) by {
            assert(!names(topics@).take(topics@.len() as int).contains(topic));
        }
    }
    orphaned
}

/// Copies bytes.
fn copy_bytes(bytes: &Vec<u8>) -> (copy: Vec<u8>)
    ensures
        copy@ == bytes@,
{
    let mut copy: Vec<u8> = Vec::new();
    let mut index: usize = 0;
    while index < bytes.len()
        invariant
            index <= bytes@.len(),
            copy@ == bytes@.take(index as int),
        decreases bytes@.len() - index,
    {
        copy.push(bytes[index]);
        index = index + 1;
        assert(copy@ =~= bytes@.take(index as int));
    }
    assert(bytes@.take(bytes@.len() as int) =~= bytes@);
    copy
}

/// Handles one message of the window's services: publications and spawn
/// requests pass through; a subscription registers the widget and is passed
/// on whole; an unsubscription, or a removed widget, unregisters it and
/// passes on only the topics no widget wants any more, nothing when there
/// are none.
pub fn process_broker_service_message(message: &BrokerServiceMessage, registry: &mut SubscriptionRegistry) -> (command:
    Option<RuntimeCommand>)
    requires
        old(registry).wf(),
    ensures
        final(registry).wf(),
        match *message {
            BrokerServiceMessage::Publish { topic, message } => {
                &&& command matches Some(RuntimeCommand::Publish { topic: t, message: m }) && t@ == topic@ && m@
                    == message@
                &&& *final(registry) == *old(registry)
            },
            BrokerServiceMessage::PublishBytes { topic, bytes } => {
                &&& command matches Some(RuntimeCommand::PublishBytes { topic: t, bytes: b }) && t@ == topic@ && b@
                    == bytes@
                &&& *final(registry) == *old(registry)
            },
            BrokerServiceMessage::Subscribe { topics, widget_id } => {
                &&& command matches Some(RuntimeCommand::Subscribe { topics: t }) && names(t@) == names(topics@)
                &&& subscription(*old(registry), *final(registry), names(topics@), widget_id@)
            },
            BrokerServiceMessage::Unsubscribe { topics, widget_id } => {
                let orphaned = orphaned_by(names(topics@), old(registry).topic_subscribers, widget_id@);
                &&& (orphaned.len() == 0 ==> command is None)
                &&& (orphaned.len() > 0 ==> (command matches Some(RuntimeCommand::Unsubscribe { topics: t })
                    && names(t@) == orphaned))
                &&& unsubscription(*old(registry), *final(registry), names(topics@), widget_id@)
            },
            BrokerServiceMessage::WidgetRemoved { widget_id } => {
                &&& removal(*old(registry), *final(registry), widget_id@)
                &&& (command is None <==> forall|topic: Seq<char>|
                    #[trigger] old(registry).wanted(topic) ==> without(old(registry).widgets_of(topic), widget_id@).len()
                        > 0)
                &&& command matches Some(c) ==> (c matches RuntimeCommand::Unsubscribe { topics: t } && no_duplicates(
                    names(t@),
                ) && forall|topic: Seq<char>|
                    #[trigger] names(t@).contains(topic) <==> old(registry).wanted(topic) && without(
                        old(registry).widgets_of(topic),
                        widget_id@,
                    ).len() == 0)
            },
            BrokerServiceMessage::SpawnWindow => command matches Some(RuntimeCommand::SpawnWindow) && *final(registry) == *old(registry),
            BrokerServiceMessage::Empty => command is None && *final(registry) == *old(registry),
        },
{
    match message {
        BrokerServiceMessage::Publish { topic, message } => Some(
            RuntimeCommand::Publish { topic: topic.clone(), message: message.clone() },
        ),
        BrokerServiceMessage::PublishBytes { topic, bytes } => Some(
            RuntimeCommand::PublishBytes { topic: topic.clone(), bytes: copy_bytes(bytes) },
        ),
        BrokerServiceMessage::Subscribe { topics, widget_id } => {
            subscribe_widget(registry, topics, widget_id);
            Some(RuntimeCommand::Subscribe { topics: copy_names(topics) })
        },
        BrokerServiceMessage::Unsubscribe { topics, widget_id } => {
            let orphaned = unsubscribe_widget(registry, topics, widget_id);
            if orphaned.len() == 0 {
                None
            } else {
                Some(RuntimeCommand::Unsubscribe { topics: orphaned })
            }
        },
        BrokerServiceMessage::WidgetRemoved { widget_id } => {
            let ghost start = *registry;
            let orphaned = registry.topic_subscribers.remove_subscriber_and_prune(widget_id);
            proof {
                assert forall|topic: Seq<char>|
                    #[trigger] registry.topic_subscribers.has_topic(topic) implies registry.topic_subscribers.subscribers_of(
                        topic,
                    ).len() > 0 by {}
            }
            if orphaned.len() == 0 {
                proof {
                    assert forall|topic: Seq<char>|
                        #[trigger] start.wanted(topic) implies without(start.widgets_of(topic), widget_id@).len() > 0 by {
                        if without(start.widgets_of(topic), widget_id@).len() == 0 {
                            assert(names(orphaned@).contains(topic));
                        }
                    }
                }
                None
            } else {
                proof {
                    let topic = names(orphaned@)[0];
                    assert(names(orphaned@).contains(topic));
                    assert(start.wanted(topic) && without(start.widgets_of(topic), widget_id@).len() == 0);
                }
                Some(RuntimeCommand::Unsubscribe { topics: orphaned })
            }
        },
        BrokerServiceMessage::SpawnWindow => Some(RuntimeCommand::SpawnWindow),
        BrokerServiceMessage::Empty => None,
    }
}

/// A widget that subscribes to a topic is registered for it, and the topic
/// is wanted.
pub proof fn lemma_subscriber_is_registered(
    before: SubscriptionRegistry,
    after: SubscriptionRegistry,
    topics: Seq<Seq<char>>,
    widget: Seq<char>,
    topic: Seq<char>,
)
    requires
        subscription(before, after, topics, widget),
        topics.contains(topic),
    ensures
        after.wanted(topic),
        after.widgets_of(topic).contains(widget),
{
    lemma_with_name_contains(before.widgets_of(topic), widget, widget);
    assert(after.wanted(topic));
    assert(after.widgets_of(topic) == with_name(before.widgets_of(topic), widget));
}

/// A topic stays wanted, with its other widgets, when one widget lets go of
/// it while another still wants it.
pub proof fn lemma_topic_kept_for_other_widgets(
    before: SubscriptionRegistry,
    after: SubscriptionRegistry,
    topics: Seq<Seq<char>>,
    widget: Seq<char>,
    topic: Seq<char>,
    other: Seq<char>,
)
    requires
        unsubscription(before, after, topics, widget),
        before.widgets_of(topic).contains(other),
        other != widget,
    ensures
        after.wanted(topic),
        after.widgets_of(topic).contains(other),
        !topics.contains(topic) || !after.widgets_of(topic).contains(widget),
{
    lemma_without_facts(before.widgets_of(topic), widget);
    assert(without(before.widgets_of(topic), widget).contains(other));
    if !before.wanted(topic) {
        reveal(Seq::filter);
        assert(before.widgets_of(topic) =~= Seq::<Seq<char>>::empty());
    }
    if topics.contains(topic) {
        assert(after.wanted(topic));
        assert(after.widgets_of(topic) == without(before.widgets_of(topic), widget));
    } else {
        assert(after.wanted(topic) == before.wanted(topic));
    }
}

/// After a widget is removed, no topic lists it, and a topic is still wanted
/// exactly when some other widget wants it.
pub proof fn lemma_removed_widget_is_forgotten(
    before: SubscriptionRegistry,
    after: SubscriptionRegistry,
    widget: Seq<char>,
    topic: Seq<char>,
)
    requires
        removal(before, after, widget),
    ensures
        !after.widgets_of(topic).contains(widget),
        after.wanted(topic) <==> exists|other: Seq<char>| other != widget && #[trigger] before.widgets_of(topic).contains(other),
{
    lemma_without_facts(before.widgets_of(topic), widget);
    let kept = without(before.widgets_of(topic), widget);
    if !after.wanted(topic) {
        reveal(Seq::filter);
        assert(Seq::<Seq<char>>::empty().len() == 0);
    }
    if after.wanted(topic) {
        assert(kept.len() > 0);
        let other = kept[0];
        assert(kept.contains(other));
        assert(other != widget);
        assert(before.widgets_of(topic).contains(other));
    }
    if exists|other: Seq<char>| other != widget && #[trigger] before.widgets_of(topic).contains(other) {
        let other = choose|other: Seq<char>| other != widget && #[trigger] before.widgets_of(topic).contains(other);
        assert(kept.contains(other));
        if !before.wanted(topic) {
            reveal(Seq::filter);
            assert(before.widgets_of(topic) =~= Seq::<Seq<char>>::empty());
        }
    }
}

} // verus!
