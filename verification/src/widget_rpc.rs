//! A widget's side of a window's message bus: the topics it follows, what
//! arrived on them, the file results and dialog answers meant for it, and the
//! requests it queues for the window's services.
use crate::files::{FileSystemCommand, FileSystemMessage, FileSystemResult, FileSystemSuccess, TileTreeMessage};
use crate::keyed::KeyedList;
use crate::modals::{ModalResult, ModalServiceMessage};
use crate::project::{Notice, NotificationKind};
use crate::registry::BrokerServiceMessage;
use crate::topics::{contains_name, copy_names, lemma_without_facts, names, no_duplicates, retain_others, without};
use crate::spawn::{lemma_precedes_total, lemma_precedes_transitive, name_precedes, precedes};
use crate::window::{decimal, decimal_text, WidgetContext};
use vstd::prelude::*;

verus! {

/// A message on a window's bus.
#[allow(inconsistent_fields)]
pub enum BusMessage {
    ConnectionStatus { connected: bool },
    Topic { topic: String, payload: String, bytes: Option<Vec<u8>> },
    Broker { message: BrokerServiceMessage },
    Filesystem { message: FileSystemMessage },
    Modal { message: ModalServiceMessage },
    Notify { message: Notice },
    Tiles { message: TileTreeMessage },
    Empty,
}

impl Default for BusMessage {
    fn default() -> (message: Self)
        ensures
            message is Empty,
    {
        BusMessage::Empty
    }
}

/// What a widget keeps of the bus.
pub struct WidgetRpc {
    /// The topics it follows, each once.
    pub subscribed_topics: Vec<String>,
    /// The text payloads that arrived, by topic.
    pub received_messages: KeyedList<Vec<String>>,
    /// The binary payloads that arrived, by topic.
    pub received_binary_messages: KeyedList<Vec<Vec<u8>>>,
    /// The file results meant for it, by tag.
    pub file_results: KeyedList<Vec<FileSystemSuccess>>,
    /// The answer of the dialog it opened last, once given.
    pub current_modal_result: Option<bool>,
    /// The id of the dialog it opened last, while no answer was taken.
    pub last_modal_id: Option<String>,
    /// How many dialogs it has opened.
    pub modal_counter: u32,
    pub widget_id: String,
    /// The requests queued for the window's services.
    pub messages: Vec<BusMessage>,
    pub connected: bool,
}

/// The items under `key`, when there are any.
pub open spec fn items<T>(list: &KeyedList<Vec<T>>, key: Seq<char>) -> Option<Seq<T>> {
    match list.get(key) {
        Some(values) => Some(values@),
        None => None,
    }
}

/// `before` with `item` added at the end (a list of `item` alone when there
/// was none).
pub open spec fn pushed<T>(before: Option<Seq<T>>, item: T) -> Seq<T> {
    match before {
        Some(values) => values.push(item),
        None => seq![item],
    }
}

pub open spec fn byte_views(list: Seq<Vec<u8>>) -> Seq<Seq<u8>> {
    list.map_values(|bytes: Vec<u8>| bytes@)
}

/// Whether `text` begins with `prefix`.
pub open spec fn begins_with(text: Seq<char>, prefix: Seq<char>) -> bool {
    prefix.len() <= text.len() && text.subrange(0, prefix.len() as int) == prefix
}

/// The text payload `message` brings on `topic`.
pub open spec fn text_on(message: BusMessage, topic: Seq<char>) -> Option<Seq<char>> {
    match message {
        BusMessage::Topic { topic: on, payload, .. } => if on@ == topic {
            Some(payload@)
        } else {
            None
        },
        _ => None,
    }
}

/// The binary payload `message` brings on `topic`.
pub open spec fn bytes_on(message: BusMessage, topic: Seq<char>) -> Option<Seq<u8>> {
    match message {
        BusMessage::Topic { topic: on, bytes: Some(bytes), .. } => if on@ == topic {
            Some(bytes@)
        } else {
            None
        },
        _ => None,
    }
}

/// The answer `message` brings for the dialog `id`.
pub open spec fn answer_to(message: BusMessage, id: Seq<char>) -> Option<bool> {
    match message {
        BusMessage::Modal { message: ModalServiceMessage::ModalResult { id: answered, confirmed } } => if answered@
            == id {
            Some(confirmed)
        } else {
            None
        },
        _ => None,
    }
}

/// What a file result holds, as plain values.
pub enum SuccessModel {
    Empty,
    File { path: Seq<char>, bytes: Seq<u8>, tag: Seq<char> },
    Folder { path: Seq<char>, tag: Seq<char> },
}

pub open spec fn success_model(success: FileSystemSuccess) -> SuccessModel {
    match success {
        FileSystemSuccess::Empty => SuccessModel::Empty,
        FileSystemSuccess::File { path, bytes, tag } => SuccessModel::File { path: path@, bytes: bytes@, tag: tag@ },
        FileSystemSuccess::Folder { path, tag } => SuccessModel::Folder { path: path@, tag: tag@ },
    }
}

pub open spec fn success_models(list: Seq<FileSystemSuccess>) -> Seq<SuccessModel> {
    list.map_values(|success: FileSystemSuccess| success_model(success))
}

/// The tag of a file result.
pub open spec fn result_tag(success: FileSystemSuccess) -> Option<Seq<char>> {
    match success {
        FileSystemSuccess::File { tag, .. } => Some(tag@),
        FileSystemSuccess::Folder { tag, .. } => Some(tag@),
        FileSystemSuccess::Empty => None,
    }
}

/// The file result `message` brings under `tag`.
pub open spec fn result_under(message: BusMessage, tag: Seq<char>) -> Option<SuccessModel> {
    match message {
        BusMessage::Filesystem { message: FileSystemMessage::Result(FileSystemResult::Success(success)) } => if result_tag(
            success,
        ) == Some(tag) {
            Some(success_model(success))
        } else {
            None
        },
        _ => None,
    }
}

/// The connection state `message` reports.
pub open spec fn connection_in(message: BusMessage) -> Option<bool> {
    match message {
        BusMessage::ConnectionStatus { connected } => Some(connected),
        _ => None,
    }
}

impl WidgetRpc {
    pub open spec fn wf(&self) -> bool {
        &&& no_duplicates(names(self.subscribed_topics@))
        &&& self.received_messages.wf()
        &&& self.received_binary_messages.wf()
        &&& self.file_results.wf()
    }

    /// Whether the widget follows `topic`.
    pub open spec fn follows(&self, topic: Seq<char>) -> bool {
        names(self.subscribed_topics@).contains(topic)
    }

    /// The text payloads kept for `topic`.
    pub open spec fn texts(&self, topic: Seq<char>) -> Option<Seq<Seq<char>>> {
        match items(&self.received_messages, topic) {
            Some(list) => Some(names(list)),
            None => None,
        }
    }

    /// The binary payloads kept for `topic`.
    pub open spec fn blobs(&self, topic: Seq<char>) -> Option<Seq<Seq<u8>>> {
        match items(&self.received_binary_messages, topic) {
            Some(list) => Some(byte_views(list)),
            None => None,
        }
    }

    /// The file results kept under `tag`.
    pub open spec fn results(&self, tag: Seq<char>) -> Option<Seq<SuccessModel>> {
        match items(&self.file_results, tag) {
            Some(list) => Some(success_models(list)),
            None => None,
        }
    }

    /// The tags of this widget's file requests begin with this.
    pub open spec fn tag_prefix(&self) -> Seq<char> {
        self.widget_id@ + "::"@
    }

    /// The tag under which this widget asks for a file with `tag`.
    pub open spec fn scoped(&self, tag: Seq<char>) -> Seq<char> {
        self.tag_prefix() + tag
    }

    /// What the widget keeps, other than what arrived.
    pub open spec fn same_state(&self, other: &WidgetRpc) -> bool {
        &&& self.subscribed_topics@ == other.subscribed_topics@
        &&& self.last_modal_id == other.last_modal_id
        &&& self.modal_counter == other.modal_counter
        &&& self.widget_id@ == other.widget_id@
        &&& self.messages@ == other.messages@
    }

    /// What arrived: payloads, file results, the dialog answer and the
    /// connection state.
    pub open spec fn same_inbox(&self, other: &WidgetRpc) -> bool {
        &&& self.received_messages == other.received_messages
        &&& self.received_binary_messages == other.received_binary_messages
        &&& self.file_results == other.file_results
        &&& self.current_modal_result == other.current_modal_result
        &&& self.connected == other.connected
    }
}

/// What receiving `message` does to a widget: a payload on a topic it follows
/// is kept after those before it (its bytes too, when it has any); a file
/// result whose tag begins with the widget's prefix is kept under that tag;
/// the answer to the dialog it opened last is kept; a connection report sets
/// the connection state; nothing else changes.
pub open spec fn receives(before: WidgetRpc, message: BusMessage, after: WidgetRpc) -> bool {
    &&& after.same_state(&before)
    &&& forall|topic: Seq<char>| #[trigger]
        after.texts(topic) == match text_on(message, topic) {
            Some(payload) => if before.follows(topic) {
                Some(pushed(before.texts(topic), payload))
            } else {
                before.texts(topic)
            },
            None => before.texts(topic),
        }
    &&& forall|topic: Seq<char>| #[trigger]
        after.blobs(topic) == match bytes_on(message, topic) {
            Some(bytes) => if before.follows(topic) {
                Some(pushed(before.blobs(topic), bytes))
            } else {
                before.blobs(topic)
            },
            None => before.blobs(topic),
        }
    &&& forall|tag: Seq<char>| #[trigger]
        after.results(tag) == match result_under(message, tag) {
            Some(success) => if begins_with(tag, before.tag_prefix()) {
                Some(pushed(before.results(tag), success))
            } else {
                before.results(tag)
            },
            None => before.results(tag),
        }
    &&& after.current_modal_result == match before.last_modal_id {
        Some(id) => match answer_to(message, id@) {
            Some(confirmed) => Some(confirmed),
            None => before.current_modal_result,
        },
        None => before.current_modal_result,
    }
    &&& after.connected == match connection_in(message) {
        Some(connected) => connected,
        None => before.connected,
    }
}

/// Adds `item` under `key`.
fn append_under<T>(list: &mut KeyedList<Vec<T>>, key: String, item: T)
    requires
        old(list).wf(),
    ensures
        final(list).wf(),
        items(final(list), key@) == Some(pushed(items(old(list), key@), item)),
        forall|other: Seq<char>| other != key@ ==> #[trigger] items(final(list), other) == items(old(list), other),
{
    let existing = list.remove(&key);
    let mut values = match existing {
        Some(values) => values,
        None => Vec::new(),
    };
    let ghost start = values@;
    values.push(item);
    proof {
        assert(values@ =~= pushed(items(old(list), key@), item)) by {
            if old(list).get(key@) is None {
                assert(start =~= Seq::<T>::empty());
            }
        }
    }
    list.insert(key, values);
}

/// Whether `text` begins with `prefix`.
pub fn has_prefix(text: &str, prefix: &str) -> (result: bool)
    ensures
        result == begins_with(text@, prefix@),
{
    let text_length = text.unicode_len();
    let prefix_length = prefix.unicode_len();
    if prefix_length > text_length {
        return false;
    }
    let mut index: usize = 0;
    while index < prefix_length
        invariant
            prefix_length == prefix@.len(),
            text_length == text@.len(),
            prefix_length <= text_length,
            index <= prefix_length,
            forall|j: int| 0 <= j < index ==> text@[j] == prefix@[j],
        decreases prefix_length - index,
    {
        if text.get_char(index) != prefix.get_char(index) {
            proof {
                assert(text@.subrange(0, prefix@.len() as int)[index as int] != prefix@[index as int]);
            }
            return false;
        }
        index = index + 1;
    }
    assert(text@.subrange(0, prefix@.len() as int) =~= prefix@);
    true
}

impl WidgetRpc {
    fn process_topic_message(&mut self, topic: &str, payload: &str)
        requires
            old(self).wf(),
        ensures
            final(self).wf(),
            final(self).same_state(old(self)),
            forall|other: Seq<char>| #[trigger]
                final(self).texts(other) == if other == topic@ && old(self).follows(topic@) {
                    Some(pushed(old(self).texts(topic@), payload@))
                } else {
                    old(self).texts(other)
                },
            forall|other: Seq<char>| #[trigger] final(self).blobs(other) == old(self).blobs(other),
            forall|tag: Seq<char>| #[trigger] final(self).results(tag) == old(self).results(tag),
            final(self).current_modal_result == old(self).current_modal_result,
            final(self).connected == old(self).connected,
    {
        let key = String::from_str(topic);
        if !contains_name(&self.subscribed_topics, &key) {
            return;
        }
        let ghost before = items(&self.received_messages, topic@);
        let text = String::from_str(payload);
        let ghost kept = text;
        append_under(&mut self.received_messages, key, text);
        proof {
            assert(names(pushed(before, kept)) =~= pushed(old(self).texts(topic@), payload@));
        }
    }

    fn process_binary_topic_message(&mut self, topic: &str, bytes: &[u8])
        requires
            old(self).wf(),
        ensures
            final(self).wf(),
            final(self).same_state(old(self)),
            forall|other: Seq<char>| #[trigger] final(self).texts(other) == old(self).texts(other),
            forall|other: Seq<char>| #[trigger]
                final(self).blobs(other) == if other == topic@ && old(self).follows(topic@) {
                    Some(pushed(old(self).blobs(topic@), bytes@))
                } else {
                    old(self).blobs(other)
                },
            forall|tag: Seq<char>| #[trigger] final(self).results(tag) == old(self).results(tag),
            final(self).current_modal_result == old(self).current_modal_result,
            final(self).connected == old(self).connected,
    {
        let key = String::from_str(topic);
        if !contains_name(&self.subscribed_topics, &key) {
            return;
        }
        let ghost before = items(&self.received_binary_messages, topic@);
        let copy = vstd::slice::slice_to_vec(bytes);
        let ghost kept = copy;
        append_under(&mut self.received_binary_messages, key, copy);
        proof {
            assert(byte_views(pushed(before, kept)) =~= pushed(old(self).blobs(topic@), bytes@));
        }
    }

    /// Takes in a message from the bus (see `receives`).
    pub fn receive_message(&mut self, message: &BusMessage)
        requires
            old(self).wf(),
        ensures
            final(self).wf(),
            receives(*old(self), *message, *final(self)),
    {
        match message {
            BusMessage::Topic { topic, payload, bytes } => {
                self.process_topic_message(topic.as_str(), payload.as_str());
                match bytes {
                    Some(bytes) => self.process_binary_topic_message(topic.as_str(), bytes.as_slice()),
                    None => {},
                }
            },
            BusMessage::Modal { message: ModalServiceMessage::ModalResult { id, confirmed } } => {
                let answered = match &self.last_modal_id {
                    Some(last) => *id == *last,
                    None => false,
                };
                if answered {
                    self.current_modal_result = Some(*confirmed);
                }
            },
            BusMessage::Filesystem { message: FileSystemMessage::Result(FileSystemResult::Success(success)) } => {
                let ghost before = *self;
                let tag = match success {
                    FileSystemSuccess::File { tag, .. } => Some(tag),
                    FileSystemSuccess::Folder { tag, .. } => Some(tag),
                    FileSystemSuccess::Empty => None,
                };
                match tag {
                    Some(tag) => {
                        let mut prefix = self.widget_id.clone();
                        prefix.append("::");
                        if has_prefix(tag.as_str(), prefix.as_str()) {
                            let copy = copy_success(success);
                            let ghost kept = copy;
                            let ghost earlier = items(&self.file_results, tag@);
                            append_under(&mut self.file_results, tag.clone(), copy);
                            proof {
                                assert(success_models(pushed(earlier, kept)) =~= pushed(before.results(tag@), success_model(kept)));
                            }
                        }
                    },
                    None => {},
                }
            },
            BusMessage::ConnectionStatus { connected } => {
                self.connected = *connected;
            },
            _ => {},
        }
    }
}

/// A copy of a file result.
pub fn copy_success(success: &FileSystemSuccess) -> (copy: FileSystemSuccess)
    ensures
        success_model(copy) == success_model(*success),
{
    match success {
        FileSystemSuccess::Empty => FileSystemSuccess::Empty,
        FileSystemSuccess::File { path, bytes, tag } => FileSystemSuccess::File {
            path: path.clone(),
            bytes: vstd::slice::slice_to_vec(bytes.as_slice()),
            tag: tag.clone(),
        },
        FileSystemSuccess::Folder { path, tag } => FileSystemSuccess::Folder { path: path.clone(), tag: tag.clone() },
    }
}

/// One more request was queued after those before.
pub open spec fn queued(before: Seq<BusMessage>, after: Seq<BusMessage>) -> bool {
    after.len() == before.len() + 1 && after.drop_last() == before
}

/// Whether `message` asks the broker connection to subscribe `widget` to
/// `topics`.
pub open spec fn subscribe_request(message: BusMessage, topics: Seq<Seq<char>>, widget: Seq<char>) -> bool {
    match message {
        BusMessage::Broker { message: BrokerServiceMessage::Subscribe { topics: asked, widget_id } } => names(asked@)
            == topics && widget_id@ == widget,
        _ => false,
    }
}

/// Whether `message` asks the broker connection to unsubscribe `widget` from
/// `topics`.
pub open spec fn unsubscribe_request(message: BusMessage, topics: Seq<Seq<char>>, widget: Seq<char>) -> bool {
    match message {
        BusMessage::Broker { message: BrokerServiceMessage::Unsubscribe { topics: asked, widget_id } } => names(
            asked@,
        ) == topics && widget_id@ == widget,
        _ => false,
    }
}

/// What subscribing to `topic` does: a topic not followed yet is followed
/// from now on and asked of the broker connection; a followed one changes
/// nothing.
pub open spec fn subscribes(before: WidgetRpc, topic: Seq<char>, after: WidgetRpc) -> bool {
    &&& after.same_inbox(&before)
    &&& after.last_modal_id == before.last_modal_id
    &&& after.modal_counter == before.modal_counter
    &&& after.widget_id@ == before.widget_id@
    &&& if before.follows(topic) {
        &&& after.subscribed_topics@ == before.subscribed_topics@
        &&& after.messages@ == before.messages@
    } else {
        &&& names(after.subscribed_topics@) == names(before.subscribed_topics@).push(topic)
        &&& queued(before.messages@, after.messages@)
        &&& subscribe_request(after.messages@.last(), seq![topic], before.widget_id@)
    }
}

/// The topics of `topics` not followed yet (`followed`), in order, each once.
pub open spec fn newly_followed(followed: Seq<Seq<char>>, topics: Seq<Seq<char>>) -> Seq<Seq<char>>
    decreases topics.len(),
{
    if topics.len() == 0 {
        Seq::empty()
    } else {
        let earlier = newly_followed(followed, topics.drop_last());
        let topic = topics.last();
        if followed.contains(topic) || earlier.contains(topic) {
            earlier
        } else {
            earlier.push(topic)
        }
    }
}

/// What unsubscribing from `topics` does: none of them is followed from now
/// on, the others stay, and the broker connection is asked to let them go.
pub open spec fn unsubscribes(before: WidgetRpc, topics: Seq<Seq<char>>, after: WidgetRpc) -> bool {
    &&& after.same_inbox(&before)
    &&& after.last_modal_id == before.last_modal_id
    &&& after.modal_counter == before.modal_counter
    &&& after.widget_id@ == before.widget_id@
    &&& forall|topic: Seq<char>| #[trigger] after.follows(topic) == (before.follows(topic) && !topics.contains(topic))
    &&& queued(before.messages@, after.messages@)
    &&& unsubscribe_request(after.messages@.last(), topics, before.widget_id@)
}

/// A name is in two lists put together exactly when it is in one of them.
pub proof fn lemma_contains_concat(first: Seq<Seq<char>>, second: Seq<Seq<char>>, x: Seq<char>)
    ensures
        (first + second).contains(x) <==> (first.contains(x) || second.contains(x)),
{
    if (first + second).contains(x) {
        let k = choose|k: int| 0 <= k < (first + second).len() && (first + second)[k] == x;
        if k < first.len() {
            assert(first[k] == x);
        } else {
            assert(second[k - first.len()] == x);
        }
    }
    if first.contains(x) {
        let k = choose|k: int| 0 <= k < first.len() && first[k] == x;
        assert((first + second)[k] == x);
    }
    if second.contains(x) {
        let k = choose|k: int| 0 <= k < second.len() && second[k] == x;
        assert((first + second)[first.len() + k] == x);
    }
}

/// Subscribing to `topics` leaves followed exactly the topics followed before
/// and those of `topics`.
pub proof fn lemma_newly_followed(followed: Seq<Seq<char>>, topics: Seq<Seq<char>>)
    ensures
        forall|x: Seq<char>| #[trigger]
            (followed + newly_followed(followed, topics)).contains(x) <==> (followed.contains(x) || topics.contains(x)),
    decreases topics.len(),
{
    if topics.len() > 0 {
        let rest = topics.drop_last();
        lemma_newly_followed(followed, rest);
        let earlier = newly_followed(followed, rest);
        let topic = topics.last();
        assert forall|x: Seq<char>| #[trigger]
            (followed + newly_followed(followed, topics)).contains(x) <==> (followed.contains(x) || topics.contains(
                x,
            )) by {
            lemma_contains_concat(followed, newly_followed(followed, topics), x);
            lemma_contains_concat(followed, earlier, x);
            assert((followed + earlier).contains(x) <==> (followed.contains(x) || rest.contains(x)));
            if topics.contains(x) {
                let k = choose|k: int| 0 <= k < topics.len() && topics[k] == x;
                if k < topics.len() - 1 {
                    assert(rest[k] == x);
                }
            }
            if rest.contains(x) {
                let k = choose|k: int| 0 <= k < rest.len() && rest[k] == x;
                assert(topics[k] == x);
            }
            assert(topics[topics.len() - 1] == topic);
            if !(followed.contains(topic) || earlier.contains(topic)) {
                let pushed_list = earlier.push(topic);
                assert(pushed_list[earlier.len() as int] == topic);
                if pushed_list.contains(x) && x != topic {
                    let k = choose|k: int| 0 <= k < pushed_list.len() && pushed_list[k] == x;
                    assert(earlier[k] == x);
                }
                if earlier.contains(x) {
                    let k = choose|k: int| 0 <= k < earlier.len() && earlier[k] == x;
                    assert(pushed_list[k] == x);
                }
            } else {
                lemma_contains_concat(followed, earlier, topic);
            }
        }
    }
}

impl WidgetRpc {
    /// The widget's id.
    pub fn widget_id(&self) -> (id: &str)
        ensures
            id@ == self.widget_id@,
    {
        self.widget_id.as_str()
    }

    /// Whether the widget's window is connected to its broker.
    pub fn is_connected(&self) -> (connected: bool)
        ensures
            connected == self.connected,
    {
        self.connected
    }

    /// Whether a dialog it opened awaits its answer being taken.
    pub fn has_open_modal(&self) -> (open: bool)
        ensures
            open == self.last_modal_id is Some,
    {
        self.last_modal_id.is_some()
    }

    /// Hands out the queued requests, leaving none.
    pub fn drain_messages(&mut self) -> (drained: Vec<BusMessage>)
        ensures
            drained@ == old(self).messages@,
            final(self).messages@.len() == 0,
            final(self).subscribed_topics@ == old(self).subscribed_topics@,
            final(self).received_messages == old(self).received_messages,
            final(self).received_binary_messages == old(self).received_binary_messages,
            final(self).file_results == old(self).file_results,
            final(self).current_modal_result == old(self).current_modal_result,
            final(self).last_modal_id == old(self).last_modal_id,
            final(self).modal_counter == old(self).modal_counter,
            final(self).widget_id == old(self).widget_id,
            final(self).connected == old(self).connected,
    {
        let mut drained: Vec<BusMessage> = Vec::new();
        core::mem::swap(&mut drained, &mut self.messages);
        drained
    }

    /// Subscribes to `topic` (see `subscribes`).
    pub fn subscribe_to_topic(&mut self, topic: &str)
        requires
            old(self).wf(),
        ensures
            final(self).wf(),
            subscribes(*old(self), topic@, *final(self)),
    {
        let name = String::from_str(topic);
        if contains_name(&self.subscribed_topics, &name) {
            return;
        }
        let ghost before = names(self.subscribed_topics@);
        self.subscribed_topics.push(name);
        proof {
            assert(names(self.subscribed_topics@) =~= before.push(topic@));
            assert forall|i: int, j: int| 0 <= i < j < names(self.subscribed_topics@).len() implies names(
                self.subscribed_topics@,
            )[i] != names(self.subscribed_topics@)[j] by {
                if j == before.len() {
                    assert(before[i] == names(self.subscribed_topics@)[i]);
                }
            }
        }
        let mut topics: Vec<String> = Vec::new();
        topics.push(String::from_str(topic));
        let widget_id = self.widget_id.clone();
        proof {
            assert(names(topics@) =~= seq![topic@]);
        }
        self.messages.push(BusMessage::Broker { message: BrokerServiceMessage::Subscribe { topics, widget_id } });
        proof {
            assert(self.messages@.drop_last() =~= old(self).messages@);
        }
    }

    /// Subscribes to each of `topics` in turn: those not followed yet are
    /// followed, in order, and asked for one by one.
    pub fn subscribe_to_topics(&mut self, topics: &[String])
        requires
            old(self).wf(),
        ensures
            final(self).wf(),
            final(self).same_inbox(old(self)),
            final(self).last_modal_id == old(self).last_modal_id,
            final(self).modal_counter == old(self).modal_counter,
            final(self).widget_id@ == old(self).widget_id@,
            names(final(self).subscribed_topics@) == names(old(self).subscribed_topics@) + newly_followed(
                names(old(self).subscribed_topics@),
                names(topics@),
            ),
            final(self).messages@.len() == old(self).messages@.len() + newly_followed(
                names(old(self).subscribed_topics@),
                names(topics@),
            ).len(),
            final(self).messages@.take(old(self).messages@.len() as int) == old(self).messages@,
            forall|j: int|
                0 <= j < newly_followed(names(old(self).subscribed_topics@), names(topics@)).len()
                    ==> subscribe_request(
                    #[trigger] final(self).messages@[old(self).messages@.len() + j],
                    seq![newly_followed(names(old(self).subscribed_topics@), names(topics@))[j]],
                    old(self).widget_id@,
                ),
    {
        let ghost start = *self;
        let ghost followed = names(self.subscribed_topics@);
        let mut index: usize = 0;
        while index < topics.len()
            invariant
                self.wf(),
                index <= topics@.len(),
                self.same_inbox(&start),
                self.last_modal_id == start.last_modal_id,
                self.modal_counter == start.modal_counter,
                self.widget_id@ == start.widget_id@,
                followed == names(start.subscribed_topics@),
                names(self.subscribed_topics@) == followed + newly_followed(followed, names(topics@).take(index as int)),
                self.messages@.len() == start.messages@.len() + newly_followed(
                    followed,
                    names(topics@).take(index as int),
                ).len(),
                self.messages@.take(start.messages@.len() as int) == start.messages@,
                forall|j: int|
                    0 <= j < newly_followed(followed, names(topics@).take(index as int)).len()
                        ==> subscribe_request(
                        #[trigger] self.messages@[start.messages@.len() + j],
                        seq![newly_followed(followed, names(topics@).take(index as int))[j]],
                        start.widget_id@,
                    ),
            decreases topics@.len() - index,
        {
            let ghost taken = names(topics@).take(index as int);
            let ghost next = names(topics@).take(index + 1);
            let ghost earlier = newly_followed(followed, taken);
            let ghost before = *self;
            proof {
                assert(next.drop_last() =~= taken);
                assert(next.last() == topics@[index as int]@);
                lemma_contains_concat(followed, earlier, topics@[index as int]@);
            }
            self.subscribe_to_topic(topics[index].as_str());
            proof {
                if before.follows(topics@[index as int]@) {
                    assert(newly_followed(followed, next) == earlier);
                } else {
                    assert(newly_followed(followed, next) == earlier.push(topics@[index as int]@));
                    assert(names(self.subscribed_topics@) =~= followed + newly_followed(followed, next));
                    assert forall|j: int| 0 <= j < newly_followed(followed, next).len() implies subscribe_request(
                        #[trigger] self.messages@[start.messages@.len() + j],
                        seq![newly_followed(followed, next)[j]],
                        start.widget_id@,
                    ) by {
                        if j < earlier.len() {
                            assert(self.messages@[start.messages@.len() + j] == before.messages@[start.messages@.len()
                                + j]);
                        }
                    }
                    assert(self.messages@.take(start.messages@.len() as int) =~= start.messages@) by {
                        assert forall|k: int| 0 <= k < start.messages@.len() implies #[trigger] self.messages@[k]
                            == start.messages@[k] by {
                            assert(self.messages@[k] == before.messages@[k]);
                            assert(before.messages@.take(start.messages@.len() as int)[k] == start.messages@[k]);
                        }
                    }
                }
            }
            index = index + 1;
        }
        proof {
            assert(names(topics@).take(topics@.len() as int) =~= names(topics@));
        }
    }

    /// Unsubscribes from `topics` (see `unsubscribes`).
    pub fn unsubscribe_from_topics(&mut self, topics: &[String])
        requires
            old(self).wf(),
        ensures
            final(self).wf(),
            unsubscribes(*old(self), names(topics@), *final(self)),
    {
        let ghost start = *self;
        let mut index: usize = 0;
        let mut asked: Vec<String> = Vec::new();
        while index < topics.len()
            invariant
                self.wf(),
                index <= topics@.len(),
                self.same_inbox(&start),
                self.last_modal_id == start.last_modal_id,
                self.modal_counter == start.modal_counter,
                self.widget_id@ == start.widget_id@,
                self.messages@ == start.messages@,
                names(asked@) == names(topics@).take(index as int),
                forall|topic: Seq<char>| #[trigger]
                    self.follows(topic) == (start.follows(topic) && !names(topics@).take(index as int).contains(
                        topic,
                    )),
            decreases topics@.len() - index,
        {
            let ghost before = *self;
            let kept = retain_others(&self.subscribed_topics, &topics[index]);
            proof {
                lemma_without_facts(names(before.subscribed_topics@), topics@[index as int]@);
            }
            self.subscribed_topics = kept;
            asked.push(topics[index].clone());
            proof {
                let taken = names(topics@).take(index as int);
                let next = names(topics@).take(index + 1);
                assert(next =~= taken.push(topics@[index as int]@));
                assert(names(asked@) =~= next);
                assert forall|topic: Seq<char>| #[trigger]
                    self.follows(topic) == (start.follows(topic) && !next.contains(topic)) by {
                    assert(before.follows(topic) == (start.follows(topic) && !taken.contains(topic)));
                    assert(next[index as int] == topics@[index as int]@);
                    if topic != topics@[index as int]@ {
                        assert(names(before.subscribed_topics@).contains(topic) == without(
                            names(before.subscribed_topics@),
                            topics@[index as int]@,
                        ).contains(topic));
                    }
                    if next.contains(topic) && !taken.contains(topic) {
                        let k = choose|k: int| 0 <= k < next.len() && next[k] == topic;
                        if k < taken.len() {
                            assert(taken[k] == topic);
                        }
                    }
                    if taken.contains(topic) {
                        let k = choose|k: int| 0 <= k < taken.len() && taken[k] == topic;
                        assert(next[k] == topic);
                    }
                }
            }
            index = index + 1;
        }
        proof {
            assert(names(topics@).take(topics@.len() as int) =~= names(topics@));
        }
        let ghost looped = *self;
        let widget_id = self.widget_id.clone();
        self.messages.push(BusMessage::Broker { message: BrokerServiceMessage::Unsubscribe { topics: asked, widget_id } });
        proof {
            assert(self.messages@.drop_last() =~= start.messages@);
            assert(queued(start.messages@, self.messages@));
            assert(unsubscribe_request(self.messages@.last(), names(topics@), start.widget_id@));
            assert forall|topic: Seq<char>| #[trigger]
                self.follows(topic) == (start.follows(topic) && !names(topics@).contains(topic)) by {
                assert(names(topics@).take(topics@.len() as int) == names(topics@));
                assert(looped.follows(topic) == (start.follows(topic) && !names(topics@).take(
                    topics@.len() as int,
                ).contains(topic)));
            }
        }
    }

    /// Takes in the window's state: when the window has just connected, the
    /// topics followed (if any) are asked of the broker connection again.
    /// Returns whether it is connected.
    pub fn update(&mut self, context: &WidgetContext) -> (connected: bool)
        requires
            old(self).wf(),
        ensures
            final(self).wf(),
            connected == context.is_connected,
            final(self).connected == context.is_connected,
            final(self).subscribed_topics@ == old(self).subscribed_topics@,
            final(self).received_messages == old(self).received_messages,
            final(self).received_binary_messages == old(self).received_binary_messages,
            final(self).file_results == old(self).file_results,
            final(self).current_modal_result == old(self).current_modal_result,
            final(self).last_modal_id == old(self).last_modal_id,
            final(self).modal_counter == old(self).modal_counter,
            final(self).widget_id == old(self).widget_id,
            if !old(self).connected && context.is_connected && old(self).subscribed_topics@.len() > 0 {
                &&& queued(old(self).messages@, final(self).messages@)
                &&& subscribe_request(
                    final(self).messages@.last(),
                    names(old(self).subscribed_topics@),
                    old(self).widget_id@,
                )
            } else {
                final(self).messages@ == old(self).messages@
            },
    {
        let was_connected = self.connected;
        self.connected = context.is_connected;
        if !was_connected && self.connected {
            self.register_default_subscriptions();
        }
        self.connected
    }

    fn register_default_subscriptions(&mut self)
        ensures
            final(self).connected == old(self).connected,
            final(self).subscribed_topics == old(self).subscribed_topics,
            final(self).received_messages == old(self).received_messages,
            final(self).received_binary_messages == old(self).received_binary_messages,
            final(self).file_results == old(self).file_results,
            final(self).current_modal_result == old(self).current_modal_result,
            final(self).last_modal_id == old(self).last_modal_id,
            final(self).modal_counter == old(self).modal_counter,
            final(self).widget_id == old(self).widget_id,
            if old(self).subscribed_topics@.len() > 0 {
                &&& queued(old(self).messages@, final(self).messages@)
                &&& subscribe_request(
                    final(self).messages@.last(),
                    names(old(self).subscribed_topics@),
                    old(self).widget_id@,
                )
            } else {
                final(self).messages@ == old(self).messages@
            },
    {
        let topics = copy_names(&self.subscribed_topics);
        assert(names(topics@).len() == topics@.len() && names(self.subscribed_topics@).len()
            == self.subscribed_topics@.len());
        if topics.len() > 0 {
            let widget_id = self.widget_id.clone();
            self.messages.push(BusMessage::Broker { message: BrokerServiceMessage::Subscribe { topics, widget_id } });
            proof {
                assert(self.messages@.drop_last() =~= old(self).messages@);
            }
        }
    }
}

/// The id of the dialog a widget `widget` opens as its `count`th.
pub open spec fn modal_id(widget: Seq<char>, count: nat) -> Seq<char> {
    "modal_"@ + widget + "_"@ + decimal(count)
}

/// What taking the answer does: an answer given is handed out once, and the
/// dialog counts as closed; with no answer nothing changes.
pub open spec fn takes_answer(before: WidgetRpc, taken: Option<ModalResult>, after: WidgetRpc) -> bool {
    &&& after.subscribed_topics@ == before.subscribed_topics@
    &&& after.messages@ == before.messages@
    &&& after.modal_counter == before.modal_counter
    &&& after.widget_id@ == before.widget_id@
    &&& after.received_messages == before.received_messages
    &&& after.received_binary_messages == before.received_binary_messages
    &&& after.file_results == before.file_results
    &&& after.connected == before.connected
    &&& match before.current_modal_result {
        Some(confirmed) => {
            &&& taken == Some(
                if confirmed {
                    ModalResult::Confirmed
                } else {
                    ModalResult::Cancelled
                },
            )
            &&& after.current_modal_result is None
            &&& after.last_modal_id is None
        },
        None => {
            &&& taken is None
            &&& after.current_modal_result is None
            &&& after.last_modal_id == before.last_modal_id
        },
    }
}

/// What taking the next file result under `tag` (the widget's own tag) does:
/// the first result kept under it is handed out and the rest stay; with none
/// nothing changes.
pub open spec fn takes_result(before: WidgetRpc, tag: Seq<char>, taken: Option<SuccessModel>, after: WidgetRpc) -> bool {
    let key = before.scoped(tag);
    &&& after.same_state(&before)
    &&& after.received_messages == before.received_messages
    &&& after.received_binary_messages == before.received_binary_messages
    &&& after.current_modal_result == before.current_modal_result
    &&& after.connected == before.connected
    &&& forall|other: Seq<char>| other != key ==> #[trigger] after.results(other) == before.results(other)
    &&& if before.results(key) is Some && before.results(key)->0.len() > 0 {
        &&& taken == Some(before.results(key)->0[0])
        &&& after.results(key) == Some(before.results(key)->0.drop_first())
    } else {
        &&& taken is None
        &&& after.results(key) == before.results(key)
    }
}

pub open spec fn str_views(list: Seq<&str>) -> Seq<Seq<char>> {
    list.map_values(|text: &str| text@)
}

/// Whether `list` is ordered by `precedes`.
pub open spec fn names_sorted(list: Seq<Seq<char>>) -> bool {
    forall|i: int, j: int| 0 <= i < j < list.len() ==> precedes(#[trigger] list[i], #[trigger] list[j])
}

/// `list` ordered by name.
pub fn sort_names(list: Vec<String>) -> (sorted: Vec<String>)
    ensures
        names_sorted(names(sorted@)),
        sorted@.to_multiset() == list@.to_multiset(),
{
    broadcast use vstd::seq_lib::group_to_multiset_ensures;

    let ghost all = list@;
    let mut rest = list;
    let mut sorted: Vec<String> = Vec::new();
    while rest.len() > 0
        invariant
            names_sorted(names(sorted@)),
            sorted@.to_multiset().add(rest@.to_multiset()) == all.to_multiset(),
        decreases rest@.len(),
    {
        let ghost rest_before = rest@;
        let entry = match rest.pop() {
            Some(entry) => entry,
            None => {
                return sorted;
            },
        };
        proof {
            assert(rest_before =~= rest@.push(entry));
            vstd::seq_lib::to_multiset_build(rest@, entry);
            assert(rest_before.to_multiset() =~= rest@.to_multiset().insert(entry));
        }
        let mut position: usize = 0;
        while position < sorted.len() && name_precedes(sorted[position].as_str(), entry.as_str())
            invariant
                position <= sorted@.len(),
                forall|k: int| 0 <= k < position ==> precedes(#[trigger] sorted@[k]@, entry@),
            decreases sorted@.len() - position,
        {
            position = position + 1;
        }
        let ghost sorted_before = sorted@;
        proof {
            if position < sorted@.len() {
                lemma_precedes_total(sorted@[position as int]@, entry@);
            }
        }
        sorted.insert(position, entry);
        proof {
            assert forall|i: int, j: int| 0 <= i < j < names(sorted@).len() implies precedes(
                #[trigger] names(sorted@)[i],
                #[trigger] names(sorted@)[j],
            ) by {
                let before_names = names(sorted_before);
                if j < position {
                    assert(sorted@[i] == sorted_before[i] && sorted@[j] == sorted_before[j]);
                    assert(precedes(before_names[i], before_names[j]));
                } else if j == position {
                    assert(sorted@[i] == sorted_before[i]);
                } else if i == position {
                    assert(sorted@[j] == sorted_before[j - 1]);
                    if j - 1 > position {
                        assert(precedes(before_names[position as int], before_names[j - 1]));
                        lemma_precedes_transitive(entry@, sorted_before[position as int]@, sorted_before[j - 1]@);
                    }
                } else if i < position {
                    assert(sorted@[i] == sorted_before[i] && sorted@[j] == sorted_before[j - 1]);
                    assert(precedes(before_names[i], before_names[j - 1]));
                } else {
                    assert(sorted@[i] == sorted_before[i - 1] && sorted@[j] == sorted_before[j - 1]);
                    assert(precedes(before_names[i - 1], before_names[j - 1]));
                }
            }
            assert(sorted@ == sorted_before.insert(position as int, entry));
            vstd::seq_lib::to_multiset_insert(sorted_before, position as int, entry);
            broadcast use vstd::multiset::group_multiset_axioms;

            assert(sorted@.to_multiset().add(rest@.to_multiset()) =~= sorted_before.to_multiset().add(
                rest_before.to_multiset(),
            ));
        }
    }
    proof {
        assert(rest@ =~= Seq::<String>::empty());
        assert(sorted@.to_multiset().add(rest@.to_multiset()) =~= sorted@.to_multiset());
    }
    sorted
}

impl WidgetRpc {
    /// The topics followed, ordered by name.
    pub fn subscribed_topics(&self) -> (topics: Vec<String>)
        ensures
            names_sorted(names(topics@)),
            topics@.to_multiset() == self.subscribed_topics@.to_multiset(),
    {
        let mut copy: Vec<String> = Vec::new();
        let mut index: usize = 0;
        while index < self.subscribed_topics.len()
            invariant
                index <= self.subscribed_topics@.len(),
                copy@ == self.subscribed_topics@.take(index as int),
            decreases self.subscribed_topics@.len() - index,
        {
            copy.push(self.subscribed_topics[index].clone());
            assert(copy@ =~= self.subscribed_topics@.take(index + 1));
            index = index + 1;
        }
        assert(copy@ =~= self.subscribed_topics@);
        sort_names(copy)
    }

    /// The text payloads kept for `topic`, if any arrived.
    pub fn get_messages_for_topic(&self, topic: &str) -> (found: Option<&Vec<String>>)
        requires
            self.wf(),
        ensures
            match found {
                Some(list) => self.texts(topic@) == Some(names(list@)),
                None => self.texts(topic@) is None,
            },
    {
        match self.received_messages.find(&String::from_str(topic)) {
            Some(index) => Some(&self.received_messages.entries[index].1),
            None => None,
        }
    }

    /// The binary payloads kept for `topic`, if any arrived.
    pub fn get_binary_messages_for_topic(&self, topic: &str) -> (found: Option<&Vec<Vec<u8>>>)
        requires
            self.wf(),
        ensures
            match found {
                Some(list) => self.blobs(topic@) == Some(byte_views(list@)),
                None => self.blobs(topic@) is None,
            },
    {
        match self.received_binary_messages.find(&String::from_str(topic)) {
            Some(index) => Some(&self.received_binary_messages.entries[index].1),
            None => None,
        }
    }

    /// Forgets the text payloads kept for `topics`.
    pub fn clear_topic_messages(&mut self, topics: &[&str])
        requires
            old(self).wf(),
        ensures
            final(self).wf(),
            final(self).same_state(old(self)),
            final(self).received_binary_messages == old(self).received_binary_messages,
            final(self).file_results == old(self).file_results,
            final(self).current_modal_result == old(self).current_modal_result,
            final(self).connected == old(self).connected,
            forall|topic: Seq<char>| #[trigger]
                final(self).texts(topic) == if str_views(topics@).contains(topic) {
                    None
                } else {
                    old(self).texts(topic)
                },
    {
        let mut index: usize = 0;
        while index < topics.len()
            invariant
                self.wf(),
                index <= topics@.len(),
                self.same_state(old(self)),
                self.received_binary_messages == old(self).received_binary_messages,
                self.file_results == old(self).file_results,
                self.current_modal_result == old(self).current_modal_result,
                self.connected == old(self).connected,
                forall|topic: Seq<char>| #[trigger]
                    self.texts(topic) == if str_views(topics@).take(index as int).contains(topic) {
                        None
                    } else {
                        old(self).texts(topic)
                    },
            decreases topics@.len() - index,
        {
            let ghost before = *self;
            let key = String::from_str(topics[index]);
            self.received_messages.remove(&key);
            proof {
                let taken = str_views(topics@).take(index as int);
                let next = str_views(topics@).take(index + 1);
                assert(next =~= taken.push(topics@[index as int]@));
                assert forall|topic: Seq<char>| #[trigger]
                    self.texts(topic) == if next.contains(topic) {
                        None
                    } else {
                        old(self).texts(topic)
                    } by {
                    assert(before.texts(topic) == if taken.contains(topic) {
                        None
                    } else {
                        old(self).texts(topic)
                    });
                    assert(next[index as int] == topics@[index as int]@);
                    if taken.contains(topic) {
                        let k = choose|k: int| 0 <= k < taken.len() && taken[k] == topic;
                        assert(next[k] == topic);
                    }
                    if next.contains(topic) && topic != topics@[index as int]@ {
                        let k = choose|k: int| 0 <= k < next.len() && next[k] == topic;
                        assert(taken[k] == topic);
                    }
                }
            }
            index = index + 1;
        }
        proof {
            assert(str_views(topics@).take(topics@.len() as int) =~= str_views(topics@));
        }
    }

    /// Forgets the binary payloads kept for `topics`.
    pub fn clear_binary_topic_messages(&mut self, topics: &[&str])
        requires
            old(self).wf(),
        ensures
            final(self).wf(),
            final(self).same_state(old(self)),
            final(self).received_messages == old(self).received_messages,
            final(self).file_results == old(self).file_results,
            final(self).current_modal_result == old(self).current_modal_result,
            final(self).connected == old(self).connected,
            forall|topic: Seq<char>| #[trigger]
                final(self).blobs(topic) == if str_views(topics@).contains(topic) {
                    None
                } else {
                    old(self).blobs(topic)
                },
    {
        let mut index: usize = 0;
        while index < topics.len()
            invariant
                self.wf(),
                index <= topics@.len(),
                self.same_state(old(self)),
                self.received_messages == old(self).received_messages,
                self.file_results == old(self).file_results,
                self.current_modal_result == old(self).current_modal_result,
                self.connected == old(self).connected,
                forall|topic: Seq<char>| #[trigger]
                    self.blobs(topic) == if str_views(topics@).take(index as int).contains(topic) {
                        None
                    } else {
                        old(self).blobs(topic)
                    },
            decreases topics@.len() - index,
        {
            let ghost before = *self;
            let key = String::from_str(topics[index]);
            self.received_binary_messages.remove(&key);
            proof {
                let taken = str_views(topics@).take(index as int);
                let next = str_views(topics@).take(index + 1);
                assert(next =~= taken.push(topics@[index as int]@));
                assert forall|topic: Seq<char>| #[trigger]
                    self.blobs(topic) == if next.contains(topic) {
                        None
                    } else {
                        old(self).blobs(topic)
                    } by {
                    assert(before.blobs(topic) == if taken.contains(topic) {
                        None
                    } else {
                        old(self).blobs(topic)
                    });
                    assert(next[index as int] == topics@[index as int]@);
                    if taken.contains(topic) {
                        let k = choose|k: int| 0 <= k < taken.len() && taken[k] == topic;
                        assert(next[k] == topic);
                    }
                    if next.contains(topic) && topic != topics@[index as int]@ {
                        let k = choose|k: int| 0 <= k < next.len() && next[k] == topic;
                        assert(taken[k] == topic);
                    }
                }
            }
            index = index + 1;
        }
        proof {
            assert(str_views(topics@).take(topics@.len() as int) =~= str_views(topics@));
        }
    }
}

impl WidgetRpc {
    /// Everything but the queued requests is unchanged.
    pub open spec fn same_but_queue(&self, other: &WidgetRpc) -> bool {
        &&& self.subscribed_topics@ == other.subscribed_topics@
        &&& self.last_modal_id == other.last_modal_id
        &&& self.modal_counter == other.modal_counter
        &&& self.widget_id@ == other.widget_id@
        &&& self.same_inbox(other)
    }

    /// Queues `payload_json` for publication on `topic`.
    pub fn publish_json(&mut self, topic: &str, payload_json: &str)
        ensures
            final(self).same_but_queue(old(self)),
            queued(old(self).messages@, final(self).messages@),
            final(self).messages@.last() matches BusMessage::Broker {
                message: BrokerServiceMessage::Publish { topic: on, message },
            } && on@ == topic@ && message@ == payload_json@,
    {
        self.messages.push(
            BusMessage::Broker {
                message: BrokerServiceMessage::Publish {
                    topic: String::from_str(topic),
                    message: String::from_str(payload_json),
                },
            },
        );
        assert(self.messages@.drop_last() =~= old(self).messages@);
    }

    /// Queues `bytes` for publication on `topic`.
    pub fn publish_bytes(&mut self, topic: &str, bytes: &[u8])
        ensures
            final(self).same_but_queue(old(self)),
            queued(old(self).messages@, final(self).messages@),
            final(self).messages@.last() matches BusMessage::Broker {
                message: BrokerServiceMessage::PublishBytes { topic: on, bytes: sent },
            } && on@ == topic@ && sent@ == bytes@,
    {
        self.messages.push(
            BusMessage::Broker {
                message: BrokerServiceMessage::PublishBytes {
                    topic: String::from_str(topic),
                    bytes: vstd::slice::slice_to_vec(bytes),
                },
            },
        );
        assert(self.messages@.drop_last() =~= old(self).messages@);
    }

    /// Queues a notification showing `text` for `seconds`.
    pub fn notify(&mut self, text: &str, kind: NotificationKind, seconds: u32)
        ensures
            final(self).same_but_queue(old(self)),
            queued(old(self).messages@, final(self).messages@),
            final(self).messages@.last() matches BusMessage::Notify { message: notice } && notice.text@ == text@
                && notice.kind == kind && notice.seconds == seconds,
    {
        self.messages.push(
            BusMessage::Notify { message: Notice { text: String::from_str(text), kind, seconds } },
        );
        assert(self.messages@.drop_last() =~= old(self).messages@);
    }

    /// The tag under which this widget asks for a file with `tag`.
    pub fn scoped_tag(&self, tag: &str) -> (scoped: String)
        ensures
            scoped@ == self.scoped(tag@),
    {
        let mut scoped = self.widget_id.clone();
        scoped.append("::");
        scoped.append(tag);
        scoped
    }

    /// Asks the file service to pick a file to open, under this widget's
    /// `tag`.
    pub fn pick_file(&mut self, tag: &str, filter_name: &str, extensions: Vec<String>)
        ensures
            final(self).same_but_queue(old(self)),
            queued(old(self).messages@, final(self).messages@),
            final(self).messages@.last() matches BusMessage::Filesystem {
                message: FileSystemMessage::Command(FileSystemCommand::PickFile { tag: asked, filter_name: filter, extensions: kinds }),
            } && asked@ == old(self).scoped(tag@) && filter@ == filter_name@ && kinds == extensions,
    {
        let tag = self.scoped_tag(tag);
        self.messages.push(
            BusMessage::Filesystem {
                message: FileSystemMessage::Command(
                    FileSystemCommand::PickFile { tag, filter_name: String::from_str(filter_name), extensions },
                ),
            },
        );
        assert(self.messages@.drop_last() =~= old(self).messages@);
    }

    /// Asks the file service to pick a folder, under this widget's `tag`.
    pub fn pick_directory(&mut self, tag: &str)
        ensures
            final(self).same_but_queue(old(self)),
            queued(old(self).messages@, final(self).messages@),
            final(self).messages@.last() matches BusMessage::Filesystem {
                message: FileSystemMessage::Command(FileSystemCommand::PickFolder { tag: asked }),
            } && asked@ == old(self).scoped(tag@),
    {
        let tag = self.scoped_tag(tag);
        self.messages.push(
            BusMessage::Filesystem { message: FileSystemMessage::Command(FileSystemCommand::PickFolder { tag }) },
        );
        assert(self.messages@.drop_last() =~= old(self).messages@);
    }

    /// Asks the file service to save `bytes` to a file the user picks, under
    /// this widget's `tag`.
    pub fn save_file(&mut self, tag: &str, bytes: Vec<u8>, filter_name: &str, extensions: Vec<String>)
        ensures
            final(self).same_but_queue(old(self)),
            queued(old(self).messages@, final(self).messages@),
            final(self).messages@.last() matches BusMessage::Filesystem {
                message: FileSystemMessage::Command(
                    FileSystemCommand::SaveFile { tag: asked, bytes: saved, filter_name: filter, extensions: kinds },
                ),
            } && asked@ == old(self).scoped(tag@) && saved == bytes && filter@ == filter_name@ && kinds == extensions,
    {
        let tag = self.scoped_tag(tag);
        self.messages.push(
            BusMessage::Filesystem {
                message: FileSystemMessage::Command(
                    FileSystemCommand::SaveFile { tag, bytes, filter_name: String::from_str(filter_name), extensions },
                ),
            },
        );
        assert(self.messages@.drop_last() =~= old(self).messages@);
    }

    /// Takes the next file result under this widget's `tag` (see
    /// `takes_result`).
    pub fn next_file_result(&mut self, tag: &str) -> (taken: Option<FileSystemSuccess>)
        requires
            old(self).wf(),
        ensures
            final(self).wf(),
            takes_result(
                *old(self),
                tag@,
                match taken {
                    Some(success) => Some(success_model(success)),
                    None => None,
                },
                *final(self),
            ),
    {
        let key = self.scoped_tag(tag);
        match self.file_results.find(&key) {
            Some(index) => {
                if self.file_results.entries[index].1.len() > 0 {
                    let ghost before = *self;
                    let mut list = self.file_results.remove_at(index);
                    let ghost whole = list@;
                    let first = list.remove(0);
                    proof {
                        assert(list@ =~= whole.drop_first());
                        assert(success_models(list@) =~= success_models(whole).drop_first());
                    }
                    self.file_results.insert(key, list);
                    proof {
                        assert forall|other: Seq<char>| other != before.scoped(tag@) implies #[trigger] self.results(
                            other,
                        ) == before.results(other) by {
                            assert(items(&self.file_results, other) == items(&before.file_results, other));
                        }
                    }
                    Some(first)
                } else {
                    None
                }
            },
            None => None,
        }
    }

    /// Opens a confirmation dialog, the widget's next one, and forgets any
    /// earlier answer.
    pub fn show_modal(&mut self, title: &str, body: &str, confirm_text: Option<String>, cancel_text: Option<String>)
        requires
            old(self).modal_counter < u32::MAX,
        ensures
            final(self).modal_counter == old(self).modal_counter + 1,
            final(self).last_modal_id matches Some(id) && id@ == modal_id(
                old(self).widget_id@,
                final(self).modal_counter as nat,
            ),
            final(self).current_modal_result is None,
            final(self).subscribed_topics@ == old(self).subscribed_topics@,
            final(self).widget_id@ == old(self).widget_id@,
            final(self).received_messages == old(self).received_messages,
            final(self).received_binary_messages == old(self).received_binary_messages,
            final(self).file_results == old(self).file_results,
            final(self).connected == old(self).connected,
            queued(old(self).messages@, final(self).messages@),
            final(self).messages@.last() matches BusMessage::Modal {
                message: ModalServiceMessage::ShowConfirm { id, title: shown_title, body: shown_body, confirm_text: confirm, cancel_text: cancel },
            } && id@ == modal_id(old(self).widget_id@, final(self).modal_counter as nat) && shown_title@ == title@
                && shown_body@ == body@ && confirm == confirm_text && cancel == cancel_text,
    {
        self.modal_counter = self.modal_counter + 1;
        let mut modal_id = String::from_str("modal_");
        modal_id.append(self.widget_id.as_str());
        modal_id.append("_");
        let count = decimal_text(self.modal_counter);
        modal_id.append(count.as_str());
        let shown_id = modal_id.clone();
        self.last_modal_id = Some(modal_id);
        self.current_modal_result = None;
        self.messages.push(
            BusMessage::Modal {
                message: ModalServiceMessage::ShowConfirm {
                    id: shown_id,
                    title: String::from_str(title),
                    body: String::from_str(body),
                    confirm_text,
                    cancel_text,
                },
            },
        );
        assert(self.messages@.drop_last() =~= old(self).messages@);
    }

    /// Takes the answer of the dialog opened last (see `takes_answer`).
    pub fn take_modal_result(&mut self) -> (taken: Option<ModalResult>)
        ensures
            takes_answer(*old(self), taken, *final(self)),
    {
        match self.current_modal_result {
            Some(confirmed) => {
                self.current_modal_result = None;
                self.last_modal_id = None;
                Some(ModalResult::from(confirmed))
            },
            None => None,
        }
    }
}

impl Default for WidgetRpc {
    /// A widget with a fresh random id, following nothing, with nothing
    /// kept or queued, not connected.
    fn default() -> (rpc: Self)
        ensures
            rpc.wf(),
            rpc.subscribed_topics@.len() == 0,
            forall|topic: Seq<char>| #[trigger] rpc.texts(topic) is None,
            forall|topic: Seq<char>| #[trigger] rpc.blobs(topic) is None,
            forall|tag: Seq<char>| #[trigger] rpc.results(tag) is None,
            rpc.current_modal_result is None,
            rpc.last_modal_id is None,
            rpc.modal_counter == 0,
            crate::client::uuid_shaped(rpc.widget_id@),
            rpc.messages@.len() == 0,
            !rpc.connected,
    {
        let rpc = WidgetRpc {
            subscribed_topics: Vec::new(),
            received_messages: KeyedList::new(),
            received_binary_messages: KeyedList::new(),
            file_results: KeyedList::new(),
            current_modal_result: None,
            last_modal_id: None,
            modal_counter: 0,
            widget_id: crate::client::random_uuid(),
            messages: Vec::new(),
            connected: false,
        };
        assert(names(rpc.subscribed_topics@) =~= Seq::<Seq<char>>::empty());
        rpc
    }
}

/// A widget that subscribed to a topic keeps each payload that then arrives
/// on it, after those it already had.
pub proof fn lemma_subscribed_topics_keep_payloads(
    first: WidgetRpc,
    topic: Seq<char>,
    subscribed: WidgetRpc,
    message: BusMessage,
    after: WidgetRpc,
)
    requires
        subscribes(first, topic, subscribed),
        receives(subscribed, message, after),
        text_on(message, topic) is Some,
    ensures
        after.texts(topic) == Some(pushed(subscribed.texts(topic), text_on(message, topic)->0)),
{
    if !first.follows(topic) {
        let followed = names(subscribed.subscribed_topics@);
        assert(followed[followed.len() - 1] == topic);
    }
    assert(subscribed.follows(topic));
}

/// Once a widget unsubscribed from a topic, nothing that arrives on it is
/// kept.
pub proof fn lemma_unsubscribed_topics_drop_payloads(
    first: WidgetRpc,
    topics: Seq<Seq<char>>,
    unsubscribed: WidgetRpc,
    message: BusMessage,
    after: WidgetRpc,
    topic: Seq<char>,
)
    requires
        unsubscribes(first, topics, unsubscribed),
        topics.contains(topic),
        receives(unsubscribed, message, after),
    ensures
        after.texts(topic) == unsubscribed.texts(topic),
        after.blobs(topic) == unsubscribed.blobs(topic),
{
    assert(!unsubscribed.follows(topic));
}

/// A dialog's answer is handed out once: taken, the next take gives nothing,
/// and no answer that arrives later is kept until another dialog is opened.
pub proof fn lemma_answers_are_taken_once(
    first: WidgetRpc,
    answer: ModalResult,
    taken: WidgetRpc,
    again: Option<ModalResult>,
    retaken: WidgetRpc,
    message: BusMessage,
    after: WidgetRpc,
)
    requires
        takes_answer(first, Some(answer), taken),
        takes_answer(taken, again, retaken),
        receives(taken, message, after),
    ensures
        again is None,
        after.current_modal_result is None,
{
}

/// A file result that arrives under a widget's own tag, when none is kept
/// under it, is the one the widget takes next under that tag.
pub proof fn lemma_own_results_are_taken(
    first: WidgetRpc,
    message: BusMessage,
    tag: Seq<char>,
    arrived: WidgetRpc,
    taken: Option<SuccessModel>,
    after: WidgetRpc,
)
    requires
        receives(first, message, arrived),
        result_under(message, first.scoped(tag)) is Some,
        first.results(first.scoped(tag)) is None,
        takes_result(arrived, tag, taken, after),
    ensures
        taken == result_under(message, first.scoped(tag)),
        after.results(first.scoped(tag)) == Some(Seq::<SuccessModel>::empty()),
{
    let key = first.scoped(tag);
    assert(key.subrange(0, first.tag_prefix().len() as int) =~= first.tag_prefix());
    assert(arrived.scoped(tag) == key);
    assert(seq![result_under(message, key)->0].drop_first() =~= Seq::<SuccessModel>::empty());
}

} // verus!
