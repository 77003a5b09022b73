//! The template widget of the demo windows: it follows a text and a binary
//! topic, shows the latest of what arrived on them, and exercises the
//! window's services (publications, notifications, files, dialogs) from its
//! controls.
use crate::modals::ModalResult;
use crate::project::NotificationKind;
use crate::topics::names;
use crate::web_shell::{most_recent, MAX_RECEIVED_MESSAGES};
use crate::topics::copy_names;
use crate::widget_rpc::{
    byte_views, str_views, lemma_newly_followed, modal_id, newly_followed, queued, receives, subscribe_request, success_model,
    unsubscribes, BusMessage, SuccessModel, WidgetRpc,
};
use crate::window::WidgetContext;
use vstd::prelude::*;

verus! {

pub open spec fn text_topic_spec() -> Seq<char> {
    "template/text"@
}

pub open spec fn binary_topic_spec() -> Seq<char> {
    "template/binary"@
}

pub open spec fn pick_file_tag_spec() -> Seq<char> {
    "template-file"@
}

pub open spec fn pick_folder_tag_spec() -> Seq<char> {
    "template-folder"@
}

pub open spec fn save_file_tag_spec() -> Seq<char> {
    "template-save"@
}

/// The topic the widget's text payloads go by.
pub fn text_topic() -> (topic: &'static str)
    ensures
        topic@ == text_topic_spec(),
{
    "template/text"
}

/// The topic the widget's binary payloads go by.
pub fn binary_topic() -> (topic: &'static str)
    ensures
        topic@ == binary_topic_spec(),
{
    "template/binary"
}

/// How serde_json writes `c` inside a JSON string: a quote and a backslash
/// behind a backslash; backspace, tab, line feed, form feed and carriage
/// return as `\b`, `\t`, `\n`, `\f`, `\r`; any other character below
/// U+0020 as `\u00` and two lower-case hex digits; every other character as
/// it is.
pub open spec fn json_escape(c: char) -> Seq<char> {
    let code = c as u32;
    if code == 0x22 {
        seq!['\\', '"']
    } else if code == 0x5c {
        seq!['\\', '\\']
    } else if code == 0x08 {
        seq!['\\', 'b']
    } else if code == 0x09 {
        seq!['\\', 't']
    } else if code == 0x0a {
        seq!['\\', 'n']
    } else if code == 0x0c {
        seq!['\\', 'f']
    } else if code == 0x0d {
        seq!['\\', 'r']
    } else if code < 0x20 {
        seq!['\\', 'u', '0', '0'] + crate::web_shell::hex_digits(code as nat, 2)
    } else {
        seq![c]
    }
}

/// `text` with each character written as serde_json writes it in a string.
pub open spec fn json_escaped(text: Seq<char>) -> Seq<char>
    decreases text.len(),
{
    if text.len() == 0 {
        Seq::empty()
    } else {
        json_escaped(text.drop_last()) + json_escape(text.last())
    }
}

/// What `serde_json::to_string` writes for a string: the escaped text in
/// quotes.
pub open spec fn json_string_literal(text: Seq<char>) -> Seq<char> {
    seq!['"'] + json_escaped(text) + seq!['"']
}

/// `serde_json::to_string` on a `str`: the text in quotes, escaped by
/// serde_json's table (see `json_escape`). Writing a string into
/// serde_json's in-memory buffer does not fail; the `Err` arm, which
/// serde_json never takes here, would give the empty string.
#[verifier::external_body]
fn json_quote(text: &str) -> (quoted: String)
    ensures
        quoted@ == json_string_literal(text@),
{
    match serde_json::to_string(text) {
        Ok(quoted) => quoted,
        Err(_) => String::new(),
    }
}

/// The payload of a typed publication of `text`: the note `{"text": ...}` as
/// serde_json writes a one-field struct, with no spaces.
pub open spec fn note_payload(text: Seq<char>) -> Seq<char> {
    "{\"text\":"@ + json_string_literal(text) + "}"@
}

/// The payload of a raw publication of `text`, written in as it is.
pub open spec fn raw_payload(text: Seq<char>) -> Seq<char> {
    "{\"raw\":\""@ + text + "\"}"@
}

/// The JSON payload of a typed publication of `text`.
pub fn template_note(text: &str) -> (payload: String)
    ensures
        payload@ == note_payload(text@),
{
    let mut payload = String::from_str("{\"text\":");
    let quoted = json_quote(text);
    payload.append(quoted.as_str());
    payload.append("}");
    payload
}

/// What the widget's controls ask for.
pub enum TemplateControl {
    ToggleSubscription,
    PublishTyped,
    PublishRaw,
    PublishBinary,
    ClearReceived,
    NotifyInfo,
    NotifySuccess,
    NotifyWarning,
    NotifyError,
    PickFile,
    PickFolder,
    SaveFile,
    ShowModal,
    EditMessage(String),
}

/// The template widget.
pub struct TemplateWidget {
    pub rpc: WidgetRpc,
    /// Whether it follows its topics.
    pub subscribed: bool,
    /// Set when the user let the topics go: it does not follow them again on
    /// its own.
    pub auto_subscribe_pending: bool,
    /// The text typed to publish or save.
    pub outgoing_text: String,
    /// The latest text payloads.
    pub received_text: Vec<String>,
    pub received_binary_count: usize,
    pub last_binary_length: usize,
    /// The path and size of the file picked last.
    pub picked_file: Option<(String, usize)>,
    pub picked_folder: Option<String>,
    pub saved_file: Option<String>,
    pub last_modal_result: Option<ModalResult>,
}

/// The path and size of the last opened file in `results`, or the path of
/// the last folder (size 0) when `folders`.
pub open spec fn last_pick(results: Seq<SuccessModel>, folders: bool) -> Option<(Seq<char>, nat)>
    decreases results.len(),
{
    if results.len() == 0 {
        None
    } else {
        match results.last() {
            SuccessModel::File { path, bytes, .. } if !folders => Some((path, bytes.len())),
            SuccessModel::Folder { path, .. } if folders => Some((path, 0)),
            _ => last_pick(results.drop_last(), folders),
        }
    }
}

/// The results kept under `tag`, none when there are none.
pub open spec fn kept_results(rpc: WidgetRpc, tag: Seq<char>) -> Seq<SuccessModel> {
    match rpc.results(rpc.scoped(tag)) {
        Some(list) => list,
        None => Seq::empty(),
    }
}

/// Takes every result under the widget's `tag`; returns the last that is a
/// file (`folders` false) or a folder (`folders` true).
fn take_last_pick(rpc: &mut WidgetRpc, tag: &str, folders: bool) -> (pick: Option<(String, usize)>)
    requires
        old(rpc).wf(),
    ensures
        final(rpc).wf(),
        match pick {
            Some((path, size)) => last_pick(kept_results(*old(rpc), tag@), folders) == Some((path@, size as nat)),
            None => last_pick(kept_results(*old(rpc), tag@), folders) is None,
        },
        kept_results(*final(rpc), tag@).len() == 0,
        final(rpc).same_state(old(rpc)),
        final(rpc).received_messages == old(rpc).received_messages,
        final(rpc).received_binary_messages == old(rpc).received_binary_messages,
        final(rpc).current_modal_result == old(rpc).current_modal_result,
        final(rpc).connected == old(rpc).connected,
        forall|other: Seq<char>| other != old(rpc).scoped(tag@) ==> #[trigger] final(rpc).results(other) == old(
            rpc,
        ).results(other),
{
    let ghost all = kept_results(*rpc, tag@);
    let ghost key = rpc.scoped(tag@);
    let mut pick: Option<(String, usize)> = None;
    let ghost mut taken: Seq<SuccessModel> = Seq::empty();
    loop
        invariant
            rpc.wf(),
            rpc.scoped(tag@) == key,
            all == taken + kept_results(*rpc, tag@),
            match pick {
                Some((path, size)) => last_pick(taken, folders) == Some((path@, size as nat)),
                None => last_pick(taken, folders) is None,
            },
            rpc.same_state(old(rpc)),
            rpc.received_messages == old(rpc).received_messages,
            rpc.received_binary_messages == old(rpc).received_binary_messages,
            rpc.current_modal_result == old(rpc).current_modal_result,
            rpc.connected == old(rpc).connected,
            forall|other: Seq<char>| other != key ==> #[trigger] rpc.results(other) == old(rpc).results(other),
        ensures
            all == taken,
            kept_results(*rpc, tag@).len() == 0,
            match pick {
                Some((path, size)) => last_pick(taken, folders) == Some((path@, size as nat)),
                None => last_pick(taken, folders) is None,
            },
            rpc.wf(),
            rpc.same_state(old(rpc)),
            rpc.received_messages == old(rpc).received_messages,
            rpc.received_binary_messages == old(rpc).received_binary_messages,
            rpc.current_modal_result == old(rpc).current_modal_result,
            rpc.connected == old(rpc).connected,
            forall|other: Seq<char>| other != key ==> #[trigger] rpc.results(other) == old(rpc).results(other),
        decreases kept_results(*rpc, tag@).len(),
    {
        let ghost before = *rpc;
        let next = rpc.next_file_result(tag);
        match next {
            Some(found) => {
                let ghost model = success_model(found);
                proof {
                    assert(kept_results(before, tag@).len() > 0);
                    assert(model == kept_results(before, tag@)[0]);
                    assert(kept_results(*rpc, tag@) == kept_results(before, tag@).drop_first());
                    assert(taken.push(model) + kept_results(*rpc, tag@) =~= taken + kept_results(before, tag@));
                    assert(taken.push(model).drop_last() =~= taken);
                }
                match found {
                    crate::files::FileSystemSuccess::File { path, bytes, .. } => {
                        if !folders {
                            pick = Some((path, bytes.len()));
                        }
                    },
                    crate::files::FileSystemSuccess::Folder { path, .. } => {
                        if folders {
                            pick = Some((path, 0));
                        }
                    },
                    crate::files::FileSystemSuccess::Empty => {},
                }
                proof {
                    taken = taken.push(model);
                }
            },
            None => {
                proof {
                    assert(kept_results(before, tag@).len() == 0);
                    assert(kept_results(before, tag@) =~= Seq::<SuccessModel>::empty());
                    assert(all =~= taken);
                }
                break;
            },
        }
    }
    pick
}

/// The path (and size) a pick records, as plain values.
pub open spec fn pick_view(pick: Option<(String, usize)>) -> Option<(Seq<char>, nat)> {
    match pick {
        Some((path, size)) => Some((path@, size as nat)),
        None => None,
    }
}

pub open spec fn path_view(path: Option<String>) -> Option<Seq<char>> {
    match path {
        Some(path) => Some(path@),
        None => None,
    }
}

/// `found`, or `otherwise` when there is nothing found.
pub open spec fn or_else<T>(found: Option<T>, otherwise: Option<T>) -> Option<T> {
    match found {
        Some(value) => Some(value),
        None => otherwise,
    }
}

pub open spec fn path_of(pick: Option<(Seq<char>, nat)>) -> Option<Seq<char>> {
    match pick {
        Some((path, _)) => Some(path),
        None => None,
    }
}

impl TemplateWidget {
    /// The widget's fields other than its connection to the bus.
    pub open spec fn same_panel(&self, other: &TemplateWidget) -> bool {
        &&& self.subscribed == other.subscribed
        &&& self.auto_subscribe_pending == other.auto_subscribe_pending
        &&& self.outgoing_text@ == other.outgoing_text@
        &&& self.received_text@ == other.received_text@
        &&& self.received_binary_count == other.received_binary_count
        &&& self.last_binary_length == other.last_binary_length
        &&& self.picked_file == other.picked_file
        &&& self.picked_folder == other.picked_folder
        &&& self.saved_file == other.saved_file
        &&& self.last_modal_result == other.last_modal_result
    }

    /// A fresh widget: a fresh bus connection, nothing followed, shown or
    /// typed.
    pub fn new() -> (widget: TemplateWidget)
        ensures
            widget.rpc.wf(),
            widget.rpc.subscribed_topics@.len() == 0,
            widget.rpc.messages@.len() == 0,
            !widget.subscribed,
            !widget.auto_subscribe_pending,
            widget.outgoing_text@.len() == 0,
            widget.received_text@.len() == 0,
            widget.received_binary_count == 0,
            widget.last_binary_length == 0,
            widget.picked_file is None,
            widget.picked_folder is None,
            widget.saved_file is None,
            widget.last_modal_result is None,
    {
        TemplateWidget {
            rpc: WidgetRpc::default(),
            subscribed: false,
            auto_subscribe_pending: false,
            outgoing_text: String::new(),
            received_text: Vec::new(),
            received_binary_count: 0,
            last_binary_length: 0,
            picked_file: None,
            picked_folder: None,
            saved_file: None,
            last_modal_result: None,
        }
    }

    /// The widget's title.
    pub fn title(&self) -> (title: String)
        ensures
            title@ == "Template"@,
    {
        String::from_str("Template")
    }

    /// Takes in a message from the bus.
    pub fn receive_message(&mut self, message: &BusMessage)
        requires
            old(self).rpc.wf(),
        ensures
            final(self).rpc.wf(),
            receives(old(self).rpc, *message, final(self).rpc),
            final(self).same_panel(old(self)),
    {
        self.rpc.receive_message(message);
    }

    /// Hands out the requests queued for the window's services.
    pub fn drain_messages(&mut self) -> (drained: Vec<BusMessage>)
        requires
            old(self).rpc.wf(),
        ensures
            final(self).rpc.wf(),
            drained@ == old(self).rpc.messages@,
            final(self).rpc.messages@.len() == 0,
            final(self).rpc.subscribed_topics@ == old(self).rpc.subscribed_topics@,
            final(self).rpc.same_inbox(&old(self).rpc),
            final(self).same_panel(old(self)),
    {
        self.rpc.drain_messages()
    }

    /// Follows the text and the binary topic.
    fn subscribe(&mut self)
        requires
            old(self).rpc.wf(),
        ensures
            final(self).rpc.wf(),
            final(self).subscribed,
            forall|topic: Seq<char>| #[trigger]
                final(self).rpc.follows(topic) == (old(self).rpc.follows(topic) || topic == text_topic_spec() || topic
                    == binary_topic_spec()),
            final(self).rpc.same_inbox(&old(self).rpc),
            final(self).rpc.last_modal_id == old(self).rpc.last_modal_id,
            final(self).rpc.modal_counter == old(self).rpc.modal_counter,
            final(self).rpc.widget_id@ == old(self).rpc.widget_id@,
            final(self).rpc.messages@.len() >= old(self).rpc.messages@.len(),
            final(self).rpc.messages@.take(old(self).rpc.messages@.len() as int) == old(self).rpc.messages@,
            forall|j: int|
                old(self).rpc.messages@.len() <= j < final(self).rpc.messages@.len() ==> subscription_from(
                    #[trigger] final(self).rpc.messages@[j],
                    old(self).rpc.widget_id@,
                ),
            final(self).auto_subscribe_pending == old(self).auto_subscribe_pending,
            final(self).outgoing_text@ == old(self).outgoing_text@,
            final(self).received_text@ == old(self).received_text@,
            final(self).received_binary_count == old(self).received_binary_count,
            final(self).last_binary_length == old(self).last_binary_length,
            final(self).picked_file == old(self).picked_file,
            final(self).picked_folder == old(self).picked_folder,
            final(self).saved_file == old(self).saved_file,
            final(self).last_modal_result == old(self).last_modal_result,
    {
        let mut topics: Vec<String> = Vec::new();
        topics.push(String::from_str(text_topic()));
        topics.push(String::from_str(binary_topic()));
        let ghost followed = names(self.rpc.subscribed_topics@);
        let ghost old_messages = self.rpc.messages@;
        let ghost widget = self.rpc.widget_id@;
        self.rpc.subscribe_to_topics(topics.as_slice());
        self.subscribed = true;
        proof {
            let asked = names(topics@);
            assert(asked =~= seq![text_topic_spec(), binary_topic_spec()]);
            lemma_newly_followed(followed, asked);
            assert forall|topic: Seq<char>| #[trigger]
                self.rpc.follows(topic) == (followed.contains(topic) || topic == text_topic_spec() || topic
                    == binary_topic_spec()) by {
                assert((followed + newly_followed(followed, asked)).contains(topic) <==> (followed.contains(topic)
                    || asked.contains(topic)));
                if topic == text_topic_spec() {
                    assert(asked[0] == topic);
                }
                if topic == binary_topic_spec() {
                    assert(asked[1] == topic);
                }
            }
            assert forall|j: int|
                old_messages.len() <= j < self.rpc.messages@.len() implies subscription_from(
                    #[trigger] self.rpc.messages@[j],
                    widget,
                ) by {
                let k = j - old_messages.len();
                assert(old_messages.len() + k == j);
                assert(subscribe_request(
                    self.rpc.messages@[old_messages.len() + k],
                    seq![newly_followed(followed, asked)[k]],
                    widget,
                ));
                assert(subscribe_request(self.rpc.messages@[j], seq![newly_followed(followed, asked)[k]], widget));
            }
        }
    }

    /// Lets the text and the binary topic go, or follows them again: the
    /// subscription control.
    pub fn toggle_subscription(&mut self)
        requires
            old(self).rpc.wf(),
        ensures
            final(self).rpc.wf(),
            final(self).subscribed == !old(self).subscribed,
            final(self).auto_subscribe_pending == old(self).subscribed,
            old(self).subscribed ==> unsubscribes(
                old(self).rpc,
                seq![text_topic_spec(), binary_topic_spec()],
                final(self).rpc,
            ),
            !old(self).subscribed ==> forall|topic: Seq<char>| #[trigger]
                final(self).rpc.follows(topic) == (old(self).rpc.follows(topic) || topic == text_topic_spec() || topic
                    == binary_topic_spec()),
            final(self).outgoing_text@ == old(self).outgoing_text@,
            final(self).received_text@ == old(self).received_text@,
            final(self).received_binary_count == old(self).received_binary_count,
            final(self).last_binary_length == old(self).last_binary_length,
            final(self).picked_file == old(self).picked_file,
            final(self).picked_folder == old(self).picked_folder,
            final(self).saved_file == old(self).saved_file,
            final(self).last_modal_result == old(self).last_modal_result,
    {
        if self.subscribed {
            let mut topics: Vec<String> = Vec::new();
            topics.push(String::from_str(text_topic()));
            topics.push(String::from_str(binary_topic()));
            self.rpc.unsubscribe_from_topics(topics.as_slice());
            assert(names(topics@) =~= seq![text_topic_spec(), binary_topic_spec()]);
            self.subscribed = false;
            self.auto_subscribe_pending = true;
        } else {
            self.subscribe();
            self.auto_subscribe_pending = false;
        }
    }

    /// Records the edited message text.
    pub fn edit_message(&mut self, text: String)
        ensures
            final(self).outgoing_text == text,
            final(self).rpc == old(self).rpc,
            final(self).subscribed == old(self).subscribed,
            final(self).received_text@ == old(self).received_text@,
    {
        self.outgoing_text = text;
    }

    /// Publishes the typed text as a note on the text topic.
    pub fn publish_typed(&mut self)
        ensures
            final(self).rpc.same_but_queue(&old(self).rpc),
            queued(old(self).rpc.messages@, final(self).rpc.messages@),
            final(self).rpc.messages@.last() matches BusMessage::Broker {
                message: crate::registry::BrokerServiceMessage::Publish { topic, message },
            } && topic@ == text_topic_spec() && message@ == note_payload(old(self).outgoing_text@),
            final(self).same_panel(old(self)),
    {
        let payload = template_note(self.outgoing_text.as_str());
        self.rpc.publish_json(text_topic(), payload.as_str());
    }

    /// Publishes the typed text, as it is, in a raw JSON object on the text
    /// topic.
    pub fn publish_raw(&mut self)
        ensures
            final(self).rpc.same_but_queue(&old(self).rpc),
            queued(old(self).rpc.messages@, final(self).rpc.messages@),
            final(self).rpc.messages@.last() matches BusMessage::Broker {
                message: crate::registry::BrokerServiceMessage::Publish { topic, message },
            } && topic@ == text_topic_spec() && message@ == raw_payload(old(self).outgoing_text@),
            final(self).same_panel(old(self)),
    {
        let mut payload = String::from_str("{\"raw\":\"");
        payload.append(self.outgoing_text.as_str());
        payload.append("\"}");
        self.rpc.publish_json(text_topic(), payload.as_str());
    }

    /// Publishes the typed text's UTF-8 bytes on the binary topic.
    pub fn publish_binary(&mut self)
        ensures
            final(self).rpc.same_but_queue(&old(self).rpc),
            queued(old(self).rpc.messages@, final(self).rpc.messages@),
            final(self).rpc.messages@.last() matches BusMessage::Broker {
                message: crate::registry::BrokerServiceMessage::PublishBytes { topic, bytes },
            } && topic@ == binary_topic_spec() && bytes@ == vstd::utf8::encode_utf8(old(self).outgoing_text@),
            final(self).same_panel(old(self)),
    {
        let bytes = vstd::slice::slice_to_vec(self.outgoing_text.as_str().as_bytes());
        self.rpc.publish_bytes(binary_topic(), bytes.as_slice());
    }

    /// Forgets what was shown as received.
    pub fn clear_received(&mut self)
        ensures
            final(self).received_text@.len() == 0,
            final(self).received_binary_count == 0,
            final(self).last_binary_length == 0,
            final(self).rpc == old(self).rpc,
            final(self).subscribed == old(self).subscribed,
            final(self).auto_subscribe_pending == old(self).auto_subscribe_pending,
            final(self).outgoing_text == old(self).outgoing_text,
            final(self).picked_file == old(self).picked_file,
            final(self).picked_folder == old(self).picked_folder,
            final(self).saved_file == old(self).saved_file,
            final(self).last_modal_result == old(self).last_modal_result,
    {
        self.received_text = Vec::new();
        self.received_binary_count = 0;
        self.last_binary_length = 0;
    }

    /// Shows a notification of `kind`, for three seconds; its text names the
    /// kind.
    pub fn notify_kind(&mut self, kind: NotificationKind)
        ensures
            final(self).rpc.same_but_queue(&old(self).rpc),
            queued(old(self).rpc.messages@, final(self).rpc.messages@),
            final(self).rpc.messages@.last() matches BusMessage::Notify { message: notice } && notice.text@
                == notice_text(kind) && notice.kind == kind && notice.seconds == 3,
            final(self).same_panel(old(self)),
    {
        let text = match kind {
            NotificationKind::Success => "A success toast",
            NotificationKind::Warning => "A warning toast",
            NotificationKind::Error => "An error toast",
            _ => "An informational toast",
        };
        self.rpc.notify(text, kind, 3);
    }

    /// Asks for a file to open, any kind.
    pub fn request_file(&mut self)
        ensures
            final(self).rpc.same_but_queue(&old(self).rpc),
            queued(old(self).rpc.messages@, final(self).rpc.messages@),
            final(self).rpc.messages@.last() matches BusMessage::Filesystem {
                message: crate::files::FileSystemMessage::Command(
                    crate::files::FileSystemCommand::PickFile { tag, filter_name, extensions },
                ),
            } && tag@ == old(self).rpc.scoped(pick_file_tag_spec()) && filter_name@.len() == 0
                && extensions@.len() == 0,
            final(self).same_panel(old(self)),
    {
        proof {
            reveal_strlit("");
        }
        self.rpc.pick_file("template-file", "", Vec::new());
    }

    /// Asks for a folder.
    pub fn request_folder(&mut self)
        ensures
            final(self).rpc.same_but_queue(&old(self).rpc),
            queued(old(self).rpc.messages@, final(self).rpc.messages@),
            final(self).rpc.messages@.last() matches BusMessage::Filesystem {
                message: crate::files::FileSystemMessage::Command(
                    crate::files::FileSystemCommand::PickFolder { tag },
                ),
            } && tag@ == old(self).rpc.scoped(pick_folder_tag_spec()),
            final(self).same_panel(old(self)),
    {
        self.rpc.pick_directory("template-folder");
    }

    /// Asks to save the typed text's UTF-8 bytes to a text file.
    pub fn request_save(&mut self)
        ensures
            final(self).rpc.same_but_queue(&old(self).rpc),
            queued(old(self).rpc.messages@, final(self).rpc.messages@),
            final(self).rpc.messages@.last() matches BusMessage::Filesystem {
                message: crate::files::FileSystemMessage::Command(
                    crate::files::FileSystemCommand::SaveFile { tag, bytes, filter_name, extensions },
                ),
            } && tag@ == old(self).rpc.scoped(save_file_tag_spec()) && bytes@ == vstd::utf8::encode_utf8(
                old(self).outgoing_text@,
            ) && filter_name@ == "text"@ && names(extensions@) == seq!["txt"@],
            final(self).same_panel(old(self)),
    {
        let bytes = vstd::slice::slice_to_vec(self.outgoing_text.as_str().as_bytes());
        let mut extensions: Vec<String> = Vec::new();
        extensions.push(String::from_str("txt"));
        assert(names(extensions@) =~= seq!["txt"@]);
        self.rpc.save_file("template-save", bytes, "text", extensions);
    }

    /// Opens the template's confirmation dialog, unless one awaits its
    /// answer.
    pub fn request_confirmation(&mut self)
        requires
            old(self).rpc.modal_counter < u32::MAX,
        ensures
            old(self).rpc.last_modal_id is Some ==> final(self).rpc == old(self).rpc,
            old(self).rpc.last_modal_id is None ==> {
                &&& final(self).rpc.modal_counter == old(self).rpc.modal_counter + 1
                &&& final(self).rpc.last_modal_id matches Some(id) && id@ == modal_id(
                    old(self).rpc.widget_id@,
                    final(self).rpc.modal_counter as nat,
                )
                &&& queued(old(self).rpc.messages@, final(self).rpc.messages@)
                &&& final(self).rpc.messages@.last() matches BusMessage::Modal {
                    message: crate::modals::ModalServiceMessage::ShowConfirm { id, title, body, confirm_text, cancel_text },
                } && id@ == modal_id(old(self).rpc.widget_id@, final(self).rpc.modal_counter as nat) && title@
                    == "Template Modal"@ && body@ == "Confirm the template action?"@ && (confirm_text matches Some(
                    confirm,
                ) && confirm@ == "Yes, proceed"@) && (cancel_text matches Some(cancel) && cancel@ == "No, cancel"@)
            },
            final(self).same_panel(old(self)),
    {
        if !self.rpc.has_open_modal() {
            self.rpc.show_modal(
                "Template Modal",
                "Confirm the template action?",
                Some(String::from_str("Yes, proceed")),
                Some(String::from_str("No, cancel")),
            );
        }
    }

    /// The label of the last dialog answer.
    pub fn modal_result_text(&self) -> (text: &'static str)
        ensures
            text@ == match self.last_modal_result {
                Some(ModalResult::Confirmed) => "Last result: confirmed"@,
                Some(ModalResult::Cancelled) => "Last result: cancelled"@,
                None => "No modal result yet"@,
            },
    {
        match self.last_modal_result {
            Some(ModalResult::Confirmed) => "Last result: confirmed",
            Some(ModalResult::Cancelled) => "Last result: cancelled",
            None => "No modal result yet",
        }
    }
}

/// Whether `message` asks the broker connection to subscribe `widget` to
/// some topics.
pub open spec fn subscription_from(message: BusMessage, widget: Seq<char>) -> bool {
    match message {
        BusMessage::Broker { message: crate::registry::BrokerServiceMessage::Subscribe { widget_id, .. } } => widget_id@
            == widget,
        _ => false,
    }
}

/// The text of a notification of `kind` shown from the widget.
pub open spec fn notice_text(kind: NotificationKind) -> Seq<char> {
    match kind {
        NotificationKind::Success => "A success toast"@,
        NotificationKind::Warning => "A warning toast"@,
        NotificationKind::Error => "An error toast"@,
        _ => "An informational toast"@,
    }
}

/// Keeps the last `MAX_RECEIVED_MESSAGES` texts of `received`.
fn keep_most_recent(received: &mut Vec<String>)
    ensures
        names(final(received)@) == most_recent(names(old(received)@)),
{
    let ghost all = names(received@);
    while received.len() > MAX_RECEIVED_MESSAGES
        invariant
            all.len() >= names(received@).len(),
            names(received@) == all.subrange(all.len() - names(received@).len(), all.len() as int),
            names(received@).len() == received@.len(),
            names(received@).len() >= MAX_RECEIVED_MESSAGES || names(received@).len() == all.len(),
        decreases received@.len(),
    {
        let ghost before = names(received@);
        received.remove(0);
        assert(names(received@) =~= before.drop_first());
        assert(names(received@) =~= all.subrange(all.len() - names(received@).len(), all.len() as int));
    }
    proof {
        if all.len() <= MAX_RECEIVED_MESSAGES {
            assert(all.subrange(0, all.len() as int) =~= all);
        }
    }
}

/// A widget's bus connection after its own topics were cleared: what
/// arrived on them is gone, the rest stays.
pub open spec fn topics_cleared(before: WidgetRpc, after: WidgetRpc) -> bool {
    &&& after.same_state(&before)
    &&& after.file_results == before.file_results
    &&& after.current_modal_result == before.current_modal_result
    &&& after.connected == before.connected
    &&& forall|topic: Seq<char>| #[trigger]
        after.texts(topic) == if topic == text_topic_spec() {
            None
        } else {
            before.texts(topic)
        }
    &&& forall|topic: Seq<char>| #[trigger]
        after.blobs(topic) == if topic == binary_topic_spec() {
            None
        } else {
            before.blobs(topic)
        }
}

/// The texts a widget shows after taking in `arrived` (what arrived on its
/// text topic, if anything did).
pub open spec fn shown_texts(shown: Seq<Seq<char>>, arrived: Option<Seq<Seq<char>>>) -> Seq<Seq<char>> {
    match arrived {
        Some(new) => most_recent(shown + new),
        None => shown,
    }
}

/// The binary count after `arrived` (what arrived on the binary topic).
pub open spec fn counted(count: int, arrived: Option<Seq<Seq<u8>>>) -> int {
    match arrived {
        Some(list) => count + list.len(),
        None => count,
    }
}

/// The size of the last binary payload after `arrived`.
pub open spec fn last_size(size: int, arrived: Option<Seq<Seq<u8>>>) -> int {
    match arrived {
        Some(list) => if list.len() > 0 {
            list.last().len() as int
        } else {
            size
        },
        None => size,
    }
}

impl TemplateWidget {
    /// Takes what arrived on the widget's topics into what it shows: the
    /// latest texts, the count of binary payloads and the size of the last;
    /// the bus connection forgets them.
    pub fn process_messages(&mut self)
        requires
            old(self).rpc.wf(),
            counted(old(self).received_binary_count as int, old(self).rpc.blobs(binary_topic_spec())) <= usize::MAX,
        ensures
            final(self).rpc.wf(),
            topics_cleared(old(self).rpc, final(self).rpc),
            names(final(self).received_text@) == shown_texts(
                names(old(self).received_text@),
                old(self).rpc.texts(text_topic_spec()),
            ),
            final(self).received_binary_count == counted(
                old(self).received_binary_count as int,
                old(self).rpc.blobs(binary_topic_spec()),
            ),
            final(self).last_binary_length == last_size(
                old(self).last_binary_length as int,
                old(self).rpc.blobs(binary_topic_spec()),
            ),
            final(self).subscribed == old(self).subscribed,
            final(self).auto_subscribe_pending == old(self).auto_subscribe_pending,
            final(self).outgoing_text@ == old(self).outgoing_text@,
            final(self).picked_file == old(self).picked_file,
            final(self).picked_folder == old(self).picked_folder,
            final(self).saved_file == old(self).saved_file,
            final(self).last_modal_result == old(self).last_modal_result,
    {
        let arrived = match self.rpc.get_messages_for_topic(text_topic()) {
            Some(list) => Some(copy_names(list)),
            None => None,
        };
        match arrived {
            Some(list) => {
                let ghost shown = names(self.received_text@);
                let mut index: usize = 0;
                while index < list.len()
                    invariant
                        index <= list@.len(),
                        names(self.received_text@) == shown + names(list@).take(index as int),
                        self.rpc == old(self).rpc,
                        self.received_binary_count == old(self).received_binary_count,
                        self.last_binary_length == old(self).last_binary_length,
                        self.subscribed == old(self).subscribed,
                        self.auto_subscribe_pending == old(self).auto_subscribe_pending,
                        self.outgoing_text == old(self).outgoing_text,
                        self.picked_file == old(self).picked_file,
                        self.picked_folder == old(self).picked_folder,
                        self.saved_file == old(self).saved_file,
                        self.last_modal_result == old(self).last_modal_result,
                    decreases list@.len() - index,
                {
                    let ghost before = names(self.received_text@);
                    self.received_text.push(list[index].clone());
                    assert(names(list@).take(index + 1) =~= names(list@).take(index as int).push(list@[index as int]@));
                    assert(names(self.received_text@) =~= before.push(list@[index as int]@));
                    assert(names(self.received_text@) =~= shown + names(list@).take(index + 1));
                    index = index + 1;
                }
                assert(names(list@).take(list@.len() as int) =~= names(list@));
                keep_most_recent(&mut self.received_text);
                let topics: Vec<&str> = vec![text_topic()];
                self.rpc.clear_topic_messages(topics.as_slice());
                proof {
                    assert(str_views(topics@) =~= seq![text_topic_spec()]);
                    assert forall|topic: Seq<char>|
                        str_views(topics@).contains(topic) <==> topic == text_topic_spec() by {
                        if topic == text_topic_spec() {
                            assert(str_views(topics@)[0] == topic);
                        }
                    }
                    assert forall|topic: Seq<char>| #[trigger]
                        self.rpc.texts(topic) == if topic == text_topic_spec() {
                            None
                        } else {
                            old(self).rpc.texts(topic)
                        } by {
                        assert(str_views(topics@).contains(topic) <==> topic == text_topic_spec());
                    }
                }
            },
            None => {},
        }
        let ghost middle = self.rpc;
        let binary = match self.rpc.get_binary_messages_for_topic(binary_topic()) {
            Some(list) => {
                let count = list.len();
                let last = if count > 0 {
                    Some(list[count - 1].len())
                } else {
                    None
                };
                proof {
                    assert(byte_views(list@).len() == list@.len());
                    if count > 0 {
                        assert(byte_views(list@).last() == list@[count - 1]@);
                    }
                }
                Some((count, last))
            },
            None => None,
        };
        match binary {
            Some((count, last)) => {
                self.received_binary_count = self.received_binary_count + count;
                match last {
                    Some(size) => {
                        self.last_binary_length = size;
                    },
                    None => {},
                }
                let topics: Vec<&str> = vec![binary_topic()];
                self.rpc.clear_binary_topic_messages(topics.as_slice());
                proof {
                    assert(str_views(topics@) =~= seq![binary_topic_spec()]);
                    assert forall|topic: Seq<char>|
                        str_views(topics@).contains(topic) <==> topic == binary_topic_spec() by {
                        if topic == binary_topic_spec() {
                            assert(str_views(topics@)[0] == topic);
                        }
                    }
                }
            },
            None => {},
        }
        proof {
            assert forall|topic: Seq<char>| #[trigger]
                self.rpc.texts(topic) == if topic == text_topic_spec() {
                    None
                } else {
                    old(self).rpc.texts(topic)
                } by {
                assert(self.rpc.texts(topic) == middle.texts(topic));
                assert(middle.texts(topic) == if topic == text_topic_spec() {
                    None
                } else {
                    old(self).rpc.texts(topic)
                });
            }
            assert forall|topic: Seq<char>| #[trigger]
                self.rpc.blobs(topic) == if topic == binary_topic_spec() {
                    None
                } else {
                    old(self).rpc.blobs(topic)
                } by {
                assert(middle.blobs(topic) == old(self).rpc.blobs(topic));
                if topic == binary_topic_spec() {
                    assert(self.rpc.blobs(topic) is None);
                } else {
                    assert(self.rpc.blobs(topic) == middle.blobs(topic));
                }
            }
        }
    }
}

/// Results asked for under different tags are kept apart.
pub proof fn lemma_scoped_tags_differ(rpc: WidgetRpc, first: Seq<char>, second: Seq<char>)
    requires
        first != second,
    ensures
        rpc.scoped(first) != rpc.scoped(second),
{
    let prefix = rpc.tag_prefix();
    if rpc.scoped(first) == rpc.scoped(second) {
        assert((prefix + first).subrange(prefix.len() as int, (prefix + first).len() as int) =~= first);
        assert((prefix + second).subrange(prefix.len() as int, (prefix + second).len() as int) =~= second);
    }
}

impl TemplateWidget {
    /// Takes every file result under the widget's three tags into what it
    /// shows: the last file picked (path and size), the last folder picked
    /// and the last file saved; a result of the other kind under a tag is
    /// passed over.
    pub fn process_file_results(&mut self)
        requires
            old(self).rpc.wf(),
        ensures
            final(self).rpc.wf(),
            pick_view(final(self).picked_file) == or_else(
                last_pick(kept_results(old(self).rpc, pick_file_tag_spec()), false),
                pick_view(old(self).picked_file),
            ),
            path_view(final(self).picked_folder) == or_else(
                path_of(last_pick(kept_results(old(self).rpc, pick_folder_tag_spec()), true)),
                path_view(old(self).picked_folder),
            ),
            path_view(final(self).saved_file) == or_else(
                path_of(last_pick(kept_results(old(self).rpc, save_file_tag_spec()), false)),
                path_view(old(self).saved_file),
            ),
            kept_results(final(self).rpc, pick_file_tag_spec()).len() == 0,
            kept_results(final(self).rpc, pick_folder_tag_spec()).len() == 0,
            kept_results(final(self).rpc, save_file_tag_spec()).len() == 0,
            forall|other: Seq<char>|
                other != old(self).rpc.scoped(pick_file_tag_spec()) && other != old(self).rpc.scoped(
                    pick_folder_tag_spec(),
                ) && other != old(self).rpc.scoped(save_file_tag_spec()) ==> #[trigger] final(self).rpc.results(other)
                    == old(self).rpc.results(other),
            final(self).rpc.same_state(&old(self).rpc),
            final(self).rpc.received_messages == old(self).rpc.received_messages,
            final(self).rpc.received_binary_messages == old(self).rpc.received_binary_messages,
            final(self).rpc.current_modal_result == old(self).rpc.current_modal_result,
            final(self).rpc.connected == old(self).rpc.connected,
            final(self).subscribed == old(self).subscribed,
            final(self).auto_subscribe_pending == old(self).auto_subscribe_pending,
            final(self).outgoing_text@ == old(self).outgoing_text@,
            final(self).received_text@ == old(self).received_text@,
            final(self).received_binary_count == old(self).received_binary_count,
            final(self).last_binary_length == old(self).last_binary_length,
            final(self).last_modal_result == old(self).last_modal_result,
    {
        let ghost start = self.rpc;
        proof {
            reveal_strlit("template-file");
            reveal_strlit("template-folder");
            reveal_strlit("template-save");
            assert(pick_file_tag_spec() != pick_folder_tag_spec());
            assert(pick_file_tag_spec()[9] != save_file_tag_spec()[9]);
            assert(pick_folder_tag_spec() != save_file_tag_spec());
            lemma_scoped_tags_differ(start, pick_file_tag_spec(), pick_folder_tag_spec());
            lemma_scoped_tags_differ(start, pick_file_tag_spec(), save_file_tag_spec());
            lemma_scoped_tags_differ(start, pick_folder_tag_spec(), save_file_tag_spec());
        }
        let file = take_last_pick(&mut self.rpc, "template-file", false);
        match file {
            Some(pick) => {
                self.picked_file = Some(pick);
            },
            None => {},
        }
        let ghost after_files = self.rpc;
        proof {
            assert(after_files.results(start.scoped(pick_folder_tag_spec())) == start.results(
                start.scoped(pick_folder_tag_spec()),
            ));
            assert(after_files.results(start.scoped(save_file_tag_spec())) == start.results(
                start.scoped(save_file_tag_spec()),
            ));
        }
        let folder = take_last_pick(&mut self.rpc, "template-folder", true);
        match folder {
            Some((path, _)) => {
                self.picked_folder = Some(path);
            },
            None => {},
        }
        let ghost after_folders = self.rpc;
        proof {
            assert(after_folders.results(start.scoped(save_file_tag_spec())) == start.results(
                start.scoped(save_file_tag_spec()),
            ));
            assert(after_folders.results(start.scoped(pick_file_tag_spec())) == after_files.results(
                start.scoped(pick_file_tag_spec()),
            ));
        }
        let saved = take_last_pick(&mut self.rpc, "template-save", false);
        match saved {
            Some((path, _)) => {
                self.saved_file = Some(path);
            },
            None => {},
        }
        proof {
            assert(self.rpc.results(start.scoped(pick_file_tag_spec())) == after_folders.results(
                start.scoped(pick_file_tag_spec()),
            ));
            assert(self.rpc.results(start.scoped(pick_folder_tag_spec())) == after_folders.results(
                start.scoped(pick_folder_tag_spec()),
            ));
            assert forall|other: Seq<char>|
                other != start.scoped(pick_file_tag_spec()) && other != start.scoped(pick_folder_tag_spec()) && other
                    != start.scoped(save_file_tag_spec()) implies #[trigger] self.rpc.results(other) == start.results(
                other,
            ) by {
                assert(after_files.results(other) == start.results(other));
                assert(after_folders.results(other) == after_files.results(other));
            }
        }
    }

    /// The widget's part of a frame: takes in whether the window is
    /// connected (its topics are asked for again after a reconnect, and
    /// followed once connected unless the user let them go), then what
    /// arrived on its topics, its file results and a dialog answer. Returns
    /// whether the window is connected.
    pub fn update(&mut self, connected: bool) -> (is_connected: bool)
        requires
            old(self).rpc.wf(),
            counted(old(self).received_binary_count as int, old(self).rpc.blobs(binary_topic_spec())) <= usize::MAX,
        ensures
            final(self).rpc.wf(),
            is_connected == connected,
            final(self).rpc.connected == connected,
            final(self).subscribed == (old(self).subscribed || (!old(self).auto_subscribe_pending && connected)),
            final(self).auto_subscribe_pending == old(self).auto_subscribe_pending,
            forall|topic: Seq<char>| #[trigger]
                final(self).rpc.follows(topic) == (old(self).rpc.follows(topic) || (!old(self).subscribed
                    && !old(self).auto_subscribe_pending && connected && (topic == text_topic_spec() || topic
                    == binary_topic_spec()))),
            final(self).rpc.messages@.len() >= old(self).rpc.messages@.len(),
            final(self).rpc.messages@.take(old(self).rpc.messages@.len() as int) == old(self).rpc.messages@,
            forall|j: int|
                old(self).rpc.messages@.len() <= j < final(self).rpc.messages@.len() ==> subscription_from(
                    #[trigger] final(self).rpc.messages@[j],
                    old(self).rpc.widget_id@,
                ),
            forall|topic: Seq<char>| #[trigger]
                final(self).rpc.texts(topic) == if topic == text_topic_spec() {
                    None
                } else {
                    old(self).rpc.texts(topic)
                },
            forall|topic: Seq<char>| #[trigger]
                final(self).rpc.blobs(topic) == if topic == binary_topic_spec() {
                    None
                } else {
                    old(self).rpc.blobs(topic)
                },
            names(final(self).received_text@) == shown_texts(
                names(old(self).received_text@),
                old(self).rpc.texts(text_topic_spec()),
            ),
            final(self).received_binary_count == counted(
                old(self).received_binary_count as int,
                old(self).rpc.blobs(binary_topic_spec()),
            ),
            final(self).last_binary_length == last_size(
                old(self).last_binary_length as int,
                old(self).rpc.blobs(binary_topic_spec()),
            ),
            pick_view(final(self).picked_file) == or_else(
                last_pick(kept_results(old(self).rpc, pick_file_tag_spec()), false),
                pick_view(old(self).picked_file),
            ),
            path_view(final(self).picked_folder) == or_else(
                path_of(last_pick(kept_results(old(self).rpc, pick_folder_tag_spec()), true)),
                path_view(old(self).picked_folder),
            ),
            path_view(final(self).saved_file) == or_else(
                path_of(last_pick(kept_results(old(self).rpc, save_file_tag_spec()), false)),
                path_view(old(self).saved_file),
            ),
            final(self).last_modal_result == match old(self).rpc.current_modal_result {
                Some(confirmed) => Some(
                    if confirmed {
                        ModalResult::Confirmed
                    } else {
                        ModalResult::Cancelled
                    },
                ),
                None => old(self).last_modal_result,
            },
            final(self).rpc.current_modal_result is None,
            final(self).rpc.last_modal_id == if old(self).rpc.current_modal_result is Some {
                None
            } else {
                old(self).rpc.last_modal_id
            },
            final(self).outgoing_text@ == old(self).outgoing_text@,
    {
        let ghost start = *self;
        let context = WidgetContext { is_connected: connected };
        self.rpc.update(&context);
        let ghost updated = *self;
        proof {
            assert forall|j: int|
                start.rpc.messages@.len() <= j < updated.rpc.messages@.len() implies subscription_from(
                    #[trigger] updated.rpc.messages@[j],
                    start.rpc.widget_id@,
                ) by {
                assert(j == updated.rpc.messages@.len() - 1);
            }
            assert(updated.rpc.messages@.take(start.rpc.messages@.len() as int) =~= start.rpc.messages@);
        }
        if !self.subscribed && !self.auto_subscribe_pending && connected {
            self.subscribe();
        }
        let ghost subscribed = *self;
        proof {
            assert(subscribed.rpc.messages@.take(updated.rpc.messages@.len() as int) =~= updated.rpc.messages@);
            assert(updated.rpc.messages@.len() <= subscribed.rpc.messages@.len());
            assert(start.rpc.messages@.len() <= updated.rpc.messages@.len());
            assert forall|j: int|
                start.rpc.messages@.len() <= j < subscribed.rpc.messages@.len() implies subscription_from(
                    #[trigger] subscribed.rpc.messages@[j],
                    start.rpc.widget_id@,
                ) by {
                if j < updated.rpc.messages@.len() {
                    assert(subscribed.rpc.messages@.take(updated.rpc.messages@.len() as int)[j]
                        == updated.rpc.messages@[j]);
                    assert(updated.rpc.messages@[j] == subscribed.rpc.messages@[j]);
                }
            }
            assert(subscribed.rpc.messages@.take(start.rpc.messages@.len() as int) =~= start.rpc.messages@) by {
                assert forall|k: int| 0 <= k < start.rpc.messages@.len() implies #[trigger] subscribed.rpc.messages@[k]
                    == start.rpc.messages@[k] by {
                    assert(subscribed.rpc.messages@.take(updated.rpc.messages@.len() as int)[k]
                        == updated.rpc.messages@[k]);
                    assert(updated.rpc.messages@.take(start.rpc.messages@.len() as int)[k] == start.rpc.messages@[k]);
                }
            }
            assert(subscribed.rpc.blobs(binary_topic_spec()) == start.rpc.blobs(binary_topic_spec()));
            assert(subscribed.rpc.texts(text_topic_spec()) == start.rpc.texts(text_topic_spec()));
        }
        self.process_messages();
        let ghost messaged = *self;
        self.process_file_results();
        let ghost processed = *self;
        proof {
            assert forall|topic: Seq<char>| #[trigger] processed.rpc.texts(topic) == if topic == text_topic_spec() {
                None
            } else {
                start.rpc.texts(topic)
            } by {
                assert(subscribed.rpc.texts(topic) == start.rpc.texts(topic));
                assert(messaged.rpc.texts(topic) == if topic == text_topic_spec() {
                    None
                } else {
                    subscribed.rpc.texts(topic)
                });
                assert(processed.rpc.texts(topic) == messaged.rpc.texts(topic));
            }
            assert forall|topic: Seq<char>| #[trigger] processed.rpc.blobs(topic) == if topic == binary_topic_spec() {
                None
            } else {
                start.rpc.blobs(topic)
            } by {
                assert(subscribed.rpc.blobs(topic) == start.rpc.blobs(topic));
                assert(messaged.rpc.blobs(topic) == if topic == binary_topic_spec() {
                    None
                } else {
                    subscribed.rpc.blobs(topic)
                });
                assert(processed.rpc.blobs(topic) == messaged.rpc.blobs(topic));
            }
            assert(kept_results(subscribed.rpc, pick_file_tag_spec()) == kept_results(start.rpc, pick_file_tag_spec()));
            assert(kept_results(subscribed.rpc, pick_folder_tag_spec()) == kept_results(
                start.rpc,
                pick_folder_tag_spec(),
            ));
            assert(kept_results(subscribed.rpc, save_file_tag_spec()) == kept_results(start.rpc, save_file_tag_spec()));
        }
        match self.rpc.take_modal_result() {
            Some(result) => {
                self.last_modal_result = Some(result);
            },
            None => {},
        }
        proof {
            assert forall|topic: Seq<char>| #[trigger]
                self.rpc.follows(topic) == (start.rpc.follows(topic) || (!start.subscribed
                    && !start.auto_subscribe_pending && connected && (topic == text_topic_spec() || topic
                    == binary_topic_spec()))) by {
                assert(self.rpc.follows(topic) == subscribed.rpc.follows(topic));
                assert(updated.rpc.follows(topic) == start.rpc.follows(topic));
            }
            assert forall|topic: Seq<char>| #[trigger] self.rpc.texts(topic) == processed.rpc.texts(topic) by {}
            assert forall|topic: Seq<char>| #[trigger] self.rpc.blobs(topic) == processed.rpc.blobs(topic) by {}
        }
        connected
    }
}

/// A widget shows at most `MAX_RECEIVED_MESSAGES` texts, the latest: what it
/// shows after taking in texts ends with the last one that arrived, and
/// keeps everything when the total fits.
pub proof fn lemma_widget_shows_latest_texts(shown: Seq<Seq<char>>, arrived: Seq<Seq<char>>)
    ensures
        shown.len() + arrived.len() <= MAX_RECEIVED_MESSAGES ==> shown_texts(shown, Some(arrived)) == shown + arrived,
        shown.len() + arrived.len() > MAX_RECEIVED_MESSAGES ==> shown_texts(shown, Some(arrived)).len()
            == MAX_RECEIVED_MESSAGES,
        arrived.len() > 0 ==> shown_texts(shown, Some(arrived)).last() == arrived.last(),
{
}

} // verus!
