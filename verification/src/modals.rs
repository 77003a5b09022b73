//! Confirmation dialogs: which are open, under which id, and the answer each
//! gives back when it closes.
use crate::keyed::KeyedList;
use vstd::prelude::*;

verus! {

/// A message to or from the dialog service.
pub enum ModalServiceMessage {
    /// Opens a dialog under `id`, replacing one open under it.
    ShowConfirm {
        id: String,
        title: String,
        body: String,
        confirm_text: Option<String>,
        cancel_text: Option<String>,
    },
    /// Closes the dialog open under the id, if any.
    CloseModal(String),
    /// The answer of the dialog open under `id`.
    ModalResult { id: String, confirmed: bool },
    Empty,
}

impl Default for ModalServiceMessage {
    fn default() -> (message: Self)
        ensures
            message is Empty,
    {
        ModalServiceMessage::Empty
    }
}

/// A dialog's answer.
#[derive(Debug, Clone, Copy, PartialEq, Eq, Structural)]
pub enum ModalResult {
    Confirmed,
    Cancelled,
}

impl Default for ModalResult {
    fn default() -> (result: Self)
        ensures
            result is Cancelled,
    {
        ModalResult::Cancelled
    }
}

impl From<bool> for ModalResult {
    fn from(confirmed: bool) -> (result: Self) {
        if confirmed {
            ModalResult::Confirmed
        } else {
            ModalResult::Cancelled
        }
    }
}

impl vstd::std_specs::convert::FromSpecImpl<bool> for ModalResult {
    open spec fn obeys_from_spec() -> bool {
        true
    }

    open spec fn from_spec(confirmed: bool) -> ModalResult {
        if confirmed {
            ModalResult::Confirmed
        } else {
            ModalResult::Cancelled
        }
    }
}

/// What an open dialog shows.
pub struct ModalData {
    pub title: String,
    pub body: String,
    pub confirm_text: String,
    pub cancel_text: String,
}

/// The dialogs open in a window, by id.
pub struct ActiveModals {
    pub modals: KeyedList<ModalData>,
}

pub open spec fn text_or(text: Option<String>, fallback: Seq<char>) -> Seq<char> {
    match text {
        Some(t) => t@,
        None => fallback,
    }
}

impl ActiveModals {
    pub open spec fn wf(&self) -> bool {
        self.modals.wf()
    }

    /// The dialog open under `id`.
    pub open spec fn shown(&self, id: Seq<char>) -> Option<ModalData> {
        self.modals.get(id)
    }

    /// No dialog open.
    pub fn new() -> (modals: ActiveModals)
        ensures
            modals.wf(),
            forall|id: Seq<char>| #[trigger] modals.shown(id) is None,
    {
        ActiveModals { modals: KeyedList::new() }
    }

    /// Applies one message: a dialog opens (its buttons reading "Confirm"
    /// and "Cancel" unless the message names them), or closes; answers
    /// change nothing.
    pub fn receive_message(&mut self, message: &ModalServiceMessage)
        requires
            old(self).wf(),
        ensures
            final(self).wf(),
            match *message {
                ModalServiceMessage::ShowConfirm { id, title, body, confirm_text, cancel_text } => {
                    &&& final(self).shown(id@) matches Some(data) && data.title@ == title@ && data.body@ == body@
                        && data.confirm_text@ == text_or(confirm_text, "Confirm"@) && data.cancel_text@ == text_or(
                        cancel_text,
                        "Cancel"@,
                    )
                    &&& forall|other: Seq<char>| other != id@ ==> #[trigger] final(self).shown(other) == old(self).shown(other)
                },
                ModalServiceMessage::CloseModal(id) => {
                    &&& final(self).shown(id@) is None
                    &&& forall|other: Seq<char>| other != id@ ==> #[trigger] final(self).shown(other) == old(self).shown(other)
                },
                _ => *final(self) == *old(self),
            },
    {
        match message {
            ModalServiceMessage::ShowConfirm { id, title, body, confirm_text, cancel_text } => {
                let confirm = match confirm_text {
                    Some(text) => text.clone(),
                    None => String::from_str("Confirm"),
                };
                let cancel = match cancel_text {
                    Some(text) => text.clone(),
                    None => String::from_str("Cancel"),
                };
                self.modals.insert(
                    id.clone(),
                    ModalData { title: title.clone(), body: body.clone(), confirm_text: confirm, cancel_text: cancel },
                );
            },
            ModalServiceMessage::CloseModal(id) => {
                let _ = self.modals.remove(id);
            },
            _ => {},
        }
    }

    /// The dialog open under `id` was answered: it closes, and its answer is
    /// the message to send; nothing happens when no dialog is open there.
    pub fn answer(&mut self, id: &String, confirmed: bool) -> (result: Option<ModalServiceMessage>)
        requires
            old(self).wf(),
        ensures
            final(self).wf(),
            old(self).shown(id@) is None ==> result is None && *final(self) == *old(self),
            old(self).shown(id@) is Some ==> (result matches Some(ModalServiceMessage::ModalResult { id: answered, confirmed: c })
                && answered@ == id@ && c == confirmed) && final(self).shown(id@) is None,
            forall|other: Seq<char>| other != id@ ==> #[trigger] final(self).shown(other) == old(self).shown(other),
    {
        match self.modals.remove(id) {
            Some(_) => Some(ModalServiceMessage::ModalResult { id: id.clone(), confirmed }),
            None => None,
        }
    }
}

impl Default for ActiveModals {
    fn default() -> (modals: Self)
        ensures
            modals.wf(),
            forall|id: Seq<char>| #[trigger] modals.shown(id) is None,
    {
        ActiveModals::new()
    }
}

/// What an open dialog shows, as plain values: title, body and the two
/// button texts.
pub open spec fn modal_view(data: Option<ModalData>) -> Option<(Seq<char>, Seq<char>, Seq<char>, Seq<char>)> {
    match data {
        Some(data) => Some((data.title@, data.body@, data.confirm_text@, data.cancel_text@)),
        None => None,
    }
}

/// What is shown under `id` after `message`, when `before` was.
pub open spec fn view_after(
    message: ModalServiceMessage,
    id: Seq<char>,
    before: Option<(Seq<char>, Seq<char>, Seq<char>, Seq<char>)>,
) -> Option<(Seq<char>, Seq<char>, Seq<char>, Seq<char>)> {
    match message {
        ModalServiceMessage::ShowConfirm { id: shown, title, body, confirm_text, cancel_text } => if shown@ == id {
            Some((title@, body@, text_or(confirm_text, "Confirm"@), text_or(cancel_text, "Cancel"@)))
        } else {
            before
        },
        ModalServiceMessage::CloseModal(closed) => if closed@ == id {
            None
        } else {
            before
        },
        _ => before,
    }
}

/// What is shown under `id` after `messages`, in order, when `before` was.
pub open spec fn view_after_all(
    messages: Seq<ModalServiceMessage>,
    id: Seq<char>,
    before: Option<(Seq<char>, Seq<char>, Seq<char>, Seq<char>)>,
) -> Option<(Seq<char>, Seq<char>, Seq<char>, Seq<char>)>
    decreases messages.len(),
{
    if messages.len() == 0 {
        before
    } else {
        view_after(messages.last(), id, view_after_all(messages.drop_last(), id, before))
    }
}

/// Applies `messages` in order: under each id, the dialog the last message
/// about it opened is shown, or none when it closed it.
pub fn receive_messages(active_modals: &mut ActiveModals, messages: &Vec<ModalServiceMessage>)
    requires
        old(active_modals).wf(),
    ensures
        final(active_modals).wf(),
        forall|id: Seq<char>| #[trigger]
            modal_view(final(active_modals).shown(id)) == view_after_all(
                messages@,
                id,
                modal_view(old(active_modals).shown(id)),
            ),
{
    let mut index: usize = 0;
    while index < messages.len()
        invariant
            active_modals.wf(),
            index <= messages@.len(),
            forall|id: Seq<char>| #[trigger]
                modal_view(active_modals.shown(id)) == view_after_all(
                    messages@.take(index as int),
                    id,
                    modal_view(old(active_modals).shown(id)),
                ),
        decreases messages@.len() - index,
    {
        let ghost before = *active_modals;
        active_modals.receive_message(&messages[index]);
        proof {
            let message = messages@[index as int];
            assert(messages@.take(index + 1).drop_last() =~= messages@.take(index as int));
            assert(messages@.take(index + 1).last() == message);
            assert forall|id: Seq<char>| #[trigger]
                modal_view(active_modals.shown(id)) == view_after_all(
                    messages@.take(index + 1),
                    id,
                    modal_view(old(active_modals).shown(id)),
                ) by {
                assert(modal_view(before.shown(id)) == view_after_all(
                    messages@.take(index as int),
                    id,
                    modal_view(old(active_modals).shown(id)),
                ));
                match message {
                    ModalServiceMessage::ShowConfirm { id: shown, .. } => {
                        if shown@ != id {
                            assert(active_modals.shown(id) == before.shown(id));
                        }
                    },
                    ModalServiceMessage::CloseModal(closed) => {
                        if closed@ != id {
                            assert(active_modals.shown(id) == before.shown(id));
                        }
                    },
                    _ => {},
                }
            }
        }
        index = index + 1;
    }
    proof {
        assert(messages@.take(messages@.len() as int) =~= messages@);
    }
}

/// A dialog as the window shows it: the node that holds it and the dialog
/// node whose closing reports the answer.
#[derive(Debug, Clone, Copy, PartialEq, Eq, Structural)]
pub struct ModalRecord {
    pub root: u64,
    pub dialog: u64,
}

/// The dialogs a window shows, by id.
pub struct ModalService {
    pub modals: KeyedList<ModalRecord>,
}

/// `after` has `record` under `id` and is `before` under every other id.
pub open spec fn holds_record(before: ModalService, after: ModalService, id: Seq<char>, record: Option<ModalRecord>) -> bool {
    &&& after.record(id) == record
    &&& forall|other: Seq<char>| other != id ==> #[trigger] after.record(other) == before.record(other)
}

/// The node to remove for what `service` shows under `id`.
pub open spec fn root_of(service: ModalService, id: Seq<char>) -> Option<u64> {
    match service.record(id) {
        Some(record) => Some(record.root),
        None => None,
    }
}

impl ModalService {
    pub open spec fn wf(&self) -> bool {
        self.modals.wf()
    }

    pub open spec fn record(&self, id: Seq<char>) -> Option<ModalRecord> {
        self.modals.get(id)
    }

    /// No dialog shown.
    pub fn new() -> (service: ModalService)
        ensures
            service.wf(),
            forall|id: Seq<char>| #[trigger] service.record(id) is None,
    {
        ModalService { modals: KeyedList::new() }
    }

    /// Records the dialog just built for `id`; the dialog shown under `id`
    /// before, if any, is replaced, and the node to remove for it returned.
    pub fn show_confirm(&mut self, id: &str, root: u64, dialog: u64) -> (replaced: Option<u64>)
        requires
            old(self).wf(),
        ensures
            final(self).wf(),
            holds_record(*old(self), *final(self), id@, Some(ModalRecord { root, dialog })),
            replaced == root_of(*old(self), id@),
    {
        let key = String::from_str(id);
        let replaced = self.close_modal(id);
        let ghost middle = *self;
        self.modals.insert(key, ModalRecord { root, dialog });
        proof {
            assert forall|other: Seq<char>| other != id@ implies #[trigger] self.record(other) == old(self).record(other) by {
                assert(middle.record(other) == old(self).record(other));
            }
        }
        replaced
    }

    /// Forgets the dialog shown under `id`; returns the node to remove for it.
    pub fn close_modal(&mut self, id: &str) -> (root: Option<u64>)
        requires
            old(self).wf(),
        ensures
            final(self).wf(),
            holds_record(*old(self), *final(self), id@, None),
            root == root_of(*old(self), id@),
    {
        let key = String::from_str(id);
        match self.modals.remove(&key) {
            Some(record) => Some(record.root),
            None => None,
        }
    }

    /// The dialog node `dialog` closed: the dialog it belongs to is
    /// forgotten; returns its id and the node to remove, or `None` when no
    /// dialog shown has that node.
    pub fn handle_modal_closed(&mut self, dialog: u64) -> (closed: Option<(String, u64)>)
        requires
            old(self).wf(),
        ensures
            final(self).wf(),
            closed is None <==> forall|id: Seq<char>|
                #[trigger] old(self).record(id) is Some ==> old(self).record(id).unwrap().dialog != dialog,
            closed is None ==> *final(self) == *old(self),
            closed matches Some((id, root)) ==> old(self).record(id@) == Some(ModalRecord { root, dialog })
                && holds_record(*old(self), *final(self), id@, None),
    {
        let mut index: usize = 0;
        while index < self.modals.entries.len()
            invariant
                self.wf(),
                *self == *old(self),
                index <= self.modals.entries@.len(),
                forall|j: int| 0 <= j < index ==> (#[trigger] self.modals.entries@[j]).1.dialog != dialog,
            decreases self.modals.entries@.len() - index,
        {
            if self.modals.entries[index].1.dialog == dialog {
                let id = self.modals.entries[index].0.clone();
                proof {
                    self.modals.lemma_position(index as int);
                    assert(old(self).record(id@) is Some && old(self).record(id@).unwrap().dialog == dialog);
                }
                let record = self.modals.remove_at(index);
                return Some((id, record.root));
            }
            index = index + 1;
        }
        proof {
            assert forall|id: Seq<char>| #[trigger] self.record(id) is Some implies self.record(id).unwrap().dialog != dialog by {
                if self.modals.has(id) {
                    let k = self.modals.position(id);
                    assert(self.modals.entries@[k].1.dialog != dialog);
                }
            }
        }
        None
    }
}

impl Default for ModalService {
    fn default() -> (service: Self)
        ensures
            service.wf(),
            forall|id: Seq<char>| #[trigger] service.record(id) is None,
    {
        ModalService::new()
    }
}

/// Closing a dialog right after showing it hands back the node built for
/// it and leaves every dialog as it was before, but none under its id;
/// showing a second dialog under the same id hands back the first one's node
/// and leaves only the second.
pub proof fn lemma_show_then_close(
    before: ModalService,
    shown: ModalService,
    after: ModalService,
    id: Seq<char>,
    record: ModalRecord,
    next: Option<ModalRecord>,
)
    requires
        holds_record(before, shown, id, Some(record)),
        holds_record(shown, after, id, next),
    ensures
        root_of(shown, id) == Some(record.root),
        holds_record(before, after, id, next),
{
}

} // verus!
