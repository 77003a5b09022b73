//! The bookkeeping of a web demo page: its template panels, the toasts it
//! shows and the confirmation dialogs the panels open, and the layout a
//! page's panels make up.
use crate::topics::names;
use vstd::prelude::*;

verus! {

/// How a toast looks.
#[derive(Debug, Clone, Copy, PartialEq, Eq, Structural)]
pub enum ToastKind {
    Info,
    Success,
    Warning,
    Error,
}

impl ToastKind {
    /// The style class of a toast of this kind.
    pub fn class(&self) -> (class: &'static str)
        ensures
            class@ == match *self {
                ToastKind::Info => "toast info"@,
                ToastKind::Success => "toast success"@,
                ToastKind::Warning => "toast warning"@,
                ToastKind::Error => "toast error"@,
            },
    {
        match self {
            ToastKind::Info => "toast info",
            ToastKind::Success => "toast success",
            ToastKind::Warning => "toast warning",
            ToastKind::Error => "toast error",
        }
    }
}

/// A toast on show.
pub struct Toast {
    pub id: u32,
    pub text: String,
    pub kind: ToastKind,
}

/// A confirmation dialog a panel opened.
pub struct ModalRequest {
    pub id: u32,
    pub panel_id: u32,
    pub title: String,
    pub body: String,
    pub confirm_text: String,
    pub cancel_text: String,
}

/// What the page keeps of a panel's dialog.
pub struct PanelRecord {
    pub id: u32,
    pub modal_open: bool,
    pub last_modal_result: Option<bool>,
}

/// A window's layout: its name and the kind of each panel.
pub struct WindowLayout {
    pub layout_name: String,
    pub panels: Vec<String>,
}

/// The panels, toasts and dialogs of a page.
pub struct PageBoard {
    pub panels: Vec<PanelRecord>,
    pub next_panel_id: u32,
    pub toasts: Vec<Toast>,
    pub next_toast_id: u32,
    pub modals: Vec<ModalRequest>,
    pub next_modal_id: u32,
    pub layout_name: String,
    pub layout_modified: bool,
    pub project_modified: bool,
}

pub open spec fn panel_ids(panels: Seq<PanelRecord>) -> Seq<u32> {
    panels.map_values(|panel: PanelRecord| panel.id)
}

pub open spec fn toast_ids(toasts: Seq<Toast>) -> Seq<u32> {
    toasts.map_values(|toast: Toast| toast.id)
}

pub open spec fn modal_ids(modals: Seq<ModalRequest>) -> Seq<u32> {
    modals.map_values(|modal: ModalRequest| modal.id)
}

/// The ids in `ids` are increasing and below `next`.
pub open spec fn fresh_ids(ids: Seq<u32>, next: u32) -> bool {
    &&& forall|i: int, j: int| 0 <= i < j < ids.len() ==> ids[i] < ids[j]
    &&& forall|i: int| 0 <= i < ids.len() ==> ids[i] < next
}

/// Every panel shows a template.
pub open spec fn template_panels(count: nat) -> Seq<Seq<char>> {
    Seq::new(count, |i: int| "Template"@)
}

impl PageBoard {
    /// Ids are handed out once: the panels', the toasts' and the dialogs'
    /// ids each increase in the order they were handed out.
    pub open spec fn wf(&self) -> bool {
        &&& fresh_ids(panel_ids(self.panels@), self.next_panel_id)
        &&& fresh_ids(toast_ids(self.toasts@), self.next_toast_id)
        &&& fresh_ids(modal_ids(self.modals@), self.next_modal_id)
    }

    pub open spec fn has_panel(&self, id: u32) -> bool {
        panel_ids(self.panels@).contains(id)
    }
}

/// Adds a panel with the next id to `panels`.
fn push_panel(panels: &mut Vec<PanelRecord>, next: &mut u32) -> (id: u32)
    requires
        fresh_ids(panel_ids(old(panels)@), *old(next)),
        *old(next) < u32::MAX,
    ensures
        id == *old(next),
        *final(next) == *old(next) + 1,
        panel_ids(final(panels)@) == panel_ids(old(panels)@).push(id),
        final(panels)@.last() == (PanelRecord { id, modal_open: false, last_modal_result: None }),
        final(panels)@.drop_last() == old(panels)@,
        fresh_ids(panel_ids(final(panels)@), *final(next)),
{
    let id = *next;
    *next = id + 1;
    panels.push(PanelRecord { id, modal_open: false, last_modal_result: None });
    assert(panel_ids(panels@) =~= panel_ids(old(panels)@).push(id));
    assert(panels@.drop_last() =~= old(panels)@);
    id
}

impl PageBoard {
    /// A page with one panel, named `Default Layout`, with nothing modified.
    pub fn new() -> (board: PageBoard)
        ensures
            board.wf(),
            panel_ids(board.panels@) == seq![0u32],
            board.next_panel_id == 1,
            board.toasts@.len() == 0,
            board.modals@.len() == 0,
            board.layout_name@ == "Default Layout"@,
            !board.layout_modified,
            !board.project_modified,
    {
        let mut board = PageBoard {
            panels: Vec::new(),
            next_panel_id: 0,
            toasts: Vec::new(),
            next_toast_id: 0,
            modals: Vec::new(),
            next_modal_id: 0,
            layout_name: String::from_str("Default Layout"),
            layout_modified: false,
            project_modified: false,
        };
        assert(panel_ids(board.panels@) =~= Seq::<u32>::empty());
        assert(toast_ids(board.toasts@) =~= Seq::<u32>::empty());
        assert(modal_ids(board.modals@) =~= Seq::<u32>::empty());
        board.add_panel();
        board
    }

    /// Adds a panel under the next panel id; returns that id.
    pub fn add_panel(&mut self) -> (id: u32)
        requires
            old(self).wf(),
            old(self).next_panel_id < u32::MAX,
        ensures
            final(self).wf(),
            id == old(self).next_panel_id,
            final(self).next_panel_id == old(self).next_panel_id + 1,
            panel_ids(final(self).panels@) == panel_ids(old(self).panels@).push(id),
            final(self).panels@.last() == (PanelRecord { id, modal_open: false, last_modal_result: None }),
            final(self).panels@.drop_last() == old(self).panels@,
            final(self).toasts@ == old(self).toasts@,
            final(self).modals@ == old(self).modals@,
            final(self).next_toast_id == old(self).next_toast_id,
            final(self).next_modal_id == old(self).next_modal_id,
            final(self).layout_name@ == old(self).layout_name@,
            final(self).layout_modified == old(self).layout_modified,
            final(self).project_modified == old(self).project_modified,
    {
        push_panel(&mut self.panels, &mut self.next_panel_id)
    }

    /// Closes the panel `id`: the layout and the project count as modified.
    pub fn remove_panel(&mut self, id: u32)
        requires
            old(self).wf(),
        ensures
            final(self).wf(),
            final(self).panels@ == old(self).panels@.filter(|panel: PanelRecord| panel.id != id),
            !final(self).has_panel(id),
            final(self).layout_modified,
            final(self).project_modified,
            final(self).next_panel_id == old(self).next_panel_id,
            final(self).toasts@ == old(self).toasts@,
            final(self).modals@ == old(self).modals@,
            final(self).next_toast_id == old(self).next_toast_id,
            final(self).next_modal_id == old(self).next_modal_id,
            final(self).layout_name@ == old(self).layout_name@,
    {
        let ghost before = self.panels@;
        let mut kept: Vec<PanelRecord> = Vec::new();
        let mut index: usize = 0;
        let ghost mut last: int = -1;
        while index < self.panels.len()
            invariant
                index <= before.len(),
                self.panels@ == before,
                kept@ == before.take(index as int).filter(|panel: PanelRecord| panel.id != id),
                fresh_ids(panel_ids(before), self.next_panel_id),
                fresh_ids(panel_ids(kept@), self.next_panel_id),
                -1 <= last < index,
                kept@.len() > 0 ==> 0 <= last && kept@.last().id == before[last].id,
                forall|k: int| 0 <= k < kept@.len() ==> #[trigger] kept@[k].id != id,
            decreases before.len() - index,
        {
            let panel = &self.panels[index];
            proof {
                assert(before.take(index + 1).drop_last() =~= before.take(index as int));
                reveal(Seq::filter);
                assert(panel_ids(before)[index as int] == panel.id);
                if kept@.len() > 0 {
                    assert(panel_ids(before)[last] < panel_ids(before)[index as int]);
                }
            }
            if panel.id != id {
                let ghost earlier = kept@;
                kept.push(PanelRecord {
                    id: panel.id,
                    modal_open: panel.modal_open,
                    last_modal_result: panel.last_modal_result,
                });
                proof {
                    assert(panel_ids(kept@) =~= panel_ids(earlier).push(panel.id));
                    let ids = panel_ids(kept@);
                    let n = earlier.len() as int;
                    assert forall|i: int, j: int| 0 <= i < j < ids.len() implies ids[i] < ids[j] by {
                        if j == n {
                            assert(ids[i] == panel_ids(earlier)[i]);
                            if i < n - 1 {
                                assert(panel_ids(earlier)[i] < panel_ids(earlier)[n - 1]);
                            }
                            assert(panel_ids(earlier)[n - 1] == earlier.last().id);
                        } else {
                            assert(ids[i] == panel_ids(earlier)[i] && ids[j] == panel_ids(earlier)[j]);
                        }
                    }
                    assert forall|i: int| 0 <= i < ids.len() implies ids[i] < self.next_panel_id by {
                        if i < n {
                            assert(ids[i] == panel_ids(earlier)[i]);
                        }
                    }
                    last = index as int;
                }
            }
            index = index + 1;
        }
        proof {
            assert(before.take(before.len() as int) =~= before);
        }
        self.panels = kept;
        self.layout_modified = true;
        self.project_modified = true;
        proof {
            if panel_ids(self.panels@).contains(id) {
                let k = choose|k: int| 0 <= k < panel_ids(self.panels@).len() && panel_ids(self.panels@)[k] == id;
                assert(self.panels@[k].id == id);
            }
        }
    }
}

/// Increasing ids are unique: the id at `position` is found there.
proof fn lemma_fresh_position(ids: Seq<u32>, next: u32, position: int)
    requires
        fresh_ids(ids, next),
        0 <= position < ids.len(),
    ensures
        ids.contains(ids[position]),
        ids.index_of(ids[position]) == position,
{
    assert(ids[position] == ids[position]);
    let found = ids.index_of(ids[position]);
    if found != position {
        if found < position {
            assert(ids[found] < ids[position]);
        } else {
            assert(ids[position] < ids[found]);
        }
    }
}

/// Taking one id out keeps the rest increasing.
proof fn lemma_fresh_remove(ids: Seq<u32>, next: u32, position: int)
    requires
        fresh_ids(ids, next),
        0 <= position < ids.len(),
    ensures
        fresh_ids(ids.remove(position), next),
        !ids.remove(position).contains(ids[position]),
        forall|other: u32| other != ids[position] ==> (#[trigger] ids.remove(position).contains(other) == ids.contains(
            other,
        )),
{
    let rest = ids.remove(position);
    assert forall|i: int, j: int| 0 <= i < j < rest.len() implies rest[i] < rest[j] by {
        let a = if i < position { i } else { i + 1 };
        let b = if j < position { j } else { j + 1 };
        assert(rest[i] == ids[a] && rest[j] == ids[b]);
    }
    assert forall|i: int| 0 <= i < rest.len() implies rest[i] < next by {
        let a = if i < position { i } else { i + 1 };
        assert(rest[i] == ids[a]);
    }
    if rest.contains(ids[position]) {
        let k = choose|k: int| 0 <= k < rest.len() && rest[k] == ids[position];
        let a = if k < position { k } else { k + 1 };
        assert(rest[k] == ids[a]);
        if a < position {
            assert(ids[a] < ids[position]);
        } else {
            assert(ids[position] < ids[a]);
        }
    }
    assert forall|other: u32| other != ids[position] implies (#[trigger] rest.contains(other) == ids.contains(other)) by {
        if rest.contains(other) {
            let k = choose|k: int| 0 <= k < rest.len() && rest[k] == other;
            let a = if k < position { k } else { k + 1 };
            assert(ids[a] == other);
        }
        if ids.contains(other) {
            let k = choose|k: int| 0 <= k < ids.len() && ids[k] == other;
            assert(k != position);
            let a = if k < position { k } else { k - 1 };
            assert(rest[a] == other);
        }
    }
}

/// The page's part of a panel's dialog request, as plain values.
pub open spec fn modal_shown(modal: ModalRequest) -> (u32, u32, Seq<char>, Seq<char>, Seq<char>, Seq<char>) {
    (modal.id, modal.panel_id, modal.title@, modal.body@, modal.confirm_text@, modal.cancel_text@)
}

impl PageBoard {
    /// Shows a toast with the next toast id; returns that id (the page takes
    /// the toast down by it after its time).
    pub fn push_toast(&mut self, text: &str, kind: ToastKind) -> (id: u32)
        requires
            old(self).wf(),
            old(self).next_toast_id < u32::MAX,
        ensures
            final(self).wf(),
            id == old(self).next_toast_id,
            final(self).next_toast_id == old(self).next_toast_id + 1,
            final(self).toasts@.drop_last() == old(self).toasts@,
            final(self).toasts@.last().id == id,
            final(self).toasts@.last().text@ == text@,
            final(self).toasts@.last().kind == kind,
            final(self).panels@ == old(self).panels@,
            final(self).next_panel_id == old(self).next_panel_id,
            final(self).modals@ == old(self).modals@,
            final(self).next_modal_id == old(self).next_modal_id,
            final(self).layout_name@ == old(self).layout_name@,
            final(self).layout_modified == old(self).layout_modified,
            final(self).project_modified == old(self).project_modified,
    {
        let id = self.next_toast_id;
        self.next_toast_id = id + 1;
        let ghost before = toast_ids(self.toasts@);
        self.toasts.push(Toast { id, text: String::from_str(text), kind });
        proof {
            assert(toast_ids(self.toasts@) =~= before.push(id));
            assert(self.toasts@.drop_last() =~= old(self).toasts@);
        }
        id
    }

    /// Takes down the toast `id`, if it is up.
    pub fn dismiss_toast(&mut self, id: u32)
        requires
            old(self).wf(),
        ensures
            final(self).wf(),
            toast_ids(old(self).toasts@).contains(id) ==> final(self).toasts@ == old(self).toasts@.remove(
                toast_ids(old(self).toasts@).index_of(id),
            ),
            !toast_ids(old(self).toasts@).contains(id) ==> final(self).toasts@ == old(self).toasts@,
            !toast_ids(final(self).toasts@).contains(id),
            final(self).next_toast_id == old(self).next_toast_id,
            final(self).panels@ == old(self).panels@,
            final(self).next_panel_id == old(self).next_panel_id,
            final(self).modals@ == old(self).modals@,
            final(self).next_modal_id == old(self).next_modal_id,
            final(self).layout_name@ == old(self).layout_name@,
            final(self).layout_modified == old(self).layout_modified,
            final(self).project_modified == old(self).project_modified,
    {
        let mut index: usize = 0;
        while index < self.toasts.len()
            invariant
                index <= self.toasts@.len(),
                *self == *old(self),
                old(self).wf(),
                forall|k: int| 0 <= k < index ==> #[trigger] toast_ids(self.toasts@)[k] != id,
            decreases self.toasts@.len() - index,
        {
            if self.toasts[index].id == id {
                let ghost ids = toast_ids(self.toasts@);
                proof {
                    lemma_fresh_position(ids, self.next_toast_id, index as int);
                    lemma_fresh_remove(ids, self.next_toast_id, index as int);
                }
                self.toasts.remove(index);
                proof {
                    assert(toast_ids(self.toasts@) =~= ids.remove(index as int));
                }
                return;
            }
            index = index + 1;
        }
        proof {
            if toast_ids(self.toasts@).contains(id) {
                let k = choose|k: int| 0 <= k < toast_ids(self.toasts@).len() && toast_ids(self.toasts@)[k] == id;
                assert(toast_ids(self.toasts@)[k] != id);
            }
        }
    }

    /// Opens a confirmation dialog for panel `panel_id` under the next
    /// dialog id; returns that id.
    pub fn show_modal(
        &mut self,
        panel_id: u32,
        title: &str,
        body: &str,
        confirm_text: &str,
        cancel_text: &str,
    ) -> (id: u32)
        requires
            old(self).wf(),
            old(self).next_modal_id < u32::MAX,
        ensures
            final(self).wf(),
            id == old(self).next_modal_id,
            final(self).next_modal_id == old(self).next_modal_id + 1,
            final(self).modals@.drop_last() == old(self).modals@,
            modal_shown(final(self).modals@.last()) == (id, panel_id, title@, body@, confirm_text@, cancel_text@),
            final(self).panels@ == old(self).panels@,
            final(self).next_panel_id == old(self).next_panel_id,
            final(self).toasts@ == old(self).toasts@,
            final(self).next_toast_id == old(self).next_toast_id,
            final(self).layout_name@ == old(self).layout_name@,
            final(self).layout_modified == old(self).layout_modified,
            final(self).project_modified == old(self).project_modified,
    {
        let id = self.next_modal_id;
        self.next_modal_id = id + 1;
        let ghost before = modal_ids(self.modals@);
        self.modals.push(
            ModalRequest {
                id,
                panel_id,
                title: String::from_str(title),
                body: String::from_str(body),
                confirm_text: String::from_str(confirm_text),
                cancel_text: String::from_str(cancel_text),
            },
        );
        proof {
            assert(modal_ids(self.modals@) =~= before.push(id));
            assert(self.modals@.drop_last() =~= old(self).modals@);
        }
        id
    }
}

/// The layout a page's panels make up: its name and a template per panel.
pub open spec fn layout_of(board: PageBoard) -> (Seq<char>, Seq<Seq<char>>) {
    (board.layout_name@, template_panels(board.panels@.len()))
}

/// What applying `layout` does: the page shows as many fresh panels as the
/// layout lists, under the next ids, takes its name, and the layout counts as
/// unmodified.
pub open spec fn applied(before: PageBoard, layout: WindowLayout, after: PageBoard) -> bool {
    let count = layout.panels@.len();
    &&& panel_ids(after.panels@) == Seq::new(count, |i: int| (before.next_panel_id + i) as u32)
    &&& forall|i: int| 0 <= i < count ==> !(#[trigger] after.panels@[i]).modal_open && after.panels@[i].last_modal_result is None
    &&& after.next_panel_id == before.next_panel_id + count
    &&& after.layout_name@ == layout.layout_name@
    &&& !after.layout_modified
    &&& after.project_modified == before.project_modified
    &&& after.toasts@ == before.toasts@
    &&& after.next_toast_id == before.next_toast_id
    &&& after.modals@ == before.modals@
    &&& after.next_modal_id == before.next_modal_id
}

impl PageBoard {
    /// The layout the page's panels make up.
    pub fn current_layout(&self) -> (layout: WindowLayout)
        ensures
            (layout.layout_name@, names(layout.panels@)) == layout_of(*self),
    {
        let mut panels: Vec<String> = Vec::new();
        let mut index: usize = 0;
        while index < self.panels.len()
            invariant
                index <= self.panels@.len(),
                names(panels@) == template_panels(index as nat),
            decreases self.panels@.len() - index,
        {
            let ghost earlier = names(panels@);
            panels.push(String::from_str("Template"));
            assert(names(panels@) =~= earlier.push("Template"@));
            assert(earlier.push("Template"@) =~= template_panels((index + 1) as nat));
            index = index + 1;
        }
        WindowLayout { layout_name: self.layout_name.clone(), panels }
    }

    /// Shows `layout` (see `applied`).
    pub fn apply_layout(&mut self, layout: &WindowLayout)
        requires
            old(self).wf(),
            old(self).next_panel_id + layout.panels@.len() <= u32::MAX,
        ensures
            final(self).wf(),
            applied(*old(self), *layout, *final(self)),
    {
        let start = self.next_panel_id;
        self.panels = Vec::new();
        proof {
            assert(panel_ids(self.panels@) =~= Seq::<u32>::empty());
        }
        let mut index: usize = 0;
        while index < layout.panels.len()
            invariant
                index <= layout.panels@.len(),
                self.wf(),
                start + layout.panels@.len() <= u32::MAX,
                self.next_panel_id == start + index,
                panel_ids(self.panels@) == Seq::new(index as nat, |i: int| (start + i) as u32),
                forall|i: int| 0 <= i < index ==> !(#[trigger] self.panels@[i]).modal_open
                    && self.panels@[i].last_modal_result is None,
                self.toasts@ == old(self).toasts@,
                self.next_toast_id == old(self).next_toast_id,
                self.modals@ == old(self).modals@,
                self.next_modal_id == old(self).next_modal_id,
                self.layout_name@ == old(self).layout_name@,
                self.project_modified == old(self).project_modified,
            decreases layout.panels@.len() - index,
        {
            let ghost before = self.panels@;
            self.add_panel();
            proof {
                assert(panel_ids(self.panels@) =~= Seq::new((index + 1) as nat, |i: int| (start + i) as u32));
                assert forall|i: int| 0 <= i < index + 1 implies !(#[trigger] self.panels@[i]).modal_open
                    && self.panels@[i].last_modal_result is None by {
                    if i < index {
                        assert(self.panels@.drop_last()[i] == before[i]);
                    }
                }
            }
            index = index + 1;
        }
        self.layout_name = layout.layout_name.clone();
        self.layout_modified = false;
    }

    /// Opens the template's confirmation dialog for panel `panel_id`,
    /// unless that panel awaits an answer already; returns the dialog's id
    /// when it opened one.
    pub fn request_confirmation(&mut self, panel_id: u32) -> (opened: Option<u32>)
        requires
            old(self).wf(),
            old(self).next_modal_id < u32::MAX,
        ensures
            final(self).wf(),
            final(self).toasts@ == old(self).toasts@,
            final(self).layout_name@ == old(self).layout_name@,
            panel_ids(final(self).panels@) == panel_ids(old(self).panels@),
            (exists|i: int| 0 <= i < old(self).panels@.len() && old(self).panels@[i].id == panel_id
                && old(self).panels@[i].modal_open) ==> opened is None && *final(self) == *old(self),
            !(exists|i: int| 0 <= i < old(self).panels@.len() && old(self).panels@[i].id == panel_id
                && old(self).panels@[i].modal_open) ==> {
                &&& opened == Some(old(self).next_modal_id)
                &&& final(self).modals@.drop_last() == old(self).modals@
                &&& modal_shown(final(self).modals@.last()) == (
                    old(self).next_modal_id,
                    panel_id,
                    "Template Modal"@,
                    "Confirm the template action?"@,
                    "Yes, proceed"@,
                    "No, cancel"@,
                )
                &&& forall|i: int| 0 <= i < final(self).panels@.len() ==> (#[trigger] final(self).panels@[i]).modal_open == (
                    old(self).panels@[i].modal_open || old(self).panels@[i].id == panel_id)
            },
    {
        let mut index: usize = 0;
        while index < self.panels.len()
            invariant
                index <= self.panels@.len(),
                *self == *old(self),
                old(self).wf(),
                forall|k: int| 0 <= k < index ==> #[trigger] self.panels@[k].id != panel_id,
            ensures
                index <= self.panels@.len(),
                *self == *old(self),
                forall|k: int| 0 <= k < index ==> #[trigger] self.panels@[k].id != panel_id,
                index < self.panels@.len() ==> self.panels@[index as int].id == panel_id,
            decreases self.panels@.len() - index,
        {
            if self.panels[index].id == panel_id {
                break;
            }
            index = index + 1;
        }
        if index < self.panels.len() {
            if self.panels[index].modal_open {
                assert(self.panels@[index as int].id == panel_id && self.panels@[index as int].modal_open);
                return None;
            }
            let last = self.panels[index].last_modal_result;
            let ghost before = self.panels@;
            self.panels.set(index, PanelRecord { id: panel_id, modal_open: true, last_modal_result: last });
            proof {
                assert(panel_ids(self.panels@) =~= panel_ids(before));
                assert forall|i: int| 0 <= i < before.len() && i != index implies before[i].id != panel_id by {
                    lemma_fresh_position(panel_ids(before), self.next_panel_id, index as int);
                    if i < index {
                        assert(panel_ids(before)[i] < panel_ids(before)[index as int]);
                    } else {
                        assert(panel_ids(before)[index as int] < panel_ids(before)[i]);
                    }
                }
            }
        }
        let id = self.show_modal(panel_id, "Template Modal", "Confirm the template action?", "Yes, proceed", "No, cancel");
        Some(id)
    }

    /// Answers the dialog `modal_id`: its panel records the answer and no
    /// longer awaits one, and the dialog closes.
    pub fn resolve_modal(&mut self, modal_id: u32, confirmed: bool)
        requires
            old(self).wf(),
        ensures
            final(self).wf(),
            !modal_ids(final(self).modals@).contains(modal_id),
            modal_ids(old(self).modals@).contains(modal_id) ==> final(self).modals@ == old(self).modals@.remove(
                modal_ids(old(self).modals@).index_of(modal_id),
            ),
            !modal_ids(old(self).modals@).contains(modal_id) ==> *final(self) == *old(self),
            panel_ids(final(self).panels@) == panel_ids(old(self).panels@),
            modal_ids(old(self).modals@).contains(modal_id) ==> forall|i: int|
                0 <= i < final(self).panels@.len() ==> if old(self).panels@[i].id == old(self).modals@[modal_ids(
                    old(self).modals@,
                ).index_of(modal_id)].panel_id {
                    !(#[trigger] final(self).panels@[i]).modal_open && final(self).panels@[i].last_modal_result
                        == Some(confirmed)
                } else {
                    final(self).panels@[i] == old(self).panels@[i]
                },
            final(self).toasts@ == old(self).toasts@,
            final(self).next_modal_id == old(self).next_modal_id,
            final(self).layout_name@ == old(self).layout_name@,
    {
        let mut position: usize = 0;
        while position < self.modals.len()
            invariant
                position <= self.modals@.len(),
                *self == *old(self),
                old(self).wf(),
                forall|k: int| 0 <= k < position ==> #[trigger] modal_ids(self.modals@)[k] != modal_id,
            ensures
                position <= self.modals@.len(),
                *self == *old(self),
                forall|k: int| 0 <= k < position ==> #[trigger] modal_ids(self.modals@)[k] != modal_id,
                position < self.modals@.len() ==> modal_ids(self.modals@)[position as int] == modal_id,
            decreases self.modals@.len() - position,
        {
            if self.modals[position].id == modal_id {
                break;
            }
            position = position + 1;
        }
        if position == self.modals.len() {
            proof {
                if modal_ids(self.modals@).contains(modal_id) {
                    let k = choose|k: int| 0 <= k < modal_ids(self.modals@).len() && modal_ids(self.modals@)[k] == modal_id;
                    assert(modal_ids(self.modals@)[k] != modal_id);
                }
            }
            return;
        }
        let panel_id = self.modals[position].panel_id;
        let ghost ids = modal_ids(self.modals@);
        proof {
            lemma_fresh_position(ids, self.next_modal_id, position as int);
            lemma_fresh_remove(ids, self.next_modal_id, position as int);
        }
        let mut index: usize = 0;
        let ghost before = self.panels@;
        while index < self.panels.len()
            invariant
                index <= self.panels@.len(),
                self.panels@.len() == before.len(),
                panel_ids(self.panels@) == panel_ids(before),
                forall|i: int| 0 <= i < self.panels@.len() ==> if before[i].id == panel_id && i < index {
                    !(#[trigger] self.panels@[i]).modal_open && self.panels@[i].last_modal_result == Some(confirmed)
                } else {
                    self.panels@[i] == before[i]
                },
                self.modals@ == old(self).modals@,
                self.toasts@ == old(self).toasts@,
                self.next_modal_id == old(self).next_modal_id,
                self.next_panel_id == old(self).next_panel_id,
                self.next_toast_id == old(self).next_toast_id,
                self.layout_name@ == old(self).layout_name@,
                old(self).wf(),
                before == old(self).panels@,
            decreases self.panels@.len() - index,
        {
            if self.panels[index].id == panel_id {
                let ghost current = self.panels@;
                self.panels.set(index, PanelRecord { id: panel_id, modal_open: false, last_modal_result: Some(confirmed) });
                proof {
                    assert(panel_ids(self.panels@) =~= panel_ids(current));
                }
            }
            index = index + 1;
        }
        self.modals.remove(position);
        proof {
            assert(modal_ids(self.modals@) =~= ids.remove(position as int));
        }
    }
}

/// Applying a layout the page reported gives it back: after `applied`, the
/// page reports the layout's name and one template panel per panel the
/// layout listed.
pub proof fn lemma_layouts_round_trip(before: PageBoard, layout: WindowLayout, after: PageBoard)
    requires
        applied(before, layout, after),
    ensures
        layout_of(after) == (layout.layout_name@, template_panels(layout.panels@.len())),
        names(layout.panels@) == template_panels(layout.panels@.len()) ==> layout_of(after) == (
            layout.layout_name@,
            names(layout.panels@),
        ),
{
    assert(panel_ids(after.panels@).len() == after.panels@.len());
}


impl PageBoard {
    /// The layout was saved: it counts as unmodified.
    pub fn layout_saved(&mut self)
        ensures
            *final(self) == (PageBoard { layout_modified: false, ..*old(self) }),
    {
        self.layout_modified = false;
    }

    /// A layout file was loaded: the page shows it (see `applied`), and the
    /// project counts as modified.
    pub fn load_layout(&mut self, layout: &WindowLayout)
        requires
            old(self).wf(),
            old(self).next_panel_id + layout.panels@.len() <= u32::MAX,
        ensures
            final(self).wf(),
            applied(*old(self), *layout, PageBoard { project_modified: old(self).project_modified, ..*final(self) }),
            final(self).project_modified,
    {
        self.apply_layout(layout);
        self.project_modified = true;
    }

    /// The layout was reset: the page shows one template panel under the
    /// default layout name, and the project counts as modified.
    pub fn reset_layout(&mut self)
        requires
            old(self).wf(),
            old(self).next_panel_id < u32::MAX,
        ensures
            final(self).wf(),
            layout_of(*final(self)) == ("Default Layout"@, template_panels(1)),
            final(self).next_panel_id == old(self).next_panel_id + 1,
            !final(self).layout_modified,
            final(self).project_modified,
            final(self).toasts@ == old(self).toasts@,
            final(self).modals@ == old(self).modals@,
    {
        let mut panels: Vec<String> = Vec::new();
        panels.push(String::from_str("Template"));
        let layout = WindowLayout { layout_name: String::from_str("Default Layout"), panels };
        self.apply_layout(&layout);
        self.project_modified = true;
        proof {
            assert(panel_ids(self.panels@).len() == self.panels@.len());
            assert(self.panels@.len() == 1);
        }
    }

    /// The layout's name was edited to `value`: a name that is not empty is
    /// taken, and the layout and the project count as modified; an empty one
    /// changes nothing.
    pub fn rename_layout(&mut self, value: String)
        ensures
            value@.len() > 0 ==> *final(self) == (PageBoard {
                layout_name: value,
                layout_modified: true,
                project_modified: true,
                ..*old(self)
            }),
            value@.len() == 0 ==> *final(self) == *old(self),
    {
        if value.unicode_len() > 0 {
            self.layout_name = value;
            self.layout_modified = true;
            self.project_modified = true;
        }
    }
}

} // verus!
