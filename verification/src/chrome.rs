//! The bar at the top of a demo window: its project menu, and which of its
//! nodes show while a name is edited. Nodes are known by their ids.
use crate::project::{PROJECT_MENU_CLEAR_RECENT, PROJECT_MENU_RECENT_BASE};
use crate::settings::{text_view, UserSettings};
use crate::spawn::{lemma_precedes_total, lemma_precedes_transitive, name_precedes, precedes};
use crate::topics::names;
use vstd::prelude::*;

verus! {

/// An entry of a menu.
pub enum MenuEntry {
    Item { label: String, tag: u32 },
    Separator,
}

pub open spec fn entry_view(entry: MenuEntry) -> Option<(Seq<char>, u32)> {
    match entry {
        MenuEntry::Item { label, tag } => Some((label@, tag)),
        MenuEntry::Separator => None,
    }
}

pub open spec fn menu_view(entries: Seq<MenuEntry>) -> Seq<Option<(Seq<char>, u32)>> {
    entries.map_values(|entry: MenuEntry| entry_view(entry))
}

/// The entries every project menu starts with.
pub open spec fn fixed_project_entries() -> Seq<Option<(Seq<char>, u32)>> {
    seq![
        Some(("New Project"@, 1u32)),
        Some(("Load Project..."@, 2u32)),
        None,
        Some(("Save As Project..."@, 3u32)),
        Some(("Save Project"@, 4u32)),
        None,
        Some(("Set as Startup Project"@, 5u32)),
        Some(("Unset Startup Project"@, 6u32)),
    ]
}

/// The label of a recent project named `name`.
pub open spec fn recent_label(name: Seq<char>, startup: bool) -> Seq<char> {
    if startup {
        "Open: "@ + name + " (startup)"@
    } else {
        "Open: "@ + name
    }
}

/// The entries of the recent projects at `paths`, named `listed`.
pub open spec fn recent_entries(paths: Seq<Seq<char>>, listed: Seq<Seq<char>>, startup: Option<Seq<char>>) -> Seq<
    Option<(Seq<char>, u32)>,
> {
    Seq::new(
        paths.len(),
        |i: int| Some((recent_label(listed[i], startup == Some(paths[i])), (PROJECT_MENU_RECENT_BASE + i) as u32)),
    )
}

/// The project menu: the fixed entries, then, when there are recent
/// projects, one entry for each and one that clears them.
pub open spec fn project_menu(paths: Seq<Seq<char>>, listed: Seq<Seq<char>>, startup: Option<Seq<char>>) -> Seq<
    Option<(Seq<char>, u32)>,
> {
    if paths.len() == 0 {
        fixed_project_entries()
    } else {
        fixed_project_entries() + seq![None] + recent_entries(paths, listed, startup) + seq![
            None,
            Some(("Clear Recent Projects"@, PROJECT_MENU_CLEAR_RECENT)),
        ]
    }
}

fn item(label: &str, tag: u32) -> (entry: MenuEntry)
    ensures
        entry_view(entry) == Some((label@, tag)),
{
    MenuEntry::Item { label: String::from_str(label), tag }
}

/// Whether two optional texts are equal.
fn same_text(first: &Option<String>, second: &Option<String>) -> (same: bool)
    ensures
        same == (text_view(*first) == text_view(*second)),
{
    match (first, second) {
        (Some(a), Some(b)) => *a == *b,
        (None, None) => true,
        _ => false,
    }
}

/// The project menu for `settings`, its recent projects listed under
/// `listed` (their names, one for each); also the paths of the recent
/// entries, in order.
pub fn project_menu_builder(settings: &UserSettings, listed: &Vec<String>) -> (menu: (Vec<MenuEntry>, Vec<String>))
    requires
        listed@.len() == settings.recent_projects@.len(),
        settings.recent_projects@.len() + PROJECT_MENU_RECENT_BASE <= u32::MAX,
    ensures
        menu_view(menu.0@) == project_menu(settings.recent(), names(listed@), text_view(settings.default_project_path)),
        names(menu.1@) == settings.recent(),
{
    let mut entries: Vec<MenuEntry> = Vec::new();
    entries.push(item("New Project", 1));
    entries.push(item("Load Project...", 2));
    entries.push(MenuEntry::Separator);
    entries.push(item("Save As Project...", 3));
    entries.push(item("Save Project", 4));
    entries.push(MenuEntry::Separator);
    entries.push(item("Set as Startup Project", 5));
    entries.push(item("Unset Startup Project", 6));
    assert(menu_view(entries@) =~= fixed_project_entries());
    let mut paths: Vec<String> = Vec::new();
    let ghost recent = settings.recent();
    let ghost names_listed = names(listed@);
    let ghost startup = text_view(settings.default_project_path);
    if settings.recent_projects.len() > 0 {
        entries.push(MenuEntry::Separator);
        let ghost head = menu_view(entries@);
        let mut index: usize = 0;
        while index < settings.recent_projects.len()
            invariant
                index <= settings.recent_projects@.len(),
                listed@.len() == settings.recent_projects@.len(),
                settings.recent_projects@.len() + PROJECT_MENU_RECENT_BASE <= u32::MAX,
                recent == settings.recent(),
                names_listed == names(listed@),
                startup == text_view(settings.default_project_path),
                head == fixed_project_entries() + seq![None],
                menu_view(entries@) == head + recent_entries(recent, names_listed, startup).take(index as int),
                names(paths@) == recent.take(index as int),
            decreases settings.recent_projects@.len() - index,
        {
            let path = &settings.recent_projects[index];
            let is_startup = match &settings.default_project_path {
                Some(startup_path) => *startup_path == *path,
                None => false,
            };
            let mut label = String::from_str("Open: ");
            label.append(listed[index].as_str());
            if is_startup {
                label.append(" (startup)");
            }
            let ghost before = menu_view(entries@);
            let ghost before_paths = names(paths@);
            entries.push(MenuEntry::Item { label, tag: PROJECT_MENU_RECENT_BASE + index as u32 });
            paths.push(path.clone());
            proof {
                assert(is_startup == (startup == Some(recent[index as int])));
                assert(menu_view(entries@) =~= before.push(
                    recent_entries(recent, names_listed, startup)[index as int],
                ));
                assert(recent_entries(recent, names_listed, startup).take(index + 1) =~= recent_entries(
                    recent,
                    names_listed,
                    startup,
                ).take(index as int).push(recent_entries(recent, names_listed, startup)[index as int]));
                assert(names(paths@) =~= before_paths.push(recent[index as int]));
                assert(recent.take(index + 1) =~= recent.take(index as int).push(recent[index as int]));
            }
            index = index + 1;
        }
        let ghost listed_part = menu_view(entries@);
        entries.push(MenuEntry::Separator);
        entries.push(item("Clear Recent Projects", PROJECT_MENU_CLEAR_RECENT));
        proof {
            assert(recent_entries(recent, names_listed, startup).take(recent.len() as int) =~= recent_entries(
                recent,
                names_listed,
                startup,
            ));
            assert(menu_view(entries@) =~= project_menu(recent, names_listed, startup));
            assert(recent.take(recent.len() as int) =~= recent);
        }
    } else {
        assert(names(paths@) =~= recent);
    }
    (entries, paths)
}

/// A node to show or hide.
#[derive(Debug, Clone, Copy, PartialEq, Eq, Structural)]
pub struct Visibility {
    pub node: u64,
    pub visible: bool,
}

/// The window's bar: the ids of its nodes, the paths behind the project
/// menu's recent entries, and what the menu was last built from.
pub struct Chrome {
    pub menu_parent: u64,
    pub project_button: u64,
    pub project_menu: u64,
    pub menu_recent_paths: Vec<String>,
    pub menu_signature: (Vec<String>, Option<String>),
    pub project_label: u64,
    pub project_edit_button: u64,
    pub project_edit_input: u64,
    pub project_edit_ok: u64,
    pub project_edit_cancel: u64,
    pub editing_project: bool,
    pub layout_button: u64,
    pub layout_menu: u64,
    pub layout_label: u64,
    pub layout_edit_button: u64,
    pub layout_edit_input: u64,
    pub layout_edit_ok: u64,
    pub layout_edit_cancel: u64,
    pub editing_layout: bool,
    pub view_button: u64,
    pub view_menu: u64,
    pub new_window_button: u64,
    pub add_panel_button: u64,
    pub fps_label: u64,
    pub address_label: u64,
    pub role_label: u64,
    pub theme_dropdown: u64,
    pub rendered_connected: Option<bool>,
}

/// The nodes to show and hide when a name edit starts (`editing`) or ends:
/// the label and its edit button swap with the input and its buttons.
pub open spec fn editing_changes(label: u64, button: u64, input: u64, ok: u64, cancel: u64, editing: bool) -> Seq<
    Visibility,
> {
    seq![
        Visibility { node: label, visible: !editing },
        Visibility { node: button, visible: !editing },
        Visibility { node: input, visible: editing },
        Visibility { node: ok, visible: editing },
        Visibility { node: cancel, visible: editing },
    ]
}

fn editing_visibility(label: u64, button: u64, input: u64, ok: u64, cancel: u64, editing: bool) -> (changes: Vec<
    Visibility,
>)
    ensures
        changes@ == editing_changes(label, button, input, ok, cancel, editing),
{
    let mut changes: Vec<Visibility> = Vec::new();
    changes.push(Visibility { node: label, visible: !editing });
    changes.push(Visibility { node: button, visible: !editing });
    changes.push(Visibility { node: input, visible: editing });
    changes.push(Visibility { node: ok, visible: editing });
    changes.push(Visibility { node: cancel, visible: editing });
    assert(changes@ =~= editing_changes(label, button, input, ok, cancel, editing));
    changes
}

impl Chrome {
    /// Starts or ends editing the project's name; returns the nodes to show
    /// and hide. (The window fills and focuses the input when editing
    /// starts.)
    pub fn set_project_editing(&mut self, editing: bool) -> (changes: Vec<Visibility>)
        ensures
            *final(self) == (Chrome { editing_project: editing, ..*old(self) }),
            changes@ == editing_changes(
                old(self).project_label,
                old(self).project_edit_button,
                old(self).project_edit_input,
                old(self).project_edit_ok,
                old(self).project_edit_cancel,
                editing,
            ),
    {
        self.editing_project = editing;
        editing_visibility(
            self.project_label,
            self.project_edit_button,
            self.project_edit_input,
            self.project_edit_ok,
            self.project_edit_cancel,
            editing,
        )
    }

    /// Starts or ends editing the layout's name; returns the nodes to show
    /// and hide.
    pub fn set_layout_editing(&mut self, editing: bool) -> (changes: Vec<Visibility>)
        ensures
            *final(self) == (Chrome { editing_layout: editing, ..*old(self) }),
            changes@ == editing_changes(
                old(self).layout_label,
                old(self).layout_edit_button,
                old(self).layout_edit_input,
                old(self).layout_edit_ok,
                old(self).layout_edit_cancel,
                editing,
            ),
    {
        self.editing_layout = editing;
        editing_visibility(
            self.layout_label,
            self.layout_edit_button,
            self.layout_edit_input,
            self.layout_edit_ok,
            self.layout_edit_cancel,
            editing,
        )
    }

    /// Whether the project menu was built from other settings than these.
    pub fn needs_menu_rebuild(&self, settings: &UserSettings) -> (stale: bool)
        ensures
            stale == !(names(self.menu_signature.0@) == settings.recent() && text_view(self.menu_signature.1)
                == text_view(settings.default_project_path)),
    {
        let same_paths = same_names(&self.menu_signature.0, &settings.recent_projects);
        let same_startup = same_text(&self.menu_signature.1, &settings.default_project_path);
        !(same_paths && same_startup)
    }

    /// Records the project menu just built as `menu` for `settings`, with
    /// the paths of its recent entries.
    pub fn record_project_menu(&mut self, menu: u64, recent_paths: Vec<String>, settings: &UserSettings)
        ensures
            final(self).project_menu == menu,
            final(self).menu_recent_paths == recent_paths,
            names(final(self).menu_signature.0@) == settings.recent(),
            text_view(final(self).menu_signature.1) == text_view(settings.default_project_path),
            final(self).editing_project == old(self).editing_project,
            final(self).editing_layout == old(self).editing_layout,
    {
        self.project_menu = menu;
        self.menu_recent_paths = recent_paths;
        let startup = match &settings.default_project_path {
            Some(path) => Some(path.clone()),
            None => None,
        };
        self.menu_signature = (crate::topics::copy_names(&settings.recent_projects), startup);
    }
}

/// The floating window in which a bus message can be composed and sent:
/// the ids of its nodes, and whether it shows.
pub struct ApiPanel {
    pub panel: u64,
    pub dropdown: u64,
    pub text_area: u64,
    pub send_button: u64,
    pub status_label: u64,
    pub visible: bool,
}

impl ApiPanel {
    /// Shows the panel if it was hidden, hides it if it showed; returns the
    /// change to make.
    pub fn toggle(&mut self) -> (change: Visibility)
        ensures
            final(self).visible == !old(self).visible,
            final(self).panel == old(self).panel,
            change == (Visibility { node: old(self).panel, visible: !old(self).visible }),
    {
        self.visible = !self.visible;
        Visibility { node: self.panel, visible: self.visible }
    }
}

/// Whether two lists of names are equal.
fn same_names(first: &Vec<String>, second: &Vec<String>) -> (same: bool)
    ensures
        same == (names(first@) == names(second@)),
{
    if first.len() != second.len() {
        assert(names(first@).len() != names(second@).len());
        return false;
    }
    let mut index: usize = 0;
    while index < first.len()
        invariant
            first@.len() == second@.len(),
            index <= first@.len(),
            forall|j: int| 0 <= j < index ==> names(first@)[j] == names(second@)[j],
        decreases first@.len() - index,
    {
        if first[index] != second[index] {
            assert(names(first@)[index as int] != names(second@)[index as int]);
            return false;
        }
        index = index + 1;
    }
    assert(names(first@) =~= names(second@));
    true
}


/// The row selected in the widget picker's list of `count` rows after this
/// frame's arrow keys: first kept within the list, then one row down when
/// `down` was pressed and a row lies below, then one row up when `up` was
/// pressed and a row lies above.
pub open spec fn picker_selection_spec(count: nat, selected: nat, down: bool, up: bool) -> nat {
    let kept = if selected >= count {
        (count - 1) as nat
    } else {
        selected
    };
    let lowered = if down && kept + 1 < count {
        kept + 1
    } else {
        kept
    };
    if up && lowered > 0 {
        (lowered - 1) as nat
    } else {
        lowered
    }
}

/// The row selected in the widget picker after this frame's arrow keys.
pub fn picker_selection(count: usize, selected: usize, down: bool, up: bool) -> (next: usize)
    requires
        count > 0,
    ensures
        next == picker_selection_spec(count as nat, selected as nat, down, up),
        next < count,
{
    let mut next = if selected >= count {
        count - 1
    } else {
        selected
    };
    if down && next < count - 1 {
        next = next + 1;
    }
    if up && next > 0 {
        next = next - 1;
    }
    next
}


/// Names what `str::to_lowercase` gives for `text`.
pub uninterp spec fn lowercase(text: Seq<char>) -> Seq<char>;

/// `str::to_lowercase`: `text` in lower case. The result is named
/// (`lowercase`), not stated: it follows the Unicode case tables of std.
#[verifier::external_body]
fn to_lower(text: &str) -> (lower: String)
    ensures
        lower@ == lowercase(text@),
{
    text.to_lowercase()
}

/// Whether `part` occurs in `text`.
pub open spec fn contains_text(text: Seq<char>, part: Seq<char>) -> bool {
    exists|i: int| 0 <= i <= text.len() - part.len() && #[trigger] text.subrange(i, i + part.len()) == part
}

/// Whether the widget picker lists a widget titled `title` while `search` is
/// typed: every widget when nothing is typed, else those whose title, in
/// lower case, holds the search in lower case.
pub open spec fn picker_shows(title: Seq<char>, search: Seq<char>) -> bool {
    search.len() == 0 || contains_text(lowercase(title), lowercase(search))
}

/// Whether `part` occurs in `text`.
pub fn text_contains(text: &str, part: &str) -> (found: bool)
    ensures
        found == contains_text(text@, part@),
{
    let text_length = text.unicode_len();
    let part_length = part.unicode_len();
    if part_length > text_length {
        proof {
            assert(!contains_text(text@, part@));
        }
        return false;
    }
    let mut start: usize = 0;
    while start <= text_length - part_length
        invariant
            text_length == text@.len(),
            part_length == part@.len(),
            part_length <= text_length,
            start <= text_length - part_length + 1,
            forall|i: int| 0 <= i < start ==> #[trigger] text@.subrange(i, i + part@.len()) != part@,
        decreases text_length - part_length + 1 - start,
    {
        let mut index: usize = 0;
        let mut same = true;
        while index < part_length
            invariant
                text_length == text@.len(),
                part_length == part@.len(),
                start + part_length <= text_length,
                index <= part_length,
                same == forall|j: int| 0 <= j < index ==> text@[start + j] == part@[j],
            decreases part_length - index,
        {
            if text.get_char(start + index) != part.get_char(index) {
                same = false;
            }
            index = index + 1;
        }
        if same {
            assert(text@.subrange(start as int, start + part@.len()) =~= part@);
            return true;
        }
        proof {
            let j = choose|j: int| 0 <= j < part_length && !(text@[start + j] == part@[j]);
            assert(text@.subrange(start as int, start + part@.len())[j] != part@[j]);
        }
        start = start + 1;
    }
    proof {
        assert forall|i: int| 0 <= i <= text@.len() - part@.len() implies #[trigger] text@.subrange(i, i + part@.len())
            != part@ by {}
    }
    false
}

/// Whether the picker lists a widget titled `title` while `search` is typed.
pub fn picker_matches(title: &str, search: &str) -> (shown: bool)
    ensures
        shown == picker_shows(title@, search@),
{
    if search.unicode_len() == 0 {
        return true;
    }
    let lower_title = to_lower(title);
    let lower_search = to_lower(search);
    text_contains(lower_title.as_str(), lower_search.as_str())
}

/// `list` ordered by its entries in lower case.
pub open spec fn lowercase_sorted(list: Seq<String>) -> bool {
    forall|i: int, j: int|
        0 <= i < j < list.len() ==> precedes(lowercase(#[trigger] list[i]@), lowercase(#[trigger] list[j]@))
}

/// Orders `list` by its entries in lower case.
pub fn sort_by_lowercase(list: Vec<String>) -> (sorted: Vec<String>)
    ensures
        lowercase_sorted(sorted@),
        sorted@.to_multiset() == list@.to_multiset(),
{
    broadcast use vstd::seq_lib::group_to_multiset_ensures;

    let ghost all = list@;
    let mut rest = list;
    let mut sorted: Vec<String> = Vec::new();
    while rest.len() > 0
        invariant
            lowercase_sorted(sorted@),
            sorted@.to_multiset().add(rest@.to_multiset()) == all.to_multiset(),
        decreases rest@.len(),
    {
        let ghost rest_before = rest@;
        let entry = match rest.pop() {
            Some(entry) => entry,
            None => {
                return sorted;
            },
        };
        proof {
            assert(rest_before =~= rest@.push(entry));
            vstd::seq_lib::to_multiset_build(rest@, entry);
            assert(rest_before.to_multiset() =~= rest@.to_multiset().insert(entry));
        }
        let entry_lower = to_lower(entry.as_str());
        let mut position: usize = 0;
        while position < sorted.len() && name_precedes(to_lower(sorted[position].as_str()).as_str(), entry_lower.as_str())
            invariant
                position <= sorted@.len(),
                entry_lower@ == lowercase(entry@),
                forall|k: int| 0 <= k < position ==> precedes(lowercase(#[trigger] sorted@[k]@), lowercase(entry@)),
            decreases sorted@.len() - position,
        {
            position = position + 1;
        }
        let ghost sorted_before = sorted@;
        proof {
            if position < sorted@.len() {
                lemma_precedes_total(lowercase(sorted@[position as int]@), lowercase(entry@));
            }
        }
        sorted.insert(position, entry);
        proof {
            assert forall|i: int, j: int| 0 <= i < j < sorted@.len() implies precedes(
                lowercase(#[trigger] sorted@[i]@),
                lowercase(#[trigger] sorted@[j]@),
            ) by {
                if j < position {
                    assert(sorted@[i] == sorted_before[i] && sorted@[j] == sorted_before[j]);
                } else if j == position {
                    assert(sorted@[i] == sorted_before[i]);
                } else if i == position {
                    assert(sorted@[j] == sorted_before[j - 1]);
                    if j - 1 > position {
                        lemma_precedes_transitive(
                            lowercase(entry@),
                            lowercase(sorted_before[position as int]@),
                            lowercase(sorted_before[j - 1]@),
                        );
                    }
                } else if i < position {
                    assert(sorted@[i] == sorted_before[i] && sorted@[j] == sorted_before[j - 1]);
                } else {
                    assert(sorted@[i] == sorted_before[i - 1] && sorted@[j] == sorted_before[j - 1]);
                }
            }
            assert(sorted@ == sorted_before.insert(position as int, entry));
            vstd::seq_lib::to_multiset_insert(sorted_before, position as int, entry);
            broadcast use vstd::multiset::group_multiset_axioms;

            assert(sorted@.to_multiset().add(rest@.to_multiset()) =~= sorted_before.to_multiset().add(
                rest_before.to_multiset(),
            ));
        }
    }
    proof {
        assert(rest@ =~= Seq::<String>::empty());
        assert(sorted@.to_multiset().add(rest@.to_multiset()) =~= sorted@.to_multiset());
    }
    sorted
}

/// The widgets the picker lists while `search` is typed, out of `titles`
/// (one per kind of widget): those it shows, ordered by title in lower case.
pub fn picker_entries(titles: &Vec<String>, search: &str) -> (entries: Vec<String>)
    ensures
        lowercase_sorted(entries@),
        entries@.to_multiset() == titles@.filter(|title: String| picker_shows(title@, search@)).to_multiset(),
{
    let mut shown: Vec<String> = Vec::new();
    let mut index: usize = 0;
    while index < titles.len()
        invariant
            index <= titles@.len(),
            shown@ == titles@.take(index as int).filter(|title: String| picker_shows(title@, search@)),
        decreases titles@.len() - index,
    {
        proof {
            assert(titles@.take(index + 1).drop_last() =~= titles@.take(index as int));
            reveal(Seq::filter);
        }
        if picker_matches(titles[index].as_str(), search) {
            shown.push(titles[index].clone());
        }
        index = index + 1;
    }
    proof {
        assert(titles@.take(titles@.len() as int) =~= titles@);
    }
    sort_by_lowercase(shown)
}

} // verus!
