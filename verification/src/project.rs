//! The open project and layout of a demo window: what opening, saving,
//! renaming and closing do to them, and how they are labelled.
use crate::files::{
    tag_layout, tag_layout_save, tag_layout_save_spec, tag_layout_spec, tag_project, tag_project_save,
    tag_project_save_spec, tag_project_spec, FileSystemCommand, FileSystemResult, FileSystemSuccess,
};
use crate::settings::{
    derive_project_name, opened_project_name, recent_after_adding, text_view, untitled_project,
    untitled_project_spec, UserSettings,
};
use crate::shell::{default_layout_name, default_layout_name_spec, window_layout_name, CollectionDestination};
use crate::topics::names;
use crate::window::WindowRole;
use vstd::prelude::*;

verus! {

/// The open project.
pub struct ProjectState {
    pub project_name: String,
    pub is_modified: bool,
    pub project_file_path: Option<String>,
}

impl Default for ProjectState {
    fn default() -> (project: Self)
        ensures
            project.project_name@ == untitled_project_spec(),
            !project.is_modified,
            project.project_file_path is None,
    {
        ProjectState { project_name: untitled_project(), is_modified: false, project_file_path: None }
    }
}

/// The layout the window shows.
pub struct LayoutState {
    pub is_loaded: bool,
    pub layout_name: String,
    pub is_modified: bool,
}

impl Default for LayoutState {
    fn default() -> (layout: Self)
        ensures
            !layout.is_loaded,
            layout.layout_name@ == default_layout_name_spec(),
            !layout.is_modified,
    {
        LayoutState { is_loaded: false, layout_name: default_layout_name(), is_modified: false }
    }
}

/// How a notification looks.
#[derive(Debug, Clone, Copy, PartialEq, Eq, Structural)]
pub enum NotificationKind {
    Info,
    Warning,
    Error,
    Success,
    Empty,
}

impl Default for NotificationKind {
    fn default() -> (kind: Self)
        ensures
            kind is Empty,
    {
        NotificationKind::Empty
    }
}

/// A notification to show, for `seconds`.
pub struct Notice {
    pub text: String,
    pub kind: NotificationKind,
    pub seconds: u32,
}

/// Whether a loaded project with `windows` layouts is opened by a window in
/// `role`: only the primary opens projects, and only ones with a layout.
pub fn should_open_project(role: &WindowRole, windows: usize) -> (open: bool)
    ensures
        open == (*role is Primary && windows > 0),
{
    role.is_primary() && windows > 0
}

pub open spec fn opened_text(name: Seq<char>) -> Seq<char> {
    "Opened project: "@ + name
}

/// A project file at `path` was opened in the primary window: its first
/// window's layout name is recorded (or the default one), the project is
/// named (see `opened_project_name`), unmodified, and remembered under its
/// canonical path among the recent projects.
pub fn open_project(
    project: &mut ProjectState,
    layout: &mut LayoutState,
    settings: &mut UserSettings,
    layout_names: &Vec<String>,
    recorded_name: Option<String>,
    file_stem: Option<String>,
    path: String,
    canonical_path: String,
) -> (notice: Notice)
    ensures
        layout_names@.len() > 0 ==> final(layout).layout_name@ == layout_names@[0]@,
        layout_names@.len() == 0 ==> final(layout).layout_name@ == default_layout_name_spec(),
        final(layout).is_loaded && !final(layout).is_modified,
        final(project).project_name@ == opened_project_name(text_view(recorded_name), text_view(file_stem)),
        final(project).project_file_path == Some(path),
        !final(project).is_modified,
        final(settings).recent() == recent_after_adding(old(settings).recent(), canonical_path@),
        final(settings).default_project_path == old(settings).default_project_path,
        final(settings).theme_name == old(settings).theme_name,
        notice.text@ == opened_text(final(project).project_name@),
        notice.kind == NotificationKind::Success,
        notice.seconds == 3,
{
    layout.layout_name = window_layout_name(layout_names, 0);
    layout.is_loaded = true;
    layout.is_modified = false;
    project.project_name = derive_project_name(recorded_name, file_stem);
    project.project_file_path = Some(path);
    project.is_modified = false;
    settings.add_recent_project(canonical_path);
    let mut text = String::from_str("Opened project: ");
    text.append(project.project_name.as_str());
    Notice { text, kind: NotificationKind::Success, seconds: 3 }
}

pub open spec fn saved_text(path: Seq<char>) -> Seq<char> {
    "Project saved\n"@ + path
}

/// The project was saved to `path`: it and its layout are unmodified, it
/// lives at `path`, which is remembered under its canonical form among the
/// recent projects.
pub fn record_project_saved(
    project: &mut ProjectState,
    layout: &mut LayoutState,
    settings: &mut UserSettings,
    path: String,
    canonical_path: String,
) -> (notice: Notice)
    ensures
        !final(project).is_modified,
        final(project).project_file_path == Some(path),
        final(project).project_name == old(project).project_name,
        !final(layout).is_modified,
        final(layout).layout_name == old(layout).layout_name,
        final(layout).is_loaded == old(layout).is_loaded,
        final(settings).recent() == recent_after_adding(old(settings).recent(), canonical_path@),
        final(settings).default_project_path == old(settings).default_project_path,
        notice.text@ == saved_text(path@),
        notice.kind == NotificationKind::Success,
        notice.seconds == 3,
{
    let mut text = String::from_str("Project saved\n");
    text.append(path.as_str());
    project.is_modified = false;
    project.project_file_path = Some(path);
    layout.is_modified = false;
    settings.add_recent_project(canonical_path);
    Notice { text, kind: NotificationKind::Success, seconds: 3 }
}

pub open spec fn failed_save_text(reason: Seq<char>) -> Seq<char> {
    "Failed to save project: "@ + reason
}

/// Writing the project file to `path` came to `written`: on success the
/// project and layout are unmodified.
pub fn record_project_written(
    project: &mut ProjectState,
    layout: &mut LayoutState,
    path: &String,
    written: Result<(), String>,
) -> (notice: Notice)
    ensures
        written is Ok ==> !final(project).is_modified && !final(layout).is_modified && notice.text@ == saved_text(path@)
            && notice.kind == NotificationKind::Success && notice.seconds == 3,
        written is Ok ==> final(project).project_name == old(project).project_name && final(project).project_file_path
            == old(project).project_file_path && final(layout).layout_name == old(layout).layout_name
            && final(layout).is_loaded == old(layout).is_loaded,
        written matches Err(reason) ==> *final(project) == *old(project) && *final(layout) == *old(layout)
            && notice.text@ == failed_save_text(reason@) && notice.kind == NotificationKind::Error && notice.seconds
            == 5,
{
    match written {
        Ok(()) => {
            project.is_modified = false;
            layout.is_modified = false;
            let mut text = String::from_str("Project saved\n");
            text.append(path.as_str());
            Notice { text, kind: NotificationKind::Success, seconds: 3 }
        },
        Err(reason) => {
            let mut text = String::from_str("Failed to save project: ");
            text.append(reason.as_str());
            Notice { text, kind: NotificationKind::Error, seconds: 5 }
        },
    }
}

/// The command that asks the user where to save a project file.
pub fn project_save_command(bytes: Vec<u8>) -> (command: FileSystemCommand)
    ensures
        command matches FileSystemCommand::SaveFile { tag, bytes: b, filter_name, extensions } && tag@
            == tag_project_save_spec() && b == bytes && filter_name@ == "project"@ && names(extensions@) == seq![
            "project.json"@,
        ],
{
    let mut extensions: Vec<String> = Vec::new();
    extensions.push(String::from_str("project.json"));
    assert(names(extensions@) =~= seq!["project.json"@]);
    FileSystemCommand::SaveFile {
        tag: tag_project_save(),
        bytes,
        filter_name: String::from_str("project"),
        extensions,
    }
}

/// The command that asks the user for a project file to open.
pub fn project_pick_command() -> (command: FileSystemCommand)
    ensures
        command matches FileSystemCommand::PickFile { tag, filter_name, extensions } && tag@ == tag_project_spec()
            && filter_name@ == "project"@ && names(extensions@) == seq!["project.json"@],
{
    let mut extensions: Vec<String> = Vec::new();
    extensions.push(String::from_str("project.json"));
    assert(names(extensions@) =~= seq!["project.json"@]);
    FileSystemCommand::PickFile { tag: tag_project(), filter_name: String::from_str("project"), extensions }
}

/// The command that asks the user where to save a layout file.
pub fn layout_save_command(bytes: Vec<u8>) -> (command: FileSystemCommand)
    ensures
        command matches FileSystemCommand::SaveFile { tag, bytes: b, filter_name, extensions } && tag@
            == tag_layout_save_spec() && b == bytes && filter_name@ == "layout"@ && names(extensions@) == seq![
            "layout.json"@,
        ],
{
    let mut extensions: Vec<String> = Vec::new();
    extensions.push(String::from_str("layout.json"));
    assert(names(extensions@) =~= seq!["layout.json"@]);
    FileSystemCommand::SaveFile { tag: tag_layout_save(), bytes, filter_name: String::from_str("layout"), extensions }
}

/// The command that asks the user for a layout file to open.
pub fn layout_pick_command() -> (command: FileSystemCommand)
    ensures
        command matches FileSystemCommand::PickFile { tag, filter_name, extensions } && tag@ == tag_layout_spec()
            && filter_name@ == "layout"@ && names(extensions@) == seq!["layout.json"@],
{
    let mut extensions: Vec<String> = Vec::new();
    extensions.push(String::from_str("layout.json"));
    assert(names(extensions@) =~= seq!["layout.json"@]);
    FileSystemCommand::PickFile { tag: tag_layout(), filter_name: String::from_str("layout"), extensions }
}

/// A layout file was opened: its name, when it records one, becomes the
/// layout's, which is loaded and unmodified.
pub fn record_layout_loaded(layout: &mut LayoutState, layout_name: Option<String>)
    ensures
        layout_name matches Some(name) ==> final(layout).layout_name == name,
        layout_name is None ==> final(layout).layout_name == old(layout).layout_name,
        final(layout).is_loaded && !final(layout).is_modified,
{
    if let Some(name) = layout_name {
        layout.layout_name = name;
    }
    layout.is_loaded = true;
    layout.is_modified = false;
}

/// A child window was handed the layout `layout_name`.
pub fn record_layout_assigned(layout: &mut LayoutState, layout_name: String)
    ensures
        final(layout).layout_name == layout_name,
        final(layout).is_loaded && !final(layout).is_modified,
{
    layout.layout_name = layout_name;
    layout.is_loaded = true;
    layout.is_modified = false;
}

pub open spec fn layout_saved_text(path: Seq<char>) -> Seq<char> {
    "Layout saved\n"@ + path
}

/// The layout was saved to `path`: it is unmodified.
pub fn record_layout_saved(layout: &mut LayoutState, path: &String) -> (notice: Notice)
    ensures
        !final(layout).is_modified,
        final(layout).layout_name == old(layout).layout_name,
        final(layout).is_loaded == old(layout).is_loaded,
        notice.text@ == layout_saved_text(path@),
        notice.kind == NotificationKind::Success,
        notice.seconds == 3,
{
    layout.is_modified = false;
    let mut text = String::from_str("Layout saved\n");
    text.append(path.as_str());
    Notice { text, kind: NotificationKind::Success, seconds: 3 }
}

/// The primary window closed its project: a fresh untitled project with the
/// default layout, not loaded; a child window does not close projects.
pub fn close_project(project: &mut ProjectState, layout: &mut LayoutState, role: &WindowRole) -> (notice: Option<
    Notice,
>)
    ensures
        !(*role is Primary) ==> notice is None && *final(project) == *old(project) && *final(layout) == *old(layout),
        *role is Primary ==> {
            &&& final(project).project_name@ == untitled_project_spec()
            &&& !final(project).is_modified && final(project).project_file_path is None
            &&& final(layout).layout_name@ == default_layout_name_spec()
            &&& !final(layout).is_loaded && !final(layout).is_modified
            &&& (notice matches Some(n) && n.text@ == "Project closed"@ && n.kind == NotificationKind::Info
                && n.seconds == 3)
        },
{
    if !role.is_primary() {
        return None;
    }
    *project = ProjectState::default();
    *layout = LayoutState::default();
    Some(Notice { text: String::from_str("Project closed"), kind: NotificationKind::Info, seconds: 3 })
}

/// The layout was changed by hand: it and the project are modified.
pub fn mark_layout_changed(layout: &mut LayoutState, project: &mut ProjectState)
    ensures
        final(layout).is_modified && final(layout).is_loaded,
        final(layout).layout_name == old(layout).layout_name,
        final(project).is_modified,
        final(project).project_name == old(project).project_name,
        final(project).project_file_path == old(project).project_file_path,
{
    layout.is_modified = true;
    layout.is_loaded = true;
    project.is_modified = true;
}

/// The layout was reset to the default one: loaded and unmodified, while the
/// project is modified.
pub fn reset_layout(layout: &mut LayoutState, project: &mut ProjectState)
    ensures
        final(layout).layout_name@ == default_layout_name_spec(),
        final(layout).is_loaded && !final(layout).is_modified,
        final(project).is_modified,
        final(project).project_name == old(project).project_name,
        final(project).project_file_path == old(project).project_file_path,
{
    layout.layout_name = default_layout_name();
    layout.is_loaded = true;
    layout.is_modified = false;
    project.is_modified = true;
}

/// The project's name was edited to `text`; an empty text changes nothing.
pub fn commit_project_name(project: &mut ProjectState, text: String)
    ensures
        text@.len() == 0 ==> *final(project) == *old(project),
        text@.len() > 0 ==> final(project).project_name == text && final(project).is_modified
            && final(project).project_file_path == old(project).project_file_path,
{
    if text.unicode_len() > 0 {
        project.project_name = text;
        project.is_modified = true;
    }
}

/// The layout's name was edited to `text`; an empty text changes nothing.
pub fn commit_layout_name(layout: &mut LayoutState, project: &mut ProjectState, text: String)
    ensures
        text@.len() == 0 ==> *final(layout) == *old(layout) && *final(project) == *old(project),
        text@.len() > 0 ==> final(layout).layout_name == text && final(layout).is_modified && final(layout).is_loaded
            == old(layout).is_loaded && final(project).is_modified && final(project).project_name == old(project).project_name && final(project).project_file_path == old(project).project_file_path,
{
    if text.unicode_len() > 0 {
        layout.layout_name = text;
        layout.is_modified = true;
        project.is_modified = true;
    }
}

pub open spec fn or_fallback(text: Seq<char>, fallback: Seq<char>) -> Seq<char> {
    if text.len() == 0 {
        fallback
    } else {
        text
    }
}

pub open spec fn marked(text: Seq<char>, modified: bool) -> Seq<char> {
    if modified {
        text + " *"@
    } else {
        text
    }
}

/// `text`, or `fallback` when it is empty.
fn text_or_fallback(text: &String, fallback: &str) -> (result: String)
    ensures
        result@ == or_fallback(text@, fallback@),
{
    if text.unicode_len() == 0 {
        String::from_str(fallback)
    } else {
        text.clone()
    }
}

/// The project's label in the window's bar: its name (or "Untitled
/// Project"), marked with a star when modified.
pub fn project_label(project: &ProjectState) -> (label: String)
    ensures
        label@ == marked(or_fallback(project.project_name@, untitled_project_spec()), project.is_modified),
{
    let mut label = text_or_fallback(&project.project_name, "Untitled Project");
    if project.is_modified {
        label.append(" *");
    }
    label
}

/// The layout's label in the window's bar: its name (or "Default Layout"),
/// marked with a star when modified.
pub fn layout_label(layout: &LayoutState) -> (label: String)
    ensures
        label@ == marked(or_fallback(layout.layout_name@, default_layout_name_spec()), layout.is_modified),
{
    let mut label = text_or_fallback(&layout.layout_name, "Default Layout");
    if layout.is_modified {
        label.append(" *");
    }
    label
}

/// The text a project-name edit starts from.
pub fn project_edit_text(project: &ProjectState) -> (text: String)
    ensures
        text@ == or_fallback(project.project_name@, untitled_project_spec()),
{
    text_or_fallback(&project.project_name, "Untitled Project")
}

/// The text a layout-name edit starts from.
pub fn layout_edit_text(layout: &LayoutState) -> (text: String)
    ensures
        text@ == or_fallback(layout.layout_name@, "Untitled Layout"@),
{
    text_or_fallback(&layout.layout_name, "Untitled Layout")
}

pub open spec fn window_title_spec(primary: bool, path: Option<Seq<char>>, modified: bool) -> Seq<char> {
    if primary {
        match path {
            Some(p) => if modified {
                "Hearsay Demo - "@ + p + " (*)"@
            } else {
                "Hearsay Demo - "@ + p
            },
            None => "Hearsay Demo"@,
        }
    } else {
        "Hearsay Demo - Window"@
    }
}

/// The window's title: the primary shows the project's file, starred when
/// modified; a child says it is a window.
pub fn window_title(role: &WindowRole, project: &ProjectState) -> (title: String)
    ensures
        title@ == window_title_spec(*role is Primary, text_view(project.project_file_path), project.is_modified),
{
    if role.is_primary() {
        match &project.project_file_path {
            Some(path) => {
                let mut title = String::from_str("Hearsay Demo - ");
                title.append(path.as_str());
                if project.is_modified {
                    title.append(" (*)");
                }
                title
            },
            None => String::from_str("Hearsay Demo"),
        }
    } else {
        String::from_str("Hearsay Demo - Window")
    }
}

/// What a file result means for the open project and layout.
pub enum FileAction {
    /// A project file was read: parse and open it.
    OpenProject { path: String, bytes: Vec<u8> },
    /// The project was saved through a dialog.
    ProjectSaved { path: String },
    /// A layout file was read: parse and show it.
    OpenLayout { bytes: Vec<u8> },
    /// The layout was saved through a dialog.
    LayoutSaved { path: String },
    /// Nothing for the project: another tag, a folder, or an error.
    Ignore,
}

/// Sorts a file result by its tag.
pub fn file_result_action(result: FileSystemResult) -> (action: FileAction)
    ensures
        match result {
            FileSystemResult::Success(FileSystemSuccess::File { path, bytes, tag }) => {
                if tag@ == tag_project_spec() {
                    action == FileAction::OpenProject { path, bytes }
                } else if tag@ == tag_project_save_spec() {
                    action == FileAction::ProjectSaved { path }
                } else if tag@ == tag_layout_spec() {
                    action == FileAction::OpenLayout { bytes }
                } else if tag@ == tag_layout_save_spec() {
                    action == FileAction::LayoutSaved { path }
                } else {
                    action is Ignore
                }
            },
            _ => action is Ignore,
        },
{
    match result {
        FileSystemResult::Success(FileSystemSuccess::File { path, bytes, tag }) => {
            if tag == tag_project() {
                FileAction::OpenProject { path, bytes }
            } else if tag == tag_project_save() {
                FileAction::ProjectSaved { path }
            } else if tag == tag_layout() {
                FileAction::OpenLayout { bytes }
            } else if tag == tag_layout_save() {
                FileAction::LayoutSaved { path }
            } else {
                FileAction::Ignore
            }
        },
        _ => FileAction::Ignore,
    }
}

pub const PROJECT_MENU_NEW: u32 = 1;

pub const PROJECT_MENU_LOAD: u32 = 2;

pub const PROJECT_MENU_SAVE_AS: u32 = 3;

pub const PROJECT_MENU_SAVE: u32 = 4;

pub const PROJECT_MENU_SET_STARTUP: u32 = 5;

pub const PROJECT_MENU_UNSET_STARTUP: u32 = 6;

pub const PROJECT_MENU_CLEAR_RECENT: u32 = 7;

pub const PROJECT_MENU_RECENT_BASE: u32 = 100;

pub const LAYOUT_MENU_SAVE: u32 = 1;

pub const LAYOUT_MENU_LOAD: u32 = 2;

pub const LAYOUT_MENU_RESET: u32 = 3;

pub const VIEW_MENU_TOGGLE_API: u32 = 1;

/// What an entry of the project menu asks for.
pub enum ProjectMenuAction {
    /// Close the project and start a new one.
    NewProject,
    /// Ask the file service with this command.
    Command(FileSystemCommand),
    /// Save the project there.
    Save(CollectionDestination),
    /// The startup project changed; the settings are to be stored.
    SettingsChanged,
    /// Show this notice.
    Notify(Notice),
    /// Open the recent project at this path.
    OpenRecent(String),
    /// Nothing.
    Ignore,
}

/// Carries out the project menu entry tagged `tag`: the settings change
/// here; what needs the file service, a save or a read comes back.
pub fn project_menu_action(
    tag: u32,
    project: &ProjectState,
    settings: &mut UserSettings,
    recent_paths: &Vec<String>,
    canonical_path: Option<String>,
) -> (action: ProjectMenuAction)
    ensures
        tag == PROJECT_MENU_NEW ==> action is NewProject && *final(settings) == *old(settings),
        tag == PROJECT_MENU_LOAD ==> (action matches ProjectMenuAction::Command(FileSystemCommand::PickFile { tag: t, .. })
            && t@ == tag_project_spec()) && *final(settings) == *old(settings),
        tag == PROJECT_MENU_SAVE_AS ==> action == ProjectMenuAction::Save(CollectionDestination::Dialog) && *final(settings) == *old(settings),
        tag == PROJECT_MENU_SAVE ==> *final(settings) == *old(settings) && match project.project_file_path {
            Some(path) => action == ProjectMenuAction::Save(CollectionDestination::Path(path)),
            None => action == ProjectMenuAction::Save(CollectionDestination::Dialog),
        },
        tag == PROJECT_MENU_SET_STARTUP ==> match project.project_file_path {
            Some(path) => action is SettingsChanged && final(settings).default_project_path == Some(path)
                && final(settings).recent() == recent_after_adding(
                old(settings).recent(),
                match canonical_path {
                    Some(c) => c@,
                    None => path@,
                },
            ),
            None => *final(settings) == *old(settings) && (action matches ProjectMenuAction::Notify(n) && n.text@
                == "Save the project first to set it as the startup project"@ && n.kind == NotificationKind::Warning
                && n.seconds == 4),
        },
        tag == PROJECT_MENU_UNSET_STARTUP ==> action is SettingsChanged && final(settings).default_project_path is None
            && final(settings).recent() == old(settings).recent(),
        tag == PROJECT_MENU_CLEAR_RECENT ==> action is SettingsChanged && final(settings).recent() == match old(settings).default_project_path {
            Some(path) => seq![path@],
            None => Seq::<Seq<char>>::empty(),
        } && final(settings).default_project_path == old(settings).default_project_path,
        tag >= PROJECT_MENU_RECENT_BASE ==> *final(settings) == *old(settings) && if tag - PROJECT_MENU_RECENT_BASE
            < recent_paths@.len() {
            (action matches ProjectMenuAction::OpenRecent(path) && path@ == recent_paths@[tag
                - PROJECT_MENU_RECENT_BASE]@)
        } else {
            action is Ignore
        },
        (tag == 0 || (PROJECT_MENU_CLEAR_RECENT < tag < PROJECT_MENU_RECENT_BASE)) ==> action is Ignore && *final(settings) == *old(settings),
{
    if tag == PROJECT_MENU_NEW {
        ProjectMenuAction::NewProject
    } else if tag == PROJECT_MENU_LOAD {
        ProjectMenuAction::Command(project_pick_command())
    } else if tag == PROJECT_MENU_SAVE_AS {
        ProjectMenuAction::Save(CollectionDestination::Dialog)
    } else if tag == PROJECT_MENU_SAVE {
        match &project.project_file_path {
            Some(path) => ProjectMenuAction::Save(CollectionDestination::Path(path.clone())),
            None => ProjectMenuAction::Save(CollectionDestination::Dialog),
        }
    } else if tag == PROJECT_MENU_SET_STARTUP {
        match &project.project_file_path {
            Some(path) => {
                settings.default_project_path = Some(path.clone());
                let recent = match canonical_path {
                    Some(c) => c,
                    None => path.clone(),
                };
                settings.add_recent_project(recent);
                ProjectMenuAction::SettingsChanged
            },
            None => ProjectMenuAction::Notify(
                Notice {
                    text: String::from_str("Save the project first to set it as the startup project"),
                    kind: NotificationKind::Warning,
                    seconds: 4,
                },
            ),
        }
    } else if tag == PROJECT_MENU_UNSET_STARTUP {
        settings.default_project_path = None;
        ProjectMenuAction::SettingsChanged
    } else if tag == PROJECT_MENU_CLEAR_RECENT {
        settings.clear_recent_projects();
        ProjectMenuAction::SettingsChanged
    } else if tag >= PROJECT_MENU_RECENT_BASE {
        let index = (tag - PROJECT_MENU_RECENT_BASE) as usize;
        if index < recent_paths.len() {
            ProjectMenuAction::OpenRecent(recent_paths[index].clone())
        } else {
            ProjectMenuAction::Ignore
        }
    } else {
        ProjectMenuAction::Ignore
    }
}

/// What an entry of the layout menu asks for.
pub enum LayoutMenuAction {
    /// Save the shown layout under this name.
    Save { layout_name: String },
    /// Ask the file service with this command.
    Command(FileSystemCommand),
    /// Reset the shown layout.
    Reset,
    /// Nothing.
    Ignore,
}

/// What the layout menu entry tagged `tag` asks for.
pub fn layout_menu_action(tag: u32, layout: &LayoutState) -> (action: LayoutMenuAction)
    ensures
        tag == LAYOUT_MENU_SAVE ==> (action matches LayoutMenuAction::Save { layout_name } && layout_name@
            == or_fallback(layout.layout_name@, "Untitled Layout"@)),
        tag == LAYOUT_MENU_LOAD ==> (action matches LayoutMenuAction::Command(FileSystemCommand::PickFile { tag: t, .. })
            && t@ == tag_layout_spec()),
        tag == LAYOUT_MENU_RESET ==> action is Reset,
        (tag == 0 || tag > LAYOUT_MENU_RESET) ==> action is Ignore,
{
    if tag == LAYOUT_MENU_SAVE {
        LayoutMenuAction::Save { layout_name: text_or_fallback(&layout.layout_name, "Untitled Layout") }
    } else if tag == LAYOUT_MENU_LOAD {
        LayoutMenuAction::Command(layout_pick_command())
    } else if tag == LAYOUT_MENU_RESET {
        LayoutMenuAction::Reset
    } else {
        LayoutMenuAction::Ignore
    }
}

} // verus!
