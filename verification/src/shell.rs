//! The multi-window shell: the primary window launches child windows, hands
//! each the layout it should show as it announces itself, closes them, and
//! gathers every window's layout when the project is saved.
use crate::topics::{lemma_push_contains, lemma_with_name_contains, names, no_duplicates, with_name};
use crate::window::WindowRole;
use std::collections::VecDeque;
use vstd::prelude::*;

verus! {

pub open spec fn announce_topic_spec() -> Seq<char> {
    "shell/window/announce"@
}

pub open spec fn assign_layout_topic_spec(window: Seq<char>) -> Seq<char> {
    "shell/window/assign-"@ + window
}

pub open spec fn close_topic_spec(window: Seq<char>) -> Seq<char> {
    "shell/window/close-"@ + window
}

pub open spec fn request_trees_topic_spec() -> Seq<char> {
    "shell/window/request-trees"@
}

pub open spec fn report_tree_topic_spec() -> Seq<char> {
    "shell/window/report-tree"@
}

pub open spec fn request_spawn_topic_spec() -> Seq<char> {
    "shell/window/request-spawn"@
}

/// The messages the windows of a shell exchange.
pub enum ShellContract {
    /// A child window tells the primary it is up.
    Announce { window_id: String },
    /// The primary hands a child window its layout.
    AssignLayout { layout_name: String, tree_json: String },
    /// The primary closes a child window.
    Close,
    /// The primary asks every child window for its layout.
    RequestTrees,
    /// A child window answers with its layout.
    ReportTree { window_id: String, layout_name: String, tree_json: String },
    /// A child window asks the primary to launch another window.
    RequestSpawn,
}

impl ShellContract {
    pub fn announce_topic() -> (topic: String)
        ensures
            topic@ == announce_topic_spec(),
    {
        String::from_str("shell/window/announce")
    }

    pub fn assign_layout_topic(window: &str) -> (topic: String)
        ensures
            topic@ == assign_layout_topic_spec(window@),
    {
        let mut topic = String::from_str("shell/window/assign-");
        topic.append(window);
        topic
    }

    pub fn close_topic(window: &str) -> (topic: String)
        ensures
            topic@ == close_topic_spec(window@),
    {
        let mut topic = String::from_str("shell/window/close-");
        topic.append(window);
        topic
    }

    pub fn request_trees_topic() -> (topic: String)
        ensures
            topic@ == request_trees_topic_spec(),
    {
        String::from_str("shell/window/request-trees")
    }

    pub fn report_tree_topic() -> (topic: String)
        ensures
            topic@ == report_tree_topic_spec(),
    {
        String::from_str("shell/window/report-tree")
    }

    pub fn request_spawn_topic() -> (topic: String)
        ensures
            topic@ == request_spawn_topic_spec(),
    {
        String::from_str("shell/window/request-spawn")
    }
}

pub open spec fn shell_service_id_spec() -> Seq<char> {
    "shell-service"@
}

/// The name under which the shell subscribes to its topics.
pub fn shell_service_id() -> (id: String)
    ensures
        id@ == shell_service_id_spec(),
{
    String::from_str("shell-service")
}

/// The topics a window subscribes to for the shell: the primary hears
/// announcements, reports and spawn requests; a child hears its layout
/// assignments, its closing and requests for its layout.
pub open spec fn shell_topics_spec(primary: bool, window: Seq<char>) -> Seq<Seq<char>> {
    if primary {
        seq![announce_topic_spec(), report_tree_topic_spec(), request_spawn_topic_spec()]
    } else {
        seq![assign_layout_topic_spec(window), close_topic_spec(window), request_trees_topic_spec()]
    }
}

/// The topics the window named `window` subscribes to for the shell.
pub fn shell_topics(role: &WindowRole, window: &str) -> (topics: Vec<String>)
    ensures
        names(topics@) == shell_topics_spec(*role is Primary, window@),
{
    let mut topics: Vec<String> = Vec::new();
    if role.is_primary() {
        topics.push(ShellContract::announce_topic());
        topics.push(ShellContract::report_tree_topic());
        topics.push(ShellContract::request_spawn_topic());
    } else {
        topics.push(ShellContract::assign_layout_topic(window));
        topics.push(ShellContract::close_topic(window));
        topics.push(ShellContract::request_trees_topic());
    }
    assert(names(topics@) =~= shell_topics_spec(*role is Primary, window@));
    topics
}

/// A shell topic, as the window that receives it understands it.
#[derive(Debug, Clone, Copy, PartialEq, Eq, Structural)]
pub enum ShellTopic {
    Announce,
    ReportTree,
    RequestSpawn,
    AssignLayout,
    Close,
    RequestTrees,
}

pub open spec fn shell_topic_spec(primary: bool, window: Seq<char>, topic: Seq<char>) -> Option<ShellTopic> {
    if primary {
        if topic == announce_topic_spec() {
            Some(ShellTopic::Announce)
        } else if topic == report_tree_topic_spec() {
            Some(ShellTopic::ReportTree)
        } else if topic == request_spawn_topic_spec() {
            Some(ShellTopic::RequestSpawn)
        } else {
            None
        }
    } else {
        if topic == assign_layout_topic_spec(window) {
            Some(ShellTopic::AssignLayout)
        } else if topic == close_topic_spec(window) {
            Some(ShellTopic::Close)
        } else if topic == request_trees_topic_spec() {
            Some(ShellTopic::RequestTrees)
        } else {
            None
        }
    }
}

/// Which shell topic `topic` is for the window named `window`, if any: the
/// primary answers only to its three topics, a child only to its own.
pub fn classify_shell_topic(role: &WindowRole, window: &str, topic: &String) -> (kind: Option<ShellTopic>)
    ensures
        kind == shell_topic_spec(*role is Primary, window@, topic@),
{
    if role.is_primary() {
        if *topic == ShellContract::announce_topic() {
            Some(ShellTopic::Announce)
        } else if *topic == ShellContract::report_tree_topic() {
            Some(ShellTopic::ReportTree)
        } else if *topic == ShellContract::request_spawn_topic() {
            Some(ShellTopic::RequestSpawn)
        } else {
            None
        }
    } else {
        if *topic == ShellContract::assign_layout_topic(window) {
            Some(ShellTopic::AssignLayout)
        } else if *topic == ShellContract::close_topic(window) {
            Some(ShellTopic::Close)
        } else if *topic == ShellContract::request_trees_topic() {
            Some(ShellTopic::RequestTrees)
        } else {
            None
        }
    }
}

/// The child windows the primary knows of, and the layouts waiting for the
/// next windows to announce themselves (name and serialized tree).
pub struct WindowRegistry {
    pub known_windows: Vec<String>,
    pub pending_layouts: VecDeque<(String, String)>,
}

pub open spec fn layout_views(layouts: Seq<(String, String)>) -> Seq<(Seq<char>, Seq<char>)> {
    layouts.map_values(|layout: (String, String)| (layout.0@, layout.1@))
}

impl WindowRegistry {
    pub open spec fn known(&self) -> Seq<Seq<char>> {
        names(self.known_windows@)
    }

    pub open spec fn pending(&self) -> Seq<(Seq<char>, Seq<char>)> {
        layout_views(self.pending_layouts@)
    }

    /// Every window is known once.
    pub open spec fn wf(&self) -> bool {
        no_duplicates(self.known())
    }

    /// No window known, no layout waiting.
    pub fn new() -> (registry: WindowRegistry)
        ensures
            registry.wf(),
            registry.known().len() == 0,
            registry.pending().len() == 0,
    {
        WindowRegistry { known_windows: Vec::new(), pending_layouts: VecDeque::new() }
    }
}

impl Default for WindowRegistry {
    fn default() -> (registry: Self)
        ensures
            registry.wf(),
            registry.known().len() == 0,
            registry.pending().len() == 0,
    {
        WindowRegistry::new()
    }
}

/// Whether `list` holds `name`.
fn holds_name(list: &Vec<String>, name: &String) -> (found: bool)
    ensures
        found == names(list@).contains(name@),
{
    let mut index: usize = 0;
    while index < list.len()
        invariant
            index <= list@.len(),
            forall|j: int| 0 <= j < index ==> names(list@)[j] != name@,
        decreases list@.len() - index,
    {
        if list[index] == *name {
            assert(names(list@)[index as int] == name@);
            return true;
        }
        index = index + 1;
    }
    false
}

/// The primary heard `window` announce itself: it becomes known (once), and
/// the oldest waiting layout, if any, is its to show.
pub fn register_announced_window(registry: &mut WindowRegistry, window: String) -> (assignment: Option<
    (String, String),
>)
    requires
        old(registry).wf(),
    ensures
        final(registry).wf(),
        final(registry).known() == with_name(old(registry).known(), window@),
        old(registry).pending().len() == 0 ==> assignment is None && final(registry).pending() == old(
            registry,
        ).pending(),
        old(registry).pending().len() > 0 ==> (assignment matches Some(layout) && (layout.0@, layout.1@) == old(
            registry,
        ).pending()[0]) && final(registry).pending() == old(registry).pending().drop_first(),
{
    let ghost known_before = registry.known();
    if !holds_name(&registry.known_windows, &window) {
        registry.known_windows.push(window);
        proof {
            assert(registry.known() =~= known_before.push(window@));
            assert forall|i: int, j: int| 0 <= i < j < registry.known().len() implies registry.known()[i]
                != registry.known()[j] by {
                if j == registry.known().len() - 1 {
                    assert(known_before.contains(registry.known()[i]) || registry.known()[i] != window@) by {
                        assert(known_before[i] == registry.known()[i]);
                    }
                }
            }
        }
    }
    let ghost pending_before = registry.pending_layouts@;
    let assignment = registry.pending_layouts.pop_front();
    proof {
        if assignment is Some {
            assert(layout_views(registry.pending_layouts@) =~= layout_views(pending_before).drop_first());
        }
    }
    assignment
}

/// The primary closes every child window: it forgets them and drops the
/// waiting layouts; returns the windows to close, in the order they became
/// known.
pub fn close_child_windows(registry: &mut WindowRegistry) -> (closed: Vec<String>)
    ensures
        final(registry).wf(),
        names(closed@) == old(registry).known(),
        final(registry).known().len() == 0,
        final(registry).pending().len() == 0,
{
    let mut closed: Vec<String> = Vec::new();
    core::mem::swap(&mut closed, &mut registry.known_windows);
    registry.pending_layouts.clear();
    proof {
        assert(registry.pending() =~= Seq::<(Seq<char>, Seq<char>)>::empty());
        assert(registry.known() =~= Seq::<Seq<char>>::empty());
    }
    closed
}

/// Queues the layouts of the windows a project opens beside the primary's
/// own, each to be handed to a window launched for it; returns how many
/// windows to launch.
pub fn queue_window_layouts(registry: &mut WindowRegistry, layouts: Vec<(String, String)>) -> (launches: usize)
    requires
        old(registry).wf(),
    ensures
        final(registry).wf(),
        final(registry).known() == old(registry).known(),
        final(registry).pending() == old(registry).pending() + layout_views(layouts@),
        launches == layouts@.len(),
{
    let ghost start = registry.pending();
    let count = layouts.len();
    let mut index: usize = 0;
    let mut rest = layouts;
    let ghost all = rest@;
    while rest.len() > 0
        invariant
            registry.wf(),
            registry.known() == old(registry).known(),
            index + rest@.len() == all.len(),
            count == all.len(),
            rest@ == all.subrange(index as int, all.len() as int),
            registry.pending() == start + layout_views(all.take(index as int)),
        decreases rest@.len(),
    {
        let layout = rest.remove(0);
        let ghost before = registry.pending_layouts@;
        registry.pending_layouts.push_back(layout);
        proof {
            assert(all.take(index + 1) =~= all.take(index as int).push(layout));
            assert(layout_views(registry.pending_layouts@) =~= layout_views(before).push((layout.0@, layout.1@)));
            assert(layout_views(all.take(index + 1)) =~= layout_views(all.take(index as int)).push(
                (layout.0@, layout.1@),
            ));
            assert(rest@ =~= all.subrange(index + 1, all.len() as int));
        }
        index = index + 1;
    }
    assert(all.take(index as int) =~= all);
    count
}

pub open spec fn default_layout_name_spec() -> Seq<char> {
    "Default Layout"@
}

/// The name a layout gets when none was recorded for it.
pub fn default_layout_name() -> (name: String)
    ensures
        name@ == default_layout_name_spec(),
{
    String::from_str("Default Layout")
}

/// The layout name recorded for window `index` of a project, or the default
/// one when the project records fewer names.
pub fn window_layout_name(layout_names: &Vec<String>, index: usize) -> (name: String)
    ensures
        index < layout_names@.len() ==> name@ == layout_names@[index as int]@,
        index >= layout_names@.len() ==> name@ == default_layout_name_spec(),
{
    if index < layout_names.len() {
        layout_names[index].clone()
    } else {
        default_layout_name()
    }
}

/// Where a gathered project is saved: to a file the project already has,
/// or to one the user picks.
pub enum CollectionDestination {
    Path(String),
    Dialog,
}

/// A child window's layout, as it reported it.
pub struct ReportedTree {
    pub window_id: String,
    pub layout_name: String,
    pub tree_json: String,
}

/// A save waiting for the child windows' layouts.
pub struct CollectionState {
    pub collected: Vec<ReportedTree>,
    pub destination: CollectionDestination,
}

/// The save in progress, if any.
pub struct ProjectCollection {
    pub active: Option<CollectionState>,
}

impl Default for ProjectCollection {
    fn default() -> (collection: Self)
        ensures
            collection.active is None,
    {
        ProjectCollection { active: None }
    }
}

/// How a save starts.
pub enum SaveStart {
    /// No child window is known: save the primary's layout now.
    SaveNow(CollectionDestination),
    /// Ask the child windows for their layouts and wait.
    RequestTrees,
}

/// Starts saving the project to `destination`: at once when the primary is
/// alone, else by waiting for the child windows' layouts.
pub fn begin_project_save(
    registry: &WindowRegistry,
    collection: &mut ProjectCollection,
    destination: CollectionDestination,
) -> (start: SaveStart)
    ensures
        registry.known().len() == 0 ==> start == SaveStart::SaveNow(destination) && *final(collection) == *old(
            collection,
        ),
        registry.known().len() > 0 ==> start is RequestTrees && (final(collection).active matches Some(state)
            && state.collected@.len() == 0 && state.destination == destination),
{
    if registry.known_windows.len() == 0 {
        SaveStart::SaveNow(destination)
    } else {
        collection.active = Some(CollectionState { collected: Vec::new(), destination });
        SaveStart::RequestTrees
    }
}

/// A child window reported its layout: it is kept while a save waits for
/// layouts, and ignored otherwise.
pub fn record_report(collection: &mut ProjectCollection, report: ReportedTree)
    ensures
        old(collection).active is None ==> *final(collection) == *old(collection),
        old(collection).active matches Some(state) ==> final(collection).active matches Some(next)
            && next.collected@ == state.collected@.push(report) && next.destination == state.destination,
{
    if let Some(mut state) = collection.active.take() {
        state.collected.push(report);
        collection.active = Some(state);
    }
}

/// Whether some report came from `window`.
pub open spec fn has_report(collected: Seq<ReportedTree>, window: Seq<char>) -> bool {
    exists|i: int| 0 <= i < collected.len() && #[trigger] collected[i].window_id@ == window
}

/// The first report that came from `window`.
pub open spec fn first_report(collected: Seq<ReportedTree>, window: Seq<char>) -> Option<ReportedTree>
    decreases collected.len(),
{
    if collected.len() == 0 {
        None
    } else if collected[0].window_id@ == window {
        Some(collected[0])
    } else {
        first_report(collected.drop_first(), window)
    }
}

/// The windows of `known` that reported, in order.
pub open spec fn reporting_windows(known: Seq<Seq<char>>, collected: Seq<ReportedTree>) -> Seq<Seq<char>>
    decreases known.len(),
{
    if known.len() == 0 {
        Seq::empty()
    } else {
        let earlier = reporting_windows(known.drop_last(), collected);
        if has_report(collected, known.last()) {
            earlier.push(known.last())
        } else {
            earlier
        }
    }
}

/// The first report of each window of `known` that reported, in the order of
/// `known`.
pub open spec fn reports_in_order(known: Seq<Seq<char>>, collected: Seq<ReportedTree>) -> Seq<ReportedTree>
    decreases known.len(),
{
    if known.len() == 0 {
        Seq::empty()
    } else {
        let earlier = reports_in_order(known.drop_last(), collected);
        match first_report(collected, known.last()) {
            Some(report) => earlier.push(report),
            None => earlier,
        }
    }
}

/// A window has a first report exactly when it reported, and that report is
/// one of its own.
pub proof fn lemma_first_report(collected: Seq<ReportedTree>, window: Seq<char>)
    ensures
        first_report(collected, window) is Some <==> has_report(collected, window),
        first_report(collected, window) matches Some(report) ==> report.window_id@ == window
            && collected.contains(report),
    decreases collected.len(),
{
    if collected.len() > 0 {
        let rest = collected.drop_first();
        lemma_first_report(rest, window);
        if collected[0].window_id@ != window {
            if has_report(collected, window) {
                let i = choose|i: int| 0 <= i < collected.len() && #[trigger] collected[i].window_id@ == window;
                assert(rest[i - 1].window_id@ == window);
            }
            if has_report(rest, window) {
                let i = choose|i: int| 0 <= i < rest.len() && #[trigger] rest[i].window_id@ == window;
                assert(collected[i + 1].window_id@ == window);
            }
            if first_report(rest, window) is Some {
                let report = first_report(rest, window).unwrap();
                let k = choose|k: int| 0 <= k < rest.len() && rest[k] == report;
                assert(collected[k + 1] == report);
            }
        } else {
            assert(collected[0].window_id@ == window);
            assert(collected.contains(collected[0])) by {
                assert(collected[0] == collected[0]);
            }
        }
    }
}

/// Copies a report.
fn copy_report(report: &ReportedTree) -> (copy: ReportedTree)
    ensures
        copy == *report,
{
    ReportedTree {
        window_id: report.window_id.clone(),
        layout_name: report.layout_name.clone(),
        tree_json: report.tree_json.clone(),
    }
}

/// The first report that came from `window`, copied.
fn find_report(collected: &Vec<ReportedTree>, window: &String) -> (found: Option<ReportedTree>)
    ensures
        found == first_report(collected@, window@),
{
    let mut index: usize = 0;
    assert(collected@.subrange(0, collected@.len() as int) =~= collected@);
    while index < collected.len()
        invariant
            index <= collected@.len(),
            first_report(collected@, window@) == first_report(
                collected@.subrange(index as int, collected@.len() as int),
                window@,
            ),
        decreases collected@.len() - index,
    {
        let ghost rest = collected@.subrange(index as int, collected@.len() as int);
        assert(rest[0] == collected@[index as int]);
        assert(rest.drop_first() =~= collected@.subrange(index + 1, collected@.len() as int));
        if collected[index].window_id == *window {
            return Some(copy_report(&collected[index]));
        }
        index = index + 1;
    }
    None
}

/// Whether the save in progress is complete, and whether it gave up
/// waiting: it completes once there are as many reports as known windows,
/// or once its deadline passed, which then counts as giving up.
pub open spec fn collection_outcome(reports: nat, known: nat, deadline_passed: bool) -> (bool, bool) {
    let all_reported = reports >= known;
    let timed_out = deadline_passed && !all_reported;
    (all_reported || timed_out, timed_out)
}

/// A save whose layouts are all in: the child windows' reports to save
/// beside the primary's layout, and where to save.
pub struct FinishedCollection {
    pub reports: Vec<ReportedTree>,
    pub destination: CollectionDestination,
}

/// The windows of `known` that reported, in order, copied.
fn keep_reporting_windows(known: &Vec<String>, collected: &Vec<ReportedTree>) -> (kept: Vec<String>)
    ensures
        names(kept@) == reporting_windows(names(known@), collected@),
{
    let mut kept: Vec<String> = Vec::new();
    let mut index: usize = 0;
    while index < known.len()
        invariant
            index <= known@.len(),
            names(kept@) == reporting_windows(names(known@).take(index as int), collected@),
        decreases known@.len() - index,
    {
        let ghost before = names(kept@);
        let ghost prefix = names(known@).take(index + 1);
        assert(prefix.drop_last() =~= names(known@).take(index as int));
        assert(prefix.last() == known@[index as int]@);
        let found = find_report(collected, &known[index]);
        proof {
            lemma_first_report(collected@, known@[index as int]@);
        }
        if found.is_some() {
            kept.push(known[index].clone());
            assert(names(kept@) =~= before.push(known@[index as int]@));
        }
        index = index + 1;
    }
    assert(names(known@).take(known@.len() as int) =~= names(known@));
    kept
}

/// The first report of each window of `known` that reported, in the order
/// of `known`.
fn gather_reports(known: &Vec<String>, collected: &Vec<ReportedTree>) -> (reports: Vec<ReportedTree>)
    ensures
        reports@ == reports_in_order(names(known@), collected@),
{
    let mut reports: Vec<ReportedTree> = Vec::new();
    let mut index: usize = 0;
    while index < known.len()
        invariant
            index <= known@.len(),
            reports@ == reports_in_order(names(known@).take(index as int), collected@),
        decreases known@.len() - index,
    {
        let ghost prefix = names(known@).take(index + 1);
        assert(prefix.drop_last() =~= names(known@).take(index as int));
        assert(prefix.last() == known@[index as int]@);
        match find_report(collected, &known[index]) {
            Some(report) => reports.push(report),
            None => {},
        }
        index = index + 1;
    }
    assert(names(known@).take(known@.len() as int) =~= names(known@));
    reports
}

/// A subsequence of a list without duplicates has none.
proof fn lemma_reporting_windows(known: Seq<Seq<char>>, collected: Seq<ReportedTree>)
    ensures
        forall|window: Seq<char>|
            #[trigger] reporting_windows(known, collected).contains(window) <==> known.contains(window) && has_report(
                collected,
                window,
            ),
        no_duplicates(known) ==> no_duplicates(reporting_windows(known, collected)),
    decreases known.len(),
{
    if known.len() > 0 {
        let earlier = known.drop_last();
        lemma_reporting_windows(earlier, collected);
        assert forall|window: Seq<char>| known.contains(window) <==> earlier.contains(window) || window == known.last() by {
            lemma_push_contains(earlier, known.last(), window);
            assert(known =~= earlier.push(known.last()));
        }
        let kept = reporting_windows(earlier, collected);
        assert forall|window: Seq<char>|
            #[trigger] reporting_windows(known, collected).contains(window) <==> known.contains(window) && has_report(
                collected,
                window,
            ) by {
            lemma_push_contains(kept, known.last(), window);
        }
        if no_duplicates(known) {
            assert(no_duplicates(earlier));
            assert(!earlier.contains(known.last())) by {
                if earlier.contains(known.last()) {
                    let k = choose|k: int| 0 <= k < earlier.len() && earlier[k] == known.last();
                    assert(known[k] == known[known.len() - 1]);
                }
            }
            if has_report(collected, known.last()) {
                let all = kept.push(known.last());
                assert forall|i: int, j: int| 0 <= i < j < all.len() implies all[i] != all[j] by {
                    if j == all.len() - 1 {
                        assert(kept.contains(kept[i]));
                    }
                }
            }
        }
    }
}

/// Advances the save in progress: when it is complete (every known window
/// reported, or its deadline passed), it ends; if it gave up waiting, the
/// windows that did not report are forgotten; the result holds each known
/// window's first report, in the order the windows became known.
pub fn tick_project_collection(
    registry: &mut WindowRegistry,
    collection: &mut ProjectCollection,
    deadline_passed: bool,
) -> (finished: Option<FinishedCollection>)
    requires
        old(registry).wf(),
    ensures
        final(registry).wf(),
        final(registry).pending() == old(registry).pending(),
        match old(collection).active {
            None => finished is None && *final(collection) == *old(collection) && *final(registry) == *old(registry),
            Some(state) => {
                let (complete, timed_out) = collection_outcome(
                    state.collected@.len(),
                    old(registry).known().len(),
                    deadline_passed,
                );
                &&& !complete ==> finished is None && *final(collection) == *old(collection)
                    && *final(registry) == *old(registry)
                &&& complete ==> {
                    &&& final(collection).active is None
                    &&& final(registry).known() == (if timed_out {
                        reporting_windows(old(registry).known(), state.collected@)
                    } else {
                        old(registry).known()
                    })
                    &&& finished matches Some(done) && done.destination == state.destination
                        && done.reports@ == reports_in_order(final(registry).known(), state.collected@)
                }
            },
        },
{
    let (complete, timed_out) = match &collection.active {
        Some(state) => {
            let all_reported = state.collected.len() >= registry.known_windows.len();
            let timed_out = deadline_passed && !all_reported;
            (all_reported || timed_out, timed_out)
        },
        None => (false, false),
    };
    if !complete {
        return None;
    }
    let state = match collection.active.take() {
        Some(state) => state,
        None => {
            return None;
        },
    };
    if timed_out {
        let kept = keep_reporting_windows(&registry.known_windows, &state.collected);
        proof {
            lemma_reporting_windows(registry.known(), state.collected@);
        }
        registry.known_windows = kept;
    }
    let reports = gather_reports(&registry.known_windows, &state.collected);
    Some(FinishedCollection { reports, destination: state.destination })
}

/// A save that ends without giving up carries a report from every known
/// window that reported, in the order the windows became known; one that
/// gives up keeps exactly the windows that reported, and each of them has a
/// report in the save.
pub proof fn lemma_reports_follow_known_windows(known: Seq<Seq<char>>, collected: Seq<ReportedTree>)
    ensures
        reports_in_order(known, collected).len() == reporting_windows(known, collected).len(),
        forall|i: int|
            0 <= i < reports_in_order(known, collected).len() ==> #[trigger] reports_in_order(known, collected)[i].window_id@
                == reporting_windows(known, collected)[i] && collected.contains(reports_in_order(known, collected)[i]),
        reporting_windows(reporting_windows(known, collected), collected) == reporting_windows(known, collected),
    decreases known.len(),
{
    if known.len() > 0 {
        let earlier = known.drop_last();
        lemma_reports_follow_known_windows(earlier, collected);
        lemma_first_report(collected, known.last());
        let kept = reporting_windows(earlier, collected);
        if has_report(collected, known.last()) {
            let all = kept.push(known.last());
            assert(all.drop_last() =~= kept);
        }
    }
}

/// A window that announces itself is known once afterwards, whatever was
/// known before.
pub proof fn lemma_announced_window_known_once(known: Seq<Seq<char>>, window: Seq<char>)
    requires
        no_duplicates(known),
    ensures
        with_name(known, window).contains(window),
        no_duplicates(with_name(known, window)),
        forall|other: Seq<char>| known.contains(other) ==> #[trigger] with_name(known, window).contains(other),
{
    lemma_with_name_contains(known, window, window);
    assert forall|other: Seq<char>| known.contains(other) implies #[trigger] with_name(known, window).contains(other) by {
        lemma_with_name_contains(known, window, other);
    }
    if !known.contains(window) {
        let all = known.push(window);
        assert forall|i: int, j: int| 0 <= i < j < all.len() implies all[i] != all[j] by {
            if j == all.len() - 1 {
                assert(known.contains(known[i]));
            }
        }
    }
}

} // verus!
