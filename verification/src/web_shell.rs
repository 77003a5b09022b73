//! The web demo's shell: the topics its pages exchange, how a page learns
//! its role from its address, what the native shell serves, and the page's
//! bounded lists.
use crate::contract::{has_prefix, starts_with};
use crate::settings::{opened_project_name, recent_after_adding, text_view, untitled_project_spec};
use crate::themes::same_str;
use crate::topics::{names, retain_others};
use vstd::prelude::*;

verus! {

pub open spec fn spawn_topic_spec() -> Seq<char> {
    "shell/leptos/request-spawn"@
}

pub open spec fn announce_topic_spec() -> Seq<char> {
    "shell/leptos/announce"@
}

pub open spec fn request_layouts_topic_spec() -> Seq<char> {
    "shell/leptos/request-layouts"@
}

pub open spec fn report_layout_topic_spec() -> Seq<char> {
    "shell/leptos/report-layout"@
}

pub open spec fn assign_topic_spec(window: Seq<char>) -> Seq<char> {
    "shell/leptos/assign-"@ + window
}

pub open spec fn close_topic_spec(shell: Seq<char>) -> Seq<char> {
    "shell/leptos/close-"@ + shell
}

/// The topic on which any page asks the host to open another window.
pub fn spawn_topic() -> (topic: String)
    ensures
        topic@ == spawn_topic_spec(),
{
    String::from_str("shell/leptos/request-spawn")
}

/// The topic on which a child page announces itself.
pub fn announce_topic() -> (topic: String)
    ensures
        topic@ == announce_topic_spec(),
{
    String::from_str("shell/leptos/announce")
}

/// The topic on which the primary page asks for every page's layout.
pub fn request_layouts_topic() -> (topic: String)
    ensures
        topic@ == request_layouts_topic_spec(),
{
    String::from_str("shell/leptos/request-layouts")
}

/// The topic on which a child page reports its layout.
pub fn report_layout_topic() -> (topic: String)
    ensures
        topic@ == report_layout_topic_spec(),
{
    String::from_str("shell/leptos/report-layout")
}

/// The topic on which the page `window` gets its layout.
pub fn assign_topic(window: &str) -> (topic: String)
    ensures
        topic@ == assign_topic_spec(window@),
{
    let mut topic = String::from_str("shell/leptos/assign-");
    topic.append(window);
    topic
}

/// The topic on which the shell `shell` is told to close.
pub fn close_topic(shell: &str) -> (topic: String)
    ensures
        topic@ == close_topic_spec(shell@),
{
    let mut topic = String::from_str("shell/leptos/close-");
    topic.append(shell);
    topic
}

/// The topics a page subscribes to for the shell: the primary hears
/// announcements and reports; a child hears its layout and requests for it.
pub open spec fn page_topics_spec(primary: bool, shell: Seq<char>) -> Seq<Seq<char>> {
    if primary {
        seq![announce_topic_spec(), report_layout_topic_spec()]
    } else {
        seq![assign_topic_spec(shell), request_layouts_topic_spec()]
    }
}

/// The topics the page `shell` subscribes to for the shell.
pub fn shell_topics(is_primary: bool, shell: &str) -> (topics: Vec<String>)
    ensures
        names(topics@) == page_topics_spec(is_primary, shell@),
{
    let mut topics: Vec<String> = Vec::new();
    if is_primary {
        topics.push(announce_topic());
        topics.push(report_layout_topic());
    } else {
        topics.push(assign_topic(shell));
        topics.push(request_layouts_topic());
    }
    assert(names(topics@) =~= page_topics_spec(is_primary, shell@));
    topics
}

/// The native shell hosting the broker, or one that joins it.
pub enum ShellRole {
    Host,
    Child { broker_address: String },
}

impl ShellRole {
    pub fn is_host(&self) -> (host: bool)
        ensures
            host <==> *self is Host,
    {
        match self {
            ShellRole::Host => true,
            ShellRole::Child { .. } => false,
        }
    }

    /// The role of a shell whose environment holds `broker_address` under
    /// the broker address variable (`None` when it is unset).
    pub fn from_broker_address(broker_address: Option<String>) -> (role: ShellRole)
        ensures
            broker_address is None <==> role is Host,
            broker_address matches Some(address) ==> role == (ShellRole::Child { broker_address: address }),
    {
        match broker_address {
            Some(address) => ShellRole::Child { broker_address: address },
            None => ShellRole::Host,
        }
    }
}

/// What follows the last `.` of `path`, or all of it when it has none.
pub open spec fn extension(path: Seq<char>) -> Seq<char>
    decreases path.len(),
{
    if path.len() == 0 {
        Seq::empty()
    } else if path.last() == '.' {
        Seq::empty()
    } else {
        extension(path.drop_last()).push(path.last())
    }
}

/// The position just after the last `.` of `path`, or 0 when it has none.
pub open spec fn extension_start(path: Seq<char>) -> int
    decreases path.len(),
{
    if path.len() == 0 {
        0
    } else if path.last() == '.' {
        path.len() as int
    } else {
        extension_start(path.drop_last())
    }
}

proof fn lemma_extension(path: Seq<char>)
    ensures
        0 <= extension_start(path) <= path.len(),
        extension(path) == path.subrange(extension_start(path), path.len() as int),
        forall|i: int| extension_start(path) <= i < path.len() ==> path[i] != '.',
    decreases path.len(),
{
    if path.len() > 0 {
        lemma_extension(path.drop_last());
        if path.last() != '.' {
            assert(extension(path) =~= path.subrange(extension_start(path), path.len() as int));
            assert forall|i: int| extension_start(path) <= i < path.len() implies path[i] != '.' by {
                if i < path.len() - 1 {
                    assert(path.drop_last()[i] == path[i]);
                }
            }
        } else {
            assert(path.subrange(path.len() as int, path.len() as int) =~= Seq::<char>::empty());
        }
    }
}

/// The content type the native shell serves a file of the web bundle
/// with, by its extension.
pub open spec fn content_type_spec(path: Seq<char>) -> Seq<char> {
    let extension = extension(path);
    if extension == "html"@ {
        "text/html; charset=utf-8"@
    } else if extension == "js"@ {
        "application/javascript"@
    } else if extension == "wasm"@ {
        "application/wasm"@
    } else if extension == "css"@ {
        "text/css"@
    } else if extension == "png"@ {
        "image/png"@
    } else if extension == "svg"@ {
        "image/svg+xml"@
    } else if extension == "json"@ {
        "application/json"@
    } else {
        "application/octet-stream"@
    }
}

/// The content type of the file at `path`.
pub fn content_type(path: &str) -> (kind: &'static str)
    ensures
        kind@ == content_type_spec(path@),
{
    let length = path.unicode_len();
    let mut start: usize = length;
    while start > 0 && path.get_char(start - 1) != '.'
        invariant
            length == path@.len(),
            start <= length,
            forall|i: int| start <= i < length ==> path@[i] != '.',
        decreases start,
    {
        start = start - 1;
    }
    proof {
        lemma_extension(path@);
        assert(start == extension_start(path@)) by {
            lemma_extension_start(path@, start as int);
        }
    }
    let extension = path.substring_char(start, length);
    if same_str(extension, "html") {
        "text/html; charset=utf-8"
    } else if same_str(extension, "js") {
        "application/javascript"
    } else if same_str(extension, "wasm") {
        "application/wasm"
    } else if same_str(extension, "css") {
        "text/css"
    } else if same_str(extension, "png") {
        "image/png"
    } else if same_str(extension, "svg") {
        "image/svg+xml"
    } else if same_str(extension, "json") {
        "application/json"
    } else {
        "application/octet-stream"
    }
}

/// The position just after the last `.` is where a scan from the end stops.
proof fn lemma_extension_start(path: Seq<char>, start: int)
    requires
        0 <= start <= path.len(),
        forall|i: int| start <= i < path.len() ==> path[i] != '.',
        start == 0 || path[start - 1] == '.',
    ensures
        start == extension_start(path),
    decreases path.len(),
{
    if path.len() > 0 {
        if path.last() != '.' {
            if start == path.len() {
                assert(path[start - 1] == '.');
            } else {
                lemma_extension_start(path.drop_last(), start);
            }
        } else {
            if start < path.len() {
                assert(path[path.len() - 1] != '.');
            }
        }
    }
}

/// How many texts a panel keeps.
pub const MAX_RECEIVED_MESSAGES: usize = 25;

/// The last `MAX_RECEIVED_MESSAGES` of `all`.
pub open spec fn most_recent(all: Seq<Seq<char>>) -> Seq<Seq<char>> {
    if all.len() > MAX_RECEIVED_MESSAGES {
        all.subrange(all.len() - MAX_RECEIVED_MESSAGES, all.len() as int)
    } else {
        all
    }
}

/// A panel received `text`: it keeps the most recent texts only.
pub fn push_received(received: &mut Vec<String>, text: String)
    ensures
        names(final(received)@) == most_recent(names(old(received)@).push(text@)),
{
    let ghost all = names(old(received)@).push(text@);
    received.push(text);
    assert(names(received@) =~= all);
    while received.len() > MAX_RECEIVED_MESSAGES
        invariant
            all.len() >= names(received@).len(),
            names(received@) == all.subrange(all.len() - names(received@).len(), all.len() as int),
            received@.len() > MAX_RECEIVED_MESSAGES || names(received@) == most_recent(all),
        decreases received@.len(),
    {
        let ghost before = names(received@);
        received.remove(0);
        assert(names(received@) =~= before.drop_first());
        assert(names(received@) =~= all.subrange(all.len() - names(received@).len(), all.len() as int));
    }
}

/// A page stored the project named `name`: it moves to the front of the
/// recent names, which keep at most ten.
pub fn store_recent_name(recents: &mut Vec<String>, name: &String)
    ensures
        names(final(recents)@) == recent_after_adding(names(old(recents)@), name@),
{
    let mut kept = retain_others(recents, name);
    let ghost rest = names(kept@);
    kept.insert(0, name.clone());
    assert(names(kept@) =~= seq![name@] + rest);
    if kept.len() > 10 {
        kept.truncate(10);
        assert(names(kept@) =~= (seq![name@] + rest).take(10));
    }
    *recents = kept;
}

/// The recent names a page keeps when they are cleared: those equal to the
/// startup project's.
pub open spec fn kept_recents(recents: Seq<Seq<char>>, startup: Option<Seq<char>>) -> Seq<Seq<char>> {
    recents.filter(|recent: Seq<char>| Some(recent) == startup)
}

/// A page cleared its recent projects but the startup one.
pub fn clear_recents_keeping_startup(recents: &mut Vec<String>, startup: &Option<String>)
    ensures
        names(final(recents)@) == kept_recents(names(old(recents)@), text_view(*startup)),
{
    let ghost all = names(recents@);
    let ghost keep = text_view(*startup);
    let mut kept: Vec<String> = Vec::new();
    let mut index: usize = 0;
    while index < recents.len()
        invariant
            index <= recents@.len(),
            all == names(recents@),
            keep == text_view(*startup),
            names(kept@) == kept_recents(all.take(index as int), keep),
        decreases recents@.len() - index,
    {
        let is_startup = match startup {
            Some(name) => recents[index] == *name,
            None => false,
        };
        proof {
            reveal(Seq::filter);
            assert(all.take(index + 1).drop_last() =~= all.take(index as int));
        }
        if is_startup {
            let ghost before = names(kept@);
            kept.push(recents[index].clone());
            assert(names(kept@) =~= before.push(all[index as int]));
        }
        index = index + 1;
    }
    assert(all.take(recents@.len() as int) =~= all);
    *recents = kept;
}

/// The name a page gives an opened project: the one it records unless that
/// is blank, else "Untitled Project".
pub fn page_project_name(recorded: Option<String>) -> (name: String)
    ensures
        name@ == opened_project_name(text_view(recorded), None),
{
    crate::settings::derive_project_name(recorded, None)
}

/// `text` without any `c` it starts with.
pub open spec fn strip_leading(text: Seq<char>, c: char) -> Seq<char>
    decreases text.len(),
{
    if text.len() > 0 && text[0] == c {
        strip_leading(text.drop_first(), c)
    } else {
        text
    }
}

/// `text` cut at each `separator`; an empty text is one empty piece.
pub open spec fn split_on(text: Seq<char>, separator: char) -> Seq<Seq<char>>
    decreases text.len(),
{
    if text.len() == 0 {
        seq![Seq::<char>::empty()]
    } else {
        let earlier = split_on(text.drop_last(), separator);
        if text.last() == separator {
            earlier.push(Seq::empty())
        } else {
            earlier.update(earlier.len() - 1, earlier.last().push(text.last()))
        }
    }
}

proof fn lemma_split_not_empty(text: Seq<char>, separator: char)
    ensures
        split_on(text, separator).len() > 0,
    decreases text.len(),
{
    if text.len() > 0 {
        lemma_split_not_empty(text.drop_last(), separator);
    }
}

/// The role and shell id after reading `pair` of the page's query: `role=`
/// makes the page primary unless it says `child`; `shell=` names it.
pub open spec fn read_pair(pair: Seq<char>, state: (bool, Seq<char>)) -> (bool, Seq<char>) {
    let primary = if has_prefix(pair, "role="@) {
        pair.subrange(5, pair.len() as int) != "child"@
    } else {
        state.0
    };
    let shell = if has_prefix(pair, "shell="@) {
        pair.subrange(6, pair.len() as int)
    } else {
        state.1
    };
    (primary, shell)
}

/// The role and shell id after reading `pairs` in order.
pub open spec fn read_pairs(pairs: Seq<Seq<char>>, state: (bool, Seq<char>)) -> (bool, Seq<char>)
    decreases pairs.len(),
{
    if pairs.len() == 0 {
        state
    } else {
        read_pair(pairs.last(), read_pairs(pairs.drop_last(), state))
    }
}

/// The role and shell id a page reads from its address's query `search`:
/// primary, under `default_shell`, unless the query says otherwise.
pub open spec fn shell_from_query(search: Seq<char>, default_shell: Seq<char>) -> (bool, Seq<char>) {
    read_pairs(split_on(strip_leading(search, '?'), '&'), (true, default_shell))
}

/// Reads one pair of the query.
fn read_query_pair(pair: &str, is_primary: &mut bool, shell: &mut String)
    ensures
        (*final(is_primary), final(shell)@) == read_pair(pair@, (*old(is_primary), old(shell)@)),
{
    proof {
        reveal_strlit("role=");
        reveal_strlit("shell=");
    }
    let length = pair.unicode_len();
    if starts_with(pair, "role=") {
        let role = pair.substring_char(5, length);
        *is_primary = !same_str(role, "child");
    }
    if starts_with(pair, "shell=") {
        *shell = String::from_str(pair.substring_char(6, length));
    }
}

/// The role and shell id a page reads from its address's query: whether
/// it is the primary page, and its shell id (`default_shell` unless the
/// query names one).
pub fn parse_shell_query(search: &str, default_shell: String) -> (shell: (bool, String))
    ensures
        (shell.0, shell.1@) == shell_from_query(search@, default_shell@),
{
    let length = search.unicode_len();
    let mut start: usize = 0;
    assert(search@.subrange(0, length as int) =~= search@);
    while start < length && search.get_char(start) == '?'
        invariant
            length == search@.len(),
            start <= length,
            strip_leading(search@, '?') == strip_leading(search@.subrange(start as int, length as int), '?'),
        decreases length - start,
    {
        proof {
            let rest = search@.subrange(start as int, length as int);
            assert(rest.drop_first() =~= search@.subrange(start + 1, length as int));
        }
        start = start + 1;
    }
    let ghost text = strip_leading(search@, '?');
    proof {
        let rest = search@.subrange(start as int, length as int);
        assert(start == length || rest[0] != '?');
        if start == length {
            assert(rest =~= Seq::<char>::empty());
        }
        assert(text == rest);
    }
    let mut is_primary = true;
    let mut shell = default_shell;
    let ghost initial = (true, default_shell@);
    let mut piece_start: usize = start;
    let mut index: usize = start;
    while index < length
        invariant
            length == search@.len(),
            start <= piece_start <= index <= length,
            text == search@.subrange(start as int, length as int),
            piece_start == start || search@[piece_start - 1] == '&',
            forall|i: int| piece_start <= i < index ==> search@[i] != '&',
            ({
                let pieces = split_on(search@.subrange(start as int, index as int), '&');
                &&& pieces.last() == search@.subrange(piece_start as int, index as int)
                &&& (is_primary, shell@) == read_pairs(pieces.drop_last(), initial)
            }),
        decreases length - index,
    {
        let ghost prefix = search@.subrange(start as int, index as int);
        let ghost next = search@.subrange(start as int, index + 1);
        proof {
            assert(next.drop_last() =~= prefix);
            assert(next.last() == search@[index as int]);
            lemma_split_not_empty(prefix, '&');
        }
        if search.get_char(index) == '&' {
            let pair = search.substring_char(piece_start, index);
            read_query_pair(pair, &mut is_primary, &mut shell);
            proof {
                let pieces = split_on(prefix, '&');
                let next_pieces = split_on(next, '&');
                assert(next_pieces == pieces.push(Seq::<char>::empty()));
                assert(next_pieces.drop_last() =~= pieces);
                assert(search@.subrange(index + 1, index + 1) =~= Seq::<char>::empty());
            }
            piece_start = index + 1;
        } else {
            proof {
                let pieces = split_on(prefix, '&');
                let next_pieces = split_on(next, '&');
                assert(next_pieces.drop_last() =~= pieces.drop_last());
                assert(next_pieces.last() =~= search@.subrange(piece_start as int, index + 1));
            }
        }
        index = index + 1;
    }
    let pair = search.substring_char(piece_start, length);
    read_query_pair(pair, &mut is_primary, &mut shell);
    proof {
        let pieces = split_on(text, '&');
        lemma_split_not_empty(text, '&');
        assert(pieces =~= pieces.drop_last().push(pieces.last()));
    }
    (is_primary, shell)
}


/// The lower-case hex digit for `digit` (below sixteen).
pub open spec fn hex_digit(digit: nat) -> char {
    "0123456789abcdef"@[digit as int]
}

/// The last `count` hex digits of `value`, most significant first, with
/// leading zeros.
pub open spec fn hex_digits(value: nat, count: nat) -> Seq<char>
    decreases count,
{
    if count == 0 {
        Seq::empty()
    } else {
        hex_digits(value / 16, (count - 1) as nat).push(hex_digit(value % 16))
    }
}

/// The shell id a page takes when its address names none: `page-` and the
/// random number as eight hex digits.
pub open spec fn default_shell_id_spec(random: u32) -> Seq<char> {
    "page-"@ + hex_digits(random as nat, 8)
}

fn hex_text(value: u32, count: u32) -> (text: String)
    requires
        count <= 8,
    ensures
        text@ == hex_digits(value as nat, count as nat),
    decreases count,
{
    if count == 0 {
        return String::new();
    }
    let mut text = hex_text(value / 16, count - 1);
    let digits = "0123456789abcdef";
    proof {
        reveal_strlit("0123456789abcdef");
    }
    let digit = (value % 16) as usize;
    let piece = digits.substring_char(digit, digit + 1);
    let ghost before = text@;
    text.append(piece);
    proof {
        assert(piece@ =~= seq![hex_digit((value % 16) as nat)]);
        assert(text@ =~= before.push(hex_digit((value % 16) as nat)));
    }
    text
}

/// The shell id a page takes when its address names none.
pub fn default_shell_id(random: u32) -> (id: String)
    ensures
        id@ == default_shell_id_spec(random),
{
    let mut id = String::from_str("page-");
    let digits = hex_text(random, 8);
    id.append(digits.as_str());
    id
}

/// The role and shell id a page reads from its address's query `search`,
/// with `random` for the id when the query names none.
pub fn detect_shell(search: &str, random: u32) -> (shell: (bool, String))
    ensures
        (shell.0, shell.1@) == shell_from_query(search@, default_shell_id_spec(random)),
{
    parse_shell_query(search, default_shell_id(random))
}


/// A shell topic, as the page that hears it understands it.
#[derive(Debug, Clone, Copy, PartialEq, Eq, Structural)]
pub enum PageTopic {
    Announce,
    ReportLayout,
    AssignLayout,
    RequestLayouts,
}

/// The primary page answers announcements and layout reports; a child page
/// answers its own assignment and layout requests.
pub open spec fn page_topic_spec(primary: bool, shell: Seq<char>, topic: Seq<char>) -> Option<PageTopic> {
    if primary {
        if topic == announce_topic_spec() {
            Some(PageTopic::Announce)
        } else if topic == report_layout_topic_spec() {
            Some(PageTopic::ReportLayout)
        } else {
            None
        }
    } else {
        if topic == assign_topic_spec(shell) {
            Some(PageTopic::AssignLayout)
        } else if topic == request_layouts_topic_spec() {
            Some(PageTopic::RequestLayouts)
        } else {
            None
        }
    }
}

/// Which shell topic `topic` is for the page `shell`, if it is one the page
/// answers.
pub fn classify_page_topic(is_primary: bool, shell: &str, topic: &String) -> (kind: Option<PageTopic>)
    ensures
        kind == page_topic_spec(is_primary, shell@, topic@),
{
    if is_primary {
        if *topic == announce_topic() {
            Some(PageTopic::Announce)
        } else if *topic == report_layout_topic() {
            Some(PageTopic::ReportLayout)
        } else {
            None
        }
    } else {
        if *topic == assign_topic(shell) {
            Some(PageTopic::AssignLayout)
        } else if *topic == request_layouts_topic() {
            Some(PageTopic::RequestLayouts)
        } else {
            None
        }
    }
}

} // verus!
