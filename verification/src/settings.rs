//! The user's settings: the startup project, the recently opened projects,
//! the chosen theme.
use crate::topics::{lemma_without_facts, names, no_duplicates, retain_others, without};
use vstd::prelude::*;

verus! {

/// How many recent projects are remembered.
pub const MAX_RECENT_PROJECTS: usize = 10;

/// The user's settings.
pub struct UserSettings {
    pub default_project_path: Option<String>,
    pub recent_projects: Vec<String>,
    pub theme_name: Option<String>,
}

/// `recent` after `path` was opened: `path` first, then the others in their
/// order, at most `MAX_RECENT_PROJECTS` in all.
pub open spec fn recent_after_adding(recent: Seq<Seq<char>>, path: Seq<char>) -> Seq<Seq<char>> {
    let all = seq![path] + without(recent, path);
    if all.len() > MAX_RECENT_PROJECTS {
        all.take(MAX_RECENT_PROJECTS as int)
    } else {
        all
    }
}

impl UserSettings {
    pub open spec fn recent(&self) -> Seq<Seq<char>> {
        names(self.recent_projects@)
    }

    /// Records that the project at `path` was opened: it moves to the front
    /// of the recent projects, which keep at most `MAX_RECENT_PROJECTS`.
    /// `path` is taken as given; the caller makes it canonical.
    pub fn add_recent_project(&mut self, path: String)
        ensures
            final(self).recent() == recent_after_adding(old(self).recent(), path@),
            final(self).default_project_path == old(self).default_project_path,
            final(self).theme_name == old(self).theme_name,
    {
        proof {
            lemma_without_facts(self.recent(), path@);
        }
        let mut recent = retain_others(&self.recent_projects, &path);
        let ghost kept = names(recent@);
        recent.insert(0, path);
        proof {
            assert(names(recent@) =~= seq![recent@[0]@] + kept);
        }
        if recent.len() > MAX_RECENT_PROJECTS {
            recent.truncate(MAX_RECENT_PROJECTS);
            proof {
                assert(names(recent@) =~= (seq![path@] + kept).take(MAX_RECENT_PROJECTS as int));
            }
        }
        self.recent_projects = recent;
    }

    /// Forgets the recent projects but the startup project, which stays
    /// listed when there is one.
    pub fn clear_recent_projects(&mut self)
        ensures
            final(self).recent() == match old(self).default_project_path {
                Some(path) => seq![path@],
                None => Seq::<Seq<char>>::empty(),
            },
            final(self).default_project_path == old(self).default_project_path,
            final(self).theme_name == old(self).theme_name,
    {
        self.recent_projects.clear();
        match &self.default_project_path {
            Some(path) => {
                self.recent_projects.push(path.clone());
                assert(self.recent() =~= seq![path@]);
            },
            None => {
                assert(self.recent() =~= Seq::<Seq<char>>::empty());
            },
        }
    }

    /// Makes the project at `path` the one opened at startup, and records
    /// it as recently opened.
    pub fn set_startup_project(&mut self, path: String)
        ensures
            final(self).default_project_path matches Some(startup) && startup@ == path@,
            final(self).recent() == recent_after_adding(old(self).recent(), path@),
            final(self).theme_name == old(self).theme_name,
    {
        self.default_project_path = Some(path.clone());
        self.add_recent_project(path);
    }
}

impl Default for UserSettings {
    fn default() -> (settings: Self)
        ensures
            settings.default_project_path is None,
            settings.recent_projects@.len() == 0,
            settings.theme_name is None,
    {
        UserSettings { default_project_path: None, recent_projects: Vec::new(), theme_name: None }
    }
}

/// After a project is opened it is the most recent one, it is listed once,
/// no more than `MAX_RECENT_PROJECTS` are listed, and a list without
/// duplicates stays without them.
pub proof fn lemma_recent_projects(recent: Seq<Seq<char>>, path: Seq<char>)
    ensures
        recent_after_adding(recent, path).len() <= MAX_RECENT_PROJECTS,
        recent_after_adding(recent, path)[0] == path,
        forall|i: int| 0 < i < recent_after_adding(recent, path).len() ==> #[trigger] recent_after_adding(recent, path)[i] != path,
        no_duplicates(recent) ==> no_duplicates(recent_after_adding(recent, path)),
        forall|i: int| 0 < i < recent_after_adding(recent, path).len() ==> recent.contains(#[trigger] recent_after_adding(recent, path)[i]),
{
    lemma_without_facts(recent, path);
    let kept = without(recent, path);
    let all = seq![path] + kept;
    assert forall|i: int| 0 < i < all.len() implies all[i] != path && recent.contains(all[i]) by {
        assert(all[i] == kept[i - 1]);
        assert(kept.contains(kept[i - 1]));
    }
    if no_duplicates(recent) {
        assert forall|i: int, j: int| 0 <= i < j < all.len() implies all[i] != all[j] by {
            if i > 0 {
                assert(all[i] == kept[i - 1]);
                assert(all[j] == kept[j - 1]);
            } else {
                assert(all[j] == kept[j - 1]);
                assert(kept.contains(kept[j - 1]));
            }
        }
    }
}

/// Whether `c` is white space, as Unicode's White_Space property has it.
pub open spec fn is_white_space(c: char) -> bool {
    let code = c as u32;
    ||| 0x09 <= code <= 0x0d
    ||| code == 0x20
    ||| code == 0x85
    ||| code == 0xa0
    ||| code == 0x1680
    ||| 0x2000 <= code <= 0x200a
    ||| code == 0x2028
    ||| code == 0x2029
    ||| code == 0x202f
    ||| code == 0x205f
    ||| code == 0x3000
}

/// Whether `text` is empty or white space only.
pub open spec fn is_blank(text: Seq<char>) -> bool {
    forall|i: int| 0 <= i < text.len() ==> is_white_space(#[trigger] text[i])
}

/// Whether `c` is white space.
pub fn white_space(c: char) -> (result: bool)
    ensures
        result == is_white_space(c),
{
    let code = c as u32;
    (0x09 <= code && code <= 0x0d) || code == 0x20 || code == 0x85 || code == 0xa0 || code == 0x1680 || (0x2000
        <= code && code <= 0x200a) || code == 0x2028 || code == 0x2029 || code == 0x202f || code == 0x205f || code
        == 0x3000
}

/// Whether `text` is empty or white space only.
pub fn blank(text: &str) -> (result: bool)
    ensures
        result == is_blank(text@),
{
    let length = text.unicode_len();
    let mut index: usize = 0;
    while index < length
        invariant
            length == text@.len(),
            index <= length,
            forall|i: int| 0 <= i < index ==> is_white_space(#[trigger] text@[i]),
        decreases length - index,
    {
        if !white_space(text.get_char(index)) {
            return false;
        }
        index = index + 1;
    }
    true
}

pub open spec fn untitled_project_spec() -> Seq<char> {
    "Untitled Project"@
}

/// The name a project gets when it has none.
pub fn untitled_project() -> (name: String)
    ensures
        name@ == untitled_project_spec(),
{
    String::from_str("Untitled Project")
}

/// The name an opened project shows: the name it records unless that is
/// blank, else its file's stem, else "Untitled Project".
pub open spec fn opened_project_name(recorded: Option<Seq<char>>, file_stem: Option<Seq<char>>) -> Seq<char> {
    match recorded {
        Some(name) if !is_blank(name) => name,
        _ => match file_stem {
            Some(stem) => stem,
            None => untitled_project_spec(),
        },
    }
}

pub open spec fn text_view(text: Option<String>) -> Option<Seq<char>> {
    match text {
        Some(t) => Some(t@),
        None => None,
    }
}

/// The name an opened project shows, given the name it records and its
/// file's stem.
pub fn derive_project_name(recorded: Option<String>, file_stem: Option<String>) -> (name: String)
    ensures
        name@ == opened_project_name(text_view(recorded), text_view(file_stem)),
{
    match recorded {
        Some(name) => {
            if !blank(name.as_str()) {
                return name;
            }
        },
        None => {},
    }
    match file_stem {
        Some(stem) => stem,
        None => untitled_project(),
    }
}

pub open spec fn unknown_project_spec() -> Seq<char> {
    "Unknown Project"@
}

/// The name a recent project is listed under: the name its file records,
/// else the file's stem, else "Unknown Project".
pub fn recent_project_name(recorded: Option<String>, file_stem: Option<String>) -> (name: String)
    ensures
        recorded matches Some(r) ==> name@ == r@,
        recorded is None ==> (file_stem matches Some(stem) ==> name@ == stem@),
        recorded is None && file_stem is None ==> name@ == unknown_project_spec(),
{
    match recorded {
        Some(name) => name,
        None => match file_stem {
            Some(stem) => stem,
            None => String::from_str("Unknown Project"),
        },
    }
}

/// The string a JSON object holds under `key`.
pub uninterp spec fn json_string_at(json: Seq<char>, key: Seq<char>) -> Option<Seq<char>>;

/// `serde_json::from_str::<serde_json::Value>` on `json`, then the string
/// under `key` (`Value::get`, `Value::as_str`): `None` when the text does not
/// parse, or holds no string there. The result is named, not stated.
#[verifier::external_body]
fn json_string_field(json: &str, key: &str) -> (field: Option<String>)
    ensures
        text_view(field) == json_string_at(json@, key@),
{
    match serde_json::from_str::<serde_json::Value>(json) {
        Ok(value) => match value.get(key) {
            Some(field) => match field.as_str() {
                Some(text) => Some(text.to_string()),
                None => None,
            },
            None => None,
        },
        Err(_) => None,
    }
}

pub open spec fn recorded_name(contents: Option<Seq<char>>) -> Option<Seq<char>> {
    match contents {
        Some(json) => json_string_at(json, "project_name"@),
        None => None,
    }
}

/// The name a recent project is listed under, given its file's contents
/// (`None` when it could not be read) and its file's stem.
pub fn listed_project_name(contents: Option<String>, file_stem: Option<String>) -> (name: String)
    ensures
        recorded_name(text_view(contents)) matches Some(r) ==> name@ == r,
        recorded_name(text_view(contents)) is None ==> (file_stem matches Some(stem) ==> name@ == stem@),
        recorded_name(text_view(contents)) is None && file_stem is None ==> name@ == unknown_project_spec(),
{
    let recorded = match contents {
        Some(json) => {
            proof {
                reveal_strlit("project_name");
            }
            json_string_field(json.as_str(), "project_name")
        },
        None => None,
    };
    recent_project_name(recorded, file_stem)
}

} // verus!
