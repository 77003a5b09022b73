//! The file service of the demo windows: commands to pick, open and save
//! files through a dialog, and the results that come back.
use crate::topics::names;
use std::sync::mpsc::Receiver;
use vstd::prelude::*;

verus! {

/// A message to or from the file service.
pub enum FileSystemMessage {
    Command(FileSystemCommand),
    Result(FileSystemResult),
    Empty,
}

impl Default for FileSystemMessage {
    fn default() -> (message: Self)
        ensures
            message is Empty,
    {
        FileSystemMessage::Empty
    }
}

/// What the file service is asked to do; `tag` comes back with the result.
pub enum FileSystemCommand {
    NoCommand,
    PickFile { tag: String, filter_name: String, extensions: Vec<String> },
    PickFolder { tag: String },
    SaveFile { tag: String, bytes: Vec<u8>, filter_name: String, extensions: Vec<String> },
}

impl Default for FileSystemCommand {
    fn default() -> (command: Self)
        ensures
            command is NoCommand,
    {
        FileSystemCommand::NoCommand
    }
}

/// What a command came to.
pub enum FileSystemResult {
    Success(FileSystemSuccess),
    Error(FilesystemError),
}

impl Default for FileSystemResult {
    fn default() -> (result: Self)
        ensures
            result matches FileSystemResult::Success(FileSystemSuccess::Empty),
    {
        FileSystemResult::Success(FileSystemSuccess::Empty)
    }
}

/// A command that succeeded: the file read (or written, with no bytes), or
/// the folder picked.
pub enum FileSystemSuccess {
    Empty,
    File { path: String, bytes: Vec<u8>, tag: String },
    Folder { path: String, tag: String },
}

impl Default for FileSystemSuccess {
    fn default() -> (success: Self)
        ensures
            success is Empty,
    {
        FileSystemSuccess::Empty
    }
}

/// Why a command failed.
pub enum FilesystemError {
    NoError,
    ReadError(String),
    WriteError(String),
    NoFileSelected,
}

impl Default for FilesystemError {
    fn default() -> (error: Self)
        ensures
            error is NoError,
    {
        FilesystemError::NoError
    }
}

pub open spec fn tag_project_spec() -> Seq<char> {
    "project"@
}

pub open spec fn tag_project_save_spec() -> Seq<char> {
    "project_save"@
}

pub open spec fn tag_layout_spec() -> Seq<char> {
    "layout"@
}

pub open spec fn tag_layout_save_spec() -> Seq<char> {
    "layout_save"@
}

/// The tag of a project being opened.
pub fn tag_project() -> (tag: String)
    ensures
        tag@ == tag_project_spec(),
{
    String::from_str("project")
}

/// The tag of a project being saved.
pub fn tag_project_save() -> (tag: String)
    ensures
        tag@ == tag_project_save_spec(),
{
    String::from_str("project_save")
}

/// The tag of a layout being opened.
pub fn tag_layout() -> (tag: String)
    ensures
        tag@ == tag_layout_spec(),
{
    String::from_str("layout")
}

/// The tag of a layout being saved.
pub fn tag_layout_save() -> (tag: String)
    ensures
        tag@ == tag_layout_save_spec(),
{
    String::from_str("layout_save")
}

/// A file dialog, as far as the commands shape it: the filter it offers,
/// when the command names one.
pub struct DialogSpec {
    pub filter: Option<(String, Vec<String>)>,
}

/// The dialog for a command with `filter_name` and `extensions`: it filters
/// only when both are given.
pub fn build_dialog(filter_name: &String, extensions: &Vec<String>) -> (dialog: DialogSpec)
    ensures
        (filter_name@.len() > 0 && extensions@.len() > 0) <==> dialog.filter is Some,
        dialog.filter matches Some(filter) ==> filter.0@ == filter_name@ && names(filter.1@) == names(extensions@),
{
    if filter_name.unicode_len() > 0 && extensions.len() > 0 {
        DialogSpec { filter: Some((filter_name.clone(), crate::topics::copy_names(extensions))) }
    } else {
        DialogSpec { filter: None }
    }
}

/// A pick-file command waiting for its dialog.
pub struct PickFileTask {
    pub tag: String,
}

/// A pick-folder command waiting for its dialog.
pub struct PickFolderTask {
    pub tag: String,
}

/// A save-file command waiting for its dialog.
pub struct SaveFileTask {
    pub tag: String,
    pub bytes: Vec<u8>,
}

impl PickFileTask {
    /// The result once the dialog closed: with no file picked, an error;
    /// else the file's contents, or the error reading it.
    pub fn result(self, picked: Option<(String, Result<Vec<u8>, String>)>) -> (result: FileSystemResult)
        ensures
            match picked {
                None => result matches FileSystemResult::Error(FilesystemError::NoFileSelected),
                Some((path, Ok(bytes))) => result == FileSystemResult::Success(
                    FileSystemSuccess::File { path, bytes, tag: self.tag },
                ),
                Some((_, Err(reason))) => result == FileSystemResult::Error(FilesystemError::ReadError(reason)),
            },
    {
        match picked {
            None => FileSystemResult::Error(FilesystemError::NoFileSelected),
            Some((path, Ok(bytes))) => FileSystemResult::Success(FileSystemSuccess::File { path, bytes, tag: self.tag }),
            Some((_, Err(reason))) => FileSystemResult::Error(FilesystemError::ReadError(reason)),
        }
    }
}

impl PickFolderTask {
    /// The result once the dialog closed: the folder, or an error when none
    /// was picked.
    pub fn result(self, picked: Option<String>) -> (result: FileSystemResult)
        ensures
            match picked {
                None => result matches FileSystemResult::Error(FilesystemError::NoFileSelected),
                Some(path) => result == FileSystemResult::Success(FileSystemSuccess::Folder { path, tag: self.tag }),
            },
    {
        match picked {
            None => FileSystemResult::Error(FilesystemError::NoFileSelected),
            Some(path) => FileSystemResult::Success(FileSystemSuccess::Folder { path, tag: self.tag }),
        }
    }
}

impl SaveFileTask {
    /// The result once the dialog closed and the bytes were written: the
    /// file, with no bytes, or the error writing it, or an error when no
    /// file was picked.
    pub fn result(self, saved: Option<(String, Result<(), String>)>) -> (result: FileSystemResult)
        ensures
            match saved {
                None => result matches FileSystemResult::Error(FilesystemError::NoFileSelected),
                Some((path, Ok(()))) => result matches FileSystemResult::Success(
                    FileSystemSuccess::File { path: p, bytes, tag },
                ) && p == path && bytes@.len() == 0 && tag == self.tag,
                Some((_, Err(reason))) => result == FileSystemResult::Error(FilesystemError::WriteError(reason)),
            },
    {
        match saved {
            None => FileSystemResult::Error(FilesystemError::NoFileSelected),
            Some((path, Ok(()))) => FileSystemResult::Success(
                FileSystemSuccess::File { path, bytes: Vec::new(), tag: self.tag },
            ),
            Some((_, Err(reason))) => FileSystemResult::Error(FilesystemError::WriteError(reason)),
        }
    }
}

/// A message for the window's tile area: a file result to handle.
pub enum TileTreeMessage {
    ProcessFileResult(FileSystemResult),
    Empty,
}

impl Default for TileTreeMessage {
    fn default() -> (message: Self)
        ensures
            message is Empty,
    {
        TileTreeMessage::Empty
    }
}

#[verifier::external_type_specification]
#[verifier::external_body]
#[verifier::reject_recursive_types(T)]
pub struct ExReceiver<T>(Receiver<T>);

/// `std::sync::mpsc::Receiver::try_recv`: the next result a worker sent, if
/// one is waiting. What comes back depends on the workers; nothing is
/// stated of it.
#[verifier::external_body]
fn try_receive(receiver: &Receiver<FileSystemResult>) -> Option<FileSystemResult> {
    receiver.try_recv().ok()
}

/// The file service: the dialogs run on worker threads, which send their
/// results back through `receiver`.
pub struct FilesystemService {
    pub receiver: Receiver<FileSystemResult>,
}

/// Takes in what one look at the workers' channel found: a result goes
/// after those taken before, and the looking goes on; nothing waiting ends
/// it.
pub fn take_received(results: &mut Vec<FileSystemResult>, received: Option<FileSystemResult>) -> (go_on: bool)
    ensures
        go_on == received is Some,
        received is None ==> final(results)@ == old(results)@,
        received is Some ==> final(results)@ == old(results)@.push(received->0),
{
    match received {
        Some(result) => {
            results.push(result);
            true
        },
        None => false,
    }
}

impl FilesystemService {
    /// Takes the results that have arrived, in the order they arrived (see
    /// `take_received`). What arrives rests on the workers, so nothing is
    /// stated of it. (The count bound only gives the loop a measure: no
    /// vector of results can grow that long.)
    pub fn poll_results(&self) -> (results: Vec<FileSystemResult>) {
        let mut results: Vec<FileSystemResult> = Vec::new();
        let mut count: usize = 0;
        while count < usize::MAX
            invariant
                results@.len() == count,
            decreases usize::MAX - count,
        {
            if !take_received(&mut results, try_receive(&self.receiver)) {
                break;
            }
            count = count + 1;
        }
        results
    }
}

} // verus!
