//! Operations on records in memory: creating, editing and toggling, and the
//! checks that come before any of them touches a file.
use vstd::prelude::*;
use crate::model::{StartupEntry, StartupSource};
use crate::slug::{slug_spec, slugify};
use crate::text::{chars_of, string_of, push_chars, trim, trimmed};

verus! {

/// Why an operation on a record was refused.
#[derive(Clone, Copy, Debug, PartialEq, Eq, Structural)]
pub enum EntryError {
    /// No record is selected.
    NoSelection,
    /// The selection does not name a record.
    InvalidSelection,
    /// Only user autostart records may be changed.
    NotUserOwned,
    /// A name and a command are both required.
    MissingField,
    /// The record has no file.
    NoPath,
}

impl EntryError {
    /// A human-readable message.
    pub fn message(&self) -> (r: &'static str)
        ensures
            *self == EntryError::NoSelection ==> r@ == "No item selected"@,
            *self == EntryError::InvalidSelection ==> r@ == "Invalid selection"@,
            *self == EntryError::NotUserOwned ==> r@ == "Only user autostart entries can be changed"@,
            *self == EntryError::MissingField ==> r@ == "Name and command are required"@,
            *self == EntryError::NoPath ==> r@ == "Entry has no associated file path"@,
    {
        match self {
            EntryError::NoSelection => "No item selected",
            EntryError::InvalidSelection => "Invalid selection",
            EntryError::NotUserOwned => "Only user autostart entries can be changed",
            EntryError::MissingField => "Name and command are required",
            EntryError::NoPath => "Entry has no associated file path",
        }
    }
}

/// The label of a source, as lists show it.
pub fn source_label(source: &StartupSource) -> (r: &'static str)
    ensures
        *source == StartupSource::UserAutostart ==> r@ == "user"@,
        *source == StartupSource::SystemAutostart ==> r@ == "system"@,
        *source == StartupSource::ShellProfile ==> r@ == "shell"@,
        *source == StartupSource::Unknown ==> r@ == "unknown"@,
{
    match source {
        StartupSource::UserAutostart => "user",
        StartupSource::SystemAutostart => "system",
        StartupSource::ShellProfile => "shell",
        StartupSource::Unknown => "unknown",
    }
}

/// The index of the selected record, if the selection names one.
pub fn selected_index(selected: Option<usize>, len: usize) -> (r: Result<usize, EntryError>)
    ensures
        selected is None ==> r == Err::<usize, EntryError>(EntryError::NoSelection),
        selected matches Some(i) ==> (if i < len {
            r == Ok::<usize, EntryError>(i)
        } else {
            r == Err::<usize, EntryError>(EntryError::InvalidSelection)
        }),
{
    match selected {
        None => Err(EntryError::NoSelection),
        Some(i) => if i < len {
            Ok(i)
        } else {
            Err(EntryError::InvalidSelection)
        },
    }
}

/// Refuses records that are not user autostart entries.
pub fn require_user_owned(entry: &StartupEntry) -> (r: Result<(), EntryError>)
    ensures
        r is Ok <==> entry.source == StartupSource::UserAutostart,
        r is Err ==> r == Err::<(), EntryError>(EntryError::NotUserOwned),
{
    if entry.source == StartupSource::UserAutostart {
        Ok(())
    } else {
        Err(EntryError::NotUserOwned)
    }
}

/// Flips whether a user record is enabled; other records are refused and
/// left as they are.
pub fn toggle_entry(entry: &mut StartupEntry) -> (r: Result<(), EntryError>)
    ensures
        r is Ok <==> old(entry).source == StartupSource::UserAutostart,
        r is Err ==> r == Err::<(), EntryError>(EntryError::NotUserOwned),
        r is Err ==> *final(entry) == *old(entry),
        r is Ok ==> *final(entry) == (StartupEntry { enabled: !old(entry).enabled, ..*old(entry) }),
{
    if entry.source != StartupSource::UserAutostart {
        return Err(EntryError::NotUserOwned);
    }
    entry.enabled = !entry.enabled;
    Ok(())
}

/// The record with a new name and command, everything else kept. A name or
/// a command that is blank once trimmed is refused.
pub fn edited_entry(entry: StartupEntry, name: String, command: String) -> (r: Result<
    StartupEntry,
    EntryError,
>)
    ensures
        r is Err <==> trim(name@).len() == 0 || trim(command@).len() == 0,
        r is Err ==> r == Err::<StartupEntry, EntryError>(EntryError::MissingField),
        r matches Ok(e) ==> e == (StartupEntry { name, command, ..entry }),
{
    let n = chars_of(name.as_str());
    let c = chars_of(command.as_str());
    if trimmed(&n).len() == 0 || trimmed(&c).len() == 0 {
        return Err(EntryError::MissingField);
    }
    Ok(StartupEntry { name, command, ..entry })
}

/// The index of the record that a delete may remove: a selected user record
/// with a file.
pub fn delete_target(entries: &[StartupEntry], selected: Option<usize>) -> (r: Result<
    usize,
    EntryError,
>)
    ensures
        selected is None ==> r == Err::<usize, EntryError>(EntryError::NoSelection),
        selected matches Some(i) ==> (if i >= entries.len() {
            r == Err::<usize, EntryError>(EntryError::InvalidSelection)
        } else if entries@[i as int].source != StartupSource::UserAutostart {
            r == Err::<usize, EntryError>(EntryError::NotUserOwned)
        } else if entries@[i as int].path is None {
            r == Err::<usize, EntryError>(EntryError::NoPath)
        } else {
            r == Ok::<usize, EntryError>(i)
        }),
{
    let i = selected_index(selected, entries.len())?;
    if entries[i].source != StartupSource::UserAutostart {
        return Err(EntryError::NotUserOwned);
    }
    if entries[i].path.is_none() {
        return Err(EntryError::NoPath);
    }
    Ok(i)
}

/// The file name of a new record called `name`: its slug and `.desktop`.
pub fn entry_file_name(name: &str) -> (r: String)
    ensures
        r@ == slug_spec(name@) + ".desktop"@,
{
    let mut v = chars_of(slugify(name).as_str());
    push_chars(&mut v, ".desktop");
    string_of(&v)
}

/// A new, enabled user record with nothing else in it, stored at `path`.
/// A name or a command that is blank once trimmed is refused.
pub fn new_user_entry(name: &str, command: &str, path: Vec<u8>) -> (r: Result<
    StartupEntry,
    EntryError,
>)
    ensures
        r is Err <==> trim(name@).len() == 0 || trim(command@).len() == 0,
        r is Err ==> r == Err::<StartupEntry, EntryError>(EntryError::MissingField),
        r matches Ok(e) ==> e.name@ == name@ && e.command@ == command@ && e.enabled && e.source
            == StartupSource::UserAutostart && e.path == Some(path) && e.extra.len() == 0
            && e.localized_names.len() == 0 && e.entry_comments.len() == 0 && e.preamble.len()
            == 0 && e.other_groups.len() == 0,
{
    let n = chars_of(name);
    let c = chars_of(command);
    if trimmed(&n).len() == 0 || trimmed(&c).len() == 0 {
        return Err(EntryError::MissingField);
    }
    Ok(
        StartupEntry {
            name: string_of(&n),
            command: string_of(&c),
            enabled: true,
            source: StartupSource::UserAutostart,
            path: Some(path),
            extra: Vec::new(),
            localized_names: Vec::new(),
            entry_comments: Vec::new(),
            preamble: Vec::new(),
            other_groups: Vec::new(),
        },
    )
}

} // verus!
