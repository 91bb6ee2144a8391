//! The in-memory record of one startup entry and its mathematical model.
use vstd::prelude::*;

verus! {

/// Where a record was loaded from.
#[derive(Clone, Copy, Debug, PartialEq, Eq, Structural)]
pub enum StartupSource {
    UserAutostart,
    SystemAutostart,
    ShellProfile,
    Unknown,
}

/// One startup entry: the fields the application understands, and everything
/// else of the file kept verbatim.
#[derive(Clone, Debug)]
pub struct StartupEntry {
    pub name: String,
    pub command: String,
    pub enabled: bool,
    pub source: StartupSource,
    /// The file the record was loaded from or is stored at, as raw bytes.
    pub path: Option<Vec<u8>>,
    /// Unrecognized keys of the entry section, in order, duplicates kept.
    pub extra: Vec<(String, String)>,
    /// `(locale, value)` of each `Name[locale]` key, in order.
    pub localized_names: Vec<(String, String)>,
    /// Comment and blank lines of the entry section, in order.
    pub entry_comments: Vec<String>,
    /// Lines before the first section header.
    pub preamble: Vec<String>,
    /// Each other section, header line first, verbatim.
    pub other_groups: Vec<Vec<String>>,
}

/// The text content of a record: everything but its source and path.
pub struct EntryModel {
    pub name: Seq<char>,
    pub command: Seq<char>,
    pub enabled: bool,
    pub extra: Seq<(Seq<char>, Seq<char>)>,
    pub localized: Seq<(Seq<char>, Seq<char>)>,
    pub comments: Seq<Seq<char>>,
    pub preamble: Seq<Seq<char>>,
    pub others: Seq<Seq<Seq<char>>>,
}

impl View for StartupEntry {
    type V = EntryModel;

    open spec fn view(&self) -> EntryModel {
        EntryModel {
            name: self.name@,
            command: self.command@,
            enabled: self.enabled,
            extra: self.extra.deep_view(),
            localized: self.localized_names.deep_view(),
            comments: self.entry_comments.deep_view(),
            preamble: self.preamble.deep_view(),
            others: self.other_groups.deep_view(),
        }
    }
}

} // verus!
