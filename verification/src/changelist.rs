//! The changelist selector and the record that a changelist query yields.

use vstd::prelude::*;

verus! {

/// Which changelist a command addresses.
#[derive(Clone, Copy, Debug, PartialEq, Eq, Structural)]
pub enum P4Changelist {
    /// The implicit default changelist.
    Default,
    /// A changelist that does not exist yet.
    New,
    /// An existing changelist, by number.
    Change(u32),
}

/// What a changelist description says, field by field.
///
/// A field that the description never mentions stays `None`.
#[derive(Clone, Debug, PartialEq, Eq)]
pub struct P4ChangelistResult {
    pub changelist: P4Changelist,
    pub description: Option<String>,
    pub status: Option<String>,
    pub user: Option<String>,
    pub client: Option<String>,
    /// Depot path and action of each file, in the order of the description.
    pub files: Option<Vec<(String, String)>>,
}

/// The mathematical content of a [`P4ChangelistResult`]: text as sequences
/// of characters.
pub struct ChangelistRecord {
    pub changelist: P4Changelist,
    pub description: Option<Seq<char>>,
    pub status: Option<Seq<char>>,
    pub user: Option<Seq<char>>,
    pub client: Option<Seq<char>>,
    pub files: Option<Seq<(Seq<char>, Seq<char>)>>,
}

/// The record of a description that mentions nothing.
pub open spec fn empty_record() -> ChangelistRecord {
    ChangelistRecord {
        changelist: P4Changelist::Default,
        description: None,
        status: None,
        user: None,
        client: None,
        files: None,
    }
}

/// The content of an optional string.
pub open spec fn text_of(s: Option<String>) -> Option<Seq<char>> {
    match s {
        Some(t) => Some(t@),
        None => None,
    }
}

/// The content of a list of (path, action) pairs.
pub open spec fn pairs_of(files: Seq<(String, String)>) -> Seq<(Seq<char>, Seq<char>)> {
    Seq::new(files.len(), |i: int| (files[i].0@, files[i].1@))
}

impl View for P4ChangelistResult {
    type V = ChangelistRecord;

    open spec fn view(&self) -> ChangelistRecord {
        ChangelistRecord {
            changelist: self.changelist,
            description: text_of(self.description),
            status: text_of(self.status),
            user: text_of(self.user),
            client: text_of(self.client),
            files: match self.files {
                Some(f) => Some(pairs_of(f@)),
                None => None,
            },
        }
    }
}

impl P4ChangelistResult {
    /// A record with the default selector and every field absent.
    pub fn new() -> (result: P4ChangelistResult)
        ensures
            result@ == empty_record(),
    {
        P4ChangelistResult {
            changelist: P4Changelist::Default,
            description: None,
            status: None,
            user: None,
            client: None,
            files: None,
        }
    }
}

/// How a command of the client ended.
#[derive(Clone, Debug, PartialEq, Eq)]
pub enum P4Result {
    P4Success,
    /// The lines with which the client reported the failure.
    P4Error(Vec<String>),
}

/// What a command on files did, file by file: for each file a pair of its
/// path and the client's message.
#[derive(Clone, Debug, PartialEq, Eq)]
pub struct P4FileCommandResult {
    pub changelist: P4Changelist,
    pub success: Vec<(String, String)>,
    pub failure: Vec<(String, String)>,
}

} // verus!
