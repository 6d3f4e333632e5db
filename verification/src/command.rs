//! The configuration of one call of the command-line client, the arguments
//! of a changelist query, and the reading of what the client answered.

use crate::changelist::{
    empty_record, text_of, ChangelistRecord, P4Changelist, P4ChangelistResult,
};
use crate::parser::{failure_message, parse_text, ParseError, ParseFailure};
use crate::text::{decimal, push_decimal, texts};
use crate::trusted::string_from_chars;
use vstd::prelude::*;
use vstd::string::StringExecFns;

verus! {

/// What one call of the client is to be made with.
#[derive(Clone, Debug, PartialEq, Eq)]
pub struct P4Command {
    pub port: Option<String>,
    pub client: Option<String>,
    pub working_dir: Option<String>,
    pub changelist: P4Changelist,
    pub description: Option<String>,
    pub files: Vec<String>,
}

/// The mathematical content of a [`P4Command`].
pub struct CommandConfig {
    pub port: Option<Seq<char>>,
    pub client: Option<Seq<char>>,
    pub working_dir: Option<Seq<char>>,
    pub changelist: P4Changelist,
    pub description: Option<Seq<char>>,
    pub files: Seq<Seq<char>>,
}

/// The configuration that names nothing and addresses the default
/// changelist.
pub open spec fn empty_config() -> CommandConfig {
    CommandConfig {
        port: None,
        client: None,
        working_dir: None,
        changelist: P4Changelist::Default,
        description: None,
        files: Seq::empty(),
    }
}

impl View for P4Command {
    type V = CommandConfig;

    open spec fn view(&self) -> CommandConfig {
        CommandConfig {
            port: text_of(self.port),
            client: text_of(self.client),
            working_dir: text_of(self.working_dir),
            changelist: self.changelist,
            description: text_of(self.description),
            files: texts(self.files@),
        }
    }
}

/// The words that every changelist query begins with.
pub open spec fn query_prefix() -> Seq<char> {
    "/C p4 change -o "@
}

/// The argument text that asks for the changelist `selector`, where there
/// is one to ask for: only a numbered changelist can be queried.
pub open spec fn query_arguments(selector: P4Changelist) -> Option<Seq<char>> {
    match selector {
        P4Changelist::Change(number) => Some(query_prefix() + decimal(number as nat)),
        _ => None,
    }
}

impl P4Command {
    /// A configuration that names nothing and addresses the default
    /// changelist.
    pub fn new() -> (command: P4Command)
        ensures
            command@ == empty_config(),
    {
        let command = P4Command {
            port: None,
            client: None,
            working_dir: None,
            changelist: P4Changelist::Default,
            description: None,
            files: Vec::new(),
        };
        assert(command@.files =~= Seq::empty());
        command
    }

    /// Adds `file` behind the files to operate on.
    pub fn file(&mut self, file: &str) -> (same: &mut P4Command)
        ensures
            (*same)@ == (CommandConfig { files: old(self)@.files.push(file@), ..old(self)@ }),
            *final(self) == *final(same),
    {
        self.files.push(String::from_str(file));
        assert(self@.files =~= old(self)@.files.push(file@));
        self
    }

    /// Sets the description text.
    pub fn description(&mut self, desc: &str) -> (same: &mut P4Command)
        ensures
            (*same)@ == (CommandConfig { description: Some(desc@), ..old(self)@ }),
            *final(self) == *final(same),
    {
        self.description = Some(String::from_str(desc));
        self
    }

    /// Sets the name of the client workspace.
    pub fn client(&mut self, client: &str) -> (same: &mut P4Command)
        ensures
            (*same)@ == (CommandConfig { client: Some(client@), ..old(self)@ }),
            *final(self) == *final(same),
    {
        self.client = Some(String::from_str(client));
        self
    }

    /// Sets the changelist that the command addresses.
    pub fn changelist(&mut self, changelist: P4Changelist) -> (same: &mut P4Command)
        ensures
            (*same)@ == (CommandConfig { changelist: changelist, ..old(self)@ }),
            *final(self) == *final(same),
    {
        self.changelist = changelist;
        self
    }

    /// The argument text of the query for the addressed changelist, if it
    /// is one that can be queried.
    pub fn change_arguments(&self) -> (arguments: Option<String>)
        ensures
            text_of(arguments) == query_arguments(self.changelist),
    {
        match self.changelist {
            P4Changelist::Change(number) => {
                let mut digits: Vec<char> = Vec::new();
                push_decimal(number, &mut digits);
                assert(digits@ =~= decimal(number as nat));
                let written = string_from_chars(&digits);
                Some(String::from_str("/C p4 change -o ").concat(written.as_str()))
            },
            _ => None,
        }
    }
}

/// What became of the client process that was to answer a query.
#[derive(Clone, Debug, PartialEq, Eq)]
pub enum ChangeReply {
    /// The process could not be started. Carries the reason.
    NotStarted(String),
    /// The process ended well. Carries what it wrote to its standard output.
    Succeeded(String),
    /// The process ended badly. Carries what it wrote to its standard error.
    Failed(String),
    /// The process was started, and how it ended is not known.
    Lost,
}

/// Why a query gave no record.
#[derive(Clone, Debug, PartialEq, Eq)]
pub enum ChangeError {
    /// The client could not be started. Carries the reason.
    Spawn(String),
    /// The client reported a failure. Carries its words.
    Tool(String),
    /// The client answered with a description that cannot be read.
    Unreadable(ParseError),
}

/// The mathematical content of a [`ChangeError`].
pub enum ChangeFailure {
    Spawn(Seq<char>),
    Tool(Seq<char>),
    Unreadable(ParseFailure),
}

impl View for ChangeError {
    type V = ChangeFailure;

    open spec fn view(&self) -> ChangeFailure {
        match *self {
            ChangeError::Spawn(reason) => ChangeFailure::Spawn(reason@),
            ChangeError::Tool(words) => ChangeFailure::Tool(words@),
            ChangeError::Unreadable(error) => ChangeFailure::Unreadable(error@),
        }
    }
}

/// What a reply amounts to: a good answer is read as a description, a
/// process of which nothing is known leaves the record empty, and the
/// other two are failures.
pub open spec fn reply_outcome(reply: ChangeReply) -> Result<ChangelistRecord, ChangeFailure> {
    match reply {
        ChangeReply::NotStarted(reason) => Err(ChangeFailure::Spawn(reason@)),
        ChangeReply::Succeeded(output) => match parse_text(output@) {
            Ok(record) => Ok(record),
            Err(failure) => Err(ChangeFailure::Unreadable(failure)),
        },
        ChangeReply::Failed(words) => Err(ChangeFailure::Tool(words@)),
        ChangeReply::Lost => Ok(empty_record()),
    }
}

/// The mathematical content of the result of a query.
pub open spec fn change_outcome(result: Result<P4ChangelistResult, ChangeError>) -> Result<
    ChangelistRecord,
    ChangeFailure,
> {
    match result {
        Ok(record) => Ok(record@),
        Err(error) => Err(error@),
    }
}

/// Turns the reply to a changelist query into its result.
pub fn read_reply(reply: ChangeReply) -> (result: Result<P4ChangelistResult, ChangeError>)
    ensures
        change_outcome(result) == reply_outcome(reply),
{
    match reply {
        ChangeReply::NotStarted(reason) => Err(ChangeError::Spawn(reason)),
        ChangeReply::Succeeded(output) => match P4ChangelistResult::try_from_text(
            output.as_str(),
        ) {
            Ok(record) => Ok(record),
            Err(error) => Err(ChangeError::Unreadable(error)),
        },
        ChangeReply::Failed(words) => Err(ChangeError::Tool(words)),
        ChangeReply::Lost => Ok(P4ChangelistResult::new()),
    }
}

/// What a failed query reads like.
pub open spec fn change_failure_message(failure: ChangeFailure) -> Seq<char> {
    match failure {
        ChangeFailure::Spawn(reason) => "Failed to spawn process. Reason: "@ + reason,
        ChangeFailure::Tool(words) => "Error in p4 change. Reason: "@ + words,
        ChangeFailure::Unreadable(failure) => failure_message(failure),
    }
}

impl ChangeError {
    /// The error in words.
    pub fn message(&self) -> (text: String)
        ensures
            text@ == change_failure_message(self@),
    {
        match self {
            ChangeError::Spawn(reason) => String::from_str(
                "Failed to spawn process. Reason: ",
            ).concat(reason.as_str()),
            ChangeError::Tool(words) => String::from_str("Error in p4 change. Reason: ").concat(
                words.as_str(),
            ),
            ChangeError::Unreadable(error) => error.message(),
        }
    }
}

} // verus!
