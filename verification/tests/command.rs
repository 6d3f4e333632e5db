use p4_changelist::changelist::{P4Changelist, P4ChangelistResult};
use p4_changelist::command::{read_reply, ChangeError, ChangeReply, P4Command};
use p4_changelist::parser::ParseError;

#[test]
fn new_command_names_nothing() {
    let command = P4Command::new();
    assert_eq!(command.port, None);
    assert_eq!(command.client, None);
    assert_eq!(command.working_dir, None);
    assert_eq!(command.changelist, P4Changelist::Default);
    assert_eq!(command.description, None);
    assert!(command.files.is_empty());
}

#[test]
fn settings_chain() {
    let mut command = P4Command::new();
    command
        .client("myclient")
        .description("fix")
        .file("//depot/a.txt")
        .file("//depot/b.txt")
        .changelist(P4Changelist::Change(39));
    assert_eq!(command.client, Some("myclient".to_string()));
    assert_eq!(command.description, Some("fix".to_string()));
    assert_eq!(
        command.files,
        vec!["//depot/a.txt".to_string(), "//depot/b.txt".to_string()]
    );
    assert_eq!(command.changelist, P4Changelist::Change(39));
    assert_eq!(command.port, None);
    assert_eq!(command.working_dir, None);
}

#[test]
fn settings_accept_anything_and_overwrite() {
    let mut command = P4Command::new();
    command.client("").client("a b\n").description("x").description("");
    command.changelist(P4Changelist::New).changelist(P4Changelist::Default);
    command.file("");
    assert_eq!(command.client, Some("a b\n".to_string()));
    assert_eq!(command.description, Some(String::new()));
    assert_eq!(command.changelist, P4Changelist::Default);
    assert_eq!(command.files, vec![String::new()]);
}

#[test]
fn numbered_changelist_is_queried_by_number() {
    let mut command = P4Command::new();
    command.changelist(P4Changelist::Change(39));
    assert_eq!(command.change_arguments(), Some("/C p4 change -o 39".to_string()));
    command.changelist(P4Changelist::Change(0));
    assert_eq!(command.change_arguments(), Some("/C p4 change -o 0".to_string()));
    command.changelist(P4Changelist::Change(4294967295));
    assert_eq!(
        command.change_arguments(),
        Some("/C p4 change -o 4294967295".to_string())
    );
}

#[test]
fn other_changelists_are_not_queried() {
    let mut command = P4Command::new();
    assert_eq!(command.change_arguments(), None);
    command.changelist(P4Changelist::New);
    assert_eq!(command.change_arguments(), None);
}

#[test]
fn good_reply_is_read() {
    let reply = ChangeReply::Succeeded("Change: 39\nStatus: pending\n".to_string());
    let record = read_reply(reply).unwrap();
    assert_eq!(record.changelist, P4Changelist::Change(39));
    assert_eq!(record.status, Some("pending".to_string()));
}

#[test]
fn empty_reply_gives_empty_record() {
    assert_eq!(
        read_reply(ChangeReply::Succeeded(String::new())),
        Ok(P4ChangelistResult::new())
    );
}

#[test]
fn unreadable_reply_is_an_error() {
    assert_eq!(
        read_reply(ChangeReply::Succeeded("Change: new\n".to_string())),
        Err(ChangeError::Unreadable(ParseError::InvalidChange("new".to_string())))
    );
}

#[test]
fn failed_process_gives_its_words() {
    assert_eq!(
        read_reply(ChangeReply::Failed("Change 39 unknown.\n".to_string())),
        Err(ChangeError::Tool("Change 39 unknown.\n".to_string()))
    );
}

#[test]
fn process_that_did_not_start_gives_the_reason() {
    assert_eq!(
        read_reply(ChangeReply::NotStarted("not found".to_string())),
        Err(ChangeError::Spawn("not found".to_string()))
    );
}

#[test]
fn lost_process_gives_empty_record() {
    assert_eq!(read_reply(ChangeReply::Lost), Ok(P4ChangelistResult::new()));
}

#[test]
fn change_error_messages() {
    assert_eq!(
        ChangeError::Spawn("not found".to_string()).message(),
        "Failed to spawn process. Reason: not found"
    );
    assert_eq!(
        ChangeError::Tool("Change 39 unknown.\n".to_string()).message(),
        "Error in p4 change. Reason: Change 39 unknown.\n"
    );
    assert_eq!(
        ChangeError::Unreadable(ParseError::InvalidChange("new".to_string())).message(),
        "Not a changelist number: new"
    );
}
