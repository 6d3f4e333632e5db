use p4_changelist::changelist::{P4Changelist, P4ChangelistResult};
use p4_changelist::parser::ParseError;

fn read(text: &str) -> P4ChangelistResult {
    match P4ChangelistResult::try_from_text(text) {
        Ok(record) => record,
        Err(error) => panic!("unreadable: {:?}", error),
    }
}

fn pair(path: &str, action: &str) -> (String, String) {
    (path.to_string(), action.to_string())
}

#[test]
fn new_record_is_empty() {
    let record = P4ChangelistResult::new();
    assert_eq!(record.changelist, P4Changelist::Default);
    assert_eq!(record.description, None);
    assert_eq!(record.status, None);
    assert_eq!(record.user, None);
    assert_eq!(record.client, None);
    assert_eq!(record.files, None);
}

#[test]
fn empty_text_gives_empty_record() {
    assert_eq!(read(""), P4ChangelistResult::new());
}

#[test]
fn text_without_known_keys_gives_empty_record() {
    let text = "hello\nJob: 12\n# Change: 5\n\n change: 7\nchange: 8\n\tStatus: x\nOptions\n";
    assert_eq!(read(text), P4ChangelistResult::new());
}

#[test]
fn change_line_gives_numbered_selector() {
    let record = read("Change: 39\n");
    assert_eq!(record.changelist, P4Changelist::Change(39));
    assert_eq!(record.description, None);
    assert_eq!(record.files, None);
}

#[test]
fn change_line_among_other_lines() {
    let record = read("# A changelist\n\nChange: 39\nJob: none\n");
    assert_eq!(record.changelist, P4Changelist::Change(39));
}

#[test]
fn change_number_forms() {
    assert_eq!(read("Change:39").changelist, P4Changelist::Change(39));
    assert_eq!(read("Change: +39").changelist, P4Changelist::Change(39));
    assert_eq!(read("Change: 0039 ").changelist, P4Changelist::Change(39));
    assert_eq!(read("Change:\t0\r").changelist, P4Changelist::Change(0));
    assert_eq!(
        read("Change: 4294967295").changelist,
        P4Changelist::Change(4294967295)
    );
}

#[test]
fn description_block_ends_at_unindented_line() {
    let record = read("Description:\n\tfoo\n\tbar\nStatus: pending\n");
    assert_eq!(record.description, Some("foo\nbar".to_string()));
    assert_eq!(record.status, Some("pending".to_string()));
}

#[test]
fn description_lines_are_trimmed() {
    let record = read("Description:\n\t  first line \t\n\t\n\t\tsecond\r\nUser: me");
    assert_eq!(record.description, Some("first line\n\nsecond".to_string()));
    assert_eq!(record.user, Some("me".to_string()));
}

#[test]
fn description_without_block_is_empty() {
    let record = read("Description: on the same line\nUser: me\n");
    assert_eq!(record.description, Some(String::new()));
    assert_eq!(record.user, Some("me".to_string()));
}

#[test]
fn description_key_without_colon_opens_block() {
    let record = read("Description\n\ttext\n");
    assert_eq!(record.description, Some("text".to_string()));
}

#[test]
fn description_block_at_end_of_text() {
    let record = read("Description:\n\tlast");
    assert_eq!(record.description, Some("last".to_string()));
}

#[test]
fn only_a_tab_indents() {
    let record = read("Description:\n    spaces\n\ttab\n");
    assert_eq!(record.description, Some(String::new()));
}

#[test]
fn files_block_gives_pairs_in_order() {
    let record = read(
        "Files:\n\t//depot/a.txt\t# edit\n\t//depot/b.txt\t# add\n\t//depot/c.txt # delete\n",
    );
    assert_eq!(
        record.files,
        Some(vec![
            pair("//depot/a.txt", "edit"),
            pair("//depot/b.txt", "add"),
            pair("//depot/c.txt", "delete"),
        ])
    );
}

#[test]
fn files_line_is_split_at_first_hash() {
    let record = read("Files:\n\t//depot/a.txt#1\t# edit\n\t//depot/b.txt#2\t# add\n");
    assert_eq!(
        record.files,
        Some(vec![
            pair("//depot/a.txt", "1\t# edit"),
            pair("//depot/b.txt", "2\t# add"),
        ])
    );
}

#[test]
fn files_without_block_is_empty_list() {
    let record = read("Files:\nStatus: new\n");
    assert_eq!(record.files, Some(Vec::new()));
    assert_eq!(record.status, Some("new".to_string()));
}

#[test]
fn comment_and_blank_at_top_level_change_nothing() {
    let plain = read("Change: 7\nUser: me\nDescription:\n\ttext\nStatus: new\n");
    let noisy = read(
        "# head\nChange: 7\n\n# more\nUser: me\n\nDescription:\n\ttext\n# tail\nStatus: new\n\n",
    );
    assert_eq!(plain, noisy);
    assert_eq!(noisy.changelist, P4Changelist::Change(7));
    assert_eq!(noisy.description, Some("text".to_string()));
}

#[test]
fn comment_inside_block_ends_it() {
    let record = read("Description:\n\tfoo\n# note\n\tbar\nStatus: new\n");
    assert_eq!(record.description, Some("foo".to_string()));
    assert_eq!(record.status, Some("new".to_string()));
}

#[test]
fn blank_line_inside_block_ends_it() {
    let record = read("Files:\n\t//depot/a#edit\n\n\t//depot/b#add\n");
    assert_eq!(record.files, Some(vec![pair("//depot/a", "edit")]));
}

#[test]
fn indented_comment_stays_in_block() {
    let record = read("Description:\n\tfoo\n\t# still text\n");
    assert_eq!(record.description, Some("foo\n# still text".to_string()));
}

#[test]
fn sample_description_is_read() {
    let text = "Change: 39\n\
                Client: myclient\n\
                User: myuser\n\
                Status: pending\n\
                Description:\n\
                \tfix the bug\n\
                Files:\n\
                \t//depot/main.rs#3\tedit\n";
    let record = read(text);
    assert_eq!(record.changelist, P4Changelist::Change(39));
    assert_eq!(record.client, Some("myclient".to_string()));
    assert_eq!(record.user, Some("myuser".to_string()));
    assert_eq!(record.status, Some("pending".to_string()));
    assert_eq!(record.description, Some("fix the bug".to_string()));
    assert_eq!(record.files, Some(vec![pair("//depot/main.rs", "3\tedit")]));
}

#[test]
fn duplicate_status_keeps_second() {
    let record = read("Status: pending\nStatus: submitted\n");
    assert_eq!(record.status, Some("submitted".to_string()));
}

#[test]
fn duplicate_keys_keep_last_of_each() {
    let record = read(
        "Change: 1\nClient: a\nDescription:\n\told\n\
         Change: 2\nClient: b\nDescription:\n\tnew\nFiles:\n\tx#y\nFiles:\n",
    );
    assert_eq!(record.changelist, P4Changelist::Change(2));
    assert_eq!(record.client, Some("b".to_string()));
    assert_eq!(record.description, Some("new".to_string()));
    assert_eq!(record.files, Some(Vec::new()));
}

#[test]
fn value_is_all_behind_first_colon() {
    let record = read("Client: host:1666 \nUser:\n");
    assert_eq!(record.client, Some("host:1666".to_string()));
    assert_eq!(record.user, Some(String::new()));
}

#[test]
fn values_lose_unicode_whitespace() {
    let record = read("Status: \u{a0}\u{3000}pending\u{2003}\u{85}\n");
    assert_eq!(record.status, Some("pending".to_string()));
}

#[test]
fn values_keep_inner_whitespace_and_other_characters() {
    let record = read("User: J\u{fc}rgen  M\u{fc}ller\u{200b}\n");
    assert_eq!(record.user, Some("J\u{fc}rgen  M\u{fc}ller\u{200b}".to_string()));
}

#[test]
fn carriage_returns_are_trimmed_from_values() {
    let record = read("Change: 12\r\nStatus: ok\r\n\r\nUser: me\r\n");
    assert_eq!(record.changelist, P4Changelist::Change(12));
    assert_eq!(record.status, Some("ok".to_string()));
    assert_eq!(record.user, Some("me".to_string()));
}

#[test]
fn malformed_change_is_an_error() {
    assert_eq!(
        P4ChangelistResult::try_from_text("Change: new\nDescription: random desc\n"),
        Err(ParseError::InvalidChange("new".to_string()))
    );
    assert_eq!(
        P4ChangelistResult::try_from_text("Change: 4294967296"),
        Err(ParseError::InvalidChange("4294967296".to_string()))
    );
    assert_eq!(
        P4ChangelistResult::try_from_text("Change:"),
        Err(ParseError::InvalidChange(String::new()))
    );
    assert_eq!(
        P4ChangelistResult::try_from_text("Change: -1"),
        Err(ParseError::InvalidChange("-1".to_string()))
    );
    assert_eq!(
        P4ChangelistResult::try_from_text("Change: 3 9"),
        Err(ParseError::InvalidChange("3 9".to_string()))
    );
}

#[test]
fn key_without_colon_is_an_error() {
    assert_eq!(
        P4ChangelistResult::try_from_text("User: me\nStatus\n"),
        Err(ParseError::MissingValue("Status".to_string()))
    );
    assert_eq!(
        P4ChangelistResult::try_from_text("Change"),
        Err(ParseError::MissingValue("Change".to_string()))
    );
}

#[test]
fn file_without_hash_is_an_error() {
    assert_eq!(
        P4ChangelistResult::try_from_text(
            "Files:\n\t//depot/a#edit\n\t//depot/b edit\n\t//depot/c\n"
        ),
        Err(ParseError::MissingAction("\t//depot/b edit".to_string()))
    );
}

#[test]
fn first_failure_is_reported() {
    assert_eq!(
        P4ChangelistResult::try_from_text("Client\nChange: x\n"),
        Err(ParseError::MissingValue("Client".to_string()))
    );
    assert_eq!(
        P4ChangelistResult::try_from_text("Change: x\nClient\n"),
        Err(ParseError::InvalidChange("x".to_string()))
    );
}

#[test]
fn error_messages_carry_the_text() {
    assert_eq!(
        ParseError::MissingValue("Status".to_string()).message(),
        "No value behind the key. Line: Status"
    );
    assert_eq!(
        ParseError::InvalidChange("new".to_string()).message(),
        "Not a changelist number: new"
    );
    assert_eq!(
        ParseError::MissingAction("\tfile".to_string()).message(),
        "No action behind the file. Line: \tfile"
    );
}

#[test]
fn from_text_reads_a_readable_description() {
    let text = "Change: 5\nStatus: new\n";
    assert!(P4ChangelistResult::try_from_text(text).is_ok());
    let record = P4ChangelistResult::from_text(text);
    assert_eq!(record.changelist, P4Changelist::Change(5));
    assert_eq!(record.status, Some("new".to_string()));
}
