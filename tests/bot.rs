use isitblockedinrussia_bot::bot::{
    command_of, lookup_reply, respond, route, Command, Reply, Route, INTRO_MESSAGE,
};
use isitblockedinrussia_bot::dataset::{BlockRecord, BlockTable};

fn record(ip: &str, org: &str, date: &str) -> BlockRecord {
    BlockRecord {
        ip: ip.to_string(),
        domain: String::new(),
        url: String::new(),
        decision_org: org.to_string(),
        decision_num: "1".to_string(),
        decision_date: date.to_string(),
    }
}

fn text_of(r: Option<Reply>) -> String {
    match r {
        Some(Reply::Text(t)) => t,
        other => panic!("expected a text reply, got {:?}", other),
    }
}

#[test]
fn commands_match_exactly() {
    assert_eq!(command_of("/start"), Some(Command::Start));
    assert_eq!(command_of("/help"), Some(Command::Help));
    assert_eq!(command_of("/venue"), Some(Command::Venue));
    assert_eq!(command_of("/start "), None);
    assert_eq!(command_of("/stop"), None);
}

#[test]
fn command_takes_precedence_over_classifiers() {
    assert_eq!(route("/start"), Route::Command(Command::Start));
    assert_eq!(route("8.8.8.8"), Route::Lookup);
    assert_eq!(route("example.com"), Route::Lookup);
    assert_eq!(route("/unknown"), Route::Ignore);
    assert_eq!(route("hello"), Route::Ignore);
}

#[test]
fn start_replies_with_introduction() {
    let mut table = BlockTable::new();
    assert_eq!(text_of(respond(&table, "/start")), INTRO_MESSAGE);
    table.reload(vec![record("8.8.8.8", "Org", "2020-01-01")]);
    assert_eq!(text_of(respond(&table, "/start")), INTRO_MESSAGE);
    assert_eq!(text_of(respond(&table, "/help")), INTRO_MESSAGE);
    assert!(matches!(respond(&table, "/venue"), Some(Reply::Venue)));
}

#[test]
fn lookup_on_empty_store_says_not_blocked() {
    let table = BlockTable::new();
    assert_eq!(text_of(respond(&table, "8.8.8.8")), "8.8.8.8 is not blocked yet");
}

#[test]
fn lookup_reports_matching_record() {
    let mut table = BlockTable::new();
    table.reload(vec![record("8.8.8.8", "Roskomnadzor", "2018-04-16")]);
    let reply = text_of(respond(&table, "8.8.8.8"));
    assert_eq!(reply, "ip 8.8.8.8 is blocked on 2018-04-16 by Roskomnadzor");
}

#[test]
fn unclassified_text_gets_no_reply() {
    let table = BlockTable::new();
    assert!(respond(&table, "hello").is_none());
}

#[test]
fn reply_lists_one_line_per_record() {
    let records = vec![record("1.1.1.1", "A", "D1"), record("1.1.1.1", "B", "D2")];
    assert_eq!(
        lookup_reply("1.1.1.1", &records),
        "ip 1.1.1.1 is blocked on D1 by A\nip 1.1.1.1 is blocked on D2 by B"
    );
}
