use vstd::prelude::*;
use crate::classify::{ipv4_literal, is_ipv4_literal, is_url_or_domain_like, url_or_domain_like};
use crate::dataset::{BlockRecord, BlockTable, RecordModel, matching, records_model};
use crate::text::{chars_of, joined, occurs_at_exec, push_all, string_of};

verus! {

/// The introduction that `/start` and `/help` answer with.
pub const INTRO_MESSAGE: &'static str = "I'm a bot that checks if provided resource is blocked in Russian Federaiton";

/// A registered command.
#[derive(Clone, Copy, Debug, PartialEq, Eq, Structural)]
pub enum Command {
    Start,
    Help,
    Venue,
}

/// What an incoming text message calls for.
#[derive(Clone, Copy, Debug, PartialEq, Eq, Structural)]
pub enum Route {
    /// The text is exactly a registered command.
    Command(Command),
    /// The text looks like an IPv4 address, a domain or a URL: look it up.
    Lookup,
    /// Nothing: no reply is sent.
    Ignore,
}

/// What is sent back to the chat.
#[derive(Clone, Debug)]
pub enum Reply {
    Text(String),
    /// The meeting place, whose coordinates the caller supplies.
    Venue,
}

pub open spec fn command_text(c: Command) -> Seq<char> {
    match c {
        Command::Start => seq!['/', 's', 't', 'a', 'r', 't'],
        Command::Help => seq!['/', 'h', 'e', 'l', 'p'],
        Command::Venue => seq!['/', 'v', 'e', 'n', 'u', 'e'],
    }
}

/// The command whose text is exactly `s`, if any.
pub open spec fn command_for(s: Seq<char>) -> Option<Command> {
    if s == command_text(Command::Start) {
        Some(Command::Start)
    } else if s == command_text(Command::Help) {
        Some(Command::Help)
    } else if s == command_text(Command::Venue) {
        Some(Command::Venue)
    } else {
        None
    }
}

/// Commands first; then either classifier sends the text to a lookup.
pub open spec fn route_for(s: Seq<char>) -> Route {
    match command_for(s) {
        Some(c) => Route::Command(c),
        None => if ipv4_literal(s) || url_or_domain_like(s) {
            Route::Lookup
        } else {
            Route::Ignore
        },
    }
}

/// The line that reports one record.
pub open spec fn record_line(r: RecordModel) -> Seq<char> {
    "ip "@ + r.ip + " is blocked on "@ + r.decision_date + " by "@ + r.decision_org
}

/// The answer to a lookup of `q` that found `rs`.
pub open spec fn lookup_text(q: Seq<char>, rs: Seq<RecordModel>) -> Seq<char> {
    if rs.len() == 0 {
        q + " is not blocked yet"@
    } else {
        joined(rs.map_values(|r: RecordModel| record_line(r)), '\n')
    }
}

fn same_chars(a: &Vec<char>, b: &Vec<char>) -> (r: bool)
    ensures
        r == (a@ == b@),
{
    if a.len() != b.len() {
        return false;
    }
    let r = occurs_at_exec(a, b, 0);
    assert(a@.subrange(0, b@.len() as int) =~= a@);
    r
}

/// The command whose text is exactly `text`, if any.
pub fn command_of(text: &str) -> (r: Option<Command>)
    ensures
        r == command_for(text@),
{
    let cs = chars_of(text);
    let start = vec!['/', 's', 't', 'a', 'r', 't'];
    let help = vec!['/', 'h', 'e', 'l', 'p'];
    let venue = vec!['/', 'v', 'e', 'n', 'u', 'e'];
    assert(start@ == command_text(Command::Start));
    assert(help@ == command_text(Command::Help));
    assert(venue@ == command_text(Command::Venue));
    if same_chars(&cs, &start) {
        Some(Command::Start)
    } else if same_chars(&cs, &help) {
        Some(Command::Help)
    } else if same_chars(&cs, &venue) {
        Some(Command::Venue)
    } else {
        None
    }
}

/// Decides what an incoming text message calls for.
pub fn route(text: &str) -> (r: Route)
    ensures
        r == route_for(text@),
{
    match command_of(text) {
        Some(c) => Route::Command(c),
        None => if is_ipv4_literal(text) || is_url_or_domain_like(text) {
            Route::Lookup
        } else {
            Route::Ignore
        },
    }
}

/// The reply to a command.
pub fn command_reply(c: Command) -> (r: Reply)
    ensures
        c == Command::Venue ==> r matches Reply::Venue,
        c != Command::Venue ==> (r matches Reply::Text(t) && t@ == INTRO_MESSAGE@),
{
    match c {
        Command::Venue => Reply::Venue,
        _ => Reply::Text(INTRO_MESSAGE.to_owned()),
    }
}

/// The answer to a lookup of `query` that found `records`: one line per record,
/// or a note that `query` is not blocked.
pub fn lookup_reply(query: &str, records: &Vec<BlockRecord>) -> (r: String)
    ensures
        r@ == lookup_text(query@, records_model(records@)),
{
    let ghost rs = records_model(records@);
    if records.len() == 0 {
        let mut s = query.to_owned();
        s.append(" is not blocked yet");
        return s;
    }
    let ghost lines = rs.map_values(|r: RecordModel| record_line(r));
    let mut out: Vec<char> = Vec::new();
    let mut i: usize = 0;
    while i < records.len()
        invariant
            i <= records@.len(),
            rs == records_model(records@),
            lines == rs.map_values(|r: RecordModel| record_line(r)),
            out@ == joined(lines.take(i as int), '\n'),
        decreases records@.len() - i,
    {
        assert(lines.take(i + 1).drop_last() =~= lines.take(i as int));
        if i > 0 {
            out.push('\n');
        }
        let rec = &records[i];
        push_all(&mut out, &chars_of("ip "));
        push_all(&mut out, &chars_of(rec.ip.as_str()));
        push_all(&mut out, &chars_of(" is blocked on "));
        push_all(&mut out, &chars_of(rec.decision_date.as_str()));
        push_all(&mut out, &chars_of(" by "));
        push_all(&mut out, &chars_of(rec.decision_org.as_str()));
        i = i + 1;
        assert(out@ =~= joined(lines.take(i as int), '\n'));
    }
    assert(lines.take(records@.len() as int) =~= lines);
    string_of(&out)
}

/// The reply to the text message `text`, answered from `table`; `None` when the
/// message calls for none.
pub fn respond(table: &BlockTable, text: &str) -> (r: Option<Reply>)
    ensures
        route_for(text@) == Route::Ignore <==> r is None,
        route_for(text@) == Route::Command(Command::Venue) ==> r matches Some(Reply::Venue),
        route_for(text@) == Route::Command(Command::Start) ==> (r matches Some(Reply::Text(t))
            && t@ == INTRO_MESSAGE@),
        route_for(text@) == Route::Command(Command::Help) ==> (r matches Some(Reply::Text(t))
            && t@ == INTRO_MESSAGE@),
        route_for(text@) == Route::Lookup ==> (r matches Some(Reply::Text(t)) && t@
            == lookup_text(text@, matching(table@, text@))),
{
    match route(text) {
        Route::Command(c) => Some(command_reply(c)),
        Route::Lookup => {
            let found = table.lookup(text);
            Some(Reply::Text(lookup_reply(text, &found)))
        },
        Route::Ignore => None,
    }
}

/// A message that is exactly a command's text is routed to that command, whatever
/// else it would match.
pub proof fn lemma_command_precedence(c: Command, s: Seq<char>)
    requires
        s == command_text(c),
    ensures
        route_for(s) == Route::Command(c),
{
    assert(command_text(Command::Start)[1] == 's');
    assert(command_text(Command::Help)[1] == 'h');
    assert(command_text(Command::Venue)[1] == 'v');
}

} // verus!
