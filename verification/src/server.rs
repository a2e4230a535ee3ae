//! The decisions of the quote server: what a line that a client sends asks
//! for, how it is answered, and which streams it starts or stops.
use vstd::prelude::*;
use vstd::string::*;

use crate::client::{law_stop_line_names_its_address, no_whitespace, stop_line};
use crate::error::{command_error_wire_text, CommandError, CommandErrorView};
use crate::protocol::{
    address_accepted, check_stop_command, check_stream_command, stop_command_result,
    stream_command_result, Subscribe, PING, STOP, STREAM,
};
use crate::registry::{lookup, streams_of, with_stream, SubscriberTable};
use crate::tickers::TickerList;
use crate::text::{
    contains_str, contains_text, starts_with, starts_with_str, trim, trim_start, trim_start_str,
    trim_str,
};

verus! {

/// What a line's `STOP` request comes to.
pub enum StopRequest {
    /// The line does not mention `STOP`.
    NotAsked,
    /// The reply to send; nothing is stopped.
    Reply(String),
    /// A valid `STOP` of the stream sent to this address: the caller stops
    /// it for the client with `stop_client_stream`.
    Stop(String),
}

/// What a line's `STREAM` request comes to.
pub enum StreamOutcome {
    /// The line does not mention `STREAM`.
    NotAsked,
    /// The reply to send; nothing is started.
    Reply(String),
    /// A valid subscription: the caller opens the stream, records it with
    /// `SubscriberTable::register`, and replies `ok_reply()`; if it cannot
    /// open the stream, it replies with an empty text.
    Open(Subscribe),
}

/// The line mentions `STOP`.
pub open spec fn asks_stop(line: Seq<char>) -> bool {
    contains_text(line, "STOP"@)
}

/// The line mentions `STREAM`.
pub open spec fn asks_stream(line: Seq<char>) -> bool {
    contains_text(line, "STREAM"@)
}

/// The reply to a command that was carried out.
pub open spec fn ok_text() -> Seq<char> {
    "Ok\n"@
}

/// The reply to a command that was carried out: `Ok\n`.
pub fn ok_reply() -> (r: String)
    ensures
        r@ == ok_text(),
{
    String::from_str("Ok\n")
}

/// Reads the `STOP` request of `line`.
pub fn stop_request(line: &str) -> (r: StopRequest)
    ensures
        !asks_stop(line@) ==> r is NotAsked,
        asks_stop(line@) ==> match stop_command_result(trim_start(line@)) {
            Err(e) => r matches StopRequest::Reply(t) && t@ == command_error_wire_text(e),
            Ok(a) => r matches StopRequest::Stop(x) && x@ == a,
        },
{
    proof {
        reveal_strlit("STOP");
    }
    if !contains_str(line, STOP) {
        return StopRequest::NotAsked;
    }
    let command = trim_start_str(line);
    match check_stop_command(command) {
        Ok(addr) => StopRequest::Stop(addr),
        Err(e) => StopRequest::Reply(e.to_string()),
    }
}

/// Carries out a valid `STOP` of `address` for the client `host`: the reply
/// to send, and the handle of the stream that must be stopped, if one was
/// recorded.
pub fn stop_client_stream<H>(table: &mut SubscriberTable<H>, host: &str, address: &str) -> (r: (
    String,
    Option<H>,
))
    ensures
        old(table)@.dom().contains(host@) ==> {
            &&& r.0@ == ok_text()
            &&& r.1 == lookup(old(table)@[host@], trim(address@))
            &&& final(table)@ == old(table)@.insert(
                host@,
                old(table)@[host@].remove(trim(address@)),
            )
        },
        !old(table)@.dom().contains(host@) ==> {
            &&& r.0@ == command_error_wire_text(CommandErrorView::AddressNotFound(address@))
            &&& r.1 is None
            &&& final(table)@ == old(table)@
        },
{
    if table.has_client(host) {
        let trimmed = trim_str(address);
        let stopped = table.remove_stream(host, trimmed);
        match stopped {
            Some(o) => (ok_reply(), o),
            None => (ok_reply(), None),
        }
    } else {
        (CommandError::AddressNotFound(String::from_str(address)).to_string(), None)
    }
}

/// Handles the `STREAM` request of `line`, with `known` the tickers that the
/// server knows.
pub fn stream_step(line: &str, known: &TickerList) -> (r: StreamOutcome)
    ensures
        !asks_stream(line@) ==> r is NotAsked,
        asks_stream(line@) ==> match stream_command_result(
            trim_start(line@),
            known@,
        ) {
            Err(e) => r matches StreamOutcome::Reply(t) && t@ == command_error_wire_text(e),
            Ok(s) => r matches StreamOutcome::Open(sub) && sub@ == s,
        },
{
    proof {
        reveal_strlit("STREAM");
    }
    if !contains_str(line, STREAM) {
        return StreamOutcome::NotAsked;
    }
    let command = trim_start_str(line);
    match check_stream_command(command, known) {
        Err(e) => StreamOutcome::Reply(e.to_string()),
        Ok(s) => StreamOutcome::Open(s),
    }
}

/// The line is a `PING`: it mentions `PING` and, trimmed, starts with it.
pub open spec fn is_ping(line: Seq<char>) -> bool {
    contains_text(line, "PING"@) && starts_with(trim(line), "PING"@)
}

/// Whether `line` is a `PING`, which renews the client's lease.
pub fn ping_step(line: &str) -> (r: bool)
    ensures
        r == is_ping(line@),
{
    proof {
        reveal_strlit("PING");
    }
    contains_str(line, PING) && starts_with_str(trim_str(line), PING)
}

/// Whether a client silent for `elapsed_secs` whole seconds since its last
/// `PING` has timed out.
pub fn ping_expired(elapsed_secs: u64) -> (r: bool)
    ensures
        r == (elapsed_secs >= crate::PING_TIMEOUT_SECONDS),
{
    elapsed_secs >= crate::PING_TIMEOUT_SECONDS as u64
}

/// A stream that a client records for an address is the one that the
/// client's `STOP` line for that address hands back to be stopped, with the
/// reply `Ok`; afterwards the client has no stream for the address and its
/// other streams are as they were.
pub proof fn law_stop_returns_registered_stream<H>(
    t: Map<Seq<char>, Map<Seq<char>, H>>,
    host: Seq<char>,
    a: Seq<char>,
    h: H,
)
    requires
        no_whitespace(a),
        address_accepted(a),
    ensures
        ({
            let t1 = with_stream(t, host, a, h);
            let line = stop_line(a);
            &&& asks_stop(line)
            &&& stop_command_result(trim_start(line)) == Ok::<Seq<char>, CommandErrorView>(a)
            &&& t1.dom().contains(host)
            &&& lookup(t1[host], trim(a)) == Some(h)
            &&& t1.insert(host, t1[host].remove(trim(a))) == t.insert(
                host,
                streams_of(t, host).remove(a),
            )
        }),
{
    law_stop_line_names_its_address(a);
    crate::text::lemma_trim_no_whitespace(a);
    let t1 = with_stream(t, host, a, h);
    assert(t1[host].remove(a) =~= streams_of(t, host).remove(a));
    assert(t1.insert(host, t1[host].remove(a)) =~= t.insert(host, streams_of(t, host).remove(a)));
}

} // verus!
