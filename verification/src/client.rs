//! The decisions of the quote client: the commands it sends, how it reads
//! the server's answer and its user's input, and when it gives up
//! connecting.
use vstd::prelude::*;
use vstd::string::*;

use crate::error::CommandErrorView;
use crate::protocol::{
    address_accepted, after_first_space, stop_command_result, stream_address,
    stream_command_result, stream_has_tickers, stream_requested_tickers, SubscribeView,
};
use crate::server::{asks_stop, asks_stream};
use crate::tickers::ticker_check;
use crate::text::{
    contains_str, contains_text, is_first_index, is_whitespace, lemma_first_index_is,
    lemma_trim_no_whitespace, lemma_trim_push_whitespace, lemma_trim_start_skip, occurs_at,
    split_on, split_str, starts_with, starts_with_str, trim, trim_start, trim_str,
};

verus! {

/// Attempts to connect before the client gives up.
pub const MAX_CONNECT_ATTEMPTS: u32 = 5;

/// Seconds between two attempts to connect.
pub const CONNECT_RETRY_SECONDS: u64 = 2;

/// The `STREAM` command for quotes of `tickers` (comma-separated) sent to
/// `udp_address`.
pub open spec fn stream_line(udp_address: Seq<char>, tickers: Seq<char>) -> Seq<char> {
    "STREAM "@ + udp_address + " "@ + tickers + "\n"@
}

/// The `STOP` command for the stream sent to `udp_address`.
pub open spec fn stop_line(udp_address: Seq<char>) -> Seq<char> {
    "STOP "@ + udp_address + "\n"@
}

/// The `PING` line.
pub open spec fn ping_line() -> Seq<char> {
    "PING\n"@
}

/// `STREAM <udp_address> <tickers>\n`.
pub fn stream_command_line(udp_address: &str, tickers: &str) -> (r: String)
    ensures
        r@ == stream_line(udp_address@, tickers@),
{
    let mut r = String::from_str("STREAM ");
    r.append(udp_address);
    r.append(" ");
    r.append(tickers);
    r.append("\n");
    r
}

/// `STOP <udp_address>\n`.
pub fn stop_command_line(udp_address: &str) -> (r: String)
    ensures
        r@ == stop_line(udp_address@),
{
    let mut r = String::from_str("STOP ");
    r.append(udp_address);
    r.append("\n");
    r
}

/// `PING\n`.
pub fn ping_command_line() -> (r: String)
    ensures
        r@ == ping_line(),
{
    String::from_str("PING\n")
}

/// The server's answer accepts the subscription: it starts with or holds
/// `Ok`.
pub open spec fn accepts_subscription(response: Seq<char>) -> bool {
    starts_with(response, "Ok"@) || contains_text(response, "Ok"@)
}

/// Whether the server's answer `response` accepts the subscription.
pub fn subscription_accepted(response: &str) -> (r: bool)
    ensures
        r == accepts_subscription(response@),
{
    starts_with_str(response, "Ok") || contains_str(response, "Ok")
}

/// A command that the user types.
#[derive(Debug, Clone, Copy, PartialEq, Eq, Structural)]
pub enum ClientCommand {
    /// `stop`: end the stream and leave.
    Stop,
    /// `exit`: leave.
    Exit,
    /// Anything else.
    Unknown,
}

/// The command that the input line `input` stands for, once trimmed.
pub open spec fn client_command_of(input: Seq<char>) -> ClientCommand {
    if trim(input) == "stop"@ {
        ClientCommand::Stop
    } else if trim(input) == "exit"@ {
        ClientCommand::Exit
    } else {
        ClientCommand::Unknown
    }
}

/// Reads the user's input line.
pub fn parse_client_command(input: &str) -> (r: ClientCommand)
    ensures
        r == client_command_of(input@),
{
    let command = trim_str(input);
    if crate::text::str_equal(command, "stop") {
        ClientCommand::Stop
    } else if crate::text::str_equal(command, "exit") {
        ClientCommand::Exit
    } else {
        ClientCommand::Unknown
    }
}

/// The input is `stop` exactly when its trimmed text is the four letters
/// `s`, `t`, `o`, `p`, and `exit` exactly when it is `e`, `x`, `i`, `t`;
/// every other input, a blank one included, is unknown.
pub proof fn law_client_commands(input: Seq<char>)
    ensures
        client_command_of(input) == ClientCommand::Stop <==> trim(input) == seq!['s', 't', 'o', 'p'],
        client_command_of(input) == ClientCommand::Exit <==> trim(input) == seq!['e', 'x', 'i', 't'],
        client_command_of(input) == ClientCommand::Unknown <==> trim(input) != seq!['s', 't', 'o', 'p']
            && trim(input) != seq!['e', 'x', 'i', 't'],
        trim(input).len() == 0 ==> client_command_of(input) == ClientCommand::Unknown,
{
    reveal_strlit("stop");
    reveal_strlit("exit");
    assert("stop"@ =~= seq!['s', 't', 'o', 'p']);
    assert("exit"@ =~= seq!['e', 'x', 'i', 't']);
}

/// Whether the client tries again after `failed_attempts` failures to
/// connect; after the last one it gives up with that failure.
pub fn should_retry_connect(failed_attempts: u32) -> (r: bool)
    ensures
        r == (failed_attempts < MAX_CONNECT_ATTEMPTS),
{
    failed_attempts < MAX_CONNECT_ATTEMPTS
}

/// `a` holds no whitespace.
pub open spec fn no_whitespace(a: Seq<char>) -> bool {
    forall|i: int| 0 <= i < a.len() ==> !is_whitespace(#[trigger] a[i])
}

/// The `STOP` line that the client sends for an address without whitespace
/// is read by the server as that address: the stream of
/// the address is stopped if the address is valid, else it is refused.
pub proof fn law_stop_line_names_its_address(a: Seq<char>)
    requires
        no_whitespace(a),
    ensures
        asks_stop(stop_line(a)),
        stop_command_result(trim_start(stop_line(a))) == if address_accepted(a) {
            Ok::<Seq<char>, CommandErrorView>(a)
        } else {
            Err::<Seq<char>, CommandErrorView>(CommandErrorView::InvalidAddress(a))
        },
{
    reveal_strlit("STOP ");
    reveal_strlit("STOP");
    reveal_strlit("\n");
    let line = stop_line(a);
    assert(line.take(4) =~= "STOP"@);
    assert(occurs_at(line, "STOP"@, 0)) by {
        assert(line.subrange(0, 4) =~= "STOP"@);
    }
    assert(!is_whitespace(line[0]));
    lemma_trim_start_skip(line, 0);
    assert(line.skip(0) =~= line);
    assert(line[4] == ' ');
    assert(is_first_index(line, ' ', 4));
    lemma_first_index_is(line, ' ', 4);
    assert(after_first_space(line) =~= a.push('\n'));
    lemma_trim_push_whitespace(a, '\n');
    lemma_trim_no_whitespace(a);
}

/// The `STREAM` line that the client sends for an address without
/// whitespace holds a ticker part, and the server reads from it that address and
/// the tickers of the list, trimmed and split at commas.
pub proof fn law_stream_line_subscribes(a: Seq<char>, tickers: Seq<char>, known: Set<Seq<char>>)
    requires
        no_whitespace(a),
    ensures
        asks_stream(stream_line(a, tickers)),
        stream_has_tickers(trim_start(stream_line(a, tickers))),
        stream_address(trim_start(stream_line(a, tickers))) == a,
        stream_requested_tickers(trim_start(stream_line(a, tickers))) == split_on(trim(tickers), ','),
        stream_command_result(trim_start(stream_line(a, tickers)), known) == if !address_accepted(
            a,
        ) {
            Err::<SubscribeView, CommandErrorView>(CommandErrorView::InvalidAddress(a))
        } else if trim(tickers).len() == 0 {
            Err::<SubscribeView, CommandErrorView>(CommandErrorView::EmptyTickerList)
        } else {
            match ticker_check(split_on(trim(tickers), ','), known) {
                Ok(t) => Ok::<SubscribeView, CommandErrorView>(SubscribeView { address: a, tickers: t }),
                Err(e) => Err::<SubscribeView, CommandErrorView>(e),
            }
        },
{
    reveal_strlit("STREAM ");
    reveal_strlit("STREAM");
    reveal_strlit(" ");
    reveal_strlit("\n");
    let line = stream_line(a, tickers);
    assert(occurs_at(line, "STREAM"@, 0)) by {
        assert(line.subrange(0, 6) =~= "STREAM"@);
    }
    assert(line.take(6) =~= "STREAM"@);
    assert(!is_whitespace(line[0]));
    lemma_trim_start_skip(line, 0);
    assert(line.skip(0) =~= line);
    assert(is_first_index(line, ' ', 6));
    lemma_first_index_is(line, ' ', 6);
    let rest = after_first_space(line);
    assert(rest =~= a + seq![' '] + tickers.push('\n'));
    assert(is_first_index(rest, ' ', a.len() as int)) by {
        assert forall|j: int| 0 <= j < a.len() implies rest[j] != ' ' by {
            assert(rest[j] == a[j]);
            assert(!is_whitespace(a[j]));
        }
    }
    lemma_first_index_is(rest, ' ', a.len() as int);
    assert(rest.contains(' ')) by {
        assert(rest[a.len() as int] == ' ');
    }
    assert(line.contains(' ')) by {
        assert(line[6] == ' ');
    }
    assert(rest.take(a.len() as int) =~= a);
    assert(rest.skip(a.len() as int + 1) =~= tickers.push('\n'));
    lemma_trim_push_whitespace(tickers, '\n');
}

/// `s` holds a capital `O` directly followed by a small `k`.
pub open spec fn holds_ok_pair(s: Seq<char>) -> bool {
    exists|i: int| 0 <= i && i + 1 < s.len() && s[i] == 'O' && #[trigger] s[i + 1] == 'k'
}

/// The client takes a reply as accepting the subscription exactly when the
/// reply holds the two characters `O`, `k` side by side, wherever they stand.
pub proof fn law_accepts_exactly_replies_holding_ok(s: Seq<char>)
    ensures
        accepts_subscription(s) <==> holds_ok_pair(s),
{
    reveal_strlit("Ok");
    if starts_with(s, "Ok"@) {
        assert(s[0] == s.take(2)[0]);
        assert(s[1] == s.take(2)[1]);
        assert(s[0int + 1] == 'k');
    }
    if contains_text(s, "Ok"@) {
        let i = choose|i: int| occurs_at(s, "Ok"@, i);
        assert(s[i] == s.subrange(i, i + 2)[0]);
        assert(s[i + 1] == s.subrange(i, i + 2)[1]);
    }
    if holds_ok_pair(s) {
        let i = choose|i: int| 0 <= i && i + 1 < s.len() && s[i] == 'O' && #[trigger] s[i + 1] == 'k';
        assert(s.subrange(i, i + 2) =~= "Ok"@);
        assert(occurs_at(s, "Ok"@, i));
    }
}

/// The client accepts the server's `Ok` reply, and refuses every error
/// reply, unless the reply names a ticker that itself holds `Ok`.
pub proof fn law_client_reads_replies(e: CommandErrorView)
    requires
        e matches CommandErrorView::TickerNotFound(t) ==> !holds_ok_pair(t),
    ensures
        accepts_subscription(crate::server::ok_text()),
        !accepts_subscription(crate::error::command_error_wire_text(e)),
{
    reveal_strlit("Ok\n");
    reveal_strlit("Ok");
    assert(crate::server::ok_text().take(2) =~= "Ok"@);
    reveal_strlit("ERR unknown ticker: ");
    reveal_strlit("\n");
    reveal_strlit("ERR invalid command\n");
    reveal_strlit("ERR empty ticker list\n");
    reveal_strlit("ERR invalid udp address\n");
    reveal_strlit("ERR udp address not found\n");
    let w = crate::error::command_error_wire_text(e);
    law_accepts_exactly_replies_holding_ok(w);
    if holds_ok_pair(w) {
        let i = choose|i: int| 0 <= i && i + 1 < w.len() && w[i] == 'O' && #[trigger] w[i + 1] == 'k';
        match e {
            CommandErrorView::TickerNotFound(t) => {
                let p = "ERR unknown ticker: "@;
                if i < p.len() {
                    assert(w[i] == p[i]);
                } else if i + 1 < p.len() + t.len() {
                    assert(w[i] == t[i - p.len()]);
                    assert(w[i + 1] == t[i - p.len() + 1]);
                } else if i < p.len() + t.len() {
                    assert(w[i + 1] == '\n');
                } else {
                    assert(w[i] == '\n');
                }
            },
            _ => {},
        }
    }
}

/// The tickers of a comma-separated list, each trimmed.
pub open spec fn ticker_items(list: Seq<char>) -> Seq<Seq<char>> {
    split_on(list, ',').map_values(|t: Seq<char>| trim(t))
}

/// The tickers that the user subscribed to, from the comma-separated list.
pub fn subscribed_tickers(list: &str) -> (r: Vec<String>)
    ensures
        r@.map_values(|s: String| s@) == ticker_items(list@),
{
    let pieces = split_str(list, ',');
    let ghost parts = pieces@.map_values(|p: &str| p@);
    assert(parts == split_on(list@, ','));
    let mut items: Vec<String> = Vec::new();
    let n = pieces.len();
    let mut i: usize = 0;
    while i < n
        invariant
            n == pieces@.len(),
            parts == pieces@.map_values(|p: &str| p@),
            i <= n,
            items@.map_values(|s: String| s@) == parts.take(i as int).map_values(
                |t: Seq<char>| trim(t),
            ),
        decreases n - i,
    {
        let ghost before = items@.map_values(|s: String| s@);
        items.push(String::from_str(trim_str(pieces[i])));
        assert(parts[i as int] == pieces@[i as int]@);
        assert(items@.map_values(|s: String| s@) =~= before.push(trim(parts[i as int])));
        assert(parts.take(i + 1).map_values(|t: Seq<char>| trim(t)) =~= parts.take(
            i as int,
        ).map_values(|t: Seq<char>| trim(t)).push(trim(parts[i as int])));
        i = i + 1;
    }
    assert(parts.take(n as int) =~= parts);
    items
}

} // verus!
