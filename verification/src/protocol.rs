//! The commands of the quote protocol: `STREAM <address> <tickers>` asks
//! for quotes of the tickers to be sent to a UDP address, `STOP <address>`
//! ends that stream, `PING` keeps the connection alive.
use vstd::prelude::*;
use vstd::string::*;

use crate::decimal::{parse_u16, parse_unsigned};
use crate::error::{CommandError, CommandErrorView};
use crate::tickers::{check_tickers, texts, ticker_check, TickerList};
use crate::text::{
    find_char, first_index, last_index, rfind_char, split_on, split_str, starts_with,
    starts_with_str, trim, trim_str,
};

verus! {

/// Template of the `STREAM` command: address, then comma-separated tickers.
pub const STREAM_COMMAND: &'static str = "STREAM {} {}\n";

/// Template of the `STOP` command.
pub const STOP_COMMAND: &'static str = "STOP {}\n";

/// The `STREAM` keyword.
pub const STREAM: &'static str = "STREAM";

/// The `PING` keyword.
pub const PING: &'static str = "PING";

/// The `PONG` keyword.
pub const PONG: &'static str = "PONG";

/// The `STOP` keyword.
pub const STOP: &'static str = "STOP";

/// A subscription to quotes.
pub struct Subscribe {
    /// The UDP address that receives the quotes.
    pub address: String,
    /// The tickers subscribed to.
    pub tickers: Vec<String>,
}

/// `Subscribe` as values.
pub struct SubscribeView {
    pub address: Seq<char>,
    pub tickers: Seq<Seq<char>>,
}

impl View for Subscribe {
    type V = SubscribeView;

    open spec fn view(&self) -> SubscribeView {
        SubscribeView { address: self.address@, tickers: texts(self.tickers@) }
    }
}

impl Subscribe {
    /// A subscription of `address` to `tickers`.
    pub fn new(address: String, tickers: Vec<String>) -> (r: Subscribe)
        ensures
            r.address == address,
            r.tickers == tickers,
    {
        Subscribe { address, tickers }
    }
}

/// Whether `text` is an IP address (v4 or v6) in the notation that the
/// standard `IpAddr` parser accepts.
pub uninterp spec fn ip_addr_valid(text: Seq<char>) -> bool;

/// Whether `host` parses as an IP address, by
/// `<core::net::IpAddr as FromStr>::from_str`. The contract claims only
/// that the outcome depends on the text alone (it is named
/// `ip_addr_valid`); the IPv4 and IPv6 notations that the parser accepts
/// are not restated.
#[verifier::external_body]
fn parses_as_ip_addr(host: &str) -> (r: bool)
    ensures
        r == ip_addr_valid(host@),
{
    <core::net::IpAddr as core::str::FromStr>::from_str(host).is_ok()
}

/// The host part of an address: what precedes its last `:`, trimmed.
pub open spec fn address_host(s: Seq<char>) -> Seq<char> {
    trim(s.take(last_index(s, ':')))
}

/// The port part of an address: what follows its last `:`, trimmed.
pub open spec fn address_port(s: Seq<char>) -> Seq<char> {
    trim(s.skip(last_index(s, ':') + 1))
}

/// `s` has a `:` and the text after the last one is a `u16`.
pub open spec fn address_form_ok(s: Seq<char>) -> bool {
    last_index(s, ':') >= 0 && parse_unsigned(address_port(s), 0xFFFF) is Ok
}

/// `s` is an address that `check_address` accepts.
pub open spec fn address_accepted(s: Seq<char>) -> bool {
    address_form_ok(s) && ip_addr_valid(address_host(s))
}

/// Splits an address at its last `:` into host and port, both trimmed,
/// when the port is a `u16`.
pub fn address_host_and_port<'a>(input: &'a str) -> (r: Option<(&'a str, u16)>)
    ensures
        match r {
            Some((host, port)) => address_form_ok(input@) && host@ == address_host(input@)
                && parse_unsigned(address_port(input@), 0xFFFF) == Ok::<
                nat,
                crate::decimal::IntErrorKind,
            >(port as nat),
            None => !address_form_ok(input@),
        },
{
    match rfind_char(input, ':') {
        None => None,
        Some(pos) => {
            let n = input.unicode_len();
            let host = trim_str(input.substring_char(0, pos));
            let port = trim_str(input.substring_char(pos + 1, n));
            assert(input@.subrange(0, pos as int) =~= input@.take(pos as int));
            assert(input@.subrange(pos + 1, n as int) =~= input@.skip(pos + 1));
            match parse_u16(port) {
                Ok(p) => Some((host, p)),
                Err(_) => None,
            }
        },
    }
}

/// What `check_address` answers for `input` once the IP parser has judged
/// its host: `host_is_ip` is that judgement.
pub fn address_verdict(input: &str, host_is_ip: bool) -> (r: Result<(), CommandError>)
    ensures
        r is Ok <==> host_is_ip,
        r matches Err(e) ==> e@ == CommandErrorView::InvalidAddress(input@),
{
    if host_is_ip {
        Ok(())
    } else {
        Err(CommandError::InvalidAddress(String::from_str(input)))
    }
}

/// Checks that `input` is `host:port` with an IP host and a `u16` port, split
/// at the last `:`, whitespace around either part ignored.
pub fn check_address(input: &str) -> (r: Result<(), CommandError>)
    ensures
        r is Ok <==> address_accepted(input@),
        r matches Err(e) ==> e@ == CommandErrorView::InvalidAddress(input@),
{
    match address_host_and_port(input) {
        Some((host, _port)) => address_verdict(input, parses_as_ip_addr(host)),
        None => Err(CommandError::InvalidAddress(String::from_str(input))),
    }
}

/// What follows the first space of `s`.
pub open spec fn after_first_space(s: Seq<char>) -> Seq<char> {
    s.skip(first_index(s, ' ') + 1)
}

/// The address of a `STOP` command: what follows its first space, trimmed.
pub open spec fn stop_address(s: Seq<char>) -> Seq<char> {
    trim(after_first_space(s))
}

/// The answer to a `STOP` command `s`; one without a space names no address
/// and is not a command.
pub open spec fn stop_command_result(s: Seq<char>) -> Result<Seq<char>, CommandErrorView> {
    if starts_with(s, "STOP"@) && s.contains(' ') {
        if address_accepted(stop_address(s)) {
            Ok(stop_address(s))
        } else {
            Err(CommandErrorView::InvalidAddress(stop_address(s)))
        }
    } else {
        Err(CommandErrorView::InvalidCommand(s))
    }
}

/// Checks a `STOP` command and gives back its address, trimmed.
pub fn check_stop_command(command: &str) -> (r: Result<String, CommandError>)
    ensures
        match r {
            Ok(a) => stop_command_result(command@) == Ok::<Seq<char>, CommandErrorView>(a@),
            Err(e) => stop_command_result(command@) == Err::<Seq<char>, CommandErrorView>(e@),
        },
{
    proof {
        reveal_strlit("STOP");
    }
    if starts_with_str(command, STOP) {
        let n = command.unicode_len();
        let pos = match find_char(command, ' ') {
            Some(p) => p,
            None => {
                return Err(CommandError::InvalidCommand(String::from_str(command)));
            },
        };
        assert(command@[pos as int] == ' ');
        let rest = command.substring_char(pos + 1, n);
        assert(rest@ =~= after_first_space(command@));
        let address = trim_str(rest);
        match check_address(address) {
            Err(e) => Err(e),
            Ok(_) => Ok(String::from_str(address)),
        }
    } else {
        Err(CommandError::InvalidCommand(String::from_str(command)))
    }
}

/// The address of a `STREAM` command: the text between its first and second
/// spaces, or all that follows the first space when there is no second.
pub open spec fn stream_address(s: Seq<char>) -> Seq<char> {
    let rest = after_first_space(s);
    if first_index(rest, ' ') < 0 {
        rest
    } else {
        rest.take(first_index(rest, ' '))
    }
}

/// The ticker text of a `STREAM` command: all that follows its second space.
pub open spec fn stream_tickers_text(s: Seq<char>) -> Seq<char> {
    after_first_space(s).skip(first_index(after_first_space(s), ' ') + 1)
}

/// The requested tickers of a `STREAM` command: its ticker text, trimmed,
/// split at commas.
pub open spec fn stream_requested_tickers(s: Seq<char>) -> Seq<Seq<char>> {
    split_on(trim(stream_tickers_text(s)), ',')
}

/// The `STREAM` command `s` has a ticker part: a second space.
pub open spec fn stream_has_tickers(s: Seq<char>) -> bool {
    after_first_space(s).contains(' ')
}

/// The answer to a `STREAM` command `s`, with `known` the tickers that
/// the server knows. One without a space is not a command; one with a valid
/// address and no ticker part, or a blank one, has an empty ticker list.
pub open spec fn stream_command_result(s: Seq<char>, known: Set<Seq<char>>) -> Result<
    SubscribeView,
    CommandErrorView,
> {
    if !starts_with(s, "STREAM"@) || !s.contains(' ') {
        Err(CommandErrorView::InvalidCommand(s))
    } else if !address_accepted(stream_address(s)) {
        Err(CommandErrorView::InvalidAddress(stream_address(s)))
    } else if !stream_has_tickers(s) || trim(stream_tickers_text(s)).len() == 0 {
        Err(CommandErrorView::EmptyTickerList)
    } else {
        match ticker_check(stream_requested_tickers(s), known) {
            Ok(t) => Ok(SubscribeView { address: stream_address(s), tickers: t }),
            Err(e) => Err(e),
        }
    }
}

/// Checks a `STREAM` command against the known tickers and gives back the
/// subscription that it asks for.
pub fn check_stream_command(command: &str, known: &TickerList) -> (r: Result<
    Subscribe,
    CommandError,
>)
    ensures
        match r {
            Ok(s) => stream_command_result(command@, known@) == Ok::<
                SubscribeView,
                CommandErrorView,
            >(s@),
            Err(e) => stream_command_result(command@, known@) == Err::<
                SubscribeView,
                CommandErrorView,
            >(e@),
        },
{
    proof {
        reveal_strlit("STREAM");
    }
    if !starts_with_str(command, STREAM) {
        return Err(CommandError::InvalidCommand(String::from_str(command)));
    }
    let n = command.unicode_len();
    let pos = match find_char(command, ' ') {
        Some(p) => p,
        None => {
            return Err(CommandError::InvalidCommand(String::from_str(command)));
        },
    };
    assert(command@[pos as int] == ' ');
    let rest = command.substring_char(pos + 1, n);
    assert(rest@ =~= after_first_space(command@));
    let m = rest.unicode_len();
    let second = find_char(rest, ' ');
    let address = match second {
        Some(j) => rest.substring_char(0, j),
        None => rest,
    };
    assert(address@ =~= stream_address(command@));
    match check_address(address) {
        Err(e) => Err(e),
        Ok(_) => {
            let j = match second {
                Some(j) => j,
                None => {
                    return Err(CommandError::EmptyTickerList);
                },
            };
            assert(rest@[j as int] == ' ');
            let tickers_text = rest.substring_char(j + 1, m);
            assert(tickers_text@ =~= stream_tickers_text(command@));
            let text = trim_str(tickers_text);
            if text.unicode_len() == 0 {
                return Err(CommandError::EmptyTickerList);
            }
            let req = split_str(text, ',');
            match check_tickers(req, known) {
                Ok(tickers) => Ok(Subscribe::new(String::from_str(address), tickers)),
                Err(e) => Err(e),
            }
        },
    }
}

/// A `STREAM` command with a valid address is refused for an empty ticker
/// list exactly when it has no ticker part or a blank one: the check of the
/// tickers only ever names a missing ticker.
pub proof fn law_empty_ticker_list_iff_blank(s: Seq<char>, known: Set<Seq<char>>)
    requires
        starts_with(s, "STREAM"@),
        s.contains(' '),
        address_accepted(stream_address(s)),
    ensures
        stream_command_result(s, known) == Err::<SubscribeView, CommandErrorView>(
            CommandErrorView::EmptyTickerList,
        ) <==> (!stream_has_tickers(s) || trim(stream_tickers_text(s)).len() == 0),
{
    crate::tickers::law_ticker_check(stream_requested_tickers(s), known);
}

} // verus!
