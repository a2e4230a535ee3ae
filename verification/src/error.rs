//! The errors of quote decoding and of protocol commands, and the texts
//! that stand for them on the wire and in messages.
use vstd::prelude::*;
use vstd::string::*;

use crate::decimal::{decimal, format_u64};

verus! {

/// A numeric field of a quote line that could not be parsed.
#[derive(Debug)]
pub struct ParsedFieldError {
    /// The text of the field.
    pub value: String,
    /// The position of the field in the line, counted from 0.
    pub index: usize,
    /// The parser's description of what is wrong with the field.
    pub reason: String,
}

/// Errors of quote decoding.
#[derive(Debug)]
pub enum QuoteError {
    /// Several quotes in one line (kept for compatibility; never produced).
    SomeQuotes(),
    /// A ticker that is not known.
    TickerNotFound(String),
    /// A line without exactly four fields.
    InvalidFormat(String),
    /// A ticker that holds a space.
    InvalidQuote(String),
    /// A numeric field that could not be parsed.
    ParseError(ParsedFieldError),
}

/// Errors of protocol commands.
#[derive(Debug)]
pub enum CommandError {
    /// A command that is neither of the protocol's commands.
    InvalidCommand(String),
    /// A ticker that is not known.
    TickerNotFound(String),
    /// An address that is not `host:port` with an IP host and a `u16` port.
    InvalidAddress(String),
    /// An address for which no stream runs.
    AddressNotFound(String),
    /// A request without tickers.
    EmptyTickerList,
}

/// `ParsedFieldError` as values.
pub struct ParsedFieldErrorView {
    pub value: Seq<char>,
    pub index: nat,
    pub reason: Seq<char>,
}

/// `QuoteError` as values.
pub enum QuoteErrorView {
    SomeQuotes,
    TickerNotFound(Seq<char>),
    InvalidFormat(Seq<char>),
    InvalidQuote(Seq<char>),
    ParseError(ParsedFieldErrorView),
}

/// `CommandError` as values.
pub enum CommandErrorView {
    InvalidCommand(Seq<char>),
    TickerNotFound(Seq<char>),
    InvalidAddress(Seq<char>),
    AddressNotFound(Seq<char>),
    EmptyTickerList,
}

impl View for ParsedFieldError {
    type V = ParsedFieldErrorView;

    open spec fn view(&self) -> ParsedFieldErrorView {
        ParsedFieldErrorView { value: self.value@, index: self.index as nat, reason: self.reason@ }
    }
}

impl View for QuoteError {
    type V = QuoteErrorView;

    open spec fn view(&self) -> QuoteErrorView {
        match self {
            QuoteError::SomeQuotes() => QuoteErrorView::SomeQuotes,
            QuoteError::TickerNotFound(t) => QuoteErrorView::TickerNotFound(t@),
            QuoteError::InvalidFormat(t) => QuoteErrorView::InvalidFormat(t@),
            QuoteError::InvalidQuote(t) => QuoteErrorView::InvalidQuote(t@),
            QuoteError::ParseError(p) => QuoteErrorView::ParseError(p@),
        }
    }
}

impl View for CommandError {
    type V = CommandErrorView;

    open spec fn view(&self) -> CommandErrorView {
        match self {
            CommandError::InvalidCommand(t) => CommandErrorView::InvalidCommand(t@),
            CommandError::TickerNotFound(t) => CommandErrorView::TickerNotFound(t@),
            CommandError::InvalidAddress(t) => CommandErrorView::InvalidAddress(t@),
            CommandError::AddressNotFound(t) => CommandErrorView::AddressNotFound(t@),
            CommandError::EmptyTickerList => CommandErrorView::EmptyTickerList,
        }
    }
}

/// The reply that the server sends for a command error.
pub open spec fn command_error_wire_text(e: CommandErrorView) -> Seq<char> {
    match e {
        CommandErrorView::TickerNotFound(t) => "ERR unknown ticker: "@ + t + "\n"@,
        CommandErrorView::InvalidCommand(_) => "ERR invalid command\n"@,
        CommandErrorView::EmptyTickerList => "ERR empty ticker list\n"@,
        CommandErrorView::InvalidAddress(_) => "ERR invalid udp address\n"@,
        CommandErrorView::AddressNotFound(_) => "ERR udp address not found\n"@,
    }
}

/// The human-readable message of a command error.
pub open spec fn command_error_message(e: CommandErrorView) -> Seq<char> {
    match e {
        CommandErrorView::TickerNotFound(t) => "Запрашиваемый тикер "@ + t + " не найден!"@,
        CommandErrorView::InvalidCommand(t) => "Неверный формат команды: "@ + t,
        CommandErrorView::EmptyTickerList => "Пустой список котировок!"@,
        CommandErrorView::InvalidAddress(t) => "Неверный адрес "@ + t
            + " для отправки котировки!"@,
        CommandErrorView::AddressNotFound(t) => "UDP поток для адреса "@ + t + " не найден!"@,
    }
}

/// The human-readable message of a quote error.
pub open spec fn quote_error_message(e: QuoteErrorView) -> Seq<char> {
    match e {
        QuoteErrorView::TickerNotFound(t) => "Запрашиваемый тикер "@ + t + " не найден!"@,
        QuoteErrorView::InvalidFormat(t) => "Неверный формат котировки: "@ + t,
        QuoteErrorView::InvalidQuote(t) => "Неверная котировка: "@ + t,
        QuoteErrorView::SomeQuotes => "Несколько котировок в одной строке недопустимо!"@,
        QuoteErrorView::ParseError(p) => "Ошибка '"@ + p.reason + "' при разборе поля '"@
            + p.value + "' с индексом '"@ + decimal(p.index) + "'!"@,
    }
}

/// Every error reply has the form `ERR <description>\n`.
pub proof fn law_error_reply_format(e: CommandErrorView)
    ensures
        command_error_wire_text(e).len() >= 5,
        command_error_wire_text(e).take(4) == "ERR "@,
        command_error_wire_text(e).last() == '\n',
{
    reveal_strlit("ERR unknown ticker: ");
    reveal_strlit("\n");
    reveal_strlit("ERR invalid command\n");
    reveal_strlit("ERR empty ticker list\n");
    reveal_strlit("ERR invalid udp address\n");
    reveal_strlit("ERR udp address not found\n");
    reveal_strlit("ERR ");
    let w = command_error_wire_text(e);
    assert(w.take(4) =~= "ERR "@);
}

impl CommandError {
    /// The reply that the server sends for this error: `ERR <description>\n`.
    pub fn to_string(&self) -> (r: String)
        ensures
            r@ == command_error_wire_text(self@),
    {
        match self {
            CommandError::TickerNotFound(ticker) => {
                let mut r = String::from_str("ERR unknown ticker: ");
                r.append(ticker.as_str());
                r.append("\n");
                r
            },
            CommandError::InvalidCommand(_) => String::from_str("ERR invalid command\n"),
            CommandError::EmptyTickerList => String::from_str("ERR empty ticker list\n"),
            CommandError::InvalidAddress(_) => String::from_str("ERR invalid udp address\n"),
            CommandError::AddressNotFound(_) => String::from_str("ERR udp address not found\n"),
        }
    }

    /// The human-readable message of this error.
    pub fn message(&self) -> (r: String)
        ensures
            r@ == command_error_message(self@),
    {
        match self {
            CommandError::TickerNotFound(ticker) => {
                let mut r = String::from_str("Запрашиваемый тикер ");
                r.append(ticker.as_str());
                r.append(" не найден!");
                r
            },
            CommandError::InvalidCommand(err) => {
                let mut r = String::from_str("Неверный формат команды: ");
                r.append(err.as_str());
                r
            },
            CommandError::EmptyTickerList => String::from_str("Пустой список котировок!"),
            CommandError::InvalidAddress(err) => {
                let mut r = String::from_str("Неверный адрес ");
                r.append(err.as_str());
                r.append(" для отправки котировки!");
                r
            },
            CommandError::AddressNotFound(err) => {
                let mut r = String::from_str("UDP поток для адреса ");
                r.append(err.as_str());
                r.append(" не найден!");
                r
            },
        }
    }
}

impl QuoteError {
    /// The human-readable message of this error.
    pub fn message(&self) -> (r: String)
        ensures
            r@ == quote_error_message(self@),
    {
        match self {
            QuoteError::TickerNotFound(ticker) => {
                let mut r = String::from_str("Запрашиваемый тикер ");
                r.append(ticker.as_str());
                r.append(" не найден!");
                r
            },
            QuoteError::InvalidFormat(err) => {
                let mut r = String::from_str("Неверный формат котировки: ");
                r.append(err.as_str());
                r
            },
            QuoteError::InvalidQuote(err) => {
                let mut r = String::from_str("Неверная котировка: ");
                r.append(err.as_str());
                r
            },
            QuoteError::SomeQuotes() => String::from_str(
                "Несколько котировок в одной строке недопустимо!",
            ),
            QuoteError::ParseError(err) => {
                let index = format_u64(err.index as u64);
                let mut r = String::from_str("Ошибка '");
                r.append(err.reason.as_str());
                r.append("' при разборе поля '");
                r.append(err.value.as_str());
                r.append("' с индексом '");
                r.append(index.as_str());
                r.append("'!");
                r
            },
        }
    }
}

} // verus!
