use stock_stalker::error::{CommandError, ParsedFieldError, QuoteError};

#[test]
fn test_command_error_to_string_ticker_not_found() {
    let e = CommandError::TickerNotFound("SBER".to_string());
    assert_eq!(e.to_string(), "ERR unknown ticker: SBER\n");
}

#[test]
fn test_command_error_to_string_invalid_command() {
    let e = CommandError::InvalidCommand("bad".to_string());
    assert_eq!(e.to_string(), "ERR invalid command\n");
}

#[test]
fn test_command_error_to_string_empty_ticker_list() {
    let e = CommandError::EmptyTickerList;
    assert_eq!(e.to_string(), "ERR empty ticker list\n");
}

#[test]
fn test_command_error_to_string_invalid_address() {
    let e = CommandError::InvalidAddress("x".to_string());
    assert_eq!(e.to_string(), "ERR invalid udp address\n");
}

#[test]
fn test_command_error_to_string_address_not_found() {
    let e = CommandError::AddressNotFound("x".to_string());
    assert_eq!(e.to_string(), "ERR udp address not found\n");
}

#[test]
fn test_command_error_display() {
    let e = CommandError::EmptyTickerList;
    assert_eq!(e.message(), "Пустой список котировок!");
}

#[test]
fn test_quote_error_display_ticker_not_found() {
    let e = QuoteError::TickerNotFound("SBER".to_string());
    assert_eq!(e.message(), "Запрашиваемый тикер SBER не найден!");
}

#[test]
fn test_quote_error_display_invalid_format() {
    let e = QuoteError::InvalidFormat("bad".to_string());
    assert_eq!(e.message(), "Неверный формат котировки: bad");
}

#[test]
fn test_quote_error_display_invalid_quote() {
    let e = QuoteError::InvalidQuote("has space".to_string());
    assert_eq!(e.message(), "Неверная котировка: has space");
}

#[test]
fn test_quote_error_display_some_quotes() {
    let e = QuoteError::SomeQuotes();
    assert_eq!(e.message(), "Несколько котировок в одной строке недопустимо!");
}

#[test]
fn test_quote_error_display_parse_error() {
    let inner = "invalid float literal".parse::<f64>().unwrap_err();
    let e = QuoteError::ParseError(ParsedFieldError {
        value: "abc".to_string(),
        index: 1,
        reason: inner.to_string(),
    });
    let displayed = e.message();
    assert!(displayed.contains("Ошибка '"));
    assert!(displayed.contains("при разборе поля 'abc' с индексом '1'"));
}

#[test]
fn test_quote_error_debug() {
    let e = QuoteError::InvalidFormat("x".to_string());
    let dbg = format!("{:?}", e);
    assert!(dbg.contains("InvalidFormat"));
}

#[test]
fn test_command_error_debug() {
    let e = CommandError::InvalidCommand("x".to_string());
    let dbg = format!("{:?}", e);
    assert!(dbg.contains("InvalidCommand"));
}

#[test]
fn test_parsed_field_error_debug() {
    let inner = "invalid float literal".parse::<f64>().unwrap_err();
    let e = ParsedFieldError {
        value: "abc".to_string(),
        index: 2,
        reason: inner.to_string(),
    };
    let dbg = format!("{:?}", e);
    assert!(dbg.contains("abc"));
    assert!(dbg.contains("2"));
}

#[test]
fn command_error_messages_name_their_subject() {
    assert_eq!(
        CommandError::TickerNotFound("SBER".to_string()).message(),
        "Запрашиваемый тикер SBER не найден!"
    );
    assert_eq!(
        CommandError::InvalidCommand("bad".to_string()).message(),
        "Неверный формат команды: bad"
    );
    assert_eq!(
        CommandError::InvalidAddress("x".to_string()).message(),
        "Неверный адрес x для отправки котировки!"
    );
    assert_eq!(
        CommandError::AddressNotFound("x".to_string()).message(),
        "UDP поток для адреса x не найден!"
    );
}

#[test]
fn parse_error_message_is_exact() {
    let e = QuoteError::ParseError(ParsedFieldError {
        value: "abc".to_string(),
        index: 12,
        reason: "invalid digit found in string".to_string(),
    });
    assert_eq!(
        e.message(),
        "Ошибка 'invalid digit found in string' при разборе поля 'abc' с индексом '12'!"
    );
}

#[test]
fn every_error_reply_is_err_line() {
    let errors = vec![
        CommandError::TickerNotFound("A".to_string()),
        CommandError::InvalidCommand("b".to_string()),
        CommandError::EmptyTickerList,
        CommandError::InvalidAddress("c".to_string()),
        CommandError::AddressNotFound("d".to_string()),
    ];
    for e in errors {
        let s = e.to_string();
        assert!(s.starts_with("ERR "));
        assert!(s.ends_with('\n'));
    }
}
