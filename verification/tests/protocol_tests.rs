use stock_stalker::error::CommandError;
use stock_stalker::protocol::{
    address_host_and_port, address_verdict, check_address, check_stop_command,
    check_stream_command, Subscribe,
};
use stock_stalker::tickers::TickerList;

fn known(tickers: &[&str]) -> TickerList {
    let mut list = TickerList::new();
    for t in tickers {
        list.insert(t);
    }
    list
}

#[test]
fn test_check_address_valid() {
    assert!(check_address("127.0.0.1:8080").is_ok());
    assert!(check_address("192.168.1.1:0").is_ok());
    assert!(check_address("0.0.0.0:65535").is_ok());
}

#[test]
fn test_check_address_no_port() {
    assert!(check_address("127.0.0.1").is_err());
}

#[test]
fn test_check_address_invalid_ip() {
    assert!(check_address("999.999.999.999:8080").is_err());
}

#[test]
fn test_check_address_invalid_port() {
    assert!(check_address("127.0.0.1:99999").is_err());
    assert!(check_address("127.0.0.1:abc").is_err());
}

#[test]
fn test_check_address_empty() {
    assert!(check_address("").is_err());
}

#[test]
fn test_check_stop_command_valid() {
    let result = check_stop_command("STOP 127.0.0.1:8080");
    assert!(result.is_ok());
    assert_eq!(result.unwrap(), "127.0.0.1:8080");
}

#[test]
fn test_check_stop_command_with_newline() {
    let result = check_stop_command("STOP 127.0.0.1:8080\n");
    assert!(result.is_ok());
    assert_eq!(result.unwrap(), "127.0.0.1:8080");
}

#[test]
fn test_check_stop_command_not_stop() {
    let result = check_stop_command("STREAM 127.0.0.1:8080 SBER");
    assert!(result.is_err());
}

#[test]
fn test_check_stop_command_invalid_address() {
    let result = check_stop_command("STOP bad_address");
    assert!(result.is_err());
}

#[test]
fn test_check_stop_command_missing_address() {
    let result = check_stop_command("STOP ");
    assert!(result.is_err());
}

#[test]
fn test_check_stream_command_not_stream() {
    let result = check_stream_command("STOP 127.0.0.1:8080", &TickerList::new());
    assert!(result.is_err());
}

#[test]
fn test_check_stream_command_invalid_address() {
    let result = check_stream_command("STREAM bad_addr SBER,GAZP", &TickerList::new());
    assert!(result.is_err());
}

#[test]
fn test_subscribe_new() {
    let s = Subscribe::new("127.0.0.1:8080".to_string(), vec!["SBER".to_string()]);
    assert_eq!(s.address, "127.0.0.1:8080");
    assert_eq!(s.tickers, vec!["SBER"]);
}

#[test]
fn address_split_at_last_colon_and_trimmed() {
    let (host, port) = address_host_and_port(" ::1 : 80 ").unwrap();
    assert_eq!(host, "::1");
    assert_eq!(port, 80);
    assert!(address_host_and_port("host:65536").is_none());
    assert!(address_host_and_port("host").is_none());
    assert!(address_host_and_port("host:+7").is_some());
    assert!(check_address("::1:8080").is_ok());
    assert!(check_address("localhost:8080").is_err());
}

#[test]
fn address_verdict_follows_the_host_judgement() {
    assert!(address_verdict("a:1", true).is_ok());
    match address_verdict("a:1", false) {
        Err(CommandError::InvalidAddress(a)) => assert_eq!(a, "a:1"),
        _ => panic!("expected InvalidAddress"),
    }
}

#[test]
fn stop_command_errors_name_what_was_refused() {
    match check_stop_command("STOP bad_address") {
        Err(CommandError::InvalidAddress(a)) => assert_eq!(a, "bad_address"),
        _ => panic!("expected InvalidAddress"),
    }
    match check_stop_command("PING") {
        Err(CommandError::InvalidCommand(c)) => assert_eq!(c, "PING"),
        _ => panic!("expected InvalidCommand"),
    }
}

#[test]
fn stream_command_subscribes_known_tickers() {
    let list = known(&["SBER", "GAZP", "LKOH"]);
    let s = check_stream_command("STREAM 127.0.0.1:9000 SBER,GAZP\n", &list).unwrap();
    assert_eq!(s.address, "127.0.0.1:9000");
    assert_eq!(s.tickers, vec!["SBER", "GAZP"]);
}

#[test]
fn stream_command_names_first_unknown_ticker() {
    let list = known(&["SBER"]);
    match check_stream_command("STREAM 127.0.0.1:9000 SBER,XXX,YYY", &list) {
        Err(CommandError::TickerNotFound(t)) => assert_eq!(t, "XXX"),
        _ => panic!("expected TickerNotFound"),
    }
    // the space after a comma is part of the looked-up ticker
    match check_stream_command("STREAM 127.0.0.1:9000 SBER, SBER", &list) {
        Err(CommandError::TickerNotFound(t)) => assert_eq!(t, " SBER"),
        _ => panic!("expected TickerNotFound"),
    }
}

#[test]
fn stream_command_without_ticker_part() {
    let list = known(&["SBER"]);
    assert!(matches!(
        check_stream_command("STREAM 127.0.0.1:9000", &list),
        Err(CommandError::EmptyTickerList)
    ));
    match check_stream_command("STREAM", &list) {
        Err(CommandError::InvalidCommand(c)) => assert_eq!(c, "STREAM"),
        _ => panic!("expected InvalidCommand"),
    }
    match check_stream_command("STREAM bad", &list) {
        Err(CommandError::InvalidAddress(a)) => assert_eq!(a, "bad"),
        _ => panic!("expected InvalidAddress"),
    }
    assert!(check_stream_command("STREAM 127.0.0.1:9000 SBER", &list).is_ok());
}

#[test]
fn stop_command_without_space_is_invalid_command() {
    match check_stop_command("STOP") {
        Err(CommandError::InvalidCommand(c)) => assert_eq!(c, "STOP"),
        _ => panic!("expected InvalidCommand"),
    }
    match check_stop_command("STOPX\n") {
        Err(CommandError::InvalidCommand(c)) => assert_eq!(c, "STOPX\n"),
        _ => panic!("expected InvalidCommand"),
    }
}

#[test]
fn stream_command_with_blank_ticker_list_is_empty_ticker_list() {
    let list = known(&["SBER"]);
    assert!(matches!(
        check_stream_command("STREAM 127.0.0.1:9000 \n", &list),
        Err(CommandError::EmptyTickerList)
    ));
    assert!(matches!(
        check_stream_command("STREAM 127.0.0.1:9000  ", &list),
        Err(CommandError::EmptyTickerList)
    ));
    // a list with an empty entry is not an empty list
    match check_stream_command("STREAM 127.0.0.1:9000 SBER,", &list) {
        Err(CommandError::TickerNotFound(t)) => assert_eq!(t, ""),
        _ => panic!("expected TickerNotFound"),
    }
}
