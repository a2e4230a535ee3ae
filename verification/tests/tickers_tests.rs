use stock_stalker::error::CommandError;
use stock_stalker::tickers::{check_tickers, TickerList};

fn with_tickers(tickers: &[&str]) -> TickerList {
    let mut list = TickerList::new();
    for t in tickers {
        list.insert(t);
    }
    list
}

#[test]
fn test_check_tickers_all_found() {
    let list = with_tickers(&["SBER", "GAZP", "LKOH"]);
    let result = check_tickers(vec!["SBER", "GAZP"], &list);
    assert!(result.is_ok());
    assert_eq!(result.unwrap(), vec!["SBER", "GAZP"]);
}

#[test]
fn test_check_tickers_not_found() {
    let list = with_tickers(&["SBER"]);
    let result = check_tickers(vec!["MISSING"], &list);
    assert!(result.is_err());
    match result {
        Err(CommandError::TickerNotFound(t)) => assert_eq!(t, "MISSING"),
        _ => panic!("expected TickerNotFound"),
    }
}

#[test]
fn test_check_tickers_empty_input() {
    let list = with_tickers(&["SBER"]);
    let result = check_tickers(vec![], &list);
    assert!(result.is_ok());
    assert!(result.unwrap().is_empty());
}

#[test]
fn test_check_tickers_trims_whitespace() {
    let list = with_tickers(&["SBER"]);
    let result = check_tickers(vec!["  SBER  "], &list);
    assert!(result.is_err());
}

#[test]
fn ticker_list_is_a_set() {
    let mut list = TickerList::new();
    assert_eq!(list.len(), 0);
    list.insert("SBER");
    list.insert("SBER");
    list.insert("GAZP");
    assert_eq!(list.len(), 2);
    assert!(list.contains("SBER"));
    assert!(list.contains("GAZP"));
    assert!(!list.contains("LKOH"));
}

#[test]
fn ticker_file_lines_are_trimmed() {
    let list = TickerList::from_text("SBER\r\n  GAZP \nLKOH\n");
    assert_eq!(list.len(), 3);
    assert!(list.contains("SBER"));
    assert!(list.contains("GAZP"));
    assert!(list.contains("LKOH"));
    assert!(!list.contains(""));
    // blank lines name no ticker
    let blank = TickerList::from_text("SBER\n\n  \nGAZP\n\n");
    assert_eq!(blank.len(), 2);
    assert!(!blank.contains(""));
    assert_eq!(TickerList::from_text("").len(), 0);
}

#[test]
fn checked_tickers_come_back_trimmed() {
    let mut list = TickerList::new();
    list.insert(" SBER ");
    let result = check_tickers(vec![" SBER "], &list).unwrap();
    assert_eq!(result, vec!["SBER"]);
}
