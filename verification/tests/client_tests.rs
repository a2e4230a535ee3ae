use stock_stalker::client::{
    parse_client_command, ping_command_line, should_retry_connect, stop_command_line,
    stream_command_line, subscribed_tickers, subscription_accepted, ClientCommand,
};
use stock_stalker::protocol::{check_stop_command, check_stream_command};
use stock_stalker::tickers::TickerList;

#[test]
fn command_lines() {
    assert_eq!(
        stream_command_line("127.0.0.1:9000", "SBER,GAZP"),
        "STREAM 127.0.0.1:9000 SBER,GAZP\n"
    );
    assert_eq!(stop_command_line("127.0.0.1:9000"), "STOP 127.0.0.1:9000\n");
    assert_eq!(ping_command_line(), "PING\n");
}

#[test]
fn server_reads_client_lines() {
    let mut list = TickerList::new();
    list.insert("SBER");
    list.insert("GAZP");
    let line = stream_command_line("127.0.0.1:9000", "SBER,GAZP");
    let s = check_stream_command(&line, &list).unwrap();
    assert_eq!(s.address, "127.0.0.1:9000");
    assert_eq!(s.tickers, vec!["SBER", "GAZP"]);
    let stop = stop_command_line("127.0.0.1:9000");
    assert_eq!(check_stop_command(&stop).unwrap(), "127.0.0.1:9000");
}

#[test]
fn replies_and_input() {
    assert!(subscription_accepted("Ok"));
    assert!(subscription_accepted("it is Ok"));
    assert!(!subscription_accepted("ERR invalid command"));
    assert_eq!(parse_client_command(" stop \n"), ClientCommand::Stop);
    assert_eq!(parse_client_command("exit\n"), ClientCommand::Exit);
    assert_eq!(parse_client_command("quit\n"), ClientCommand::Unknown);
    assert!(should_retry_connect(4));
    assert!(!should_retry_connect(5));
    assert_eq!(subscribed_tickers("SBER, GAZP ,LKOH"), vec!["SBER", "GAZP", "LKOH"]);
}
