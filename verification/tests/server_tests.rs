use stock_stalker::client::stop_command_line;
use stock_stalker::protocol::Subscribe;
use stock_stalker::registry::{SubscriberTable, Subscribers};
use stock_stalker::server::{
    ok_reply, ping_expired, ping_step, stop_client_stream, stop_request, stream_step,
    StopRequest, StreamOutcome,
};
use stock_stalker::quote::{next_stream_action, StreamAction};

fn stop_line_for<H>(t: &mut SubscriberTable<H>, host: &str, line: &str) -> Option<(String, Option<H>)> {
    match stop_request(line) {
        StopRequest::NotAsked => None,
        StopRequest::Reply(text) => Some((text, None)),
        StopRequest::Stop(address) => Some(stop_client_stream(t, host, &address)),
    }
}
use stock_stalker::tickers::TickerList;

fn known() -> TickerList {
    let mut list = TickerList::new();
    list.insert("SBER");
    list.insert("GAZP");
    list
}

#[test]
fn subscribers_add_remove() {
    let mut s: Subscribers<u32> = Subscribers::new("10.0.0.1:5000".to_string());
    assert_eq!(s.subscriber_host(), "10.0.0.1:5000");
    assert_eq!(s.add("a:1".to_string(), 1), None);
    assert_eq!(s.add("b:2".to_string(), 2), None);
    assert_eq!(s.add("a:1".to_string(), 3), Some(1));
    assert_eq!(s.len(), 2);
    assert!(s.contains("a:1"));
    assert_eq!(s.remove("a:1"), Some(3));
    assert_eq!(s.remove("a:1"), None);
    assert!(!s.contains("a:1"));
    let mut all = s.remove_all();
    all.sort();
    assert_eq!(all, vec![2]);
    assert_eq!(s.len(), 0);
    assert!(s.remove_all().is_empty());
}

#[test]
fn table_register_and_stop() {
    let mut t: SubscriberTable<u32> = SubscriberTable::new();
    assert!(!t.has_client("h"));
    assert_eq!(t.remove_stream("h", "a:1"), None);
    assert_eq!(t.register("h", "127.0.0.1:9000".to_string(), 7), None);
    assert!(t.has_client("h"));
    let line = stop_command_line("127.0.0.1:9000");
    assert_eq!(stop_line_for(&mut t, "h", &line), Some(("Ok\n".to_string(), Some(7))));
    assert_eq!(stop_line_for(&mut t, "h", &line), Some(("Ok\n".to_string(), None)));
    assert_eq!(
        stop_line_for(&mut t, "other", &line),
        Some(("ERR udp address not found\n".to_string(), None))
    );
    assert_eq!(
        stop_client_stream(&mut t, "h", " 127.0.0.1:9000 "),
        ("Ok\n".to_string(), None)
    );
}

#[test]
fn table_remove_client_streams() {
    let mut t: SubscriberTable<u32> = SubscriberTable::new();
    t.register("h", "a:1".to_string(), 1);
    t.register("h", "b:2".to_string(), 2);
    t.register("g", "c:3".to_string(), 3);
    let mut stopped = t.remove_client_streams("h");
    stopped.sort();
    assert_eq!(stopped, vec![1, 2]);
    assert!(t.has_client("h"));
    assert!(t.remove_client_streams("h").is_empty());
    assert!(t.remove_client_streams("nobody").is_empty());
    assert_eq!(t.remove_stream("g", "c:3"), Some(Some(3)));
}

#[test]
fn stop_request_outcomes() {
    assert!(matches!(stop_request("PING\n"), StopRequest::NotAsked));
    match stop_request("STOP\n") {
        StopRequest::Reply(text) => assert_eq!(text, "ERR invalid command\n"),
        _ => panic!("expected a reply"),
    }
    match stop_request("STOP bad\n") {
        StopRequest::Reply(text) => assert_eq!(text, "ERR invalid udp address\n"),
        _ => panic!("expected a reply"),
    }
    match stop_request("XSTOP 1.2.3.4:5\n") {
        StopRequest::Reply(text) => assert_eq!(text, "ERR invalid command\n"),
        _ => panic!("expected a reply"),
    }
    match stop_request("  STOP 1.2.3.4:5 \n") {
        StopRequest::Stop(a) => assert_eq!(a, "1.2.3.4:5"),
        _ => panic!("expected a stop"),
    }
}

#[test]
fn stream_step_outcomes() {
    let list = known();
    assert!(matches!(stream_step("PING\n", &list), StreamOutcome::NotAsked));
    match stream_step("STREAM 127.0.0.1:9000\n", &list) {
        StreamOutcome::Reply(text) => assert_eq!(text, "ERR empty ticker list\n"),
        _ => panic!("expected a reply"),
    }
    match stream_step("STREAM 127.0.0.1:9000 XXX\n", &list) {
        StreamOutcome::Reply(text) => assert_eq!(text, "ERR unknown ticker: XXX\n"),
        _ => panic!("expected a reply"),
    }
    match stream_step("  STREAM 127.0.0.1:9000 SBER,GAZP\n", &list) {
        StreamOutcome::Open(Subscribe { address, tickers }) => {
            assert_eq!(address, "127.0.0.1:9000");
            assert_eq!(tickers, vec!["SBER", "GAZP"]);
        }
        _ => panic!("expected a subscription"),
    }
    assert_eq!(ok_reply(), "Ok\n");
}

#[test]
fn ping_rules() {
    assert!(ping_step("PING\n"));
    assert!(ping_step("  PING"));
    assert!(!ping_step("XPING"));
    assert!(!ping_step("STOP"));
    assert!(!ping_expired(4));
    assert!(ping_expired(5));
}

#[test]
fn stream_actions() {
    assert_eq!(next_stream_action(true, true), StreamAction::Send);
    assert_eq!(next_stream_action(false, true), StreamAction::Finish);
    assert_eq!(next_stream_action(true, false), StreamAction::Fail);
    assert_eq!(next_stream_action(false, false), StreamAction::Fail);
}
