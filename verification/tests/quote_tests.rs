use stock_stalker::error::QuoteError;
use stock_stalker::quote::{is_float_literal_str, quote_from_draw, random_quote, WireQuote};

fn quote(ticker: &str, price: f64, volume: u32, timestamp: u64) -> WireQuote {
    WireQuote::new(ticker.to_string(), format!("{}", price), volume, timestamp)
}

#[test]
fn test_stock_quote_new() {
    let quote = quote("SBER", 350.50, 1000, 1689678900);
    assert_eq!(quote.ticker, "SBER");
    assert_eq!(quote.price.parse::<f64>().unwrap(), 350.50);
    assert_eq!(quote.volume, 1000);
    assert_eq!(quote.timestamp, 1689678900);
}

#[test]
fn test_stock_quote_to_wire_line() {
    let quote = quote("SBER", 350.50, 1000, 1689678900);
    assert_eq!(quote.to_wire_line(), "SBER|350.5|1000|1689678900\n");
}

#[test]
fn test_stock_quote_from_wire_line_success() {
    let line = "SBER|350.50|1000|1689678900";
    let quote = WireQuote::from_wire_line(line).unwrap();
    assert_eq!(quote.ticker, "SBER");
    assert_eq!(quote.price.parse::<f64>().unwrap(), 350.50);
    assert_eq!(quote.volume, 1000);
    assert_eq!(quote.timestamp, 1689678900);
}

#[test]
fn test_stock_quote_from_wire_line_invalid_format() {
    let line = "SBER|350.50";
    let result = WireQuote::from_wire_line(line);
    assert!(result.is_err());
}

#[test]
fn test_stock_quote_from_wire_line_invalid_ticker() {
    let line = "SB ER|350.50|1000|1689678900";
    let result = WireQuote::from_wire_line(line);
    assert!(result.is_err());
}

#[test]
fn test_stock_quote_from_wire_line_invalid_price() {
    let line = "SBER|abc|1000|1689678900";
    let result = WireQuote::from_wire_line(line);
    assert!(result.is_err());
}

#[test]
fn test_stock_quote_from_wire_line_invalid_volume() {
    let line = "SBER|350.50|abc|1689678900";
    let result = WireQuote::from_wire_line(line);
    assert!(result.is_err());
}

#[test]
fn test_stock_quote_from_wire_line_invalid_timestamp() {
    let line = "SBER|350.50|1000|abc";
    let result = WireQuote::from_wire_line(line);
    assert!(result.is_err());
}

#[test]
fn test_quote_stream_random() {
    let tickers = vec!["SBER".to_string(), "GAZP".to_string()];
    let quote = random_quote(&tickers, format!("{}", 350.0f64), 1).unwrap();
    assert!(quote.ticker == "SBER" || quote.ticker == "GAZP");
    assert!(quote.volume >= 10 && quote.volume <= 1000);
}

#[test]
fn test_stock_quote_clone() {
    let quote1 = quote("SBER", 350.50, 1000, 1689678900);
    let quote2 = quote1.clone();
    assert_eq!(quote1, quote2);
}

#[test]
fn test_stock_quote_debug() {
    let quote = quote("SBER", 350.50, 1000, 1689678900);
    let debug_str = format!("{:?}", quote);
    assert!(debug_str.contains("SBER"));
}

#[test]
fn field_errors_name_field_and_reason() {
    match WireQuote::from_wire_line("SBER|abc|1000|1") {
        Err(QuoteError::ParseError(e)) => {
            assert_eq!(e.index, 1);
            assert_eq!(e.value, "abc");
            assert_eq!(e.reason, "abc".parse::<f64>().unwrap_err().to_string());
        }
        _ => panic!("expected a price error"),
    }
    match WireQuote::from_wire_line("SBER||1000|1") {
        Err(QuoteError::ParseError(e)) => {
            assert_eq!(e.reason, "".parse::<f64>().unwrap_err().to_string());
        }
        _ => panic!("expected a price error"),
    }
    match WireQuote::from_wire_line("SBER|1.5|4294967296|1") {
        Err(QuoteError::ParseError(e)) => {
            assert_eq!(e.index, 2);
            assert_eq!(e.reason, "4294967296".parse::<u32>().unwrap_err().to_string());
        }
        _ => panic!("expected a volume error"),
    }
    match WireQuote::from_wire_line("SBER|1.5|7|") {
        Err(QuoteError::ParseError(e)) => {
            assert_eq!(e.index, 3);
            assert_eq!(e.reason, "".parse::<u64>().unwrap_err().to_string());
        }
        _ => panic!("expected a timestamp error"),
    }
    // the price is checked before the volume
    match WireQuote::from_wire_line("SBER|x|y|z") {
        Err(QuoteError::ParseError(e)) => assert_eq!(e.index, 1),
        _ => panic!("expected a price error"),
    }
    assert!(matches!(
        WireQuote::from_wire_line("A|1|2|3|4"),
        Err(QuoteError::InvalidFormat(_))
    ));
    assert!(matches!(
        WireQuote::from_wire_line("S B|1|2|3"),
        Err(QuoteError::InvalidQuote(_))
    ));
}

#[test]
fn wire_line_round_trip() {
    for (t, p, v, ts) in [
        ("SBER", 350.5f64, 1000u32, 1689678900u64),
        ("GAZP", 0.1, 0, 0),
        ("", 1e300, u32::MAX, u64::MAX),
        ("X", f64::INFINITY, 7, 9),
        ("Y", f64::NAN, 7, 9),
        ("Z", -2.5e-7, 7, 9),
        ("A\tB", 1.0, 1, 1),
        ("A\u{a0}B\nC", 2.0, 3, 4),
    ] {
        let q = quote(t, p, v, ts);
        let back = WireQuote::from_wire_line(&q.to_wire_line()).unwrap();
        assert_eq!(back, q);
    }
}

#[test]
fn float_literal_grammar_agrees_with_std() {
    for s in [
        "1", "1.", ".1", "1.5", "+1.5", "-1.5", "1e5", "1E+5", "1.5e-3", "inf", "-Infinity",
        "NaN", "nan", "INF", "", ".", "+", "-", "e5", "1e", "1e+", "1.2.3", "1_0", " 1", "1 ",
        "infinit", "nanx", "0x10", "++1", "1ee5", "1e5.0", "+.5", "5.e3", "abc", "١",
    ] {
        assert_eq!(is_float_literal_str(s), s.parse::<f64>().is_ok(), "text {:?}", s);
    }
}

#[test]
fn random_quotes_vary() {
    let tickers: Vec<String> = (0..10).map(|i| format!("T{}", i)).collect();
    let mut volumes = std::collections::HashSet::new();
    let mut names = std::collections::HashSet::new();
    for _ in 0..200 {
        let q = random_quote(&tickers, "1".to_string(), 1).unwrap();
        assert!(tickers.contains(&q.ticker));
        assert!(q.volume >= 10 && q.volume < 1000);
        volumes.insert(q.volume);
        names.insert(q.ticker);
    }
    assert!(volumes.len() > 1);
    assert!(names.len() > 1);
}

#[test]
fn quote_from_draw_takes_the_drawn_ticker() {
    let tickers = vec!["SBER".to_string(), "GAZP".to_string(), "LKOH".to_string()];
    let q = quote_from_draw(&tickers, 2, 55, "12.5".to_string(), 9);
    assert_eq!(q, WireQuote::new("LKOH".to_string(), "12.5".to_string(), 55, 9));
    let q = quote_from_draw(&tickers, 0, 10, "1".to_string(), 0);
    assert_eq!(q.ticker, "SBER");
}
