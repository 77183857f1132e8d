use watchlist::ibkr::{map_exchange_code, process_positions, Position, SecurityKind};

fn pos(symbol: &str, exchange: &str, kind: SecurityKind, flat: bool) -> Position {
    Position { symbol: symbol.to_string(), exchange: exchange.to_string(), kind, flat }
}

#[test]
fn ibkr_maps_known_venue_codes() {
    assert_eq!(map_exchange_code("SMART"), "NYSE");
    assert_eq!(map_exchange_code("ISLAND"), "NASDAQ");
    assert_eq!(map_exchange_code("PINK"), "OTC");
    assert_eq!(map_exchange_code("IBIS"), "XETR");
    assert_eq!(map_exchange_code("IBIS2"), "XETR");
    assert_eq!(map_exchange_code("BVME"), "MIL");
    assert_eq!(map_exchange_code("SBF"), "EURONEXT");
}

#[test]
fn ibkr_unmapped_code_passes_through() {
    assert_eq!(map_exchange_code("LSE"), "LSE");
}

#[test]
fn ibkr_splits_stocks_and_options_and_drops_flat() {
    let positions = vec![
        pos("AAPL", "ISLAND", SecurityKind::Stock, false),
        pos("SAP", "IBIS", SecurityKind::Stock, false),
        pos("GONE", "SMART", SecurityKind::Stock, true),
        pos("TSLA", "SMART", SecurityKind::OptionContract, false),
        pos("FLAT", "SMART", SecurityKind::OptionContract, true),
        pos("BOND", "SMART", SecurityKind::Other, false),
    ];

    let tickers = process_positions(positions);

    assert_eq!(
        tickers.stocks,
        vec!["NASDAQ:AAPL".to_string(), "XETR:SAP".to_string()]
    );
    assert_eq!(tickers.options, vec!["TSLA".to_string()]);
    assert!(tickers.stocks.iter().all(|s| s.contains(':')));
}

#[test]
fn ibkr_empty_book_gives_empty_watchlists() {
    let tickers = process_positions(vec![]);
    assert!(tickers.stocks.is_empty());
    assert!(tickers.options.is_empty());
}
