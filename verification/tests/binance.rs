use watchlist::binance::{process_data, Response, Symbol};

fn sym(symbol: &str, status: &str, quote: &str, base: &str) -> Symbol {
    Symbol {
        symbol: symbol.to_string(),
        status: status.to_string(),
        quote_asset: quote.to_string(),
        base_asset: base.to_string(),
    }
}

#[test]
fn test_process_data_filters_usdt_pairs() {
    let response = Response {
        symbols: vec![
            sym("BTCUSDT", "TRADING", "USDT", "BTC"),
            sym("ETHUSDT", "TRADING", "USDT", "ETH"),
            sym("BTCBUSD", "TRADING", "BUSD", "BTC"),
        ],
    };

    let result = process_data(response);

    assert_eq!(result.len(), 2);
    assert!(result.contains(&"BINANCE:BTCUSDT".to_string()));
    assert!(result.contains(&"BINANCE:ETHUSDT".to_string()));
    assert!(!result.iter().any(|s| s.contains("BUSD")));
}

#[test]
fn test_process_data_filters_non_trading() {
    let response = Response {
        symbols: vec![
            sym("BTCUSDT", "TRADING", "USDT", "BTC"),
            sym("ETHUSDT", "HALT", "USDT", "ETH"),
        ],
    };

    let result = process_data(response);

    assert_eq!(result.len(), 1);
    assert!(result.contains(&"BINANCE:BTCUSDT".to_string()));
}

#[test]
fn test_process_data_filters_blacklisted() {
    let response = Response {
        symbols: vec![
            sym("BTCUSDT", "TRADING", "USDT", "BTC"),
            sym("USDCUSDT", "TRADING", "USDT", "USDC"),
            sym("BUSDUSDT", "TRADING", "USDT", "BUSD"),
            sym("WBTCUSDT", "TRADING", "USDT", "WBTC"),
        ],
    };

    let result = process_data(response);

    assert_eq!(result.len(), 1);
    assert!(result.contains(&"BINANCE:BTCUSDT".to_string()));
}

#[test]
fn binance_test_process_data_output_format() {
    let response = Response { symbols: vec![sym("BTCUSDT", "TRADING", "USDT", "BTC")] };

    let result = process_data(response);

    assert_eq!(result.len(), 1);
    assert!(result.iter().all(|s| s == "BINANCE:BTCUSDT"));
    assert!(result.iter().all(|s| s.contains(':')));
}

#[test]
fn binance_empty_input_gives_empty_watchlist() {
    let result = process_data(Response { symbols: vec![] });
    assert!(result.is_empty());
}

#[test]
fn binance_denylisted_fiat_bases_never_emitted() {
    let response = Response {
        symbols: vec![
            sym("EURUSDT", "TRADING", "USDT", "EUR"),
            sym("GBPUSDT", "TRADING", "USDT", "GBP"),
            sym("DAIUSDT", "TRADING", "USDT", "DAI"),
            sym("XMRUSDT", "TRADING", "USDT", "XMR"),
        ],
    };

    let result = process_data(response);

    assert_eq!(result, vec!["BINANCE:XMRUSDT".to_string()]);
}
