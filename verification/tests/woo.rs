use watchlist::woo::{filter_symbols, process_perp, process_spot, Row};

fn row(symbol: &str, is_stable: u32, is_trading: u32) -> Row {
    Row { symbol: symbol.to_string(), is_stable, is_trading }
}

#[test]
fn test_filter_symbols() {
    let rows = vec![
        row("PERP_BTC_USDT", 0, 1),
        row("SPOT_ETH_USDT", 0, 1),
        row("SPOT_USDC_USDT", 1, 1),
        row("SPOT_XMR_USDT", 0, 0),
    ];

    let result = filter_symbols(rows);

    assert_eq!(result.len(), 2);
    assert!(result.contains(&"PERP_BTC_USDT".to_string()));
    assert!(result.contains(&"SPOT_ETH_USDT".to_string()));
}

#[test]
fn test_process_perp() {
    let symbols = vec![
        "PERP_BTC_USDT".to_string(),
        "PERP_ETH_USDT".to_string(),
        "SPOT_XMR_USDT".to_string(),
    ];

    let result = process_perp(&symbols);

    assert_eq!(result.len(), 2);
    assert_eq!(result[0], "WOONETWORK:BTCUSDT.P");
    assert_eq!(result[1], "WOONETWORK:ETHUSDT.P");
}

#[test]
fn test_process_spot() {
    let symbols = vec![
        "SPOT_BTC_USDT".to_string(),
        "SPOT_ETH_USDT".to_string(),
        "PERP_XMR_USDT".to_string(),
    ];

    let result = process_spot(&symbols);

    assert_eq!(result.len(), 2);
    assert_eq!(result[0], "WOONETWORK:BTCUSDT");
    assert_eq!(result[1], "WOONETWORK:ETHUSDT");
}

#[test]
fn test_process_perp_output_format() {
    let symbols = vec!["PERP_BTC_USDT".to_string()];

    let result = process_perp(&symbols);

    assert_eq!(result.len(), 1);
    assert_eq!(result[0], "WOONETWORK:BTCUSDT.P");
    assert!(result[0].contains(':'));
    assert!(result[0].ends_with(".P"));
}

#[test]
fn test_process_spot_output_format() {
    let symbols = vec!["SPOT_ETH_USDT".to_string()];

    let result = process_spot(&symbols);

    assert_eq!(result.len(), 1);
    assert_eq!(result[0], "WOONETWORK:ETHUSDT");
    assert!(result[0].contains(':'));
}

#[test]
fn woo_empty_input_gives_empty_watchlists() {
    let symbols: Vec<String> = vec![];
    assert!(filter_symbols(vec![]).is_empty());
    assert!(process_perp(&symbols).is_empty());
    assert!(process_spot(&symbols).is_empty());
}

#[test]
fn woo_leading_token_must_equal_tag() {
    // The product tag is the whole leading `_`-token: a token that merely
    // begins with the tag does not count.
    let symbols = vec![
        "PERPX_A_B".to_string(),
        "SPOTX_A_B".to_string(),
        "PERP_BTC_USDT".to_string(),
        "SPOT_ETH_USDT".to_string(),
    ];

    assert_eq!(process_perp(&symbols), vec!["WOONETWORK:BTCUSDT.P".to_string()]);
    assert_eq!(process_spot(&symbols), vec!["WOONETWORK:ETHUSDT".to_string()]);
}

#[test]
fn woo_symbol_without_separator_is_dropped() {
    let symbols = vec!["PERPETUAL".to_string(), "PERP_SOL_USDT".to_string()];

    let result = process_perp(&symbols);

    assert_eq!(result, vec!["WOONETWORK:SOLUSDT.P".to_string()]);
}
