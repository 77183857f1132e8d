use watchlist::coingecko::{process_data, Coin};

fn coin(id: &str, symbol: &str, name: &str) -> Coin {
    Coin { id: id.to_string(), symbol: symbol.to_string(), name: name.to_string() }
}

#[test]
fn test_process_data_filters_stablecoins() {
    let coins = vec![
        coin("bitcoin", "btc", "Bitcoin"),
        coin("tether", "usdt", "Tether"),
        coin("usd-coin", "usdc", "USD Coin"),
        coin("ethereum", "eth", "Ethereum"),
    ];

    let result = process_data(coins);

    assert_eq!(result.len(), 2);
    assert!(result.contains(&"BINANCE:BTCUSDT".to_string()));
    assert!(result.contains(&"BINANCE:ETHUSDT".to_string()));
    assert!(!result.iter().any(|s| s.contains("USDT:USDT")));
}

#[test]
fn test_process_data_filters_wrapped_coins() {
    let coins = vec![
        coin("bitcoin", "btc", "Bitcoin"),
        coin("wrapped-bitcoin", "wbtc", "Wrapped Bitcoin"),
        coin("weth", "weth", "WETH"),
        coin("steth", "steth", "Lido Staked Ether"),
    ];

    let result = process_data(coins);

    assert_eq!(result.len(), 1);
    assert!(result.contains(&"BINANCE:BTCUSDT".to_string()));
}

#[test]
fn coingecko_test_process_data_output_format() {
    let coins = vec![coin("bitcoin", "btc", "Bitcoin")];

    let result = process_data(coins);

    assert_eq!(result.len(), 1);
    assert!(result.iter().all(|s| s == "BINANCE:BTCUSDT"));
    assert!(result.iter().all(|s| s.contains(':')));
    assert!(result.iter().all(|s| s.starts_with("BINANCE:")));
    assert!(result.iter().all(|s| s.ends_with("USDT")));
}

#[test]
fn coingecko_empty_input_gives_empty_watchlist() {
    let result = process_data(vec![]);
    assert!(result.is_empty());
}

#[test]
fn coingecko_wrap_prefix_alone_is_not_excluded() {
    // The prefix-length guard: a symbol that IS a wrap prefix, rather than
    // starting with one, is kept.
    let coins = vec![
        coin("w", "w", "W Token"),
        coin("st", "st", "ST Token"),
        coin("cb", "cb", "CB Token"),
        coin("weth", "weth", "WETH"),
    ];

    let result = process_data(coins);

    assert_eq!(
        result,
        vec![
            "BINANCE:WUSDT".to_string(),
            "BINANCE:STUSDT".to_string(),
            "BINANCE:CBUSDT".to_string(),
        ]
    );
}

#[test]
fn coingecko_dollar_and_stable_names_rejected() {
    let coins = vec![
        coin("first-digital-usd", "fdusd", "First Digital USD"),
        coin("some-dollar", "xyz", "Great Dollar Coin"),
        coin("stable-thing", "abc", "SuperStable Reserve"),
        coin("monero", "xmr", "Monero"),
    ];

    let result = process_data(coins);

    assert_eq!(result, vec!["BINANCE:XMRUSDT".to_string()]);
}
