use watchlist::kucoin::{get_spot_impl, process_data, Response, ResponseData, ResponseTicker};

fn ticker(symbol: &str, vol: u64) -> ResponseTicker {
    ResponseTicker { symbol: symbol.to_string(), vol }
}

#[test]
fn test_process_data_sorted() {
    let data: Vec<ResponseTicker> = vec![
        ticker("BTC-USDT", 100_000),
        ticker("ETH-USDT", 100),
        ticker("XMR-USDT", 100_000_000),
    ];
    let result = process_data(data);
    let expected = vec!["XMR".to_string(), "BTC".to_string(), "ETH".to_string()];

    assert_eq!(result, expected)
}

#[test]
fn test_process_data_nonusdt() {
    let data: Vec<ResponseTicker> = vec![
        ticker("BTC-USDT", 100),
        ticker("ETH-USDT", 100),
        ticker("XMR-ETH", 100),
    ];
    let result = process_data(data);
    let expected = vec!["BTC".to_string(), "ETH".to_string()];

    assert_eq!(result, expected)
}

#[test]
fn test_process_data_levered() {
    let data: Vec<ResponseTicker> = vec![
        ticker("BTC-USDT", 100),
        ticker("ETH-USDT", 100),
        ticker("BTC3L-USDT", 100),
        ticker("BTC3S-USDT", 100),
        ticker("BTC2L-USDT", 100),
        ticker("BTC2S-USDT", 100),
        ticker("WLDUP-USDT", 100),
        ticker("SUPER-USDT", 100),
        ticker("JUP-USDT", 100),
        ticker("BTCDOWN-USDT", 100),
    ];
    let result = process_data(data);
    let expected = vec!["BTC".to_string(), "ETH".to_string(), "SUPER".to_string()];

    assert_eq!(result, expected)
}

#[test]
fn kucoin_test_process_data_output_format() {
    let data: Vec<ResponseTicker> = vec![ticker("BTC-USDT", 100)];

    let result = process_data(data);

    assert_eq!(result, vec!["BTC".to_string()]);
}

#[test]
fn kucoin_ties_keep_input_order() {
    let data: Vec<ResponseTicker> = vec![
        ticker("AAA-USDT", 50),
        ticker("BBB-USDT", 100),
        ticker("CCC-USDT", 50),
        ticker("DDD-USDT", 100),
    ];
    let result = process_data(data);
    let expected = vec![
        "BBB".to_string(),
        "DDD".to_string(),
        "AAA".to_string(),
        "CCC".to_string(),
    ];

    assert_eq!(result, expected)
}

#[test]
fn kucoin_get_spot_namespaces_bases() {
    let response = Response {
        data: ResponseData {
            ticker: vec![ticker("BTC-USDT", 2), ticker("ETH-USDT", 1)],
        },
    };
    let result = get_spot_impl(response);

    assert_eq!(
        result,
        vec!["KUCOIN:BTCUSDT".to_string(), "KUCOIN:ETHUSDT".to_string()]
    );
    assert!(result.iter().all(|s| s.starts_with("KUCOIN:")));
    assert!(result.iter().all(|s| s.contains(':')));
}

#[test]
fn kucoin_empty_input_gives_empty_watchlist() {
    let result = process_data(vec![]);
    assert!(result.is_empty());
}
