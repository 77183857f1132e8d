use watchlist::coingecko;
use watchlist::coingecko::Coin;
use watchlist::output::{get_crypto_file_name, render_lines};
use watchlist::woo;
use watchlist::woo::Row;

#[test]
fn render_is_one_ticker_per_line_newline_terminated() {
    let lines = vec!["BINANCE:BTCUSDT".to_string(), "BINANCE:ETHUSDT".to_string()];
    assert_eq!(render_lines(&lines), "BINANCE:BTCUSDT\nBINANCE:ETHUSDT\n");
}

#[test]
fn render_of_empty_watchlist_is_empty() {
    let lines: Vec<String> = vec![];
    assert_eq!(render_lines(&lines), "");
}

#[test]
fn crypto_file_name_format() {
    assert_eq!(get_crypto_file_name("WOO-PERP"), "- C - WOO-PERP");
    assert_eq!(get_crypto_file_name("BINANCE-SPOT"), "- C - BINANCE-SPOT");
}

#[test]
fn pipeline_run_twice_is_byte_identical() {
    let rows = || {
        vec![
            Row { symbol: "PERP_BTC_USDT".to_string(), is_stable: 0, is_trading: 1 },
            Row { symbol: "SPOT_ETH_USDT".to_string(), is_stable: 0, is_trading: 1 },
            Row { symbol: "PERP_USDC_USDT".to_string(), is_stable: 1, is_trading: 1 },
        ]
    };

    let first = render_lines(&woo::process_perp(&woo::filter_symbols(rows())));
    let second = render_lines(&woo::process_perp(&woo::filter_symbols(rows())));

    assert_eq!(first, second);
    assert_eq!(first, "WOONETWORK:BTCUSDT.P\n");
}

#[test]
fn coingecko_pipeline_run_twice_is_byte_identical() {
    let coins = || {
        vec![
            Coin { id: "bitcoin".to_string(), symbol: "btc".to_string(), name: "Bitcoin".to_string() },
            Coin { id: "tether".to_string(), symbol: "usdt".to_string(), name: "Tether".to_string() },
        ]
    };

    let first = render_lines(&coingecko::process_data(coins()));
    let second = render_lines(&coingecko::process_data(coins()));

    assert_eq!(first, second);
    assert_eq!(first, "BINANCE:BTCUSDT\n");
}
