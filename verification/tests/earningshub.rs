use watchlist::earningshub::extract_tickers;

#[test]
fn test_extract_tickers_preserves_document_order() {
    let html = r#"
        <a href="/earnings-calendar/week-of/2025-11-10?symbol=TSLA">Tesla</a>
        <a href="/earnings-calendar/week-of/2025-11-10?symbol=AAPL">Apple</a>
        <a href="/earnings-calendar/week-of/2025-11-10?symbol=MSFT">Microsoft</a>
        <a href="/earnings-calendar/week-of/2025-11-10?symbol=GOOG">Google</a>
    "#;

    let tickers = extract_tickers(html);

    assert_eq!(tickers.len(), 4);
    let expected = vec!["TSLA", "AAPL", "MSFT", "GOOG"];
    assert!(tickers.iter().zip(&expected).all(|(a, b)| a == b));
}

#[test]
fn test_extract_tickers_deduplicates() {
    let html = r#"
        <a href="/earnings-calendar/week-of/2025-11-10?symbol=AAPL">Apple Morning</a>
        <a href="/earnings-calendar/week-of/2025-11-10?symbol=MSFT">Microsoft</a>
        <a href="/earnings-calendar/week-of/2025-11-10?symbol=AAPL">Apple Afternoon</a>
        <a href="/earnings-calendar/week-of/2025-11-10?symbol=TSLA">Tesla</a>
    "#;

    let tickers = extract_tickers(html);

    assert_eq!(tickers.len(), 3);
    let expected = vec!["AAPL", "MSFT", "TSLA"];
    assert!(tickers.iter().zip(&expected).all(|(a, b)| a == b));
}

#[test]
fn extract_tickers_empty_document_gives_empty_list() {
    assert!(extract_tickers("").is_empty());
}

#[test]
fn extract_tickers_requires_symbol_parameter() {
    let html = r#"<a href="/page?ticker=AAPL">Apple</a> symbol=MSFT plain text"#;

    // `symbol=` only counts behind a `?` or `&`, and other parameters do
    // not count at all.
    assert!(extract_tickers(html).is_empty());
}

#[test]
fn extract_tickers_takes_ampersand_parameters_and_full_runs() {
    let html = r#"<a href="/p?week=1&symbol=BRK.B">Berkshire</a><a href="/p?symbol=NVDA&x=1">Nvidia</a>"#;

    let tickers = extract_tickers(html);

    assert_eq!(tickers, vec!["BRK.B".to_string(), "NVDA".to_string()]);
}
