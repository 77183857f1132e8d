use watchlist::stockanalysis::{parse_html, ParseError};

#[test]
fn test_parse_html_basic() {
    let html = r#"
        <html>
            <body>
                <div id="main">
                    <table>
                        <tbody>
                            <tr>
                                <td><a href="/stocks/aapl/">AAPL</a></td>
                                <td>Apple Inc.</td>
                            </tr>
                            <tr>
                                <td><a href="/stocks/msft/">MSFT</a></td>
                                <td>Microsoft Corporation</td>
                            </tr>
                            <tr>
                                <td><a href="/stocks/googl/">GOOGL</a></td>
                                <td>Alphabet Inc.</td>
                            </tr>
                        </tbody>
                    </table>
                </div>
            </body>
        </html>
    "#;

    let result = parse_html(html).unwrap();

    assert_eq!(result.len(), 3);
    assert_eq!(result[0], "AAPL");
    assert_eq!(result[1], "MSFT");
    assert_eq!(result[2], "GOOGL");
}

#[test]
fn test_parse_html_missing_table() {
    let html = r#"
        <html>
            <body>
                <div id="main">
                    <p>No table here</p>
                </div>
            </body>
        </html>
    "#;

    let result = parse_html(html);

    assert!(result.is_err());
    assert_eq!(result.unwrap_err(), ParseError::TableMissing);
}

#[test]
fn test_parse_html_empty_table() {
    let html = r#"
        <html>
            <body>
                <div id="main">
                    <table>
                        <tbody>
                        </tbody>
                    </table>
                </div>
            </body>
        </html>
    "#;

    let result = parse_html(html).unwrap();

    assert_eq!(result.len(), 0);
}
