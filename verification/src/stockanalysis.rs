//! The ETF holdings page: the ticker cell texts of the holdings table, in
//! document order. A document without the expected table is a hard error,
//! not an empty result: an empty list would be indistinguishable from a
//! page-layout change.

use vstd::prelude::*;

use vstd::string::StringSliceAdditionalSpecFns;

verus! {

/// Why holdings parsing failed.
#[derive(Debug, Clone, Copy, PartialEq, Eq, Structural)]
pub enum ParseError {
    /// The document holds no `#main table tbody` subtree.
    TableMissing,
}

/// The anchor texts of the first `#main table tbody` subtree of a document,
/// in document order; `None` when the document has no such subtree. A
/// function of the document text alone.
pub uninterp spec fn holdings_anchor_texts(html: Seq<char>) -> Option<Seq<Seq<char>>>;

/// Relies on scraper's `Html::parse_document`, `Selector::parse` and
/// `select`: HTML parsing and CSS selection are functions of the document
/// alone; the anchors of the first `#main table tbody` subtree are returned
/// in document order, `None` when that subtree is absent. The underlying
/// text buffers hold at most `u32::MAX` bytes, so larger documents are
/// excluded.
#[verifier::external_body]
fn scrape_holdings(html: &str) -> (r: Option<Vec<String>>)
    requires
        html.spec_bytes().len() <= 0xFFFF_FFFF,
    ensures
        r is Some <==> holdings_anchor_texts(html@) is Some,
        r matches Some(v) ==> Some(v.deep_view()) == holdings_anchor_texts(html@),
{
    let document = scraper::Html::parse_document(html);
    let table_selector = scraper::Selector::parse("#main table tbody").ok()?;
    let ticker_selector = scraper::Selector::parse("td a").ok()?;
    let data = document.select(&table_selector).next()?;
    let mut tickers: Vec<String> = Vec::new();
    for el in data.select(&ticker_selector) {
        tickers.push(el.text().collect());
    }
    Some(tickers)
}

/// Reads the holdings tickers out of the document: the text of each ticker
/// anchor of the holdings table, in document order. Fails exactly when the
/// document holds no holdings table. The HTML library's text buffers hold
/// at most `u32::MAX` bytes, so larger documents are excluded.
pub fn parse_html(html: &str) -> (r: Result<Vec<String>, ParseError>)
    requires
        html.spec_bytes().len() <= 0xFFFF_FFFF,
    ensures
        match r {
            Ok(v) => holdings_anchor_texts(html@) == Some(v.deep_view()),
            Err(e) => holdings_anchor_texts(html@) is None && e == ParseError::TableMissing,
        },
{
    match scrape_holdings(html) {
        Some(v) => Ok(v),
        None => Err(ParseError::TableMissing),
    }
}

} // verus!
