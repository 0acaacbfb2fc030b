//! Reading a parsed document into the plain-value page model, through the
//! compiled structural queries.
//!
//! The selector set is compiled once, when the schema is built, and then
//! shared read-only; what each query finds is decided by the document, so the
//! exact contracts sit downstream, on the extractor and collector, which work
//! on the plain values read here.

use vstd::prelude::*;
use vstd::string::*;

verus! {

use crate::dom::{
    attr_of, parse_html, parse_selector, select_all, select_all_within, select_first,
    select_first_within, text_of,
};
use crate::extract::extract;
use crate::page::{DetailRow, ExtractError, Page};
use crate::record::Record;

/// The compiled structural queries of a product page: the fixed fields, the
/// details region, and the row/label/value cells inside it.
pub struct PageSchema {
    title_sel: scraper::Selector,
    price_sel: scraper::Selector,
    details_sel: scraper::Selector,
    row_sel: scraper::Selector,
    label_sel: scraper::Selector,
    value_sel: scraper::Selector,
}

impl PageSchema {
    /// Compiles the selector set once. `None` only when a selector fails to
    /// compile, which the fixed selector strings never do.
    pub fn new() -> (r: Option<PageSchema>) {
        let title_sel = match parse_selector("h1.product-title") {
            Option::Some(s) => s,
            Option::None => {
                return None;
            },
        };
        let price_sel = match parse_selector("div.price-current") {
            Option::Some(s) => s,
            Option::None => {
                return None;
            },
        };
        let details_sel = match parse_selector("div#product-details") {
            Option::Some(s) => s,
            Option::None => {
                return None;
            },
        };
        let row_sel = match parse_selector("tr") {
            Option::Some(s) => s,
            Option::None => {
                return None;
            },
        };
        let label_sel = match parse_selector("th") {
            Option::Some(s) => s,
            Option::None => {
                return None;
            },
        };
        let value_sel = match parse_selector("td") {
            Option::Some(s) => s,
            Option::None => {
                return None;
            },
        };
        Some(
            PageSchema { title_sel, price_sel, details_sel, row_sel, label_sel, value_sel },
        )
    }

    /// Reads the page model out of a parsed document: the text of the first
    /// match of each fixed field, and the label/value cell texts of every
    /// row-like element inside the details region.
    pub fn scan(&self, doc: &scraper::Html) -> (p: Page) {
        let title = match select_first(doc, &self.title_sel) {
            Option::Some(el) => Some(text_of(&el)),
            Option::None => None,
        };
        let price = match select_first(doc, &self.price_sel) {
            Option::Some(el) => Some(text_of(&el)),
            Option::None => None,
        };
        let rows = match select_first(doc, &self.details_sel) {
            Option::Some(region) => {
                let trs = select_all_within(&region, &self.row_sel);
                let mut rows: Vec<DetailRow> = Vec::new();
                let n = trs.len();
                let mut i: usize = 0;
                while i < n
                    invariant
                        0 <= i <= n,
                        n == trs@.len(),
                    decreases n - i,
                {
                    let tr = &trs[i];
                    let label = match select_first_within(tr, &self.label_sel) {
                        Option::Some(el) => Some(text_of(&el)),
                        Option::None => None,
                    };
                    let value = match select_first_within(tr, &self.value_sel) {
                        Option::Some(el) => Some(text_of(&el)),
                        Option::None => None,
                    };
                    rows.push(DetailRow { label, value });
                    i = i + 1;
                }
                Some(rows)
            },
            Option::None => None,
        };
        Page { title, price, rows }
    }

    /// Reads one document's record: scans the page model out of the document
    /// and extracts it. The document decides what is found; whatever page
    /// model was read, the result obeys the extractor's contract on it, so an
    /// `Ok` record is always well-formed.
    pub fn read_data(&self, doc: &scraper::Html, allow: &Option<Vec<String>>) -> (res: Result<
        Record,
        ExtractError,
    >)
        ensures
            res is Ok ==> res->Ok_0.wf(),
    {
        let page = self.scan(doc);
        extract(&page, allow)
    }

    /// Parses a raw response body and reads its record.
    pub fn read_body(&self, body: &str, allow: &Option<Vec<String>>) -> (res: Result<
        Record,
        ExtractError,
    >)
        ensures
            res is Ok ==> res->Ok_0.wf(),
    {
        let doc = parse_html(body);
        self.read_data(&doc, allow)
    }

    /// Parses a raw response body and scans its page model.
    pub fn scan_body(&self, body: &str) -> (p: Page) {
        let doc = parse_html(body);
        self.scan(&doc)
    }
}

/// The compiled structural query of a listing page: the anchors whose
/// destinations are collected.
pub struct LinkSchema {
    link_sel: scraper::Selector,
}

impl LinkSchema {
    /// Compiles the anchor selector once. `None` only when the selector
    /// fails to compile, which the fixed selector string never does.
    pub fn new() -> (r: Option<LinkSchema>) {
        match parse_selector("a.item-title") {
            Option::Some(link_sel) => Some(LinkSchema { link_sel }),
            Option::None => None,
        }
    }

    /// Collects the destination of every matching anchor in the document, in
    /// document order; anchors without a destination are skipped.
    pub fn collect_hrefs(&self, doc: &scraper::Html) -> (links: Vec<String>) {
        let anchors = select_all(doc, &self.link_sel);
        let mut links: Vec<String> = Vec::new();
        let n = anchors.len();
        let mut i: usize = 0;
        while i < n
            invariant
                0 <= i <= n,
                n == anchors@.len(),
            decreases n - i,
        {
            match attr_of(&anchors[i], "href") {
                Option::Some(href) => links.push(href),
                Option::None => {},
            }
            i = i + 1;
        }
        links
    }

    /// Parses a raw response body and collects its anchor destinations.
    pub fn collect_hrefs_body(&self, body: &str) -> (links: Vec<String>) {
        let doc = parse_html(body);
        self.collect_hrefs(&doc)
    }
}

} // verus!
