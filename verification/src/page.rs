//! The plain-value model of one fetched page, as far as the pipeline reads
//! it: the text found for each fixed field, and the label/value cells of the
//! rows inside the details region.
//!
//! A field that the document does not have is `None`; the extractor decides
//! what that means (a hard error for a required field, a row skipped for a
//! details row).

use vstd::prelude::*;
use vstd::string::*;

verus! {

/// One row-like element inside the details region: the text of its label
/// cell and of its value cell, each absent when the row has no such cell.
pub struct DetailRow {
    pub label: Option<String>,
    pub value: Option<String>,
}

/// What was read from one document: the text of the fixed fields, and the
/// detail rows. `rows` is `None` when the document has no details region at
/// all (as opposed to an empty one).
pub struct Page {
    pub title: Option<String>,
    pub price: Option<String>,
    pub rows: Option<Vec<DetailRow>>,
}

/// Why a document yielded no record.
#[derive(Debug)]
pub enum ExtractError {
    TitleNotFound,
    PriceNotFound,
    DetailsNotFound,
}

impl ExtractError {
    /// The diagnostic text of this error.
    pub open spec fn message_spec(&self) -> Seq<char> {
        match self {
            ExtractError::TitleNotFound => "title not found"@,
            ExtractError::PriceNotFound => "price not found"@,
            ExtractError::DetailsNotFound => "product details not found"@,
        }
    }

    /// A short, single-line cause description for the error stream.
    pub fn message(&self) -> (m: String)
        ensures
            m@ == self.message_spec(),
    {
        match self {
            ExtractError::TitleNotFound => String::from_str("title not found"),
            ExtractError::PriceNotFound => String::from_str("price not found"),
            ExtractError::DetailsNotFound => String::from_str("product details not found"),
        }
    }
}

/// A page has everything a record requires: the identifying title, the
/// price, and a details region.
pub open spec fn page_complete(p: Page) -> bool {
    &&& p.title is Some
    &&& p.price is Some
    &&& p.rows is Some
}

} // verus!
