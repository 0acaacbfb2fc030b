//! A verified extraction-and-reconciliation pipeline for semi-structured
//! product pages: fields are pulled out of parsed documents, the attribute
//! schema is unified across all records, missing values are backfilled with a
//! sentinel, and the result is rendered as a tab-separated table.

pub mod collect;
pub mod dom;
pub mod extract;
pub mod page;
pub mod reconcile;
pub mod record;
pub mod scrape;
pub mod table;
pub mod text;

use vstd::prelude::*;
use vstd::string::*;

verus! {

use crate::record::views_of;

/// The query suffix appended to every input URL before fetching.
pub open spec fn url_suffix() -> Seq<char> {
    "?recaptcha=pass"@
}

/// Appends the fixed query suffix to one input URL.
pub fn prepare_url(line: &str) -> (r: String)
    ensures
        r@ == line@ + url_suffix(),
{
    let mut r = String::from_str(line);
    r.append("?recaptcha=pass");
    r
}

/// The fixed column header of the product table, which doubles as the
/// allow-list of recognized detail-row labels.
pub fn default_header() -> (header: Vec<String>)
    ensures
        views_of(header@) =~= seq![
            "Name"@,
            "Price"@,
            "Brand"@,
            "Response Time"@,
            "Refresh Rate"@,
            "Resolution"@,
            "Panel"@,
        ],
{
    let mut header: Vec<String> = Vec::new();
    header.push(String::from_str("Name"));
    header.push(String::from_str("Price"));
    header.push(String::from_str("Brand"));
    header.push(String::from_str("Response Time"));
    header.push(String::from_str("Refresh Rate"));
    header.push(String::from_str("Resolution"));
    header.push(String::from_str("Panel"));
    header
}

} // verus!
