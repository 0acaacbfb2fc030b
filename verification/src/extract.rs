//! Field extraction: turns the plain-value model of one page into a record.
//!
//! The fixed fields are required: a page missing its title, price or details
//! region yields an error, never a partial record. Detail rows contribute one
//! attribute each, label and value whitespace-normalized, last write winning
//! when a label repeats; rows missing either cell are skipped. An optional
//! allow-list restricts which labels are kept.

use vstd::prelude::*;
use vstd::string::*;

verus! {

use crate::page::{DetailRow, ExtractError, Page, page_complete};
use crate::record::{Record, pairs_wf, put, lemma_put};
use crate::text::{normalize_spec, normalize_ws, str_eq, trim_spec, trim_ws};

/// Whether the allow-list holds the (already normalized) label `k`.
pub open spec fn allow_contains(list: Seq<String>, k: Seq<char>) -> bool {
    exists|i: int| 0 <= i < list.len() && list[i]@ == k
}

/// The attribute a detail row contributes: normalized label and value.
pub open spec fn row_entry(r: DetailRow) -> (Seq<char>, Seq<char>) {
    (normalize_spec(r.label->Some_0@), normalize_spec(r.value->Some_0@))
}

/// Whether a detail row contributes at all: both cells present, and the
/// normalized label admitted by the allow-list when one is supplied.
pub open spec fn row_kept(r: DetailRow, allow: Option<Vec<String>>) -> bool {
    &&& r.label is Some
    &&& r.value is Some
    &&& match allow {
        Option::Some(list) => allow_contains(list@, normalize_spec(r.label->Some_0@)),
        Option::None => true,
    }
}

/// The record model after walking the detail rows left to right, starting
/// from `m`.
pub open spec fn rows_fold(
    m: Seq<(Seq<char>, Seq<char>)>,
    rows: Seq<DetailRow>,
    allow: Option<Vec<String>>,
) -> Seq<(Seq<char>, Seq<char>)>
    decreases rows.len(),
{
    if rows.len() == 0 {
        m
    } else {
        let m1 = if row_kept(rows[0], allow) {
            put(m, row_entry(rows[0]).0, row_entry(rows[0]).1)
        } else {
            m
        };
        rows_fold(m1, rows.drop_first(), allow)
    }
}

/// The fixed fields of a complete page: the trimmed title under "Name" and
/// the trimmed price under "Price".
pub open spec fn base_model(p: Page) -> Seq<(Seq<char>, Seq<char>)> {
    put(
        put(Seq::empty(), "Name"@, trim_spec(p.title->Some_0@)),
        "Price"@,
        trim_spec(p.price->Some_0@),
    )
}

/// The record extracted from a complete page: the fixed fields, then the
/// contribution of every detail row in document order.
pub open spec fn extract_model(p: Page, allow: Option<Vec<String>>) -> Seq<(Seq<char>, Seq<char>)> {
    rows_fold(base_model(p), p.rows->Some_0@, allow)
}

/// The error an incomplete page yields: the first required part missing, in
/// the order title, price, details.
pub open spec fn page_error(p: Page) -> ExtractError {
    if p.title is None {
        ExtractError::TitleNotFound
    } else if p.price is None {
        ExtractError::PriceNotFound
    } else {
        ExtractError::DetailsNotFound
    }
}

proof fn lemma_rows_fold_wf(
    m: Seq<(Seq<char>, Seq<char>)>,
    rows: Seq<DetailRow>,
    allow: Option<Vec<String>>,
)
    requires
        pairs_wf(m),
    ensures
        pairs_wf(rows_fold(m, rows, allow)),
    decreases rows.len(),
{
    if rows.len() > 0 {
        if row_kept(rows[0], allow) {
            lemma_put(m, row_entry(rows[0]).0, row_entry(rows[0]).1);
            lemma_rows_fold_wf(
                put(m, row_entry(rows[0]).0, row_entry(rows[0]).1),
                rows.drop_first(),
                allow,
            );
        } else {
            lemma_rows_fold_wf(m, rows.drop_first(), allow);
        }
    }
}

/// Whether `list` holds an entry equal to `k`.
pub fn list_contains(list: &Vec<String>, k: &str) -> (r: bool)
    ensures
        r == allow_contains(list@, k@),
{
    let n = list.len();
    let mut i: usize = 0;
    while i < n
        invariant
            0 <= i <= n,
            n == list@.len(),
            forall|j: int| 0 <= j < i ==> list@[j]@ != k@,
        decreases n - i,
    {
        if str_eq(list[i].as_str(), k) {
            return true;
        }
        i = i + 1;
    }
    false
}

/// Extracts the record of one page.
///
/// A complete page yields exactly the model record: trimmed title and price
/// under the fixed names, then one normalized attribute per kept detail row,
/// last write winning. An incomplete page yields the error naming its first
/// missing required part, and no record.
pub fn extract(page: &Page, allow: &Option<Vec<String>>) -> (res: Result<Record, ExtractError>)
    ensures
        res is Ok <==> page_complete(*page),
        res is Ok ==> res->Ok_0.wf() && res->Ok_0@ == extract_model(*page, *allow),
        res is Err ==> res->Err_0 == page_error(*page),
{
    let title = match &page.title {
        Option::Some(t) => t,
        Option::None => {
            return Err(ExtractError::TitleNotFound);
        },
    };
    let price = match &page.price {
        Option::Some(t) => t,
        Option::None => {
            return Err(ExtractError::PriceNotFound);
        },
    };
    let rows = match &page.rows {
        Option::Some(r) => r,
        Option::None => {
            return Err(ExtractError::DetailsNotFound);
        },
    };
    let mut rec = Record::new();
    rec.insert(String::from_str("Name"), trim_ws(title.as_str()));
    rec.insert(String::from_str("Price"), trim_ws(price.as_str()));
    proof {
        assert(rec@ == base_model(*page));
        assert(rows@.skip(0) =~= rows@);
    }
    let n = rows.len();
    let mut i: usize = 0;
    while i < n
        invariant
            0 <= i <= n,
            n == rows@.len(),
            rows@ == page.rows->Some_0@,
            rec.wf(),
            rows_fold(rec@, rows@.skip(i as int), *allow) == extract_model(*page, *allow),
        decreases n - i,
    {
        let row = &rows[i];
        let ghost pre = rec@;
        proof {
            assert(rows@.skip(i as int)[0] == rows@[i as int]);
            assert(rows@.skip(i as int).drop_first() =~= rows@.skip(i as int + 1));
        }
        match (&row.label, &row.value) {
            (Option::Some(label), Option::Some(value)) => {
                let key = normalize_ws(label.as_str());
                let keep = match allow {
                    Option::Some(list) => list_contains(list, key.as_str()),
                    Option::None => true,
                };
                if keep {
                    let val = normalize_ws(value.as_str());
                    rec.insert(key, val);
                    proof {
                        assert(row_kept(rows@[i as int], *allow));
                        assert(rec@ == put(pre, row_entry(rows@[i as int]).0, row_entry(
                            rows@[i as int],
                        ).1));
                    }
                } else {
                    proof {
                        assert(!row_kept(rows@[i as int], *allow));
                    }
                }
            },
            _ => {
                proof {
                    assert(!row_kept(rows@[i as int], *allow));
                }
            },
        }
        i = i + 1;
    }
    proof {
        assert(rows@.skip(n as int) =~= Seq::<DetailRow>::empty());
        assert(rows_fold(rec@, rows@.skip(n as int), *allow) == rec@);
    }
    Ok(rec)
}

} // verus!
