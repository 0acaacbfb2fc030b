//! The collector: runs extraction over the outcome of every fetch, keeping
//! the records of the pages that extracted and one diagnostic line per page
//! that did not.
//!
//! A failure is never fatal: every outcome contributes either a record or an
//! error line, and the batch always runs to completion.

use vstd::prelude::*;
use vstd::string::*;

verus! {

use crate::extract::{extract, extract_model, page_error};
use crate::page::{Page, page_complete};
use crate::record::{Record, views_of};

/// What one URL's fetch came to: either a page model, or the cause of the
/// transport failure.
pub struct FetchOutcome {
    pub url: String,
    pub result: Result<Page, String>,
}

/// An outcome yields a record exactly when the fetch succeeded and the page
/// has every required part.
pub open spec fn outcome_good(o: FetchOutcome) -> bool {
    o.result is Ok && page_complete(o.result->Ok_0)
}

/// The cause reported for an outcome that yields no record: the transport
/// failure's own text, or the extraction error of an incomplete page.
pub open spec fn outcome_cause(o: FetchOutcome) -> Seq<char> {
    match o.result {
        Result::Ok(p) => page_error(p).message_spec(),
        Result::Err(c) => c@,
    }
}

/// The diagnostic line for a failed outcome: the URL, then the cause.
pub open spec fn error_line_spec(o: FetchOutcome) -> Seq<char> {
    o.url@ + ": "@ + outcome_cause(o)
}

/// The record models of a batch, in outcome order, one per good outcome.
pub open spec fn records_spec(outs: Seq<FetchOutcome>, allow: Option<Vec<String>>) -> Seq<
    Seq<(Seq<char>, Seq<char>)>,
>
    decreases outs.len(),
{
    if outs.len() == 0 {
        Seq::empty()
    } else {
        let rest = records_spec(outs.drop_first(), allow);
        if outcome_good(outs[0]) {
            seq![extract_model(outs[0].result->Ok_0, allow)] + rest
        } else {
            rest
        }
    }
}

/// The diagnostic lines of a batch, in outcome order, one per bad outcome.
pub open spec fn errors_spec(outs: Seq<FetchOutcome>) -> Seq<Seq<char>>
    decreases outs.len(),
{
    if outs.len() == 0 {
        Seq::empty()
    } else {
        let rest = errors_spec(outs.drop_first());
        if outcome_good(outs[0]) {
            rest
        } else {
            seq![error_line_spec(outs[0])] + rest
        }
    }
}

/// The number of good outcomes in a batch.
pub open spec fn good_count(outs: Seq<FetchOutcome>) -> int
    decreases outs.len(),
{
    if outs.len() == 0 {
        0
    } else {
        (if outcome_good(outs[0]) {
            1int
        } else {
            0int
        }) + good_count(outs.drop_first())
    }
}

/// The views of collected records.
pub open spec fn record_views(s: Seq<Record>) -> Seq<Seq<(Seq<char>, Seq<char>)>> {
    Seq::new(s.len(), |i: int| s[i]@)
}

/// Law: a batch of N good and M bad outcomes yields exactly N records and M
/// diagnostic lines — every outcome is accounted for, none aborts the rest.
pub proof fn lemma_collect_partition(outs: Seq<FetchOutcome>, allow: Option<Vec<String>>)
    ensures
        records_spec(outs, allow).len() == good_count(outs),
        errors_spec(outs).len() == outs.len() - good_count(outs),
        0 <= good_count(outs) <= outs.len(),
    decreases outs.len(),
{
    if outs.len() > 0 {
        lemma_collect_partition(outs.drop_first(), allow);
    }
}

proof fn lemma_good_count_pointwise(outs1: Seq<FetchOutcome>, outs2: Seq<FetchOutcome>, j: int)
    requires
        outs1.len() == outs2.len(),
        0 <= j < outs1.len(),
        forall|r: int| 0 <= r < outs1.len() && r != j ==> outs1[r] == outs2[r],
        outcome_good(outs1[j]),
        !outcome_good(outs2[j]),
    ensures
        good_count(outs1) == good_count(outs2) + 1,
    decreases outs1.len(),
{
    if j == 0 {
        assert(outs1.drop_first() =~= outs2.drop_first());
    } else {
        assert(outs1[0] == outs2[0]);
        assert(forall|r: int|
            0 <= r < outs1.drop_first().len() && r != j - 1 ==> outs1.drop_first()[r]
                == outs2.drop_first()[r]);
        assert(outs1.drop_first()[j - 1] == outs1[j]);
        assert(outs2.drop_first()[j - 1] == outs2[j]);
        lemma_good_count_pointwise(outs1.drop_first(), outs2.drop_first(), j - 1);
    }
}

/// Law: a document lacking a required field yields no record. Two batches
/// that differ in one outcome only — a complete page there, an incomplete or
/// failed one here — yield record sets whose lengths differ by exactly one.
pub proof fn lemma_required_field_gating(
    outs1: Seq<FetchOutcome>,
    outs2: Seq<FetchOutcome>,
    j: int,
    allow: Option<Vec<String>>,
)
    requires
        outs1.len() == outs2.len(),
        0 <= j < outs1.len(),
        forall|r: int| 0 <= r < outs1.len() && r != j ==> outs1[r] == outs2[r],
        outcome_good(outs1[j]),
        !outcome_good(outs2[j]),
    ensures
        records_spec(outs2, allow).len() == records_spec(outs1, allow).len() - 1,
{
    lemma_good_count_pointwise(outs1, outs2, j);
    lemma_collect_partition(outs1, allow);
    lemma_collect_partition(outs2, allow);
}

/// Runs extraction over every outcome of a batch.
///
/// Returns the records of the good outcomes, in batch order, and one
/// diagnostic line (URL, then cause) per bad outcome, in batch order. No
/// outcome is skipped and no failure stops the batch.
pub fn collect_records(outcomes: &Vec<FetchOutcome>, allow: &Option<Vec<String>>) -> (res: (
    Vec<Record>,
    Vec<String>,
))
    ensures
        record_views(res.0@) == records_spec(outcomes@, *allow),
        views_of(res.1@) == errors_spec(outcomes@),
        forall|r: int| 0 <= r < res.0@.len() ==> (#[trigger] res.0@[r]).wf(),
        res.0@.len() == good_count(outcomes@),
        res.0@.len() + res.1@.len() == outcomes@.len(),
{
    let mut recs: Vec<Record> = Vec::new();
    let mut errs: Vec<String> = Vec::new();
    let n = outcomes.len();
    let mut i: usize = 0;
    proof {
        assert(record_views(recs@) =~= Seq::<Seq<(Seq<char>, Seq<char>)>>::empty());
        assert(views_of(errs@) =~= Seq::<Seq<char>>::empty());
        assert(outcomes@.skip(0) =~= outcomes@);
    }
    while i < n
        invariant
            0 <= i <= n,
            n == outcomes@.len(),
            forall|r: int| 0 <= r < recs@.len() ==> (#[trigger] recs@[r]).wf(),
            record_views(recs@) + records_spec(outcomes@.skip(i as int), *allow) == records_spec(
                outcomes@,
                *allow,
            ),
            views_of(errs@) + errors_spec(outcomes@.skip(i as int)) == errors_spec(outcomes@),
        decreases n - i,
    {
        let o = &outcomes[i];
        let ghost pre_recs = recs@;
        let ghost pre_errs = errs@;
        proof {
            assert(outcomes@.skip(i as int)[0] == outcomes@[i as int]);
            assert(outcomes@.skip(i as int).drop_first() =~= outcomes@.skip(i as int + 1));
        }
        match &o.result {
            Result::Ok(page) => {
                match extract(page, allow) {
                    Result::Ok(rec) => {
                        let ghost recv = rec@;
                        proof {
                            assert(outcome_good(outcomes@[i as int]));
                            assert(recv == extract_model(
                                outcomes@[i as int].result->Ok_0,
                                *allow,
                            ));
                        }
                        recs.push(rec);
                        proof {
                            let rest = records_spec(outcomes@.skip(i as int + 1), *allow);
                            assert(records_spec(outcomes@.skip(i as int), *allow) == seq![recv]
                                + rest);
                            assert(record_views(recs@) =~= record_views(pre_recs) + seq![recv]);
                            assert((record_views(pre_recs) + seq![recv]) + rest =~= record_views(
                                pre_recs,
                            ) + (seq![recv] + rest));
                            assert(errors_spec(outcomes@.skip(i as int)) == errors_spec(
                                outcomes@.skip(i as int + 1),
                            ));
                        }
                    },
                    Result::Err(e) => {
                        let mut line = o.url.clone();
                        line.append(": ");
                        let msg = e.message();
                        line.append(msg.as_str());
                        let ghost lv = line@;
                        errs.push(line);
                        proof {
                            assert(!outcome_good(outcomes@[i as int]));
                            assert(lv == error_line_spec(outcomes@[i as int]));
                            let rest = errors_spec(outcomes@.skip(i as int + 1));
                            assert(errors_spec(outcomes@.skip(i as int)) == seq![lv] + rest);
                            assert(views_of(errs@) =~= views_of(pre_errs) + seq![lv]);
                            assert((views_of(pre_errs) + seq![lv]) + rest =~= views_of(pre_errs)
                                + (seq![lv] + rest));
                            assert(records_spec(outcomes@.skip(i as int), *allow) == records_spec(
                                outcomes@.skip(i as int + 1),
                                *allow,
                            ));
                        }
                    },
                }
            },
            Result::Err(cause) => {
                let mut line = o.url.clone();
                line.append(": ");
                line.append(cause.as_str());
                let ghost lv = line@;
                errs.push(line);
                proof {
                    assert(!outcome_good(outcomes@[i as int]));
                    assert(lv == error_line_spec(outcomes@[i as int]));
                    let rest = errors_spec(outcomes@.skip(i as int + 1));
                    assert(errors_spec(outcomes@.skip(i as int)) == seq![lv] + rest);
                    assert(views_of(errs@) =~= views_of(pre_errs) + seq![lv]);
                    assert((views_of(pre_errs) + seq![lv]) + rest =~= views_of(pre_errs) + (
                    seq![lv] + rest));
                    assert(records_spec(outcomes@.skip(i as int), *allow) == records_spec(
                        outcomes@.skip(i as int + 1),
                        *allow,
                    ));
                }
            },
        }
        i = i + 1;
    }
    proof {
        assert(outcomes@.skip(n as int) =~= Seq::<FetchOutcome>::empty());
        assert(record_views(recs@) + Seq::<Seq<(Seq<char>, Seq<char>)>>::empty() =~= record_views(
            recs@,
        ));
        assert(views_of(errs@) + Seq::<Seq<char>>::empty() =~= views_of(errs@));
        lemma_collect_partition(outcomes@, *allow);
    }
    (recs, errs)
}

} // verus!
