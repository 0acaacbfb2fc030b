//! Schema reconciliation: the union of the attribute names observed across
//! all records, and the backfill of every record with a sentinel for the
//! names it lacks.
//!
//! The column order is deterministic: names appear in the order they are
//! first seen, walking the records in collection order and each record's
//! pairs in first-insertion order. Backfill is additive only — a value
//! already present is never overwritten.

use vstd::prelude::*;
use vstd::string::*;

verus! {

use crate::extract::{allow_contains, list_contains};
use crate::record::{
    Record, get_value, has_key, lemma_has_key_iff, lemma_put_if_absent, put_if_absent, views_of,
};

/// No name occurs twice.
pub open spec fn distinct_keys(s: Seq<Seq<char>>) -> bool {
    forall|i: int, j: int| 0 <= i < j < s.len() ==> s[i] != s[j]
}

/// Membership in a list of names.
pub open spec fn name_in(s: Seq<Seq<char>>, k: Seq<char>) -> bool {
    exists|i: int| 0 <= i < s.len() && s[i] == k
}

/// `acc` extended with the keys of `m` from position `j` on, first-seen
/// order, duplicates dropped.
pub open spec fn add_record_keys(
    acc: Seq<Seq<char>>,
    m: Seq<(Seq<char>, Seq<char>)>,
    j: int,
) -> Seq<Seq<char>>
    decreases m.len() - j,
{
    if j < 0 || j >= m.len() {
        acc
    } else {
        let acc1 = if name_in(acc, m[j].0) {
            acc
        } else {
            acc.push(m[j].0)
        };
        add_record_keys(acc1, m, j + 1)
    }
}

/// `acc` extended with the keys of the records from position `i` on.
pub open spec fn union_upto(acc: Seq<Seq<char>>, records: Seq<Record>, i: int) -> Seq<Seq<char>>
    decreases records.len() - i,
{
    if i < 0 || i >= records.len() {
        acc
    } else {
        union_upto(add_record_keys(acc, records[i]@, 0), records, i + 1)
    }
}

/// Every attribute name observed in any record, each once, in first-seen
/// order.
pub open spec fn union_spec(records: Seq<Record>) -> Seq<Seq<char>> {
    union_upto(Seq::empty(), records, 0)
}

proof fn lemma_add_record_keys(acc: Seq<Seq<char>>, m: Seq<(Seq<char>, Seq<char>)>, j: int)
    requires
        0 <= j <= m.len(),
    ensures
        distinct_keys(acc) ==> distinct_keys(add_record_keys(acc, m, j)),
        forall|k: Seq<char>| #![trigger name_in(add_record_keys(acc, m, j), k)]
            name_in(add_record_keys(acc, m, j), k) <==> name_in(acc, k) || exists|jj: int|
                j <= jj < m.len() && (#[trigger] m[jj]).0 == k,
    decreases m.len() - j,
{
    if j < m.len() {
        let acc1 = if name_in(acc, m[j].0) {
            acc
        } else {
            acc.push(m[j].0)
        };
        assert(distinct_keys(acc) ==> distinct_keys(acc1)) by {
            if distinct_keys(acc) && !name_in(acc, m[j].0) {
                assert(forall|i: int| 0 <= i < acc.len() ==> acc1[i] == acc[i]);
            }
        }
        assert(forall|k: Seq<char>| name_in(acc1, k) <==> name_in(acc, k) || m[j].0 == k) by {
            assert forall|k: Seq<char>| name_in(acc1, k) implies name_in(acc, k) || m[j].0 == k by {
                let i = choose|i: int| 0 <= i < acc1.len() && acc1[i] == k;
                if i < acc.len() {
                    assert(acc[i] == k);
                }
            }
            assert forall|k: Seq<char>| name_in(acc, k) || m[j].0 == k implies name_in(acc1, k) by {
                if name_in(acc, k) {
                    let i = choose|i: int| 0 <= i < acc.len() && acc[i] == k;
                    assert(acc1[i] == k);
                } else {
                    if !name_in(acc, m[j].0) {
                        assert(acc1[acc.len() as int] == k);
                    }
                }
            }
        }
        lemma_add_record_keys(acc1, m, j + 1);
        assert(add_record_keys(acc, m, j) == add_record_keys(acc1, m, j + 1));
        assert forall|k: Seq<char>|
            name_in(add_record_keys(acc, m, j), k) implies name_in(acc, k) || exists|jj: int|
            j <= jj < m.len() && (#[trigger] m[jj]).0 == k by {
            assert(name_in(add_record_keys(acc1, m, j + 1), k));
            if !name_in(acc, k) {
                if name_in(acc1, k) {
                    assert(m[j].0 == k);
                } else {
                    let jj = choose|jj: int| j + 1 <= jj < m.len() && (#[trigger] m[jj]).0 == k;
                    assert(j <= jj < m.len() && m[jj].0 == k);
                }
            }
        }
        assert forall|k: Seq<char>|
            name_in(acc, k) || exists|jj: int| j <= jj < m.len() && (#[trigger] m[jj]).0 == k
            implies name_in(add_record_keys(acc, m, j), k) by {
            if name_in(acc, k) {
                assert(name_in(acc1, k));
                assert(name_in(add_record_keys(acc1, m, j + 1), k));
            } else {
                let jj = choose|jj: int| j <= jj < m.len() && (#[trigger] m[jj]).0 == k;
                if jj == j {
                    assert(name_in(acc1, k));
                } else {
                    assert(j + 1 <= jj < m.len() && m[jj].0 == k);
                }
                assert(name_in(add_record_keys(acc1, m, j + 1), k));
            }
        }
    }
}

proof fn lemma_union_upto(acc: Seq<Seq<char>>, records: Seq<Record>, i: int)
    requires
        0 <= i <= records.len(),
    ensures
        distinct_keys(acc) ==> distinct_keys(union_upto(acc, records, i)),
        forall|k: Seq<char>| #![trigger name_in(union_upto(acc, records, i), k)]
            name_in(union_upto(acc, records, i), k) <==> name_in(acc, k) || exists|r: int|
                i <= r < records.len() && has_key((#[trigger] records[r])@, k),
    decreases records.len() - i,
{
    if i < records.len() {
        let acc1 = add_record_keys(acc, records[i]@, 0);
        lemma_add_record_keys(acc, records[i]@, 0);
        lemma_union_upto(acc1, records, i + 1);
        assert(union_upto(acc, records, i) == union_upto(acc1, records, i + 1));
        assert forall|k: Seq<char>|
            name_in(union_upto(acc, records, i), k) implies name_in(acc, k) || exists|r: int|
            i <= r < records.len() && has_key((#[trigger] records[r])@, k) by {
            assert(name_in(union_upto(acc1, records, i + 1), k));
            if !name_in(acc, k) {
                if name_in(acc1, k) {
                    assert(name_in(add_record_keys(acc, records[i]@, 0), k));
                    lemma_has_key_iff(records[i]@, k);
                    assert(has_key(records[i]@, k));
                } else {
                    let r = choose|r: int|
                        i + 1 <= r < records.len() && has_key((#[trigger] records[r])@, k);
                    assert(i <= r < records.len() && has_key(records[r]@, k));
                }
            }
        }
        assert forall|k: Seq<char>|
            name_in(acc, k) || exists|r: int|
                i <= r < records.len() && has_key((#[trigger] records[r])@, k) implies name_in(
            union_upto(acc, records, i),
            k,
        ) by {
            if name_in(acc, k) {
                assert(name_in(add_record_keys(acc, records[i]@, 0), k));
                assert(name_in(union_upto(acc1, records, i + 1), k));
            } else {
                let r = choose|r: int|
                    i <= r < records.len() && has_key((#[trigger] records[r])@, k);
                if r == i {
                    lemma_has_key_iff(records[i]@, k);
                    assert(name_in(add_record_keys(acc, records[i]@, 0), k));
                } else {
                    assert(i + 1 <= r < records.len() && has_key(records[r]@, k));
                }
                assert(name_in(union_upto(acc1, records, i + 1), k));
            }
        }
    }
}

/// Computes the union of the attribute names observed across all records:
/// each name once, in first-seen order.
pub fn key_union(records: &Vec<Record>) -> (keys: Vec<String>)
    ensures
        views_of(keys@) == union_spec(records@),
        distinct_keys(views_of(keys@)),
        forall|k: Seq<char>|
            name_in(views_of(keys@), k) <==> exists|r: int|
                0 <= r < records@.len() && has_key((#[trigger] records@[r])@, k),
{
    let mut keys: Vec<String> = Vec::new();
    proof {
        assert(views_of(keys@) =~= Seq::<Seq<char>>::empty());
    }
    let n = records.len();
    let mut i: usize = 0;
    while i < n
        invariant
            0 <= i <= n,
            n == records@.len(),
            union_upto(views_of(keys@), records@, i as int) == union_spec(records@),
        decreases n - i,
    {
        let rec = &records[i];
        let m = rec.len();
        let mut j: usize = 0;
        proof {
            assert(union_upto(views_of(keys@), records@, i as int)
                == union_upto(add_record_keys(views_of(keys@), records@[i as int]@, 0), records@, i as int + 1));
        }
        while j < m
            invariant
                0 <= j <= m,
                m == rec@.len(),
                rec@ == records@[i as int]@,
                0 <= i < records@.len(),
                n == records@.len(),
                union_upto(
                    add_record_keys(views_of(keys@), records@[i as int]@, j as int),
                    records@,
                    i as int + 1,
                ) == union_spec(records@),
            decreases m - j,
        {
            let key = rec.key_at(j);
            let ghost pre = views_of(keys@);
            if !list_contains(&keys, key.as_str()) {
                keys.push(key.clone());
                proof {
                    assert(views_of(keys@) =~= pre.push(key@));
                    assert(!name_in(pre, rec@[j as int].0)) by {
                        if name_in(pre, rec@[j as int].0) {
                            let ii = choose|ii: int|
                                0 <= ii < pre.len() && pre[ii] == rec@[j as int].0;
                            assert(allow_contains(keys@, key@));
                        }
                    }
                }
            } else {
                proof {
                    assert(name_in(pre, rec@[j as int].0)) by {
                        let ii = choose|ii: int| 0 <= ii < keys@.len() && keys@[ii]@ == key@;
                        assert(pre[ii] == rec@[j as int].0);
                    }
                }
            }
            proof {
                assert(add_record_keys(pre, records@[i as int]@, j as int)
                    == add_record_keys(views_of(keys@), records@[i as int]@, j as int + 1));
            }
            j = j + 1;
        }
        i = i + 1;
    }
    proof {
        assert(union_upto(views_of(keys@), records@, n as int) == views_of(keys@));
        lemma_union_upto(Seq::empty(), records@, 0);
        assert(union_spec(records@) == union_upto(Seq::<Seq<char>>::empty(), records@, 0));
        assert forall|k: Seq<char>|
            name_in(views_of(keys@), k) <==> exists|r: int|
                0 <= r < records@.len() && has_key((#[trigger] records@[r])@, k) by {
            assert(!name_in(Seq::<Seq<char>>::empty(), k));
            assert(name_in(union_upto(Seq::<Seq<char>>::empty(), records@, 0), k) <==> name_in(
                Seq::<Seq<char>>::empty(),
                k,
            ) || exists|r: int| 0 <= r < records@.len() && has_key((#[trigger] records@[r])@, k));
        }
    }
    keys
}

/// Reconciles the schema across all records: computes the column list as the
/// union of observed attribute names and backfills every record with the
/// sentinel for each column it lacks.
///
/// After reconciliation every record's key set equals the column list
/// exactly, and every value present before is unchanged — backfill never
/// overwrites.
pub fn reconcile(records: Vec<Record>, sentinel: &str) -> (res: (Vec<String>, Vec<Record>))
    requires
        forall|r: int| 0 <= r < records@.len() ==> (#[trigger] records@[r]).wf(),
    ensures
        views_of(res.0@) == union_spec(records@),
        distinct_keys(views_of(res.0@)),
        res.1@.len() == records@.len(),
        forall|r: int| 0 <= r < res.1@.len() ==> (#[trigger] res.1@[r]).wf(),
        forall|r: int, k: Seq<char>|
            0 <= r < res.1@.len() ==> (#[trigger] has_key(res.1@[r]@, k) <==> name_in(
                views_of(res.0@),
                k,
            )),
        forall|r: int, k: Seq<char>|
            0 <= r < res.1@.len() && has_key(records@[r]@, k) ==> #[trigger] get_value(
                res.1@[r]@,
                k,
            ) == get_value(records@[r]@, k),
        forall|r: int, k: Seq<char>|
            0 <= r < res.1@.len() && !has_key(records@[r]@, k) && name_in(views_of(res.0@), k)
                ==> #[trigger] get_value(res.1@[r]@, k) == Some(sentinel@),
{
    let ghost orig = records@;
    let columns = key_union(&records);
    let mut rest = records;
    let mut out: Vec<Record> = Vec::new();
    let n = rest.len();
    let mut i: usize = 0;
    while i < n
        invariant
            0 <= i <= n,
            n == orig.len(),
            rest@ =~= orig.skip(i as int),
            out@.len() == i,
            forall|r: int| 0 <= r < orig.len() ==> (#[trigger] orig[r]).wf(),
            views_of(columns@) == union_spec(orig),
            distinct_keys(views_of(columns@)),
            forall|k: Seq<char>|
                name_in(views_of(columns@), k) <==> exists|r: int|
                    0 <= r < orig.len() && has_key((#[trigger] orig[r])@, k),
            forall|r: int| 0 <= r < i ==> (#[trigger] out@[r]).wf(),
            forall|r: int, k: Seq<char>|
                0 <= r < i ==> (#[trigger] has_key(out@[r]@, k) <==> name_in(
                    views_of(columns@),
                    k,
                )),
            forall|r: int, k: Seq<char>|
                0 <= r < i && has_key(orig[r]@, k) ==> #[trigger] get_value(out@[r]@, k)
                    == get_value(orig[r]@, k),
            forall|r: int, k: Seq<char>|
                0 <= r < i && !has_key(orig[r]@, k) && name_in(views_of(columns@), k)
                    ==> #[trigger] get_value(out@[r]@, k) == Some(sentinel@),
        decreases n - i,
    {
        let mut rec = rest.remove(0);
        proof {
            assert(rec@ == orig[i as int]@);
            assert(rest@ =~= orig.skip(i as int + 1));
        }
        let m = columns.len();
        let mut j: usize = 0;
        while j < m
            invariant
                0 <= j <= m,
                m == columns@.len(),
                0 <= i < orig.len(),
                rec.wf(),
                orig[i as int].wf(),
                forall|k: Seq<char>|
                    has_key(orig[i as int]@, k) ==> #[trigger] get_value(rec@, k) == get_value(
                        orig[i as int]@,
                        k,
                    ),
                forall|k: Seq<char>|
                    #[trigger] has_key(rec@, k) <==> has_key(orig[i as int]@, k) || exists|jj: int|
                        0 <= jj < j && (#[trigger] columns@[jj])@ == k,
                forall|k: Seq<char>|
                    !has_key(orig[i as int]@, k) && has_key(rec@, k) ==> #[trigger] get_value(
                        rec@,
                        k,
                    ) == Some(sentinel@),
            decreases m - j,
        {
            let ghost pre = rec@;
            rec.insert_if_absent(columns[j].as_str(), sentinel);
            proof {
                let cj = columns@[j as int]@;
                lemma_put_if_absent(pre, cj, sentinel@);
                assert(rec@ == put_if_absent(pre, cj, sentinel@));
                assert forall|k: Seq<char>|
                    has_key(orig[i as int]@, k) implies #[trigger] get_value(rec@, k) == get_value(
                    orig[i as int]@,
                    k,
                ) by {
                    if k == cj {
                        assert(has_key(pre, k));
                        assert(rec@ == pre);
                    } else {
                        assert(get_value(rec@, k) == get_value(pre, k));
                    }
                }
                assert forall|k: Seq<char>|
                    #[trigger] has_key(rec@, k) implies has_key(orig[i as int]@, k) || exists|
                    jj: int,
                |
                    0 <= jj < j + 1 && (#[trigger] columns@[jj])@ == k by {
                    if k == cj {
                        assert(0 <= j < j + 1 && columns@[j as int]@ == k);
                    } else {
                        assert(has_key(pre, k));
                    }
                }
                assert forall|k: Seq<char>|
                    has_key(orig[i as int]@, k) || exists|jj: int|
                        0 <= jj < j + 1 && (#[trigger] columns@[jj])@ == k implies #[trigger]
                has_key(rec@, k) by {
                    if has_key(orig[i as int]@, k) {
                        assert(has_key(pre, k));
                    } else {
                        let jj = choose|jj: int|
                            0 <= jj < j + 1 && (#[trigger] columns@[jj])@ == k;
                        if jj < j {
                            assert(has_key(pre, k));
                        } else {
                            assert(k == cj);
                        }
                    }
                }
                assert forall|k: Seq<char>|
                    !has_key(orig[i as int]@, k) && has_key(rec@, k) implies #[trigger] get_value(
                    rec@,
                    k,
                ) == Some(sentinel@) by {
                    if k == cj && !has_key(pre, k) {
                        assert(get_value(rec@, k) == Some(sentinel@));
                    } else {
                        assert(has_key(pre, k));
                        if k == cj {
                            assert(rec@ == pre);
                        } else {
                            assert(get_value(rec@, k) == get_value(pre, k));
                        }
                    }
                }
            }
            j = j + 1;
        }
        proof {
            assert forall|k: Seq<char>| has_key(rec@, k) implies name_in(
                views_of(columns@),
                k,
            ) by {
                if has_key(orig[i as int]@, k) {
                    assert(0 <= (i as int) && (i as int) < orig.len() && has_key(
                        orig[i as int]@,
                        k,
                    ));
                } else {
                    let jj = choose|jj: int| 0 <= jj < m && (#[trigger] columns@[jj])@ == k;
                    assert(views_of(columns@)[jj] == k);
                }
            }
            assert forall|k: Seq<char>| name_in(views_of(columns@), k) implies has_key(
                rec@,
                k,
            ) by {
                let jj = choose|jj: int| 0 <= jj < views_of(columns@).len() && views_of(
                    columns@,
                )[jj] == k;
                assert(columns@[jj]@ == k);
            }
        }
        out.push(rec);
        i = i + 1;
    }
    (columns, out)
}

} // verus!
