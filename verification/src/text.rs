//! Whitespace handling for extracted field values.
//!
//! Labels and table-cell values pulled out of a document may carry stray
//! blanks and embedded line breaks. Two verified cleanups are offered:
//! trimming (leading and trailing whitespace removed, inner text untouched)
//! and full normalization (trim plus every inner run of whitespace collapsed
//! to a single space, so a value always fits on one table row).

use vstd::prelude::*;
use vstd::string::*;

verus! {

/// The characters the cleanups treat as whitespace.
pub open spec fn is_ws(c: char) -> bool {
    c == ' ' || c == '\t' || c == '\n' || c == '\r'
}

/// Exec mirror of [`is_ws`].
pub fn is_ws_char(c: char) -> (r: bool)
    ensures
        r == is_ws(c),
{
    c == ' ' || c == '\t' || c == '\n' || c == '\r'
}

/// Normalization as a left-to-right walk: `acc` is the output built so far
/// and `pending` records that a separating space is owed before the next
/// word character.
pub open spec fn norm_from(s: Seq<char>, i: int, acc: Seq<char>, pending: bool) -> Seq<char>
    decreases s.len() - i,
{
    if i < 0 || i >= s.len() {
        acc
    } else if is_ws(s[i]) {
        norm_from(s, i + 1, acc, acc.len() > 0)
    } else if pending {
        norm_from(s, i + 1, acc + seq![' '] + seq![s[i]], false)
    } else {
        norm_from(s, i + 1, acc + seq![s[i]], false)
    }
}

/// The normalized form of `s`: no leading or trailing whitespace, and every
/// inner run of whitespace replaced by one space.
pub open spec fn normalize_spec(s: Seq<char>) -> Seq<char> {
    norm_from(s, 0, Seq::empty(), false)
}

/// What it means for a value to be in normalized form: the only whitespace
/// character occurring is a single space, never at either end and never
/// doubled.
pub open spec fn is_normalized(s: Seq<char>) -> bool {
    &&& forall|i: int| 0 <= i < s.len() && is_ws(s[i]) ==> s[i] == ' '
    &&& s.len() > 0 ==> !is_ws(s[0]) && !is_ws(s[s.len() - 1])
    &&& forall|i: int| 0 <= i < s.len() - 1 ==> !(#[trigger] s[i] == ' ' && s[i + 1] == ' ')
}

proof fn lemma_norm_from_normalized(s: Seq<char>, i: int, acc: Seq<char>, pending: bool)
    requires
        0 <= i <= s.len(),
        is_normalized(acc),
        pending ==> acc.len() > 0,
    ensures
        is_normalized(norm_from(s, i, acc, pending)),
    decreases s.len() - i,
{
    if i < s.len() {
        let c = s[i];
        if is_ws(c) {
            lemma_norm_from_normalized(s, i + 1, acc, acc.len() > 0);
        } else if pending {
            let acc2 = acc + seq![' '] + seq![c];
            assert(is_normalized(acc2)) by {
                assert(acc2.len() == acc.len() + 2);
                assert(forall|j: int| 0 <= j < acc.len() ==> acc2[j] == acc[j]);
                assert(acc2[acc.len() as int] == ' ');
                assert(acc2[acc.len() as int + 1] == c);
                assert(!is_ws(acc[acc.len() - 1]));
            }
            lemma_norm_from_normalized(s, i + 1, acc2, false);
        } else {
            let acc2 = acc + seq![c];
            assert(is_normalized(acc2)) by {
                assert(forall|j: int| 0 <= j < acc.len() ==> acc2[j] == acc[j]);
                assert(acc2[acc.len() as int] == c);
            }
            lemma_norm_from_normalized(s, i + 1, acc2, false);
        }
    }
}

proof fn lemma_norm_from_id(s: Seq<char>, i: int, acc: Seq<char>, pending: bool)
    requires
        is_normalized(s),
        0 <= i <= s.len(),
        pending ==> 0 < i && s[i - 1] == ' ' && acc == s.take(i - 1),
        !pending ==> (i == 0 || s[i - 1] != ' ') && acc == s.take(i),
    ensures
        norm_from(s, i, acc, pending) == s,
    decreases s.len() - i,
{
    if i == s.len() {
        if pending {
            assert(is_ws(s[s.len() - 1]));
        }
        assert(s.take(i) =~= s);
    } else {
        let c = s[i];
        if is_ws(c) {
            assert(c == ' ');
            assert(i > 0);
            assert(!pending);
            assert(acc.len() == i);
            lemma_norm_from_id(s, i + 1, acc, true);
        } else if pending {
            assert(acc + seq![' '] + seq![c] =~= s.take(i + 1));
            lemma_norm_from_id(s, i + 1, acc + seq![' '] + seq![c], false);
        } else {
            assert(acc + seq![c] =~= s.take(i + 1));
            lemma_norm_from_id(s, i + 1, acc + seq![c], false);
        }
    }
}

/// Law: the output of normalization is always in normalized form.
pub proof fn lemma_normalize_normalized(s: Seq<char>)
    ensures
        is_normalized(normalize_spec(s)),
{
    lemma_norm_from_normalized(s, 0, Seq::empty(), false);
}

/// Law: normalization is idempotent — running it on an already-normalized
/// value returns that value unchanged.
pub proof fn lemma_normalize_idempotent(s: Seq<char>)
    ensures
        normalize_spec(normalize_spec(s)) == normalize_spec(s),
{
    lemma_normalize_normalized(s);
    let t = normalize_spec(s);
    assert(t.take(0) =~= Seq::<char>::empty());
    lemma_norm_from_id(t, 0, Seq::empty(), false);
}

/// `s` with leading whitespace removed.
pub open spec fn trim_start_spec(s: Seq<char>) -> Seq<char>
    decreases s.len(),
{
    if s.len() > 0 && is_ws(s[0]) {
        trim_start_spec(s.drop_first())
    } else {
        s
    }
}

/// `s` with trailing whitespace removed.
pub open spec fn trim_end_spec(s: Seq<char>) -> Seq<char>
    decreases s.len(),
{
    if s.len() > 0 && is_ws(s[s.len() - 1]) {
        trim_end_spec(s.drop_last())
    } else {
        s
    }
}

/// `s` with whitespace removed from both ends; inner text is untouched.
pub open spec fn trim_spec(s: Seq<char>) -> Seq<char> {
    trim_end_spec(trim_start_spec(s))
}

proof fn lemma_trim_start_skip(s: Seq<char>, k: int)
    requires
        0 <= k <= s.len(),
        forall|j: int| 0 <= j < k ==> is_ws(s[j]),
        k < s.len() ==> !is_ws(s[k]),
    ensures
        trim_start_spec(s) == s.subrange(k, s.len() as int),
    decreases k,
{
    if k == 0 {
        assert(s.subrange(0, s.len() as int) =~= s);
    } else {
        let st = s.drop_first();
        assert(forall|j: int| 0 <= j < st.len() ==> st[j] == s[j + 1]);
        lemma_trim_start_skip(st, k - 1);
        assert(st.subrange(k - 1, st.len() as int) =~= s.subrange(k, s.len() as int));
    }
}

proof fn lemma_trim_end_take(s: Seq<char>, k: int)
    requires
        0 <= k <= s.len(),
        forall|j: int| k <= j < s.len() ==> is_ws(s[j]),
        k > 0 ==> !is_ws(s[k - 1]),
    ensures
        trim_end_spec(s) == s.take(k),
    decreases s.len() - k,
{
    if k == s.len() {
        assert(s.take(k) =~= s);
    } else {
        let st = s.drop_last();
        assert(forall|j: int| 0 <= j < st.len() ==> st[j] == s[j]);
        lemma_trim_end_take(st, k);
        assert(st.take(k) =~= s.take(k));
    }
}

proof fn lemma_trim_start_head(s: Seq<char>)
    ensures
        trim_start_spec(s).len() > 0 ==> !is_ws(trim_start_spec(s)[0]),
    decreases s.len(),
{
    if s.len() > 0 && is_ws(s[0]) {
        lemma_trim_start_head(s.drop_first());
    }
}

proof fn lemma_trim_end_last(s: Seq<char>)
    ensures
        trim_end_spec(s).len() > 0 ==> !is_ws(trim_end_spec(s)[trim_end_spec(s).len() - 1]),
    decreases s.len(),
{
    if s.len() > 0 && is_ws(s[s.len() - 1]) {
        lemma_trim_end_last(s.drop_last());
    }
}

proof fn lemma_trim_end_prefix(s: Seq<char>)
    ensures
        trim_end_spec(s).len() <= s.len(),
        trim_end_spec(s) == s.take(trim_end_spec(s).len() as int),
    decreases s.len(),
{
    if s.len() > 0 && is_ws(s[s.len() - 1]) {
        let st = s.drop_last();
        lemma_trim_end_prefix(st);
        assert(st.take(trim_end_spec(st).len() as int) =~= s.take(trim_end_spec(st).len() as int));
    } else {
        assert(s.take(s.len() as int) =~= s);
    }
}

/// Law: trimming is idempotent — trimming an already-trimmed value returns
/// that value unchanged.
pub proof fn lemma_trim_idempotent(s: Seq<char>)
    ensures
        trim_spec(trim_spec(s)) == trim_spec(s),
{
    let u = trim_start_spec(s);
    let t = trim_end_spec(u);
    lemma_trim_start_head(s);
    lemma_trim_end_last(u);
    lemma_trim_end_prefix(u);
    if t.len() > 0 {
        assert(t[0] == u[0]);
        assert(trim_start_spec(t) == t);
        assert(trim_end_spec(t) == t);
    } else {
        assert(trim_start_spec(t) == t);
        assert(trim_end_spec(t) == t);
    }
}

/// Compares two string slices by content.
///
/// Relies on `str`'s `PartialEq`, which std documents as equality of the
/// underlying character sequences.
#[verifier::external_body]
pub(crate) fn str_eq(a: &str, b: &str) -> (r: bool)
    ensures
        r == (a@ == b@),
{
    a == b
}

/// Removes leading and trailing whitespace from `s`, keeping inner text
/// exactly as it is.
pub fn trim_ws(s: &str) -> (r: String)
    ensures
        r@ == trim_spec(s@),
{
    let n = s.unicode_len();
    let mut a: usize = 0;
    loop
        invariant
            0 <= a <= n,
            n == s@.len(),
            forall|j: int| 0 <= j < a ==> is_ws(s@[j]),
        ensures
            0 <= a <= n,
            forall|j: int| 0 <= j < a ==> is_ws(s@[j]),
            a < n ==> !is_ws(s@[a as int]),
        decreases n - a,
    {
        if a == n {
            break;
        }
        if !is_ws_char(s.get_char(a)) {
            break;
        }
        a = a + 1;
    }
    if a == n {
        proof {
            lemma_trim_start_skip(s@, n as int);
            assert(s@.subrange(n as int, n as int) =~= Seq::<char>::empty());
            lemma_trim_end_take(Seq::<char>::empty(), 0);
            assert(Seq::<char>::empty().take(0) =~= Seq::<char>::empty());
        }
        return String::new();
    }
    let mut b: usize = n;
    loop
        invariant
            a < b <= n,
            n == s@.len(),
            !is_ws(s@[a as int]),
            forall|j: int| b <= j < n ==> is_ws(s@[j]),
        ensures
            a < b <= n,
            !is_ws(s@[b - 1]),
            forall|j: int| b <= j < n ==> is_ws(s@[j]),
        decreases b,
    {
        if !is_ws_char(s.get_char(b - 1)) {
            break;
        }
        b = b - 1;
    }
    let r = s.substring_char(a, b);
    proof {
        lemma_trim_start_skip(s@, a as int);
        let u = s@.subrange(a as int, n as int);
        assert(u[b - a - 1] == s@[b - 1]);
        lemma_trim_end_take(u, b - a);
        assert(u.take(b - a) =~= s@.subrange(a as int, b as int));
    }
    String::from_str(r)
}

/// Collapses whitespace in `s`: the result is `s` with leading and trailing
/// whitespace dropped and each inner run of whitespace replaced by a single
/// space.
pub fn normalize_ws(s: &str) -> (r: String)
    ensures
        r@ == normalize_spec(s@),
{
    let n = s.unicode_len();
    let mut acc = String::new();
    let mut pending = false;
    let mut nonempty = false;
    let mut i: usize = 0;
    while i < n
        invariant
            0 <= i <= n,
            n == s@.len(),
            nonempty == (acc@.len() > 0),
            norm_from(s@, i as int, acc@, pending) == normalize_spec(s@),
        decreases n - i,
    {
        let c = s.get_char(i);
        if is_ws_char(c) {
            proof {
                assert(norm_from(s@, i as int, acc@, pending)
                    == norm_from(s@, i + 1, acc@, acc@.len() > 0));
            }
            pending = nonempty;
        } else {
            let ghost old_acc = acc@;
            if pending {
                acc.append(" ");
                proof {
                    reveal_strlit(" ");
                    assert(acc@ =~= old_acc + seq![' ']);
                }
            }
            let piece = s.substring_char(i, i + 1);
            acc.append(piece);
            proof {
                if pending {
                    assert(acc@ =~= old_acc + seq![' '] + seq![s@[i as int]]);
                    assert(norm_from(s@, i as int, old_acc, pending)
                        == norm_from(s@, i + 1, old_acc + seq![' '] + seq![s@[i as int]], false));
                } else {
                    assert(acc@ =~= old_acc + seq![s@[i as int]]);
                    assert(norm_from(s@, i as int, old_acc, pending)
                        == norm_from(s@, i + 1, old_acc + seq![s@[i as int]], false));
                }
            }
            pending = false;
            nonempty = true;
        }
        i = i + 1;
    }
    acc
}

} // verus!
