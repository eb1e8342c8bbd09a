//! Collapsing a run's records into their canonical form: no two equal, in
//! the canonical order, whatever order they arrived in.

use vstd::prelude::*;
use crate::order::{cmp_record, compare_records, lemma_cmp_record};
use crate::record::{records_view, CheckResult, RecordModel};

verus! {

/// Every record comes strictly before each one after it.
pub open spec fn strictly_sorted(s: Seq<RecordModel>) -> bool {
    forall|i: int, j: int| 0 <= i < j < s.len() ==> cmp_record(s[i], s[j]) < 0
}

/// `out` holds each record of `input` once, in the canonical order, and
/// nothing else.
pub open spec fn is_canonical_of(out: Seq<RecordModel>, input: Seq<RecordModel>) -> bool {
    &&& strictly_sorted(out)
    &&& forall|x: RecordModel| out.contains(x) <==> input.contains(x)
}

/// Two strictly sorted sequences with the same records are equal.
pub proof fn lemma_sorted_unique(a: Seq<RecordModel>, b: Seq<RecordModel>)
    requires
        strictly_sorted(a),
        strictly_sorted(b),
        forall|x: RecordModel| a.contains(x) <==> b.contains(x),
    ensures
        a == b,
    decreases a.len(),
{
    if a.len() == 0 {
        if b.len() > 0 {
            assert(b.contains(b[0]));
        }
        assert(a =~= b);
    } else {
        assert(a.contains(a[0]));
        let k = choose|k: int| 0 <= k < b.len() && b[k] == a[0];
        assert(b.contains(b[0]));
        let m = choose|m: int| 0 <= m < a.len() && a[m] == b[0];
        lemma_cmp_record(a[0], b[0], a[0]);
        lemma_cmp_record(a[0], a[0], a[0]);
        if m > 0 {
            assert(cmp_record(a[0], a[m]) < 0);
            if k > 0 {
                assert(cmp_record(b[0], b[k]) < 0);
            }
        }
        assert(a[0] == b[0]);
        let ta = a.drop_first();
        let tb = b.drop_first();
        assert forall|x: RecordModel| ta.contains(x) <==> tb.contains(x) by {
            if ta.contains(x) {
                let i = choose|i: int| 0 <= i < ta.len() && ta[i] == x;
                assert(a[i + 1] == x);
                assert(cmp_record(a[0], a[i + 1]) < 0);
                lemma_cmp_record(a[0], x, x);
                assert(a.contains(x));
                let j = choose|j: int| 0 <= j < b.len() && b[j] == x;
                assert(j != 0);
                assert(tb[j - 1] == x);
            }
            if tb.contains(x) {
                let i = choose|i: int| 0 <= i < tb.len() && tb[i] == x;
                assert(b[i + 1] == x);
                assert(cmp_record(b[0], b[i + 1]) < 0);
                lemma_cmp_record(b[0], x, x);
                assert(b.contains(x));
                let j = choose|j: int| 0 <= j < a.len() && a[j] == x;
                assert(j != 0);
                assert(ta[j - 1] == x);
            }
        }
        lemma_sorted_unique(ta, tb);
        assert(a =~= seq![a[0]] + ta);
        assert(b =~= seq![b[0]] + tb);
    }
}

/// Puts `x` into a strictly sorted vector, unless an equal record is there.
fn insert_unique(out: &mut Vec<CheckResult>, x: CheckResult)
    requires
        strictly_sorted(records_view(old(out)@)),
    ensures
        strictly_sorted(records_view(final(out)@)),
        forall|y: RecordModel|
            records_view(final(out)@).contains(y) <==> (records_view(old(out)@).contains(y) || y
                == x@),
{
    let ghost v0 = records_view(out@);
    let n = out.len();
    let mut j: usize = 0;
    let mut c: i8 = 1;
    let mut stop = false;
    while j < n && !stop
        invariant
            n == out@.len(),
            j <= n,
            out@ == old(out)@,
            v0 == records_view(out@),
            forall|k: int| 0 <= k < j ==> cmp_record(v0[k], x@) < 0,
            stop ==> j < n && c as int == cmp_record(x@, v0[j as int]) && c <= 0,
            !stop ==> c > 0,
        decreases n - j + (if stop { 0int } else { 1int }),
    {
        c = compare_records(&x, &out[j]);
        if c <= 0 {
            stop = true;
        } else {
            proof {
                lemma_cmp_record(x@, v0[j as int], x@);
            }
            j = j + 1;
        }
    }
    if j < n && c == 0 {
        proof {
            lemma_cmp_record(x@, v0[j as int], x@);
            assert(v0[j as int] == x@);
            assert forall|y: RecordModel| v0.contains(y) <==> (v0.contains(y) || y == x@) by {
                if y == x@ {
                    assert(v0[j as int] == y);
                }
            }
        }
        return;
    }
    let ghost xv = x@;
    out.insert(j, x);
    proof {
        let v1 = records_view(out@);
        assert(v1 =~= v0.insert(j as int, xv));
        if j < n {
            lemma_cmp_record(xv, v0[j as int], xv);
        }
        assert forall|a: int, b: int| 0 <= a < b < v1.len() implies cmp_record(v1[a], v1[b]) < 0 by {
            if b < j {
                assert(v1[a] == v0[a] && v1[b] == v0[b]);
            } else if b == j {
                assert(v1[a] == v0[a] && v1[b] == xv);
            } else {
                assert(v1[b] == v0[b - 1]);
                assert(cmp_record(xv, v0[j as int]) < 0);
                if b - 1 > j {
                    lemma_cmp_record(xv, v0[j as int], v0[b - 1]);
                }
                assert(cmp_record(xv, v1[b]) < 0);
                if a < j {
                    assert(v1[a] == v0[a]);
                    lemma_cmp_record(v1[a], xv, v1[b]);
                } else if a > j {
                    assert(v1[a] == v0[a - 1]);
                }
            }
        }
        assert forall|y: RecordModel| v1.contains(y) <==> (v0.contains(y) || y == xv) by {
            if v1.contains(y) {
                let i = choose|i: int| 0 <= i < v1.len() && v1[i] == y;
                if i < j {
                    assert(v0[i] == y);
                } else if i > j {
                    assert(v0[i - 1] == y);
                }
            }
            if v0.contains(y) {
                let i = choose|i: int| 0 <= i < v0.len() && v0[i] == y;
                if i < j {
                    assert(v1[i] == y);
                } else {
                    assert(v1[i + 1] == y);
                }
            }
            if y == xv {
                assert(v1[j as int] == y);
            }
        }
    }
}

/// The canonical form of a run's records: each distinct record once, in the
/// canonical order.
pub fn dedup_records(records: Vec<CheckResult>) -> (r: Vec<CheckResult>)
    ensures
        is_canonical_of(records_view(r@), records_view(records@)),
{
    let ghost all = records_view(records@);
    let mut rest = records;
    let mut out: Vec<CheckResult> = Vec::new();
    while rest.len() > 0
        invariant
            strictly_sorted(records_view(out@)),
            rest@.len() <= all.len(),
            records_view(rest@) == all.subrange(0, rest@.len() as int),
            forall|y: RecordModel|
                records_view(out@).contains(y) <==> all.subrange(
                    rest@.len() as int,
                    all.len() as int,
                ).contains(y),
        decreases rest@.len(),
    {
        let ghost k = rest@.len() as int;
        let ghost before = rest@;
        let x = rest.pop().unwrap();
        proof {
            assert(records_view(before)[k - 1] == before[k - 1]@);
            assert(records_view(rest@) =~= all.subrange(0, k - 1));
            assert(all[k - 1] == x@);
            let tail = all.subrange(k - 1, all.len() as int);
            let tail0 = all.subrange(k, all.len() as int);
            assert(tail =~= seq![x@] + tail0);
            assert forall|y: RecordModel| tail.contains(y) <==> (tail0.contains(y) || y == x@) by {
                if tail.contains(y) {
                    let i = choose|i: int| 0 <= i < tail.len() && tail[i] == y;
                    if i > 0 {
                        assert(tail0[i - 1] == y);
                    }
                }
                if tail0.contains(y) {
                    let i = choose|i: int| 0 <= i < tail0.len() && tail0[i] == y;
                    assert(tail[i + 1] == y);
                }
                if y == x@ {
                    assert(tail[0] == y);
                }
            }
        }
        insert_unique(&mut out, x);
    }
    assert(all.subrange(0, all.len() as int) =~= all);
    out
}

/// Deduplicating the canonical form again leaves it as it is.
pub proof fn lemma_dedup_idempotent(
    input: Seq<RecordModel>,
    once: Seq<RecordModel>,
    twice: Seq<RecordModel>,
)
    requires
        is_canonical_of(once, input),
        is_canonical_of(twice, once),
    ensures
        twice == once,
{
    lemma_sorted_unique(twice, once);
}

/// Any two orderings of the same records have the same canonical form.
pub proof fn lemma_dedup_order_invariant(
    s: Seq<RecordModel>,
    t: Seq<RecordModel>,
    out_s: Seq<RecordModel>,
    out_t: Seq<RecordModel>,
)
    requires
        s.to_multiset() == t.to_multiset(),
        is_canonical_of(out_s, s),
        is_canonical_of(out_t, t),
    ensures
        out_s == out_t,
{
    assert forall|x: RecordModel| out_s.contains(x) <==> out_t.contains(x) by {
        vstd::seq_lib::to_multiset_contains(s, x);
        vstd::seq_lib::to_multiset_contains(t, x);
    }
    lemma_sorted_unique(out_s, out_t);
}

} // verus!
