//! Occurrence counts of each diagnostic code in a batch of records, ordered
//! by count and then by code.

use vstd::prelude::*;
use crate::text::same_text;
use crate::order::{cmp_text, compare_text, lemma_cmp_text};
use crate::record::{records_view, CheckResult, RecordModel};

verus! {

/// How many records of a batch carry one diagnostic code.
pub struct SummaryEntry {
    pub count: usize,
    pub diagnostic_code: String,
}

/// The mathematical value of a [`SummaryEntry`].
pub struct EntryModel {
    pub count: nat,
    pub code: Seq<char>,
}

impl View for SummaryEntry {
    type V = EntryModel;

    open spec fn view(&self) -> EntryModel {
        EntryModel { count: self.count as nat, code: self.diagnostic_code@ }
    }
}

/// The models of a sequence of entries.
pub open spec fn entries_view(v: Seq<SummaryEntry>) -> Seq<EntryModel> {
    v.map_values(|e: SummaryEntry| e@)
}

/// The number of records in `b` whose code is `code`.
pub open spec fn count_code(b: Seq<RecordModel>, code: Seq<char>) -> nat
    decreases b.len(),
{
    if b.len() == 0 {
        0
    } else {
        count_code(b.drop_last(), code) + (if b.last().id == code {
            1nat
        } else {
            0nat
        })
    }
}

/// Whether entry `a` comes before entry `b`: smaller count, or equal count
/// and smaller code.
pub open spec fn entry_before(a: EntryModel, b: EntryModel) -> bool {
    a.count < b.count || (a.count == b.count && cmp_text(a.code, b.code) < 0)
}

/// `s` is the summary of batch `b`: one entry for each code that occurs in
/// `b`, with its number of occurrences, ascending by count and then code.
pub open spec fn is_summary_of(s: Seq<EntryModel>, b: Seq<RecordModel>) -> bool {
    &&& forall|i: int, j: int| 0 <= i < j < s.len() ==> entry_before(s[i], s[j])
    &&& forall|i: int| 0 <= i < s.len() ==> s[i].count == count_code(b, s[i].code)
    &&& forall|i: int| 0 <= i < s.len() ==> s[i].count > 0
    &&& forall|c: Seq<char>|
        count_code(b, c) > 0 ==> exists|i: int| 0 <= i < s.len() && s[i].code == c
}

/// The sum of the counts of a sequence of entries.
pub open spec fn total_count(s: Seq<EntryModel>) -> nat
    decreases s.len(),
{
    if s.len() == 0 {
        0
    } else {
        total_count(s.drop_last()) + s.last().count
    }
}

/// The records of `b` whose code is not `c0`.
pub open spec fn without_code(b: Seq<RecordModel>, c0: Seq<char>) -> Seq<RecordModel>
    decreases b.len(),
{
    if b.len() == 0 {
        b
    } else if b.last().id == c0 {
        without_code(b.drop_last(), c0)
    } else {
        without_code(b.drop_last(), c0).push(b.last())
    }
}

proof fn lemma_without_code(b: Seq<RecordModel>, c0: Seq<char>, c: Seq<char>)
    ensures
        count_code(without_code(b, c0), c) == (if c == c0 {
            0
        } else {
            count_code(b, c)
        }),
        without_code(b, c0).len() + count_code(b, c0) == b.len(),
    decreases b.len(),
{
    if b.len() > 0 {
        lemma_without_code(b.drop_last(), c0, c);
        let w = without_code(b.drop_last(), c0);
        if b.last().id != c0 {
            assert(w.push(b.last()).drop_last() =~= w);
        }
    }
}

proof fn lemma_total(s: Seq<EntryModel>, b: Seq<RecordModel>)
    requires
        forall|i: int, j: int| 0 <= i < j < s.len() ==> s[i].code != s[j].code,
        forall|i: int| 0 <= i < s.len() ==> s[i].count == count_code(b, s[i].code),
        forall|c: Seq<char>|
            count_code(b, c) > 0 ==> exists|i: int| 0 <= i < s.len() && s[i].code == c,
    ensures
        total_count(s) == b.len(),
    decreases s.len(),
{
    if s.len() == 0 {
        if b.len() > 0 {
            assert(count_code(b, b.last().id) > 0);
        }
    } else {
        let e = s.last();
        let s1 = s.drop_last();
        let b1 = without_code(b, e.code);
        lemma_without_code(b, e.code, e.code);
        assert forall|i: int| 0 <= i < s1.len() implies s1[i].count == count_code(b1, s1[i].code) by {
            assert(s[i].code != s[s.len() - 1].code);
            lemma_without_code(b, e.code, s1[i].code);
        }
        assert forall|c: Seq<char>| count_code(b1, c) > 0 implies exists|i: int|
            0 <= i < s1.len() && s1[i].code == c by {
            lemma_without_code(b, e.code, c);
            let i = choose|i: int| 0 <= i < s.len() && s[i].code == c;
            assert(i != s.len() - 1);
            assert(s1[i].code == c);
        }
        lemma_total(s1, b1);
    }
}

/// The counts of a summary add up to the size of the batch it summarises.
pub proof fn lemma_summary_total(s: Seq<EntryModel>, b: Seq<RecordModel>)
    requires
        is_summary_of(s, b),
    ensures
        total_count(s) == b.len(),
{
    assert forall|i: int, j: int| 0 <= i < j < s.len() implies s[i].code != s[j].code by {
        lemma_cmp_text(s[i].code, s[j].code, s[i].code);
        assert(entry_before(s[i], s[j]));
        assert(s[i].count == count_code(b, s[i].code));
        assert(s[j].count == count_code(b, s[j].code));
    }
    lemma_total(s, b);
}

proof fn lemma_entry_order(a: EntryModel, b: EntryModel, c: EntryModel)
    ensures
        entry_before(a, b) && entry_before(b, c) ==> entry_before(a, c),
        a.code != b.code ==> (entry_before(a, b) || entry_before(b, a)),
        !(entry_before(a, b) && entry_before(b, a)),
{
    lemma_cmp_text(a.code, b.code, c.code);
    lemma_cmp_text(b.code, a.code, c.code);
}

/// Every entry comes before each one after it.
pub open spec fn entries_sorted(s: Seq<EntryModel>) -> bool {
    forall|i: int, j: int| 0 <= i < j < s.len() ==> entry_before(s[i], s[j])
}

fn comes_before(a: &SummaryEntry, b: &SummaryEntry) -> (r: bool)
    ensures
        r == entry_before(a@, b@),
{
    a.count < b.count || (a.count == b.count && compare_text(
        a.diagnostic_code.as_str(),
        b.diagnostic_code.as_str(),
    ) < 0)
}

fn insert_sorted(out: &mut Vec<SummaryEntry>, e: SummaryEntry)
    requires
        entries_sorted(entries_view(old(out)@)),
        forall|k: int| 0 <= k < old(out)@.len() ==> old(out)@[k]@.code != e@.code,
    ensures
        entries_sorted(entries_view(final(out)@)),
        forall|y: EntryModel|
            entries_view(final(out)@).contains(y) <==> (entries_view(old(out)@).contains(y) || y
                == e@),
{
    let ghost v0 = entries_view(out@);
    let ghost ev = e@;
    let n = out.len();
    let mut j: usize = 0;
    assert forall|k: int| 0 <= k < n implies v0[k].code != ev.code by {
        assert(v0[k] == old(out)@[k]@);
    }
    while j < n && !comes_before(&e, &out[j])
        invariant
            n == out@.len(),
            j <= n,
            out@ == old(out)@,
            v0 == entries_view(out@),
            ev == e@,
            forall|k: int| 0 <= k < n ==> v0[k].code != ev.code,
            forall|k: int| 0 <= k < j ==> entry_before(v0[k], ev),
        decreases n - j,
    {
        proof {
            assert(v0[j as int] == out@[j as int]@);
            lemma_entry_order(ev, v0[j as int], ev);
        }
        j = j + 1;
    }
    out.insert(j, e);
    proof {
        let v1 = entries_view(out@);
        assert(v1 =~= v0.insert(j as int, ev));
        assert forall|a: int, b: int| 0 <= a < b < v1.len() implies entry_before(v1[a], v1[b]) by {
            if b < j {
                assert(v1[a] == v0[a] && v1[b] == v0[b]);
            } else if b == j {
                assert(v1[a] == v0[a] && v1[b] == ev);
            } else {
                assert(v1[b] == v0[b - 1]);
                assert(entry_before(ev, v0[j as int]));
                if b - 1 > j {
                    lemma_entry_order(ev, v0[j as int], v0[b - 1]);
                }
                if a < j {
                    assert(v1[a] == v0[a]);
                    lemma_entry_order(v1[a], ev, v1[b]);
                } else if a > j {
                    assert(v1[a] == v0[a - 1]);
                }
            }
        }
        assert forall|y: EntryModel| v1.contains(y) <==> (v0.contains(y) || y == ev) by {
            if v1.contains(y) {
                let i = choose|i: int| 0 <= i < v1.len() && v1[i] == y;
                if i < j {
                    assert(v0[i] == y);
                } else if i > j {
                    assert(v0[i - 1] == y);
                }
            }
            if v0.contains(y) {
                let i = choose|i: int| 0 <= i < v0.len() && v0[i] == y;
                if i < j {
                    assert(v1[i] == y);
                } else {
                    assert(v1[i + 1] == y);
                }
            }
            if y == ev {
                assert(v1[j as int] == y);
            }
        }
    }
}

/// Counts each code of `records`, in the order in which the codes first occur.
fn count_codes(records: &Vec<CheckResult>) -> (r: Vec<SummaryEntry>)
    ensures
        forall|p: int, q: int| 0 <= p < q < r@.len() ==> r@[p]@.code != r@[q]@.code,
        forall|p: int|
            0 <= p < r@.len() ==> r@[p]@.count == count_code(records_view(records@), r@[p]@.code)
                && r@[p]@.count > 0,
        forall|c: Seq<char>|
            count_code(records_view(records@), c) > 0 ==> exists|p: int|
                0 <= p < r@.len() && r@[p]@.code == c,
{
    let ghost all = records_view(records@);
    let mut out: Vec<SummaryEntry> = Vec::new();
    let mut i: usize = 0;
    while i < records.len()
        invariant
            i <= records@.len(),
            all == records_view(records@),
            forall|p: int, q: int| 0 <= p < q < out@.len() ==> out@[p]@.code != out@[q]@.code,
            forall|p: int|
                0 <= p < out@.len() ==> out@[p]@.count == count_code(
                    all.subrange(0, i as int),
                    out@[p]@.code,
                ) && out@[p]@.count > 0 && out@[p]@.count <= i,
            forall|c: Seq<char>|
                count_code(all.subrange(0, i as int), c) > 0 ==> exists|p: int|
                    0 <= p < out@.len() && out@[p]@.code == c,
        decreases records@.len() - i,
    {
        let ghost pre = all.subrange(0, i as int);
        let ghost post = all.subrange(0, i as int + 1);
        let code = records[i].id.as_str();
        proof {
            assert(post.drop_last() =~= pre);
            assert(post.last() == records@[i as int]@);
        }
        let n = out.len();
        let mut p: usize = 0;
        while p < n && !same_text(out[p].diagnostic_code.as_str(), code)
            invariant
                n == out@.len(),
                p <= n,
                forall|k: int| 0 <= k < p ==> out@[k]@.code != code@,
            decreases n - p,
        {
            p = p + 1;
        }
        let ghost before = out@;
        if p < n {
            let entry = SummaryEntry {
                count: out[p].count + 1,
                diagnostic_code: out[p].diagnostic_code.clone(),
            };
            out.set(p, entry);
            proof {
                assert forall|k: int| 0 <= k < out@.len() implies out@[k]@.count == count_code(
                    post,
                    out@[k]@.code,
                ) && out@[k]@.count > 0 && out@[k]@.count <= i + 1 by {
                    if k != p {
                        assert(out@[k] == before[k]);
                    }
                }
                assert forall|c: Seq<char>| count_code(post, c) > 0 implies exists|k: int|
                    0 <= k < out@.len() && out@[k]@.code == c by {
                    if count_code(pre, c) > 0 {
                        let k = choose|k: int| 0 <= k < before.len() && before[k]@.code == c;
                        assert(out@[k]@.code == c);
                    } else {
                        assert(out@[p as int]@.code == c);
                    }
                }
                assert forall|a: int, b: int| 0 <= a < b < out@.len() implies out@[a]@.code
                    != out@[b]@.code by {
                    assert(out@[a]@.code == before[a]@.code);
                    assert(out@[b]@.code == before[b]@.code);
                }
            }
        } else {
            out.push(SummaryEntry { count: 1, diagnostic_code: code.to_owned() });
            proof {
                assert forall|k: int| 0 <= k < out@.len() implies out@[k]@.count == count_code(
                    post,
                    out@[k]@.code,
                ) && out@[k]@.count > 0 && out@[k]@.count <= i + 1 by {
                    if k < n {
                        assert(out@[k] == before[k]);
                    } else {
                        assert(count_code(pre, code@) == 0) by {
                            if count_code(pre, code@) > 0 {
                                let q = choose|q: int| 0 <= q < before.len() && before[q]@.code == code@;
                            }
                        }
                    }
                }
                assert forall|c: Seq<char>| count_code(post, c) > 0 implies exists|k: int|
                    0 <= k < out@.len() && out@[k]@.code == c by {
                    if count_code(pre, c) > 0 {
                        let k = choose|k: int| 0 <= k < before.len() && before[k]@.code == c;
                        assert(out@[k]@.code == c);
                    } else {
                        assert(out@[n as int]@.code == c);
                    }
                }
            }
        }
        i = i + 1;
    }
    assert(all.subrange(0, i as int) =~= all);
    out
}

/// The summary of a batch of records: one entry per diagnostic code with the
/// number of records that carry it, ascending by count, then by code.
pub fn build_summary(records: &Vec<CheckResult>) -> (r: Vec<SummaryEntry>)
    ensures
        is_summary_of(entries_view(r@), records_view(records@)),
{
    let ghost b = records_view(records@);
    let mut rest = count_codes(records);
    let ghost all = rest@;
    let ghost ev = entries_view(all);
    let mut out: Vec<SummaryEntry> = Vec::new();
    while rest.len() > 0
        invariant
            rest@.len() <= all.len(),
            rest@ == all.subrange(0, rest@.len() as int),
            ev == entries_view(all),
            forall|p: int, q: int| 0 <= p < q < all.len() ==> all[p]@.code != all[q]@.code,
            entries_sorted(entries_view(out@)),
            forall|y: EntryModel|
                entries_view(out@).contains(y) <==> ev.subrange(
                    rest@.len() as int,
                    all.len() as int,
                ).contains(y),
        decreases rest@.len(),
    {
        let ghost k = rest@.len() as int;
        let e = rest.pop().unwrap();
        proof {
            assert(rest@ =~= all.subrange(0, k - 1));
            assert(e == all[k - 1]);
            let tail = ev.subrange(k - 1, all.len() as int);
            let tail0 = ev.subrange(k, all.len() as int);
            assert forall|y: EntryModel| tail.contains(y) <==> (tail0.contains(y) || y == e@) by {
                if tail.contains(y) {
                    let i = choose|i: int| 0 <= i < tail.len() && tail[i] == y;
                    if i > 0 {
                        assert(tail0[i - 1] == y);
                    }
                }
                if tail0.contains(y) {
                    let i = choose|i: int| 0 <= i < tail0.len() && tail0[i] == y;
                    assert(tail[i + 1] == y);
                }
                if y == e@ {
                    assert(tail[0] == y);
                }
            }
            assert forall|q: int| 0 <= q < out@.len() implies out@[q]@.code != e@.code by {
                let y = out@[q]@;
                assert(entries_view(out@)[q] == y);
                assert(entries_view(out@).contains(y));
                let i = choose|i: int| 0 <= i < tail0.len() && tail0[i] == y;
                assert(all[k + i]@ == y);
            }
        }
        insert_sorted(&mut out, e);
    }
    proof {
        let v = entries_view(out@);
        assert(ev.subrange(0, all.len() as int) =~= ev);
        assert forall|i: int| 0 <= i < v.len() implies v[i].count == count_code(b, v[i].code)
            && v[i].count > 0 by {
            assert(v.contains(v[i]));
            let q = choose|q: int| 0 <= q < ev.len() && ev[q] == v[i];
            assert(ev[q] == all[q]@);
        }
        assert forall|c: Seq<char>| count_code(b, c) > 0 implies exists|i: int|
            0 <= i < v.len() && v[i].code == c by {
            let p = choose|p: int| 0 <= p < all.len() && all[p]@.code == c;
            assert(ev[p] == all[p]@);
            assert(ev.contains(ev[p]));
            assert(v.contains(ev[p]));
        }
    }
    out
}

/// `<count>, <code>`.
pub open spec fn entry_text(e: EntryModel) -> Seq<char> {
    crate::text::decimal(e.count) + seq![',', ' '] + e.code
}

impl SummaryEntry {
    /// The entry's line in a summary block: `<count>, <code>`.
    pub fn pretty(&self) -> (r: String)
        ensures
            r@ == entry_text(self@),
    {
        proof {
            reveal_strlit(", ");
        }
        let mut s = String::new();
        crate::text::push_decimal(&mut s, self.count as u64);
        s.append(", ");
        s.append(self.diagnostic_code.as_str());
        assert(s@ =~= entry_text(self@));
        s
    }
}

} // verus!
