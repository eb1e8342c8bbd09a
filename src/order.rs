//! The canonical order of diagnostic records: lexicographic over package
//! name, version, diagnostic code, then each location's file, line and column.
//! Comparisons give a negative, zero or positive result.

use vstd::prelude::*;
use crate::record::{CheckResult, LocModel, RecordModel, SrcLoc};

verus! {

/// Comparison of two integers.
pub open spec fn cmp_nat(a: nat, b: nat) -> int {
    if a < b {
        -1
    } else if a > b {
        1
    } else {
        0
    }
}

/// Lexicographic comparison of two texts by code point.
pub open spec fn cmp_text(a: Seq<char>, b: Seq<char>) -> int
    decreases a.len(),
{
    if a.len() == 0 {
        if b.len() == 0 {
            0
        } else {
            -1
        }
    } else if b.len() == 0 {
        1
    } else if (a[0] as int) < (b[0] as int) {
        -1
    } else if (a[0] as int) > (b[0] as int) {
        1
    } else {
        cmp_text(a.drop_first(), b.drop_first())
    }
}

/// The first of two comparisons that is not zero.
pub open spec fn then_cmp(first: int, second: int) -> int {
    if first != 0 {
        first
    } else {
        second
    }
}

/// Comparison of two locations by file, line, column.
pub open spec fn cmp_loc(a: LocModel, b: LocModel) -> int {
    then_cmp(cmp_text(a.file, b.file), then_cmp(cmp_nat(a.line, b.line), cmp_nat(a.column, b.column)))
}

/// Lexicographic comparison of two location sequences.
pub open spec fn cmp_locs(a: Seq<LocModel>, b: Seq<LocModel>) -> int
    decreases a.len(),
{
    if a.len() == 0 {
        if b.len() == 0 {
            0
        } else {
            -1
        }
    } else if b.len() == 0 {
        1
    } else {
        then_cmp(cmp_loc(a[0], b[0]), cmp_locs(a.drop_first(), b.drop_first()))
    }
}

/// The canonical comparison of two records.
pub open spec fn cmp_record(a: RecordModel, b: RecordModel) -> int {
    then_cmp(
        cmp_text(a.krate, b.krate),
        then_cmp(cmp_text(a.version, b.version), then_cmp(cmp_text(a.id, b.id), cmp_locs(a.locs, b.locs))),
    )
}

/// The properties of a strict total order, stated of a comparison on texts.
pub proof fn lemma_cmp_text(a: Seq<char>, b: Seq<char>, c: Seq<char>)
    ensures
        cmp_text(a, b) == 0 <==> a == b,
        cmp_text(a, b) == -cmp_text(b, a),
        -1 <= cmp_text(a, b) <= 1,
        cmp_text(a, b) < 0 && cmp_text(b, c) < 0 ==> cmp_text(a, c) < 0,
    decreases a.len(),
{
    if a.len() > 0 && b.len() > 0 && c.len() > 0 {
        lemma_cmp_text(a.drop_first(), b.drop_first(), c.drop_first());
        if a[0] == b[0] && cmp_text(a.drop_first(), b.drop_first()) == 0 {
            assert(a =~= seq![a[0]] + a.drop_first());
            assert(b =~= seq![b[0]] + b.drop_first());
        }
        if (a[0] as int) == (b[0] as int) {
            assert(a[0] == b[0]);
        }
    } else if a.len() > 0 && b.len() > 0 {
        lemma_cmp_text(a.drop_first(), b.drop_first(), a.drop_first());
        if a[0] == b[0] && cmp_text(a.drop_first(), b.drop_first()) == 0 {
            assert(a =~= seq![a[0]] + a.drop_first());
            assert(b =~= seq![b[0]] + b.drop_first());
        }
        if (a[0] as int) == (b[0] as int) {
            assert(a[0] == b[0]);
        }
    } else if a.len() == 0 && b.len() == 0 {
        assert(a =~= b);
    }
}

proof fn lemma_cmp_loc(a: LocModel, b: LocModel, c: LocModel)
    ensures
        cmp_loc(a, b) == 0 <==> a == b,
        cmp_loc(a, b) == -cmp_loc(b, a),
        -1 <= cmp_loc(a, b) <= 1,
        cmp_loc(a, b) < 0 && cmp_loc(b, c) < 0 ==> cmp_loc(a, c) < 0,
{
    lemma_cmp_text(a.file, b.file, c.file);
    lemma_cmp_text(b.file, c.file, a.file);
    lemma_cmp_text(a.file, c.file, b.file);
}

/// The properties of a strict total order, stated of a comparison on
/// location sequences.
pub proof fn lemma_cmp_locs(a: Seq<LocModel>, b: Seq<LocModel>, c: Seq<LocModel>)
    ensures
        cmp_locs(a, b) == 0 <==> a == b,
        cmp_locs(a, b) == -cmp_locs(b, a),
        -1 <= cmp_locs(a, b) <= 1,
        cmp_locs(a, b) < 0 && cmp_locs(b, c) < 0 ==> cmp_locs(a, c) < 0,
    decreases a.len(),
{
    if a.len() > 0 && b.len() > 0 {
        let c2 = if c.len() > 0 { c.drop_first() } else { a.drop_first() };
        let c0 = if c.len() > 0 { c[0] } else { a[0] };
        lemma_cmp_locs(a.drop_first(), b.drop_first(), c2);
        lemma_cmp_loc(a[0], b[0], c0);
        lemma_cmp_loc(b[0], c0, a[0]);
        lemma_cmp_loc(a[0], c0, b[0]);
        if a[0] == b[0] && cmp_locs(a.drop_first(), b.drop_first()) == 0 {
            assert(a =~= seq![a[0]] + a.drop_first());
            assert(b =~= seq![b[0]] + b.drop_first());
        }
    } else if a.len() == 0 && b.len() == 0 {
        assert(a =~= b);
    }
}

/// The canonical comparison is a strict total order: zero exactly on equal
/// records, antisymmetric, and transitive.
pub proof fn lemma_cmp_record(a: RecordModel, b: RecordModel, c: RecordModel)
    ensures
        cmp_record(a, b) == 0 <==> a == b,
        cmp_record(a, b) == -cmp_record(b, a),
        -1 <= cmp_record(a, b) <= 1,
        cmp_record(a, b) < 0 && cmp_record(b, c) < 0 ==> cmp_record(a, c) < 0,
{
    lemma_cmp_text(a.krate, b.krate, c.krate);
    lemma_cmp_text(b.krate, c.krate, a.krate);
    lemma_cmp_text(a.krate, c.krate, b.krate);
    lemma_cmp_text(a.version, b.version, c.version);
    lemma_cmp_text(b.version, c.version, a.version);
    lemma_cmp_text(a.version, c.version, b.version);
    lemma_cmp_text(a.id, b.id, c.id);
    lemma_cmp_text(b.id, c.id, a.id);
    lemma_cmp_text(a.id, c.id, b.id);
    lemma_cmp_locs(a.locs, b.locs, c.locs);
    lemma_cmp_locs(b.locs, c.locs, a.locs);
    lemma_cmp_locs(a.locs, c.locs, b.locs);
}

/// Compares two texts by code point.
pub fn compare_text(a: &str, b: &str) -> (r: i8)
    ensures
        r as int == cmp_text(a@, b@),
{
    let n = a.unicode_len();
    let m = b.unicode_len();
    let mut i: usize = 0;
    assert(a@.subrange(0, n as int) =~= a@);
    assert(b@.subrange(0, m as int) =~= b@);
    while i < n && i < m
        invariant
            n == a@.len(),
            m == b@.len(),
            i <= n,
            i <= m,
            cmp_text(a@, b@) == cmp_text(a@.subrange(i as int, n as int), b@.subrange(i as int, m as int)),
        decreases n - i,
    {
        let x = a.get_char(i);
        let y = b.get_char(i);
        let ghost sa = a@.subrange(i as int, n as int);
        let ghost sb = b@.subrange(i as int, m as int);
        assert(sa[0] == x && sb[0] == y);
        if (x as u32) < (y as u32) {
            return -1;
        } else if (x as u32) > (y as u32) {
            return 1;
        }
        assert(sa.drop_first() =~= a@.subrange(i + 1, n as int));
        assert(sb.drop_first() =~= b@.subrange(i + 1, m as int));
        i = i + 1;
    }
    if i < n {
        1
    } else if i < m {
        -1
    } else {
        0
    }
}

fn compare_u32(a: u32, b: u32) -> (r: i8)
    ensures
        r as int == cmp_nat(a as nat, b as nat),
{
    if a < b {
        -1
    } else if a > b {
        1
    } else {
        0
    }
}

/// Compares two locations by file, line, column.
pub fn compare_loc(a: &SrcLoc, b: &SrcLoc) -> (r: i8)
    ensures
        r as int == cmp_loc(a@, b@),
{
    let f = compare_text(a.file.as_str(), b.file.as_str());
    if f != 0 {
        return f;
    }
    let l = compare_u32(a.line, b.line);
    if l != 0 {
        return l;
    }
    compare_u32(a.column, b.column)
}

/// Compares two location sequences lexicographically.
pub fn compare_locs(a: &Vec<SrcLoc>, b: &Vec<SrcLoc>) -> (r: i8)
    ensures
        r as int == cmp_locs(crate::record::locs_view(a@), crate::record::locs_view(b@)),
{
    let ghost va = crate::record::locs_view(a@);
    let ghost vb = crate::record::locs_view(b@);
    let n = a.len();
    let m = b.len();
    let mut i: usize = 0;
    assert(va.subrange(0, n as int) =~= va);
    assert(vb.subrange(0, m as int) =~= vb);
    while i < n && i < m
        invariant
            n == a@.len(),
            m == b@.len(),
            va == crate::record::locs_view(a@),
            vb == crate::record::locs_view(b@),
            i <= n,
            i <= m,
            cmp_locs(va, vb) == cmp_locs(va.subrange(i as int, n as int), vb.subrange(i as int, m as int)),
        decreases n - i,
    {
        let ghost sa = va.subrange(i as int, n as int);
        let ghost sb = vb.subrange(i as int, m as int);
        assert(sa[0] == a@[i as int]@ && sb[0] == b@[i as int]@);
        let c = compare_loc(&a[i], &b[i]);
        if c != 0 {
            return c;
        }
        assert(sa.drop_first() =~= va.subrange(i + 1, n as int));
        assert(sb.drop_first() =~= vb.subrange(i + 1, m as int));
        i = i + 1;
    }
    if i < n {
        1
    } else if i < m {
        -1
    } else {
        0
    }
}

/// Compares two records in the canonical order.
pub fn compare_records(a: &CheckResult, b: &CheckResult) -> (r: i8)
    ensures
        r as int == cmp_record(a@, b@),
{
    let k = compare_text(a.krate.as_str(), b.krate.as_str());
    if k != 0 {
        return k;
    }
    let v = compare_text(a.version.as_str(), b.version.as_str());
    if v != 0 {
        return v;
    }
    let c = compare_text(a.id.as_str(), b.id.as_str());
    if c != 0 {
        return c;
    }
    compare_locs(&a.src_locs, &b.src_locs)
}

} // verus!
