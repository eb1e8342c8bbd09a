//! The diagnostic record and its source locations, with the one-line log
//! notation of each.

use vstd::prelude::*;
use crate::text::{decimal, push_decimal};

verus! {

/// A source location as the linter reports it: a file path, taken verbatim,
/// and a 1-based line and column.
pub struct SrcLoc {
    pub file: String,
    pub line: u32,
    pub column: u32,
}

/// The mathematical value of a [`SrcLoc`].
pub struct LocModel {
    pub file: Seq<char>,
    pub line: nat,
    pub column: nat,
}

impl View for SrcLoc {
    type V = LocModel;

    open spec fn view(&self) -> LocModel {
        LocModel { file: self.file@, line: self.line as nat, column: self.column as nat }
    }
}

/// One diagnostic of one analysed package: package name, version, diagnostic
/// code (empty when the linter gave none) and the locations of its spans.
pub struct CheckResult {
    pub krate: String,
    pub version: String,
    pub id: String,
    pub src_locs: Vec<SrcLoc>,
}

/// The mathematical value of a [`CheckResult`].
pub struct RecordModel {
    pub krate: Seq<char>,
    pub version: Seq<char>,
    pub id: Seq<char>,
    pub locs: Seq<LocModel>,
}

/// The models of a sequence of locations.
pub open spec fn locs_view(v: Seq<SrcLoc>) -> Seq<LocModel> {
    v.map_values(|l: SrcLoc| l@)
}

/// The models of a sequence of records.
pub open spec fn records_view(v: Seq<CheckResult>) -> Seq<RecordModel> {
    v.map_values(|r: CheckResult| r@)
}

impl View for CheckResult {
    type V = RecordModel;

    open spec fn view(&self) -> RecordModel {
        RecordModel {
            krate: self.krate@,
            version: self.version@,
            id: self.id@,
            locs: locs_view(self.src_locs@),
        }
    }
}

/// `file:line:column`.
pub open spec fn loc_text(l: LocModel) -> Seq<char> {
    l.file + seq![':'] + decimal(l.line) + seq![':'] + decimal(l.column)
}

/// The location part of a log line: one location alone, a range as
/// `start->end`, and a placeholder for any other number of locations.
pub open spec fn locs_text(locs: Seq<LocModel>) -> Seq<char> {
    if locs.len() == 2 {
        loc_text(locs[0]) + seq!['-', '>'] + loc_text(locs[1])
    } else if locs.len() == 1 {
        loc_text(locs[0])
    } else {
        "NO SRC LOCS"@
    }
}

/// `<package>-<version> <code> <locations>`.
pub open spec fn record_text(r: RecordModel) -> Seq<char> {
    r.krate + seq!['-'] + r.version + seq![' '] + r.id + seq![' '] + locs_text(r.locs)
}

impl SrcLoc {
    /// Builds a location.
    pub fn new(file: String, line: u32, column: u32) -> (r: SrcLoc)
        ensures
            r.file == file,
            r.line == line,
            r.column == column,
    {
        SrcLoc { file, line, column }
    }

    /// A copy with the same value.
    pub fn duplicate(&self) -> (r: SrcLoc)
        ensures
            r@ == self@,
    {
        SrcLoc { file: self.file.clone(), line: self.line, column: self.column }
    }

    fn push_text(&self, s: &mut String)
        ensures
            final(s)@ == old(s)@ + loc_text(self@),
    {
        proof {
            reveal_strlit(":");
        }
        s.append(self.file.as_str());
        s.append(":");
        push_decimal(s, self.line as u64);
        s.append(":");
        push_decimal(s, self.column as u64);
        assert(final(s)@ =~= old(s)@ + loc_text(self@));
    }

    /// The location as `file:line:column`.
    pub fn pretty(&self) -> (r: String)
        ensures
            r@ == loc_text(self@),
    {
        let mut s = String::new();
        self.push_text(&mut s);
        assert(s@ =~= loc_text(self@));
        s
    }
}

impl CheckResult {
    /// The record's log line: `<package>-<version> <code> <locations>`.
    pub fn pretty(&self) -> (r: String)
        ensures
            r@ == record_text(self@),
    {
        proof {
            reveal_strlit("-");
            reveal_strlit(" ");
            reveal_strlit("->");
        }
        let mut s = String::new();
        s.append(self.krate.as_str());
        s.append("-");
        s.append(self.version.as_str());
        s.append(" ");
        s.append(self.id.as_str());
        s.append(" ");
        let ghost head = s@;
        let n = self.src_locs.len();
        if n == 2 {
            self.src_locs[0].push_text(&mut s);
            s.append("->");
            self.src_locs[1].push_text(&mut s);
        } else if n == 1 {
            self.src_locs[0].push_text(&mut s);
        } else {
            s.append("NO SRC LOCS");
        }
        assert(s@ =~= head + locs_text(self@.locs));
        assert(s@ =~= record_text(self@));
        s
    }

    /// A copy with the same value.
    pub fn duplicate(&self) -> (r: CheckResult)
        ensures
            r@ == self@,
    {
        let mut locs: Vec<SrcLoc> = Vec::new();
        let mut i: usize = 0;
        while i < self.src_locs.len()
            invariant
                i <= self.src_locs@.len(),
                locs@.len() == i,
                forall|k: int| 0 <= k < i ==> (#[trigger] locs@[k])@ == self.src_locs@[k]@,
            decreases self.src_locs@.len() - i,
        {
            locs.push(self.src_locs[i].duplicate());
            i = i + 1;
        }
        assert(locs_view(locs@) =~= locs_view(self.src_locs@));
        CheckResult {
            krate: self.krate.clone(),
            version: self.version.clone(),
            id: self.id.clone(),
            src_locs: locs,
        }
    }
}

/// The log of a batch: each record's line, each ended by a line feed.
pub open spec fn log_text(rs: Seq<RecordModel>) -> Seq<char>
    decreases rs.len(),
{
    if rs.len() == 0 {
        seq![]
    } else {
        log_text(rs.drop_last()) + record_text(rs.last()) + seq!['\n']
    }
}

/// The log of a batch of records, one line each.
pub fn log_lines(records: &Vec<CheckResult>) -> (r: String)
    ensures
        r@ == log_text(records_view(records@)),
{
    let ghost all = records_view(records@);
    let mut s = String::new();
    let mut i: usize = 0;
    while i < records.len()
        invariant
            i <= records@.len(),
            all == records_view(records@),
            s@ == log_text(all.subrange(0, i as int)),
        decreases records@.len() - i,
    {
        let ghost post = all.subrange(0, i as int + 1);
        proof {
            assert(post.drop_last() =~= all.subrange(0, i as int));
            assert(post.last() == records@[i as int]@);
        }
        let line = records[i].pretty();
        let ghost before = s@;
        s.append(line.as_str());
        s.append("\n");
        proof {
            reveal_strlit("\n");
            assert(s@ =~= before + record_text(all[i as int]) + seq!['\n']);
        }
        i = i + 1;
    }
    assert(all.subrange(0, i as int) =~= all);
    s
}

} // verus!
