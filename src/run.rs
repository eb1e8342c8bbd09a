//! One run of the linter on one package, reduced to its canonical records,
//! their summary, the crash signals of both channels and the lines that
//! yielded no record.

use vstd::prelude::*;
use crate::crash::{crash_signals, signals_of, signals_view, Channel, CrashSignal};
use crate::dedup::{dedup_records, is_canonical_of};
use crate::parser::{line_result, parse_line, ParseError};
use crate::record::{records_view, CheckResult, RecordModel};
use crate::summary::{build_summary, entries_view, is_summary_of, SummaryEntry};
use crate::text::{lines_of, split_lines, texts_view};

verus! {

/// What one run of the linter comes to.
pub struct RunReport {
    /// The records in canonical form.
    pub records: Vec<CheckResult>,
    /// Occurrences of each diagnostic code among `records`.
    pub summary: Vec<SummaryEntry>,
    /// Crash signals of standard output, then of standard error.
    pub crashes: Vec<CrashSignal>,
    /// Why each skipped line of standard output yielded no record, in order.
    pub errors: Vec<ParseError>,
}

/// The records that the lines yield, in order.
pub open spec fn parsed_records(lines: Seq<Seq<char>>) -> Seq<RecordModel>
    decreases lines.len(),
{
    if lines.len() == 0 {
        seq![]
    } else {
        match line_result(lines.last()) {
            Ok(Some(r)) => parsed_records(lines.drop_last()).push(r),
            _ => parsed_records(lines.drop_last()),
        }
    }
}

/// The errors of the lines that yield no record and are not skipped for
/// their `reason`, in order.
pub open spec fn line_errors(lines: Seq<Seq<char>>) -> Seq<ParseError>
    decreases lines.len(),
{
    if lines.len() == 0 {
        seq![]
    } else {
        match line_result(lines.last()) {
            Err(e) => line_errors(lines.drop_last()).push(e),
            _ => line_errors(lines.drop_last()),
        }
    }
}

/// Parses each line; a line that fails is skipped and its error kept.
pub fn collect_records(lines: &Vec<String>) -> (r: (Vec<CheckResult>, Vec<ParseError>))
    ensures
        records_view(r.0@) == parsed_records(texts_view(lines@)),
        r.1@ == line_errors(texts_view(lines@)),
{
    let ghost all = texts_view(lines@);
    let mut records: Vec<CheckResult> = Vec::new();
    let mut errors: Vec<ParseError> = Vec::new();
    let mut i: usize = 0;
    while i < lines.len()
        invariant
            i <= lines@.len(),
            all == texts_view(lines@),
            records_view(records@) == parsed_records(all.subrange(0, i as int)),
            errors@ == line_errors(all.subrange(0, i as int)),
        decreases lines@.len() - i,
    {
        let ghost post = all.subrange(0, i as int + 1);
        proof {
            assert(post.drop_last() =~= all.subrange(0, i as int));
            assert(post.last() == lines@[i as int]@);
        }
        match parse_line(lines[i].as_str()) {
            Ok(Some(rec)) => {
                let ghost before = records@;
                records.push(rec);
                assert(records_view(records@) =~= records_view(before).push(rec@));
            },
            Ok(None) => {},
            Err(e) => {
                errors.push(e);
            },
        }
        i = i + 1;
    }
    assert(all.subrange(0, i as int) =~= all);
    (records, errors)
}

/// Reduces the two output channels of one run. Crash signals are looked for
/// on every line of both channels, whatever the parsing of the records gives.
pub fn analyze_run(stdout: &str, stderr: &str) -> (r: RunReport)
    ensures
        is_canonical_of(records_view(r.records@), parsed_records(lines_of(stdout@))),
        is_summary_of(entries_view(r.summary@), records_view(r.records@)),
        signals_view(r.crashes@) == signals_of(Channel::Stdout, lines_of(stdout@)) + signals_of(
            Channel::Stderr,
            lines_of(stderr@),
        ),
        r.errors@ == line_errors(lines_of(stdout@)),
{
    let mut crashes = crash_signals(Channel::Stdout, stdout);
    let mut more = crash_signals(Channel::Stderr, stderr);
    let ghost first = crashes@;
    let ghost second = more@;
    crashes.append(&mut more);
    assert(signals_view(crashes@) =~= signals_view(first) + signals_view(second));
    let lines = split_lines(stdout);
    let (parsed, errors) = collect_records(&lines);
    let records = dedup_records(parsed);
    let summary = build_summary(&records);
    RunReport { records, summary, crashes, errors }
}

} // verus!
