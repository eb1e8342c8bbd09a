//! Reading one line of the linter's structured output into a diagnostic
//! record.
//!
//! End columns are read from each span's `column_end` member, so a span on
//! one line whose start and end columns differ is a range of two locations.

use vstd::prelude::*;
use crate::json::{get, get_member, json_of, opt_value, parse_json, Json};
use crate::text::same_text;
use crate::record::{locs_view, CheckResult, LocModel, RecordModel, SrcLoc};

verus! {

/// Why a line of structured output yields no record.
#[derive(PartialEq, Eq, Structural, Clone, Copy, Debug)]
pub enum ParseError {
    /// The line is not valid JSON.
    UnparsableLine,
    /// `package_id` is missing or holds fewer than two words.
    MalformedPackageId,
    /// A member that the record needs has an unexpected shape.
    MalformedDiagnostic,
}

/// Whether `c` is white space, as `char::is_whitespace` defines it.
pub open spec fn is_ws(c: char) -> bool {
    let u = c as u32;
    (0x09 <= u <= 0x0D) || u == 0x20 || u == 0x85 || u == 0xA0 || u == 0x1680 || (0x2000 <= u
        <= 0x200A) || u == 0x2028 || u == 0x2029 || u == 0x202F || u == 0x205F || u == 0x3000
}

/// The first index at or after `i` that holds no white space, or the length.
pub open spec fn skip_ws(s: Seq<char>, i: int) -> int
    decreases s.len() - i,
{
    if i < 0 || i >= s.len() {
        s.len() as int
    } else if is_ws(s[i]) {
        skip_ws(s, i + 1)
    } else {
        i
    }
}

/// The first index at or after `i` that holds white space, or the length.
pub open spec fn word_end(s: Seq<char>, i: int) -> int
    decreases s.len() - i,
{
    if i < 0 || i >= s.len() {
        s.len() as int
    } else if !is_ws(s[i]) {
        word_end(s, i + 1)
    } else {
        i
    }
}

/// The first two white-space separated words of a package id (name and
/// version), or nothing where it has fewer than two.
pub open spec fn package_words(p: Seq<char>) -> Option<(Seq<char>, Seq<char>)> {
    let a1 = skip_ws(p, 0);
    let b1 = word_end(p, a1);
    let a2 = skip_ws(p, b1);
    let b2 = word_end(p, a2);
    if a2 >= p.len() {
        None
    } else {
        Some((p.subrange(a1, b1), p.subrange(a2, b2)))
    }
}

/// A line or column number: an integer that fits in `u32`.
pub open spec fn as_u32(v: Json) -> Option<nat> {
    match v {
        Json::Number(Some(n)) => if n <= u32::MAX {
            Some(n as nat)
        } else {
            None
        },
        _ => None,
    }
}

/// The locations of one span: nothing where one of its five members is
/// absent, one location for a point, start and end for a range; `None` where
/// the span is malformed.
pub open spec fn span_locs(item: Json) -> Option<Seq<LocModel>> {
    let f = get(item, "file_name"@);
    let ls = get(item, "line_start"@);
    let le = get(item, "line_end"@);
    let cs = get(item, "column_start"@);
    let ce = get(item, "column_end"@);
    if !(item is Object) {
        None
    } else if f is None || ls is None || le is None || cs is None || ce is None {
        Some(seq![])
    } else if !(f.unwrap() is Str) || as_u32(ls.unwrap()) is None || as_u32(le.unwrap()) is None
        || as_u32(cs.unwrap()) is None || as_u32(ce.unwrap()) is None {
        None
    } else {
        let file = f.unwrap()->Str_0@;
        let start = LocModel {
            file,
            line: as_u32(ls.unwrap()).unwrap(),
            column: as_u32(cs.unwrap()).unwrap(),
        };
        let end = LocModel {
            file,
            line: as_u32(le.unwrap()).unwrap(),
            column: as_u32(ce.unwrap()).unwrap(),
        };
        if start.line == end.line && start.column == end.column {
            Some(seq![start])
        } else {
            Some(seq![start, end])
        }
    }
}

/// The locations of all spans, in order; `None` where one is malformed.
pub open spec fn spans_locs(items: Seq<Json>) -> Option<Seq<LocModel>>
    decreases items.len(),
{
    if items.len() == 0 {
        Some(seq![])
    } else {
        match (spans_locs(items.drop_last()), span_locs(items.last())) {
            (Some(a), Some(b)) => Some(a + b),
            _ => None,
        }
    }
}

/// The locations of a message's `spans`; none where it has no spans.
pub open spec fn message_locs(msg: Option<Json>) -> Option<Seq<LocModel>> {
    match msg {
        None => Some(seq![]),
        Some(m) => match get(m, "spans"@) {
            None => Some(seq![]),
            Some(Json::Array(items)) => spans_locs(items@),
            _ => None,
        },
    }
}

/// The diagnostic code of a message (`code.code`); empty where absent.
pub open spec fn message_code(msg: Option<Json>) -> Option<Seq<char>> {
    match msg {
        None => Some(seq![]),
        Some(m) => match get(m, "code"@) {
            None => Some(seq![]),
            Some(c) => if !(c is Object) {
                None
            } else {
                match get(c, "code"@) {
                    None => Some(seq![]),
                    Some(Json::Str(s)) => Some(s@),
                    _ => None,
                }
            },
        },
    }
}

/// Whether a document reports a compiler message.
pub open spec fn is_compiler_message(doc: Json) -> bool {
    match get(doc, "reason"@) {
        Some(Json::Str(r)) => r@ == "compiler-message"@,
        _ => false,
    }
}

/// What a document yields: no record for another `reason`, else the record
/// or the reason why there is none.
pub open spec fn message_result(doc: Json) -> Result<Option<RecordModel>, ParseError> {
    if !is_compiler_message(doc) {
        Ok(None)
    } else {
        match get(doc, "package_id"@) {
            None => Err(ParseError::MalformedPackageId),
            Some(Json::Str(p)) => match package_words(p@) {
                None => Err(ParseError::MalformedPackageId),
                Some(words) => {
                    let msg = get(doc, "message"@);
                    if msg is Some && !(msg.unwrap() is Object) {
                        Err(ParseError::MalformedDiagnostic)
                    } else {
                        match (message_code(msg), message_locs(msg)) {
                            (Some(code), Some(locs)) => Ok(
                                Some(
                                    RecordModel {
                                        krate: words.0,
                                        version: words.1,
                                        id: code,
                                        locs,
                                    },
                                ),
                            ),
                            _ => Err(ParseError::MalformedDiagnostic),
                        }
                    }
                },
            },
            Some(_) => Err(ParseError::MalformedDiagnostic),
        }
    }
}

/// What a line of text yields.
pub open spec fn line_result(text: Seq<char>) -> Result<Option<RecordModel>, ParseError> {
    match json_of(text) {
        None => Err(ParseError::UnparsableLine),
        Some(doc) => message_result(doc),
    }
}

/// The model of a parse outcome.
pub open spec fn outcome_view(r: Result<Option<CheckResult>, ParseError>) -> Result<
    Option<RecordModel>,
    ParseError,
> {
    match r {
        Ok(Some(c)) => Ok(Some(c@)),
        Ok(None) => Ok(None),
        Err(e) => Err(e),
    }
}

/// Whether `c` is white space.
pub fn is_whitespace(c: char) -> (r: bool)
    ensures
        r == is_ws(c),
{
    let u = c as u32;
    (0x09 <= u && u <= 0x0D) || u == 0x20 || u == 0x85 || u == 0xA0 || u == 0x1680 || (0x2000
        <= u && u <= 0x200A) || u == 0x2028 || u == 0x2029 || u == 0x202F || u == 0x205F || u
        == 0x3000
}

fn skip_ws_from(s: &str, n: usize, i: usize) -> (r: usize)
    requires
        n == s@.len(),
        i <= n,
    ensures
        r == skip_ws(s@, i as int),
        i <= r <= n,
{
    let mut j = i;
    while j < n && is_whitespace(s.get_char(j))
        invariant
            n == s@.len(),
            i <= j <= n,
            skip_ws(s@, i as int) == skip_ws(s@, j as int),
        decreases n - j,
    {
        j = j + 1;
    }
    j
}

fn word_end_from(s: &str, n: usize, i: usize) -> (r: usize)
    requires
        n == s@.len(),
        i <= n,
    ensures
        r == word_end(s@, i as int),
        i <= r <= n,
{
    let mut j = i;
    while j < n && !is_whitespace(s.get_char(j))
        invariant
            n == s@.len(),
            i <= j <= n,
            word_end(s@, i as int) == word_end(s@, j as int),
        decreases n - j,
    {
        j = j + 1;
    }
    j
}

/// The name and version that a package id starts with.
pub fn split_package_id(p: &str) -> (r: Option<(String, String)>)
    ensures
        r is None <==> package_words(p@) is None,
        r matches Some(w) ==> (w.0@, w.1@) == package_words(p@).unwrap(),
{
    let n = p.unicode_len();
    let a1 = skip_ws_from(p, n, 0);
    let b1 = word_end_from(p, n, a1);
    let a2 = skip_ws_from(p, n, b1);
    let b2 = word_end_from(p, n, a2);
    if a2 >= n {
        None
    } else {
        let name = p.substring_char(a1, b1).to_owned();
        let version = p.substring_char(a2, b2).to_owned();
        Some((name, version))
    }
}

fn read_u32(v: &Json) -> (r: Option<u32>)
    ensures
        r matches Some(n) ==> as_u32(*v) == Some(n as nat),
        r is None ==> as_u32(*v) is None,
{
    match v {
        Json::Number(Some(n)) => if *n <= 0xFFFF_FFFF {
            Some(*n as u32)
        } else {
            None
        },
        _ => None,
    }
}

/// The model of optional locations.
pub open spec fn opt_locs_view(r: Option<Vec<SrcLoc>>) -> Option<Seq<LocModel>> {
    match r {
        Some(v) => Some(locs_view(v@)),
        None => None,
    }
}

fn read_span(item: &Json) -> (r: Option<Vec<SrcLoc>>)
    ensures
        opt_locs_view(r) == span_locs(*item),
{
    if !matches!(item, Json::Object(_)) {
        return None;
    }
    let f = get_member(item, "file_name");
    let ls = get_member(item, "line_start");
    let le = get_member(item, "line_end");
    let cs = get_member(item, "column_start");
    let ce = get_member(item, "column_end");
    if f.is_none() || ls.is_none() || le.is_none() || cs.is_none() || ce.is_none() {
        let v: Vec<SrcLoc> = Vec::new();
        assert(locs_view(v@) =~= seq![]);
        return Some(v);
    }
    let file = match f.unwrap() {
        Json::Str(s) => s,
        _ => {
            return None;
        },
    };
    let l1 = read_u32(ls.unwrap());
    let l2 = read_u32(le.unwrap());
    let c1 = read_u32(cs.unwrap());
    let c2 = read_u32(ce.unwrap());
    if l1.is_none() || l2.is_none() || c1.is_none() || c2.is_none() {
        return None;
    }
    let l1 = l1.unwrap();
    let l2 = l2.unwrap();
    let c1 = c1.unwrap();
    let c2 = c2.unwrap();
    let mut v: Vec<SrcLoc> = Vec::new();
    v.push(SrcLoc::new(file.clone(), l1, c1));
    if l1 != l2 || c1 != c2 {
        v.push(SrcLoc::new(file.clone(), l2, c2));
    }
    assert(Some(locs_view(v@)) =~= span_locs(*item));
    Some(v)
}

proof fn lemma_malformed_prefix(items: Seq<Json>, j: int)
    requires
        0 <= j <= items.len(),
        spans_locs(items.subrange(0, j)) is None,
    ensures
        spans_locs(items) is None,
    decreases items.len(),
{
    if j == items.len() {
        assert(items.subrange(0, j) =~= items);
    } else {
        assert(items.drop_last().subrange(0, j) =~= items.subrange(0, j));
        lemma_malformed_prefix(items.drop_last(), j);
    }
}

fn read_spans(items: &Vec<Json>) -> (r: Option<Vec<SrcLoc>>)
    ensures
        opt_locs_view(r) == spans_locs(items@),
{
    let mut out: Vec<SrcLoc> = Vec::new();
    let mut i: usize = 0;
    assert(items@.subrange(0, 0) =~= seq![]);
    while i < items.len()
        invariant
            i <= items@.len(),
            spans_locs(items@.subrange(0, i as int)) == Some(locs_view(out@)),
        decreases items@.len() - i,
    {
        let one = read_span(&items[i]);
        let ghost prefix = items@.subrange(0, i as int + 1);
        assert(prefix.drop_last() =~= items@.subrange(0, i as int));
        assert(prefix.last() == items@[i as int]);
        match one {
            None => {
                proof {
                    lemma_malformed_prefix(items@, i as int + 1);
                }
                return None;
            },
            Some(mut locs) => {
                let ghost before = out@;
                let ghost added = locs@;
                out.append(&mut locs);
                assert(locs_view(out@) =~= locs_view(before) + locs_view(added));
            },
        }
        i = i + 1;
    }
    assert(items@.subrange(0, i as int) =~= items@);
    Some(out)
}

fn read_code(msg: Option<&Json>) -> (r: Option<String>)
    ensures
        r is None <==> message_code(opt_value(msg)) is None,
        r matches Some(c) ==> c@ == message_code(opt_value(msg)).unwrap(),
{
    match msg {
        None => Some(String::new()),
        Some(m) => match get_member(m, "code") {
            None => Some(String::new()),
            Some(c) => {
                if !matches!(c, Json::Object(_)) {
                    return None;
                }
                match get_member(c, "code") {
                    None => Some(String::new()),
                    Some(Json::Str(s)) => Some(s.clone()),
                    _ => None,
                }
            },
        },
    }
}

fn read_locs(msg: Option<&Json>) -> (r: Option<Vec<SrcLoc>>)
    ensures
        opt_locs_view(r) == message_locs(opt_value(msg)),
{
    match msg {
        None => {
            let v: Vec<SrcLoc> = Vec::new();
            assert(locs_view(v@) =~= seq![]);
            Some(v)
        },
        Some(m) => match get_member(m, "spans") {
            None => {
                let v: Vec<SrcLoc> = Vec::new();
                assert(locs_view(v@) =~= seq![]);
                Some(v)
            },
            Some(Json::Array(items)) => read_spans(items),
            _ => None,
        },
    }
}

/// The record that a structured document describes: none where its `reason`
/// is not `compiler-message`, else the record, or why there is none.
pub fn interpret(doc: &Json) -> (r: Result<Option<CheckResult>, ParseError>)
    ensures
        outcome_view(r) == message_result(*doc),
{
    let is_message = match get_member(doc, "reason") {
        Some(Json::Str(reason)) => same_text(reason.as_str(), "compiler-message"),
        _ => false,
    };
    if !is_message {
        return Ok(None);
    }
    let words = match get_member(doc, "package_id") {
        None => {
            return Err(ParseError::MalformedPackageId);
        },
        Some(Json::Str(p)) => split_package_id(p.as_str()),
        Some(_) => {
            return Err(ParseError::MalformedDiagnostic);
        },
    };
    let (krate, version) = match words {
        None => {
            return Err(ParseError::MalformedPackageId);
        },
        Some(w) => w,
    };
    let msg = get_member(doc, "message");
    if let Some(m) = msg {
        if !matches!(m, Json::Object(_)) {
            return Err(ParseError::MalformedDiagnostic);
        }
    }
    let code = read_code(msg);
    let locs = read_locs(msg);
    match (code, locs) {
        (Some(id), Some(src_locs)) => Ok(Some(CheckResult { krate, version, id, src_locs })),
        _ => Err(ParseError::MalformedDiagnostic),
    }
}

/// Parses one line of the linter's structured output.
pub fn parse_line(line: &str) -> (r: Result<Option<CheckResult>, ParseError>)
    ensures
        outcome_view(r) == line_result(line@),
{
    match parse_json(line) {
        None => Err(ParseError::UnparsableLine),
        Some(doc) => interpret(&doc),
    }
}

/// A span whose five members are present and well formed yields exactly one
/// location when its start and end coincide, and otherwise exactly two: the
/// start, then the end.
pub proof fn lemma_point_or_range(item: Json)
    requires
        span_locs(item) is Some,
        get(item, "file_name"@) is Some,
        get(item, "line_start"@) is Some,
        get(item, "line_end"@) is Some,
        get(item, "column_start"@) is Some,
        get(item, "column_end"@) is Some,
    ensures
        ({
            let locs = span_locs(item).unwrap();
            let file = get(item, "file_name"@).unwrap()->Str_0@;
            let ls = as_u32(get(item, "line_start"@).unwrap()).unwrap();
            let le = as_u32(get(item, "line_end"@).unwrap()).unwrap();
            let cs = as_u32(get(item, "column_start"@).unwrap()).unwrap();
            let ce = as_u32(get(item, "column_end"@).unwrap()).unwrap();
            &&& (ls == le && cs == ce) ==> locs == seq![LocModel { file, line: ls, column: cs }]
            &&& !(ls == le && cs == ce) ==> locs == seq![
                LocModel { file, line: ls, column: cs },
                LocModel { file, line: le, column: ce },
            ]
        }),
{
}

/// A document whose `reason` is not `compiler-message` yields no record and
/// no error.
pub proof fn lemma_other_reason_ignored(doc: Json)
    requires
        !is_compiler_message(doc),
    ensures
        message_result(doc) == Ok::<Option<RecordModel>, ParseError>(None),
{
}

} // verus!
