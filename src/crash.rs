//! Detection of the markers that the linter prints when it crashes, on
//! either output channel, line by line.

use vstd::prelude::*;
use crate::text::{has_prefix, lines_of, split_lines, starts_with, texts_view};

verus! {

/// An output channel of the linter.
#[derive(PartialEq, Eq, Structural, Clone, Copy, Debug)]
pub enum Channel {
    Stdout,
    Stderr,
}

/// A line that shows the linter crashed, with the channel it came on.
pub struct CrashSignal {
    pub channel: Channel,
    pub raw_line: String,
}

impl View for CrashSignal {
    type V = (Channel, Seq<char>);

    open spec fn view(&self) -> (Channel, Seq<char>) {
        (self.channel, self.raw_line@)
    }
}

/// The models of a sequence of crash signals.
pub open spec fn signals_view(v: Seq<CrashSignal>) -> Seq<(Channel, Seq<char>)> {
    v.map_values(|c: CrashSignal| c@)
}

/// Whether a line begins with one of the two crash markers.
pub open spec fn is_crash_marker(line: Seq<char>) -> bool {
    has_prefix(line, "error: internal compiler error:"@) || has_prefix(
        line,
        "query stack during panic:"@,
    )
}

/// The crash signals of a channel's lines: each line with a marker, in order,
/// repeats included.
pub open spec fn signals_of(channel: Channel, lines: Seq<Seq<char>>) -> Seq<(Channel, Seq<char>)>
    decreases lines.len(),
{
    if lines.len() == 0 {
        seq![]
    } else if is_crash_marker(lines.last()) {
        signals_of(channel, lines.drop_last()).push((channel, lines.last()))
    } else {
        signals_of(channel, lines.drop_last())
    }
}

/// Whether a line begins with one of the two crash markers.
pub fn is_crash_line(line: &str) -> (r: bool)
    ensures
        r == is_crash_marker(line@),
{
    starts_with(line, "error: internal compiler error:") || starts_with(
        line,
        "query stack during panic:",
    )
}

/// The crash signals among lines of one channel.
pub fn crash_signals_in(channel: Channel, lines: &Vec<String>) -> (r: Vec<CrashSignal>)
    ensures
        signals_view(r@) == signals_of(channel, texts_view(lines@)),
{
    let ghost all = texts_view(lines@);
    let mut out: Vec<CrashSignal> = Vec::new();
    let mut i: usize = 0;
    while i < lines.len()
        invariant
            i <= lines@.len(),
            all == texts_view(lines@),
            signals_view(out@) == signals_of(channel, all.subrange(0, i as int)),
        decreases lines@.len() - i,
    {
        let ghost post = all.subrange(0, i as int + 1);
        proof {
            assert(post.drop_last() =~= all.subrange(0, i as int));
            assert(post.last() == lines@[i as int]@);
        }
        if is_crash_line(lines[i].as_str()) {
            let ghost before = out@;
            out.push(CrashSignal { channel, raw_line: lines[i].clone() });
            assert(signals_view(out@) =~= signals_view(before).push((channel, lines@[i as int]@)));
        }
        i = i + 1;
    }
    assert(all.subrange(0, i as int) =~= all);
    out
}

/// The crash signals in the text of one channel.
pub fn crash_signals(channel: Channel, text: &str) -> (r: Vec<CrashSignal>)
    ensures
        signals_view(r@) == signals_of(channel, lines_of(text@)),
{
    let lines = split_lines(text);
    crash_signals_in(channel, &lines)
}

impl CrashSignal {
    /// The signal's log line: the raw line after an `ERROR:` tag.
    pub fn pretty(&self) -> (r: String)
        ensures
            r@ == "ERROR:   "@ + self.raw_line@,
    {
        let mut s = String::from_str("ERROR:   ");
        s.append(self.raw_line.as_str());
        s
    }
}

} // verus!
