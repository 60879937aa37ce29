//! Reading one stdout line of the downloader.
use vstd::prelude::*;
use vstd::string::*;
use crate::text::{
    chars_of, find, find_from, parse_decimal_floor, parse_uint, skip_lead, skip_trail,
    strip_range, uint_of, decimal_floor_of,
};

verus! {

/// Counters reported by one progress-template line.
#[derive(Clone, Copy, Debug)]
pub struct ProgressUpdate {
    pub downloaded: u64,
    pub total: u64,
    /// Bytes per second, integer part.
    pub speed: Option<u64>,
    /// Seconds left.
    pub eta: Option<u64>,
}

/// What a stdout line means to the supervisor.
#[derive(Debug)]
pub enum LineEvent {
    /// The artifact path became known.
    SetDestination(String),
    /// The merger started; it names the merged artifact when the line does.
    BeginMerging(Option<String>),
    Progress(ProgressUpdate),
    Ignore,
}

/// Abstract form of a [`LineEvent`], with texts as character sequences.
pub enum LineShape {
    SetDestination(Seq<char>),
    BeginMerging(Option<Seq<char>>),
    Progress(ProgressUpdate),
    Ignore,
}

impl View for LineEvent {
    type V = LineShape;

    open spec fn view(&self) -> LineShape {
        match self {
            LineEvent::SetDestination(p) => LineShape::SetDestination(p@),
            LineEvent::BeginMerging(p) => LineShape::BeginMerging(
                match p {
                    Some(q) => Some(q@),
                    None => None,
                },
            ),
            LineEvent::Progress(u) => LineShape::Progress(*u),
            LineEvent::Ignore => LineShape::Ignore,
        }
    }
}

/// The marker of a destination line.
pub open spec fn destination_marker() -> Seq<char> {
    "[download] Destination: "@
}

/// The marker of a merger line.
pub open spec fn merger_marker() -> Seq<char> {
    "[Merger] Merging formats into "@
}

pub open spec fn download_tag() -> Seq<char> {
    "[download]"@
}

pub open spec fn already_marker() -> Seq<char> {
    "has already been downloaded"@
}

pub open spec fn pipe() -> Seq<char> {
    seq!['|']
}

/// `[lo, hi)` of `s` with whitespace trimmed and then, when `quotes`,
/// surrounding `"` characters stripped.
pub open spec fn cleaned(s: Seq<char>, lo: int, hi: int, quotes: bool) -> Seq<char> {
    let a = skip_lead(s, false, lo, hi);
    let b = skip_trail(s, false, a, hi);
    if quotes {
        let c = skip_lead(s, true, a, b);
        s.subrange(c, skip_trail(s, true, c, b))
    } else {
        s.subrange(a, b)
    }
}

/// Integer field `[lo, hi)` after trimming; missing or not a number reads as 0.
pub open spec fn count_field(s: Seq<char>, lo: int, hi: int) -> u64 {
    let a = skip_lead(s, false, lo, hi);
    match uint_of(s, a, skip_trail(s, false, a, hi)) {
        Some(v) => v,
        None => 0,
    }
}

/// Optional integer field `[lo, hi)` after trimming.
pub open spec fn opt_uint_field(s: Seq<char>, lo: int, hi: int) -> Option<u64> {
    let a = skip_lead(s, false, lo, hi);
    uint_of(s, a, skip_trail(s, false, a, hi))
}

/// Optional decimal field `[lo, hi)` after trimming, read down to its integer part.
pub open spec fn opt_decimal_field(s: Seq<char>, lo: int, hi: int) -> Option<u64> {
    let a = skip_lead(s, false, lo, hi);
    decimal_floor_of(s, a, skip_trail(s, false, a, hi))
}

/// A line of exactly four `|`-separated fields:
/// downloaded, total, speed and eta.
pub open spec fn progress_shape(s: Seq<char>) -> LineShape {
    let p1 = find_from(s, pipe(), 0);
    let p2 = find_from(s, pipe(), p1 + 1);
    let p3 = find_from(s, pipe(), p2 + 1);
    if p1 >= 0 && p2 >= 0 && p3 >= 0 && find_from(s, pipe(), p3 + 1) < 0 {
        LineShape::Progress(
            ProgressUpdate {
                downloaded: count_field(s, 0, p1),
                total: count_field(s, p1 + 1, p2),
                speed: opt_decimal_field(s, p2 + 1, p3),
                eta: opt_uint_field(s, p3 + 1, s.len() as int),
            },
        )
    } else {
        LineShape::Ignore
    }
}

/// Meaning of a line, markers tried in order: destination, merger,
/// already downloaded, then the progress template.
pub open spec fn line_shape(s: Seq<char>) -> LineShape {
    let d = find_from(s, destination_marker(), 0);
    let m = find_from(s, merger_marker(), 0);
    let a = find_from(s, download_tag(), 0);
    let b = find_from(s, already_marker(), a + download_tag().len());
    if d >= 0 {
        let p = cleaned(s, d + destination_marker().len(), s.len() as int, false);
        if p.len() > 0 {
            LineShape::SetDestination(p)
        } else {
            LineShape::Ignore
        }
    } else if m >= 0 {
        let p = cleaned(s, m + merger_marker().len(), s.len() as int, true);
        LineShape::BeginMerging(
            if p.len() > 0 {
                Some(p)
            } else {
                None
            },
        )
    } else if a >= 0 && b >= 0 {
        let p = cleaned(s, a + download_tag().len(), b, true);
        if p.len() > 0 {
            LineShape::SetDestination(p)
        } else {
            LineShape::Ignore
        }
    } else {
        progress_shape(s)
    }
}

/// Bounds of `cleaned(s, lo, hi, quotes)` within `s`.
fn clean_bounds(s: &Vec<char>, lo: usize, hi: usize, quotes: bool) -> (r: (usize, usize))
    requires
        lo <= hi <= s@.len(),
    ensures
        r.0 <= r.1 <= s@.len(),
        s@.subrange(r.0 as int, r.1 as int) == cleaned(s@, lo as int, hi as int, quotes),
{
    let (a, b) = strip_range(s, false, lo, hi);
    if quotes {
        strip_range(s, true, a, b)
    } else {
        (a, b)
    }
}

/// The text `line[lo, hi)` as an owned string.
fn text_between(line: &str, lo: usize, hi: usize) -> (r: String)
    requires
        lo <= hi <= line@.len(),
    ensures
        r@ == line@.subrange(lo as int, hi as int),
{
    String::from_str(line.substring_char(lo, hi))
}

fn progress_line(line: &str, s: &Vec<char>, bar: &Vec<char>) -> (r: LineEvent)
    requires
        s@ == line@,
        bar@ == pipe(),
    ensures
        r@ == progress_shape(line@),
{
    let n = s.len();
    assert(bar@.len() == 1);
    let p1 = match find(s, bar, 0) {
        Some(p) => p,
        None => return LineEvent::Ignore,
    };
    let p2 = match find(s, bar, p1 + 1) {
        Some(p) => p,
        None => return LineEvent::Ignore,
    };
    let p3 = match find(s, bar, p2 + 1) {
        Some(p) => p,
        None => return LineEvent::Ignore,
    };
    if find(s, bar, p3 + 1).is_some() {
        return LineEvent::Ignore;
    }
    let (a, b) = strip_range(s, false, 0, p1);
    let downloaded = match parse_uint(s, a, b) {
        Some(v) => v,
        None => 0,
    };
    let (a, b) = strip_range(s, false, p1 + 1, p2);
    let total = match parse_uint(s, a, b) {
        Some(v) => v,
        None => 0,
    };
    let (a, b) = strip_range(s, false, p2 + 1, p3);
    let speed = parse_decimal_floor(s, a, b);
    let (a, b) = strip_range(s, false, p3 + 1, s.len());
    let eta = parse_uint(s, a, b);
    LineEvent::Progress(ProgressUpdate { downloaded, total, speed, eta })
}

/// Classifies one stdout line of the downloader.
pub fn parse_line(line: &str) -> (r: LineEvent)
    ensures
        r@ == line_shape(line@),
{
    let s = chars_of(line);
    let dest = chars_of("[download] Destination: ");
    let merger = chars_of("[Merger] Merging formats into ");
    let tag = chars_of("[download]");
    let already = chars_of("has already been downloaded");
    let bar = chars_of("|");
    proof {
        reveal_strlit("|");
        assert(bar@ =~= pipe());
        assert(bar@.len() == 1);
    }
    if let Some(d) = find(&s, &dest, 0) {
        let (a, b) = clean_bounds(&s, d + dest.len(), s.len(), false);
        if a < b {
            return LineEvent::SetDestination(text_between(line, a, b));
        }
        return LineEvent::Ignore;
    }
    if let Some(m) = find(&s, &merger, 0) {
        let (a, b) = clean_bounds(&s, m + merger.len(), s.len(), true);
        if a < b {
            return LineEvent::BeginMerging(Some(text_between(line, a, b)));
        }
        return LineEvent::BeginMerging(None);
    }
    if let Some(a0) = find(&s, &tag, 0) {
        if let Some(b0) = find(&s, &already, a0 + tag.len()) {
            let (a, b) = clean_bounds(&s, a0 + tag.len(), b0, true);
            if a < b {
                return LineEvent::SetDestination(text_between(line, a, b));
            }
            return LineEvent::Ignore;
        }
    }
    progress_line(line, &s, &bar)
}

} // verus!
