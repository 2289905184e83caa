//! The trigger table and the parsing of mapping lines `<trigger>::<expansion>`.

use vstd::prelude::*;
use vstd::string::*;

verus! {

/// One hotstring: typing `trigger` replaces it with `expansion`.
#[derive(Debug, Clone, PartialEq, Eq)]
pub struct TriggerEntry {
    pub trigger: String,
    pub expansion: String,
}

impl TriggerEntry {
    /// The entry as a pair of character sequences.
    pub open spec fn view_pair(&self) -> (Seq<char>, Seq<char>) {
        (self.trigger@, self.expansion@)
    }
}

/// The table as pairs of character sequences, in order.
pub open spec fn table_view(t: Seq<TriggerEntry>) -> Seq<(Seq<char>, Seq<char>)> {
    t.map_values(|e: TriggerEntry| e.view_pair())
}

/// The delimiter `::` starts at position `i` of `s`.
pub open spec fn delim_at(s: Seq<char>, i: int) -> bool {
    0 <= i && i + 1 < s.len() && s[i] == ':' && s[i + 1] == ':'
}

/// The first position at or after `from` where the delimiter starts, if any.
pub open spec fn first_delim_from(s: Seq<char>, from: int) -> Option<int>
    decreases s.len() - from,
{
    if from < 0 || from + 1 >= s.len() {
        None
    } else if delim_at(s, from) {
        Some(from)
    } else {
        first_delim_from(s, from + 1)
    }
}

/// The entry that a line gives: what precedes the first `::` and what
/// follows it; none for a line without the delimiter.
pub open spec fn line_entry(s: Seq<char>) -> Option<(Seq<char>, Seq<char>)> {
    match first_delim_from(s, 0) {
        Some(d) => Some((s.subrange(0, d), s.subrange(d + 2, s.len() as int))),
        None => None,
    }
}

/// The table that a sequence of lines gives, in line order.
pub open spec fn table_of(lines: Seq<Seq<char>>) -> Seq<(Seq<char>, Seq<char>)>
    decreases lines.len(),
{
    if lines.len() == 0 {
        Seq::empty()
    } else {
        let prev = table_of(lines.drop_last());
        match line_entry(lines.last()) {
            Some(e) => prev.push(e),
            None => prev,
        }
    }
}

/// Splits `line` at its first `::`: the text before becomes the trigger, the
/// text after (which may hold `::` itself) the expansion. A line without
/// `::` gives no entry.
pub fn parse_line(line: &str) -> (r: Option<TriggerEntry>)
    ensures
        match r {
            Some(e) => line_entry(line@) == Some(e.view_pair()),
            None => line_entry(line@) is None,
        },
{
    let n = line.unicode_len();
    let mut i: usize = 0;
    while n > 1 && i < n - 1
        invariant
            n == line@.len(),
            i <= n,
            first_delim_from(line@, 0) == first_delim_from(line@, i as int),
        decreases n - i,
    {
        if line.get_char(i) == ':' && line.get_char(i + 1) == ':' {
            let trigger = String::from_str(line.substring_char(0, i));
            let expansion = String::from_str(line.substring_char(i + 2, n));
            return Some(TriggerEntry { trigger, expansion });
        }
        i = i + 1;
    }
    None
}

/// Parses each line in order, keeping the entries of the lines that hold the
/// delimiter.
pub fn parse_lines(lines: &Vec<String>) -> (r: Vec<TriggerEntry>)
    ensures
        table_view(r@) == table_of(lines@.map_values(|l: String| l@)),
{
    let ghost ls = lines@.map_values(|l: String| l@);
    let mut r: Vec<TriggerEntry> = Vec::new();
    let mut k: usize = 0;
    while k < lines.len()
        invariant
            k <= lines@.len(),
            ls == lines@.map_values(|l: String| l@),
            table_view(r@) == table_of(ls.subrange(0, k as int)),
        decreases lines@.len() - k,
    {
        let entry = parse_line(lines[k].as_str());
        proof {
            assert(ls.subrange(0, k + 1).drop_last() =~= ls.subrange(0, k as int));
            assert(ls.subrange(0, k + 1).last() == lines@[k as int]@);
        }
        match entry {
            Some(e) => {
                let ghost prev = r@;
                let ghost pair = e.view_pair();
                r.push(e);
                assert(table_view(r@) =~= table_view(prev).push(pair));
            },
            None => {},
        }
        k = k + 1;
    }
    assert(ls.subrange(0, k as int) =~= ls);
    r
}

} // verus!
