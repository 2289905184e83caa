//! The hotstring matcher: observes typed characters and reports the first
//! trigger of the table that the buffer ends with.

use vstd::prelude::*;
use vstd::string::*;
use crate::buffer::{rolled, RollingBuffer};
use crate::table::{table_view, TriggerEntry};

verus! {

/// `b` ends with exactly the characters of `t`.
pub open spec fn ends_with(b: Seq<char>, t: Seq<char>) -> bool {
    t.len() <= b.len() && b.subrange(b.len() - t.len(), b.len() as int) == t
}

/// The first index at or after `k` whose trigger `b` ends with, if any.
pub open spec fn first_match_from(
    b: Seq<char>,
    tab: Seq<(Seq<char>, Seq<char>)>,
    k: int,
) -> Option<int>
    decreases tab.len() - k,
{
    if k < 0 || k >= tab.len() {
        None
    } else if ends_with(b, tab[k].0) {
        Some(k)
    } else {
        first_match_from(b, tab, k + 1)
    }
}

/// The index of the earliest entry of `tab` whose trigger `b` ends with.
pub open spec fn first_match(b: Seq<char>, tab: Seq<(Seq<char>, Seq<char>)>) -> Option<int> {
    first_match_from(b, tab, 0)
}

/// What `first_match_from` finds: a matching entry with no matching entry
/// between `k` and it, or the absence of any matching entry from `k` on.
pub proof fn lemma_first_match_from(b: Seq<char>, tab: Seq<(Seq<char>, Seq<char>)>, k: int)
    requires
        0 <= k,
    ensures
        match first_match_from(b, tab, k) {
            Some(m) => k <= m < tab.len() && ends_with(b, tab[m].0) && forall|j: int|
                k <= j < m ==> !ends_with(b, #[trigger] tab[j].0),
            None => forall|j: int| k <= j < tab.len() ==> !ends_with(b, #[trigger] tab[j].0),
        },
    decreases tab.len() - k,
{
    if k < tab.len() && !ends_with(b, tab[k].0) {
        lemma_first_match_from(b, tab, k + 1);
    }
}

/// Of two entries that both match the buffer, the later one is never the one
/// reported: the report is the earlier one or an entry before it.
pub proof fn lemma_earlier_entry_wins(
    b: Seq<char>,
    tab: Seq<(Seq<char>, Seq<char>)>,
    i: int,
    j: int,
)
    requires
        0 <= i < j < tab.len(),
        ends_with(b, tab[i].0),
        ends_with(b, tab[j].0),
    ensures
        first_match(b, tab) is Some,
        first_match(b, tab)->0 <= i,
        first_match(b, tab) != Some(j),
{
    lemma_first_match_from(b, tab, 0);
}

/// When no entry before `i` matches and entry `i` does, entry `i` is the
/// one reported.
pub proof fn lemma_first_listed_match(b: Seq<char>, tab: Seq<(Seq<char>, Seq<char>)>, i: int)
    requires
        0 <= i < tab.len(),
        ends_with(b, tab[i].0),
        forall|k: int| 0 <= k < i ==> !ends_with(b, #[trigger] tab[k].0),
    ensures
        first_match(b, tab) == Some(i),
{
    lemma_first_match_from(b, tab, 0);
}

/// Whether the buffer ends with the characters of `t`.
fn buffer_ends_with(buf: &RollingBuffer, t: &str) -> (r: bool)
    ensures
        r == ends_with(buf@, t@),
{
    let n = t.unicode_len();
    let blen = buf.len();
    if n > blen {
        return false;
    }
    let start = blen - n;
    let mut i: usize = 0;
    while i < n
        invariant
            n == t@.len(),
            blen == buf@.len(),
            start + n == blen,
            i <= n,
            forall|k: int| 0 <= k < i ==> buf@[start + k] == t@[k],
        decreases n - i,
    {
        if buf.get(start + i) != t.get_char(i) {
            return false;
        }
        i = i + 1;
    }
    assert(buf@.subrange(start as int, blen as int) =~= t@);
    true
}

/// The trigger table together with the rolling buffer it is matched against.
pub struct Hotstrings {
    table: Vec<TriggerEntry>,
    buffer: RollingBuffer,
}

impl Hotstrings {
    /// The table, as pairs of character sequences in load order.
    pub closed spec fn table(&self) -> Seq<(Seq<char>, Seq<char>)> {
        table_view(self.table@)
    }

    /// The characters in the buffer, oldest first.
    pub closed spec fn buffer(&self) -> Seq<char> {
        self.buffer@
    }

    pub closed spec fn wf(&self) -> bool {
        self.buffer.wf()
    }

    /// A matcher over `table` with an empty buffer.
    pub fn new(table: Vec<TriggerEntry>) -> (r: Hotstrings)
        ensures
            r.wf(),
            r.table() == table_view(table@),
            r.buffer() == Seq::<char>::empty(),
    {
        Hotstrings { table, buffer: RollingBuffer::new() }
    }

    /// The number of entries in the table.
    pub fn len(&self) -> (r: usize)
        ensures
            r == self.table().len(),
    {
        self.table.len()
    }

    /// The characters in the buffer, oldest first.
    pub fn buffer_chars(&self) -> (r: Vec<char>)
        ensures
            r@ == self.buffer(),
    {
        let mut r: Vec<char> = Vec::new();
        let mut i: usize = 0;
        while i < self.buffer.len()
            invariant
                i <= self.buffer@.len(),
                r@ == self.buffer@.subrange(0, i as int),
            decreases self.buffer@.len() - i,
        {
            r.push(self.buffer.get(i));
            i = i + 1;
            assert(r@ =~= self.buffer@.subrange(0, i as int));
        }
        assert(r@ =~= self.buffer@);
        r
    }

    /// Index of the first entry whose trigger the buffer ends with.
    fn find_match(&self) -> (r: Option<usize>)
        ensures
            match r {
                Some(i) => first_match(self.buffer(), self.table()) == Some(i as int),
                None => first_match(self.buffer(), self.table()) is None,
            },
    {
        let ghost tab = self.table();
        let ghost b = self.buffer();
        let mut k: usize = 0;
        while k < self.table.len()
            invariant
                k <= self.table@.len(),
                tab == table_view(self.table@),
                b == self.buffer@,
                first_match(b, tab) == first_match_from(b, tab, k as int),
            decreases self.table@.len() - k,
        {
            if buffer_ends_with(&self.buffer, self.table[k].trigger.as_str()) {
                return Some(k);
            }
            k = k + 1;
        }
        None
    }

    /// Appends `c` to the buffer (dropping the oldest character when it is
    /// full) and reports the earliest entry of the table whose trigger the
    /// buffer now ends with. The buffer is left as it is after the append,
    /// match or not.
    pub fn observe(&mut self, c: char) -> (r: Option<TriggerEntry>)
        requires
            old(self).wf(),
        ensures
            final(self).wf(),
            final(self).table() == old(self).table(),
            final(self).buffer() == rolled(old(self).buffer(), c),
            match first_match(final(self).buffer(), final(self).table()) {
                Some(i) => r is Some && r->0.view_pair() == final(self).table()[i],
                None => r is None,
            },
            (r is Some) <==> exists|i: int|
                0 <= i < final(self).table().len() && ends_with(
                    final(self).buffer(),
                    #[trigger] final(self).table()[i].0,
                ),
            r is Some ==> ends_with(final(self).buffer(), r->0.trigger@),
    {
        self.buffer.push(c);
        let found = self.find_match();
        proof {
            lemma_first_match_from(self.buffer(), self.table(), 0);
        }
        match found {
            Some(i) => {
                let e = &self.table[i];
                Some(TriggerEntry { trigger: e.trigger.clone(), expansion: e.expansion.clone() })
            },
            None => None,
        }
    }
}

} // verus!
