//! The rolling buffer of recently typed printable characters.

use vstd::prelude::*;

verus! {

/// How many characters the buffer keeps.
pub const CAPACITY: usize = 30;

/// The buffer `b` after `c` is appended, the oldest character being dropped
/// when the buffer was already full.
pub open spec fn rolled(b: Seq<char>, c: char) -> Seq<char> {
    if b.len() >= CAPACITY {
        b.subrange(b.len() - (CAPACITY - 1), b.len() as int).push(c)
    } else {
        b.push(c)
    }
}

/// The last `CAPACITY` characters of `s` (all of them if there are fewer).
pub open spec fn tail_of(s: Seq<char>) -> Seq<char> {
    if s.len() > CAPACITY {
        s.subrange(s.len() - CAPACITY, s.len() as int)
    } else {
        s
    }
}

/// What the buffer holds after each character of `typed` was observed in
/// turn, starting from the contents `start`.
pub open spec fn after_typing(start: Seq<char>, typed: Seq<char>) -> Seq<char>
    decreases typed.len(),
{
    if typed.len() == 0 {
        start
    } else {
        rolled(after_typing(start, typed.drop_last()), typed.last())
    }
}

/// A bounded sequence of the most recently observed characters, oldest first.
pub struct RollingBuffer {
    chars: Vec<char>,
}

impl View for RollingBuffer {
    type V = Seq<char>;

    closed spec fn view(&self) -> Seq<char> {
        self.chars@
    }
}

impl RollingBuffer {
    /// The buffer never holds more than `CAPACITY` characters.
    pub open spec fn wf(&self) -> bool {
        self@.len() <= CAPACITY
    }

    pub fn new() -> (r: RollingBuffer)
        ensures
            r.wf(),
            r@ == Seq::<char>::empty(),
    {
        RollingBuffer { chars: Vec::new() }
    }

    pub fn len(&self) -> (r: usize)
        ensures
            r == self@.len(),
    {
        self.chars.len()
    }

    /// The character at position `i`, counted from the oldest.
    pub fn get(&self, i: usize) -> (c: char)
        requires
            i < self@.len(),
        ensures
            c == self@[i as int],
    {
        self.chars[i]
    }

    /// Appends `c`, first dropping the oldest character if the buffer is full.
    pub fn push(&mut self, c: char)
        requires
            old(self).wf(),
        ensures
            final(self).wf(),
            final(self)@ == rolled(old(self)@, c),
    {
        if self.chars.len() >= CAPACITY {
            self.chars.remove(0);
        }
        self.chars.push(c);
        proof {
            let b = old(self)@;
            if b.len() >= CAPACITY {
                assert(b.subrange(1, b.len() as int) =~= b.subrange(
                    b.len() - (CAPACITY - 1),
                    b.len() as int,
                ));
            }
        }
    }
}

/// A full buffer holds exactly the last `CAPACITY` characters typed, and
/// anything typed before them is gone: the buffer after typing `typed` from
/// empty is the tail of `typed`.
pub proof fn lemma_keeps_last_typed(typed: Seq<char>)
    ensures
        after_typing(Seq::empty(), typed) == tail_of(typed),
    decreases typed.len(),
{
    if typed.len() > 0 {
        let prev = typed.drop_last();
        lemma_keeps_last_typed(prev);
        let t = tail_of(prev);
        let n = typed.len();
        if prev.len() >= CAPACITY {
            assert(t.subrange(t.len() - (CAPACITY - 1), t.len() as int).push(typed.last())
                =~= typed.subrange(n - CAPACITY, n as int));
        } else {
            assert(prev.push(typed.last()) =~= typed);
        }
    } else {
        assert(tail_of(typed) =~= typed);
    }
}

} // verus!
