//! The keyboard mapping read from the windowing system: the keysyms of each
//! keycode, resolved in both directions, and the choice of keyboard device.

use vstd::prelude::*;
use vstd::string::*;

verus! {

/// Lowest keysym of a printable character (space).
pub const FIRST_PRINTABLE: u32 = 32;

/// Highest keysym of a printable character (tilde).
pub const LAST_PRINTABLE: u32 = 126;

/// The keysym that `keycode` has in the table `syms` laid out with `per`
/// keysyms for each keycode from `min` on: the first of its group.
pub open spec fn keysym_at(syms: Seq<u32>, per: u8, min: u8, keycode: int) -> Option<u32> {
    let idx = (keycode - min) * per;
    if keycode < min || idx >= syms.len() {
        None
    } else {
        Some(syms[idx])
    }
}

/// The character that a keysym in the printable ASCII range stands for.
pub open spec fn printable(keysym: u32) -> Option<char> {
    if FIRST_PRINTABLE <= keysym <= LAST_PRINTABLE {
        Some(keysym as u8 as char)
    } else {
        None
    }
}

/// `s` holds `p` as a contiguous run starting at `i`.
pub open spec fn occurs_at(s: Seq<char>, p: Seq<char>, i: int) -> bool {
    0 <= i && i + p.len() <= s.len() && s.subrange(i, i + p.len()) == p
}

/// `s` holds `p` as a contiguous run.
pub open spec fn contains(s: Seq<char>, p: Seq<char>) -> bool {
    exists|i: int| occurs_at(s, p, i)
}

/// The keyboard mapping: `keysyms_per_keycode` keysyms for each keycode from
/// `min_keycode` on.
#[derive(Debug, Clone)]
pub struct KeyMap {
    pub keysyms: Vec<u32>,
    pub keysyms_per_keycode: u8,
    pub min_keycode: u8,
}

impl KeyMap {
    /// The keysym of `keycode`, or none when the keycode lies outside the
    /// table.
    pub open spec fn keysym_spec(&self, keycode: int) -> Option<u32> {
        keysym_at(self.keysyms@, self.keysyms_per_keycode, self.min_keycode, keycode)
    }

    /// Looks up the keysym of `keycode`.
    pub fn keysym_of(&self, keycode: u32) -> (r: Option<u32>)
        ensures
            r == self.keysym_spec(keycode as int),
    {
        if keycode < self.min_keycode as u32 {
            return None;
        }
        let offset: u64 = (keycode - self.min_keycode as u32) as u64;
        let per: u64 = self.keysyms_per_keycode as u64;
        assert(offset * per <= 0xffff_ffffu64 * 0xffu64) by (nonlinear_arith)
            requires
                offset <= 0xffff_ffffu64,
                per <= 0xffu64,
        ;
        let idx: u64 = offset * per;
        if idx >= self.keysyms.len() as u64 {
            return None;
        }
        Some(self.keysyms[idx as usize])
    }

    /// Finds the lowest keycode whose keysym is the code of `c`; none when
    /// no keycode has it.
    pub fn keycode_for(&self, c: char) -> (r: Option<u8>)
        ensures
            match r {
                Some(k) => self.keysym_spec(k as int) == Some(c as u32) && forall|j: int|
                    0 <= j < k ==> #[trigger] self.keysym_spec(j) != Some(c as u32),
                None => forall|j: int|
                    0 <= j < 256 ==> #[trigger] self.keysym_spec(j) != Some(c as u32),
            },
    {
        let target: u32 = c as u32;
        let mut k: u32 = 0;
        while k < 256
            invariant
                target == c as u32,
                k <= 256,
                forall|j: int| 0 <= j < k ==> #[trigger] self.keysym_spec(j) != Some(target),
            decreases 256 - k,
        {
            if let Some(s) = self.keysym_of(k) {
                if s == target {
                    let kk: u8 = k as u8;
                    assert(kk as int == k as int);
                    assert forall|j: int| 0 <= j < kk implies #[trigger] self.keysym_spec(j) != Some(
                        c as u32,
                    ) by {
                        assert(j < k);
                    }
                    return Some(k as u8);
                }
            }
            k = k + 1;
        }
        None
    }
}

/// The printable character that a keysym stands for, if it is one.
pub fn printable_char(keysym: u32) -> (r: Option<char>)
    ensures
        r == printable(keysym),
{
    if FIRST_PRINTABLE <= keysym && keysym <= LAST_PRINTABLE {
        Some(keysym as u8 as char)
    } else {
        None
    }
}

/// Whether `p` occurs in `s`.
fn str_contains(s: &str, p: &str) -> (r: bool)
    ensures
        r == contains(s@, p@),
{
    let n = s.unicode_len();
    let m = p.unicode_len();
    if m > n {
        return false;
    }
    if m == 0 {
        assert(s@.subrange(0, 0) =~= p@);
        assert(occurs_at(s@, p@, 0));
        return true;
    }
    let mut i: usize = 0;
    while i <= n - m
        invariant
            n == s@.len(),
            m == p@.len(),
            0 < m <= n,
            i <= n - m + 1,
            forall|k: int| 0 <= k < i ==> !#[trigger] occurs_at(s@, p@, k),
        decreases n - m + 1 - i,
    {
        let mut j: usize = 0;
        let mut same = true;
        while j < m
            invariant
                n == s@.len(),
                m == p@.len(),
                i + m <= n,
                j <= m,
                same ==> forall|q: int| 0 <= q < j ==> s@[i + q] == p@[q],
                !same ==> !occurs_at(s@, p@, i as int),
            decreases m - j,
        {
            if same && s.get_char(i + j) != p.get_char(j) {
                same = false;
                assert(s@.subrange(i as int, i + m)[j as int] != p@[j as int]);
            }
            j = j + 1;
        }
        if same {
            assert(s@.subrange(i as int, i + m) =~= p@);
            assert(occurs_at(s@, p@, i as int));
            return true;
        }
        i = i + 1;
    }
    assert forall|k: int| !occurs_at(s@, p@, k) by {
        if 0 <= k && k + m <= n {
            assert(k < i);
        }
    }
    false
}

/// The index of the first device whose name contains `marker`.
pub fn find_device(names: &Vec<String>, marker: &str) -> (r: Option<usize>)
    ensures
        match r {
            Some(i) => i < names@.len() && contains(names@[i as int]@, marker@) && forall|j: int|
                0 <= j < i ==> !contains(#[trigger] names@[j]@, marker@),
            None => forall|j: int| 0 <= j < names@.len() ==> !contains(#[trigger] names@[j]@, marker@),
        },
{
    let mut i: usize = 0;
    while i < names.len()
        invariant
            i <= names@.len(),
            forall|j: int| 0 <= j < i ==> !contains(#[trigger] names@[j]@, marker@),
        decreases names@.len() - i,
    {
        if str_contains(names[i].as_str(), marker) {
            return Some(i);
        }
        i = i + 1;
    }
    None
}

} // verus!
