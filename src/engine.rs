//! The decisions of the event loop: what a key press does to the matcher.

use vstd::prelude::*;
use crate::buffer::rolled;
use crate::keymap::{printable, printable_char, KeyMap};
use crate::matcher::{first_match, Hotstrings};
use crate::table::{table_view, TriggerEntry};

verus! {

/// The character that a key press of `keycode` types under `km`, if it is a
/// printable one.
pub open spec fn typed_char(km: KeyMap, keycode: int) -> Option<char> {
    match km.keysym_spec(keycode) {
        Some(ks) => printable(ks),
        None => None,
    }
}

/// The keyboard mapping together with the hotstring matcher it feeds.
pub struct Engine {
    keymap: KeyMap,
    hotstrings: Hotstrings,
}

impl Engine {
    /// The keyboard mapping.
    pub closed spec fn keys(&self) -> KeyMap {
        self.keymap
    }

    /// The matcher's state.
    pub closed spec fn matcher(&self) -> Hotstrings {
        self.hotstrings
    }

    pub closed spec fn wf(&self) -> bool {
        self.hotstrings.wf()
    }

    /// An engine over `keymap` and `table`, with nothing typed yet.
    pub fn new(keymap: KeyMap, table: Vec<TriggerEntry>) -> (r: Engine)
        ensures
            r.wf(),
            r.keys() == keymap,
            r.matcher().table() == table_view(table@),
            r.matcher().buffer() == Seq::<char>::empty(),
    {
        Engine { keymap, hotstrings: Hotstrings::new(table) }
    }

    /// The keyboard mapping.
    pub fn keymap(&self) -> (r: &KeyMap)
        ensures
            *r == self.keys(),
    {
        &self.keymap
    }

    /// Handles a key press of `keycode`: a printable character is observed by
    /// the matcher and its report returned; any other key is ignored.
    pub fn on_key_press(&mut self, keycode: u32) -> (r: Option<TriggerEntry>)
        requires
            old(self).wf(),
        ensures
            final(self).wf(),
            final(self).keys() == old(self).keys(),
            final(self).matcher().table() == old(self).matcher().table(),
            match typed_char(old(self).keys(), keycode as int) {
                Some(c) => {
                    &&& final(self).matcher().buffer() == rolled(old(self).matcher().buffer(), c)
                    &&& match first_match(final(self).matcher().buffer(), final(self).matcher().table()) {
                        Some(i) => r is Some && r->0.view_pair() == final(self).matcher().table()[i],
                        None => r is None,
                    }
                },
                None => final(self).matcher().buffer() == old(self).matcher().buffer() && r is None,
            },
    {
        let c = match self.keymap.keysym_of(keycode) {
            Some(ks) => printable_char(ks),
            None => None,
        };
        match c {
            Some(c) => self.hotstrings.observe(c),
            None => None,
        }
    }
}

} // verus!
