//! The replacement executor: the actions that delete a typed trigger and put
//! its expansion in its place, by clipboard paste or by typing each character.

use vstd::prelude::*;
use vstd::string::*;
use crate::keymap::{printable, KeyMap};
use crate::matcher::ends_with;
use crate::table::TriggerEntry;

verus! {

/// How long the target application is given to read a pasted clipboard
/// before the old contents are put back, in milliseconds.
pub const SETTLE_MS: u64 = 100;

/// Keycode of the key that deletes the previous character.
pub const BACKSPACE: u8 = 22;

/// Keycode of the control modifier.
pub const CONTROL: u8 = 37;

/// Keycode of the `v` key.
pub const V: u8 = 55;

/// Event type of a synthetic key press.
pub const KEY_PRESS: u8 = 2;

/// Event type of a synthetic key release.
pub const KEY_RELEASE: u8 = 3;

/// One step of a replacement, carried out by the caller in order.
#[derive(Debug, Clone, PartialEq, Eq)]
pub enum Action {
    /// Delete the character before the cursor.
    DeletePrevious,
    /// Replace the clipboard's contents with the text.
    SetClipboard(String),
    /// Press the paste key combination.
    Paste,
    /// Press and release the key with this keycode.
    Tap(u8),
    /// Send every pending event to the windowing system.
    Flush,
    /// Wait this many milliseconds.
    Settle(u64),
}

/// An action as a mathematical value.
pub enum Step {
    DeletePrevious,
    SetClipboard(Seq<char>),
    Paste,
    Tap(u8),
    Flush,
    Settle(u64),
}

impl View for Action {
    type V = Step;

    open spec fn view(&self) -> Step {
        match self {
            Action::DeletePrevious => Step::DeletePrevious,
            Action::SetClipboard(s) => Step::SetClipboard(s@),
            Action::Paste => Step::Paste,
            Action::Tap(k) => Step::Tap(*k),
            Action::Flush => Step::Flush,
            Action::Settle(ms) => Step::Settle(*ms),
        }
    }
}

/// The actions of a sequence as steps.
pub open spec fn steps_of(a: Seq<Action>) -> Seq<Step> {
    a.map_values(|x: Action| x@)
}

/// `n` deletions.
pub open spec fn deletes(n: nat) -> Seq<Step> {
    Seq::new(n, |i: int| Step::DeletePrevious)
}

/// The clipboard-paste replacement of `trigger` by `expansion`, where `saved`
/// is what the clipboard held before.
pub open spec fn paste_plan(trigger: Seq<char>, expansion: Seq<char>, saved: Seq<char>) -> Seq<Step> {
    deletes(trigger.len()) + seq![
        Step::SetClipboard(expansion),
        Step::Paste,
        Step::Flush,
        Step::Settle(SETTLE_MS),
        Step::SetClipboard(saved),
    ]
}

/// The direct-injection replacement of `trigger` by taps of `codes`.
pub open spec fn inject_plan(trigger: Seq<char>, codes: Seq<u8>) -> Seq<Step> {
    deletes(trigger.len()) + codes.map_values(|k: u8| Step::Tap(k)) + seq![Step::Flush]
}

/// `k` is the lowest keycode whose keysym is the code of `c`.
pub open spec fn resolves(km: KeyMap, c: char, k: u8) -> bool {
    &&& km.keysym_spec(k as int) == Some(c as u32)
    &&& forall|j: int| 0 <= j < k ==> #[trigger] km.keysym_spec(j) != Some(c as u32)
}

/// Some keycode has the code of `c` as its keysym.
pub open spec fn resolvable(km: KeyMap, c: char) -> bool {
    exists|j: int| 0 <= j < 256 && #[trigger] km.keysym_spec(j) == Some(c as u32)
}

/// The focused text and the clipboard after one step.
pub open spec fn step_effect(km: KeyMap, s: Step, text: Seq<char>, clip: Seq<char>) -> (Seq<char>, Seq<char>) {
    match s {
        Step::DeletePrevious => (
            if text.len() > 0 {
                text.drop_last()
            } else {
                text
            },
            clip,
        ),
        Step::SetClipboard(c) => (text, c),
        Step::Paste => (text + clip, clip),
        Step::Tap(k) => match km.keysym_spec(k as int) {
            Some(ks) => match printable(ks) {
                Some(c) => (text.push(c), clip),
                None => (text, clip),
            },
            None => (text, clip),
        },
        Step::Flush => (text, clip),
        Step::Settle(_) => (text, clip),
    }
}

/// The focused text and the clipboard after the steps, in order.
pub open spec fn run(km: KeyMap, steps: Seq<Step>, text: Seq<char>, clip: Seq<char>) -> (Seq<char>, Seq<char>)
    decreases steps.len(),
{
    if steps.len() == 0 {
        (text, clip)
    } else {
        let (t, c) = run(km, steps.drop_last(), text, clip);
        step_effect(km, steps.last(), t, c)
    }
}

/// The expansion holds a character that no keycode types.
#[derive(Debug, Clone, Copy, PartialEq, Eq)]
pub struct KeysymResolutionFailure {
    pub character: char,
}

/// A synthetic key event: a keycode and whether it is pressed or released.
#[derive(Debug, Clone, Copy, PartialEq, Eq)]
pub struct KeyEvent {
    pub keycode: u8,
    pub kind: u8,
}

/// The key events that carry out an action; none for the actions that are
/// not keystrokes.
pub open spec fn events_of(s: Step) -> Seq<(u8, u8)> {
    match s {
        Step::DeletePrevious => seq![(BACKSPACE, KEY_RELEASE), (BACKSPACE, KEY_PRESS), (BACKSPACE, KEY_RELEASE)],
        Step::Paste => seq![
            (CONTROL, KEY_RELEASE),
            (V, KEY_RELEASE),
            (CONTROL, KEY_PRESS),
            (V, KEY_PRESS),
            (V, KEY_RELEASE),
            (CONTROL, KEY_RELEASE),
        ],
        Step::Tap(k) => seq![(k, KEY_PRESS), (k, KEY_RELEASE)],
        _ => Seq::empty(),
    }
}

fn key(keycode: u8, kind: u8) -> (r: KeyEvent)
    ensures
        r.keycode == keycode,
        r.kind == kind,
{
    KeyEvent { keycode, kind }
}

/// The synthetic key events that carry out `a`, in order.
pub fn key_events(a: &Action) -> (r: Vec<KeyEvent>)
    ensures
        r@.map_values(|e: KeyEvent| (e.keycode, e.kind)) == events_of(a@),
{
    let r = match a {
        Action::DeletePrevious => vec![
            key(BACKSPACE, KEY_RELEASE),
            key(BACKSPACE, KEY_PRESS),
            key(BACKSPACE, KEY_RELEASE),
        ],
        Action::Paste => vec![
            key(CONTROL, KEY_RELEASE),
            key(V, KEY_RELEASE),
            key(CONTROL, KEY_PRESS),
            key(V, KEY_PRESS),
            key(V, KEY_RELEASE),
            key(CONTROL, KEY_RELEASE),
        ],
        Action::Tap(k) => vec![key(*k, KEY_PRESS), key(*k, KEY_RELEASE)],
        _ => Vec::new(),
    };
    assert(r@.map_values(|e: KeyEvent| (e.keycode, e.kind)) =~= events_of(a@));
    r
}

/// Appends one deletion for each character of `trigger`.
fn push_deletes(out: &mut Vec<Action>, trigger: &String)
    ensures
        steps_of(final(out)@) == steps_of(old(out)@) + deletes(trigger@.len()),
{
    let n = trigger.as_str().unicode_len();
    let mut i: usize = 0;
    while i < n
        invariant
            n == trigger@.len(),
            i <= n,
            steps_of(out@) == steps_of(old(out)@) + deletes(i as nat),
        decreases n - i,
    {
        let ghost prev = out@;
        out.push(Action::DeletePrevious);
        assert(steps_of(out@) =~= steps_of(prev).push(Step::DeletePrevious));
        assert(deletes((i + 1) as nat) =~= deletes(i as nat).push(Step::DeletePrevious));
        i = i + 1;
        assert(steps_of(out@) =~= steps_of(old(out)@) + deletes(i as nat));
    }
}

/// The clipboard-paste replacement of the matched trigger: one deletion per
/// character of the trigger, the expansion put on the clipboard and pasted,
/// a flush, the settling wait, and `saved` (the clipboard's contents before)
/// put back.
pub fn plan_paste(m: &TriggerEntry, saved: String) -> (r: Vec<Action>)
    ensures
        steps_of(r@) == paste_plan(m.trigger@, m.expansion@, saved@),
{
    let mut r: Vec<Action> = Vec::new();
    push_deletes(&mut r, &m.trigger);
    r.push(Action::SetClipboard(m.expansion.clone()));
    r.push(Action::Paste);
    r.push(Action::Flush);
    r.push(Action::Settle(SETTLE_MS));
    r.push(Action::SetClipboard(saved));
    assert(steps_of(r@) =~= paste_plan(m.trigger@, m.expansion@, saved@));
    r
}

/// The direct-injection replacement of the matched trigger: one deletion per
/// character of the trigger, a tap of the lowest keycode of each character
/// of the expansion, and a flush. Fails on the first character of the
/// expansion that no keycode types, before anything is planned.
pub fn plan_inject(km: &KeyMap, m: &TriggerEntry) -> (r: Result<Vec<Action>, KeysymResolutionFailure>)
    ensures
        (r is Ok) <==> forall|i: int| 0 <= i < m.expansion@.len() ==> resolvable(*km, #[trigger] m.expansion@[i]),
        r matches Ok(v) ==> exists|codes: Seq<u8>|
            codes.len() == m.expansion@.len()
            && (forall|i: int| 0 <= i < codes.len() ==> resolves(*km, m.expansion@[i], #[trigger] codes[i]))
            && steps_of(v@) == inject_plan(m.trigger@, codes),
        r matches Err(f) ==> exists|i: int|
            0 <= i < m.expansion@.len() && m.expansion@[i] == f.character
            && !resolvable(*km, m.expansion@[i])
            && forall|j: int| 0 <= j < i ==> resolvable(*km, #[trigger] m.expansion@[j]),
{
    let e = m.expansion.as_str();
    let n = e.unicode_len();
    let mut r: Vec<Action> = Vec::new();
    push_deletes(&mut r, &m.trigger);
    let ghost before = steps_of(r@);
    let ghost mut codes: Seq<u8> = Seq::empty();
    let mut i: usize = 0;
    while i < n
        invariant
            n == m.expansion@.len(),
            e@ == m.expansion@,
            i <= n,
            codes.len() == i,
            before == deletes(m.trigger@.len()),
            forall|q: int| 0 <= q < i ==> resolves(*km, m.expansion@[q], #[trigger] codes[q]),
            steps_of(r@) == before + codes.map_values(|k: u8| Step::Tap(k)),
        decreases n - i,
    {
        let c = e.get_char(i);
        match km.keycode_for(c) {
            Some(k) => {
                let ghost prev = r@;
                let ghost prev_codes = codes;
                r.push(Action::Tap(k));
                proof {
                    codes = codes.push(k);
                }
                assert(steps_of(r@) =~= steps_of(prev).push(Step::Tap(k)));
                assert(codes.map_values(|k: u8| Step::Tap(k)) =~= prev_codes.map_values(
                    |k: u8| Step::Tap(k),
                ).push(Step::Tap(k)));
                assert(steps_of(r@) =~= before + codes.map_values(|k: u8| Step::Tap(k)));
            },
            None => {
                assert forall|q: int| 0 <= q < i implies resolvable(*km, #[trigger] m.expansion@[q]) by {
                    assert(km.keysym_spec(codes[q] as int) == Some(m.expansion@[q] as u32));
                }
                return Err(KeysymResolutionFailure { character: c });
            },
        }
        i = i + 1;
    }
    r.push(Action::Flush);
    assert(steps_of(r@) =~= inject_plan(m.trigger@, codes));
    assert forall|q: int| 0 <= q < m.expansion@.len() implies resolvable(*km, #[trigger] m.expansion@[q]) by {
        assert(km.keysym_spec(codes[q] as int) == Some(m.expansion@[q] as u32));
    }
    Ok(r)
}

/// Running two sequences in turn is running their concatenation.
pub proof fn lemma_run_append(
    km: KeyMap,
    a: Seq<Step>,
    b: Seq<Step>,
    text: Seq<char>,
    clip: Seq<char>,
)
    ensures
        run(km, a + b, text, clip) == run(km, b, run(km, a, text, clip).0, run(km, a, text, clip).1),
    decreases b.len(),
{
    if b.len() == 0 {
        assert(a + b =~= a);
    } else {
        assert((a + b).drop_last() =~= a + b.drop_last());
        lemma_run_append(km, a, b.drop_last(), text, clip);
    }
}

/// `n` deletions remove the last `n` characters and leave the clipboard.
pub proof fn lemma_run_deletes(km: KeyMap, n: nat, text: Seq<char>, clip: Seq<char>)
    requires
        n <= text.len(),
    ensures
        run(km, deletes(n), text, clip) == (text.subrange(0, text.len() - n), clip),
    decreases n,
{
    if n == 0 {
        assert(text.subrange(0, text.len() as int) =~= text);
    } else {
        assert(deletes(n).drop_last() =~= deletes((n - 1) as nat));
        lemma_run_deletes(km, (n - 1) as nat, text, clip);
        assert(text.subrange(0, text.len() - (n - 1)).drop_last() =~= text.subrange(
            0,
            text.len() - n,
        ));
    }
}

/// Every deletion of a replacement comes before its first insertion: the
/// first `trigger.len()` steps delete, and no later step does.
pub proof fn lemma_deletes_come_first(trigger: Seq<char>, expansion: Seq<char>, saved: Seq<char>, codes: Seq<u8>)
    ensures
        forall|i: int| 0 <= i < trigger.len() ==> #[trigger] paste_plan(trigger, expansion, saved)[i] is DeletePrevious,
        forall|i: int| trigger.len() <= i < paste_plan(trigger, expansion, saved).len()
            ==> !(#[trigger] paste_plan(trigger, expansion, saved)[i] is DeletePrevious),
        forall|i: int| 0 <= i < trigger.len() ==> #[trigger] inject_plan(trigger, codes)[i] is DeletePrevious,
        forall|i: int| trigger.len() <= i < inject_plan(trigger, codes).len()
            ==> !(#[trigger] inject_plan(trigger, codes)[i] is DeletePrevious),
{
    let n = trigger.len();
    let taps = codes.map_values(|k: u8| Step::Tap(k));
    assert forall|i: int| n <= i < inject_plan(trigger, codes).len() implies !(
    #[trigger] inject_plan(trigger, codes)[i] is DeletePrevious) by {
        if i < n + codes.len() {
            assert(inject_plan(trigger, codes)[i] == taps[i - n]);
        }
    }
}

/// A paste replacement leaves the clipboard as it found it, when `saved` is
/// what the clipboard held before.
pub proof fn lemma_paste_restores_clipboard(
    km: KeyMap,
    trigger: Seq<char>,
    expansion: Seq<char>,
    text: Seq<char>,
    clip: Seq<char>,
)
    ensures
        run(km, paste_plan(trigger, expansion, clip), text, clip).1 == clip,
{
    let p = paste_plan(trigger, expansion, clip);
    assert(p.drop_last().last() is Settle);
    assert(p.last() == Step::SetClipboard(clip));
}

/// A paste replacement, run on text that ends with the trigger, leaves the
/// text with the trigger replaced by the expansion.
pub proof fn lemma_paste_replaces_trigger(
    km: KeyMap,
    trigger: Seq<char>,
    expansion: Seq<char>,
    text: Seq<char>,
    clip: Seq<char>,
)
    requires
        ends_with(text, trigger),
    ensures
        run(km, paste_plan(trigger, expansion, clip), text, clip).0 == text.subrange(
            0,
            text.len() - trigger.len(),
        ) + expansion,
{
    let n = trigger.len();
    let tail = seq![
        Step::SetClipboard(expansion),
        Step::Paste,
        Step::Flush,
        Step::Settle(SETTLE_MS),
        Step::SetClipboard(clip),
    ];
    lemma_run_append(km, deletes(n), tail, text, clip);
    lemma_run_deletes(km, n, text, clip);
    let kept = text.subrange(0, text.len() - n);
    assert(tail.drop_last().drop_last().drop_last().drop_last() =~= seq![Step::SetClipboard(expansion)]);
    assert(seq![Step::SetClipboard(expansion)].drop_last() =~= Seq::<Step>::empty());
    assert(tail.drop_last().drop_last().drop_last().last() == Step::Paste);
    assert(tail.drop_last().drop_last().last() == Step::Flush);
    assert(tail.drop_last().last() == Step::Settle(SETTLE_MS));
    assert(tail.last() == Step::SetClipboard(clip));
    reveal_with_fuel(run, 6);
    assert(run(km, tail, kept, clip).0 == kept + expansion);
}

/// Every character of `s` is printable ASCII.
pub open spec fn all_printable(s: Seq<char>) -> bool {
    forall|i: int| 0 <= i < s.len() ==> printable(#[trigger] s[i] as u32) == Some(s[i])
}

/// Taps of the keycodes that type the characters of `expansion` append it to
/// the text.
proof fn lemma_run_taps(km: KeyMap, codes: Seq<u8>, expansion: Seq<char>, text: Seq<char>, clip: Seq<char>)
    requires
        codes.len() == expansion.len(),
        forall|i: int| 0 <= i < codes.len() ==> resolves(km, expansion[i], #[trigger] codes[i]),
        all_printable(expansion),
    ensures
        run(km, codes.map_values(|k: u8| Step::Tap(k)), text, clip) == (text + expansion, clip),
    decreases codes.len(),
{
    let taps = codes.map_values(|k: u8| Step::Tap(k));
    if codes.len() == 0 {
        assert(text + expansion =~= text);
    } else {
        let n = codes.len() - 1;
        assert(taps.drop_last() =~= codes.drop_last().map_values(|k: u8| Step::Tap(k)));
        lemma_run_taps(km, codes.drop_last(), expansion.drop_last(), text, clip);
        assert(resolves(km, expansion[n], codes[n]));
        assert(printable(expansion[n] as u32) == Some(expansion[n]));
        assert((text + expansion.drop_last()).push(expansion[n]) =~= text + expansion);
    }
}

/// A direct-injection replacement whose keycodes type the expansion, run on
/// text that ends with the trigger, leaves the text with the trigger
/// replaced by the expansion and the clipboard untouched.
pub proof fn lemma_inject_replaces_trigger(
    km: KeyMap,
    trigger: Seq<char>,
    expansion: Seq<char>,
    codes: Seq<u8>,
    text: Seq<char>,
    clip: Seq<char>,
)
    requires
        ends_with(text, trigger),
        all_printable(expansion),
        codes.len() == expansion.len(),
        forall|i: int| 0 <= i < codes.len() ==> resolves(km, expansion[i], #[trigger] codes[i]),
    ensures
        run(km, inject_plan(trigger, codes), text, clip) == (
            text.subrange(0, text.len() - trigger.len()) + expansion,
            clip,
        ),
{
    let n = trigger.len();
    let taps = codes.map_values(|k: u8| Step::Tap(k));
    let kept = text.subrange(0, text.len() - n);
    lemma_run_append(km, deletes(n) + taps, seq![Step::Flush], text, clip);
    lemma_run_append(km, deletes(n), taps, text, clip);
    lemma_run_deletes(km, n, text, clip);
    lemma_run_taps(km, codes, expansion, kept, clip);
    assert(seq![Step::Flush].drop_last() =~= Seq::<Step>::empty());
    reveal_with_fuel(run, 2);
    assert(run(km, seq![Step::Flush], kept + expansion, clip) == (kept + expansion, clip));
}

} // verus!
