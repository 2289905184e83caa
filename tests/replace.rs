use hotstrings::engine::Engine;
use hotstrings::executor::{
    key_events, plan_inject, plan_paste, Action, KeyEvent, BACKSPACE, CONTROL, KEY_PRESS,
    KEY_RELEASE, SETTLE_MS, V,
};
use hotstrings::keymap::KeyMap;
use hotstrings::table::{parse_lines, TriggerEntry};

fn entry(t: &str, e: &str) -> TriggerEntry {
    TriggerEntry { trigger: t.to_string(), expansion: e.to_string() }
}

/// Keycode 8 + i types the i-th printable ASCII character.
fn ascii_keymap() -> KeyMap {
    KeyMap { keysyms: (32u32..=126).collect(), keysyms_per_keycode: 1, min_keycode: 8 }
}

fn keycode_of(c: char) -> u32 {
    c as u32 - 32 + 8
}

/// Carries out the actions on a text field and a clipboard.
fn simulate(actions: &[Action], km: &KeyMap, text: &mut String, clip: &mut String) {
    for a in actions {
        match a {
            Action::DeletePrevious => {
                text.pop();
            }
            Action::SetClipboard(s) => *clip = s.clone(),
            Action::Paste => text.push_str(&clip.clone()),
            Action::Tap(k) => {
                let ks = km.keysym_of(*k as u32).unwrap();
                text.push(char::from_u32(ks).unwrap());
            }
            Action::Flush | Action::Settle(_) => {}
        }
    }
}

#[test]
fn paste_plan_order() {
    let plan = plan_paste(&entry("btw", "by the way"), "X".to_string());
    assert_eq!(
        plan,
        vec![
            Action::DeletePrevious,
            Action::DeletePrevious,
            Action::DeletePrevious,
            Action::SetClipboard("by the way".to_string()),
            Action::Paste,
            Action::Flush,
            Action::Settle(SETTLE_MS),
            Action::SetClipboard("X".to_string()),
        ]
    );
    assert_eq!(SETTLE_MS, 100);
}

#[test]
fn deletes_come_before_insertion() {
    for t in ["a", "hello", "x y z"] {
        let n = t.chars().count();
        let plan = plan_paste(&entry(t, "expanded"), String::new());
        assert!(plan[..n].iter().all(|a| *a == Action::DeletePrevious));
        assert!(plan[n..].iter().all(|a| *a != Action::DeletePrevious));
        let plan = plan_inject(&ascii_keymap(), &entry(t, "expanded")).unwrap();
        assert!(plan[..n].iter().all(|a| *a == Action::DeletePrevious));
        assert!(plan[n..].iter().all(|a| *a != Action::DeletePrevious));
    }
}

#[test]
fn clipboard_is_restored() {
    let km = ascii_keymap();
    let mut clip = "X".to_string();
    let mut text = "abc".to_string();
    let plan = plan_paste(&entry("c", "Y"), clip.clone());
    simulate(&plan, &km, &mut text, &mut clip);
    assert_eq!(clip, "X");
    assert_eq!(text, "abY");
}

#[test]
fn inject_plan_taps_each_character() {
    let km = ascii_keymap();
    let plan = plan_inject(&km, &entry("ab", "hi!")).unwrap();
    assert_eq!(
        plan,
        vec![
            Action::DeletePrevious,
            Action::DeletePrevious,
            Action::Tap(keycode_of('h') as u8),
            Action::Tap(keycode_of('i') as u8),
            Action::Tap(keycode_of('!') as u8),
            Action::Flush,
        ]
    );
}

#[test]
fn inject_fails_on_unresolvable_character() {
    let km = KeyMap { keysyms: vec![97, 98], keysyms_per_keycode: 1, min_keycode: 8 };
    let err = plan_inject(&km, &entry("x", "abcab")).unwrap_err();
    assert_eq!(err.character, 'c');
    assert!(plan_inject(&km, &entry("x", "abba")).is_ok());
    assert_eq!(plan_inject(&km, &entry("x", "")).unwrap(), vec![Action::DeletePrevious, Action::Flush]);
}

#[test]
fn key_events_of_each_action() {
    let ev = |k: u8, kind: u8| KeyEvent { keycode: k, kind };
    assert_eq!(
        key_events(&Action::DeletePrevious),
        vec![ev(BACKSPACE, KEY_RELEASE), ev(BACKSPACE, KEY_PRESS), ev(BACKSPACE, KEY_RELEASE)]
    );
    assert_eq!(
        key_events(&Action::Paste),
        vec![
            ev(CONTROL, KEY_RELEASE),
            ev(V, KEY_RELEASE),
            ev(CONTROL, KEY_PRESS),
            ev(V, KEY_PRESS),
            ev(V, KEY_RELEASE),
            ev(CONTROL, KEY_RELEASE),
        ]
    );
    assert_eq!(key_events(&Action::Tap(40)), vec![ev(40, KEY_PRESS), ev(40, KEY_RELEASE)]);
    assert!(key_events(&Action::Flush).is_empty());
    assert!(key_events(&Action::Settle(100)).is_empty());
    assert!(key_events(&Action::SetClipboard("a".to_string())).is_empty());
}

fn end_to_end(use_paste: bool) {
    let km = ascii_keymap();
    let mut engine = Engine::new(km.clone(), parse_lines(&vec!["btw::by the way".to_string()]));
    let mut text = String::new();
    let mut clip = "saved".to_string();
    let mut fired = 0;
    for c in "hi btw".chars() {
        text.push(c);
        if let Some(m) = engine.on_key_press(keycode_of(c)) {
            fired += 1;
            let plan = if use_paste {
                plan_paste(&m, clip.clone())
            } else {
                plan_inject(&km, &m).unwrap()
            };
            assert_eq!(plan.iter().filter(|a| **a == Action::DeletePrevious).count(), 3);
            simulate(&plan, &km, &mut text, &mut clip);
        }
    }
    assert_eq!(fired, 1);
    assert_eq!(text, "hi by the way");
    assert_eq!(clip, "saved");
}

#[test]
fn end_to_end_paste() {
    end_to_end(true);
}

#[test]
fn end_to_end_inject() {
    end_to_end(false);
}

#[test]
fn non_printable_keys_are_ignored() {
    let km = KeyMap { keysyms: vec![0xff08, 97], keysyms_per_keycode: 1, min_keycode: 8 };
    let mut engine = Engine::new(km, vec![entry("a", "b")]);
    assert!(engine.on_key_press(8).is_none());
    assert!(engine.on_key_press(3).is_none());
    assert!(engine.on_key_press(200).is_none());
    assert_eq!(engine.on_key_press(9), Some(entry("a", "b")));
    assert_eq!(engine.keymap().min_keycode, 8);
}
