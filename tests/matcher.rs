use hotstrings::buffer::{RollingBuffer, CAPACITY};
use hotstrings::matcher::Hotstrings;
use hotstrings::table::{parse_lines, TriggerEntry};

fn table(lines: &[&str]) -> Vec<TriggerEntry> {
    parse_lines(&lines.iter().map(|l| l.to_string()).collect())
}

fn type_all(h: &mut Hotstrings, s: &str) -> Vec<Option<TriggerEntry>> {
    s.chars().map(|c| h.observe(c)).collect()
}

#[test]
fn earlier_entry_wins_a_tie() {
    let mut h = Hotstrings::new(table(&["lo::low", "hello::greeting"]));
    let out = type_all(&mut h, "hello");
    let last = out.last().unwrap().clone().unwrap();
    assert_eq!(last.trigger, "lo");
    assert_eq!(last.expansion, "low");
}

#[test]
fn later_entry_matches_when_alone() {
    let mut h = Hotstrings::new(table(&["xyz::nope", "hello::greeting"]));
    let out = type_all(&mut h, "hello");
    assert_eq!(out.last().unwrap().clone().unwrap().expansion, "greeting");
}

#[test]
fn match_only_on_exact_suffix() {
    let mut h = Hotstrings::new(table(&["btw::by the way"]));
    let out = type_all(&mut h, "hi btw");
    for o in &out[..5] {
        assert!(o.is_none());
    }
    assert_eq!(out[5].clone().unwrap().trigger, "btw");
    assert!(h.observe('x').is_none());
}

#[test]
fn no_case_folding() {
    let mut h = Hotstrings::new(table(&["btw::by the way"]));
    assert!(type_all(&mut h, "BTW").iter().all(|o| o.is_none()));
}

#[test]
fn buffer_is_not_cleared_by_a_match() {
    let mut h = Hotstrings::new(table(&["a::x"]));
    assert!(h.observe('a').is_some());
    assert!(h.observe('a').is_some());
    assert_eq!(h.buffer_chars(), vec!['a', 'a']);
}

#[test]
fn buffer_keeps_last_thirty() {
    let mut h = Hotstrings::new(table(&[]));
    let typed: String = (0..35u8).map(|i| (b'!' + i) as char).collect();
    type_all(&mut h, &typed);
    let kept: Vec<char> = typed.chars().skip(5).collect();
    assert_eq!(h.buffer_chars(), kept);
    assert_eq!(h.buffer_chars().len(), CAPACITY);
}

#[test]
fn evicted_prefix_never_fires() {
    // The trigger spans characters 1 to 5 and then 26 more: 31 in all, one
    // more than the buffer holds.
    let trigger: String = "abcde".to_string() + &"x".repeat(26);
    let mut h = Hotstrings::new(vec![TriggerEntry {
        trigger: trigger.clone(),
        expansion: "y".to_string(),
    }]);
    let mut typed = trigger.clone();
    typed.push_str("xxxx");
    assert!(type_all(&mut h, &typed).iter().all(|o| o.is_none()));
}

#[test]
fn trigger_at_capacity_fires() {
    let trigger: String = "q".repeat(CAPACITY);
    let mut h = Hotstrings::new(vec![TriggerEntry {
        trigger: trigger.clone(),
        expansion: "z".to_string(),
    }]);
    let out = type_all(&mut h, &trigger);
    assert!(out[..CAPACITY - 1].iter().all(|o| o.is_none()));
    assert!(out[CAPACITY - 1].is_some());
}

#[test]
fn rolling_buffer_push_and_get() {
    let mut b = RollingBuffer::new();
    assert_eq!(b.len(), 0);
    for i in 0..31u8 {
        b.push((b'a' + (i % 26)) as char);
    }
    assert_eq!(b.len(), CAPACITY);
    assert_eq!(b.get(0), 'b');
    assert_eq!(b.get(CAPACITY - 1), 'e');
}

#[test]
fn table_length() {
    let h = Hotstrings::new(table(&["a::b", "nothing", "c::d"]));
    assert_eq!(h.len(), 2);
}
