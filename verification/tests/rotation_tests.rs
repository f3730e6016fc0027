use watchlog::chain::append_to_chain;
use watchlog::rotation::{decimal_string, needs_rotation, rotation_renames, slot_name};

fn some(bytes: &[u8]) -> Option<Vec<u8>> {
    Some(bytes.to_vec())
}

#[test]
fn decimal_strings() {
    assert_eq!(decimal_string(0), "0");
    assert_eq!(decimal_string(7), "7");
    assert_eq!(decimal_string(10), "10");
    assert_eq!(decimal_string(305), "305");
    assert_eq!(decimal_string(u32::MAX), "4294967295");
}

#[test]
fn slot_names() {
    assert_eq!(slot_name("app.log", 1), "app.log.1");
    assert_eq!(slot_name("/var/log/x.log", 12), "/var/log/x.log.12");
}

#[test]
fn rotation_decision() {
    assert!(needs_rotation(true, 100, 100));
    assert!(needs_rotation(true, 150, 100));
    assert!(!needs_rotation(true, 99, 100));
    assert!(!needs_rotation(false, 150, 100));
}

#[test]
fn rename_plan_descends() {
    let plan = rotation_renames("app.log", 4);
    let got: Vec<(&str, &str)> = plan
        .iter()
        .map(|s| (s.from.as_str(), s.to.as_str()))
        .collect();
    assert_eq!(
        got,
        vec![
            ("app.log.2", "app.log.3"),
            ("app.log.1", "app.log.2"),
            ("app.log", "app.log.1"),
        ]
    );
}

#[test]
fn rename_plan_empty_without_backup_slots() {
    assert_eq!(rotation_renames("app.log", 1).len(), 0);
    assert_eq!(rotation_renames("app.log", 0).len(), 0);
}

#[test]
fn append_below_threshold_only_grows_live_file() {
    // A log smaller than max_bytes: no renames, the live file grows by
    // the line's length plus one newline byte.
    let mut slots = vec![some(b"hello\n"), some(b"old1\n")];
    append_to_chain(&mut slots, &b"x".to_vec(), 100, 2);
    assert_eq!(slots[0], some(b"hello\nx\n"));
    assert_eq!(slots[1], some(b"old1\n"));
    assert_eq!(slots[0].as_ref().unwrap().len(), b"hello\n".len() + 1 + 1);
}

#[test]
fn append_at_threshold_rotates() {
    // max_bytes=100, max_files=3, live file currently 150 bytes: after the
    // append, path.1 holds the prior live contents, the live file holds
    // exactly the new line, and no path.2 appears (none existed before).
    let prior = vec![b'A'; 150];
    let mut slots = vec![Some(prior.clone()), None, None];
    append_to_chain(&mut slots, &b"B".to_vec(), 100, 3);
    assert_eq!(slots[0], some(b"B\n"));
    assert_eq!(slots[1], Some(prior));
    assert_eq!(slots[2], None);
}

#[test]
fn append_shifts_full_chain() {
    // max_files = 4 with every slot occupied: each file moves up one
    // slot, the oldest is dropped, the live file holds only the new line.
    let mut slots = vec![some(b"c0"), some(b"c1"), some(b"c2"), some(b"c3")];
    append_to_chain(&mut slots, &b"new".to_vec(), 2, 4);
    assert_eq!(slots[0], some(b"new\n"));
    assert_eq!(slots[1], some(b"c0"));
    assert_eq!(slots[2], some(b"c1"));
    assert_eq!(slots[3], some(b"c2"));
}

#[test]
fn skipped_rename_leaves_target_alone() {
    // Slot 1 is empty, so the rename into slot 2 is skipped and slot 2
    // keeps its old file.
    let mut slots = vec![some(b"live"), None, some(b"keep")];
    append_to_chain(&mut slots, &b"n".to_vec(), 4, 3);
    assert_eq!(slots[0], some(b"n\n"));
    assert_eq!(slots[1], some(b"live"));
    assert_eq!(slots[2], some(b"keep"));
}

#[test]
fn moved_file_leaves_its_slot_empty() {
    // Slot 2's file moves into slot 3; nothing moves into slot 2 because
    // slot 1 is empty, so slot 2 ends up absent.
    let mut slots = vec![some(b"live"), None, some(b"c2"), None];
    append_to_chain(&mut slots, &b"n".to_vec(), 4, 4);
    assert_eq!(slots[0], some(b"n\n"));
    assert_eq!(slots[1], some(b"live"));
    assert_eq!(slots[2], None);
    assert_eq!(slots[3], some(b"c2"));
}

#[test]
fn absent_live_file_is_created() {
    let mut slots = vec![None, None];
    append_to_chain(&mut slots, &b"first".to_vec(), 100, 2);
    assert_eq!(slots[0], some(b"first\n"));
    assert_eq!(slots[1], None);
}

#[test]
fn single_slot_chain_never_renames() {
    // With max_files = 1 the rename loop is empty: the live file keeps
    // its contents and grows past max_bytes.
    let mut slots = vec![some(b"already big")];
    append_to_chain(&mut slots, &b"more".to_vec(), 4, 1);
    assert_eq!(slots[0], some(b"already bigmore\n"));
}

#[test]
fn slots_beyond_retention_are_untouched() {
    let mut slots = vec![some(b"c0"), some(b"c1"), some(b"c2"), some(b"c3")];
    append_to_chain(&mut slots, &b"n".to_vec(), 1, 2);
    assert_eq!(slots[0], some(b"n\n"));
    assert_eq!(slots[1], some(b"c0"));
    assert_eq!(slots[2], some(b"c2"));
    assert_eq!(slots[3], some(b"c3"));
}

#[test]
fn rotation_is_deterministic() {
    // The same pre-state run through an append with the same arguments
    // twice yields the same resulting chain contents.
    let start = vec![some(b"0123456789"), some(b"b1"), None];
    let mut first = start.clone();
    let mut second = start.clone();
    append_to_chain(&mut first, &b"line".to_vec(), 10, 3);
    append_to_chain(&mut second, &b"line".to_vec(), 10, 3);
    assert_eq!(first, second);
}
