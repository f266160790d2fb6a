//! Tests for the capture decision logic, the exclusion filter, the wire
//! format, and the boot-offset computation.

use taskmon::capture::{
    capture_event, cmd_to_key, is_excluded, try_task, CaptureOutcome, ExclusionFilter,
};
use taskmon::clock::{boot_offset_ns, WallTime};
use taskmon::wire::{decode, encode, EVENT_WIRE_SIZE};

fn arg_sources(args: &[&str]) -> Vec<Option<Vec<u8>>> {
    args.iter().map(|a| Some(a.as_bytes().to_vec())).collect()
}

fn expect_published(outcome: CaptureOutcome) -> taskmon::event::ExecEvent {
    match outcome {
        CaptureOutcome::Publish(ev) => ev,
        CaptureOutcome::Suppress => panic!("event was suppressed"),
    }
}

#[test]
fn cmd_to_key_pads_with_zero_bytes() {
    let key = cmd_to_key(b"/bin/ls");
    assert_eq!(key.len(), 64);
    assert_eq!(&key[..7], b"/bin/ls");
    assert!(key[7..].iter().all(|&b| b == 0));
}

#[test]
fn cmd_to_key_truncates_long_names() {
    let long = vec![7u8; 100];
    let key = cmd_to_key(&long);
    assert_eq!(key.len(), 64);
    assert_eq!(&key[..], &long[..64]);
}

#[test]
fn excluded_command_suppressed() {
    let mut filter = ExclusionFilter::new();
    assert!(filter.insert(b"/bin/ls"));
    assert!(is_excluded(b"/bin/ls", 7, &filter));
    let args = arg_sources(&["-l"]);
    let outcome = try_task(1, 0, b"/bin/ls", &args, &filter);
    assert!(matches!(outcome, CaptureOutcome::Suppress));
}

#[test]
fn other_command_published() {
    let mut filter = ExclusionFilter::new();
    assert!(filter.insert(b"/bin/ls"));
    assert!(!is_excluded(b"/bin/cat", 8, &filter));
    let args = arg_sources(&["x"]);
    let ev = expect_published(try_task(7, 99, b"/bin/cat", &args, &filter));
    assert_eq!(ev.pid, 7);
    assert_eq!(ev.timestamp, 99);
    assert_eq!(ev.command_len, 8);
    assert_eq!(&ev.command[..8], b"/bin/cat");
    assert_eq!(ev.argvs_offset[0], 1);
    assert_eq!(ev.argvs[0][0], b'x');
}

#[test]
fn exclusion_matches_on_truncated_key() {
    // Keys wider than the table's key width are truncated before insertion,
    // so two commands sharing the first 64 bytes share one key.
    let mut filter = ExclusionFilter::new();
    let mut long_a = vec![9u8; 70];
    assert!(filter.insert(&long_a));
    long_a.truncate(64);
    assert!(is_excluded(&long_a, 64, &filter));
}

#[test]
fn filter_capacity_and_duplicates() {
    let mut filter = ExclusionFilter::new();
    for i in 0..10u8 {
        assert!(filter.insert(&[i + 1]));
    }
    // Re-inserting an existing key succeeds without growing the table.
    assert!(filter.insert(&[1u8]));
    // An eleventh distinct key does not fit.
    assert!(!filter.insert(&[200u8]));
    assert!(is_excluded(&[5u8], 1, &filter));
    assert!(!is_excluded(&[200u8], 1, &filter));
}

#[test]
fn capture_stops_at_absent_slot() {
    let args = vec![
        Some(b"one".to_vec()),
        None, // null pointer or failed read: the walk stops here
        Some(b"two".to_vec()),
    ];
    let ev = capture_event(1, 0, b"/bin/x", &args);
    assert_eq!(ev.argvs_offset, vec![3, 0, 0, 0]);
    assert_eq!(&ev.argvs[0][..3], b"one");
    assert!(ev.argvs[2].iter().all(|&b| b == 0));
}

#[test]
fn capture_truncates_long_argument() {
    let long = vec![b'a'; 50];
    let args = vec![Some(long.clone())];
    let ev = capture_event(1, 0, b"/bin/x", &args);
    assert_eq!(ev.argvs_offset[0], 32);
    assert_eq!(&ev.argvs[0][..], &long[..32]);
}

#[test]
fn wire_round_trip() {
    let args = arg_sources(&["alpha", "beta"]);
    let ev = capture_event(321, 777, b"/usr/bin/env", &args);
    let bytes = encode(&ev);
    assert_eq!(bytes.len(), EVENT_WIRE_SIZE);
    let back = decode(&bytes).expect("valid encoding must decode");
    assert_eq!(back.pid, ev.pid);
    assert_eq!(back.timestamp, ev.timestamp);
    assert_eq!(back.command, ev.command);
    assert_eq!(back.command_len, ev.command_len);
    assert_eq!(back.argvs, ev.argvs);
    assert_eq!(back.argvs_offset, ev.argvs_offset);
}

#[test]
fn wire_rejects_wrong_size() {
    assert!(decode(&[0u8; 10]).is_none());
    assert!(decode(&[0u8; 245]).is_none());
}

#[test]
fn wire_rejects_oversized_command_len() {
    let ev = capture_event(1, 0, b"/bin/x", &Vec::new());
    let mut bytes = encode(&ev);
    bytes[76] = 65; // command_len = 65 > capacity 64
    assert!(decode(&bytes).is_none());
}

#[test]
fn wire_rejects_oversized_argument_len() {
    let ev = capture_event(1, 0, b"/bin/x", &Vec::new());
    let mut bytes = encode(&ev);
    bytes[220] = 33; // second slot length = 33 > capacity 32
    assert!(decode(&bytes).is_none());
}

#[test]
fn boot_offset_example() {
    assert_eq!(boot_offset_ns(10, 3), 7);
    assert_eq!(boot_offset_ns(5, 8), -3);
}

#[test]
fn wall_time_split_example() {
    let t = WallTime::from_boot_offset(1_000_000_000, 500);
    assert_eq!(t.timestamp(), 1);
    assert_eq!(t.timestamp_subsec_nanos(), 500);
}
