//! Tests for event decoding, timestamp correlation, and the execution store.

use taskmon::event::ExecEvent;
use taskmon::store::{ExecutionStorage, ProcessExecution, MAX_EVENTS};

fn mk_event(pid: u32, ts: u64, cmd: &str, args: &[&str]) -> ExecEvent {
    let mut command = vec![0u8; 64];
    let cb = cmd.as_bytes();
    let clen = cb.len().min(64);
    command[..clen].copy_from_slice(&cb[..clen]);
    let mut argvs = Vec::new();
    for _ in 0..4 {
        argvs.push(vec![0u8; 32]);
    }
    let mut argvs_offset = vec![0usize; 4];
    for (i, a) in args.iter().enumerate().take(4) {
        let ab = a.as_bytes();
        let alen = ab.len().min(32);
        argvs[i][..alen].copy_from_slice(&ab[..alen]);
        argvs_offset[i] = alen;
    }
    ExecEvent { pid, timestamp: ts, command, command_len: clen, argvs, argvs_offset }
}

fn mk_exec(pid: u32, ts: u64, cmd: &str, args: &[&str]) -> ProcessExecution {
    ProcessExecution::from_event(&mk_event(pid, ts, cmd, args), 0)
}

#[test]
fn from_event_basic() {
    let cmd = b"/bin/echo"; // 9 bytes
    let arg0 = b"hello"; // 5 bytes
    let mut command_arr = vec![0u8; 64];
    command_arr[..cmd.len()].copy_from_slice(cmd);
    let mut argvs = Vec::new();
    for _ in 0..4 {
        argvs.push(vec![0u8; 32]);
    }
    argvs[0][..arg0.len()].copy_from_slice(arg0);
    let mut arg_lens = vec![0usize; 4];
    arg_lens[0] = arg0.len();
    let event = ExecEvent {
        pid: 42,
        timestamp: 1_500_000_123, // ns since boot (1.500000123 s)
        command: command_arr,
        command_len: cmd.len(),
        argvs,
        argvs_offset: arg_lens,
    };
    let boot_offset = 0i64;
    let pe = ProcessExecution::from_event(&event, boot_offset);
    assert_eq!(pe.pid, 42);
    assert_eq!(pe.commandstr, "/bin/echo");
    assert_eq!(pe.argstr, "hello");
    assert_eq!(pe.full_command, "/bin/echo hello");
    // Timestamp should match seconds + nanos from event.timestamp
    assert_eq!(pe.timestamp.timestamp(), 1); // whole seconds
    assert_eq!(pe.timestamp.timestamp_subsec_nanos(), 500_000_123); // remaining nanos
}

#[test]
fn add_and_get_all() {
    let mut storage = ExecutionStorage::new();
    storage.add_execution(mk_exec(1, 10, "/bin/a", &[]));
    storage.add_execution(mk_exec(2, 20, "/bin/b", &["x"]));
    let all = storage.get_all_executions();
    assert_eq!(all.len(), 2);
    assert_eq!(all[0].pid, 1);
    assert_eq!(all[1].pid, 2);
}

#[test]
fn fifo_eviction() {
    let mut storage = ExecutionStorage::new();
    for i in 0..MAX_EVENTS {
        storage.add_execution(mk_exec(i as u32, i as u64, "/bin/cmd", &[]));
    }
    // first pid should be 0
    let first_before = storage.get_all_executions().first().unwrap().pid;
    assert_eq!(first_before, 0);
    storage.add_execution(mk_exec(9999, 9999, "/bin/extra", &[]));
    let all = storage.get_all_executions();
    assert_eq!(all.len(), MAX_EVENTS);
    // pid 9999 SHOULD exist
    assert!(all.iter().any(|e| e.pid == 9999));
    // pid 0 SHOULDN'T because it gets evicted
    assert!(!all.iter().any(|e| e.pid == 0));
}

#[test]
fn get_by_pid() {
    let mut storage = ExecutionStorage::new();
    storage.add_execution(mk_exec(1, 1, "/bin/a", &[]));
    storage.add_execution(mk_exec(2, 2, "/bin/b", &[]));
    storage.add_execution(mk_exec(1, 3, "/bin/c", &[]));
    let p1 = storage.get_executions_by_pid(1);
    assert_eq!(p1.len(), 2);
    assert!(p1.iter().all(|e| e.pid == 1));
    let p2 = storage.get_executions_by_pid(2);
    assert_eq!(p2.len(), 1);
}

#[test]
fn get_by_pid_keeps_insertion_order() {
    let mut storage = ExecutionStorage::new();
    storage.add_execution(mk_exec(1, 1, "/bin/a", &[]));
    storage.add_execution(mk_exec(2, 2, "/bin/b", &[]));
    storage.add_execution(mk_exec(1, 3, "/bin/c", &[]));
    let p1 = storage.get_executions_by_pid(1);
    assert_eq!(p1[0].commandstr, "/bin/a");
    assert_eq!(p1[1].commandstr, "/bin/c");
}

#[test]
fn eviction_consistency_after_overflow() {
    let mut storage = ExecutionStorage::new();
    for i in 0..(MAX_EVENTS + 7) {
        storage.add_execution(mk_exec(i as u32, i as u64, "/bin/cmd", &[]));
    }
    let all = storage.get_all_executions();
    assert_eq!(all.len(), MAX_EVENTS);
    // Every evicted pid is gone from both views; every retained pid is in both.
    for pid in 0..7u32 {
        assert!(!all.iter().any(|e| e.pid == pid));
        assert!(storage.get_executions_by_pid(pid).is_empty());
    }
    for pid in [7u32, 100, (MAX_EVENTS + 6) as u32] {
        assert!(all.iter().any(|e| e.pid == pid));
        assert!(!storage.get_executions_by_pid(pid).is_empty());
    }
}

#[test]
fn unknown_pid_yields_empty() {
    let mut storage = ExecutionStorage::new();
    storage.add_execution(mk_exec(5, 1, "/bin/a", &[]));
    assert!(storage.get_executions_by_pid(6).is_empty());
}

#[test]
fn full_command_without_arguments() {
    let pe = mk_exec(1, 0, "/bin/true", &[]);
    assert_eq!(pe.argstr, "");
    assert_eq!(pe.full_command, "/bin/true");
}

#[test]
fn arguments_joined_with_single_spaces() {
    let pe = mk_exec(1, 0, "/bin/echo", &["one", "two", "three"]);
    assert_eq!(pe.argstr, "one two three");
    assert_eq!(pe.full_command, "/bin/echo one two three");
}

#[test]
fn argument_stop_at_empty_slot() {
    // Slot 1 records length 0: nothing at or after it is decoded.
    let event = mk_event(1, 0, "/bin/x", &["a", "", "b"]);
    assert_eq!(event.argvs_offset, vec![1, 0, 1, 0]);
    let pe = ProcessExecution::from_event(&event, 0);
    assert_eq!(pe.argstr, "a");
    assert_eq!(pe.full_command, "/bin/x a");
}

#[test]
fn command_truncated_at_capacity() {
    let long = "c".repeat(100);
    let event = mk_event(1, 0, &long, &[]);
    assert_eq!(event.command_len, 64);
    let pe = ProcessExecution::from_event(&event, 0);
    assert_eq!(pe.commandstr, "c".repeat(64));
}

#[test]
fn argument_truncated_at_capacity() {
    let long = "a".repeat(40);
    let event = mk_event(1, 0, "/bin/x", &[&long]);
    assert_eq!(event.argvs_offset[0], 32);
    let pe = ProcessExecution::from_event(&event, 0);
    assert_eq!(pe.argstr, "a".repeat(32));
}

#[test]
fn lossy_decoding_replaces_invalid_bytes() {
    let mut event = mk_event(1, 0, "ab", &[]);
    event.command[1] = 0xFF; // not valid UTF-8
    let pe = ProcessExecution::from_event(&event, 0);
    assert_eq!(pe.commandstr, "a\u{FFFD}");
}

#[test]
fn timestamp_correlation_applies_boot_offset() {
    let event = mk_event(1, 2_000_000_001, "/bin/x", &[]);
    let pe = ProcessExecution::from_event(&event, 1_000_000_001);
    assert_eq!(pe.timestamp.timestamp(), 3);
    assert_eq!(pe.timestamp.timestamp_subsec_nanos(), 2);
}
