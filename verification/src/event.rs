//! The event wire record: one fixed-shape description of a process execution,
//! shared by the kernel-side producer and the userspace consumer.

use vstd::prelude::*;

verus! {

/// Capacity in bytes of each fixed argument buffer.
pub const ARGV_LEN: usize = 32;

/// Number of argument slots captured per event.
pub const ARGV_OFFSET: usize = 4;

/// Capacity in bytes of the fixed command-path buffer.
pub const COMMAND_LEN: usize = 64;

/// One process-execution record.
///
/// Every buffer has a fixed capacity, held here as a length invariant
/// ([`ExecEvent::wf`]): the kernel side may not allocate, so the command path
/// and each argument are packed into fixed-size, zero-padded buffers with an
/// explicit used-length field beside them. An argument slot whose recorded
/// length is zero means "no argument captured at or beyond this slot".
pub struct ExecEvent {
    /// Process identifier of the executing process.
    pub pid: u32,
    /// Nanoseconds since boot (kernel monotonic clock), not wall-clock.
    pub timestamp: u64,
    /// Fixed buffer of [`COMMAND_LEN`] bytes holding the executable path,
    /// not necessarily null-terminated, zero-padded past `command_len`.
    pub command: Vec<u8>,
    /// Number of command bytes actually written; the path was truncated if
    /// it was longer than the buffer.
    pub command_len: usize,
    /// [`ARGV_OFFSET`] fixed buffers of [`ARGV_LEN`] bytes each, one per
    /// captured argument slot, zero-padded past their recorded lengths.
    pub argvs: Vec<Vec<u8>>,
    /// Recorded byte length of each argument slot; `0` marks the first slot
    /// at which no argument was captured.
    pub argvs_offset: Vec<usize>,
}

/// The mathematical shape of an [`ExecEvent`]: the same fields with the
/// buffers as byte sequences. Contracts about encoding and decoding speak
/// of this model.
#[verifier::ext_equal]
pub ghost struct EventModel {
    pub pid: u32,
    pub timestamp: u64,
    pub command: Seq<u8>,
    pub command_len: int,
    pub argvs: Seq<Seq<u8>>,
    pub argvs_offset: Seq<int>,
}

impl EventModel {
    /// The buffer capacities and recorded lengths a well-formed record obeys.
    pub open spec fn wf(self) -> bool {
        &&& self.command.len() == COMMAND_LEN
        &&& 0 <= self.command_len <= COMMAND_LEN
        &&& self.argvs.len() == ARGV_OFFSET
        &&& forall|i: int| 0 <= i < ARGV_OFFSET ==> (#[trigger] self.argvs[i]).len() == ARGV_LEN
        &&& self.argvs_offset.len() == ARGV_OFFSET
        &&& forall|i: int| 0 <= i < ARGV_OFFSET ==> 0 <= #[trigger] self.argvs_offset[i] <= ARGV_LEN
    }
}

impl View for ExecEvent {
    type V = EventModel;

    open spec fn view(&self) -> EventModel {
        EventModel {
            pid: self.pid,
            timestamp: self.timestamp,
            command: self.command@,
            command_len: self.command_len as int,
            argvs: self.argvs@.map_values(|b: Vec<u8>| b@),
            argvs_offset: self.argvs_offset@.map_values(|n: usize| n as int),
        }
    }
}

impl ExecEvent {
    /// A record is well-formed when its buffers have their fixed capacities
    /// and each recorded length fits its buffer.
    pub open spec fn wf(&self) -> bool {
        self@.wf()
    }
}

} // verus!
