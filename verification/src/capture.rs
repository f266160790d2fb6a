//! The capture program's decision logic.
//!
//! On every process-execution trace point the kernel program copies the
//! command path and up to [`ARGV_OFFSET`](crate::event::ARGV_OFFSET)
//! arguments out of user memory into fixed buffers, truncating silently,
//! consults the exclusion filter, and either publishes one record or
//! suppresses the event. The user-memory reads themselves happen at the
//! kernel boundary; this module works on the bytes those reads produced and
//! decides, exactly, what record (if any) leaves the kernel.

use crate::event::{EventModel, ExecEvent, ARGV_LEN, ARGV_OFFSET, COMMAND_LEN};
use vstd::prelude::*;
use vstd::slice::slice_index_get;
use vstd::slice::slice_subrange;

verus! {

/// Capacity of the exclusion filter, in entries.
pub const EXCLUDED_CMDS_CAPACITY: usize = 10;

/// How many bytes of a source string fit into a buffer of capacity `cap`:
/// all of them, or `cap` when the source is longer. A recorded length equal
/// to the capacity signals "possibly truncated".
pub open spec fn spec_captured_len(src: Seq<u8>, cap: int) -> int {
    if src.len() <= cap {
        src.len() as int
    } else {
        cap
    }
}

/// A fixed buffer of capacity `cap` after the source string is copied in:
/// the captured prefix of the source, right-padded with zero bytes.
pub open spec fn spec_buffer_of(src: Seq<u8>, cap: int) -> Seq<u8>
    recommends
        0 <= cap,
{
    src.take(spec_captured_len(src, cap)) + Seq::new(
        (cap - spec_captured_len(src, cap)) as nat,
        |j: int| 0u8,
    )
}

/// The key under which a command is looked up in the exclusion filter: its
/// bytes truncated to the fixed key width and right-padded with zero bytes.
pub open spec fn spec_key_of(cmd: Seq<u8>) -> Seq<u8> {
    spec_buffer_of(cmd, COMMAND_LEN as int)
}

/// Copies as much of `src` as fits into a fresh buffer of capacity `cap` and
/// zero-pads the rest; returns the buffer and the copied length.
fn pack_buffer(src: &[u8], cap: usize) -> (r: (Vec<u8>, usize))
    ensures
        r.0@ == spec_buffer_of(src@, cap as int),
        r.0@.len() == cap,
        r.1 == spec_captured_len(src@, cap as int),
        r.1 <= cap,
{
    let n = if src.len() < cap {
        src.len()
    } else {
        cap
    };
    let mut buf: Vec<u8> = Vec::new();
    let mut i: usize = 0;
    while i < n
        invariant
            i <= n,
            n <= src@.len(),
            n == spec_captured_len(src@, cap as int),
            buf@ == src@.take(i as int),
        decreases n - i,
    {
        buf.push(*slice_index_get(src, i));
        proof {
            assert(buf@ =~= src@.take(i + 1));
        }
        i = i + 1;
    }
    let mut len = n;
    while len < cap
        invariant
            n <= len <= cap,
            n == spec_captured_len(src@, cap as int),
            buf@.len() == len,
            buf@ == src@.take(n as int) + Seq::new((len - n) as nat, |j: int| 0u8),
        decreases cap - len,
    {
        buf.push(0u8);
        proof {
            assert(buf@ =~= src@.take(n as int) + Seq::new((len + 1 - n) as nat, |j: int| 0u8));
        }
        len = len + 1;
    }
    (buf, n)
}

/// Encodes a command name as an exclusion-filter key: truncated to the key
/// width and zero-padded.
pub fn cmd_to_key(cmd: &[u8]) -> (key: Vec<u8>)
    ensures
        key@ == spec_key_of(cmd@),
        key@.len() == COMMAND_LEN,
{
    let packed = pack_buffer(cmd, COMMAND_LEN);
    packed.0
}

/// Whether two byte strings hold the same bytes.
fn bytes_equal(a: &[u8], b: &[u8]) -> (r: bool)
    ensures
        r == (a@ == b@),
{
    if a.len() != b.len() {
        return false;
    }
    let n = a.len();
    let mut i: usize = 0;
    while i < n
        invariant
            i <= n,
            n == a@.len() == b@.len(),
            forall|j: int| 0 <= j < i ==> a@[j] == b@[j],
        decreases n - i,
    {
        if *slice_index_get(a, i) != *slice_index_get(b, i) {
            return false;
        }
        i = i + 1;
    }
    proof {
        assert(a@ =~= b@);
    }
    true
}

/// The kernel-resident lookup table of command keys to suppress at the
/// source. Populated once at startup, read-only afterwards; a command is
/// excluded exactly when its zero-padded key is a member.
pub struct ExclusionFilter {
    keys: Vec<Vec<u8>>,
}

impl ExclusionFilter {
    /// Number of keys currently stored.
    pub closed spec fn key_count(self) -> nat {
        self.keys@.len()
    }

    /// Every stored key has the fixed width and the fixed capacity holds.
    pub closed spec fn wf(self) -> bool {
        &&& self.keys@.len() <= EXCLUDED_CMDS_CAPACITY
        &&& forall|i: int|
            0 <= i < self.keys@.len() ==> (#[trigger] self.keys@[i])@.len() == COMMAND_LEN
    }

    /// Membership: some stored key holds exactly these bytes.
    pub closed spec fn has_key(self, k: Seq<u8>) -> bool {
        exists|i: int| 0 <= i < self.keys@.len() && (#[trigger] self.keys@[i])@ == k
    }

    /// An empty filter: nothing is excluded.
    pub fn new() -> (f: ExclusionFilter)
        ensures
            f.wf(),
            f.key_count() == 0,
            forall|k: Seq<u8>| !f.has_key(k),
    {
        ExclusionFilter { keys: Vec::new() }
    }

    /// Adds a command to the filter, truncating and zero-padding it to the
    /// key width. Fails only when the filter is full and the key is new,
    /// as insertion into the fixed-capacity kernel table does.
    pub fn insert(&mut self, cmd: &[u8]) -> (ok: bool)
        requires
            old(self).wf(),
        ensures
            final(self).wf(),
            ok == (old(self).has_key(spec_key_of(cmd@)) || old(self).key_count()
                < EXCLUDED_CMDS_CAPACITY),
            forall|k: Seq<u8>|
                final(self).has_key(k) <==> (old(self).has_key(k) || (ok && k == spec_key_of(
                    cmd@,
                ))),
            final(self).key_count() == if old(self).has_key(spec_key_of(cmd@)) || !ok {
                old(self).key_count()
            } else {
                old(self).key_count() + 1
            },
    {
        let key = cmd_to_key(cmd);
        if self.contains(key.as_slice()) {
            return true;
        }
        if self.keys.len() >= EXCLUDED_CMDS_CAPACITY {
            return false;
        }
        self.keys.push(key);
        proof {
            assert forall|k: Seq<u8>| self.has_key(k) implies (old(self).has_key(k) || k
                == spec_key_of(cmd@)) by {
                let i = choose|i: int|
                    0 <= i < self.keys@.len() && (#[trigger] self.keys@[i])@ == k;
                if i < self.keys@.len() - 1 {
                    assert(old(self).keys@[i]@ == k);
                }
            }
            assert forall|k: Seq<u8>| old(self).has_key(k) implies self.has_key(k) by {
                let i = choose|i: int|
                    0 <= i < old(self).keys@.len() && (#[trigger] old(self).keys@[i])@ == k;
                assert(self.keys@[i]@ == k);
            }
            assert(self.keys@[self.keys@.len() - 1]@ == spec_key_of(cmd@));
        }
        true
    }

    /// Looks a prepared key up in the filter.
    pub fn contains(&self, key: &[u8]) -> (r: bool)
        ensures
            r == self.has_key(key@),
    {
        let n = self.keys.len();
        let mut j: usize = 0;
        while j < n
            invariant
                j <= n,
                n == self.keys@.len(),
                forall|i: int| 0 <= i < j ==> (#[trigger] self.keys@[i])@ != key@,
            decreases n - j,
        {
            if bytes_equal(self.keys[j].as_slice(), key) {
                return true;
            }
            j = j + 1;
        }
        false
    }
}

/// The in-kernel exclusion check: zero-pads the first `command_len` bytes of
/// the copied command to the fixed key width and looks the key up.
pub fn is_excluded(command: &[u8], command_len: usize, excluded: &ExclusionFilter) -> (r: bool)
    requires
        command_len <= command@.len(),
    ensures
        r == excluded.has_key(spec_key_of(command@.take(command_len as int))),
{
    let len = if command_len < COMMAND_LEN {
        command_len
    } else {
        COMMAND_LEN
    };
    let key = cmd_to_key(slice_subrange(command, 0, len));
    proof {
        assert(spec_key_of(command@.take(command_len as int)) =~= spec_key_of(
            command@.subrange(0, len as int),
        ));
    }
    excluded.contains(key.as_slice())
}

/// The argument sources as byte sequences: one entry per argument-pointer
/// slot, `None` standing for a null pointer or a failed read there.
pub open spec fn arg_views(args: Seq<Option<Vec<u8>>>) -> Seq<Option<Seq<u8>>> {
    args.map_values(
        |o: Option<Vec<u8>>|
            match o {
                Option::Some(v) => Option::Some(v@),
                Option::None => Option::None,
            },
    )
}

/// The argument walk reaches slot `i`: every slot before `i` is present.
pub open spec fn live_until(args: Seq<Option<Seq<u8>>>, i: int) -> bool {
    forall|j: int| 0 <= j < i ==> j < args.len() && (#[trigger] args[j]) is Some
}

/// What the capture program records for one trace event: the command path
/// truncated into its fixed buffer, and the argument walk filling slots in
/// order until the first absent source, every later slot left zeroed.
pub open spec fn captures(
    pid: u32,
    timestamp: u64,
    cmd: Seq<u8>,
    args: Seq<Option<Seq<u8>>>,
    m: EventModel,
) -> bool {
    &&& m.wf()
    &&& m.pid == pid
    &&& m.timestamp == timestamp
    &&& m.command == spec_buffer_of(cmd, COMMAND_LEN as int)
    &&& m.command_len == spec_captured_len(cmd, COMMAND_LEN as int)
    &&& forall|i: int|
        0 <= i < ARGV_OFFSET ==> #[trigger] m.argvs[i] == if live_until(args, i + 1) {
            spec_buffer_of(args[i]->Some_0, ARGV_LEN as int)
        } else {
            Seq::new(ARGV_LEN as nat, |j: int| 0u8)
        }
    &&& forall|i: int|
        0 <= i < ARGV_OFFSET ==> #[trigger] m.argvs_offset[i] == if live_until(args, i + 1) {
            spec_captured_len(args[i]->Some_0, ARGV_LEN as int)
        } else {
            0
        }
}

/// A fresh zeroed buffer of the given capacity.
fn zero_buffer(cap: usize) -> (r: Vec<u8>)
    ensures
        r@ == Seq::new(cap as nat, |j: int| 0u8),
{
    let mut buf: Vec<u8> = Vec::new();
    let mut i: usize = 0;
    while i < cap
        invariant
            i <= cap,
            buf@ == Seq::new(i as nat, |j: int| 0u8),
        decreases cap - i,
    {
        buf.push(0u8);
        proof {
            assert(buf@ =~= Seq::new((i + 1) as nat, |j: int| 0u8));
        }
        i = i + 1;
    }
    buf
}

/// Builds the record for one trace event: copies the command path with
/// truncation and walks the argument slots in order, stopping at the first
/// absent source.
pub fn capture_event(
    pid: u32,
    timestamp: u64,
    command_src: &[u8],
    args: &Vec<Option<Vec<u8>>>,
) -> (ev: ExecEvent)
    ensures
        ev.wf(),
        captures(pid, timestamp, command_src@, arg_views(args@), ev@),
{
    let packed = pack_buffer(command_src, COMMAND_LEN);
    let command = packed.0;
    let command_len = packed.1;
    let ghost av = arg_views(args@);
    let mut argvs: Vec<Vec<u8>> = Vec::new();
    let mut argvs_offset: Vec<usize> = Vec::new();
    let mut stopped = false;
    let mut i: usize = 0;
    while i < ARGV_OFFSET
        invariant
            i <= ARGV_OFFSET,
            av == arg_views(args@),
            argvs@.len() == i,
            argvs_offset@.len() == i,
            stopped <==> !live_until(av, i as int),
            forall|j: int|
                0 <= j < i ==> (#[trigger] argvs@[j])@ == if live_until(av, j + 1) {
                    spec_buffer_of(av[j]->Some_0, ARGV_LEN as int)
                } else {
                    Seq::new(ARGV_LEN as nat, |k: int| 0u8)
                },
            forall|j: int|
                0 <= j < i ==> #[trigger] argvs_offset@[j] == if live_until(av, j + 1) {
                    spec_captured_len(av[j]->Some_0, ARGV_LEN as int)
                } else {
                    0
                },
        decreases ARGV_OFFSET - i,
    {
        let mut advanced = false;
        if !stopped && i < args.len() {
            match &args[i] {
                Some(src) => {
                    let packed_arg = pack_buffer(src.as_slice(), ARGV_LEN);
                    argvs.push(packed_arg.0);
                    argvs_offset.push(packed_arg.1);
                    advanced = true;
                    proof {
                        assert(av[i as int] is Some && av[i as int]->Some_0 == src@);
                        assert(live_until(av, i + 1));
                    }
                },
                None => {
                    proof {
                        assert(av[i as int] is None);
                    }
                },
            }
        }
        if !advanced {
            stopped = true;
            argvs.push(zero_buffer(ARGV_LEN));
            argvs_offset.push(0);
            proof {
                assert(!live_until(av, i + 1));
            }
        }
        i = i + 1;
    }
    let ev = ExecEvent { pid, timestamp, command, command_len, argvs, argvs_offset };
    proof {
        assert forall|j: int| 0 <= j < ARGV_OFFSET implies (#[trigger] ev@.argvs[j]).len()
            == ARGV_LEN by {
            assert(ev@.argvs[j] == argvs@[j]@);
        }
        assert(captures(pid, timestamp, command_src@, av, ev@));
    }
    ev
}

/// The capture program's abort path. The in-kernel runtime cannot unwind, so
/// when handling an event fails the event is simply abandoned and the
/// trace-point handler reports the non-fatal status code `1`; surrounding
/// kernel state is never touched.
pub fn panic() -> (status: u32)
    ensures
        status == 1,
{
    1
}

/// What one trace-point invocation does with an event once its command and
/// arguments have been read.
pub enum CaptureOutcome {
    /// The record to publish into the per-CPU channel.
    Publish(ExecEvent),
    /// The command is excluded; nothing leaves the kernel.
    Suppress,
}

/// Handles one process-execution trace event: copies the command path (with
/// silent truncation), discards the event if the command is excluded, and
/// otherwise walks the argument slots and yields the completed record.
pub fn try_task(
    pid: u32,
    timestamp: u64,
    command_src: &[u8],
    args: &Vec<Option<Vec<u8>>>,
    excluded: &ExclusionFilter,
) -> (r: CaptureOutcome)
    ensures
        r is Suppress <==> excluded.has_key(spec_key_of(command_src@)),
        r matches CaptureOutcome::Publish(ev) ==> ev.wf() && captures(
            pid,
            timestamp,
            command_src@,
            arg_views(args@),
            ev@,
        ),
{
    proof {
        assert(command_src@.take(command_src@.len() as int) =~= command_src@);
    }
    if is_excluded(command_src, command_src.len(), excluded) {
        return CaptureOutcome::Suppress;
    }
    CaptureOutcome::Publish(capture_event(pid, timestamp, command_src, args))
}

} // verus!
