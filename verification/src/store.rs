//! Decoded executions and the bounded execution store.
//!
//! Each wire record is translated once into a [`ProcessExecution`] — pid,
//! wall-clock timestamp, decoded command, decoded arguments — and retained in
//! an [`ExecutionStorage`]: a FIFO bounded at [`MAX_EVENTS`] records with an
//! auxiliary index from pid to that pid's records. The FIFO and the index
//! move in lockstep: evicting the oldest record removes it from both, and a
//! pid's index entry disappears exactly when its last record leaves.

use crate::capture::{captures, live_until};
use crate::clock::{spec_wall_time, WallTime};
use crate::event::{EventModel, ExecEvent, ARGV_LEN, ARGV_OFFSET, COMMAND_LEN};
use crate::text::{append_str, join_spaced, lossy_of, lossy_utf8, spec_join_spaced};
use std::collections::VecDeque;
use vstd::hash_map::HashMapWithView;
use vstd::prelude::*;
use vstd::slice::slice_subrange;

verus! {

broadcast use vstd::std_specs::hash::group_hash_axioms;

/// Capacity of the execution store: the FIFO never holds more records.
pub const MAX_EVENTS: usize = 500;

/// The decoded command string of a record: its used command bytes, decoded
/// lossily.
pub open spec fn spec_command_str(m: EventModel) -> Seq<char> {
    lossy_of(m.command.take(m.command_len))
}

/// Index of the first argument slot whose recorded length is zero — the slot
/// at which the consumer stops reading — or the slot count when every slot
/// is in use.
pub open spec fn spec_first_zero(offsets: Seq<int>) -> int
    decreases offsets.len(),
{
    if offsets.len() == 0 {
        0
    } else if offsets[0] == 0 {
        0
    } else {
        1 + spec_first_zero(offsets.skip(1))
    }
}

/// The decoded arguments of a record: each slot before the first zero-length
/// slot, its used bytes decoded lossily, in slot order.
pub open spec fn spec_decoded_args(m: EventModel) -> Seq<Seq<char>> {
    Seq::new(
        spec_first_zero(m.argvs_offset) as nat,
        |i: int| lossy_of(m.argvs[i].take(m.argvs_offset[i])),
    )
}

/// The decoded arguments joined by single spaces, in capture order.
pub open spec fn spec_arg_str(m: EventModel) -> Seq<char> {
    spec_join_spaced(spec_decoded_args(m))
}

/// The full command line: the command alone when no argument was captured,
/// else the command, one space, and the joined arguments.
pub open spec fn spec_full_command(m: EventModel) -> Seq<char> {
    if spec_decoded_args(m).len() == 0 {
        spec_command_str(m)
    } else {
        spec_command_str(m) + seq![' '] + spec_arg_str(m)
    }
}

/// Where the first zero-length slot lies: all slots before it are nonzero,
/// and the slot there (when within bounds) is zero.
pub proof fn lemma_first_zero(offsets: Seq<int>)
    ensures
        0 <= spec_first_zero(offsets) <= offsets.len(),
        forall|j: int| 0 <= j < spec_first_zero(offsets) ==> offsets[j] != 0,
        spec_first_zero(offsets) < offsets.len() ==> offsets[spec_first_zero(offsets)] == 0,
    decreases offsets.len(),
{
    if offsets.len() == 0 {
    } else if offsets[0] == 0 {
    } else {
        let rest = offsets.skip(1);
        lemma_first_zero(rest);
        assert forall|j: int| 0 <= j < spec_first_zero(offsets) implies offsets[j] != 0 by {
            if j > 0 {
                assert(rest[j - 1] == offsets[j]);
            }
        }
        if spec_first_zero(offsets) < offsets.len() {
            assert(rest[spec_first_zero(offsets) - 1] == offsets[spec_first_zero(offsets)]);
        }
    }
}

/// The first zero-length slot is exactly where a left-to-right walk of
/// nonzero slots ends.
pub proof fn lemma_first_zero_position(offsets: Seq<int>, i: int)
    requires
        0 <= i <= offsets.len(),
        forall|j: int| 0 <= j < i ==> offsets[j] != 0,
        i < offsets.len() ==> offsets[i] == 0,
    ensures
        spec_first_zero(offsets) == i,
    decreases offsets.len(),
{
    if offsets.len() == 0 {
    } else if offsets[0] == 0 {
        assert(i == 0);
    } else {
        let rest = offsets.skip(1);
        assert(offsets[0] != 0);
        assert(i >= 1);
        assert forall|j: int| 0 <= j < i - 1 implies rest[j] != 0 by {
            assert(rest[j] == offsets[j + 1]);
        }
        if i - 1 < rest.len() {
            assert(rest[i - 1] == offsets[i]);
        }
        lemma_first_zero_position(rest, i - 1);
    }
}

/// One decoded process execution: the store-resident form of a wire
/// record and immutable thereafter.
#[derive(Debug)]
pub struct ProcessExecution {
    /// Process identifier.
    pub pid: u32,
    /// Absolute wall-clock time of the execution.
    pub timestamp: WallTime,
    /// The executable path, decoded lossily from the captured bytes.
    pub commandstr: String,
    /// The captured arguments joined by single spaces, in capture order,
    /// stopping at the first empty slot.
    pub argstr: String,
    /// `commandstr` alone when no argument was captured, else `commandstr`,
    /// one space, and `argstr`.
    pub full_command: String,
}

impl Clone for ProcessExecution {
    /// A clone carries exactly the same record.
    fn clone(&self) -> (r: Self)
        ensures
            r == *self,
    {
        ProcessExecution {
            pid: self.pid,
            timestamp: self.timestamp,
            commandstr: self.commandstr.clone(),
            argstr: self.argstr.clone(),
            full_command: self.full_command.clone(),
        }
    }
}

impl ProcessExecution {
    /// Translates one wire record into a decoded execution: correlates the
    /// boot-relative timestamp into wall-clock time, decodes the command
    /// path, decodes the argument slots up to the first empty one, and joins
    /// them with spaces.
    pub fn from_event(event: &ExecEvent, boot_offset_ns: i64) -> (r: ProcessExecution)
        requires
            event.wf(),
            0 <= boot_offset_ns + event.timestamp <= i64::MAX,
        ensures
            r.pid == event.pid,
            r.timestamp == spec_wall_time(boot_offset_ns as int, event.timestamp as int),
            r.commandstr@ == spec_command_str(event@),
            r.argstr@ == spec_arg_str(event@),
            r.full_command@ == spec_full_command(event@),
    {
        let ghost m = event@;
        let timestamp = WallTime::from_boot_offset(boot_offset_ns, event.timestamp);
        let commandstr = lossy_utf8(
            slice_subrange(event.command.as_slice(), 0, event.command_len),
        );
        let mut args: Vec<String> = Vec::new();
        let mut i: usize = 0;
        while i < ARGV_OFFSET && event.argvs_offset[i] != 0
            invariant
                i <= ARGV_OFFSET,
                event.wf(),
                m == event@,
                args@.len() == i,
                forall|j: int| 0 <= j < i ==> m.argvs_offset[j] != 0,
                forall|j: int|
                    0 <= j < i ==> (#[trigger] args@[j])@ == lossy_of(
                        m.argvs[j].take(m.argvs_offset[j]),
                    ),
            decreases ARGV_OFFSET - i,
        {
            let off = event.argvs_offset[i];
            proof {
                assert(m.argvs[i as int] == event.argvs@[i as int]@);
                assert(m.argvs_offset[i as int] == event.argvs_offset@[i as int] as int);
                assert(m.argvs[i as int].len() == ARGV_LEN);
                assert(m.argvs_offset[i as int] <= ARGV_LEN);
            }
            args.push(lossy_utf8(slice_subrange(event.argvs[i].as_slice(), 0, off)));
            i = i + 1;
        }
        proof {
            lemma_first_zero_position(m.argvs_offset, i as int);
            assert(args@.map_values(|s: String| s@) =~= spec_decoded_args(m));
        }
        let argstr = join_spaced(&args);
        let full_command = if args.len() == 0 {
            commandstr.clone()
        } else {
            let mut fc = commandstr.clone();
            append_str(&mut fc, " ");
            append_str(&mut fc, argstr.as_str());
            proof {
                reveal_strlit(" ");
                assert(" "@ =~= seq![' ']);
            }
            fc
        };
        ProcessExecution { pid: event.pid, timestamp, commandstr, argstr, full_command }
    }
}

/// All records with the given pid, in their order within `execs`.
pub open spec fn executions_for(execs: Seq<ProcessExecution>, pid: u32) -> Seq<ProcessExecution>
    decreases execs.len(),
{
    if execs.len() == 0 {
        Seq::empty()
    } else if execs[0].pid == pid {
        seq![execs[0]] + executions_for(execs.skip(1), pid)
    } else {
        executions_for(execs.skip(1), pid)
    }
}

/// What one addition does to the retained history: the record goes to the
/// tail, and when the history is already at capacity the oldest record
/// leaves first.
pub open spec fn spec_after_add(
    execs: Seq<ProcessExecution>,
    e: ProcessExecution,
) -> Seq<ProcessExecution> {
    if execs.len() < MAX_EVENTS {
        execs.push(e)
    } else {
        execs.skip(1).push(e)
    }
}

/// Appending a record extends exactly its own pid's view and no other.
pub proof fn lemma_executions_for_push(
    execs: Seq<ProcessExecution>,
    pid: u32,
    e: ProcessExecution,
)
    ensures
        executions_for(execs.push(e), pid) == if e.pid == pid {
            executions_for(execs, pid).push(e)
        } else {
            executions_for(execs, pid)
        },
    decreases execs.len(),
{
    let s = execs.push(e);
    if execs.len() == 0 {
        assert(s.skip(1) =~= Seq::<ProcessExecution>::empty());
        assert(s[0] == e);
        assert(executions_for(Seq::<ProcessExecution>::empty(), pid)
            == Seq::<ProcessExecution>::empty());
        if e.pid == pid {
            assert(executions_for(s, pid) =~= executions_for(execs, pid).push(e));
        }
    } else {
        assert(s[0] == execs[0]);
        assert(s.skip(1) =~= execs.skip(1).push(e));
        lemma_executions_for_push(execs.skip(1), pid, e);
        if execs[0].pid == pid && e.pid == pid {
            assert(seq![execs[0]] + executions_for(execs.skip(1), pid).push(e) =~= (seq![
                execs[0],
            ] + executions_for(execs.skip(1), pid)).push(e));
        }
    }
}

/// Eviction consistency: the history holds no record for a pid exactly when
/// the per-pid view of that history is empty — the two read views can never
/// contradict each other.
pub proof fn lemma_eviction_consistency(execs: Seq<ProcessExecution>, pid: u32)
    ensures
        executions_for(execs, pid).len() == 0 <==> (forall|i: int|
            0 <= i < execs.len() ==> (#[trigger] execs[i]).pid != pid),
    decreases execs.len(),
{
    if execs.len() == 0 {
    } else {
        let rest = execs.skip(1);
        lemma_eviction_consistency(rest, pid);
        if execs[0].pid == pid {
            assert(executions_for(execs, pid).len() > 0);
            assert(execs[0].pid == pid);
        } else {
            if executions_for(execs, pid).len() == 0 {
                assert forall|i: int| 0 <= i < execs.len() implies (#[trigger] execs[i]).pid
                    != pid by {
                    if i > 0 {
                        assert(rest[i - 1] == execs[i]);
                    }
                }
            } else {
                assert(executions_for(rest, pid).len() != 0);
                let w = choose|i: int| 0 <= i < rest.len() && (#[trigger] rest[i]).pid == pid;
                assert(execs[w + 1].pid == pid);
            }
        }
    }
}

/// Copies a run of records.
fn clone_executions(v: &Vec<ProcessExecution>) -> (r: Vec<ProcessExecution>)
    ensures
        r@ == v@,
{
    let n = v.len();
    let mut r: Vec<ProcessExecution> = Vec::new();
    let mut i: usize = 0;
    while i < n
        invariant
            i <= n,
            n == v@.len(),
            r@ == v@.take(i as int),
        decreases n - i,
    {
        r.push(v[i].clone());
        proof {
            assert(r@ =~= v@.take(i + 1));
        }
        i = i + 1;
    }
    proof {
        assert(v@.take(n as int) =~= v@);
    }
    r
}

/// Bounded, queryable history of decoded executions: a FIFO of at most
/// [`MAX_EVENTS`] records plus an index from pid to that pid's records, the
/// two kept consistent through every mutation.
pub struct ExecutionStorage {
    executions: VecDeque<ProcessExecution>,
    by_pid: HashMapWithView<u32, Vec<ProcessExecution>>,
}

impl ExecutionStorage {
    /// The retained history, oldest first.
    pub closed spec fn all(self) -> Seq<ProcessExecution> {
        self.executions@
    }

    /// The store's invariant: the FIFO respects the capacity, a pid has an
    /// index entry exactly when the FIFO holds a record of it, and the entry
    /// lists exactly that pid's records in FIFO order.
    pub closed spec fn wf(self) -> bool {
        &&& self.executions@.len() <= MAX_EVENTS
        &&& forall|p: u32|
            #[trigger] self.by_pid@.contains_key(p) <==> executions_for(self.executions@, p).len()
                != 0
        &&& forall|p: u32|
            self.by_pid@.contains_key(p) ==> (#[trigger] self.by_pid@[p])@ == executions_for(
                self.executions@,
                p,
            )
    }

    /// An empty store.
    pub fn new() -> (s: ExecutionStorage)
        ensures
            s.wf(),
            s.all() == Seq::<ProcessExecution>::empty(),
    {
        ExecutionStorage { executions: VecDeque::new(), by_pid: HashMapWithView::new() }
    }

    /// Appends one record. When the store is at capacity the oldest record
    /// is evicted first — from the FIFO and from the index as one step, the
    /// evicted pid's index entry deleted once it holds nothing.
    pub fn add_execution(&mut self, execution: ProcessExecution)
        requires
            old(self).wf(),
        ensures
            final(self).wf(),
            final(self).all() == spec_after_add(old(self).all(), execution),
    {
        if self.executions.len() >= MAX_EVENTS {
            let ghost pre = self.executions@;
            let evicted = self.executions.pop_front().unwrap();
            proof {
                assert(executions_for(pre, evicted.pid).len() != 0);
            }
            let mut bucket = self.by_pid.remove(&evicted.pid).unwrap();
            bucket.remove(0);
            if bucket.len() > 0 {
                self.by_pid.insert(evicted.pid, bucket);
            }
            proof {
                let rest = self.executions@;
                assert(rest =~= pre.skip(1));
                assert(bucket@ =~= executions_for(pre, evicted.pid).skip(1));
                assert(executions_for(pre, evicted.pid) == seq![evicted] + executions_for(
                    rest,
                    evicted.pid,
                ));
                assert(bucket@ =~= executions_for(rest, evicted.pid));
                assert forall|p: u32| #[trigger] self.by_pid@.contains_key(p) <==> executions_for(
                    rest,
                    p,
                ).len() != 0 by {
                    if p != evicted.pid {
                        assert(executions_for(pre, p) == executions_for(rest, p));
                    }
                }
                assert forall|p: u32| self.by_pid@.contains_key(p) implies (
                #[trigger] self.by_pid@[p])@ == executions_for(rest, p) by {
                    if p != evicted.pid {
                        assert(executions_for(pre, p) == executions_for(rest, p));
                        assert(self.by_pid@[p] == old(self).by_pid@[p]);
                    }
                }
                assert(self.wf());
            }
        }
        let ghost mid = self.executions@;
        let pid = execution.pid;
        self.executions.push_back(execution.clone());
        match self.by_pid.remove(&pid) {
            Some(mut bucket) => {
                bucket.push(execution);
                self.by_pid.insert(pid, bucket);
            },
            None => {
                let mut bucket: Vec<ProcessExecution> = Vec::new();
                bucket.push(execution);
                self.by_pid.insert(pid, bucket);
            },
        }
        proof {
            let now = self.executions@;
            assert(now == mid.push(execution));
            assert forall|p: u32| #[trigger] self.by_pid@.contains_key(p) <==> executions_for(
                now,
                p,
            ).len() != 0 by {
                lemma_executions_for_push(mid, p, execution);
            }
            assert forall|p: u32| self.by_pid@.contains_key(p) implies (
            #[trigger] self.by_pid@[p])@ == executions_for(now, p) by {
                lemma_executions_for_push(mid, p, execution);
                if p == pid {
                    if executions_for(mid, pid).len() == 0 {
                        assert(self.by_pid@[p]@ =~= executions_for(mid, pid).push(execution));
                    }
                }
            }
            assert(self.wf());
            assert(self.all() == spec_after_add(old(self).all(), execution));
        }
    }

    /// A snapshot of the retained history, oldest first: never more than
    /// [`MAX_EVENTS`] records, whatever sequence of additions came before.
    pub fn get_all_executions(&self) -> (r: Vec<ProcessExecution>)
        requires
            self.wf(),
        ensures
            r@ == self.all(),
            r@.len() <= MAX_EVENTS,
    {
        let n = self.executions.len();
        let mut r: Vec<ProcessExecution> = Vec::new();
        let mut i: usize = 0;
        while i < n
            invariant
                i <= n,
                n == self.executions@.len(),
                r@ == self.executions@.take(i as int),
            decreases n - i,
        {
            r.push(self.executions[i].clone());
            proof {
                assert(r@ =~= self.executions@.take(i + 1));
            }
            i = i + 1;
        }
        proof {
            assert(self.executions@.take(n as int) =~= self.executions@);
        }
        r
    }

    /// A snapshot of the records retained for `pid`, oldest first; empty —
    /// not an error — when none are retained.
    pub fn get_executions_by_pid(&self, pid: u32) -> (r: Vec<ProcessExecution>)
        requires
            self.wf(),
        ensures
            r@ == executions_for(self.all(), pid),
    {
        match self.by_pid.get(&pid) {
            Some(bucket) => clone_executions(bucket),
            None => {
                proof {
                    assert(executions_for(self.all(), pid) =~= Seq::<ProcessExecution>::empty());
                }
                Vec::new()
            },
        }
    }
}

/// Truncation: when a source string is longer than its fixed buffer, the
/// recorded length equals the buffer capacity, and the decoded string is the
/// decoding of exactly the first capacity-many source bytes.
pub proof fn lemma_truncation(
    pid: u32,
    timestamp: u64,
    cmd: Seq<u8>,
    args: Seq<Option<Seq<u8>>>,
    m: EventModel,
)
    requires
        captures(pid, timestamp, cmd, args, m),
    ensures
        cmd.len() > COMMAND_LEN ==> m.command_len == COMMAND_LEN && spec_command_str(m)
            == lossy_of(cmd.take(COMMAND_LEN as int)),
        forall|i: int|
            0 <= i < ARGV_OFFSET && live_until(args, i + 1) && (args[i]->Some_0).len() > ARGV_LEN
                ==> m.argvs_offset[i] == ARGV_LEN && lossy_of(
                (#[trigger] m.argvs[i]).take(m.argvs_offset[i]),
            ) == lossy_of((args[i]->Some_0).take(ARGV_LEN as int)),
{
    if cmd.len() > COMMAND_LEN {
        assert(m.command.take(m.command_len) =~= cmd.take(COMMAND_LEN as int));
    }
    assert forall|i: int|
        0 <= i < ARGV_OFFSET && live_until(args, i + 1) && (args[i]->Some_0).len()
            > ARGV_LEN implies m.argvs_offset[i] == ARGV_LEN && lossy_of(
        (#[trigger] m.argvs[i]).take(m.argvs_offset[i]),
    ) == lossy_of((args[i]->Some_0).take(ARGV_LEN as int)) by {
        assert(m.argvs[i].take(m.argvs_offset[i]) =~= (args[i]->Some_0).take(ARGV_LEN as int));
    }
}

/// Argument stop: the decoded argument list covers exactly the slots before
/// the first zero-length slot; no slot at or after it contributes.
pub proof fn lemma_argument_stop(m: EventModel)
    requires
        m.wf(),
    ensures
        0 <= spec_decoded_args(m).len() <= m.argvs_offset.len(),
        forall|j: int|
            0 <= j < spec_decoded_args(m).len() ==> #[trigger] m.argvs_offset[j] != 0
                && spec_decoded_args(m)[j] == lossy_of(m.argvs[j].take(m.argvs_offset[j])),
        spec_decoded_args(m).len() < m.argvs_offset.len() ==> m.argvs_offset[spec_decoded_args(
            m,
        ).len() as int] == 0,
{
    lemma_first_zero(m.argvs_offset);
}

} // verus!
