//! The canonical byte layout of one event record.
//!
//! The kernel producer and the userspace consumer cross a privilege boundary
//! and are built by different toolchains, so they agree on an explicit
//! serialization contract rather than on an in-memory struct overlay: every
//! field has a fixed offset and width, integers are little-endian, and the
//! recorded lengths are validated against their buffer capacities on decode.

use crate::event::{EventModel, ExecEvent, ARGV_LEN, ARGV_OFFSET, COMMAND_LEN};
use vstd::bytes::{
    lemma_auto_spec_u32_to_from_le_bytes, lemma_auto_spec_u64_to_from_le_bytes,
    spec_u32_from_le_bytes, spec_u32_to_le_bytes, spec_u64_from_le_bytes, spec_u64_to_le_bytes,
    u32_from_le_bytes, u32_to_le_bytes, u64_from_le_bytes, u64_to_le_bytes,
};
use vstd::prelude::*;
use vstd::slice::{slice_subrange, slice_to_vec};

verus! {

/// Total size in bytes of one encoded event record:
/// pid (4) + timestamp (8) + command (64) + command_len (8)
/// + argument buffers (4 * 32) + argument lengths (4 * 8).
pub const EVENT_WIRE_SIZE: usize = 244;

/// The canonical encoding of a record: fields in declaration order,
/// multi-byte integers little-endian, length fields widened to eight bytes.
pub open spec fn spec_encode(m: EventModel) -> Seq<u8>
    recommends
        m.wf(),
{
    spec_u32_to_le_bytes(m.pid) + spec_u64_to_le_bytes(m.timestamp) + m.command
        + spec_u64_to_le_bytes(m.command_len as u64) + m.argvs[0] + m.argvs[1] + m.argvs[2]
        + m.argvs[3] + spec_u64_to_le_bytes(m.argvs_offset[0] as u64) + spec_u64_to_le_bytes(
        m.argvs_offset[1] as u64,
    ) + spec_u64_to_le_bytes(m.argvs_offset[2] as u64) + spec_u64_to_le_bytes(
        m.argvs_offset[3] as u64,
    )
}

/// The bytes form a decodable record: right total size, and every recorded
/// length within its buffer's capacity.
pub open spec fn valid_wire(b: Seq<u8>) -> bool {
    &&& b.len() == EVENT_WIRE_SIZE
    &&& spec_u64_from_le_bytes(b.subrange(76, 84)) <= COMMAND_LEN as u64
    &&& forall|i: int|
        0 <= i < ARGV_OFFSET ==> spec_u64_from_le_bytes(
            #[trigger] b.subrange(212 + 8 * i, 220 + 8 * i),
        ) <= ARGV_LEN as u64
}

/// The record described by a valid byte string.
pub open spec fn spec_decode(b: Seq<u8>) -> EventModel
    recommends
        valid_wire(b),
{
    EventModel {
        pid: spec_u32_from_le_bytes(b.subrange(0, 4)),
        timestamp: spec_u64_from_le_bytes(b.subrange(4, 12)),
        command: b.subrange(12, 76),
        command_len: spec_u64_from_le_bytes(b.subrange(76, 84)) as int,
        argvs: Seq::new(
            ARGV_OFFSET as nat,
            |i: int| b.subrange(84 + 32 * i, 116 + 32 * i),
        ),
        argvs_offset: Seq::new(
            ARGV_OFFSET as nat,
            |i: int| spec_u64_from_le_bytes(b.subrange(212 + 8 * i, 220 + 8 * i)) as int,
        ),
    }
}

/// Appends all of `b` to `out`, in order.
fn append_bytes(out: &mut Vec<u8>, b: &[u8])
    ensures
        final(out)@ == old(out)@ + b@,
{
    let n = b.len();
    let mut i: usize = 0;
    while i < n
        invariant
            i <= n,
            n == b@.len(),
            out@ == old(out)@ + b@.take(i as int),
        decreases n - i,
    {
        out.push(*vstd::slice::slice_index_get(b, i));
        proof {
            assert(out@ =~= old(out)@ + b@.take(i + 1));
        }
        i = i + 1;
    }
    proof {
        assert(out@ =~= old(out)@ + b@);
    }
}

/// Serializes one record into its canonical wire bytes.
pub fn encode(e: &ExecEvent) -> (out: Vec<u8>)
    requires
        e.wf(),
    ensures
        out@ == spec_encode(e@),
        out@.len() == EVENT_WIRE_SIZE,
{
    proof {
        lemma_auto_spec_u32_to_from_le_bytes();
        lemma_auto_spec_u64_to_from_le_bytes();
    }
    let mut out: Vec<u8> = Vec::new();
    let pid_bytes = u32_to_le_bytes(e.pid);
    append_bytes(&mut out, pid_bytes.as_slice());
    let ts_bytes = u64_to_le_bytes(e.timestamp);
    append_bytes(&mut out, ts_bytes.as_slice());
    append_bytes(&mut out, e.command.as_slice());
    let len_bytes = u64_to_le_bytes(e.command_len as u64);
    append_bytes(&mut out, len_bytes.as_slice());
    append_bytes(&mut out, e.argvs[0].as_slice());
    append_bytes(&mut out, e.argvs[1].as_slice());
    append_bytes(&mut out, e.argvs[2].as_slice());
    append_bytes(&mut out, e.argvs[3].as_slice());
    let off0 = u64_to_le_bytes(e.argvs_offset[0] as u64);
    append_bytes(&mut out, off0.as_slice());
    let off1 = u64_to_le_bytes(e.argvs_offset[1] as u64);
    append_bytes(&mut out, off1.as_slice());
    let off2 = u64_to_le_bytes(e.argvs_offset[2] as u64);
    append_bytes(&mut out, off2.as_slice());
    let off3 = u64_to_le_bytes(e.argvs_offset[3] as u64);
    append_bytes(&mut out, off3.as_slice());
    proof {
        assert(out@ =~= spec_encode(e@));
    }
    out
}

/// Deserializes one record from its wire bytes. Returns `None` exactly when
/// the bytes are not a valid encoding: wrong total size, or some recorded
/// length larger than its buffer (a short or corrupted read).
pub fn decode(bytes: &[u8]) -> (r: Option<ExecEvent>)
    ensures
        r.is_some() <==> valid_wire(bytes@),
        r matches Some(ev) ==> ev.wf() && ev@ == spec_decode(bytes@),
{
    proof {
        lemma_auto_spec_u64_to_from_le_bytes();
    }
    if bytes.len() != EVENT_WIRE_SIZE {
        return None;
    }
    let pid = u32_from_le_bytes(slice_subrange(bytes, 0, 4));
    let timestamp = u64_from_le_bytes(slice_subrange(bytes, 4, 12));
    let command = slice_to_vec(slice_subrange(bytes, 12, 76));
    let command_len_wire = u64_from_le_bytes(slice_subrange(bytes, 76, 84));
    if command_len_wire > COMMAND_LEN as u64 {
        return None;
    }
    let command_len = command_len_wire as usize;
    let mut argvs: Vec<Vec<u8>> = Vec::new();
    argvs.push(slice_to_vec(slice_subrange(bytes, 84, 116)));
    argvs.push(slice_to_vec(slice_subrange(bytes, 116, 148)));
    argvs.push(slice_to_vec(slice_subrange(bytes, 148, 180)));
    argvs.push(slice_to_vec(slice_subrange(bytes, 180, 212)));
    let off0 = u64_from_le_bytes(slice_subrange(bytes, 212, 220));
    let off1 = u64_from_le_bytes(slice_subrange(bytes, 220, 228));
    let off2 = u64_from_le_bytes(slice_subrange(bytes, 228, 236));
    let off3 = u64_from_le_bytes(slice_subrange(bytes, 236, 244));
    if off0 > ARGV_LEN as u64 || off1 > ARGV_LEN as u64 || off2 > ARGV_LEN as u64 || off3
        > ARGV_LEN as u64 {
        proof {
            assert(!valid_wire(bytes@)) by {
                if off0 > ARGV_LEN as u64 {
                    assert(bytes@.subrange(212, 220) == bytes@.subrange(212 + 8 * 0int, 220 + 8 * 0int));
                } else if off1 > ARGV_LEN as u64 {
                    assert(bytes@.subrange(220, 228) == bytes@.subrange(212 + 8 * 1int, 220 + 8 * 1int));
                } else if off2 > ARGV_LEN as u64 {
                    assert(bytes@.subrange(228, 236) == bytes@.subrange(212 + 8 * 2int, 220 + 8 * 2int));
                } else {
                    assert(bytes@.subrange(236, 244) == bytes@.subrange(212 + 8 * 3int, 220 + 8 * 3int));
                }
            }
        }
        return None;
    }
    let mut argvs_offset: Vec<usize> = Vec::new();
    argvs_offset.push(off0 as usize);
    argvs_offset.push(off1 as usize);
    argvs_offset.push(off2 as usize);
    argvs_offset.push(off3 as usize);
    let ev = ExecEvent { pid, timestamp, command, command_len, argvs, argvs_offset };
    proof {
        assert forall|i: int| 0 <= i < ARGV_OFFSET implies spec_u64_from_le_bytes(
            #[trigger] bytes@.subrange(212 + 8 * i, 220 + 8 * i),
        ) <= ARGV_LEN as u64 by {
            if i == 0 {
                assert(bytes@.subrange(212 + 8 * 0int, 220 + 8 * 0int) == bytes@.subrange(212, 220));
            } else if i == 1 {
                assert(bytes@.subrange(212 + 8 * 1int, 220 + 8 * 1int) == bytes@.subrange(220, 228));
            } else if i == 2 {
                assert(bytes@.subrange(212 + 8 * 2int, 220 + 8 * 2int) == bytes@.subrange(228, 236));
            } else {
                assert(bytes@.subrange(212 + 8 * 3int, 220 + 8 * 3int) == bytes@.subrange(236, 244));
            }
        }
        assert(valid_wire(bytes@));
        assert(ev@.argvs =~= spec_decode(bytes@).argvs) by {
            assert(bytes@.subrange(84 + 32 * 0int, 116 + 32 * 0int) == bytes@.subrange(84, 116));
            assert(bytes@.subrange(84 + 32 * 1int, 116 + 32 * 1int) == bytes@.subrange(116, 148));
            assert(bytes@.subrange(84 + 32 * 2int, 116 + 32 * 2int) == bytes@.subrange(148, 180));
            assert(bytes@.subrange(84 + 32 * 3int, 116 + 32 * 3int) == bytes@.subrange(180, 212));
        }
        assert(ev@.argvs_offset =~= spec_decode(bytes@).argvs_offset) by {
            assert(bytes@.subrange(212 + 8 * 0int, 220 + 8 * 0int) == bytes@.subrange(212, 220));
            assert(bytes@.subrange(212 + 8 * 1int, 220 + 8 * 1int) == bytes@.subrange(220, 228));
            assert(bytes@.subrange(212 + 8 * 2int, 220 + 8 * 2int) == bytes@.subrange(228, 236));
            assert(bytes@.subrange(212 + 8 * 3int, 220 + 8 * 3int) == bytes@.subrange(236, 244));
        }
        assert(ev@ =~= spec_decode(bytes@));
    }
    Some(ev)
}

/// The canonical layout loses nothing: a well-formed record encodes to valid
/// wire bytes, and decoding those bytes yields the record back.
pub proof fn lemma_wire_round_trip(m: EventModel)
    requires
        m.wf(),
    ensures
        valid_wire(spec_encode(m)),
        spec_decode(spec_encode(m)) == m,
{
    lemma_auto_spec_u32_to_from_le_bytes();
    lemma_auto_spec_u64_to_from_le_bytes();
    let b = spec_encode(m);
    assert(b.len() == EVENT_WIRE_SIZE);
    assert(b.subrange(0, 4) =~= spec_u32_to_le_bytes(m.pid));
    assert(b.subrange(4, 12) =~= spec_u64_to_le_bytes(m.timestamp));
    assert(b.subrange(12, 76) =~= m.command);
    assert(b.subrange(76, 84) =~= spec_u64_to_le_bytes(m.command_len as u64));
    assert forall|i: int| 0 <= i < ARGV_OFFSET implies #[trigger] b.subrange(
        84 + 32 * i,
        116 + 32 * i,
    ) =~= m.argvs[i] by {
        assert(m.argvs[i].len() == ARGV_LEN);
    }
    assert forall|i: int| 0 <= i < ARGV_OFFSET implies #[trigger] b.subrange(
        212 + 8 * i,
        220 + 8 * i,
    ) =~= spec_u64_to_le_bytes(m.argvs_offset[i] as u64) by {
        assert(spec_u64_to_le_bytes(m.argvs_offset[i] as u64).len() == 8);
    }
    assert forall|i: int| 0 <= i < ARGV_OFFSET implies spec_u64_from_le_bytes(
        #[trigger] b.subrange(212 + 8 * i, 220 + 8 * i),
    ) == m.argvs_offset[i] as u64 by {
        assert(b.subrange(212 + 8 * i, 220 + 8 * i) == spec_u64_to_le_bytes(
            m.argvs_offset[i] as u64,
        ));
    }
    assert(valid_wire(b));
    assert(spec_decode(b).argvs =~= m.argvs);
    assert(spec_decode(b).argvs_offset =~= m.argvs_offset);
    assert(spec_decode(b) =~= m);
}

/// The other direction: valid wire bytes are exactly the encoding of the
/// record they describe, so decoding loses nothing either.
pub proof fn lemma_wire_round_trip_bytes(b: Seq<u8>)
    requires
        valid_wire(b),
    ensures
        spec_decode(b).wf(),
        spec_encode(spec_decode(b)) == b,
{
    lemma_auto_spec_u32_to_from_le_bytes();
    lemma_auto_spec_u64_to_from_le_bytes();
    let m = spec_decode(b);
    assert forall|i: int| 0 <= i < ARGV_OFFSET implies 0 <= #[trigger] m.argvs_offset[i]
        <= ARGV_LEN by {
        assert(spec_u64_from_le_bytes(b.subrange(212 + 8 * i, 220 + 8 * i)) <= ARGV_LEN as u64);
    }
    assert(m.wf());
    assert(spec_u32_to_le_bytes(m.pid) == b.subrange(0, 4));
    assert(spec_u64_to_le_bytes(m.timestamp) == b.subrange(4, 12));
    assert(m.command_len as u64 == spec_u64_from_le_bytes(b.subrange(76, 84)));
    assert(spec_u64_to_le_bytes(m.command_len as u64) == b.subrange(76, 84));
    assert forall|i: int| 0 <= i < ARGV_OFFSET implies spec_u64_to_le_bytes(
        #[trigger] m.argvs_offset[i] as u64,
    ) == b.subrange(212 + 8 * i, 220 + 8 * i) by {
        assert(m.argvs_offset[i] as u64 == spec_u64_from_le_bytes(
            b.subrange(212 + 8 * i, 220 + 8 * i),
        ));
    }
    assert(spec_encode(m) =~= b);
}

} // verus!
