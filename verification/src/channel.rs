//! The bounded, lossy event channel between the packet path and userspace.
//!
//! A fixed byte capacity absorbs bursts; the writer reserves space for one
//! snapshot-sized record at a time and, when the buffer lacks free space,
//! drops the event silently — emission is best-effort telemetry and never
//! blocks the packet path. Submitted records become visible to the reader
//! in the order they were written.

use crate::wire::{spec_encode, EventInfo, EVENT_RECORD_BYTES};
use vstd::prelude::*;

verus! {

/// Fixed byte capacity of the channel.
pub const EVENT_CHANNEL_BYTES: usize = 262144;

/// Bytes occupied by the queued records.
pub open spec fn used_bytes(s: Seq<Seq<u8>>) -> int {
    s.len() * EVENT_RECORD_BYTES
}

/// Whether one more record still fits.
pub open spec fn has_room(s: Seq<Seq<u8>>) -> bool {
    used_bytes(s) + EVENT_RECORD_BYTES <= EVENT_CHANNEL_BYTES
}

/// The channel after the writer tries to queue `e`: the encoded record is
/// appended when it fits, and nothing changes when it does not.
pub open spec fn emitted(s: Seq<Seq<u8>>, e: EventInfo) -> Seq<Seq<u8>> {
    if has_room(s) {
        s.push(spec_encode(e))
    } else {
        s
    }
}

/// Single-writer, single-reader bounded byte buffer holding encoded
/// snapshot records. Its view is the queue of raw records, oldest first.
pub struct EventChannel {
    records: Vec<Vec<u8>>,
}

impl View for EventChannel {
    type V = Seq<Seq<u8>>;

    closed spec fn view(&self) -> Seq<Seq<u8>> {
        self.records@.map_values(|r: Vec<u8>| r@)
    }
}

impl EventChannel {
    /// Every queued record has the fixed record size and the queue fits the
    /// byte capacity.
    pub open spec fn wf(&self) -> bool {
        &&& forall|i: int|
            0 <= i < self@.len() ==> (#[trigger] self@[i]).len() == EVENT_RECORD_BYTES
        &&& used_bytes(self@) <= EVENT_CHANNEL_BYTES
    }

    pub fn new() -> (r: EventChannel)
        ensures
            r@ == Seq::<Seq<u8>>::empty(),
            r.wf(),
    {
        let c = EventChannel { records: Vec::new() };
        proof {
            assert(c@ =~= Seq::<Seq<u8>>::empty());
        }
        c
    }

    /// Number of records waiting to be read.
    pub fn queued(&self) -> (r: usize)
        ensures
            r == self@.len(),
    {
        self.records.len()
    }

    /// Reserve space for one record, fill it with the encoded snapshot and
    /// submit it. When the buffer lacks free space the reservation fails:
    /// the snapshot is dropped, nothing blocks, no error is raised, and the
    /// return value is the only trace of the loss.
    pub fn try_emit(&mut self, info: &EventInfo) -> (ok: bool)
        requires
            old(self).wf(),
        ensures
            final(self).wf(),
            final(self)@ == emitted(old(self)@, *info),
            ok == has_room(old(self)@),
    {
        proof {
            // the capacity bound keeps the queue short, so the space check
            // below cannot overflow
            assert(self@.len() * EVENT_RECORD_BYTES <= EVENT_CHANNEL_BYTES);
        }
        if (self.records.len() + 1) * EVENT_RECORD_BYTES <= EVENT_CHANNEL_BYTES {
            let rec = info.encode();
            self.records.push(rec);
            proof {
                assert(self@ =~= old(self)@.push(spec_encode(*info)));
            }
            true
        } else {
            false
        }
    }

    /// Hand the oldest queued record to the reader, if one is waiting.
    pub fn next(&mut self) -> (r: Option<Vec<u8>>)
        requires
            old(self).wf(),
        ensures
            final(self).wf(),
            match r {
                Some(rec) => old(self)@.len() > 0 && rec@ == old(self)@[0] && final(self)@ == old(
                    self,
                )@.drop_first(),
                None => old(self)@.len() == 0 && final(self)@ == old(self)@,
            },
    {
        if self.records.len() == 0 {
            proof {
                assert(self@ =~= old(self)@);
            }
            None
        } else {
            let rec = self.records.remove(0);
            proof {
                assert(self@ =~= old(self)@.drop_first());
            }
            Some(rec)
        }
    }
}

} // verus!
