//! The userspace event poller's work on the event channel.
//!
//! When the channel's descriptor signals readiness, the poller drains every
//! record currently queued, decodes each raw byte span into a snapshot and
//! hands the snapshots on in arrival order. Forwarding them into the
//! bounded in-process channel toward the inference pipeline — and
//! suspending while that channel is full — is the surrounding task's
//! business; backpressure never reaches the kernel-side event channel.

use crate::channel::{emitted, has_room, EventChannel};
use crate::wire::{spec_decode, EventInfo};
use vstd::prelude::*;

verus! {

/// Drain every queued record and decode it. The result holds one snapshot
/// per queued record, in arrival order; afterwards the channel is empty.
pub fn drain_events(events: &mut EventChannel) -> (out: Vec<EventInfo>)
    requires
        old(events).wf(),
    ensures
        final(events).wf(),
        final(events)@.len() == 0,
        out@.len() == old(events)@.len(),
        forall|i: int| 0 <= i < out@.len() ==> #[trigger] out@[i] == spec_decode(old(events)@[i]),
{
    let ghost orig = events@;
    let mut out: Vec<EventInfo> = Vec::new();
    while events.queued() > 0
        invariant
            events.wf(),
            out@.len() + events@.len() == orig.len(),
            forall|i: int| 0 <= i < events@.len() ==> #[trigger] events@[i] == orig[out@.len() + i],
            forall|i: int| 0 <= i < out@.len() ==> #[trigger] out@[i] == spec_decode(orig[i]),
        decreases events@.len(),
    {
        if let Some(rec) = events.next() {
            if let Some(info) = EventInfo::decode(rec.as_slice()) {
                out.push(info);
            }
            // a well-formed channel only holds records of the fixed size,
            // so the decode above cannot have failed
        }
    }
    out
}

/// Transport faithfulness: a snapshot the packet path managed to queue is
/// exactly what the poller decodes from the record — the channel either
/// drops a snapshot whole or delivers it unaltered.
pub proof fn lemma_forwarded_equals_emitted(e: Seq<Seq<u8>>, info: EventInfo)
    requires
        has_room(e),
    ensures
        emitted(e, info).len() == e.len() + 1,
        spec_decode(emitted(e, info).last()) == info,
{
    crate::wire::lemma_decode_of_encode(info);
}

} // verus!
