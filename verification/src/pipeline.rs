//! The inference pipeline's attacker-set gate.
//!
//! The pipeline consumes snapshots one at a time. A snapshot whose source
//! address is already flagged is discarded before the classifier is ever
//! consulted; for any other snapshot the external classifier is invoked,
//! and a positive verdict flags the source address and raises an alert
//! naming both endpoints. The set is append-only for the life of the
//! process, so flagging is a monotone gate, never a re-evaluation policy.

use crate::wire::EventInfo;
use vstd::prelude::*;

verus! {

/// Source addresses already flagged as attackers. Append-only: addresses
/// are only ever added, never removed.
pub struct AttackerSet {
    addrs: Vec<u32>,
}

impl View for AttackerSet {
    type V = Set<u32>;

    closed spec fn view(&self) -> Set<u32> {
        self.addrs@.to_set()
    }
}

impl AttackerSet {
    /// Each address is recorded once.
    pub closed spec fn wf(&self) -> bool {
        forall|i: int, j: int|
            0 <= i < j < self.addrs@.len() ==> self.addrs@[i] != self.addrs@[j]
    }

    pub fn new() -> (r: AttackerSet)
        ensures
            r@ == Set::<u32>::empty(),
            r.wf(),
    {
        let r = AttackerSet { addrs: Vec::new() };
        proof {
            assert(r@ =~= Set::<u32>::empty());
        }
        r
    }

    /// Whether `addr` has already been flagged.
    pub fn contains(&self, addr: u32) -> (r: bool)
        ensures
            r == self@.contains(addr),
    {
        let n = self.addrs.len();
        let mut i: usize = 0;
        while i < n
            invariant
                n == self.addrs@.len(),
                i <= n,
                forall|j: int| 0 <= j < i ==> self.addrs@[j] != addr,
            decreases n - i,
        {
            if self.addrs[i] == addr {
                proof {
                    assert(self.addrs@.contains(addr));
                }
                return true;
            }
            i = i + 1;
        }
        proof {
            assert(!self.addrs@.contains(addr));
        }
        false
    }

    /// Flag `addr`. The set grows by at most this one address and loses
    /// nothing.
    pub fn insert(&mut self, addr: u32)
        requires
            old(self).wf(),
        ensures
            final(self).wf(),
            final(self)@ == old(self)@.insert(addr),
    {
        if !self.contains(addr) {
            self.addrs.push(addr);
            proof {
                old(self).addrs@.lemma_push_to_set_commute(addr);
                assert(self@ =~= old(self)@.insert(addr));
            }
        } else {
            proof {
                assert(self@ =~= old(self)@.insert(addr));
            }
        }
    }
}

/// Whether a snapshot is forwarded to the classifier: only when its source
/// address is not yet flagged.
pub open spec fn spec_should_classify(attackers: Set<u32>, info: EventInfo) -> bool {
    !attackers.contains(info.ip_src)
}

/// Decide whether the classifier is consulted for this snapshot. Snapshots
/// from an already-flagged source are discarded here, so the classifier is
/// never queried twice for one source address.
pub fn should_classify(attackers: &AttackerSet, info: &EventInfo) -> (r: bool)
    ensures
        r == spec_should_classify(attackers@, *info),
{
    !attackers.contains(info.ip_src)
}

/// A user-visible alert naming both endpoints of a flow classified as an
/// attack.
#[derive(Clone, Copy, Debug, PartialEq, Eq, Structural)]
pub struct Alert {
    pub ip_src: u32,
    pub port_src: u16,
    pub ip_dst: u32,
    pub port_dst: u16,
}

/// The alert a positive verdict on `info` raises.
pub open spec fn spec_alert(info: EventInfo) -> Alert {
    Alert {
        ip_src: info.ip_src,
        port_src: info.port_src,
        ip_dst: info.ip_dst,
        port_dst: info.port_dst,
    }
}

/// Record the external classifier's verdict for a snapshot: a positive
/// verdict flags the source address and raises the alert; a negative one
/// changes nothing. The attacker set never shrinks.
pub fn record_verdict(attackers: &mut AttackerSet, info: &EventInfo, is_attack: bool) -> (alert:
    Option<Alert>)
    requires
        old(attackers).wf(),
    ensures
        final(attackers).wf(),
        is_attack ==> final(attackers)@ == old(attackers)@.insert(info.ip_src) && alert == Some(
            spec_alert(*info),
        ),
        !is_attack ==> final(attackers)@ == old(attackers)@ && alert is None,
        old(attackers)@.subset_of(final(attackers)@),
{
    if is_attack {
        attackers.insert(info.ip_src);
        Some(
            Alert {
                ip_src: info.ip_src,
                port_src: info.port_src,
                ip_dst: info.ip_dst,
                port_dst: info.port_dst,
            },
        )
    } else {
        None
    }
}

/// Dedup law: once a source address is flagged, it is flagged in every
/// later state of the append-only set, and no snapshot from that address
/// is ever forwarded to the classifier again.
pub proof fn lemma_dedup_gate(earlier: Set<u32>, later: Set<u32>, info: EventInfo)
    requires
        earlier.subset_of(later),
        earlier.contains(info.ip_src),
    ensures
        !spec_should_classify(later, info),
{
}

} // verus!
