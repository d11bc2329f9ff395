//! Acknowledgement tracking for reliable data: which incoming reliable data
//! packets still owe an outgoing ack, and which reliable data packets we sent
//! still await one. Both are sets of unique (channel, sequence) keys.

use vstd::prelude::*;

use crate::packets::{Packet, FLAG_RELIABLE};

verus! {

/// Identifies one reliable data packet on one channel.
#[derive(PartialEq, Eq, Structural, Clone, Copy, Debug)]
pub struct AckKey {
    pub chan: u16,
    pub sequence_number: u64,
}

pub open spec fn unique_keys(s: Seq<AckKey>) -> bool {
    forall|i: int, j: int| 0 <= i < j < s.len() ==> s[i] != s[j]
}

/// Per-connection acknowledgement state.
pub struct AckManager {
    pub pending_acks: Vec<AckKey>,
    pub outstanding_acks: Vec<AckKey>,
}

fn contains_key(v: &Vec<AckKey>, key: AckKey) -> (r: bool)
    ensures
        r == v@.contains(key),
{
    let mut i: usize = 0;
    while i < v.len()
        invariant
            i <= v@.len(),
            forall|j: int| 0 <= j < i ==> v@[j] != key,
        decreases v@.len() - i,
    {
        if v[i] == key {
            assert(v@.contains(key));
            return true;
        }
        i = i + 1;
    }
    assert(!v@.contains(key));
    false
}

/// Removes the (unique) occurrence of `key`, if present, keeping the order of
/// the rest.
fn remove_key(v: &mut Vec<AckKey>, key: AckKey)
    requires
        unique_keys(old(v)@),
    ensures
        unique_keys(final(v)@),
        old(v)@.contains(key) ==> final(v)@ == old(v)@.remove_value(key),
        !old(v)@.contains(key) ==> final(v)@ == old(v)@,
        !final(v)@.contains(key),
        forall|k: AckKey| k != key ==> (final(v)@.contains(k) <==> old(v)@.contains(k)),
{
    let mut i: usize = 0;
    while i < v.len()
        invariant
            i <= v@.len(),
            v@ == old(v)@,
            unique_keys(v@),
            forall|j: int| 0 <= j < i ==> v@[j] != key,
        decreases v@.len() - i,
    {
        if v[i] == key {
            let ghost pre = v@;
            v.remove(i);
            proof {
                assert(pre.index_of_first(key) == Some(i as int)) by {
                    pre.index_of_first_ensures(key);
                    match pre.index_of_first(key) {
                        Some(f) => {
                            if f < i {
                                assert(pre[f] != key);
                            }
                            if f > i {
                                assert(pre[i as int] != pre[f]);
                            }
                        },
                        None => {},
                    }
                }
                assert(v@ == pre.remove_value(key));
                assert forall|a: int, b: int| 0 <= a < b < v@.len() implies v@[a] != v@[b] by {
                    if b < i {
                        assert(v@[a] == pre[a] && v@[b] == pre[b]);
                    } else if a < i {
                        assert(v@[a] == pre[a] && v@[b] == pre[b + 1]);
                    } else {
                        assert(v@[a] == pre[a + 1] && v@[b] == pre[b + 1]);
                    }
                }
                assert(!v@.contains(key)) by {
                    if v@.contains(key) {
                        let w = choose|w: int| 0 <= w < v@.len() && v@[w] == key;
                        if w < i {
                            assert(pre[w] == key);
                        } else {
                            assert(pre[w + 1] == key && pre[i as int] == key);
                        }
                    }
                }
                assert forall|k: AckKey| k != key implies (v@.contains(k) <==> pre.contains(
                    k,
                )) by {
                    if v@.contains(k) {
                        let w = choose|w: int| 0 <= w < v@.len() && v@[w] == k;
                        if w < i {
                            assert(pre[w] == k);
                        } else {
                            assert(pre[w + 1] == k);
                        }
                    }
                    if pre.contains(k) {
                        let w = choose|w: int| 0 <= w < pre.len() && pre[w] == k;
                        if w < i {
                            assert(v@[w] == k);
                        } else {
                            assert(w != i);
                            assert(v@[w - 1] == k);
                        }
                    }
                }
            }
            return ;
        }
        i = i + 1;
    }
    assert(!v@.contains(key));
}

impl AckManager {
    /// The acks this side still owes its peer.
    pub open spec fn pending(self) -> Seq<AckKey> {
        self.pending_acks@
    }

    /// The reliable data this side sent and has not yet seen acknowledged.
    pub open spec fn outstanding(self) -> Seq<AckKey> {
        self.outstanding_acks@
    }

    pub open spec fn wf(self) -> bool {
        unique_keys(self.pending_acks@) && unique_keys(self.outstanding_acks@)
    }

    pub fn new() -> (r: AckManager)
        ensures
            r.wf(),
            r.pending() == Seq::<AckKey>::empty(),
            r.outstanding() == Seq::<AckKey>::empty(),
    {
        AckManager { pending_acks: Vec::new(), outstanding_acks: Vec::new() }
    }

    /// Hands the manager an incoming packet. An incoming reliable data packet
    /// enqueues its key for acknowledgement (duplicates collapse) and is
    /// handled; an incoming ack settles the matching outstanding entry and is
    /// handled; everything else is not handled and changes nothing.
    pub fn submit_packet(&mut self, packet: &Packet) -> (r: bool)
        requires
            old(self).wf(),
        ensures
            final(self).wf(),
            match packet {
                Packet::Data { chan, packet: dp } => {
                    if dp.flags & FLAG_RELIABLE != 0 {
                        let key = AckKey { chan: *chan, sequence_number: dp.sequence_number };
                        &&& r == true
                        &&& final(self).outstanding() == old(self).outstanding()
                        &&& (old(self).pending().contains(key) ==> final(self).pending() == old(self).pending())
                        &&& (!old(self).pending().contains(key) ==> final(self).pending() == old(self).pending().push(key))
                    } else {
                        r == false && final(self).pending() == old(self).pending() && final(self).outstanding() == old(self).outstanding()
                    }
                },
                Packet::Ack { chan, sequence_number } => {
                    let key = AckKey { chan: *chan, sequence_number: *sequence_number };
                    &&& r == true
                    &&& final(self).pending() == old(self).pending()
                    &&& !final(self).outstanding().contains(key)
                    &&& (old(self).outstanding().contains(key) ==> final(self).outstanding()
                        == old(self).outstanding().remove_value(key))
                    &&& (!old(self).outstanding().contains(key) ==> final(self).outstanding()
                        == old(self).outstanding())
                },
                _ => r == false && final(self).pending() == old(self).pending() && final(self).outstanding() == old(self).outstanding(),
            },
    {
        match packet {
            Packet::Data { chan, packet: dp } => {
                if dp.flags & FLAG_RELIABLE != 0 {
                    let key = AckKey { chan: *chan, sequence_number: dp.sequence_number };
                    if !contains_key(&self.pending_acks, key) {
                        self.pending_acks.push(key);
                        assert(unique_keys(self.pending_acks@)) by {
                            assert(forall|j: int|
                                0 <= j < old(self).pending().len() ==> self.pending_acks@[j] == old(self).pending()[j]);
                        }
                    }
                    true
                } else {
                    false
                }
            },
            Packet::Ack { chan, sequence_number } => {
                let key = AckKey { chan: *chan, sequence_number: *sequence_number };
                remove_key(&mut self.outstanding_acks, key);
                true
            },
            _ => false,
        }
    }

    /// Notes a reliable data packet this side sent, so that its ack can be
    /// awaited. Duplicates collapse.
    pub fn note_outstanding(&mut self, chan: u16, sequence_number: u64)
        requires
            old(self).wf(),
        ensures
            final(self).wf(),
            final(self).pending() == old(self).pending(),
            old(self).outstanding().contains(AckKey { chan, sequence_number }) ==> final(self).outstanding() == old(self).outstanding(),
            !old(self).outstanding().contains(AckKey { chan, sequence_number }) ==> final(self).outstanding() == old(self).outstanding().push(AckKey { chan, sequence_number }),
    {
        let key = AckKey { chan, sequence_number };
        if !contains_key(&self.outstanding_acks, key) {
            self.outstanding_acks.push(key);
            assert(unique_keys(self.outstanding_acks@)) by {
                assert(forall|j: int|
                    0 <= j < old(self).outstanding().len() ==> self.outstanding_acks@[j] == old(self).outstanding()[j]);
            }
        }
    }

    /// Yields every pending ack key exactly once and clears the pending set.
    pub fn iter_needs_ack(&mut self) -> (r: Vec<AckKey>)
        requires
            old(self).wf(),
        ensures
            final(self).wf(),
            r@ == old(self).pending(),
            final(self).pending() == Seq::<AckKey>::empty(),
            final(self).outstanding() == old(self).outstanding(),
    {
        let mut r: Vec<AckKey> = Vec::new();
        let mut i: usize = 0;
        while i < self.pending_acks.len()
            invariant
                i <= self.pending_acks@.len(),
                self.pending_acks@ == old(self).pending(),
                self.outstanding_acks@ == old(self).outstanding(),
                r@ == old(self).pending().take(i as int),
            decreases self.pending_acks@.len() - i,
        {
            r.push(self.pending_acks[i]);
            assert(r@ =~= old(self).pending().take(i + 1));
            i = i + 1;
        }
        assert(r@ =~= old(self).pending());
        self.pending_acks.clear();
        r
    }
}

} // verus!
