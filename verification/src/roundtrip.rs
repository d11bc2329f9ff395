//! Round-trip time estimation: emit echo probes, consume returning echoes,
//! and keep a rolling window of the most recent observations whose mean is
//! the connection's RTT estimate.

use vstd::prelude::*;
use vstd::arithmetic::div_mod::{lemma_div_by_multiple, lemma_div_is_ordered};

use crate::events::{Address, Emission, Outbox};
use crate::packets::{Packet, Uuid};

verus! {

/// One in-flight probe: its identifier and the time it was sent, in
/// milliseconds of the engine's monotonic clock.
#[derive(PartialEq, Eq, Structural, Clone, Copy, Debug)]
pub struct ProbeRecord {
    pub probe: Uuid,
    pub sent_at: u64,
}

/// Index of the first in-flight record for `probe`, if any.
pub open spec fn find_probe(s: Seq<ProbeRecord>, probe: Uuid) -> Option<nat>
    decreases s.len(),
{
    if s.len() == 0 {
        None
    } else if s[0].probe == probe {
        Some(0nat)
    } else {
        match find_probe(s.skip(1), probe) {
            Some(i) => Some((i + 1) as nat),
            None => None,
        }
    }
}

/// What `find_probe` returns: the first matching index, or the guarantee that
/// none matches.
pub proof fn lemma_find_probe(s: Seq<ProbeRecord>, probe: Uuid)
    ensures
        match find_probe(s, probe) {
            Some(i) => i < s.len() && s[i as int].probe == probe && (forall|j: int|
                0 <= j < i ==> s[j].probe != probe),
            None => forall|j: int| 0 <= j < s.len() ==> s[j].probe != probe,
        },
    decreases s.len(),
{
    if s.len() != 0 && s[0].probe != probe {
        lemma_find_probe(s.skip(1), probe);
        match find_probe(s.skip(1), probe) {
            Some(i) => {
                assert(s[i + 1int] == s.skip(1)[i as int]);
                assert(forall|j: int| 1 <= j < i + 1 ==> s[j] == s.skip(1)[j - 1]);
            },
            None => {
                assert(forall|j: int| 1 <= j < s.len() ==> s[j] == s.skip(1)[j - 1]);
            },
        }
    }
}

/// The sum of a window of observations.
pub open spec fn seq_sum(s: Seq<u64>) -> int
    decreases s.len(),
{
    if s.len() == 0 {
        0
    } else {
        s[0] + seq_sum(s.skip(1))
    }
}

pub proof fn lemma_seq_sum_push(s: Seq<u64>, x: u64)
    ensures
        seq_sum(s.push(x)) == seq_sum(s) + x,
    decreases s.len(),
{
    if s.len() == 0 {
        assert(s.push(x)[0] == x);
        assert(s.push(x).skip(1) =~= Seq::<u64>::empty());
        assert(seq_sum(s.push(x)) == x + seq_sum(Seq::<u64>::empty()));
    } else {
        assert(s.push(x)[0] == s[0]);
        assert(s.push(x).skip(1) =~= s.skip(1).push(x));
        lemma_seq_sum_push(s.skip(1), x);
        assert(seq_sum(s.push(x)) == s[0] + seq_sum(s.skip(1).push(x)));
    }
}

pub proof fn lemma_seq_sum_bounds(s: Seq<u64>)
    ensures
        0 <= seq_sum(s) <= s.len() * u64::MAX,
    decreases s.len(),
{
    if s.len() != 0 {
        lemma_seq_sum_bounds(s.skip(1));
    }
}

/// How an observation enters the rolling window: pushed at the end, with the
/// oldest observation dropped once the window is full.
pub open spec fn push_window(w: Seq<u64>, size: usize, x: u64) -> Seq<u64> {
    if w.len() + 1 > size {
        w.push(x).skip(1)
    } else {
        w.push(x)
    }
}

/// The round-trip time observed for a probe, zero if the clock went
/// backwards.
pub open spec fn observed_rtt(sent_at: u64, now: u64) -> u64 {
    if now >= sent_at {
        (now - sent_at) as u64
    } else {
        0
    }
}

/// Rolling round-trip time estimation over the most recent observations.
pub struct RoundtripEstimator {
    pub window_size: usize,
    pub window: Vec<u64>,
    pub in_flight: Vec<ProbeRecord>,
}

impl RoundtripEstimator {
    pub open spec fn wf(self) -> bool {
        self.window@.len() <= self.window_size
    }

    pub fn new(window_size: usize) -> (r: RoundtripEstimator)
        ensures
            r.wf(),
            r.window_size == window_size,
            r.window@ == Seq::<u64>::empty(),
            r.in_flight@ == Seq::<ProbeRecord>::empty(),
    {
        RoundtripEstimator { window_size, window: Vec::new(), in_flight: Vec::new() }
    }

    /// Emits an echo probe to the peer and records when it left.
    pub fn tick(&mut self, address: Address, endpoint_id: Uuid, probe_id: Uuid, now: u64, out: &mut Outbox)
        ensures
            final(self).window_size == old(self).window_size,
            final(self).window@ == old(self).window@,
            final(self).in_flight@ == old(self).in_flight@.push(
                ProbeRecord { probe: probe_id, sent_at: now },
            ),
            final(out).packets@ == old(out).packets@.push(
                Emission { to: address, packet: Packet::Echo { endpoint: endpoint_id, uuid: probe_id } },
            ),
            final(out).events@ == old(out).events@,
    {
        self.in_flight.push(ProbeRecord { probe: probe_id, sent_at: now });
        out.packets.push(Emission { to: address, packet: Packet::Echo { endpoint: endpoint_id, uuid: probe_id } });
    }

    /// Consumes a returning echo: a known probe records its round-trip time
    /// into the rolling window and leaves the in-flight set; an unknown probe
    /// changes nothing.
    pub fn handle_echo(&mut self, probe_id: Uuid, now: u64)
        requires
            old(self).wf(),
        ensures
            final(self).wf(),
            final(self).window_size == old(self).window_size,
            match find_probe(old(self).in_flight@, probe_id) {
                Some(i) => {
                    &&& final(self).in_flight@ == old(self).in_flight@.remove(i as int)
                    &&& final(self).window@ == push_window(
                        old(self).window@,
                        old(self).window_size,
                        observed_rtt(old(self).in_flight@[i as int].sent_at, now),
                    )
                },
                None => {
                    &&& final(self).in_flight@ == old(self).in_flight@
                    &&& final(self).window@ == old(self).window@
                },
            },
    {
        let ghost fl = self.in_flight@;
        let mut i: usize = 0;
        let n = self.in_flight.len();
        while i < n
            invariant
                i <= n,
                n == self.in_flight@.len(),
                self.in_flight@ == fl,
                fl == old(self).in_flight@,
                self.window@ == old(self).window@,
                self.window_size == old(self).window_size,
                self.window@.len() <= self.window_size,
                forall|j: int| 0 <= j < i ==> fl[j].probe != probe_id,
            decreases n - i,
        {
            if self.in_flight[i].probe == probe_id {
                proof {
                    lemma_find_probe(fl, probe_id);
                    assert(find_probe(fl, probe_id) == Some(i as nat));
                }
                let sent_at = self.in_flight[i].sent_at;
                self.in_flight.remove(i);
                let rtt = if now >= sent_at {
                    now - sent_at
                } else {
                    0
                };
                self.window.push(rtt);
                if self.window.len() > self.window_size {
                    self.window.remove(0);
                    assert(self.window@ =~= old(self).window@.push(rtt).skip(1));
                }
                return ;
            }
            i = i + 1;
        }
        proof {
            lemma_find_probe(fl, probe_id);
            assert(find_probe(fl, probe_id) is None);
        }
    }

    /// The current estimate: the mean of the rolling window, if any
    /// observation has been made.
    pub fn estimate(&self) -> (r: Option<u64>)
        ensures
            match r {
                Some(m) => self.window@.len() > 0 && m == seq_sum(self.window@) / (
                self.window@.len() as int),
                None => self.window@.len() == 0,
            },
    {
        let n = self.window.len();
        if n == 0 {
            return None;
        }
        let mut sum: u128 = 0;
        let mut i: usize = 0;
        while i < n
            invariant
                i <= n,
                n == self.window@.len(),
                sum == seq_sum(self.window@.take(i as int)),
                sum <= (i as int) * u64::MAX,
            decreases n - i,
        {
            proof {
                lemma_seq_sum_bounds(self.window@.take(i as int));
                assert(self.window@.take(i + 1) =~= self.window@.take(i as int).push(
                    self.window@[i as int],
                ));
                lemma_seq_sum_push(self.window@.take(i as int), self.window@[i as int]);
                assert((i as int) * u64::MAX + u64::MAX == (i + 1) * u64::MAX) by (nonlinear_arith);
            }
            sum = sum + (self.window[i] as u128);
            i = i + 1;
        }
        assert(self.window@.take(n as int) =~= self.window@);
        proof {
            lemma_seq_sum_bounds(self.window@);
            lemma_div_is_ordered(sum as int, (n as int) * u64::MAX, n as int);
            lemma_div_by_multiple(u64::MAX as int, n as int);
            assert((u64::MAX as int) * (n as int) == (n as int) * (u64::MAX as int))
                by (nonlinear_arith);
        }
        let m = sum / (n as u128);
        Some(m as u64)
    }
}

} // verus!
