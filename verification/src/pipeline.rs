use vstd::prelude::*;

use crate::dns_client::{extracted, valid_ipv4, Dig};
use crate::error::DnsError;
use crate::notifier::lemma_map_push;

verus! {

/// The addresses the resolver pushes downstream for a sequence of per-tick
/// lookup outcomes, in tick order: exactly the valid extractions of the
/// captured outputs; failed lookups and invalid extractions contribute
/// nothing.
pub open spec fn resolved_addresses(outcomes: Seq<Result<String, DnsError>>) -> Seq<Seq<char>>
    decreases outcomes.len(),
{
    if outcomes.len() == 0 {
        Seq::empty()
    } else {
        let rest = resolved_addresses(outcomes.drop_last());
        match outcomes.last() {
            Ok(raw) => if valid_ipv4(extracted(raw@)) {
                rest.push(extracted(raw@))
            } else {
                rest
            },
            Err(_) => rest,
        }
    }
}

/// A run extended by a failing tick emits exactly the addresses of the
/// shorter run: a failed lookup never reaches the notifier.
pub proof fn lemma_failed_tick_emits_nothing(
    outcomes: Seq<Result<String, DnsError>>,
    e: DnsError,
)
    ensures
        resolved_addresses(outcomes.push(Err(e))) == resolved_addresses(outcomes),
{
    assert(outcomes.push(Err(e)).drop_last() =~= outcomes);
}

/// Replays the resolver over a whole run's lookup outcomes in tick order;
/// per-tick failures are skipped, never propagated, and never reordered.
pub fn run_pipeline(dig: &Dig, outcomes: &Vec<Result<String, DnsError>>) -> (r: Vec<String>)
    ensures
        r@.map_values(|s: String| s@) == resolved_addresses(outcomes@),
{
    let mut addresses: Vec<String> = Vec::new();
    let n = outcomes.len();
    let mut i: usize = 0;
    while i < n
        invariant
            i <= n == outcomes@.len(),
            addresses@.map_values(|s: String| s@) == resolved_addresses(
                outcomes@.take(i as int),
            ),
        decreases n - i,
    {
        proof {
            assert(outcomes@.take(i as int + 1).drop_last() =~= outcomes@.take(i as int));
            assert(outcomes@.take(i as int + 1).last() == outcomes@[i as int]);
        }
        match &outcomes[i] {
            Ok(raw) => {
                match dig.get_ip_addr(Ok(raw.clone())) {
                    Ok(ip_addr) => {
                        proof {
                            lemma_map_push(addresses@, |s: String| s@, ip_addr);
                        }
                        addresses.push(ip_addr);
                    },
                    Err(_) => {},
                }
            },
            Err(_) => {},
        }
        i = i + 1;
    }
    proof {
        assert(outcomes@.take(n as int) =~= outcomes@);
    }
    addresses
}

/// The tick channel between the scheduler and the resolver, together with
/// the single-fire cancellation: how many ticks have been emitted into the
/// bounded channel, how many the resolver has taken out, and whether the
/// cancellation has fired.
pub struct PipelineState {
    pub capacity: u64,
    pub emitted: u64,
    pub processed: u64,
    pub cancelled: bool,
}

impl PipelineState {
    /// The channel discipline: a tick is taken only after it was emitted,
    /// and the bounded channel never holds more than its capacity — a full
    /// channel blocks the scheduler rather than dropping or coalescing.
    pub open spec fn inv(&self) -> bool {
        &&& self.capacity > 0
        &&& self.processed <= self.emitted
        &&& self.emitted - self.processed <= self.capacity
    }

    /// A fresh pipeline around a channel of the given positive capacity:
    /// nothing emitted, nothing processed, cancellation not fired.
    pub fn new(capacity: u64) -> (r: Self)
        requires
            capacity > 0,
        ensures
            r.inv(),
            r.capacity == capacity,
            r.emitted == 0,
            r.processed == 0,
            !r.cancelled,
    {
        Self { capacity, emitted: 0, processed: 0, cancelled: false }
    }

    /// The scheduler emits one tick: only before cancellation, and only
    /// when the channel has room.
    pub fn emit_tick(&mut self)
        requires
            old(self).inv(),
            !old(self).cancelled,
            old(self).emitted - old(self).processed < old(self).capacity,
            old(self).emitted < u64::MAX,
        ensures
            final(self).inv(),
            final(self).emitted == old(self).emitted + 1,
            final(self).processed == old(self).processed,
            final(self).capacity == old(self).capacity,
            final(self).cancelled == old(self).cancelled,
    {
        self.emitted = self.emitted + 1;
    }

    /// The resolver takes the oldest queued tick. The returned index names
    /// the tick taken: indices come out in emission order, each exactly
    /// once — no tick is ever processed twice.
    pub fn process_tick(&mut self) -> (idx: u64)
        requires
            old(self).inv(),
            old(self).processed < old(self).emitted,
        ensures
            final(self).inv(),
            idx == old(self).processed,
            final(self).processed == old(self).processed + 1,
            final(self).emitted == old(self).emitted,
            final(self).capacity == old(self).capacity,
            final(self).cancelled == old(self).cancelled,
    {
        let idx = self.processed;
        self.processed = self.processed + 1;
        idx
    }

    /// The single-fire cancellation fires: from here on no tick is ever
    /// emitted again, while everything already in the channel stays.
    pub fn cancel(&mut self)
        requires
            old(self).inv(),
            !old(self).cancelled,
        ensures
            final(self).inv(),
            final(self).cancelled,
            final(self).emitted == old(self).emitted,
            final(self).processed == old(self).processed,
            final(self).capacity == old(self).capacity,
    {
        self.cancelled = true;
    }

    /// After the scheduler stops, the resolver drains the closed channel:
    /// every tick already emitted is processed, none is invented, and the
    /// pipeline ends with nothing in flight.
    pub fn drain(&mut self)
        requires
            old(self).inv(),
        ensures
            final(self).inv(),
            final(self).processed == final(self).emitted,
            final(self).emitted == old(self).emitted,
            final(self).capacity == old(self).capacity,
            final(self).cancelled == old(self).cancelled,
    {
        while self.processed < self.emitted
            invariant
                self.inv(),
                self.emitted == old(self).emitted,
                self.capacity == old(self).capacity,
                self.cancelled == old(self).cancelled,
            decreases self.emitted - self.processed,
        {
            let _ = self.process_tick();
        }
    }
}

/// With `N` ticks emitted when cancellation is observed, the resolver has
/// seen at most `N` of them, and all but at most the channel's capacity are
/// already fully processed.
pub proof fn lemma_backpressure_bounds(s: PipelineState)
    requires
        s.inv(),
    ensures
        s.processed <= s.emitted,
        s.emitted - s.capacity <= s.processed,
{
}

} // verus!
