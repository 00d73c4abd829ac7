use vstd::prelude::*;
use vstd::string::*;

use crate::message::{message_text, Message};

verus! {

/// One planned delivery: a destination and the exact text handed to it.
pub struct Delivery {
    pub channel_id: u64,
    pub content: String,
}

/// The summary of one fan-out: the destinations whose delivery succeeded
/// and those whose delivery failed, each kept in configured order.
pub struct DeliveryReport {
    pub succeeded: Vec<u64>,
    pub failed: Vec<u64>,
}

/// The notifier's decision logic. It owns the fixed, ordered destination
/// list; the transport that carries a message to a destination acts
/// outside, and its per-destination outcomes are judged here.
pub struct Notifier {
    pub channel_id_list: Vec<u64>,
}

impl Notifier {
    /// A notifier over the given destinations; the list and its order are
    /// fixed at construction for the process lifetime.
    pub fn new(channel_id_list: Vec<u64>) -> (r: Self)
        ensures
            r.channel_id_list == channel_id_list,
    {
        Self { channel_id_list }
    }

    /// The fan-out plan for one message: one delivery per configured
    /// destination, in configured order, every one carrying byte-identical
    /// content. Delivering one entry is independent of every other.
    pub fn plan(&self, message: &Message) -> (r: Vec<Delivery>)
        ensures
            r@.len() == self.channel_id_list@.len(),
            forall|i: int|
                0 <= i < r@.len() ==> (#[trigger] r@[i]).channel_id
                    == self.channel_id_list@[i] && r@[i].content@ == message_text(message),
    {
        let text = message.to_string();
        let mut deliveries: Vec<Delivery> = Vec::new();
        let n = self.channel_id_list.len();
        let mut i: usize = 0;
        while i < n
            invariant
                i <= n == self.channel_id_list@.len(),
                text@ == message_text(message),
                deliveries@.len() == i,
                forall|m: int|
                    0 <= m < i ==> (#[trigger] deliveries@[m]).channel_id
                        == self.channel_id_list@[m] && deliveries@[m].content@ == message_text(
                        message,
                    ),
            decreases n - i,
        {
            deliveries.push(
                Delivery { channel_id: self.channel_id_list[i], content: text.clone() },
            );
            i = i + 1;
        }
        deliveries
    }
}

/// Mapping a function over a sequence commutes with appending an element.
pub(crate) proof fn lemma_map_push<A, B>(s: Seq<A>, f: spec_fn(A) -> B, x: A)
    ensures
        s.push(x).map_values(f) == s.map_values(f).push(f(x)),
{
    let l = s.push(x).map_values(f);
    let r = s.map_values(f).push(f(x));
    assert forall|m: int| 0 <= m < l.len() implies l[m] == r[m] by {
        if m < s.len() {
            assert(s.push(x)[m] == s[m]);
        } else {
            assert(s.push(x)[m] == x);
        }
    }
    assert(l =~= r);
}

/// Judges a whole fan-out from its per-destination outcomes: every
/// destination is accounted for exactly once, a failure at one destination
/// leaves every other outcome standing, and order is kept.
pub fn summarize(outcomes: &Vec<(u64, bool)>) -> (r: DeliveryReport)
    ensures
        r.succeeded@ == outcomes@.filter(|o: (u64, bool)| o.1).map_values(
            |o: (u64, bool)| o.0,
        ),
        r.failed@ == outcomes@.filter(|o: (u64, bool)| !o.1).map_values(|o: (u64, bool)| o.0),
        r.succeeded@.len() + r.failed@.len() == outcomes@.len(),
{
    let mut succeeded: Vec<u64> = Vec::new();
    let mut failed: Vec<u64> = Vec::new();
    let n = outcomes.len();
    let mut i: usize = 0;
    while i < n
        invariant
            i <= n == outcomes@.len(),
            succeeded@ == outcomes@.take(i as int).filter(|o: (u64, bool)| o.1).map_values(
                |o: (u64, bool)| o.0,
            ),
            failed@ == outcomes@.take(i as int).filter(|o: (u64, bool)| !o.1).map_values(
                |o: (u64, bool)| o.0,
            ),
            succeeded@.len() + failed@.len() == i,
        decreases n - i,
    {
        let (channel_id, delivered) = outcomes[i];
        proof {
            let ok_pred = |o: (u64, bool)| o.1;
            let bad_pred = |o: (u64, bool)| !o.1;
            let id_of = |o: (u64, bool)| o.0;
            let prefix = outcomes@.take(i as int);
            let step = outcomes@.take(i as int + 1);
            let o = outcomes@[i as int];
            assert(step.drop_last() =~= prefix);
            assert(step.last() == o);
            reveal_with_fuel(Seq::<_>::filter, 2);
            if o.1 {
                assert(step.filter(ok_pred) == prefix.filter(ok_pred).push(o));
                assert(step.filter(bad_pred) == prefix.filter(bad_pred));
                lemma_map_push(prefix.filter(ok_pred), id_of, o);
            } else {
                assert(step.filter(bad_pred) == prefix.filter(bad_pred).push(o));
                assert(step.filter(ok_pred) == prefix.filter(ok_pred));
                lemma_map_push(prefix.filter(bad_pred), id_of, o);
            }
        }
        if delivered {
            succeeded.push(channel_id);
        } else {
            failed.push(channel_id);
        }
        i = i + 1;
    }
    proof {
        assert(outcomes@.take(n as int) =~= outcomes@);
    }
    DeliveryReport { succeeded, failed }
}

} // verus!
