use vstd::prelude::*;

use crate::ids::SubsystemId;
use crate::registry::{Registry, Table};

verus! {

/// The routing part of a message envelope read from a subsystem's outbound
/// channel: who sent it and, for a direct message, whom it is for.
#[derive(Clone, Copy, Debug, PartialEq, Eq, Structural)]
pub struct Post {
    pub source: SubsystemId,
    pub to: Option<SubsystemId>,
}

/// One push into an inbound channel: envelope `envelope` of a batch goes to
/// the record in `slot`.
#[derive(Clone, Copy, Debug, PartialEq, Eq, Structural)]
pub struct Delivery {
    pub envelope: usize,
    pub slot: usize,
}

/// Whether the record in slot `i` receives a message from `source` addressed
/// to `to`. A direct message goes to the record with that id, whatever its
/// filter says; a broadcast goes to every other record whose filter accepts.
pub open spec fn picks(
    ids: Seq<SubsystemId>,
    source: SubsystemId,
    to: Option<SubsystemId>,
    accepts: Seq<bool>,
    i: int,
) -> bool {
    match to {
        Some(t) => ids[i] == t,
        None => ids[i] != source && accepts[i],
    }
}

/// The slots below `n` that receive the message, in slot order.
pub open spec fn picked_below(
    ids: Seq<SubsystemId>,
    source: SubsystemId,
    to: Option<SubsystemId>,
    accepts: Seq<bool>,
    n: nat,
) -> Seq<usize>
    decreases n,
{
    if n == 0 {
        Seq::empty()
    } else {
        let prev = picked_below(ids, source, to, accepts, (n - 1) as nat);
        if picks(ids, source, to, accepts, n - 1) {
            prev.push((n - 1) as usize)
        } else {
            prev
        }
    }
}

/// The slots that receive a message from `source` addressed to `to`, where
/// `accepts[i]` is the answer of record `i`'s filter to the payload.
pub open spec fn recipients(
    ids: Seq<SubsystemId>,
    source: SubsystemId,
    to: Option<SubsystemId>,
    accepts: Seq<bool>,
) -> Seq<usize> {
    picked_below(ids, source, to, accepts, ids.len())
}

/// The deliveries of one envelope, tagged with its place in the batch.
pub open spec fn tagged(envelope: int, slots: Seq<usize>) -> Seq<Delivery> {
    slots.map_values(|s: usize| Delivery { envelope: envelope as usize, slot: s })
}

/// The deliveries of the first `n` envelopes of a batch, in batch order.
pub open spec fn deliveries_below(
    ids: Seq<SubsystemId>,
    batch: Seq<Post>,
    accepts: Seq<Vec<bool>>,
    n: nat,
) -> Seq<Delivery>
    decreases n,
{
    if n == 0 {
        Seq::empty()
    } else {
        let k = n - 1;
        deliveries_below(ids, batch, accepts, k as nat) + tagged(
            k,
            recipients(ids, batch[k].source, batch[k].to, accepts[k]@),
        )
    }
}

/// The deliveries of a whole batch, in batch order.
pub open spec fn deliveries(ids: Seq<SubsystemId>, batch: Seq<Post>, accepts: Seq<Vec<bool>>) -> Seq<
    Delivery,
> {
    deliveries_below(ids, batch, accepts, batch.len())
}

/// Whether `slot` occurs exactly once in `r`.
pub open spec fn once(r: Seq<usize>, slot: usize) -> bool {
    exists|k: int|
        0 <= k < r.len() && r[k] == slot && forall|k2: int| 0 <= k2 < r.len() && r[k2] == slot ==> k2 == k
}

/// Whether a filter answer is owed for each record: broadcasts need one per
/// slot, direct messages need none.
pub open spec fn answers_fit(ids: Seq<SubsystemId>, to: Option<SubsystemId>, accepts: Seq<bool>) -> bool {
    to is None ==> accepts.len() == ids.len()
}

impl Registry {
    /// The slots whose inbound channels receive a message from `source`
    /// addressed to `to`, in slot order. `accepts[i]` is the answer of record
    /// `i`'s filter to the payload; it is read for broadcasts only.
    pub fn recipients(&self, source: SubsystemId, to: Option<SubsystemId>, accepts: &Vec<bool>) -> (r:
        Vec<usize>)
        requires
            answers_fit(self@.ids, to, accepts@),
        ensures
            r@ == recipients(self@.ids, source, to, accepts@),
    {
        let n = self.len();
        let mut r: Vec<usize> = Vec::new();
        let mut i: usize = 0;
        while i < n
            invariant
                n == self@.ids.len(),
                i <= n,
                answers_fit(self@.ids, to, accepts@),
                r@ == picked_below(self@.ids, source, to, accepts@, i as nat),
            decreases n - i,
        {
            let id = self.id_at(i);
            let take = match to {
                Some(t) => id == t,
                None => id != source && accepts[i],
            };
            if take {
                r.push(i);
            }
            i = i + 1;
        }
        r
    }

    /// Plans the delivery of a batch of envelopes: each envelope's recipients
    /// in slot order, envelope after envelope in batch order.
    pub fn plan(&self, batch: &Vec<Post>, accepts: &Vec<Vec<bool>>) -> (r: Vec<Delivery>)
        requires
            accepts@.len() == batch@.len(),
            forall|k: int|
                0 <= k < batch@.len() ==> answers_fit(self@.ids, #[trigger] batch@[k].to, accepts@[k]@),
        ensures
            r@ == deliveries(self@.ids, batch@, accepts@),
    {
        let mut r: Vec<Delivery> = Vec::new();
        let mut k: usize = 0;
        while k < batch.len()
            invariant
                k <= batch@.len(),
                accepts@.len() == batch@.len(),
                forall|e: int|
                    0 <= e < batch@.len() ==> answers_fit(self@.ids, #[trigger] batch@[e].to, accepts@[e]@),
                r@ == deliveries_below(self@.ids, batch@, accepts@, k as nat),
            decreases batch@.len() - k,
        {
            let post = batch[k];
            let slots = self.recipients(post.source, post.to, &accepts[k]);
            let ghost base = r@;
            let mut j: usize = 0;
            while j < slots.len()
                invariant
                    j <= slots@.len(),
                    k < batch@.len(),
                    r@ == base + tagged(k as int, slots@.take(j as int)),
                decreases slots@.len() - j,
            {
                r.push(Delivery { envelope: k, slot: slots[j] });
                assert(slots@.take(j + 1) =~= slots@.take(j as int).push(slots@[j as int]));
                assert(tagged(k as int, slots@.take(j + 1)) =~= tagged(k as int, slots@.take(j as int)).push(
                    Delivery { envelope: k, slot: slots@[j as int] },
                ));
                assert(r@ =~= base + tagged(k as int, slots@.take(j + 1)));
                j = j + 1;
            }
            assert(slots@.take(slots@.len() as int) =~= slots@);
            k = k + 1;
        }
        r
    }
}

/// What the slot list below `n` holds: slots below `n` that the message
/// picks, each once, in increasing order, and all of them.
proof fn lemma_picked_below(
    ids: Seq<SubsystemId>,
    source: SubsystemId,
    to: Option<SubsystemId>,
    accepts: Seq<bool>,
    n: nat,
)
    requires
        n <= ids.len(),
        n <= usize::MAX + 1,
    ensures
        ({
            let r = picked_below(ids, source, to, accepts, n);
            &&& forall|k: int| 0 <= k < r.len() ==> r[k] < n && picks(ids, source, to, accepts, #[trigger] r[k] as int)
            &&& forall|a: int, b: int| 0 <= a < b < r.len() ==> r[a] < r[b]
            &&& forall|i: int| 0 <= i < n && picks(ids, source, to, accepts, i) ==> r.contains(i as usize)
        }),
    decreases n,
{
    if n > 0 {
        lemma_picked_below(ids, source, to, accepts, (n - 1) as nat);
        let prev = picked_below(ids, source, to, accepts, (n - 1) as nat);
        let r = picked_below(ids, source, to, accepts, n);
        if picks(ids, source, to, accepts, n - 1) {
            assert(r == prev.push((n - 1) as usize));
            assert(r[r.len() - 1] == (n - 1) as usize);
            assert forall|i: int| 0 <= i < n && picks(ids, source, to, accepts, i) implies r.contains(i as usize) by {
                if i < n - 1 {
                    let k = choose|k: int| 0 <= k < prev.len() && prev[k] == i as usize;
                    assert(r[k] == i as usize);
                }
            }
        }
    }
}

/// A broadcast never comes back to its sender: no slot that holds the
/// source's id is among the recipients.
pub proof fn lemma_broadcast_skips_source(t: Table, source: SubsystemId, accepts: Seq<bool>)
    requires
        t.ids.len() <= usize::MAX + 1,
    ensures
        ({
            let r = recipients(t.ids, source, None, accepts);
            forall|k: int| 0 <= k < r.len() ==> t.ids[(#[trigger] r[k]) as int] != source
        }),
{
    lemma_picked_below(t.ids, source, None, accepts, t.ids.len());
}

/// A broadcast reaches every other record whose filter accepts the payload
/// exactly once, and no record whose filter refuses it.
pub proof fn lemma_broadcast_fan_out(t: Table, source: SubsystemId, accepts: Seq<bool>)
    requires
        t.ids.len() <= usize::MAX + 1,
        accepts.len() == t.ids.len(),
    ensures
        ({
            let r = recipients(t.ids, source, None, accepts);
            &&& forall|i: int|
                0 <= i < t.ids.len() && t.ids[i] != source && #[trigger] accepts[i] ==> once(r, i as usize)
            &&& forall|i: int| 0 <= i < t.ids.len() && !(#[trigger] accepts[i]) ==> !r.contains(i as usize)
        }),
{
    let r = recipients(t.ids, source, None, accepts);
    lemma_picked_below(t.ids, source, None, accepts, t.ids.len());
    assert forall|i: int| 0 <= i < t.ids.len() && t.ids[i] != source && accepts[i] implies once(
        r,
        i as usize,
    ) by {
        assert(picks(t.ids, source, None, accepts, i));
        let k = choose|k: int| 0 <= k < r.len() && r[k] == i as usize;
        assert forall|k2: int| 0 <= k2 < r.len() && r[k2] == i as usize implies k2 == k by {
            if k2 < k {
                assert(r[k2] < r[k]);
            } else if k < k2 {
                assert(r[k] < r[k2]);
            }
        }
    }
    assert forall|i: int| 0 <= i < t.ids.len() && !accepts[i] implies !r.contains(i as usize) by {
        if r.contains(i as usize) {
            let k = choose|k: int| 0 <= k < r.len() && r[k] == i as usize;
            assert(picks(t.ids, source, None, accepts, r[k] as int));
        }
    }
}

/// A direct message is delivered exactly once when a record exists for its
/// target, to that record, and not at all otherwise.
pub proof fn lemma_direct_delivery(t: Table, source: SubsystemId, target: SubsystemId, accepts: Seq<bool>)
    requires
        t.wf(),
        t.ids.len() <= usize::MAX + 1,
    ensures
        ({
            let r = recipients(t.ids, source, Some(target), accepts);
            &&& t.has(target) ==> r.len() == 1 && t.ids[r[0] as int] == target
            &&& !t.has(target) ==> r.len() == 0
        }),
{
    let r = recipients(t.ids, source, Some(target), accepts);
    lemma_picked_below(t.ids, source, Some(target), accepts, t.ids.len());
    if t.has(target) {
        let i = choose|i: int| 0 <= i < t.ids.len() && t.ids[i] == target;
        assert(picks(t.ids, source, Some(target), accepts, i));
        assert(r.contains(i as usize));
        if r.len() > 1 {
            assert(r[0] < r[1]);
            assert(t.ids[r[0] as int] == target);
            assert(t.ids[r[1] as int] == target);
        }
    } else if r.len() > 0 {
        assert(picks(t.ids, source, Some(target), accepts, r[0] as int));
        assert(t.ids.contains(t.ids[r[0] as int]));
    }
}

/// Deliveries of the first `n` envelopes come envelope by envelope: each
/// names an envelope below `n`, and envelope numbers never go down.
proof fn lemma_deliveries_ordered(ids: Seq<SubsystemId>, batch: Seq<Post>, accepts: Seq<Vec<bool>>, n: nat)
    requires
        n <= batch.len(),
        batch.len() <= accepts.len(),
        batch.len() <= usize::MAX,
    ensures
        ({
            let d = deliveries_below(ids, batch, accepts, n);
            &&& forall|a: int| 0 <= a < d.len() ==> (#[trigger] d[a]).envelope < n
            &&& forall|a: int, b: int| 0 <= a < b < d.len() ==> d[a].envelope <= d[b].envelope
        }),
    decreases n,
{
    if n > 0 {
        let k = n - 1;
        lemma_deliveries_ordered(ids, batch, accepts, k as nat);
        let prev = deliveries_below(ids, batch, accepts, k as nat);
        let tail = tagged(k, recipients(ids, batch[k].source, batch[k].to, accepts[k]@));
        let d = deliveries_below(ids, batch, accepts, n);
        assert(d == prev + tail);
        assert forall|j: int| 0 <= j < tail.len() implies (#[trigger] tail[j]).envelope == k by {}
        assert forall|a: int| 0 <= a < d.len() implies (#[trigger] d[a]).envelope < n by {
            if a >= prev.len() {
                assert(d[a] == tail[a - prev.len()]);
            }
        }
        assert forall|a: int, b: int| 0 <= a < b < d.len() implies d[a].envelope <= d[b].envelope by {
            if b >= prev.len() {
                assert(d[b] == tail[b - prev.len()]);
                if a >= prev.len() {
                    assert(d[a] == tail[a - prev.len()]);
                } else {
                    assert(d[a] == prev[a]);
                }
            } else {
                assert(d[a] == prev[a]);
                assert(d[b] == prev[b]);
            }
        }
    }
}

/// Per-source order is kept: when a source's earlier envelope and a later
/// one both reach the same record, the earlier one is pushed first.
pub proof fn lemma_per_source_fifo(t: Table, batch: Seq<Post>, accepts: Seq<Vec<bool>>)
    requires
        accepts.len() == batch.len(),
        batch.len() <= usize::MAX,
    ensures
        ({
            let d = deliveries(t.ids, batch, accepts);
            forall|a: int, b: int|
                0 <= a < d.len() && 0 <= b < d.len() && (#[trigger] d[a]).slot == (#[trigger] d[b]).slot
                    && batch[d[a].envelope as int].source == batch[d[b].envelope as int].source
                    && d[a].envelope < d[b].envelope ==> a < b
        }),
{
    lemma_deliveries_ordered(t.ids, batch, accepts, batch.len());
}

} // verus!
