//! The delete phase: one request per listed item, a bounded number of them in
//! flight, one verdict per item.

use crate::config::Config;
use crate::exchange::{classify, verdict_of, Method, Reply, Request, Verdict};
use crate::locator::{join_url, joined, parse_url, url_serialization};
use crate::model::{DecodeError, ResponseData};
use vstd::prelude::*;

verus! {

/// One deletion to make: the identifier and the parsed address.
#[derive(Debug, PartialEq, Eq)]
pub struct Deletion {
    pub id: String,
    pub url: String,
}

/// `deletions` are the deletions for `ids` below `base`: for each identifier,
/// in order, the identifier and the parsed address of its resource.
pub open spec fn is_plan(base: Seq<char>, ids: Seq<Seq<char>>, deletions: Seq<Deletion>) -> bool {
    &&& deletions.len() == ids.len()
    &&& forall|i: int|
        0 <= i < ids.len() ==> {
            &&& (#[trigger] deletions[i]).id@ == ids[i]
            &&& url_serialization(joined(base, ids[i])) == Some(deletions[i].url@)
        }
}

/// The identifier at `k` is the first whose address below `base` is malformed.
pub open spec fn first_malformed(base: Seq<char>, ids: Seq<Seq<char>>, k: int) -> bool {
    &&& 0 <= k < ids.len()
    &&& url_serialization(joined(base, ids[k])) is None
    &&& forall|j: int|
        0 <= j < k ==> url_serialization(joined(base, #[trigger] ids[j])) is Some
}

/// The deletions for the items in order, or an error that names the first item
/// whose address is malformed.
/// The work list is sized by the total that the listing declares, as far as
/// the listing has items.
pub fn plan(config: &Config, data: &ResponseData) -> (r: Result<Vec<Deletion>, DecodeError>)
    ensures
        match r {
            Ok(deletions) => is_plan(config.delete_base@, data@.ids, deletions@),
            Err(e) => e matches DecodeError::DeleteAddress(k) && first_malformed(
                config.delete_base@,
                data@.ids,
                k as int,
            ),
        },
{
    let items = &data.items;
    let hint = data.capacity_hint();
    let mut deletions: Vec<Deletion> = Vec::with_capacity(
        if hint < items.len() {
            hint
        } else {
            items.len()
        },
    );
    let mut k: usize = 0;
    while k < items.len()
        invariant
            items@ == data.items@,
            k <= items@.len(),
            deletions@.len() == k,
            forall|i: int|
                0 <= i < k ==> {
                    &&& (#[trigger] deletions@[i]).id@ == items@[i]@
                    &&& url_serialization(joined(config.delete_base@, items@[i]@)) == Some(
                        deletions@[i].url@,
                    )
                },
        decreases items@.len() - k,
    {
        let raw = join_url(config.delete_base.as_str(), items[k].id.as_str());
        match parse_url(raw.as_str()) {
            Some(url) => {
                deletions.push(Deletion { id: items[k].id.clone(), url });
            },
            None => {
                proof {
                    assert(data@.ids[k as int] == items@[k as int]@);
                    assert forall|j: int| 0 <= j < k implies url_serialization(
                        joined(config.delete_base@, #[trigger] data@.ids[j]),
                    ) is Some by {
                        assert(deletions@[j].id@ == items@[j]@);
                    }
                }
                return Err(DecodeError::DeleteAddress(k));
            },
        }
        k += 1;
    }
    Ok(deletions)
}

/// Where one deletion stands.
#[derive(Debug, PartialEq, Eq)]
pub enum Slot {
    /// Not yet sent.
    Pending,
    /// Sent, no reply yet.
    InFlight,
    /// Replied to.
    Settled(Verdict),
}

/// One request to send now, with the index of its deletion.
#[derive(Debug, PartialEq, Eq)]
pub struct Dispatch {
    pub index: usize,
    pub request: Request,
}

/// The record of one deletion.
#[derive(Debug, PartialEq, Eq)]
pub struct DeleteOutcome {
    pub id: String,
    pub url: String,
    pub verdict: Verdict,
}

/// The outcomes of a finished delete phase, in the order of the listing.
#[derive(Debug, PartialEq, Eq)]
pub struct Report {
    pub outcomes: Vec<DeleteOutcome>,
}

impl Report {
    /// How many deletions were attempted.
    pub fn attempted(&self) -> (n: usize)
        ensures
            n == self.outcomes@.len(),
    {
        self.outcomes.len()
    }

    /// The indices of the failed deletions, in rising order.
    pub fn failures(&self) -> (r: Vec<usize>)
        ensures
            forall|k: int|
                0 <= k < r@.len() ==> (#[trigger] r@[k]) < self.outcomes@.len()
                    && self.outcomes@[r@[k] as int].verdict is Failed,
            forall|a: int, b: int| 0 <= a < b < r@.len() ==> r@[a] < r@[b],
            forall|i: int|
                0 <= i < self.outcomes@.len() && (#[trigger] self.outcomes@[i]).verdict is Failed
                    ==> r@.contains(i as usize),
    {
        let mut r: Vec<usize> = Vec::new();
        let mut i: usize = 0;
        while i < self.outcomes.len()
            invariant
                i <= self.outcomes@.len(),
                forall|k: int|
                    0 <= k < r@.len() ==> (#[trigger] r@[k]) < i
                        && self.outcomes@[r@[k] as int].verdict is Failed,
                forall|a: int, b: int| 0 <= a < b < r@.len() ==> r@[a] < r@[b],
                forall|j: int|
                    0 <= j < i && (#[trigger] self.outcomes@[j]).verdict is Failed ==> r@.contains(
                        j as usize,
                    ),
            decreases self.outcomes@.len() - i,
        {
            if self.outcomes[i].verdict.is_failure() {
                let ghost before = r@;
                r.push(i);
                proof {
                    assert(r@[before.len() as int] == i);
                    assert forall|j: int|
                        0 <= j < i + 1 && (#[trigger] self.outcomes@[j]).verdict
                            is Failed implies r@.contains(j as usize) by {
                        if j < i {
                            let k = choose|k: int| 0 <= k < before.len() && before[k] == j as usize;
                            assert(r@[k] == j as usize);
                        }
                    }
                }
            }
            i += 1;
        }
        r
    }
}

/// How many of the slots are settled.
pub open spec fn settled_among(slots: Seq<Slot>) -> nat
    decreases slots.len(),
{
    if slots.len() == 0 {
        0
    } else {
        settled_among(slots.drop_last()) + if slots.last() is Settled {
            1nat
        } else {
            0nat
        }
    }
}

/// Replacing one slot changes the number of settled slots by what the old and
/// the new slot count.
pub proof fn lemma_settled_update(slots: Seq<Slot>, i: int, slot: Slot)
    requires
        0 <= i < slots.len(),
    ensures
        settled_among(slots.update(i, slot)) + (if slots[i] is Settled {
            1nat
        } else {
            0nat
        }) == settled_among(slots) + (if slot is Settled {
            1nat
        } else {
            0nat
        }),
    decreases slots.len(),
{
    let after = slots.update(i, slot);
    if i == slots.len() - 1 {
        assert(after.drop_last() =~= slots.drop_last());
    } else {
        assert(after.drop_last() =~= slots.drop_last().update(i, slot));
        lemma_settled_update(slots.drop_last(), i, slot);
    }
}

/// No more slots are settled than there are, and where all are counted, each
/// is settled.
pub proof fn lemma_settled_bound(slots: Seq<Slot>)
    ensures
        settled_among(slots) <= slots.len(),
        settled_among(slots) == slots.len() ==> forall|i: int|
            0 <= i < slots.len() ==> #[trigger] slots[i] is Settled,
    decreases slots.len(),
{
    if slots.len() > 0 {
        lemma_settled_bound(slots.drop_last());
        if settled_among(slots) == slots.len() {
            assert forall|i: int| 0 <= i < slots.len() implies #[trigger] slots[i] is Settled by {
                if i < slots.len() - 1 {
                    assert(slots.drop_last()[i] == slots[i]);
                }
            }
        }
    }
}

/// Where every slot from `n` on is unsettled, at most `n` slots are settled.
pub proof fn lemma_settled_prefix(slots: Seq<Slot>, n: int)
    requires
        0 <= n <= slots.len(),
        forall|i: int| n <= i < slots.len() ==> !(#[trigger] slots[i] is Settled),
    ensures
        settled_among(slots) <= n,
    decreases slots.len(),
{
    if slots.len() > n {
        assert(!(slots[slots.len() - 1] is Settled));
        lemma_settled_prefix(slots.drop_last(), n);
    } else {
        lemma_settled_bound(slots);
    }
}

/// Sequences that are settled at the same places have as many settled slots.
pub proof fn lemma_settled_same(a: Seq<Slot>, b: Seq<Slot>)
    requires
        a.len() == b.len(),
        forall|i: int| 0 <= i < a.len() ==> (#[trigger] a[i] is Settled) == (b[i] is Settled),
    ensures
        settled_among(a) == settled_among(b),
    decreases a.len(),
{
    if a.len() > 0 {
        assert((a[a.len() - 1] is Settled) == (b[a.len() - 1] is Settled));
        assert forall|i: int| 0 <= i < a.drop_last().len() implies (#[trigger] a.drop_last()[i]
            is Settled) == (b.drop_last()[i] is Settled) by {
            assert((a[i] is Settled) == (b[i] is Settled));
        }
        lemma_settled_same(a.drop_last(), b.drop_last());
    }
}

/// The delete phase of a run.
#[derive(Debug)]
pub struct Deleter {
    /// The deletions, in the order of the listing.
    pub plan: Vec<Deletion>,
    /// The `Authorization` header of every request.
    pub authorization: String,
    /// Where each deletion stands.
    pub slots: Vec<Slot>,
    /// How many deletions were sent: those before this index.
    pub launched: usize,
    /// How many deletions were replied to.
    pub settled: usize,
    /// The most requests that may be in flight at once.
    pub limit: usize,
}

impl Deleter {
    /// One slot per deletion; the sent ones are the first `launched`; the
    /// counts are right; no more than `limit` are in flight.
    pub open spec fn wf(&self) -> bool {
        &&& self.slots@.len() == self.plan@.len()
        &&& self.settled <= self.launched <= self.plan@.len()
        &&& 1 <= self.limit
        &&& self.launched - self.settled <= self.limit
        &&& forall|i: int| 0 <= i < self.launched ==> !(#[trigger] self.slots@[i] is Pending)
        &&& forall|i: int|
            self.launched <= i < self.slots@.len() ==> #[trigger] self.slots@[i] is Pending
        &&& self.settled == settled_among(self.slots@)
    }

    /// The number of requests in flight.
    pub open spec fn in_flight(&self) -> int {
        self.launched - self.settled
    }

    /// Every deletion was replied to.
    pub open spec fn is_done(&self) -> bool {
        self.settled == self.plan@.len()
    }

    /// How far `launch` sends: up to the end of the plan, and up to `limit` in
    /// flight.
    pub open spec fn launch_target(&self) -> int {
        if self.plan@.len() <= self.settled + self.limit {
            self.plan@.len() as int
        } else {
            self.settled + self.limit
        }
    }

    /// The request for the deletion at index `i`.
    pub open spec fn request_at(&self, i: int, request: Request) -> bool {
        &&& request.method == Method::Delete
        &&& request.url == self.plan@[i].url
        &&& request.authorization == self.authorization
    }

    /// `post` and `batch` are what `launch` makes of `self`: the deletions from
    /// `launched` up to the target are now in flight, the batch holds their
    /// requests in order, and nothing else has changed.
    pub open spec fn launches(&self, post: Deleter, batch: Seq<Dispatch>) -> bool {
        &&& post.plan == self.plan
        &&& post.authorization == self.authorization
        &&& post.settled == self.settled
        &&& post.limit == self.limit
        &&& post.launched == self.launch_target()
        &&& post.slots@.len() == self.slots@.len()
        &&& batch.len() == post.launched - self.launched
        &&& forall|k: int|
            0 <= k < batch.len() ==> (#[trigger] batch[k]).index == self.launched + k
                && self.request_at(self.launched + k, batch[k].request)
        &&& forall|i: int|
            0 <= i < self.slots@.len() ==> #[trigger] post.slots@[i] == if self.launched <= i
                < post.launched {
                Slot::InFlight
            } else {
                self.slots@[i]
            }
    }

    /// A reply for `index` is taken: the request there is in flight.
    pub open spec fn takes(&self, index: usize) -> bool {
        index < self.slots@.len() && self.slots@[index as int] is InFlight
    }

    /// `post` is what `settle` makes of `self`: where the reply is taken, the
    /// slot at `index` holds the verdict on it and one more deletion is
    /// settled; nothing else has changed.
    pub open spec fn settles(&self, index: usize, reply: Reply, post: Deleter) -> bool {
        &&& post.plan == self.plan
        &&& post.authorization == self.authorization
        &&& post.launched == self.launched
        &&& post.limit == self.limit
        &&& if self.takes(index) {
            &&& post.slots@ == self.slots@.update(index as int, Slot::Settled(verdict_of(reply)))
            &&& post.settled == self.settled + 1
        } else {
            &&& post.slots == self.slots
            &&& post.settled == self.settled
        }
    }

    /// `report` is the report of the plan with these slots: one outcome per
    /// deletion, in order, each with the identifier and address of the
    /// deletion and the verdict in its slot.
    pub open spec fn is_report(plan: Seq<Deletion>, slots: Seq<Slot>, report: Report) -> bool {
        &&& report.outcomes@.len() == plan.len()
        &&& forall|i: int|
            0 <= i < plan.len() ==> {
                &&& (#[trigger] report.outcomes@[i]).id == plan[i].id
                &&& report.outcomes@[i].url == plan[i].url
                &&& slots[i] == Slot::Settled(report.outcomes@[i].verdict)
            }
    }

    /// A delete phase with nothing sent. A limit of zero counts as one.
    pub fn new(plan: Vec<Deletion>, authorization: String, limit: usize) -> (d: Deleter)
        ensures
            d.wf(),
            d.plan == plan,
            d.authorization == authorization,
            d.launched == 0,
            d.settled == 0,
            d.limit == if limit == 0 { 1 } else { limit as int },
            forall|i: int| 0 <= i < d.slots@.len() ==> #[trigger] d.slots@[i] is Pending,
    {
        let mut slots: Vec<Slot> = Vec::new();
        let mut k: usize = 0;
        while k < plan.len()
            invariant
                k <= plan@.len(),
                slots@.len() == k,
                forall|i: int| 0 <= i < k ==> #[trigger] slots@[i] is Pending,
                settled_among(slots@) == 0,
            decreases plan@.len() - k,
        {
            proof {
                assert(slots@.push(Slot::Pending).drop_last() =~= slots@);
            }
            slots.push(Slot::Pending);
            k += 1;
        }
        Deleter {
            plan,
            authorization,
            slots,
            launched: 0,
            settled: 0,
            limit: if limit == 0 { 1 } else { limit },
        }
    }

    /// Hands out the requests to send now: the next deletions in order, as
    /// many as the limit leaves room for.
    pub fn launch(&mut self) -> (batch: Vec<Dispatch>)
        requires
            old(self).wf(),
        ensures
            final(self).wf(),
            old(self).launches(*final(self), batch@),
    {
        let mut batch: Vec<Dispatch> = Vec::new();
        let ghost start = *self;
        while self.launched < self.plan.len() && self.launched - self.settled < self.limit
            invariant
                self.wf(),
                start.wf(),
                self.plan == start.plan,
                self.authorization == start.authorization,
                self.settled == start.settled,
                self.limit == start.limit,
                start.launched <= self.launched <= start.launch_target(),
                batch@.len() == self.launched - start.launched,
                forall|k: int|
                    0 <= k < batch@.len() ==> (#[trigger] batch@[k]).index == start.launched + k
                        && start.request_at(start.launched + k, batch@[k].request),
                forall|i: int|
                    0 <= i < start.slots@.len() ==> #[trigger] self.slots@[i] == if start.launched
                        <= i < self.launched {
                        Slot::InFlight
                    } else {
                        start.slots@[i]
                    },
            decreases self.plan@.len() - self.launched,
        {
            let index = self.launched;
            proof {
                lemma_settled_update(self.slots@, index as int, Slot::InFlight);
            }
            let request = Request {
                method: Method::Delete,
                url: self.plan[index].url.clone(),
                authorization: self.authorization.clone(),
            };
            self.slots.set(index, Slot::InFlight);
            self.launched = index + 1;
            batch.push(Dispatch { index, request });
        }
        batch
    }

    /// Records the reply to the request at `index`. It is taken exactly where
    /// that request is in flight; a reply for any other index changes nothing.
    pub fn settle(&mut self, index: usize, reply: Reply) -> (accepted: bool)
        requires
            old(self).wf(),
        ensures
            final(self).wf(),
            accepted == old(self).takes(index),
            old(self).settles(index, reply, *final(self)),
    {
        if index >= self.slots.len() {
            return false;
        }
        match &self.slots[index] {
            Slot::InFlight => {},
            _ => {
                return false;
            },
        }
        let verdict = classify(reply);
        proof {
            lemma_settled_update(self.slots@, index as int, Slot::Settled(verdict));
            lemma_settled_prefix(
                self.slots@.update(index as int, Slot::Settled(verdict)),
                self.launched as int,
            );
        }
        self.slots.set(index, Slot::Settled(verdict));
        self.settled = self.settled + 1;
        true
    }

    /// Whether the bookkeeping is sound. It is after `new`, and `launch` and
    /// `settle` keep it so; this is for a value that came another way.
    pub fn is_sound(&self) -> (b: bool)
        ensures
            b == self.wf(),
    {
        let n = self.plan.len();
        if self.slots.len() != n || self.settled > self.launched || self.launched > n
            || self.limit < 1 || self.launched - self.settled > self.limit {
            return false;
        }
        let mut count: usize = 0;
        let mut i: usize = 0;
        while i < n
            invariant
                n == self.slots@.len(),
                i <= n,
                count <= i,
                count == settled_among(self.slots@.take(i as int)),
                forall|j: int| 0 <= j < i && j < self.launched ==> !(#[trigger] self.slots@[j] is Pending),
                forall|j: int| self.launched <= j < i ==> #[trigger] self.slots@[j] is Pending,
            decreases n - i,
        {
            proof {
                assert(self.slots@.take(i + 1).drop_last() =~= self.slots@.take(i as int));
            }
            let pending = match &self.slots[i] {
                Slot::Pending => true,
                Slot::InFlight => false,
                Slot::Settled(_) => {
                    count = count + 1;
                    false
                },
            };
            if pending != (i >= self.launched) {
                return false;
            }
            i += 1;
        }
        proof {
            assert(self.slots@.take(n as int) =~= self.slots@);
        }
        count == self.settled
    }

    /// Whether every deletion was replied to.
    pub fn finished(&self) -> (b: bool)
        ensures
            b == self.is_done(),
    {
        self.settled == self.plan.len()
    }

    /// The report of a finished phase: one outcome per deletion, in the order
    /// of the plan, each with the verdict on its reply. `None` while a reply is
    /// outstanding.
    pub fn report(&self) -> (r: Option<Report>)
        requires
            self.wf(),
        ensures
            r is Some <==> self.is_done(),
            r matches Some(report) ==> Self::is_report(self.plan@, self.slots@, report),
    {
        if !self.finished() {
            return None;
        }
        proof {
            lemma_settled_bound(self.slots@);
        }
        let mut outcomes: Vec<DeleteOutcome> = Vec::new();
        let mut k: usize = 0;
        while k < self.plan.len()
            invariant
                self.slots@.len() == self.plan@.len(),
                forall|i: int| 0 <= i < self.slots@.len() ==> #[trigger] self.slots@[i] is Settled,
                k <= self.plan@.len(),
                outcomes@.len() == k,
                forall|i: int|
                    0 <= i < k ==> {
                        &&& (#[trigger] outcomes@[i]).id == self.plan@[i].id
                        &&& outcomes@[i].url == self.plan@[i].url
                        &&& self.slots@[i] == Slot::Settled(outcomes@[i].verdict)
                    },
            decreases self.plan@.len() - k,
        {
            match &self.slots[k] {
                Slot::Settled(verdict) => {
                    outcomes.push(
                        DeleteOutcome {
                            id: self.plan[k].id.clone(),
                            url: self.plan[k].url.clone(),
                            verdict: verdict.duplicate(),
                        },
                    );
                },
                _ => {},
            }
            k += 1;
        }
        Some(Report { outcomes })
    }
}

/// One move of a delete phase.
pub enum Move {
    /// `launch` handed out this batch.
    Launch(Seq<Dispatch>),
    /// `settle` was given this reply for this index.
    Settle(usize, Reply),
}

/// `post` comes from `pre` by the move.
pub open spec fn moves_to(pre: Deleter, m: Move, post: Deleter) -> bool {
    match m {
        Move::Launch(batch) => pre.launches(post, batch),
        Move::Settle(index, reply) => pre.settles(index, reply, post),
    }
}

/// A history of a delete phase: it starts with nothing sent, and each state
/// comes from the one before by a move.
pub open spec fn is_history(states: Seq<Deleter>, moves: Seq<Move>) -> bool {
    &&& states.len() == moves.len() + 1
    &&& states[0].wf()
    &&& states[0].launched == 0
    &&& forall|n: int| 0 <= n < moves.len() ==> moves_to(#[trigger] states[n], moves[n], states[n + 1])
}

/// All the requests that the moves handed out, in order.
pub open spec fn sent_by(moves: Seq<Move>) -> Seq<Dispatch>
    decreases moves.len(),
{
    if moves.len() == 0 {
        Seq::empty()
    } else {
        sent_by(moves.drop_last()) + match moves.last() {
            Move::Launch(batch) => batch,
            Move::Settle(_, _) => Seq::empty(),
        }
    }
}

/// A move keeps the bookkeeping sound.
pub proof fn lemma_move_keeps_wf(pre: Deleter, m: Move, post: Deleter)
    requires
        pre.wf(),
        moves_to(pre, m, post),
    ensures
        post.wf(),
{
    match m {
        Move::Launch(batch) => {
            assert forall|i: int| 0 <= i < pre.slots@.len() implies (#[trigger] pre.slots@[i]
                is Settled) == (post.slots@[i] is Settled) by {
                assert(post.slots@[i] == if pre.launched <= i < post.launched {
                    Slot::InFlight
                } else {
                    pre.slots@[i]
                });
            }
            lemma_settled_same(pre.slots@, post.slots@);
            assert forall|i: int| 0 <= i < post.launched implies !(#[trigger] post.slots@[i]
                is Pending) by {
                if i < pre.launched {
                    assert(!(pre.slots@[i] is Pending));
                }
            }
            assert forall|i: int| post.launched <= i < post.slots@.len() implies #[trigger] post.slots@[i]
                is Pending by {
                assert(pre.slots@[i] is Pending);
            }
        },
        Move::Settle(index, reply) => {
            if pre.takes(index) {
                let slot = Slot::Settled(verdict_of(reply));
                lemma_settled_update(pre.slots@, index as int, slot);
                lemma_settled_prefix(pre.slots@.update(index as int, slot), pre.launched as int);
                assert forall|i: int| 0 <= i < post.launched implies !(#[trigger] post.slots@[i]
                    is Pending) by {
                    if i != index {
                        assert(!(pre.slots@[i] is Pending));
                    }
                }
                assert forall|i: int| post.launched <= i < post.slots@.len() implies #[trigger] post.slots@[i]
                    is Pending by {
                    assert(pre.slots@[i] is Pending);
                }
            }
        },
    }
}

/// A verdict, once recorded, stays: no move changes a settled slot.
pub proof fn lemma_settled_slot_stays(pre: Deleter, m: Move, post: Deleter, i: int)
    requires
        pre.wf(),
        moves_to(pre, m, post),
        0 <= i < pre.slots@.len(),
        pre.slots@[i] is Settled,
    ensures
        post.slots@[i] == pre.slots@[i],
{
    match m {
        Move::Launch(batch) => {
            assert(!(pre.slots@[i] is Pending));
            assert(post.slots@[i] == if pre.launched <= i < post.launched {
                Slot::InFlight
            } else {
                pre.slots@[i]
            });
        },
        Move::Settle(index, reply) => {},
    }
}

/// Where every deletion is settled, every deletion was sent and each slot
/// holds a verdict.
pub proof fn lemma_done_covers_every_item(d: Deleter)
    requires
        d.wf(),
        d.is_done(),
    ensures
        d.launched == d.plan@.len(),
        d.in_flight() == 0,
        forall|i: int| 0 <= i < d.plan@.len() ==> #[trigger] d.slots@[i] is Settled,
{
    lemma_settled_bound(d.slots@);
}

/// Over any history, the requests handed out are those of the deletions from
/// the first to the last one sent, each once and in order; no more than the
/// limit are ever in flight; and a history that ends with every deletion
/// settled has handed out one request for each deletion of the plan.
pub proof fn lemma_history_sends_each_once(states: Seq<Deleter>, moves: Seq<Move>)
    requires
        is_history(states, moves),
    ensures
        states.last().wf(),
        states.last().plan == states[0].plan,
        states.last().authorization == states[0].authorization,
        states.last().in_flight() <= states.last().limit,
        sent_by(moves).len() == states.last().launched,
        forall|i: int|
            0 <= i < sent_by(moves).len() ==> (#[trigger] sent_by(moves)[i]).index == i
                && states.last().request_at(i, sent_by(moves)[i].request),
        states.last().is_done() ==> sent_by(moves).len() == states[0].plan@.len(),
    decreases moves.len(),
{
    if moves.len() > 0 {
        let n = moves.len() - 1;
        let before = states.drop_last();
        let earlier = moves.drop_last();
        assert(before[0] == states[0]);
        assert forall|k: int| 0 <= k < earlier.len() implies moves_to(
            #[trigger] before[k],
            earlier[k],
            before[k + 1],
        ) by {
            assert(moves_to(states[k], moves[k], states[k + 1]));
        }
        lemma_history_sends_each_once(before, earlier);
        let pre = states[n];
        let post = states[n + 1];
        assert(before.last() == pre);
        assert(states.last() == post);
        assert(moves_to(pre, moves[n], post));
        lemma_move_keeps_wf(pre, moves[n], post);
        match moves[n] {
            Move::Launch(batch) => {
                assert(sent_by(moves) == sent_by(earlier) + batch);
                assert forall|i: int| 0 <= i < sent_by(moves).len() implies (#[trigger] sent_by(
                    moves,
                )[i]).index == i && post.request_at(i, sent_by(moves)[i].request) by {
                    if i < sent_by(earlier).len() {
                        assert(sent_by(moves)[i] == sent_by(earlier)[i]);
                        assert(pre.request_at(i, sent_by(earlier)[i].request));
                    } else {
                        let k = i - pre.launched;
                        assert(sent_by(moves)[i] == batch[k]);
                        assert(pre.request_at(pre.launched + k, batch[k].request));
                    }
                }
            },
            Move::Settle(index, reply) => {
                assert(sent_by(moves) =~= sent_by(earlier));
                assert forall|i: int| 0 <= i < sent_by(moves).len() implies (#[trigger] sent_by(
                    moves,
                )[i]).index == i && post.request_at(i, sent_by(moves)[i].request) by {
                    assert(pre.request_at(i, sent_by(earlier)[i].request));
                }
            },
        }
    }
    if states.last().is_done() {
        lemma_done_covers_every_item(states.last());
    }
}

} // verus!
