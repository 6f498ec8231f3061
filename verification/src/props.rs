//! The router's guarantees, stated and proved over the models that the
//! executable functions' contracts use.

use vstd::prelude::*;

use serde_json::Value;

use crate::longpull::{batch_size, GetUpdatesParams, LongPollModel};
use crate::routing::{
    cursor_next, deliver, deliver_all, deliver_many, queue_push, Delivery, RouteModel,
};

use vstd::arithmetic::div_mod::{lemma_mod_equivalence, lemma_small_mod};

verus! {

/// FIFO: a poll drains a prefix of the buffer and leaves the rest, so the
/// batch and the remaining buffer together are exactly the buffered items,
/// in push order, with the batch holding the oldest ones.
pub proof fn lemma_fifo_drain(buf: Seq<Value>, limit: int)
    requires
        0 <= limit,
    ensures
        ({
            let k = batch_size(buf.len() as int, limit);
            &&& buf.take(k) + buf.skip(k) == buf
            &&& forall|i: int| 0 <= i < k ==> buf.take(k)[i] == buf[i]
        }),
{
    let k = batch_size(buf.len() as int, limit);
    assert(buf.take(k) + buf.skip(k) =~= buf);
}

/// Batch cap: a poll never returns more than the requested limit, never
/// more than is buffered, and returns something as soon as anything is
/// buffered (it does not wait for more to accumulate).
pub proof fn lemma_batch_cap(len: int, limit: int)
    requires
        0 <= len,
        0 <= limit,
    ensures
        batch_size(len, limit) <= limit,
        batch_size(len, limit) <= len,
        len > 0 && limit > 0 ==> batch_size(len, limit) > 0,
{
}

/// Successive polls drain consecutive chunks: what two polls in a row
/// return, put together, is one longer prefix of the buffer — nothing is
/// skipped or seen twice.
pub proof fn lemma_batch_chunks(buf: Seq<Value>, l1: int, l2: int)
    requires
        0 <= l1,
        0 <= l2,
    ensures
        ({
            let k1 = batch_size(buf.len() as int, l1);
            let rest = buf.skip(k1);
            let k2 = batch_size(rest.len() as int, l2);
            buf.take(k1) + rest.take(k2) == buf.take(k1 + k2)
        }),
{
    let k1 = batch_size(buf.len() as int, l1);
    let rest = buf.skip(k1);
    let k2 = batch_size(rest.len() as int, l2);
    assert(buf.take(k1) + rest.take(k2) =~= buf.take(k1 + k2));
}

/// Wake-on-push: once an update lands in an empty queue, the very next poll
/// round replies immediately with exactly that update, whatever the timeout
/// state.
pub proof fn lemma_wake_on_push(q: LongPollModel, u: Value, params: GetUpdatesParams)
    requires
        q.updates.len() == 0,
        params.batch_limit() >= 1,
    ensures
        ({
            let buf = q.updates.push(u);
            let k = batch_size(buf.len() as int, params.batch_limit() as int);
            &&& buf.len() > 0
            &&& k == 1
            &&& buf.take(k) == seq![u]
        }),
{
    let buf = q.updates.push(u);
    assert(buf.take(1) =~= seq![u]);
}

/// Delivery to a round-robin strategy without children is a silent no-op:
/// nothing in the pool changes and no relay leg is decided.
pub proof fn lemma_rr_no_children(cursor: usize, qs: Seq<LongPollModel>, u: Value)
    ensures
        deliver(RouteModel::RoundRobin { children: Seq::empty(), cursor }, qs, u)
            == (Delivery {
            route: RouteModel::RoundRobin { children: Seq::empty(), cursor },
            queues: qs,
            relays: Seq::empty(),
        }),
{
}

/// Round-robin delivers to exactly one child — the one at `cursor mod len`
/// — advances the cursor by one, and leaves every sibling untouched.
pub proof fn lemma_rr_delivers_to_selected(
    children: Seq<RouteModel>,
    cursor: usize,
    qs: Seq<LongPollModel>,
    u: Value,
)
    requires
        children.len() > 0,
    ensures
        ({
            let i = cursor as int % children.len() as int;
            let d = deliver(RouteModel::RoundRobin { children, cursor }, qs, u);
            let child_d = deliver(children[i], qs, u);
            &&& d.route == (RouteModel::RoundRobin {
                children: children.update(i, child_d.route),
                cursor: cursor_next(cursor),
            })
            &&& d.queues == child_d.queues
            &&& d.relays == child_d.relays
            &&& forall|t: int|
                0 <= t < children.len() && t != i ==> d.route->RoundRobin_children[t]
                    == children[t]
        }),
{
}

/// Long-run fairness of the selection rule: within any window of `n`
/// consecutive deliveries (cursor not wrapping), no child is selected
/// twice — so each of the `n` children is selected exactly once per window.
pub proof fn lemma_rr_fair_window(c: int, n: int, k1: int, k2: int)
    requires
        0 < n,
        0 <= c,
        0 <= k1 < k2 < n,
    ensures
        (c + k1) % n != (c + k2) % n,
{
    if (c + k1) % n == (c + k2) % n {
        lemma_mod_equivalence(c + k2, c + k1, n);
        assert(((c + k2) - (c + k1)) % n == 0);
        lemma_small_mod((k2 - k1) as nat, n as nat);
        assert((k2 - k1) % n == k2 - k1);
    }
}

/// Over a run of sequential deliveries (cursor not wrapping), a round-robin
/// node stays a round-robin node, keeps its child count, and moves its
/// cursor forward by exactly one per delivery — so with
/// `lemma_rr_delivers_to_selected` the `k`-th delivery goes to child
/// `(cursor + k) mod len`, and with `lemma_rr_fair_window` a full cycle of
/// `len` deliveries reaches every child exactly once, in child-list order.
pub proof fn lemma_rr_many_advances(
    children: Seq<RouteModel>,
    cursor: usize,
    qs: Seq<LongPollModel>,
    us: Seq<Value>,
)
    requires
        children.len() > 0,
        cursor + us.len() <= usize::MAX,
    ensures
        ({
            let d = deliver_many(RouteModel::RoundRobin { children, cursor }, qs, us);
            &&& d.route is RoundRobin
            &&& d.route->RoundRobin_children.len() == children.len()
            &&& d.route->RoundRobin_cursor == cursor + us.len()
        }),
    decreases us.len(),
{
    if us.len() > 0 {
        let d1 = deliver(RouteModel::RoundRobin { children, cursor }, qs, us.first());
        let i = cursor as int % children.len() as int;
        let children2 = children.update(i, deliver(children[i], qs, us.first()).route);
        assert(d1.route == (RouteModel::RoundRobin {
            children: children2,
            cursor: cursor_next(cursor),
        }));
        lemma_rr_many_advances(children2, cursor_next(cursor), d1.queues, us.drop_first());
    }
}

/// Delivery only appends: it never drops, reorders or edits what is already
/// buffered, never renames a queue, and never changes the pool's size.
pub proof fn lemma_deliver_appends(r: RouteModel, qs: Seq<LongPollModel>, u: Value)
    ensures
        ({
            let d = deliver(r, qs, u);
            &&& d.queues.len() == qs.len()
            &&& forall|j: int| 0 <= j < qs.len() ==> d.queues[j].path == qs[j].path
            &&& forall|j: int|
                0 <= j < qs.len() ==> qs[j].updates.len() <= d.queues[j].updates.len()
            &&& forall|j: int|
                0 <= j < qs.len() ==> d.queues[j].updates.take(qs[j].updates.len() as int)
                    == qs[j].updates
        }),
    decreases r, 1int,
{
    let d = deliver(r, qs, u);
    match r {
        RouteModel::Longpull { queue } => {
            assert forall|j: int|
                0 <= j < qs.len() implies d.queues[j].updates.take(qs[j].updates.len() as int)
                == qs[j].updates by {
                if j == queue {
                    assert(d.queues[j].updates.take(qs[j].updates.len() as int) =~= qs[j].updates);
                } else {
                    assert(d.queues[j].updates.take(qs[j].updates.len() as int) =~= qs[j].updates);
                }
            }
        },
        RouteModel::Webhook { url } => {
            assert forall|j: int|
                0 <= j < qs.len() implies d.queues[j].updates.take(qs[j].updates.len() as int)
                == qs[j].updates by {
                assert(qs[j].updates.take(qs[j].updates.len() as int) =~= qs[j].updates);
            }
        },
        RouteModel::RoundRobin { children, cursor } => {
            if children.len() > 0 {
                let i = cursor as int % children.len() as int;
                lemma_deliver_appends(children[i], qs, u);
            } else {
                assert forall|j: int|
                    0 <= j < qs.len() implies d.queues[j].updates.take(
                    qs[j].updates.len() as int,
                ) == qs[j].updates by {
                    assert(qs[j].updates.take(qs[j].updates.len() as int) =~= qs[j].updates);
                }
            }
        },
        RouteModel::Broadcast { children } => {
            lemma_deliver_all_appends(children, qs, u);
        },
    }
}

/// `lemma_deliver_appends`, for the fan-out over a child list.
pub proof fn lemma_deliver_all_appends(
    children: Seq<RouteModel>,
    qs: Seq<LongPollModel>,
    u: Value,
)
    ensures
        ({
            let d = deliver_all(children, qs, u);
            &&& d.queues.len() == qs.len()
            &&& forall|j: int| 0 <= j < qs.len() ==> d.queues[j].path == qs[j].path
            &&& forall|j: int|
                0 <= j < qs.len() ==> qs[j].updates.len() <= d.queues[j].updates.len()
            &&& forall|j: int|
                0 <= j < qs.len() ==> d.queues[j].updates.take(qs[j].updates.len() as int)
                    == qs[j].updates
        }),
    decreases children, 0int,
{
    let d = deliver_all(children, qs, u);
    if children.len() == 0 {
        assert forall|j: int|
            0 <= j < qs.len() implies d.queues[j].updates.take(qs[j].updates.len() as int)
            == qs[j].updates by {
            assert(qs[j].updates.take(qs[j].updates.len() as int) =~= qs[j].updates);
        }
    } else {
        let first = deliver(children.first(), qs, u);
        lemma_deliver_appends(children.first(), qs, u);
        lemma_deliver_all_appends(children.drop_first(), first.queues, u);
        let rest = deliver_all(children.drop_first(), first.queues, u);
        assert forall|j: int|
            0 <= j < qs.len() implies d.queues[j].updates.take(qs[j].updates.len() as int)
            == qs[j].updates by {
            let a = qs[j].updates;
            let b = first.queues[j].updates;
            let c = rest.queues[j].updates;
            assert(b.take(a.len() as int) == a);
            assert(c.take(b.len() as int) == b);
            assert(c.take(a.len() as int) =~= a) by {
                assert(forall|x: int| 0 <= x < a.len() ==> c.take(a.len() as int)[x] == c[x]);
                assert(forall|x: int|
                    0 <= x < b.len() ==> c.take(b.len() as int)[x] == c[x]);
                assert(forall|x: int|
                    0 <= x < a.len() ==> b.take(a.len() as int)[x] == b[x]);
            }
        }
    }
}

/// Broadcast completeness: one delivery to a broadcast strategy puts the
/// update into the queue of every long-poll child, however many children
/// there are and whatever else they are.
pub proof fn lemma_broadcast_reaches_all(
    children: Seq<RouteModel>,
    qs: Seq<LongPollModel>,
    u: Value,
    t: int,
)
    requires
        0 <= t < children.len(),
        children[t] is Longpull,
        0 <= children[t]->Longpull_queue < qs.len(),
    ensures
        deliver(RouteModel::Broadcast { children }, qs, u).queues[children[t]->Longpull_queue]
            .updates.contains(u),
{
    lemma_fanout_reaches(children, qs, u, t);
}

/// The fan-out reaches the long-poll child at position `t`.
proof fn lemma_fanout_reaches(
    children: Seq<RouteModel>,
    qs: Seq<LongPollModel>,
    u: Value,
    t: int,
)
    requires
        0 <= t < children.len(),
        children[t] is Longpull,
        0 <= children[t]->Longpull_queue < qs.len(),
    ensures
        deliver_all(children, qs, u).queues[children[t]->Longpull_queue].updates.contains(u),
    decreases children,
{
    let d = deliver_all(children, qs, u);
    let first = deliver(children.first(), qs, u);
    let rest = deliver_all(children.drop_first(), first.queues, u);
    if t == 0 {
        let q = children[0]->Longpull_queue;
        let pos = qs[q].updates.len() as int;
        assert(first.queues[q].updates == qs[q].updates.push(u));
        assert(first.queues[q].updates[pos] == u);
        lemma_deliver_all_appends(children.drop_first(), first.queues, u);
        assert(rest.queues[q].updates.take(first.queues[q].updates.len() as int)
            == first.queues[q].updates);
        assert(rest.queues[q].updates[pos] == first.queues[q].updates.take(
            first.queues[q].updates.len() as int,
        )[pos]);
        assert(d.queues[q].updates[pos] == u);
    } else {
        lemma_deliver_appends(children.first(), qs, u);
        assert(children.drop_first()[t - 1] == children[t]);
        lemma_fanout_reaches(children.drop_first(), first.queues, u, t - 1);
    }
}

/// Registry visibility: after a long-poll leaf is added, its path resolves
/// in the registry to the very pool slot the strategy now delivers to —
/// when the cursor comes around to the new child, the delivered update
/// lands in the queue that a fetch on that path drains.
pub proof fn lemma_registry_visibility(
    reg: Map<Seq<char>, usize>,
    path: Seq<char>,
    id: usize,
    children: Seq<RouteModel>,
    cursor: usize,
    qs: Seq<LongPollModel>,
    u: Value,
)
    requires
        children.len() > 0,
        children[cursor as int % children.len() as int] == (RouteModel::Longpull {
            queue: id as int,
        }),
        id < qs.len(),
    ensures
        reg.insert(path, id).contains_key(path),
        reg.insert(path, id)[path] == id,
        deliver(RouteModel::RoundRobin { children, cursor }, qs, u).queues == queue_push(
            qs,
            id as int,
            u,
        ),
        deliver(RouteModel::RoundRobin { children, cursor }, qs, u).queues[id as int].updates
            == qs[id as int].updates.push(u),
{
    let i = cursor as int % children.len() as int;
    assert(deliver(children[i], qs, u).queues == queue_push(qs, id as int, u));
}

/// Overwrite semantics: registering a path twice leaves it resolving to the
/// second queue only, and no other path is affected.
pub proof fn lemma_register_overwrite(
    reg: Map<Seq<char>, usize>,
    path: Seq<char>,
    q1: usize,
    q2: usize,
)
    ensures
        reg.insert(path, q1).insert(path, q2) == reg.insert(path, q2),
        reg.insert(path, q1).insert(path, q2)[path] == q2,
        forall|other: Seq<char>|
            other != path && reg.contains_key(other) ==> reg.insert(path, q1).insert(
                path,
                q2,
            )[other] == reg[other],
{
    assert(reg.insert(path, q1).insert(path, q2) =~= reg.insert(path, q2));
}

} // verus!
