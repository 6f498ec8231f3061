//! The route tree and its two dispatch strategies.
//!
//! A route is either a leaf (a long-poll queue, named by its index into the
//! queue pool, or a webhook relay) or a composite holding an ordered list of
//! child routes: round-robin delivers each update to exactly one child and
//! advances a cursor, broadcast fans every update out to all children.
//! Composites nest arbitrarily.
//!
//! Delivery is specified by the recursive functions `deliver` and
//! `deliver_all` over the tree's mathematical model, and the executable
//! `Route::process` is proved to realize exactly that specification.

use vstd::prelude::*;

use vstd::string::StringExecFns;

use serde_json::Value;

use crate::describe::{doc_model, docs_of, lemma_docs_of, DocModel, RouteDoc};
use crate::longpull::{LongPollModel, LongPollRoute};
use crate::payload::clone_value;
use crate::registry::LongpollRegistry;
use crate::webhook::{RelayAction, RelayModel, WebhookRoute};

verus! {

/// A node of the distribution tree.
pub enum Route {
    /// A long-poll queue leaf; the index names a queue in the pool owned by
    /// the embedding server state, so the registry can share the queue.
    Longpull(usize),
    /// A webhook relay leaf.
    Webhook(WebhookRoute),
    /// Round-robin over children.
    RoundRobin(RoundRobinLB),
    /// Broadcast to all children.
    All(AllLB),
}

/// Round-robin dispatch: one child per delivery, selected by a cursor that
/// only ever moves forward (wrapping), never resets on child-set changes.
pub struct RoundRobinLB {
    pub routes: Vec<Route>,
    pub current: usize,
}

/// Broadcast dispatch: every delivery reaches every child.
pub struct AllLB {
    pub routes: Vec<Route>,
}

/// Mathematical model of a route tree.
pub enum RouteModel {
    Longpull { queue: int },
    Webhook { url: Seq<char> },
    RoundRobin { children: Seq<RouteModel>, cursor: usize },
    Broadcast { children: Seq<RouteModel> },
}

/// The model of a route.
pub open spec fn route_model(r: Route) -> RouteModel
    decreases r,
{
    match r {
        Route::Longpull(q) => RouteModel::Longpull { queue: q as int },
        Route::Webhook(w) => RouteModel::Webhook { url: w.url@ },
        Route::RoundRobin(lb) => RouteModel::RoundRobin {
            children: models_of(lb.routes@),
            cursor: lb.current,
        },
        Route::All(lb) => RouteModel::Broadcast { children: models_of(lb.routes@) },
    }
}

/// The models of a list of child routes, in order.
pub open spec fn models_of(s: Seq<Route>) -> Seq<RouteModel>
    decreases s,
{
    if s.len() == 0 {
        Seq::empty()
    } else {
        models_of(s.drop_last()).push(route_model(s.last()))
    }
}

/// `models_of` is the pointwise model of the list.
pub proof fn lemma_models_of(s: Seq<Route>)
    ensures
        models_of(s).len() == s.len(),
        forall|i: int| 0 <= i < s.len() ==> models_of(s)[i] == route_model(s[i]),
    decreases s,
{
    if s.len() > 0 {
        lemma_models_of(s.drop_last());
    }
}

/// A tree is well formed for a pool of `n_queues` queues when every
/// long-poll leaf names a queue inside the pool.
pub open spec fn route_wf(r: RouteModel, n_queues: int) -> bool
    decreases r,
{
    match r {
        RouteModel::Longpull { queue } => 0 <= queue < n_queues,
        RouteModel::Webhook { url } => true,
        RouteModel::RoundRobin { children, cursor } => children_wf(children, n_queues),
        RouteModel::Broadcast { children } => children_wf(children, n_queues),
    }
}

/// Every child is well formed.
pub open spec fn children_wf(s: Seq<RouteModel>, n_queues: int) -> bool
    decreases s,
{
    if s.len() == 0 {
        true
    } else {
        route_wf(s.first(), n_queues) && children_wf(s.drop_first(), n_queues)
    }
}

/// `children_wf` holds exactly when each child is well formed.
pub proof fn lemma_children_wf(s: Seq<RouteModel>, n_queues: int)
    ensures
        children_wf(s, n_queues) <==> (forall|i: int|
            0 <= i < s.len() ==> route_wf(s[i], n_queues)),
    decreases s,
{
    if s.len() > 0 {
        lemma_children_wf(s.drop_first(), n_queues);
        if forall|i: int| 0 <= i < s.len() ==> route_wf(s[i], n_queues) {
            assert(forall|i: int|
                0 <= i < s.drop_first().len() ==> s.drop_first()[i] == s[i + 1]);
        }
        if children_wf(s, n_queues) {
            assert forall|i: int| 0 <= i < s.len() implies route_wf(s[i], n_queues) by {
                if i > 0 {
                    assert(s.drop_first()[i - 1] == s[i]);
                }
            }
        }
    }
}

/// Append `u` at the tail of queue `q`, if the pool has such a queue.
pub open spec fn queue_push(qs: Seq<LongPollModel>, q: int, u: Value) -> Seq<LongPollModel> {
    if 0 <= q < qs.len() {
        qs.update(q, LongPollModel { path: qs[q].path, updates: qs[q].updates.push(u) })
    } else {
        qs
    }
}

/// The cursor after a round-robin selection: forward by one, wrapping.
pub open spec fn cursor_next(c: usize) -> usize {
    if c == usize::MAX {
        0
    } else {
        (c + 1) as usize
    }
}

/// What one delivery does: the tree afterwards (cursors may have advanced),
/// the queue pool afterwards, and the relay legs the delivery decided on.
pub struct Delivery {
    pub route: RouteModel,
    pub queues: Seq<LongPollModel>,
    pub relays: Seq<RelayModel>,
}

/// What a delivery to each of a list of children in order does.
pub struct FanoutDelivery {
    pub children: Seq<RouteModel>,
    pub queues: Seq<LongPollModel>,
    pub relays: Seq<RelayModel>,
}

/// Delivery of `u` to the tree `r` over the queue pool `qs`.
///
/// A long-poll leaf enqueues `u`; a webhook leaf yields one relay leg; a
/// round-robin node with children picks child `cursor % len`, advances the
/// cursor and delivers to that child alone (no children: a silent no-op); a
/// broadcast node delivers to every child in list order.
pub open spec fn deliver(r: RouteModel, qs: Seq<LongPollModel>, u: Value) -> Delivery
    decreases r, 1int,
{
    match r {
        RouteModel::Longpull { queue } => Delivery {
            route: r,
            queues: queue_push(qs, queue, u),
            relays: Seq::empty(),
        },
        RouteModel::Webhook { url } => Delivery {
            route: r,
            queues: qs,
            relays: seq![RelayModel { url, update: u }],
        },
        RouteModel::RoundRobin { children, cursor } => {
            if children.len() == 0 {
                Delivery { route: r, queues: qs, relays: Seq::empty() }
            } else {
                let i = cursor as int % children.len() as int;
                let d = deliver(children[i], qs, u);
                Delivery {
                    route: RouteModel::RoundRobin {
                        children: children.update(i, d.route),
                        cursor: cursor_next(cursor),
                    },
                    queues: d.queues,
                    relays: d.relays,
                }
            }
        },
        RouteModel::Broadcast { children } => {
            let d = deliver_all(children, qs, u);
            Delivery {
                route: RouteModel::Broadcast { children: d.children },
                queues: d.queues,
                relays: d.relays,
            }
        },
    }
}

/// Delivery of `u` to each child in order, threading the queue pool and
/// concatenating the relay legs.
pub open spec fn deliver_all(children: Seq<RouteModel>, qs: Seq<LongPollModel>, u: Value) -> FanoutDelivery
    decreases children, 0int,
{
    if children.len() == 0 {
        FanoutDelivery { children, queues: qs, relays: Seq::empty() }
    } else {
        let first = deliver(children.first(), qs, u);
        let rest = deliver_all(children.drop_first(), first.queues, u);
        FanoutDelivery {
            children: seq![first.route] + rest.children,
            queues: rest.queues,
            relays: first.relays + rest.relays,
        }
    }
}

/// The models of the queues in a pool.
pub open spec fn queue_models(s: Seq<LongPollRoute>) -> Seq<LongPollModel> {
    s.map_values(|q: LongPollRoute| q@)
}

/// The models of recorded relay legs.
pub open spec fn relay_models(s: Seq<RelayAction>) -> Seq<RelayModel> {
    s.map_values(|a: RelayAction| a@)
}

impl Route {
    /// The tree names only queues that the pool of `n_queues` queues has.
    pub open spec fn wf(self, n_queues: int) -> bool {
        route_wf(route_model(self), n_queues)
    }

    /// Deliver `update` into this tree: exactly what the `deliver`
    /// specification says. Queue pushes land in `queues`; decided relay legs
    /// are appended to `relays` for the embedding program to perform.
    pub fn process(&mut self, queues: &mut Vec<LongPollRoute>, update: Value, relays: &mut Vec<RelayAction>)
        requires
            old(self).wf(old(queues)@.len() as int),
        ensures
            final(queues)@.len() == old(queues)@.len(),
            old(relays)@.len() <= final(relays)@.len(),
            old(relays)@ == final(relays)@.take(old(relays)@.len() as int),
            ({
                let d = deliver(route_model(*old(self)), queue_models(old(queues)@), update);
                &&& route_model(*final(self)) == d.route
                &&& queue_models(final(queues)@) == d.queues
                &&& relay_models(final(relays)@) == relay_models(old(relays)@) + d.relays
            }),
        decreases *old(self),
    {
        match self {
            Route::Longpull(q) => {
                let qi: usize = *q;
                let mut queue = queues.remove(qi);
                queue.process(update);
                queues.insert(qi, queue);
                proof {
                    assert(queues@ =~= old(queues)@.update(
                        qi as int,
                        queues@[qi as int],
                    ));
                    assert(queue_models(queues@) =~= queue_push(
                        queue_models(old(queues)@),
                        qi as int,
                        update,
                    ));
                    assert(relay_models(relays@) =~= relay_models(old(relays)@)
                        + Seq::<RelayModel>::empty());
                    assert(old(relays)@ =~= relays@.take(old(relays)@.len() as int));
                }
            },
            Route::Webhook(w) => {
                let url = w.url.clone();
                relays.push(RelayAction { url, update });
                proof {
                    assert(relay_models(relays@) =~= relay_models(old(relays)@)
                        + seq![RelayModel { url: w.url@, update }]);
                    assert(old(relays)@ =~= relays@.take(old(relays)@.len() as int));
                }
            },
            Route::RoundRobin(lb) => {
                let ghost r0 = *old(self);
                let ghost children0 = models_of(old(self)->RoundRobin_0.routes@);
                let n = lb.routes.len();
                if n > 0 {
                    let idx = lb.current % n;
                    lb.current = if lb.current == usize::MAX {
                        0
                    } else {
                        lb.current + 1
                    };
                    let mut child = lb.routes.remove(idx);
                    proof {
                        lemma_models_of(old(self)->RoundRobin_0.routes@);
                        lemma_children_wf(children0, old(queues)@.len() as int);
                        assert(route_model(child) == children0[idx as int]);
                        assert(decreases_to!(r0 => r0->RoundRobin_0));
                        assert(decreases_to!(r0->RoundRobin_0 => r0->RoundRobin_0.routes));
                        assert(decreases_to!(r0->RoundRobin_0.routes => r0->RoundRobin_0.routes@));
                        assert(decreases_to!(r0->RoundRobin_0.routes@ =>
                            r0->RoundRobin_0.routes@[idx as int]));
                        assert(child == r0->RoundRobin_0.routes@[idx as int]);
                    }
                    child.process(queues, update, relays);
                    lb.routes.insert(idx, child);
                    proof {
                        lemma_models_of(lb.routes@);
                        assert(models_of(lb.routes@) =~= children0.update(
                            idx as int,
                            route_model(lb.routes@[idx as int]),
                        ));
                    }
                }
            },
            Route::All(lb) => {
                let ghost r0 = *old(self);
                let ghost routes0 = old(self)->All_0.routes@;
                let ghost qs0 = queue_models(old(queues)@);
                let ghost relays0 = old(relays)@;
                let ghost fan = deliver_all(models_of(routes0), qs0, update);
                let n = lb.routes.len();
                proof {
                    lemma_models_of(routes0);
                    assert(models_of(routes0).skip(0) =~= models_of(routes0));
                    assert(lb.routes@.take(0) =~= Seq::<Route>::empty());
                    assert(models_of(lb.routes@.take(0)) == Seq::<RouteModel>::empty());
                    assert(fan.children =~= Seq::<RouteModel>::empty() + fan.children);
                    assert(relay_models(relays@).skip(relays0.len() as int) =~= Seq::<
                        RelayModel,
                    >::empty());
                    assert(fan.relays =~= Seq::<RelayModel>::empty() + fan.relays);
                    assert(relays@.take(relays0.len() as int) =~= relays0);
                }
                let mut i: usize = 0;
                while i < n
                    invariant
                        i <= n,
                        r0 == *old(self),
                        r0 is All,
                        routes0 == r0->All_0.routes@,
                        n == lb.routes@.len(),
                        n == routes0.len(),
                        forall|j: int| i <= j < n ==> lb.routes@[j] == routes0[j],
                        queues@.len() == old(queues)@.len(),
                        children_wf(models_of(routes0), old(queues)@.len() as int),
                        fan == deliver_all(models_of(routes0), qs0, update),
                        qs0 == queue_models(old(queues)@),
                        relays0 == old(relays)@,
                        relays0.len() <= relays@.len(),
                        relays@.take(relays0.len() as int) == relays0,
                        ({
                            let rest = deliver_all(
                                models_of(routes0).skip(i as int),
                                queue_models(queues@),
                                update,
                            );
                            &&& fan.children == models_of(lb.routes@.take(i as int))
                                + rest.children
                            &&& fan.queues == rest.queues
                            &&& fan.relays == relay_models(relays@).skip(relays0.len() as int)
                                + rest.relays
                        }),
                    decreases n - i,
                {
                    let ghost qs_pre = queue_models(queues@);
                    let ghost relays_pre = relays@;
                    let ghost routes_pre = lb.routes@;
                    let ghost prefix0 = models_of(lb.routes@.take(i as int));
                    let mut child = lb.routes.remove(i);
                    let u2 = clone_value(&update);
                    proof {
                        lemma_models_of(routes0);
                        lemma_children_wf(models_of(routes0), old(queues)@.len() as int);
                        assert(child == routes0[i as int]);
                        assert(route_model(child) == models_of(routes0)[i as int]);
                        assert(decreases_to!(r0 => r0->All_0));
                        assert(decreases_to!(r0->All_0 => r0->All_0.routes));
                        assert(decreases_to!(r0->All_0.routes => r0->All_0.routes@));
                        assert(decreases_to!(r0->All_0.routes@ => r0->All_0.routes@[i as int]));
                        assert(child == r0->All_0.routes@[i as int]);
                    }
                    child.process(queues, u2, relays);
                    lb.routes.insert(i, child);
                    proof {
                        let s_i = models_of(routes0).skip(i as int);
                        let first = deliver(s_i.first(), qs_pre, update);
                        let rest_pre = deliver_all(s_i.drop_first(), first.queues, update);
                        assert(s_i.first() == route_model(routes0[i as int]));
                        assert(s_i.drop_first() =~= models_of(routes0).skip(i as int + 1));
                        assert(first == deliver(route_model(routes0[i as int]), qs_pre, update));
                        assert(queue_models(queues@) == first.queues);
                        assert(relay_models(relays@) == relay_models(relays_pre) + first.relays);
                        assert(lb.routes@ =~= routes_pre.update(i as int, lb.routes@[i as int]));
                        assert(route_model(lb.routes@[i as int]) == first.route);
                        assert(lb.routes@.take(i as int) =~= routes_pre.take(i as int));
                        assert(models_of(lb.routes@.take(i as int)) == prefix0);
                        let tnew = lb.routes@.take(i as int + 1);
                        assert(tnew.len() == i + 1);
                        assert(tnew.drop_last() =~= routes_pre.take(i as int));
                        assert(tnew.last() == lb.routes@[i as int]);
                        assert(models_of(tnew) == models_of(tnew.drop_last()).push(
                            route_model(tnew.last()),
                        ));
                        assert(models_of(tnew) == prefix0.push(first.route));
                        // relay bookkeeping: the new legs sit after the old ones
                        assert(relays@.take(relays0.len() as int) =~= relays0) by {
                            assert(relays_pre == relays@.take(relays_pre.len() as int));
                            assert(forall|j: int|
                                0 <= j < relays_pre.len() ==> relays@.take(
                                    relays_pre.len() as int,
                                )[j] == relays@[j]);
                            assert(relays_pre.take(relays0.len() as int) == relays0);
                            assert(forall|j: int|
                                0 <= j < relays0.len() ==> relays_pre.take(
                                    relays0.len() as int,
                                )[j] == relays_pre[j]);
                        }
                        assert(relay_models(relays@).skip(relays0.len() as int) =~= relay_models(
                            relays_pre,
                        ).skip(relays0.len() as int) + first.relays);
                        assert(fan.children == prefix0.push(first.route) + rest_pre.children)
                            by {
                            assert(fan.children == prefix0 + (seq![first.route]
                                + rest_pre.children));
                            assert(prefix0 + (seq![first.route] + rest_pre.children) =~= prefix0
                                .push(first.route) + rest_pre.children);
                        }
                        assert(fan.relays == relay_models(relays@).skip(relays0.len() as int)
                            + rest_pre.relays) by {
                            assert(fan.relays == relay_models(relays_pre).skip(
                                relays0.len() as int,
                            ) + (first.relays + rest_pre.relays));
                            assert(relay_models(relays_pre).skip(relays0.len() as int) + (
                            first.relays + rest_pre.relays) =~= (relay_models(relays_pre).skip(
                                relays0.len() as int,
                            ) + first.relays) + rest_pre.relays);
                        }
                    }
                    i += 1;
                }
                proof {
                    let rest = deliver_all(
                        models_of(routes0).skip(n as int),
                        queue_models(queues@),
                        update,
                    );
                    assert(models_of(routes0).skip(n as int) =~= Seq::<RouteModel>::empty());
                    assert(rest.children =~= Seq::<RouteModel>::empty());
                    assert(rest.relays == Seq::<RelayModel>::empty());
                    assert(rest.queues == queue_models(queues@));
                    assert(lb.routes@.take(n as int) =~= lb.routes@);
                    assert(fan.children =~= models_of(lb.routes@)) by {
                        assert(fan.children == models_of(lb.routes@.take(n as int))
                            + rest.children);
                        assert(models_of(lb.routes@.take(n as int)) == models_of(lb.routes@));
                    }
                    assert(relay_models(relays@) =~= relay_models(relays0) + fan.relays) by {
                        assert(fan.relays == relay_models(relays@).skip(relays0.len() as int)
                            + rest.relays);
                        assert(fan.relays =~= relay_models(relays@).skip(relays0.len() as int));
                        lemma_models_prefix(relays0, relays@);
                        assert(relay_models(relays@).take(relays0.len() as int) == relay_models(
                            relays0,
                        ));
                        assert(relay_models(relays@) =~= relay_models(relays@).take(
                            relays0.len() as int,
                        ) + relay_models(relays@).skip(relays0.len() as int));
                    }
                }
            },
        }
    }
}

/// Sequential delivery of each update in `us`, in order, threading the tree
/// and the queue pool and concatenating the relay legs.
pub open spec fn deliver_many(r: RouteModel, qs: Seq<LongPollModel>, us: Seq<Value>) -> Delivery
    decreases us.len(),
{
    if us.len() == 0 {
        Delivery { route: r, queues: qs, relays: Seq::empty() }
    } else {
        let d = deliver(r, qs, us.first());
        let rest = deliver_many(d.route, d.queues, us.drop_first());
        Delivery { route: rest.route, queues: rest.queues, relays: d.relays + rest.relays }
    }
}

/// A route descriptor handed to `add_route`: a fresh long-poll queue (to be
/// pooled and registered under its path) or a webhook relay leaf.
pub enum AddRouteType {
    Longpull(LongPollRoute),
    Webhook(WebhookRoute),
}

impl RoundRobinLB {
    /// A round-robin strategy over `routes`, with the cursor at the start.
    pub fn new(routes: Vec<Route>) -> (r: RoundRobinLB)
        ensures
            r.routes == routes,
            r.current == 0,
    {
        RoundRobinLB { routes, current: 0 }
    }

    /// Runtime child addition. A long-poll leaf is placed in the queue pool,
    /// registered in the registry under its path (overwriting any previous
    /// queue at that path), and appended to the child list; a webhook leaf is
    /// appended only. The cursor is not reset. The embedding program holds
    /// the child-list lock around this call and reports its own failure to
    /// the caller if it cannot; the addition itself always succeeds.
    pub fn add_route(
        &mut self,
        queues: &mut Vec<LongPollRoute>,
        registry: &mut LongpollRegistry,
        route: AddRouteType,
    ) -> (r: Result<(), ()>)
        requires
            old(registry).wf(),
        ensures
            final(registry).wf(),
            r == Ok::<(), ()>(()),
            final(self).current == old(self).current,
            ({
                match route {
                    AddRouteType::Longpull(q) => {
                        &&& final(queues)@ == old(queues)@.push(q)
                        &&& final(registry)@ == old(registry)@.insert(
                            q@.path,
                            old(queues)@.len() as usize,
                        )
                        &&& final(self).routes@ == old(self).routes@.push(
                            Route::Longpull(old(queues)@.len() as usize),
                        )
                    },
                    AddRouteType::Webhook(w) => {
                        &&& final(queues)@ == old(queues)@
                        &&& final(registry)@ == old(registry)@
                        &&& final(self).routes@ == old(self).routes@.push(Route::Webhook(w))
                    },
                }
            }),
    {
        match route {
            AddRouteType::Longpull(q) => {
                let id = queues.len();
                let path = q.path().clone();
                registry.register(path, id);
                queues.push(q);
                self.routes.push(Route::Longpull(id));
                Ok(())
            },
            AddRouteType::Webhook(w) => {
                self.routes.push(Route::Webhook(w));
                Ok(())
            },
        }
    }
}

impl AllLB {
    /// A broadcast strategy over `routes`.
    pub fn new(routes: Vec<Route>) -> (r: AllLB)
        ensures
            r.routes == routes,
    {
        AllLB { routes }
    }
}

/// Growing the queue pool never breaks a tree's well-formedness.
pub proof fn lemma_route_wf_mono(r: RouteModel, n: int, m: int)
    requires
        route_wf(r, n),
        n <= m,
    ensures
        route_wf(r, m),
    decreases r, 1int,
{
    match r {
        RouteModel::RoundRobin { children, cursor } => {
            lemma_children_wf_mono(children, n, m);
        },
        RouteModel::Broadcast { children } => {
            lemma_children_wf_mono(children, n, m);
        },
        _ => {},
    }
}

/// Growing the queue pool never breaks the children's well-formedness.
pub proof fn lemma_children_wf_mono(s: Seq<RouteModel>, n: int, m: int)
    requires
        children_wf(s, n),
        n <= m,
    ensures
        children_wf(s, m),
    decreases s, 0int,
{
    if s.len() > 0 {
        lemma_route_wf_mono(s.first(), n, m);
        lemma_children_wf_mono(s.drop_first(), n, m);
    }
}

/// The description of a tree over the queue pool `qs`: leaves name their
/// path or URL, composites name their strategy and describe their children
/// in order.
pub open spec fn describe(r: RouteModel, qs: Seq<LongPollModel>) -> DocModel
    decreases r, 1int,
{
    match r {
        RouteModel::Longpull { queue } => DocModel::Longpoll {
            path: if 0 <= queue < qs.len() {
                qs[queue].path
            } else {
                Seq::empty()
            },
        },
        RouteModel::Webhook { url } => DocModel::Webhook { url },
        RouteModel::RoundRobin { children, cursor } => DocModel::Balancer {
            name: "round-robin"@,
            routes: describe_all(children, qs),
        },
        RouteModel::Broadcast { children } => DocModel::Balancer {
            name: "all"@,
            routes: describe_all(children, qs),
        },
    }
}

/// The descriptions of each child in order.
pub open spec fn describe_all(s: Seq<RouteModel>, qs: Seq<LongPollModel>) -> Seq<DocModel>
    decreases s, 0int,
{
    if s.len() == 0 {
        Seq::empty()
    } else {
        seq![describe(s.first(), qs)] + describe_all(s.drop_first(), qs)
    }
}

/// `describe_all` is the pointwise description of the children.
pub proof fn lemma_describe_all(s: Seq<RouteModel>, qs: Seq<LongPollModel>)
    ensures
        describe_all(s, qs).len() == s.len(),
        forall|i: int| 0 <= i < s.len() ==> describe_all(s, qs)[i] == describe(s[i], qs),
    decreases s,
{
    if s.len() > 0 {
        lemma_describe_all(s.drop_first(), qs);
        assert forall|i: int| 0 <= i < s.len() implies describe_all(s, qs)[i] == describe(
            s[i],
            qs,
        ) by {
            if i > 0 {
                assert(s.drop_first()[i - 1] == s[i]);
            }
        }
    }
}

impl Route {
    /// Structured self-description of this subtree, recursively.
    pub fn json_struct(&self, queues: &Vec<LongPollRoute>) -> (r: RouteDoc)
        requires
            self.wf(queues@.len() as int),
        ensures
            doc_model(r) == describe(route_model(*self), queue_models(queues@)),
        decreases *self,
    {
        match self {
            Route::Longpull(q) => queues[*q].json_struct(),
            Route::Webhook(w) => w.json_struct(),
            Route::RoundRobin(lb) => lb.json_struct(queues),
            Route::All(lb) => lb.json_struct(queues),
        }
    }
}

impl RoundRobinLB {
    /// Structured self-description: the strategy's name and its children's
    /// documents, in child-list order.
    pub fn json_struct(&self, queues: &Vec<LongPollRoute>) -> (r: RouteDoc)
        requires
            children_wf(models_of(self.routes@), queues@.len() as int),
        ensures
            doc_model(r) == (DocModel::Balancer {
                name: "round-robin"@,
                routes: describe_all(models_of(self.routes@), queue_models(queues@)),
            }),
        decreases *self,
    {
        let docs = describe_children(&self.routes, queues);
        RouteDoc::Balancer { name: "round-robin".to_owned(), routes: docs }
    }
}

impl AllLB {
    /// Structured self-description: the strategy's name and its children's
    /// documents, in child-list order.
    pub fn json_struct(&self, queues: &Vec<LongPollRoute>) -> (r: RouteDoc)
        requires
            children_wf(models_of(self.routes@), queues@.len() as int),
        ensures
            doc_model(r) == (DocModel::Balancer {
                name: "all"@,
                routes: describe_all(models_of(self.routes@), queue_models(queues@)),
            }),
        decreases *self,
    {
        let docs = describe_children(&self.routes, queues);
        RouteDoc::Balancer { name: "all".to_owned(), routes: docs }
    }
}

/// The documents of each child route in order.
fn describe_children(routes: &Vec<Route>, queues: &Vec<LongPollRoute>) -> (r: Vec<RouteDoc>)
    requires
        children_wf(models_of(routes@), queues@.len() as int),
    ensures
        docs_of(r@) == describe_all(models_of(routes@), queue_models(queues@)),
    decreases routes@,
{
    let ghost target = describe_all(models_of(routes@), queue_models(queues@));
    let n = routes.len();
    let mut docs: Vec<RouteDoc> = Vec::new();
    proof {
        lemma_models_of(routes@);
        lemma_describe_all(models_of(routes@), queue_models(queues@));
        lemma_children_wf(models_of(routes@), queues@.len() as int);
    }
    let mut i: usize = 0;
    while i < n
        invariant
            i <= n,
            n == routes@.len(),
            docs@.len() == i,
            children_wf(models_of(routes@), queues@.len() as int),
            models_of(routes@).len() == n,
            forall|j: int| 0 <= j < n ==> models_of(routes@)[j] == route_model(routes@[j]),
            forall|j: int| 0 <= j < n ==> route_wf(models_of(routes@)[j], queues@.len() as int),
            target == describe_all(models_of(routes@), queue_models(queues@)),
            target.len() == n,
            forall|j: int| 0 <= j < n ==> target[j] == describe(
                models_of(routes@)[j],
                queue_models(queues@),
            ),
            forall|j: int| 0 <= j < i ==> doc_model(docs@[j]) == target[j],
        decreases n - i,
    {
        proof {
            assert(decreases_to!(routes@ => routes@[i as int]));
            assert(models_of(routes@)[i as int] == route_model(routes@[i as int]));
            assert(route_wf(models_of(routes@)[i as int], queues@.len() as int));
        }
        let d = routes[i].json_struct(queues);
        docs.push(d);
        i += 1;
    }
    proof {
        lemma_docs_of(docs@);
        assert(docs_of(docs@) =~= target);
    }
    docs
}

/// The text description of a tree over the queue pool `qs`: each composite
/// announces its strategy and lists its children, one paragraph each.
pub open spec fn print_of(r: RouteModel, qs: Seq<LongPollModel>) -> Seq<char>
    decreases r, 1int,
{
    match r {
        RouteModel::Longpull { queue } => "longpull: http://0.0.0.0"@ + (if 0 <= queue
            < qs.len() {
            qs[queue].path
        } else {
            Seq::empty()
        }),
        RouteModel::Webhook { url } => "webhook: "@ + url,
        RouteModel::RoundRobin { children, cursor } => "LOAD BALANCER RoundRobin\n\n"@
            + print_children(children, qs),
        RouteModel::Broadcast { children } => "LOAD BALANCER AllLB"@ + print_children(
            children,
            qs,
        ),
    }
}

/// The children's descriptions in order, one paragraph each.
pub open spec fn print_children(s: Seq<RouteModel>, qs: Seq<LongPollModel>) -> Seq<char>
    decreases s, 0int,
{
    if s.len() == 0 {
        Seq::empty()
    } else {
        print_of(s.first(), qs) + "\n\n"@ + print_children(s.drop_first(), qs)
    }
}

impl Route {
    /// The text description of this subtree.
    pub fn print(&self, queues: &Vec<LongPollRoute>) -> (r: String)
        requires
            self.wf(queues@.len() as int),
        ensures
            r@ == print_of(route_model(*self), queue_models(queues@)),
        decreases *self,
    {
        match self {
            Route::Longpull(q) => queues[*q].print(),
            Route::Webhook(w) => w.print(),
            Route::RoundRobin(lb) => lb.print(queues),
            Route::All(lb) => lb.print(queues),
        }
    }
}

impl RoundRobinLB {
    /// The text description: the strategy's banner, then each child.
    pub fn print(&self, queues: &Vec<LongPollRoute>) -> (r: String)
        requires
            children_wf(models_of(self.routes@), queues@.len() as int),
        ensures
            r@ == "LOAD BALANCER RoundRobin\n\n"@ + print_children(
                models_of(self.routes@),
                queue_models(queues@),
            ),
        decreases *self,
    {
        let text = "LOAD BALANCER RoundRobin\n\n".to_owned();
        print_children_text(&self.routes, queues, text)
    }
}

impl AllLB {
    /// The text description: the strategy's banner, then each child.
    pub fn print(&self, queues: &Vec<LongPollRoute>) -> (r: String)
        requires
            children_wf(models_of(self.routes@), queues@.len() as int),
        ensures
            r@ == "LOAD BALANCER AllLB"@ + print_children(
                models_of(self.routes@),
                queue_models(queues@),
            ),
        decreases *self,
    {
        let text = "LOAD BALANCER AllLB".to_owned();
        print_children_text(&self.routes, queues, text)
    }
}

/// Append each child's description and a paragraph break to `text`.
fn print_children_text(
    routes: &Vec<Route>,
    queues: &Vec<LongPollRoute>,
    text: String,
) -> (r: String)
    requires
        children_wf(models_of(routes@), queues@.len() as int),
    ensures
        r@ == text@ + print_children(models_of(routes@), queue_models(queues@)),
    decreases routes@,
{
    let ghost total = text@ + print_children(models_of(routes@), queue_models(queues@));
    let n = routes.len();
    let mut text = text;
    proof {
        lemma_models_of(routes@);
        lemma_children_wf(models_of(routes@), queues@.len() as int);
        assert(models_of(routes@).skip(0) =~= models_of(routes@));
    }
    let mut i: usize = 0;
    while i < n
        invariant
            i <= n,
            n == routes@.len(),
            children_wf(models_of(routes@), queues@.len() as int),
            models_of(routes@).len() == n,
            forall|j: int| 0 <= j < n ==> models_of(routes@)[j] == route_model(routes@[j]),
            forall|j: int| 0 <= j < n ==> route_wf(models_of(routes@)[j], queues@.len() as int),
            total == text@ + print_children(
                models_of(routes@).skip(i as int),
                queue_models(queues@),
            ),
        decreases n - i,
    {
        let ghost ms = models_of(routes@);
        let ghost qm = queue_models(queues@);
        let ghost text_pre = text@;
        proof {
            assert(decreases_to!(routes@ => routes@[i as int]));
            assert(route_wf(ms[i as int], queues@.len() as int));
        }
        let p = routes[i].print(queues);
        text.append(p.as_str());
        text.append("\n\n");
        proof {
            assert(ms.skip(i as int).first() == ms[i as int]);
            assert(ms.skip(i as int).drop_first() =~= ms.skip(i as int + 1));
            assert(print_children(ms.skip(i as int), qm) == print_of(ms[i as int], qm)
                + "\n\n"@ + print_children(ms.skip(i as int + 1), qm));
            assert(text@ =~= text_pre + (print_of(ms[i as int], qm) + "\n\n"@));
            assert(text_pre + (print_of(ms[i as int], qm) + "\n\n"@ + print_children(
                ms.skip(i as int + 1),
                qm,
            )) =~= (text_pre + (print_of(ms[i as int], qm) + "\n\n"@)) + print_children(
                ms.skip(i as int + 1),
                qm,
            ));
        }
        i += 1;
    }
    proof {
        assert(models_of(routes@).skip(n as int) =~= Seq::<RouteModel>::empty());
        assert(total =~= text@);
    }
    text
}

/// If `a` is the length-`a.len()` prefix of `b`, the relay models agree on
/// that prefix.
proof fn lemma_models_prefix(a: Seq<RelayAction>, b: Seq<RelayAction>)
    requires
        a.len() <= b.len(),
        b.take(a.len() as int) == a,
    ensures
        relay_models(b).take(a.len() as int) == relay_models(a),
{
    assert(relay_models(b).take(a.len() as int) =~= relay_models(a)) by {
        assert(forall|i: int|
            0 <= i < a.len() ==> b.take(a.len() as int)[i] == b[i]);
        assert(forall|i: int| 0 <= i < a.len() ==> a[i] == b[i]);
    }
}

} // verus!
