//! Construction of the route tree and the ingestion-source descriptions from
//! configuration values.
//!
//! Reading the configuration file, substituting variables and parsing it are
//! the embedding program's job; the functions here take the parsed plain
//! values and build the router state from them.

use vstd::prelude::*;

use crate::longpull::{LongPollModel, LongPollRoute};
use crate::routing::{
    children_wf, lemma_children_wf, lemma_route_wf_mono, models_of, queue_models,
    route_model, route_wf, AllLB, Route, RoundRobinLB, RouteModel,
};
use crate::webhook::WebhookRoute;

verus! {

/// Configuration of one leaf route.
pub enum RouteConfig {
    LongPollRoute { path: String },
    WebhookRoute { url: String },
}

/// Configuration of a top-level dispatch strategy and its leaves.
pub enum RouteStrategyConfig {
    RoundRobinLB { routes: Vec<RouteConfig> },
    AllLB { routes: Vec<RouteConfig> },
}

/// Registration data an ingestion webhook may carry.
pub struct WebhookRegistrationConfig {
    pub token: String,
    pub public_ip: String,
}

/// Configuration of one ingestion source.
pub enum UpdateConfig {
    LongPollUpdate {
        token: String,
        url: Option<String>,
        default_timeout_sleep: u64,
        error_timeout_sleep: u64,
    },
    WebhookUpdate { path: String, registration: Option<WebhookRegistrationConfig> },
}

/// Normalized initialization data for one ingestion source; the embedding
/// program constructs the live source (and its network loop) from it.
pub enum UpdaterInit {
    LongPoll {
        token: String,
        url: Option<String>,
        default_timeout_sleep: u64,
        error_timeout_sleep: u64,
    },
    Webhook { path: String },
}

/// The initialization data a source configuration denotes. Registration data
/// is accepted in the configuration but not acted on.
pub open spec fn updater_init_of(c: UpdateConfig) -> UpdaterInit {
    match c {
        UpdateConfig::LongPollUpdate { token, url, default_timeout_sleep, error_timeout_sleep } => UpdaterInit::LongPoll {
            token,
            url,
            default_timeout_sleep,
            error_timeout_sleep,
        },
        UpdateConfig::WebhookUpdate { path, registration } => UpdaterInit::Webhook { path },
    }
}

/// Build the initialization data of every configured ingestion source, in
/// configuration order.
pub fn build_updates(configs: Vec<UpdateConfig>) -> (r: Vec<UpdaterInit>)
    ensures
        r@ == configs@.map_values(|c: UpdateConfig| updater_init_of(c)),
{
    let ghost cfg0 = configs@;
    let mut configs = configs;
    let mut result: Vec<UpdaterInit> = Vec::new();
    while configs.len() > 0
        invariant
            result@.len() + configs@.len() == cfg0.len(),
            configs@ == cfg0.skip(result@.len() as int),
            forall|j: int|
                0 <= j < result@.len() ==> result@[j] == updater_init_of(cfg0[j]),
        decreases configs@.len(),
    {
        let ghost i = result@.len() as int;
        let c = configs.remove(0);
        proof {
            assert(c == cfg0[i]);
            assert(configs@ =~= cfg0.skip(i + 1));
        }
        match c {
            UpdateConfig::LongPollUpdate {
                token,
                url,
                default_timeout_sleep,
                error_timeout_sleep,
            } => {
                result.push(
                    UpdaterInit::LongPoll {
                        token,
                        url,
                        default_timeout_sleep,
                        error_timeout_sleep,
                    },
                );
            },
            UpdateConfig::WebhookUpdate { path, registration } => {
                result.push(UpdaterInit::Webhook { path });
            },
        }
    }
    proof {
        assert(result@ =~= cfg0.map_values(|c: UpdateConfig| updater_init_of(c)));
    }
    result
}

/// What building a list of leaf configurations yields, when the queue pool
/// already holds `n0` queues: the child models in configuration order (each
/// long-poll leaf naming the next pool slot) and the models of the queues
/// appended to the pool.
pub open spec fn build_children(s: Seq<RouteConfig>, n0: int) -> (Seq<RouteModel>, Seq<
    LongPollModel,
>)
    decreases s,
{
    if s.len() == 0 {
        (Seq::empty(), Seq::empty())
    } else {
        let prev = build_children(s.drop_last(), n0);
        match s.last() {
            RouteConfig::LongPollRoute { path } => (
                prev.0.push(RouteModel::Longpull { queue: n0 + prev.1.len() }),
                prev.1.push(LongPollModel { path: path@, updates: Seq::empty() }),
            ),
            RouteConfig::WebhookRoute { url } => (
                prev.0.push(RouteModel::Webhook { url: url@ }),
                prev.1,
            ),
        }
    }
}

/// Every built child is a leaf naming a queue inside the grown pool.
pub proof fn lemma_build_children_wf(s: Seq<RouteConfig>, n0: int)
    requires
        n0 >= 0,
    ensures
        build_children(s, n0).0.len() == s.len(),
        build_children(s, n0).1.len() <= s.len(),
        forall|i: int|
            0 <= i < s.len() ==> route_wf(
                build_children(s, n0).0[i],
                n0 + build_children(s, n0).1.len(),
            ),
    decreases s,
{
    if s.len() > 0 {
        lemma_build_children_wf(s.drop_last(), n0);
        let prev = build_children(s.drop_last(), n0);
        let cur = build_children(s, n0);
        assert forall|i: int| 0 <= i < s.len() implies route_wf(cur.0[i], n0 + cur.1.len()) by {
            if i < s.len() - 1 {
                assert(cur.0[i] == prev.0[i]);
                assert(route_wf(prev.0[i], n0 + prev.1.len()));
                lemma_route_wf_mono(prev.0[i], n0 + prev.1.len(), n0 + cur.1.len());
            }
        }
    }
}

/// Build the child list of one strategy: each long-poll configuration
/// becomes a fresh empty queue in the pool and a leaf naming it; each
/// webhook configuration becomes a relay leaf.
fn build_leaves(cfgs: Vec<RouteConfig>, queues: &mut Vec<LongPollRoute>) -> (r: Vec<Route>)
    ensures
        models_of(r@) == build_children(cfgs@, old(queues)@.len() as int).0,
        queue_models(final(queues)@) == queue_models(old(queues)@) + build_children(
            cfgs@,
            old(queues)@.len() as int,
        ).1,
        final(queues)@.len() == old(queues)@.len() + build_children(
            cfgs@,
            old(queues)@.len() as int,
        ).1.len(),
        final(queues)@.take(old(queues)@.len() as int) == old(queues)@,
{
    let ghost cfg0 = cfgs@;
    let ghost n0 = old(queues)@.len() as int;
    let ghost qm0 = queue_models(old(queues)@);
    let mut cfgs = cfgs;
    let mut built: Vec<Route> = Vec::new();
    proof {
        assert(cfg0.take(0) =~= Seq::<RouteConfig>::empty());
        assert(queue_models(queues@) =~= qm0 + build_children(cfg0.take(0), n0).1);
    }
    while cfgs.len() > 0
        invariant
            n0 == old(queues)@.len(),
            qm0 == queue_models(old(queues)@),
            built@.len() + cfgs@.len() == cfg0.len(),
            cfgs@ == cfg0.skip(built@.len() as int),
            models_of(built@) == build_children(cfg0.take(built@.len() as int), n0).0,
            queue_models(queues@) == qm0 + build_children(cfg0.take(built@.len() as int), n0).1,
            queues@.len() == n0 + build_children(cfg0.take(built@.len() as int), n0).1.len(),
            forall|j: int| 0 <= j < n0 ==> queues@[j] == old(queues)@[j],
        decreases cfgs@.len(),
    {
        let ghost i = built@.len() as int;
        let ghost built_pre = built@;
        let ghost t_i = cfg0.take(i);
        let c = cfgs.remove(0);
        proof {
            assert(c == cfg0[i]);
            assert(cfgs@ =~= cfg0.skip(i + 1));
            assert(cfg0.take(i + 1).drop_last() =~= t_i);
            assert(cfg0.take(i + 1).last() == c);
        }
        match c {
            RouteConfig::LongPollRoute { path } => {
                let id = queues.len();
                queues.push(LongPollRoute::new(path));
                built.push(Route::Longpull(id));
                proof {
                    assert(built@.drop_last() =~= built_pre);
                    assert(models_of(built@) == models_of(built_pre).push(
                        route_model(Route::Longpull(id)),
                    ));
                    assert(queue_models(queues@) =~= (qm0 + build_children(t_i, n0).1).push(
                        queues@.last()@,
                    ));
                    assert(queue_models(queues@) =~= qm0 + build_children(
                        cfg0.take(i + 1),
                        n0,
                    ).1);
                }
            },
            RouteConfig::WebhookRoute { url } => {
                built.push(Route::Webhook(WebhookRoute::new(url)));
                proof {
                    assert(built@.drop_last() =~= built_pre);
                    assert(models_of(built@) == models_of(built_pre).push(
                        route_model(built@.last()),
                    ));
                }
            },
        }
    }
    proof {
        assert(cfg0.take(cfg0.len() as int) =~= cfg0);
        assert(final(queues)@.take(n0) =~= old(queues)@);
    }
    built
}

/// Build the configured top-level strategy over the queue pool: a tree whose
/// children are the configured leaves in order, with the round-robin cursor
/// (if any) at the start. The pool keeps its existing queues and gains one
/// fresh empty queue per long-poll leaf, in configuration order.
pub fn build_route(cfg: RouteStrategyConfig, queues: &mut Vec<LongPollRoute>) -> (r: Route)
    ensures
        ({
            let built = build_children(
                match cfg {
                    RouteStrategyConfig::RoundRobinLB { routes } => routes@,
                    RouteStrategyConfig::AllLB { routes } => routes@,
                },
                old(queues)@.len() as int,
            );
            &&& queue_models(final(queues)@) == queue_models(old(queues)@) + built.1
            &&& final(queues)@.len() == old(queues)@.len() + built.1.len()
            &&& final(queues)@.take(old(queues)@.len() as int) == old(queues)@
            &&& route_model(r) == (match cfg {
                RouteStrategyConfig::RoundRobinLB { routes } => RouteModel::RoundRobin {
                    children: built.0,
                    cursor: 0,
                },
                RouteStrategyConfig::AllLB { routes } => RouteModel::Broadcast {
                    children: built.0,
                },
            })
            &&& r.wf(final(queues)@.len() as int)
        }),
{
    match cfg {
        RouteStrategyConfig::RoundRobinLB { routes } => {
            let ghost cfgseq = routes@;
            let ghost n0 = queues@.len() as int;
            let built = build_leaves(routes, queues);
            proof {
                lemma_build_children_wf(cfgseq, n0);
                lemma_children_wf(models_of(built@), queues@.len() as int);
            }
            Route::RoundRobin(RoundRobinLB::new(built))
        },
        RouteStrategyConfig::AllLB { routes } => {
            let ghost cfgseq = routes@;
            let ghost n0 = queues@.len() as int;
            let built = build_leaves(routes, queues);
            proof {
                lemma_build_children_wf(cfgseq, n0);
                lemma_children_wf(models_of(built@), queues@.len() as int);
            }
            Route::All(AllLB::new(built))
        },
    }
}

} // verus!
