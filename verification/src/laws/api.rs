//! Placement requests, the creation and deletion of volumes, registration, and
//! what is listed.

use crate::api;
use crate::api::{
    ApiErrorView, CreateVolumeRequestView, CreationView, DryRunView, ErrorKind, LegDeletionView,
    PlanRequestView, ResolvedPlanView,
};
use crate::config::{ConfigView, NodeConfigView, PoolConfigView};
use crate::engine;
use crate::engine::EngineView;
use crate::events::Severity;
use crate::inventory::{NodeInventoryView, PlacedVolumeView, SlabView};
use crate::json::JsonView;
use crate::laws::config as config_laws;
use crate::laws::lists;
use crate::laws::lists::{chained, kept, sum};
use crate::laws::orchestrate::as_place;
use crate::model;
use crate::model::{
    AssemblyState, DistVolumeView, FedStateView, LegState, LegView, NodeSource, NodeStatusView,
    NodeView,
};
use crate::names;
use crate::orchestrate::{ChoreView, ErrandView, TaskView};
use crate::placement;
use crate::placement::CandidateView;
use crate::text;
use std::time::SystemTime;
use vstd::prelude::*;

verus! {

/// Whether a leg may be on the node: it is healthy, the pool takes it where
/// there is one, and it is of the tier where one is asked for.
pub open spec fn suits(n: NodeView, pool: Option<PoolConfigView>, tier: Option<Seq<char>>) -> bool {
    &&& n.status.healthy
    &&& pool is None || config_laws::takes((pool->0).selector, n.config)
    &&& tier is None || n.config.tier == tier
}

proof fn candidates_are_kept(
    nodes: Seq<NodeView>,
    pool: Option<PoolConfigView>,
    tier: Option<Seq<char>>,
)
    ensures
        api::candidates_among(nodes, pool, tier) == kept(
            nodes,
            |n: NodeView| suits(n, pool, tier),
            |n: NodeView| as_place(n),
        ),
    decreases nodes.len(),
{
    let p = |n: NodeView| suits(n, pool, tier);
    let f = |n: NodeView| as_place(n);
    if nodes.len() == 0 {
        lists::kept_of_none(nodes, p, f);
    } else {
        candidates_are_kept(nodes.drop_last(), pool, tier);
        lists::kept_of_more(nodes, p, f);
        if pool is Some {
            config_laws::selector_takes_what_meets_every_condition(
                (pool->0).selector,
                nodes.last().config,
            );
        }
    }
}

/// What a request comes down to. `pool` is the first configured pool of the
/// name that it gives, where it gives one. What the request states goes before
/// what the pool states, and that before one leg, across nodes; none is as good
/// as one. The rung has to be one of the federation's. The candidates are
/// exactly the nodes that suit, in the order of their names.
pub proof fn request_decides_then_pool_then_default(
    config: ConfigView,
    fed: FedStateView,
    req: PlanRequestView,
    k: int,
)
    requires
        req.pool is Some ==> 0 <= k <= config.pools.len() && (k < config.pools.len()
            ==> config.pools[k].name == req.pool->0) && forall|j: int|
            0 <= j < k ==> (#[trigger] config.pools[j]).name != req.pool->0,
    ensures
        ({
            let missing = req.pool is Some && k == config.pools.len();
            let pool = if req.pool is Some {
                Some(config.pools[k])
            } else {
                None
            };
            let asked = if req.replicas is Some {
                req.replicas->0
            } else if pool is Some {
                (pool->0).replicas
            } else {
                1
            };
            let rung = if req.rung is Some {
                req.rung->0
            } else if pool is Some {
                (pool->0).rung
            } else {
                "node"@
            };
            let r = req.resolved(config, fed);
            &&& missing ==> r == Err::<ResolvedPlanView, ApiErrorView>(
                ApiErrorView::of(ErrorKind::NotFound, "pool "@ + text::quoted_text(req.pool->0)),
            )
            &&& !missing && !config.federation.rungs.contains(rung) ==> r == Err::<
                ResolvedPlanView,
                ApiErrorView,
            >(
                ApiErrorView::of(
                    ErrorKind::BadRequest,
                    "rung "@ + text::quoted_text(rung) + " not in federation.rungs"@,
                ),
            )
            &&& !missing && config.federation.rungs.contains(rung) ==> {
                &&& r is Ok
                &&& r->Ok_0.replicas == if asked == 0 {
                    1
                } else {
                    asked
                }
                &&& r->Ok_0.rung == rung
                &&& r->Ok_0.candidates == kept(
                    names::in_order(fed.nodes),
                    |n: NodeView| suits(n, pool, req.tier),
                    |n: NodeView| as_place(n),
                )
            }
        }),
{
    if req.pool is Some {
        config_laws::first_pool_of_the_name_counts(config.pools, req.pool->0, k);
    }
    candidates_are_kept(names::in_order(fed.nodes), req.pool_in(config), req.tier);
}

/// Where the legs of a request go: on nodes that suit and have room, as many as
/// are asked for, no two in one failure domain.
pub proof fn planned_legs_suit(
    config: ConfigView,
    fed: FedStateView,
    req: PlanRequestView,
    run: DryRunView,
    a: int,
    b: int,
)
    requires
        fed.nodes.dom().finite(),
        model::keyed(fed.nodes),
        api::dry_run(config, fed, req) == Ok::<DryRunView, ApiErrorView>(run),
        0 <= a < run.legs.len(),
        0 <= b < run.legs.len(),
    ensures
        run.legs.len() == run.replicas,
        fed.nodes.contains_key(run.legs[a]),
        suits(fed.nodes[run.legs[a]], req.pool_in(config), req.tier),
        fed.nodes[run.legs[a]].status.free_bytes >= req.size_bytes,
        a != b ==> placement::domain(
            fed.nodes[run.legs[a]].labels(),
            config.federation.rungs,
            run.rung,
        ) != placement::domain(
            fed.nodes[run.legs[b]].labels(),
            config.federation.rungs,
            run.rung,
        ),
{
    let (i, m) = place_of_leg(config, fed, req, run, a);
    let (j, n) = place_of_leg(config, fed, req, run, b);
    let plan = req.resolved(config, fed)->Ok_0;
    let q = plan.question(config, req.size_bytes);
    places_differ(config, fed, req);
    if a < b {
        q.legs_are_as_asked(plan.candidates, run.legs, a, b, i, j);
    } else if b < a {
        q.legs_are_as_asked(plan.candidates, run.legs, b, a, j, i);
    }
}

proof fn places_differ(config: ConfigView, fed: FedStateView, req: PlanRequestView)
    requires
        fed.nodes.dom().finite(),
        model::keyed(fed.nodes),
        req.resolved(config, fed) is Ok,
    ensures
        ({
            let cs = req.resolved(config, fed)->Ok_0.candidates;
            forall|x: int, y: int|
                0 <= x < y < cs.len() ==> (#[trigger] cs[x]).name != (#[trigger] cs[y]).name
        }),
{
    let pool = req.pool_in(config);
    let nodes = names::in_order(fed.nodes);
    let keys = names::sorted(fed.nodes.dom());
    names::sorted_holds(fed.nodes.dom());
    let p = |n: NodeView| suits(n, pool, req.tier);
    let f = |n: NodeView| as_place(n);
    let name = |c: CandidateView| c.name;
    candidates_are_kept(nodes, pool, req.tier);
    assert forall|x: int, y: int| 0 <= x < y < nodes.len() implies name(f(#[trigger] nodes[x]))
        != name(f(#[trigger] nodes[y])) by {
        assert(keys.to_set().contains(keys[x]));
        assert(keys.to_set().contains(keys[y]));
        text::lt_irreflexive(keys[x]);
        assert(text::lt(keys[x], keys[y]));
    }
    lists::kept_differ(nodes, p, f, name);
}

proof fn place_of_leg(
    config: ConfigView,
    fed: FedStateView,
    req: PlanRequestView,
    run: DryRunView,
    a: int,
) -> (r: (int, Seq<char>))
    requires
        fed.nodes.dom().finite(),
        model::keyed(fed.nodes),
        api::dry_run(config, fed, req) == Ok::<DryRunView, ApiErrorView>(run),
        0 <= a < run.legs.len(),
    ensures
        ({
            let cs = req.resolved(config, fed)->Ok_0.candidates;
            &&& 0 <= r.0 < cs.len()
            &&& r.1 == run.legs[a]
            &&& fed.nodes.contains_key(r.1)
            &&& cs[r.0] == as_place(fed.nodes[r.1])
            &&& suits(fed.nodes[r.1], req.pool_in(config), req.tier)
            &&& fed.nodes[r.1].status.free_bytes >= req.size_bytes
            &&& run.legs.len() == run.replicas
        }),
{
    let plan = req.resolved(config, fed)->Ok_0;
    let q = plan.question(config, req.size_bytes);
    let cs = plan.candidates;
    let pool = req.pool_in(config);
    let nodes = names::in_order(fed.nodes);
    let keys = names::sorted(fed.nodes.dom());
    names::sorted_holds(fed.nodes.dom());
    candidates_are_kept(nodes, pool, req.tier);
    q.legs_have_room(cs, run.legs, a);
    let i = q.ranking(cs)[a];
    let p = |n: NodeView| suits(n, pool, req.tier);
    let f = |n: NodeView| as_place(n);
    let h = lists::kept_comes_from(nodes, p, f, i);
    assert(keys.to_set().contains(keys[h]));
    (i, keys[h])
}

/// The emptiest nodes are taken first: a node that suits and has room and has a
/// larger share free than the one of a leg, or the same share and a lower name,
/// is in another failure domain than that one, and its domain has a leg before
/// that one.
pub proof fn planned_legs_are_on_the_emptiest(
    config: ConfigView,
    fed: FedStateView,
    req: PlanRequestView,
    run: DryRunView,
    a: int,
    other: Seq<char>,
)
    requires
        fed.nodes.dom().finite(),
        model::keyed(fed.nodes),
        api::dry_run(config, fed, req) == Ok::<DryRunView, ApiErrorView>(run),
        0 <= a < run.legs.len(),
        fed.nodes.contains_key(other),
        suits(fed.nodes[other], req.pool_in(config), req.tier),
        fed.nodes[other].status.free_bytes >= req.size_bytes,
        ({
            let (x, y) = (as_place(fed.nodes[other]), as_place(fed.nodes[run.legs[a]]));
            placement::emptier(x, y) || placement::as_empty(x, y) && text::lt(x.name, y.name)
        }),
    ensures
        ({
            let rungs = config.federation.rungs;
            let domain = placement::domain(fed.nodes[other].labels(), rungs, run.rung);
            &&& domain != placement::domain(fed.nodes[run.legs[a]].labels(), rungs, run.rung)
            &&& exists|p: int|
                0 <= p < a && placement::domain(
                    fed.nodes[#[trigger] run.legs[p]].labels(),
                    rungs,
                    run.rung,
                ) == domain
        }),
{
    let plan = req.resolved(config, fed)->Ok_0;
    let q = plan.question(config, req.size_bytes);
    let cs = plan.candidates;
    let pool = req.pool_in(config);
    let nodes = names::in_order(fed.nodes);
    let keys = names::sorted(fed.nodes.dom());
    names::sorted_holds(fed.nodes.dom());
    candidates_are_kept(nodes, pool, req.tier);
    places_differ(config, fed, req);
    let (i, m) = place_of_leg(config, fed, req, run, a);
    let s = |n: NodeView| suits(n, pool, req.tier);
    let f = |n: NodeView| as_place(n);
    assert(keys.to_set().contains(other));
    let b = keys.index_of(other);
    assert(nodes[b] == fed.nodes[other]);
    lists::kept_holds(nodes, s, f, b);
    let j = choose|j: int| 0 <= j < cs.len() && cs[j] == f(nodes[b]);
    q.emptiest_is_taken_first(cs, run.legs, a, i, j);
    let (p, h) = choose|p: int, h: int|
        0 <= p < a && 0 <= h < cs.len() && (#[trigger] cs[h]).name == #[trigger] run.legs[p]
            && placement::domain(cs[h].labels, q.rungs, q.rung) == placement::domain(
            cs[j].labels,
            q.rungs,
            q.rung,
        );
    let (g, n) = place_of_leg(config, fed, req, run, p);
    if g < h {
        assert(cs[g].name != cs[h].name);
    } else if h < g {
        assert(cs[h].name != cs[g].name);
    }
    assert(run.legs[p] == n);
}

/// A dry run gives what the request comes down to.
pub proof fn dry_run_is_of_the_request(config: ConfigView, fed: FedStateView, req: PlanRequestView)
    ensures
        req.resolved(config, fed) matches Err(e) ==> api::dry_run(config, fed, req) == Err::<
            DryRunView,
            ApiErrorView,
        >(e),
        api::dry_run(config, fed, req) matches Ok(run) ==> {
            &&& req.resolved(config, fed) is Ok
            &&& run.replicas == req.resolved(config, fed)->Ok_0.replicas
            &&& run.rung == req.resolved(config, fed)->Ok_0.rung
        },
        req.resolved(config, fed) is Ok && api::dry_run(config, fed, req) is Err ==> api::dry_run(
            config,
            fed,
            req,
        )->Err_0.kind == ErrorKind::Conflict,
{
}

/// A request is refused for want of nodes only where it must be: it is placed
/// as soon as nodes can be named that suit, have room, and are in as many
/// different failure domains as legs are asked for.
pub proof fn plan_succeeds_where_it_can(
    config: ConfigView,
    fed: FedStateView,
    req: PlanRequestView,
    plan: ResolvedPlanView,
    found: Seq<Seq<char>>,
)
    requires
        fed.nodes.dom().finite(),
        req.resolved(config, fed) == Ok::<ResolvedPlanView, ApiErrorView>(plan),
        found.len() >= plan.replicas,
        found.len() > 0,
        forall|p: int|
            0 <= p < found.len() ==> fed.nodes.contains_key(#[trigger] found[p]) && suits(
                fed.nodes[found[p]],
                req.pool_in(config),
                req.tier,
            ) && fed.nodes[found[p]].status.free_bytes >= req.size_bytes,
        forall|p: int, q: int|
            0 <= p < q < found.len() ==> placement::domain(
                fed.nodes[#[trigger] found[p]].labels(),
                config.federation.rungs,
                plan.rung,
            ) != placement::domain(
                fed.nodes[#[trigger] found[q]].labels(),
                config.federation.rungs,
                plan.rung,
            ),
    ensures
        api::dry_run(config, fed, req) is Ok,
{
    let q = plan.question(config, req.size_bytes);
    let cs = plan.candidates;
    let pool = req.pool_in(config);
    let nodes = names::in_order(fed.nodes);
    let keys = names::sorted(fed.nodes.dom());
    names::sorted_holds(fed.nodes.dom());
    candidates_are_kept(nodes, pool, req.tier);
    let s = |n: NodeView| suits(n, pool, req.tier);
    let f = |n: NodeView| as_place(n);
    assert forall|p: int| 0 <= p < found.len() implies cs.contains(
        as_place(fed.nodes[#[trigger] found[p]]),
    ) by {
        assert(keys.to_set().contains(found[p]));
        let b = keys.index_of(found[p]);
        assert(nodes[b] == fed.nodes[found[p]]);
        lists::kept_holds(nodes, s, f, b);
    }
    let at = Seq::new(found.len(), |p: int| cs.index_of(as_place(fed.nodes[found[p]])));
    assert forall|p: int| 0 <= p < at.len() implies 0 <= #[trigger] at[p] < cs.len() && cs[at[p]]
        == as_place(fed.nodes[found[p]]) by {
        assert(cs.contains(as_place(fed.nodes[found[p]])));
    }
    assert forall|p: int, r: int| 0 <= p < r < at.len() implies placement::domain(
        cs[#[trigger] at[p]].labels,
        q.rungs,
        q.rung,
    ) != placement::domain(cs[#[trigger] at[r]].labels, q.rungs, q.rung) by {
        assert(cs[at[p]] == as_place(fed.nodes[found[p]]));
        assert(cs[at[r]] == as_place(fed.nodes[found[r]]));
    }
    q.enough_domains_are_enough(cs, at);
}

/// What a creation starts with: a request that names a volume and gives it a
/// size, and is for no volume that exists; with the legs where a dry run of it
/// puts them.
pub proof fn creation_starts_from_the_dry_run(
    config: ConfigView,
    fed: FedStateView,
    req: CreateVolumeRequestView,
)
    ensures
        ({
            let run = api::dry_run(
                config,
                fed,
                PlanRequestView {
                    pool: req.pool,
                    size_bytes: req.size_bytes,
                    replicas: req.replicas,
                    rung: req.rung,
                    tier: req.tier,
                },
            );
            let r = CreationView::begin(config, fed, req);
            &&& r is Ok <==> req.name.len() > 0 && req.size_bytes > 0 && !fed.volumes.contains_key(
                req.name,
            ) && run is Ok
            &&& r matches Ok(c) ==> c.request == req && c.replicas == run->Ok_0.replicas && c.rung
                == run->Ok_0.rung && c.picks == run->Ok_0.legs && c.legs.len() == 0 && c.failure
                is None
            &&& req.name.len() == 0 || req.size_bytes == 0 ==> r is Err && r->Err_0.kind
                == ErrorKind::BadRequest
            &&& req.name.len() > 0 && req.size_bytes > 0 && fed.volumes.contains_key(req.name)
                ==> r is Err && r->Err_0.kind == ErrorKind::Conflict
        }),
{
}

/// What is recorded of a created volume: what was asked for, and a leg for each
/// node that was picked.
pub proof fn created_volume_is_as_asked(c: CreationView, now: SystemTime)
    requires
        c.sound(),
        c.complete(),
    ensures
        ({
            let v = c.volume(now);
            &&& v.name == c.request.name
            &&& v.size_bytes == c.request.size_bytes
            &&& v.pool == c.request.pool
            &&& v.replicas == c.replicas
            &&& v.rung == c.rung
            &&& v.legs == c.legs
            &&& v.legs.len() == v.replicas
            &&& v.created_at == now
            &&& v.head is None
            &&& v.array_id is None
            &&& v.assembly == AssemblyState::SingleLeg <==> v.replicas == 1
            &&& v.assembly == AssemblyState::PendingEngineSupport <==> v.replicas > 1
        }),
{
}

/// The leg that an engine's answer `v` to the creation of a volume stands for.
pub open spec fn answered_leg(node: Seq<char>, v: JsonView) -> LegView {
    LegView {
        node,
        volume_id: v.text_at("id"@),
        state: LegState::Created,
        message: None,
        master_node: engine::master_node(v),
        export: None,
        drive_uuid: None,
        member_uuid: None,
    }
}

/// The volume of each leg is created by the engine of the node picked for it,
/// under the volume's name and with its size, one after the other. What that
/// engine answers is what is recorded of that leg; where it does not, nothing
/// more is created.
pub proof fn legs_are_created_one_by_one(
    c: CreationView,
    fed: FedStateView,
    v: JsonView,
    why: Seq<char>,
)
    requires
        c.sound(),
        c.failure is None,
        c.legs.len() < c.picks.len(),
    ensures
        ({
            let node = c.picks[c.legs.len() as int];
            &&& fed.nodes.contains_key(node) ==> c.errand(fed) == Some(
                ErrandView {
                    engine: EngineView::at(
                        fed.nodes[node].config.engine_url,
                        fed.nodes[node].config.api_token,
                    ),
                    task: TaskView::CreateVolume {
                        name: c.request.name,
                        size_bytes: c.request.size_bytes,
                    },
                },
            ) && c.sought(fed) == c
            &&& !fed.nodes.contains_key(node) ==> c.errand(fed) is None && c.sought(fed).failure
                is Some && c.sought(fed).legs == c.legs
            &&& c.after(Ok(v)) == (CreationView {
                legs: c.legs.push(answered_leg(node, v)),
                ..c
            })
            &&& c.after(Err(why)).failure is Some
            &&& c.after(Err(why)).legs == c.legs
        }),
{
}

/// Once every leg exists, each has what its own engine answered.
pub proof fn created_legs_are_as_answered(
    c: CreationView,
    turns: Seq<(FedStateView, Result<JsonView, Seq<char>>)>,
    i: int,
)
    requires
        c.sound(),
        c.legs.len() == 0,
        turns.len() == c.picks.len(),
        c.ran(turns).complete(),
        0 <= i < turns.len(),
    ensures
        turns[i].1 is Ok,
        c.ran(turns).legs[i] == answered_leg(c.picks[i], turns[i].1->Ok_0),
{
    api::creation_keeps_plan(c, turns);
    legs_so_far(c, turns, i);
}

proof fn legs_so_far(
    c: CreationView,
    turns: Seq<(FedStateView, Result<JsonView, Seq<char>>)>,
    i: int,
)
    requires
        c.sound(),
        c.legs.len() == 0,
    ensures
        c.ran(turns).legs.len() <= turns.len(),
        0 <= i < turns.len() && c.ran(turns).legs.len() == turns.len() ==> turns[i].1 is Ok
            && c.ran(turns).legs[i] == answered_leg(c.picks[i], turns[i].1->Ok_0),
    decreases turns.len(),
{
    if turns.len() > 0 {
        let front = turns.drop_last();
        legs_so_far(c, front, i);
        api::creation_keeps_plan(c, front);
        if 0 <= i < front.len() {
            assert(front[i] == turns[i]);
        }
    }
}

/// A creation that is taken back deletes exactly the volumes of the legs so far
/// that have an id, on the nodes that are still known, and nobody minds if it
/// fails.
pub proof fn rollback_deletes_what_was_created(c: CreationView, fed: FedStateView)
    ensures
        c.rollback(fed) == kept(
            c.legs,
            |leg: LegView| leg.volume_id is Some && fed.nodes.contains_key(leg.node),
            |leg: LegView|
                ChoreView {
                    errand: ErrandView {
                        engine: EngineView::at(
                            fed.nodes[leg.node].config.engine_url,
                            fed.nodes[leg.node].config.api_token,
                        ),
                        task: TaskView::DeleteVolume { volume_id: leg.volume_id->0 },
                    },
                    blame: None,
                },
        ),
{
    rollback_is_kept(fed, c.legs);
}

proof fn rollback_is_kept(fed: FedStateView, legs: Seq<LegView>)
    ensures
        api::rollback_of(fed, legs) == kept(
            legs,
            |leg: LegView| leg.volume_id is Some && fed.nodes.contains_key(leg.node),
            |leg: LegView|
                ChoreView {
                    errand: ErrandView {
                        engine: EngineView::at(
                            fed.nodes[leg.node].config.engine_url,
                            fed.nodes[leg.node].config.api_token,
                        ),
                        task: TaskView::DeleteVolume { volume_id: leg.volume_id->0 },
                    },
                    blame: None,
                },
        ),
    decreases legs.len(),
{
    let p = |leg: LegView| leg.volume_id is Some && fed.nodes.contains_key(leg.node);
    let f = |leg: LegView|
        ChoreView {
            errand: ErrandView {
                engine: EngineView::at(
                    fed.nodes[leg.node].config.engine_url,
                    fed.nodes[leg.node].config.api_token,
                ),
                task: TaskView::DeleteVolume { volume_id: leg.volume_id->0 },
            },
            blame: None,
        };
    if legs.len() == 0 {
        lists::kept_of_none(legs, p, f);
    } else {
        rollback_is_kept(fed, legs.drop_last());
        lists::kept_of_more(legs, p, f);
    }
}

/// Deleting a volume deletes exactly the volumes of its legs that have an id,
/// each by the engine of its node where that is known.
pub proof fn deletion_is_of_every_leg_with_a_volume(fed: FedStateView, legs: Seq<LegView>)
    ensures
        api::leg_deletions(fed, legs) == kept(
            legs,
            |leg: LegView| leg.volume_id is Some,
            |leg: LegView|
                LegDeletionView {
                    node: leg.node,
                    errand: if fed.nodes.contains_key(leg.node) {
                        Some(
                            ErrandView {
                                engine: EngineView::at(
                                    fed.nodes[leg.node].config.engine_url,
                                    fed.nodes[leg.node].config.api_token,
                                ),
                                task: TaskView::DeleteVolume { volume_id: leg.volume_id->0 },
                            },
                        )
                    } else {
                        None
                    },
                },
        ),
    decreases legs.len(),
{
    let p = |leg: LegView| leg.volume_id is Some;
    let f = |leg: LegView|
        LegDeletionView {
            node: leg.node,
            errand: if fed.nodes.contains_key(leg.node) {
                Some(
                    ErrandView {
                        engine: EngineView::at(
                            fed.nodes[leg.node].config.engine_url,
                            fed.nodes[leg.node].config.api_token,
                        ),
                        task: TaskView::DeleteVolume { volume_id: leg.volume_id->0 },
                    },
                )
            } else {
                None
            },
        };
    if legs.len() == 0 {
        lists::kept_of_none(legs, p, f);
    } else {
        deletion_is_of_every_leg_with_a_volume(fed, legs.drop_last());
        lists::kept_of_more(legs, p, f);
    }
}

/// Every deletion that did not happen is reported under its node: with why it
/// failed, or that the node is no longer known.
pub proof fn every_leg_not_deleted_is_reported(
    deletions: Seq<LegDeletionView>,
    failures: Seq<Option<Seq<char>>>,
    i: int,
)
    requires
        deletions.len() == failures.len(),
        0 <= i < deletions.len(),
    ensures
        deletions[i].errand is None ==> api::deletion_errors(deletions, failures).contains(
            deletions[i].node + ": node no longer known"@,
        ),
        deletions[i].errand is Some && failures[i] is Some ==> api::deletion_errors(
            deletions,
            failures,
        ).contains(deletions[i].node + ": "@ + failures[i]->0),
    decreases deletions.len(),
{
    let ds = deletions.drop_last();
    let fs = failures.drop_last();
    let front = api::deletion_errors(ds, fs);
    let all = api::deletion_errors(deletions, failures);
    let line = if deletions[i].errand is None {
        deletions[i].node + ": node no longer known"@
    } else {
        deletions[i].node + ": "@ + failures[i]->0
    };
    if deletions[i].errand is None || failures[i] is Some {
        if i < ds.len() {
            every_leg_not_deleted_is_reported(ds, fs, i);
            let k = choose|k: int| 0 <= k < front.len() && front[k] == line;
            assert(all[k] == line);
        } else {
            assert(all[all.len() - 1] == line);
        }
    }
}

/// Each line of what is reported is about a deletion that did not happen, and
/// the lines are in the order of the deletions.
pub proof fn only_legs_not_deleted_are_reported(
    deletions: Seq<LegDeletionView>,
    failures: Seq<Option<Seq<char>>>,
) -> (at: Seq<int>)
    requires
        deletions.len() == failures.len(),
    ensures
        at.len() == api::deletion_errors(deletions, failures).len(),
        forall|k: int|
            0 <= k < at.len() ==> 0 <= #[trigger] at[k] < deletions.len() && (
            deletions[at[k]].errand is None || failures[at[k]] is Some) && api::deletion_errors(
                deletions,
                failures,
            )[k] == deletions[at[k]].node + ": "@ + if deletions[at[k]].errand is None {
                "node no longer known"@
            } else {
                failures[at[k]]->0
            },
        forall|k: int, l: int| 0 <= k < l < at.len() ==> #[trigger] at[k] < #[trigger] at[l],
    decreases deletions.len(),
{
    if deletions.len() == 0 {
        Seq::empty()
    } else {
        let front = only_legs_not_deleted_are_reported(deletions.drop_last(), failures.drop_last());
        let d = deletions.last();
        if d.errand is None || failures.last() is Some {
            reveal_strlit(": node no longer known");
            reveal_strlit(": ");
            reveal_strlit("node no longer known");
            assert(d.node + ": node no longer known"@ =~= d.node + ": "@
                + "node no longer known"@);
            front.push(deletions.len() - 1)
        } else {
            front
        }
    }
}

/// What a heartbeat leaves of a node. One that is not known yet is registered
/// under its host name, at the address, without labels, tier or capacity. Of a
/// node that is known the address is taken only where it registered itself, and
/// nothing else of its configuration. Whichever it is, it is healthy, was heard
/// of now, and has as many volumes as it announces; its capacity, topology and
/// source stay.
pub proof fn heartbeat_refreshes_a_node(
    known: Map<Seq<char>, NodeView>,
    host: Seq<char>,
    url: Seq<char>,
    volumes: u64,
    now: SystemTime,
)
    ensures
        ({
            let n = api::announced_node(known, host, url, volumes, now);
            let was = known[host];
            &&& n.status.healthy
            &&& n.status.last_ok == Some(now)
            &&& n.status.consecutive_failures == 0
            &&& n.status.volumes == volumes
            &&& known.contains_key(host) ==> {
                &&& n.config == if was.status.source == NodeSource::Registered {
                    NodeConfigView { engine_url: url, ..was.config }
                } else {
                    was.config
                }
                &&& n.status.source == was.status.source
                &&& n.status.total_bytes == was.status.total_bytes
                &&& n.status.free_bytes == was.status.free_bytes
                &&& n.status.engine_topology == was.status.engine_topology
            }
            &&& !known.contains_key(host) ==> {
                &&& n.config == (NodeConfigView {
                    name: host,
                    engine_url: url,
                    api_token: None,
                    labels: Map::empty(),
                    tier: None,
                })
                &&& n.status.source == NodeSource::Registered
                &&& n.status.total_bytes == 0
                &&& n.status.free_bytes == 0
                &&& n.status.engine_topology == Map::<Seq<char>, Seq<char>>::empty()
            }
        }),
{
}

/// A heartbeat is news to the peers exactly where it adds a node or changes the
/// configuration of one: a second one from the same address never is.
pub proof fn heartbeat_is_news_only_once(
    known: Map<Seq<char>, NodeView>,
    host: Seq<char>,
    url: Seq<char>,
    volumes: u64,
    again: u64,
    now: SystemTime,
    later: SystemTime,
)
    ensures
        ({
            let n = api::announced_node(known, host, url, volumes, now);
            let then = known.insert(host, n);
            &&& api::changes_intent(known, host, url) <==> !known.contains_key(host) || n.config
                != known[host].config
            &&& !api::changes_intent(then, host, url)
            &&& api::announced_node(then, host, url, again, later).config == n.config
        }),
{
    let n = api::announced_node(known, host, url, volumes, now);
    if known.contains_key(host) && known[host].status.source == NodeSource::Registered
        && known[host].config.engine_url == url {
        assert(n.config == known[host].config);
    }
}

/// A node whose engine says that it shuts down is unhealthy and otherwise as it
/// was; every other node is as it was.
pub proof fn deregistering_quiets_the_nodes_there(node: NodeView, url: Seq<char>)
    ensures
        node.config.engine_url == url ==> api::quiet_node(node, url) == (NodeView {
            config: node.config,
            status: NodeStatusView { healthy: false, ..node.status },
        }),
        node.config.engine_url != url ==> api::quiet_node(node, url) == node,
{
}

/// What is noted of a shutdown names the last node at the address, and nothing
/// is noted where there is none.
pub proof fn last_node_at_the_address_is_named(nodes: Seq<NodeView>, url: Seq<char>, k: int)
    requires
        -1 <= k < nodes.len(),
        k >= 0 ==> nodes[k].config.engine_url == url,
        forall|j: int| k < j < nodes.len() ==> (#[trigger] nodes[j]).config.engine_url != url,
    ensures
        api::last_at(nodes, url) == if k >= 0 {
            Some(nodes[k].config.name)
        } else {
            None
        },
    decreases nodes.len(),
{
    if nodes.len() > 0 && k < nodes.len() - 1 {
        let front = nodes.drop_last();
        assert(nodes[nodes.len() - 1].config.engine_url != url);
        assert forall|j: int| k < j < front.len() implies (#[trigger] front[j]).config.engine_url
            != url by {
            assert(nodes[j].config.engine_url != url);
        }
        last_node_at_the_address_is_named(front, url, k);
    }
}

/// A pool draws from exactly the nodes that its selector takes.
pub proof fn members_are_kept(pool: PoolConfigView, nodes: Seq<NodeView>)
    ensures
        api::members_of(pool.selector, nodes) == nodes.filter(
            |n: NodeView| config_laws::takes(pool.selector, n.config),
        ),
    decreases nodes.len(),
{
    reveal(Seq::filter);
    if nodes.len() > 0 {
        members_are_kept(pool, nodes.drop_last());
        config_laws::selector_takes_what_meets_every_condition(
            pool.selector,
            nodes.last().config,
        );
    }
}

/// Healthy nodes are counted.
pub proof fn healthy_are_counted(nodes: Seq<NodeView>)
    ensures
        api::healthy_among(nodes) == nodes.filter(|n: NodeView| n.status.healthy).len(),
    decreases nodes.len(),
{
    reveal(Seq::filter);
    if nodes.len() > 0 {
        healthy_are_counted(nodes.drop_last());
    }
}

/// A figure is added up over the healthy nodes alone.
pub proof fn healthy_are_summed(nodes: Seq<NodeView>, figure: spec_fn(NodeView) -> nat)
    ensures
        api::healthy_sum(nodes, figure) == sum(
            kept(nodes, |n: NodeView| n.status.healthy, figure),
        ),
    decreases nodes.len(),
{
    let p = |n: NodeView| n.status.healthy;
    if nodes.len() == 0 {
        lists::kept_of_none(nodes, p, figure);
    } else {
        let before = kept(nodes.drop_last(), p, figure);
        healthy_are_summed(nodes.drop_last(), figure);
        lists::kept_of_more(nodes, p, figure);
        if p(nodes.last()) {
            assert(before.push(figure(nodes.last())).drop_last() =~= before);
        }
    }
}

/// What a pool has: the nodes that its selector takes, by name, how many they
/// are and how many of them are healthy, and the capacity and the free bytes of
/// the healthy ones together.
pub proof fn pool_adds_up_its_healthy_members(pool: PoolConfigView, fed: FedStateView)
    requires
        api::pool_fits(pool, fed),
    ensures
        ({
            let members = names::in_order(fed.nodes).filter(
                |n: NodeView| config_laws::takes(pool.selector, n.config),
            );
            let r = api::pool_of(pool, fed);
            &&& r.name == pool.name
            &&& r.replicas == pool.replicas
            &&& r.rung == pool.rung
            &&& r.nodes == members.map_values(|n: NodeView| n.config.name)
            &&& r.matched == members.len()
            &&& r.healthy == members.filter(|n: NodeView| n.status.healthy).len()
            &&& r.total_bytes == sum(
                kept(
                    members,
                    |n: NodeView| n.status.healthy,
                    |n: NodeView| n.status.total_bytes as nat,
                ),
            )
            &&& r.free_bytes == sum(
                kept(
                    members,
                    |n: NodeView| n.status.healthy,
                    |n: NodeView| n.status.free_bytes as nat,
                ),
            )
        }),
{
    let nodes = names::in_order(fed.nodes);
    let members = nodes.filter(|n: NodeView| config_laws::takes(pool.selector, n.config));
    members_are_kept(pool, nodes);
    healthy_are_counted(members);
    api::healthy_at_most_all(members);
    healthy_are_summed(members, api::total_of());
    healthy_are_summed(members, api::free_of());
    assert(api::names_of(members) =~= members.map_values(|n: NodeView| n.config.name));
}

/// What the card counts: the healthy nodes of all, the volumes and those that
/// wait to be assembled, and the bytes of the healthy nodes.
pub proof fn card_counts_healthy_nodes_and_volumes(fed: FedStateView)
    requires
        api::summary_fits(fed),
    ensures
        ({
            let nodes = names::in_order(fed.nodes);
            let volumes = names::in_order(fed.volumes);
            let good = nodes.filter(|n: NodeView| n.status.healthy).len();
            let waiting = volumes.filter(
                |v: DistVolumeView| v.assembly == AssemblyState::PendingEngineSupport,
            ).len();
            let free = api::human_text(
                sum(
                    kept(
                        nodes,
                        |n: NodeView| n.status.healthy,
                        |n: NodeView| n.status.free_bytes as nat,
                    ),
                ) as u64,
            );
            let total = api::human_text(
                sum(
                    kept(
                        nodes,
                        |n: NodeView| n.status.healthy,
                        |n: NodeView| n.status.total_bytes as nat,
                    ),
                ) as u64,
            );
            let ratio = text::dec(good) + "/"@ + text::dec(nodes.len());
            let c = api::card(fed);
            &&& nodes.len() == 0 ==> c.health == "idle"@
            &&& nodes.len() > 0 && good == 0 ==> c.health == "error"@
            &&& 0 < good < nodes.len() ==> c.health == "warn"@
            &&& nodes.len() > 0 && good == nodes.len() ==> c.health == "ok"@
            &&& c.detail == ratio + " nodes, "@ + text::dec(volumes.len()) + " volumes ("@
                + text::dec(waiting) + " pending assembly), "@ + free + " free"@
            &&& c.metrics.len() == 4
            &&& c.metrics[0].value == ratio
            &&& c.metrics[0].tone == Some(
                if good < nodes.len() {
                    "warn"@
                } else {
                    "ok"@
                },
            )
            &&& c.metrics[1].value == text::dec(volumes.len())
            &&& c.metrics[2].value == free
            &&& c.metrics[3].value == total
        }),
{
    let nodes = names::in_order(fed.nodes);
    healthy_are_counted(nodes);
    healthy_are_summed(nodes, api::total_of());
    healthy_are_summed(nodes, api::free_of());
    api::healthy_at_most_all(nodes);
    pending_are_counted(names::in_order(fed.volumes));
}

proof fn pending_are_counted(volumes: Seq<DistVolumeView>)
    ensures
        api::pending_among(volumes) == volumes.filter(
            |v: DistVolumeView| v.assembly == AssemblyState::PendingEngineSupport,
        ).len(),
    decreases volumes.len(),
{
    reveal(Seq::filter);
    if volumes.len() > 0 {
        pending_are_counted(volumes.drop_last());
    }
}

/// Where a node stands in the federation tree: its label for every rung that it
/// has one for, in the order of the rungs.
pub proof fn chain_has_every_label_of_a_rung(
    labels: Map<Seq<char>, Seq<char>>,
    rungs: Seq<Seq<char>>,
)
    ensures
        api::chain_of(labels, rungs) == kept(
            rungs,
            |r: Seq<char>| labels.contains_key(r),
            |r: Seq<char>| api::ChainLinkView { rung: r, value: labels[r] },
        ),
    decreases rungs.len(),
{
    let p = |r: Seq<char>| labels.contains_key(r);
    let f = |r: Seq<char>| api::ChainLinkView { rung: r, value: labels[r] };
    if rungs.len() == 0 {
        lists::kept_of_none(rungs, p, f);
    } else {
        chain_has_every_label_of_a_rung(labels, rungs.drop_last());
        lists::kept_of_more(rungs, p, f);
    }
}

/// Every slab of every node is a pool, node by node in the order of their
/// names, with as many volumes as are on it.
pub proof fn every_slab_is_a_pool(
    all: Map<Seq<char>, NodeInventoryView>,
    nodes: Seq<Seq<char>>,
)
    ensures
        api::slab_pools(all, nodes) == chained(
            nodes.map_values(
                |n: Seq<char>|
                    all[n].slabs.map_values(
                        |s: SlabView|
                            api::SlabPoolView {
                                node: n,
                                slab: s,
                                volumes: all[n].volumes.filter(
                                    |v: PlacedVolumeView|
                                        v.slabs.contains(s.id),
                                ).len() as usize,
                            },
                    ),
            ),
        ),
    decreases nodes.len(),
{
    let f = |n: Seq<char>|
        all[n].slabs.map_values(
            |s: SlabView|
                api::SlabPoolView {
                    node: n,
                    slab: s,
                    volumes: all[n].volumes.filter(
                        |v: PlacedVolumeView| v.slabs.contains(s.id),
                    ).len() as usize,
                },
        );
    if nodes.len() > 0 {
        every_slab_is_a_pool(all, nodes.drop_last());
        assert(nodes.map_values(f).drop_last() =~= nodes.drop_last().map_values(f));
        let n = nodes.last();
        assert(api::slab_pools_of(n, all[n]) =~= f(n));
    }
}

/// How a node is listed, and where it stands in the federation tree: with its
/// own name, address, tier and status, and all of its labels.
pub proof fn node_is_listed_as_it_is(n: NodeView, rungs: Seq<Seq<char>>)
    ensures
        n.listing().name == n.config.name,
        n.listing().engine_url == n.config.engine_url,
        n.listing().tier == n.config.tier,
        n.listing().labels == n.labels(),
        n.listing().status == n.status,
        n.topology(rungs).name == n.config.name,
        n.topology(rungs).tier == n.config.tier,
        n.topology(rungs).healthy == n.status.healthy,
        n.topology(rungs).chain == api::chain_of(n.labels(), rungs),
{
}

/// A created volume is noted under its name, for information.
pub proof fn creation_is_noted(c: CreationView)
    ensures
        c.notice().subject == Some(c.request.name),
        c.notice().severity == Severity::Info,
        c.notice().kind == "volume"@,
        c.notice().message == c.request.name + ": created, "@ + text::dec(c.replicas as nat)
            + " leg(s) across rung "@ + text::quoted_text(c.rung) + " on ["@ + text::joined(
            c.picks,
            ", "@,
        ) + "]"@,
{
}

/// Once every leg exists or one could not be created, nothing more is asked, and
/// no answer changes anything.
pub proof fn ended_creation_stays_as_it_is(
    c: CreationView,
    fed: FedStateView,
    answer: Result<JsonView, Seq<char>>,
)
    requires
        c.failure is Some || c.legs.len() == c.picks.len(),
    ensures
        c.errand(fed) is None,
        c.sought(fed) == c,
        c.after(answer) == c,
{
}

/// Why a creation failed is told with the node: that it is no longer known, or
/// what its engine said.
pub proof fn failed_creation_names_the_node(c: CreationView, fed: FedStateView, why: Seq<char>)
    requires
        c.failure is None,
        c.legs.len() < c.picks.len(),
    ensures
        ({
            let node = c.picks[c.legs.len() as int];
            &&& c.after(Err(why)).failure == Some(
                ApiErrorView::of(
                    ErrorKind::Upstream,
                    "leg create failed: "@ + node + ": "@ + why,
                ),
            )
            &&& !fed.nodes.contains_key(node) ==> c.sought(fed).failure == Some(
                ApiErrorView::of(ErrorKind::NotFound, "node "@ + text::quoted_text(node)),
            )
        }),
{
}

/// What a pool has can be counted exactly where its members and the bytes of
/// the healthy ones fit the numbers that hold them.
pub proof fn pool_is_counted_where_it_fits(pool: PoolConfigView, fed: FedStateView)
    ensures
        ({
            let members = names::in_order(fed.nodes).filter(
                |n: NodeView| config_laws::takes(pool.selector, n.config),
            );
            let good = |n: NodeView| n.status.healthy;
            api::pool_fits(pool, fed) <==> {
                &&& members.len() <= u32::MAX
                &&& sum(kept(members, good, |n: NodeView| n.status.free_bytes as nat)) <= u64::MAX
                &&& sum(kept(members, good, |n: NodeView| n.status.total_bytes as nat)) <= u64::MAX
            }
        }),
{
    let nodes = names::in_order(fed.nodes);
    let members = nodes.filter(|n: NodeView| config_laws::takes(pool.selector, n.config));
    members_are_kept(pool, nodes);
    healthy_are_summed(members, api::total_of());
    healthy_are_summed(members, api::free_of());
}

/// What the card shows can be counted exactly where the bytes of the healthy
/// nodes fit the numbers that hold them.
pub proof fn card_is_counted_where_it_fits(fed: FedStateView)
    ensures
        ({
            let nodes = names::in_order(fed.nodes);
            let good = |n: NodeView| n.status.healthy;
            api::summary_fits(fed) <==> {
                &&& sum(kept(nodes, good, |n: NodeView| n.status.free_bytes as nat)) <= u64::MAX
                &&& sum(kept(nodes, good, |n: NodeView| n.status.total_bytes as nat)) <= u64::MAX
            }
        }),
{
    let nodes = names::in_order(fed.nodes);
    healthy_are_summed(nodes, api::total_of());
    healthy_are_summed(nodes, api::free_of());
}

/// Why a volume cannot be created: it has no name or no size, or there is one of
/// its name; otherwise its placement decides.
pub proof fn creation_is_refused_with_the_reason(
    config: ConfigView,
    fed: FedStateView,
    req: CreateVolumeRequestView,
)
    ensures
        ({
            let r = CreationView::begin(config, fed, req);
            let run = api::dry_run(
                config,
                fed,
                PlanRequestView {
                    pool: req.pool,
                    size_bytes: req.size_bytes,
                    replicas: req.replicas,
                    rung: req.rung,
                    tier: req.tier,
                },
            );
            if req.name.len() == 0 || req.size_bytes == 0 {
                r == Err::<CreationView, ApiErrorView>(
                    ApiErrorView::of(ErrorKind::BadRequest, "name and size_bytes required"@),
                )
            } else if fed.volumes.contains_key(req.name) {
                r == Err::<CreationView, ApiErrorView>(
                    ApiErrorView::of(
                        ErrorKind::Conflict,
                        "volume "@ + text::quoted_text(req.name) + " exists"@,
                    ),
                )
            } else {
                run is Err ==> r == Err::<CreationView, ApiErrorView>(run->Err_0)
            }
        }),
{
}

} // verus!
