//! Assemblies, their teardown, and leg moves.

use crate::api;
use crate::engine;
use crate::engine::{AttachedLegView, EngineView};
use crate::events::Severity;
use crate::json::JsonView;
use crate::laws::lists;
use crate::laws::lists::kept;
use crate::model;
use crate::model::{AssemblyState, DistVolumeView, FedStateView, LegState, LegView, NodeView};
use crate::names;
use crate::orchestrate;
use crate::orchestrate::{
    AnswerView, AssemblyView, ChoreView, ErrandView, LegMoveView, MovePhase, Phase, TaskView,
};
use crate::placement;
use crate::placement::{CandidateView, Question};
use crate::text;
use vstd::prelude::*;

verus! {

/// What an assembly starts from: every leg exists, its node is known, and the
/// first leg without an export is exported first.
pub proof fn assembly_starts_with_every_leg(fed: FedStateView, name: Seq<char>, i: int)
    requires
        fed.volumes.contains_key(name),
        0 <= i < fed.volumes[name].legs.len() <= usize::MAX,
    ensures
        ({
            let legs = fed.volumes[name].legs;
            let able = legs.len() >= 2 && forall|j: int|
                0 <= j < legs.len() ==> (#[trigger] legs[j]).state == LegState::Created
                    && legs[j].volume_id is Some && fed.nodes.contains_key(legs[j].node);
            &&& AssemblyView::begin(fed, name) is Ok <==> able
            &&& AssemblyView::begin(fed, name) matches Ok(a) ==> {
                &&& a.volume == fed.volumes[name]
                &&& a.engines.len() == legs.len()
                &&& a.engines[i] == EngineView::at(
                    fed.nodes[legs[i].node].config.engine_url,
                    fed.nodes[legs[i].node].config.api_token,
                )
                &&& match a.phase {
                    Phase::Attach(k) => k < legs.len() && legs[k as int].export is None && (i < k
                        ==> legs[i].export is Some),
                    Phase::Open(k) => k == 0 && legs[i].export is Some,
                    _ => false,
                }
            }
        }),
{
    let legs = fed.volumes[name].legs;
    orchestrate::begin_is_sound(fed, name);
    known_nodes(fed.nodes, legs);
    assert(forall|j: int|
        0 <= j < legs.len() ==> (orchestrate::is_created(#[trigger] legs[j]) <==> legs[j].state
            == LegState::Created && legs[j].volume_id is Some));
    let a = AssemblyView::begin(fed, name);
    if a is Err && legs.len() >= 2 {
        if orchestrate::first_unknown(fed.nodes, legs) is None {
            let j = choose|j: int|
                0 <= j < legs.len() && !orchestrate::is_created(#[trigger] legs[j]);
            assert(!orchestrate::is_created(legs[j]));
        }
    }
}

proof fn known_nodes(nodes: Map<Seq<char>, NodeView>, legs: Seq<LegView>)
    ensures
        match orchestrate::first_unknown(nodes, legs) {
            Some(k) => 0 <= k < legs.len() && !nodes.contains_key(legs[k].node),
            None => forall|j: int|
                0 <= j < legs.len() ==> nodes.contains_key((#[trigger] legs[j]).node),
        },
    decreases legs.len(),
{
    if legs.len() > 0 {
        known_nodes(nodes, legs.drop_last());
        let front = legs.drop_last();
        if orchestrate::first_unknown(nodes, legs) is None {
            assert forall|j: int| 0 <= j < legs.len() implies nodes.contains_key(
                (#[trigger] legs[j]).node,
            ) by {
                if j < front.len() {
                    assert(nodes.contains_key(front[j].node));
                }
            }
        }
    }
}

/// Each leg is exported by its own engine, for the volume that is on it, and
/// the export that comes back is recorded on that leg and nowhere else. The
/// legs are gone through in order.
pub proof fn export_is_recorded_on_its_leg(a: AssemblyView, i: usize, x: AttachedLegView, j: int)
    requires
        a.sound(),
        a.phase == Phase::Attach(i),
        0 <= j < a.volume.legs.len(),
    ensures
        a.errand() == Some(
            ErrandView {
                engine: a.engines[i as int],
                task: TaskView::Attach {
                    volume_id: a.volume.legs[i as int].volume_id->0,
                    master: match a.volume.legs[i as int].master_node {
                        Some(m) => m,
                        None => "localhost"@,
                    },
                },
            },
        ),
        ({
            let b = a.after(AnswerView::Attached(Ok(x)));
            let legs = a.volume.legs;
            &&& b.engines == a.engines
            &&& b.error is None
            &&& b.volume == (DistVolumeView { legs: b.volume.legs, ..a.volume })
            &&& b.volume.legs.len() == legs.len()
            &&& j == i ==> b.volume.legs[j] == (LegView { export: Some(x), ..legs[j] })
            &&& j != i ==> b.volume.legs[j] == legs[j]
            &&& match b.phase {
                Phase::Attach(k) => i < k < legs.len() && legs[k as int].export is None && (i < j
                    < k ==> legs[j].export is Some),
                Phase::Open(k) => k == 0 && (i < j ==> legs[j].export is Some),
                _ => false,
            }
        }),
{
    let b = a.after(AnswerView::Attached(Ok(x)));
    orchestrate::answer_keeps_sound(a, AnswerView::Attached(Ok(x)));
    let legs = a.volume.legs;
    let leg = LegView { export: Some(x), ..legs[i as int] };
    let next = legs.update(i as int, leg);
    orchestrate::first_unexported_is_first(next, i + 1);
    assert(next[j] == b.volume.legs[j]);
}

/// The head opens every leg, in order and by the leg's own export, and the uuid
/// that comes back is recorded on that leg and nowhere else.
pub proof fn drive_is_recorded_on_its_leg(a: AssemblyView, i: usize, u: Seq<char>, j: int)
    requires
        a.sound(),
        a.phase == Phase::Open(i),
        0 <= j < a.volume.legs.len(),
    ensures
        a.errand() == Some(
            ErrandView {
                engine: a.engines[0],
                task: TaskView::OpenDrive { uri: (a.volume.legs[i as int].export->0).drive_uri() },
            },
        ),
        ({
            let b = a.after(AnswerView::Uuid(Ok(u)));
            let legs = a.volume.legs;
            &&& b.engines == a.engines
            &&& b.error is None
            &&& b.volume == (DistVolumeView { legs: b.volume.legs, ..a.volume })
            &&& b.volume.legs.len() == legs.len()
            &&& j == i ==> b.volume.legs[j] == (LegView { drive_uuid: Some(u), ..legs[j] })
            &&& j != i ==> b.volume.legs[j] == legs[j]
            &&& i + 1 < legs.len() ==> b.phase == Phase::Open((i + 1) as usize)
            &&& i + 1 == legs.len() ==> b.phase is Mirror
        }),
{
}

/// The mirror is made on the head across the drives of all legs, in the order
/// of the legs. Once it is there, the volume has its array and its head, the
/// node of the first leg. A leg whose place in the array's answer has a member
/// with a uuid has that uuid as its member; every other leg has the member it
/// had. Nothing else of the volume changes.
pub proof fn members_are_recorded_leg_by_leg(a: AssemblyView, array: JsonView, i: int)
    requires
        a.sound(),
        a.phase is Mirror,
        0 <= i < a.volume.legs.len(),
    ensures
        match a.errand() {
            Some(ErrandView { engine, task: TaskView::Mirror { drives } }) => engine == a.engines[0]
                && drives.len() == a.volume.legs.len() && Some(drives[i])
                == a.volume.legs[i].drive_uuid,
            _ => false,
        },
        a.after(AnswerView::Body(Ok(array))).phase is Done <==> array.text_at("id"@) is Some,
        array.text_at("id"@) is Some ==> {
            let v = a.after(AnswerView::Body(Ok(array))).volume;
            let legs = a.volume.legs;
            let uuid = match array.list_at("members"@) {
                Some(members) => if i < members.len() {
                    members[i].text_at("uuid"@)
                } else {
                    None
                },
                None => None,
            };
            &&& v.legs.len() == legs.len()
            &&& uuid is Some ==> v.legs[i] == (LegView { member_uuid: uuid, ..legs[i] })
            &&& uuid is None ==> v.legs[i] == legs[i]
            &&& v == (DistVolumeView {
                legs: v.legs,
                head: Some(legs[0].node),
                array_id: array.text_at("id"@),
                assembly: AssemblyState::Assembled,
                ..a.volume
            })
        },
        array.text_at("id"@) is None ==> a.after(AnswerView::Body(Ok(array))).volume == a.volume,
{
}

/// A step that fails ends the assembly and leaves what is wired up as it is.
pub proof fn failed_step_keeps_what_is_wired(a: AssemblyView, why: Seq<char>)
    requires
        a.sound(),
    ensures
        a.phase is Attach ==> {
            let b = a.after(AnswerView::Attached(Err(why)));
            b.phase is Failed && b.volume == a.volume
        },
        a.phase is Open ==> {
            let b = a.after(AnswerView::Uuid(Err(why)));
            b.phase is Failed && b.volume == a.volume
        },
        a.phase is Mirror ==> {
            let b = a.after(AnswerView::Body(Err(why)));
            b.phase is Failed && b.volume == a.volume
        },
{
}

/// Closing the drive of an exported leg on the engine of the head.
pub open spec fn closing(head: NodeView, leg: LegView) -> ChoreView {
    ChoreView {
        errand: ErrandView {
            engine: EngineView::at(head.config.engine_url, head.config.api_token),
            task: TaskView::CloseDrive { uri: (leg.export->0).drive_uri() },
        },
        blame: Some("head drive "@ + (leg.export->0).drive_uri()),
    }
}

/// Taking back the export of a leg on its node.
pub open spec fn detaching(node: NodeView, leg: LegView) -> ChoreView {
    ChoreView {
        errand: ErrandView {
            engine: EngineView::at(node.config.engine_url, node.config.api_token),
            task: TaskView::Detach {
                volume_id: leg.volume_id->0,
                master: match leg.master_node {
                    Some(m) => m,
                    None => "localhost"@,
                },
            },
        },
        blame: Some(leg.node + " detach"@),
    }
}

/// Removing the array from the engine of the head.
pub open spec fn unmirroring(head: NodeView, array_id: Seq<char>) -> ChoreView {
    ChoreView {
        errand: ErrandView {
            engine: EngineView::at(head.config.engine_url, head.config.api_token),
            task: TaskView::DeleteArray { array_id },
        },
        blame: Some("array "@ + array_id),
    }
}

proof fn closings_are_kept(head: NodeView, legs: Seq<LegView>)
    ensures
        orchestrate::closings(api::engine_at(head), legs) == kept(
            legs,
            |leg: LegView| leg.export is Some,
            |leg: LegView| closing(head, leg),
        ),
    decreases legs.len(),
{
    let p = |leg: LegView| leg.export is Some;
    let f = |leg: LegView| closing(head, leg);
    if legs.len() == 0 {
        lists::kept_of_none(legs, p, f);
    } else {
        closings_are_kept(head, legs.drop_last());
        lists::kept_of_more(legs, p, f);
    }
}

proof fn detachings_are_kept(fed: FedStateView, legs: Seq<LegView>)
    ensures
        orchestrate::detachings(fed, legs) == kept(
            legs,
            |leg: LegView|
                leg.volume_id is Some && leg.export is Some && fed.nodes.contains_key(leg.node),
            |leg: LegView| detaching(fed.nodes[leg.node], leg),
        ),
    decreases legs.len(),
{
    let p = |leg: LegView|
        leg.volume_id is Some && leg.export is Some && fed.nodes.contains_key(leg.node);
    let f = |leg: LegView| detaching(fed.nodes[leg.node], leg);
    if legs.len() == 0 {
        lists::kept_of_none(legs, p, f);
    } else {
        detachings_are_kept(fed, legs.drop_last());
        lists::kept_of_more(legs, p, f);
    }
}

/// A teardown asks for exactly this, in this order: the array to go from the
/// head, every exported leg's drive to be closed there, and every exported leg
/// to be detached by its own engine. The head is left alone where it is not
/// known or has no array, and a leg where its node is not known.
pub proof fn teardown_is_array_drives_exports(fed: FedStateView, vol: DistVolumeView)
    ensures
        ({
            let exports = kept(
                vol.legs,
                |leg: LegView|
                    leg.volume_id is Some && leg.export is Some && fed.nodes.contains_key(leg.node),
                |leg: LegView| detaching(fed.nodes[leg.node], leg),
            );
            let h = fed.nodes[vol.head->0];
            orchestrate::teardown_chores(fed, vol) == if vol.head is Some
                && fed.nodes.contains_key(vol.head->0) && vol.array_id is Some {
                seq![unmirroring(h, vol.array_id->0)] + kept(
                    vol.legs,
                    |leg: LegView| leg.export is Some,
                    |leg: LegView| closing(h, leg),
                ) + exports
            } else {
                exports
            }
        }),
{
    detachings_are_kept(fed, vol.legs);
    if vol.head is Some && fed.nodes.contains_key(vol.head->0) && vol.array_id is Some {
        closings_are_kept(fed.nodes[vol.head->0], vol.legs);
    } else {
        assert(orchestrate::teardown_chores(fed, vol) =~= orchestrate::detachings(fed, vol.legs));
    }
}

/// Nothing of an assembly is left behind by its teardown. Every exported leg on
/// a known node is detached by that node's engine, under the leg's own volume
/// and as the leg's master. Where the head is known and there is an array, the
/// array is deleted on the head, and every exported leg's drive is closed
/// there.
pub proof fn teardown_covers_every_leg(fed: FedStateView, vol: DistVolumeView, i: int)
    requires
        0 <= i < vol.legs.len(),
        vol.legs[i].export is Some,
    ensures
        vol.legs[i].volume_id is Some && fed.nodes.contains_key(vol.legs[i].node)
            ==> orchestrate::teardown_chores(fed, vol).contains(
            detaching(fed.nodes[vol.legs[i].node], vol.legs[i]),
        ),
        vol.head is Some && fed.nodes.contains_key(vol.head->0) && vol.array_id is Some ==> {
            let h = fed.nodes[vol.head->0];
            &&& orchestrate::teardown_chores(fed, vol).contains(closing(h, vol.legs[i]))
            &&& orchestrate::teardown_chores(fed, vol).contains(unmirroring(h, vol.array_id->0))
        },
{
    let legs = vol.legs;
    let p = |leg: LegView|
        leg.volume_id is Some && leg.export is Some && fed.nodes.contains_key(leg.node);
    let f = |leg: LegView| detaching(fed.nodes[leg.node], leg);
    let all = orchestrate::teardown_chores(fed, vol);
    teardown_is_array_drives_exports(fed, vol);
    let headed = vol.head is Some && fed.nodes.contains_key(vol.head->0) && vol.array_id is Some;
    let h = fed.nodes[vol.head->0];
    let q = |leg: LegView| leg.export is Some;
    let g = |leg: LegView| closing(h, leg);
    let n: int = if headed {
        1int + kept(legs, q, g).len()
    } else {
        0
    };
    if p(legs[i]) {
        lists::kept_holds(legs, p, f, i);
        let k = choose|k: int| 0 <= k < kept(legs, p, f).len() && kept(legs, p, f)[k] == f(legs[i]);
        assert(all[n + k] == f(legs[i]));
    }
    if headed {
        lists::kept_holds(legs, q, g, i);
        let k = choose|k: int| 0 <= k < kept(legs, q, g).len() && kept(legs, q, g)[k] == g(legs[i]);
        assert(all[1 + k] == g(legs[i]));
        assert(all[0] == unmirroring(h, vol.array_id->0));
    }
}

/// A teardown touches nothing but the volume's own array, drives and exports.
pub proof fn teardown_touches_nothing_else(fed: FedStateView, vol: DistVolumeView, k: int)
    requires
        0 <= k < orchestrate::teardown_chores(fed, vol).len(),
    ensures
        ({
            let chore = orchestrate::teardown_chores(fed, vol)[k];
            let h = fed.nodes[vol.head->0];
            let headed = vol.head is Some && fed.nodes.contains_key(vol.head->0) && vol.array_id
                is Some;
            ||| headed && chore == unmirroring(h, vol.array_id->0)
            ||| headed && exists|i: int|
                0 <= i < vol.legs.len() && (#[trigger] vol.legs[i]).export is Some && chore
                    == closing(h, vol.legs[i])
            ||| exists|i: int|
                0 <= i < vol.legs.len() && (#[trigger] vol.legs[i]).export is Some
                    && vol.legs[i].volume_id is Some && fed.nodes.contains_key(vol.legs[i].node)
                    && chore == detaching(fed.nodes[vol.legs[i].node], vol.legs[i])
        }),
{
    let legs = vol.legs;
    let all = orchestrate::teardown_chores(fed, vol);
    teardown_is_array_drives_exports(fed, vol);
    let headed = vol.head is Some && fed.nodes.contains_key(vol.head->0) && vol.array_id is Some;
    let h = fed.nodes[vol.head->0];
    let p = |leg: LegView|
        leg.volume_id is Some && leg.export is Some && fed.nodes.contains_key(leg.node);
    let f = |leg: LegView| detaching(fed.nodes[leg.node], leg);
    let q = |leg: LegView| leg.export is Some;
    let g = |leg: LegView| closing(h, leg);
    let n: int = if headed {
        1int + kept(legs, q, g).len()
    } else {
        0
    };
    if k >= n {
        assert(all[k] == kept(legs, p, f)[k - n]);
        let i = lists::kept_comes_from(legs, p, f, k - n);
        assert(legs[i].export is Some);
    } else if k > 0 {
        assert(all[k] == kept(legs, q, g)[k - 1]);
        let i = lists::kept_comes_from(legs, q, g, k - 1);
        assert(legs[i].export is Some);
    }
}

/// What is reported of chores: every one that failed and is minded, with what
/// to blame and why; and nothing where all of those went well.
pub proof fn every_blamed_failure_is_reported(
    chores: Seq<ChoreView>,
    failures: Seq<Option<Seq<char>>>,
    i: int,
)
    requires
        chores.len() == failures.len(),
        0 <= i < chores.len(),
        chores[i].blame is Some,
        failures[i] is Some,
    ensures
        orchestrate::complaints(chores, failures).contains(
            chores[i].blame->0 + ": "@ + failures[i]->0,
        ),
    decreases chores.len(),
{
    let front = orchestrate::complaints(chores.drop_last(), failures.drop_last());
    let all = orchestrate::complaints(chores, failures);
    let line = chores[i].blame->0 + ": "@ + failures[i]->0;
    if i < chores.len() - 1 {
        every_blamed_failure_is_reported(chores.drop_last(), failures.drop_last(), i);
        let k = choose|k: int| 0 <= k < front.len() && front[k] == line;
        assert(all[k] == line);
    } else {
        assert(all[all.len() - 1] == line);
    }
}

/// Each line of a report is about a chore that failed and is minded, and the
/// lines are in the order of the chores.
pub proof fn reports_are_about_failures(
    chores: Seq<ChoreView>,
    failures: Seq<Option<Seq<char>>>,
) -> (at: Seq<int>)
    requires
        chores.len() == failures.len(),
    ensures
        at.len() == orchestrate::complaints(chores, failures).len(),
        forall|k: int|
            0 <= k < at.len() ==> 0 <= #[trigger] at[k] < chores.len() && chores[at[k]].blame
                is Some && failures[at[k]] is Some && orchestrate::complaints(chores, failures)[k]
                == chores[at[k]].blame->0 + ": "@ + failures[at[k]]->0,
        forall|k: int, l: int| 0 <= k < l < at.len() ==> #[trigger] at[k] < #[trigger] at[l],
    decreases chores.len(),
{
    if chores.len() == 0 {
        Seq::empty()
    } else {
        let front = reports_are_about_failures(chores.drop_last(), failures.drop_last());
        if chores.last().blame is Some && failures.last() is Some {
            front.push(chores.len() - 1)
        } else {
            front
        }
    }
}

/// When a leg can move: the volume is known and assembled and has a leg on the
/// node. The move is about the first such leg, and nothing is built yet.
pub proof fn move_is_about_the_first_leg_there(
    fed: FedStateView,
    rungs: Seq<Seq<char>>,
    name: Seq<char>,
    from: Seq<char>,
    to: Option<Seq<char>>,
    k: int,
)
    requires
        fed.volumes.contains_key(name),
        0 <= k < fed.volumes[name].legs.len(),
        fed.volumes[name].legs[k].node == from,
        forall|j: int| 0 <= j < k ==> (#[trigger] fed.volumes[name].legs[j]).node != from,
    ensures
        LegMoveView::begin(fed, rungs, name, from, to) is Ok ==> fed.volumes[name].assembly
            == AssemblyState::Assembled,
        LegMoveView::begin(fed, rungs, name, from, to) matches Ok(m) ==> {
            let vol = fed.volumes[name];
            let (t, h) = (fed.nodes[m.new_leg.node], fed.nodes[vol.head->0]);
            &&& fed.nodes.contains_key(m.new_leg.node)
            &&& fed.nodes.contains_key(vol.head->0)
            &&& m.name == name
            &&& m.volume_name == vol.name
            &&& m.size_bytes == vol.size_bytes
            &&& m.from == from
            &&& m.old_leg == vol.legs[k]
            &&& m.head == vol.head->0
            &&& m.array_id == vol.array_id->0
            &&& m.target_engine == EngineView::at(t.config.engine_url, t.config.api_token)
            &&& m.head_engine == EngineView::at(h.config.engine_url, h.config.api_token)
            &&& m.phase is Create
            &&& to matches Some(t) ==> m.new_leg.node == t && fed.nodes[t].status.healthy
            &&& m.new_leg.volume_id is None && m.new_leg.export is None && m.new_leg.drive_uuid
                is None && m.new_leg.member_uuid is None
        },
{
    orchestrate::first_on_is_first(fed.volumes[name].legs, from, 0);
    if let Some(i) = orchestrate::first_on(fed.volumes[name].legs, from, 0) {
        if i < k {
            assert(fed.volumes[name].legs[i].node != from);
        }
    }
}

/// What is recorded of a moved leg is what the engines answered. From the start
/// of a move, let the target answer the creation with `v` and the attachment
/// with `x`, and the head the opening of the drive with `u` and the addition of
/// the member with `w`. Each is asked with what was answered before it; the
/// member `w` is the one that is watched in the array; and once a look has
/// shown it active, the leg that is recorded in the place of the first one on
/// the node that is left has the id in `v` as its volume, the export `x`, the
/// drive `u` and the member `w`. No other leg and nothing else of the state but
/// the revision changes.
pub proof fn moved_leg_carries_what_was_answered(
    fed: FedStateView,
    now: FedStateView,
    rungs: Seq<Seq<char>>,
    name: Seq<char>,
    from: Seq<char>,
    to: Option<Seq<char>>,
    v: JsonView,
    x: AttachedLegView,
    u: Seq<char>,
    w: Seq<char>,
    looks: Seq<(bool, Option<JsonView>)>,
    k: int,
)
    requires
        LegMoveView::begin(fed, rungs, name, from, to) is Ok,
        v.text_at("id"@) is Some,
        now.volumes.contains_key(name),
        0 <= k < now.volumes[name].legs.len(),
        now.volumes[name].legs[k].node == from,
        forall|j: int| 0 <= j < k ==> (#[trigger] now.volumes[name].legs[j]).node != from,
    ensures
        ({
            let a = LegMoveView::begin(fed, rungs, name, from, to)->Ok_0;
            let b = a.after(AnswerView::Body(Ok(v)));
            let c = b.after(AnswerView::Attached(Ok(x)));
            let d = c.after(AnswerView::Uuid(Ok(u)));
            let e = d.after(AnswerView::Uuid(Ok(w)));
            let f = e.watched(looks);
            let master = match engine::master_node(v) {
                Some(m) => m,
                None => "localhost"@,
            };
            &&& a.errand() == Some(
                ErrandView {
                    engine: a.target_engine,
                    task: TaskView::CreateVolume {
                        name: fed.volumes[name].name,
                        size_bytes: fed.volumes[name].size_bytes,
                    },
                },
            )
            &&& b.errand() == Some(
                ErrandView {
                    engine: a.target_engine,
                    task: TaskView::Attach { volume_id: v.text_at("id"@)->0, master },
                },
            )
            &&& c.errand() == Some(
                ErrandView {
                    engine: a.head_engine,
                    task: TaskView::OpenDrive { uri: x.drive_uri() },
                },
            )
            &&& d.errand() == Some(
                ErrandView {
                    engine: a.head_engine,
                    task: TaskView::AddMember {
                        array_id: fed.volumes[name].array_id->0,
                        drive_uuid: u,
                    },
                },
            )
            &&& e.errand() is None && e.phase is Rebuild
            &&& e.new_leg.member_uuid == Some(w)
            &&& f.new_leg == e.new_leg
            &&& f.phase is Active ==> {
                let then = orchestrate::moved(now, f);
                let legs = now.volumes[name].legs;
                &&& then.volumes.contains_key(name)
                &&& then.volumes[name].legs.len() == legs.len()
                &&& then.volumes[name].legs[k] == (LegView {
                    node: a.new_leg.node,
                    volume_id: v.text_at("id"@),
                    state: LegState::Created,
                    message: None,
                    master_node: Some(master),
                    export: Some(x),
                    drive_uuid: Some(u),
                    member_uuid: Some(w),
                })
                &&& forall|j: int|
                    0 <= j < legs.len() && j != k ==> #[trigger] then.volumes[name].legs[j]
                        == legs[j]
                &&& then.volumes[name] == (DistVolumeView {
                    legs: then.volumes[name].legs,
                    ..now.volumes[name]
                })
                &&& forall|other: Seq<char>|
                    other != name ==> then.volumes.contains_key(other) == now.volumes.contains_key(
                        other,
                    ) && #[trigger] then.volumes[other] == now.volumes[other]
                &&& then == (FedStateView {
                    volumes: then.volumes,
                    revision: (now.revision + 1) as u64,
                    ..now
                })
            }
            &&& !(f.phase is Active) ==> orchestrate::moved(now, f) == now
        }),
{
    let a = LegMoveView::begin(fed, rungs, name, from, to)->Ok_0;
    let e = a.after(AnswerView::Body(Ok(v))).after(AnswerView::Attached(Ok(x))).after(
        AnswerView::Uuid(Ok(u)),
    ).after(AnswerView::Uuid(Ok(w)));
    looking_changes_the_phase_alone(e, looks);
    orchestrate::first_on_is_first(now.volumes[name].legs, from, 0);
    if let Some(i) = orchestrate::first_on(now.volumes[name].legs, from, 0) {
        if i < k {
            assert(now.volumes[name].legs[i].node != from);
        }
    }
}

/// Looks at the array change nothing of a move but how far it has come.
pub proof fn looking_changes_the_phase_alone(
    m: LegMoveView,
    looks: Seq<(bool, Option<JsonView>)>,
)
    ensures
        m.watched(looks) == (LegMoveView { phase: m.watched(looks).phase, ..m }),
    decreases looks.len(),
{
    if looks.len() > 0 {
        looking_changes_the_phase_alone(m, looks.drop_last());
    }
}

/// An answer that fails ends the move with nothing of it recorded: neither the
/// old leg nor any record changes, and nothing is retired.
pub proof fn failed_move_changes_nothing(m: LegMoveView, why: Seq<char>, fed: FedStateView)
    ensures
        ({
            let b = m.after(
                match m.phase {
                    MovePhase::Create => AnswerView::Body(Err(why)),
                    MovePhase::Attach => AnswerView::Attached(Err(why)),
                    _ => AnswerView::Uuid(Err(why)),
                },
            );
            m.phase is Create || m.phase is Attach || m.phase is Open || m.phase is Join ==> {
                &&& b.phase is Failed
                &&& b.error is Some
                &&& b.retirement(fed).len() == 0
                &&& orchestrate::moved(fed, b) == fed
            }
        }),
{
}

/// Once the new leg is active, retiring the old one asks for exactly what there
/// is of it, in this order: the head takes its member out of the array and
/// closes its drive, and its own node's engine detaches and deletes its volume.
pub proof fn retiring_takes_the_old_leg_apart(m: LegMoveView, fed: FedStateView)
    requires
        m.phase is Active,
    ensures
        ({
            let leg = m.old_leg;
            let n = fed.nodes[m.from];
            let own = EngineView::at(n.config.engine_url, n.config.api_token);
            let master = match leg.master_node {
                Some(name) => name,
                None => "localhost"@,
            };
            let tasks = m.retirement(fed);
            let a: int = if leg.member_uuid is Some {
                1
            } else {
                0
            };
            let b: int = if leg.export is Some {
                a + 1
            } else {
                a
            };
            let c: int = if leg.volume_id is Some && fed.nodes.contains_key(m.from) {
                b + 2
            } else {
                b
            };
            &&& tasks.len() == c
            &&& leg.member_uuid matches Some(uuid) ==> tasks[0].errand == (ErrandView {
                engine: m.head_engine,
                task: TaskView::RemoveMember { array_id: m.array_id, member_uuid: uuid },
            }) && tasks[0].blame == Some("remove member"@)
            &&& leg.export matches Some(x) ==> tasks[a].errand == (ErrandView {
                engine: m.head_engine,
                task: TaskView::CloseDrive { uri: x.drive_uri() },
            }) && tasks[a].blame == Some("head drive"@)
            &&& leg.volume_id is Some && fed.nodes.contains_key(m.from) ==> {
                &&& tasks[b].errand == (ErrandView {
                    engine: own,
                    task: TaskView::Detach { volume_id: leg.volume_id->0, master },
                })
                &&& tasks[b].blame is None
                &&& tasks[b + 1].errand == (ErrandView {
                    engine: own,
                    task: TaskView::DeleteVolume { volume_id: leg.volume_id->0 },
                })
                &&& tasks[b + 1].blame == Some(m.from + " delete volume"@)
            }
        }),
{
}

/// Where a moved leg may go: among the targets is every node that is healthy,
/// carries no leg of the volume, and is in another failure domain than each
/// staying leg's node; and no other node.
pub proof fn targets_are_the_nodes_that_will_do(
    fed: FedStateView,
    rungs: Seq<Seq<char>>,
    vol: DistVolumeView,
    from: Seq<char>,
    nodes: Seq<NodeView>,
)
    ensures
        orchestrate::move_targets(fed, rungs, vol, from, nodes) == kept(
            nodes,
            |n: NodeView| will_do(fed, rungs, vol, from, n),
            |n: NodeView| as_place(n),
        ),
    decreases nodes.len(),
{
    let p = |n: NodeView| will_do(fed, rungs, vol, from, n);
    let f = |n: NodeView| as_place(n);
    if nodes.len() == 0 {
        lists::kept_of_none(nodes, p, f);
    } else {
        targets_are_the_nodes_that_will_do(fed, rungs, vol, from, nodes.drop_last());
        lists::kept_of_more(nodes, p, f);
        let n = nodes.last();
        assert(orchestrate::may_move_to(fed, rungs, vol, from, n) == will_do(
            fed,
            rungs,
            vol,
            from,
            n,
        ));
    }
}

/// Whether a leg that leaves `from` may go to the node.
pub open spec fn will_do(
    fed: FedStateView,
    rungs: Seq<Seq<char>>,
    vol: DistVolumeView,
    from: Seq<char>,
    n: NodeView,
) -> bool {
    &&& n.status.healthy
    &&& !exists|i: int| 0 <= i < vol.legs.len() && (#[trigger] vol.legs[i]).node == n.config.name
    &&& !exists|i: int|
        0 <= i < vol.legs.len() && (#[trigger] vol.legs[i]).node != from && fed.nodes.contains_key(
            vol.legs[i].node,
        ) && placement::domain(
            fed.nodes[vol.legs[i].node].labels(),
            rungs,
            vol.rung,
        ) == placement::domain(n.labels(), rungs, vol.rung)
}

/// A node as a place for a leg: with its own name and labels, and the bytes it
/// last reported.
pub open spec fn as_place(n: NodeView) -> CandidateView {
    CandidateView {
        name: n.config.name,
        labels: n.labels(),
        free_bytes: n.status.free_bytes,
        total_bytes: n.status.total_bytes,
    }
}

/// The target that is chosen for a moved leg is the emptiest: it will do and
/// has room, and no other node that will do and has room has a larger share
/// free.
pub proof fn chosen_target_is_the_emptiest(
    fed: FedStateView,
    rungs: Seq<Seq<char>>,
    vol: DistVolumeView,
    from: Seq<char>,
    target: Seq<char>,
    other: Seq<char>,
)
    requires
        fed.nodes.dom().finite(),
        model::keyed(fed.nodes),
        orchestrate::move_target(fed, rungs, vol, from, None) == Ok::<Seq<char>, Seq<char>>(target),
        fed.nodes.contains_key(other),
        will_do(fed, rungs, vol, from, fed.nodes[other]),
        fed.nodes[other].status.free_bytes >= vol.size_bytes,
    ensures
        fed.nodes.contains_key(target),
        will_do(fed, rungs, vol, from, fed.nodes[target]),
        fed.nodes[target].status.free_bytes >= vol.size_bytes,
        !placement::emptier(as_place(fed.nodes[other]), as_place(fed.nodes[target])),
        placement::as_empty(as_place(fed.nodes[other]), as_place(fed.nodes[target]))
            ==> !text::lt(other, target),
{
    let nodes = names::in_order(fed.nodes);
    let cs = orchestrate::move_targets(fed, rungs, vol, from, nodes);
    let q = Question { rungs, rung: vol.rung, replicas: 1, size_bytes: vol.size_bytes };
    let legs = q.answer(cs)->Ok_0;
    let p = |n: NodeView| will_do(fed, rungs, vol, from, n);
    let f = |n: NodeView| as_place(n);
    targets_are_the_nodes_that_will_do(fed, rungs, vol, from, nodes);
    names::sorted_holds(fed.nodes.dom());
    let keys = names::sorted(fed.nodes.dom());
    q.legs_have_room(cs, legs, 0);
    let i = q.ranking(cs)[0];
    let a = lists::kept_comes_from(nodes, p, f, i);
    assert(keys.to_set().contains(keys[a]));
    assert(keys.to_set().contains(other));
    let b = keys.index_of(other);
    assert(p(nodes[b]));
    lists::kept_holds(nodes, p, f, b);
    let j = choose|j: int| 0 <= j < cs.len() && cs[j] == f(nodes[b]);
    places_have_names_of_their_own(fed, rungs, vol, from);
    if placement::emptier(cs[j], cs[i]) || placement::as_empty(cs[j], cs[i]) && text::lt(
        cs[j].name,
        cs[i].name,
    ) {
        q.emptiest_is_taken_first(cs, legs, 0, i, j);
    }
}

proof fn places_have_names_of_their_own(
    fed: FedStateView,
    rungs: Seq<Seq<char>>,
    vol: DistVolumeView,
    from: Seq<char>,
)
    requires
        fed.nodes.dom().finite(),
        model::keyed(fed.nodes),
    ensures
        ({
            let cs = orchestrate::move_targets(fed, rungs, vol, from, names::in_order(fed.nodes));
            forall|x: int, y: int|
                0 <= x < y < cs.len() ==> (#[trigger] cs[x]).name != (#[trigger] cs[y]).name
        }),
{
    let nodes = names::in_order(fed.nodes);
    let keys = names::sorted(fed.nodes.dom());
    names::sorted_holds(fed.nodes.dom());
    let p = |n: NodeView| will_do(fed, rungs, vol, from, n);
    let f = |n: NodeView| as_place(n);
    targets_are_the_nodes_that_will_do(fed, rungs, vol, from, nodes);
    assert forall|x: int, y: int| 0 <= x < y < nodes.len() implies f(#[trigger] nodes[x]).name
        != f(#[trigger] nodes[y]).name by {
        assert(keys.to_set().contains(keys[x]));
        assert(keys.to_set().contains(keys[y]));
        text::lt_irreflexive(keys[x]);
        assert(text::lt(keys[x], keys[y]));
    }
    let name = |c: CandidateView| c.name;
    lists::kept_differ(nodes, p, f, name);
}

/// What ends a rebuild: a look in time that shows the first member with the
/// watched uuid active, in whatever case, ends it well; time running out, or a
/// look that shows that member failed, ends it badly; nothing else ends it.
pub proof fn verdict_reads_the_watched_member(
    expired: bool,
    array: JsonView,
    members: Seq<JsonView>,
    uuid: Seq<char>,
    k: int,
)
    requires
        array.list_at("members"@) == Some(members),
        0 <= k <= members.len(),
        forall|j: int| 0 <= j < k ==> (#[trigger] members[j]).text_at("uuid"@) != Some(uuid),
        k < members.len() ==> members[k].text_at("uuid"@) == Some(uuid),
    ensures
        ({
            let state = members[k].text_at("state"@);
            let seen = k < members.len() && state is Some;
            let end = orchestrate::verdict(expired, Some(array), uuid);
            &&& end == Some(true) <==> !expired && seen && text::lowercase_text(state->0)
                == "active"@
            &&& end == Some(false) <==> expired || seen && text::lowercase_text(state->0)
                == "failed"@
            &&& orchestrate::verdict(expired, None, uuid) == if expired {
                Some(false)
            } else {
                None
            }
        }),
{
    reveal_strlit("active");
    reveal_strlit("failed");
    assert("active"@[0] == 'a' && "failed"@[0] == 'f');
    member_is_first(members, uuid, k);
}

proof fn member_is_first(members: Seq<JsonView>, uuid: Seq<char>, k: int)
    requires
        0 <= k <= members.len(),
        forall|j: int| 0 <= j < k ==> (#[trigger] members[j]).text_at("uuid"@) != Some(uuid),
        k < members.len() ==> members[k].text_at("uuid"@) == Some(uuid),
    ensures
        orchestrate::member_by_uuid(members, uuid) == if k < members.len() {
            Some(members[k])
        } else {
            None
        },
    decreases members.len(),
{
    if members.len() > 0 && k > 0 {
        let rest = members.drop_first();
        assert(members[0].text_at("uuid"@) != Some(uuid));
        assert forall|j: int| 0 <= j < k - 1 implies (#[trigger] rest[j]).text_at("uuid"@) != Some(
            uuid,
        ) by {
            assert(members[j + 1].text_at("uuid"@) != Some(uuid));
        }
        member_is_first(rest, uuid, k - 1);
    }
}

/// When a leg can move: the volume is known and assembled and has a leg there;
/// the node that is asked for is known and healthy, or else some node can be
/// chosen; and the head is known.
pub proof fn move_begins_where_it_can(
    fed: FedStateView,
    rungs: Seq<Seq<char>>,
    name: Seq<char>,
    from: Seq<char>,
    to: Option<Seq<char>>,
)
    ensures
        ({
            let vol = fed.volumes[name];
            let there = exists|i: int|
                0 <= i < vol.legs.len() && (#[trigger] vol.legs[i]).node == from;
            let target = match to {
                Some(t) => fed.nodes.contains_key(t) && fed.nodes[t].status.healthy,
                None => orchestrate::move_target(fed, rungs, vol, from, None) matches Ok(t)
                    && fed.nodes.contains_key(t),
            };
            LegMoveView::begin(fed, rungs, name, from, to) is Ok <==> fed.volumes.contains_key(name)
                && vol.assembly == AssemblyState::Assembled && there && target
                && fed.nodes.contains_key(vol.head->0)
        }),
{
    let legs = fed.volumes[name].legs;
    orchestrate::first_on_is_first(legs, from, 0);
    if let Some(i) = orchestrate::first_on(legs, from, 0) {
        assert(legs[i].node == from);
    }
}

/// A target is found wherever there is one: as soon as a known node will do and
/// has room for the leg.
pub proof fn target_is_found_where_there_is_one(
    fed: FedStateView,
    rungs: Seq<Seq<char>>,
    vol: DistVolumeView,
    from: Seq<char>,
    other: Seq<char>,
)
    requires
        fed.nodes.dom().finite(),
        fed.nodes.contains_key(other),
        will_do(fed, rungs, vol, from, fed.nodes[other]),
        fed.nodes[other].status.free_bytes >= vol.size_bytes,
    ensures
        orchestrate::move_target(fed, rungs, vol, from, None) is Ok,
{
    let nodes = names::in_order(fed.nodes);
    let cs = orchestrate::move_targets(fed, rungs, vol, from, nodes);
    let q = Question { rungs, rung: vol.rung, replicas: 1, size_bytes: vol.size_bytes };
    let p = |n: NodeView| will_do(fed, rungs, vol, from, n);
    let f = |n: NodeView| as_place(n);
    targets_are_the_nodes_that_will_do(fed, rungs, vol, from, nodes);
    names::sorted_holds(fed.nodes.dom());
    let keys = names::sorted(fed.nodes.dom());
    assert(keys.to_set().contains(other));
    let b = keys.index_of(other);
    assert(nodes[b] == fed.nodes[other]);
    lists::kept_holds(nodes, p, f, b);
    let j = choose|j: int| 0 <= j < cs.len() && cs[j] == f(nodes[b]);
    q.enough_domains_are_enough(cs, seq![j]);
}

/// A look at the array ends the rebuild as the watched member says, and leaves
/// it running where nothing is decided yet.
pub proof fn look_ends_the_rebuild(m: LegMoveView, expired: bool, array: Option<JsonView>)
    requires
        m.phase is Rebuild,
        m.new_leg.member_uuid is Some,
    ensures
        ({
            let end = orchestrate::verdict(expired, array, m.new_leg.member_uuid->0);
            let n = m.looked(expired, array);
            &&& n.phase is Active <==> end == Some(true)
            &&& n.phase is Stalled <==> end == Some(false)
            &&& n.phase is Rebuild <==> end is None
            &&& n.new_leg == m.new_leg
            &&& n.old_leg == m.old_leg
        }),
{
}

/// How the end of a move is noted, under the volume's name: for information
/// where all went well, as a warning with every problem where the old leg was
/// not retired cleanly, as an error where the old leg is kept.
pub proof fn move_is_noted(m: LegMoveView, problems: Seq<Seq<char>>)
    ensures
        ({
            let n = m.conclusion(problems);
            let done = m.name + ": leg move "@ + m.from + " → "@ + m.new_leg.node + " complete"@;
            &&& n.subject == Some(m.name)
            &&& n.kind == "assemble"@
            &&& m.phase is Active && problems.len() == 0 ==> n.severity == Severity::Info
                && n.message == done
            &&& m.phase is Active && problems.len() > 0 ==> n.severity == Severity::Warning
                && n.message == done + "; cleanup issues: "@ + text::joined(problems, "; "@)
            &&& !(m.phase is Active) ==> n.severity == Severity::Error && n.message == m.name
                + ": rebuild of new leg on "@ + m.new_leg.node
                + " did not reach active — old leg on "@ + m.from + " kept"@
            &&& m.started().severity == Severity::Info
            &&& m.started().subject == Some(m.name)
            &&& m.started().message == m.name + ": moving leg "@ + m.from + " → "@
                + m.new_leg.node + "; rebuild started on "@ + m.head
        }),
{
}

/// An assembly is noted with its array, its head and the nodes of all its legs.
pub proof fn assembly_is_noted(a: AssemblyView)
    ensures
        a.notice().subject == Some(a.volume.name),
        a.notice().severity == Severity::Info,
        a.notice().kind == "assemble"@,
        a.notice().message == a.volume.name + ": RAID1 "@ + a.volume.array_id->0 + " on "@
            + a.volume.legs[0].node + ", "@ + text::dec(a.volume.legs.len()) + " legs ["@
            + text::joined(a.volume.legs.map_values(|l: LegView| l.node), ", "@) + "]"@,
{
    assert(orchestrate::leg_nodes(a.volume.legs) =~= a.volume.legs.map_values(
        |l: LegView| l.node,
    ));
}

/// An answer to something that was not asked changes nothing, neither of an
/// assembly nor of a move; nor does a look while nothing rebuilds.
pub proof fn stray_answers_change_nothing(
    a: AssemblyView,
    m: LegMoveView,
    body: Result<JsonView, Seq<char>>,
    attached: Result<AttachedLegView, Seq<char>>,
    uuid: Result<Seq<char>, Seq<char>>,
    expired: bool,
    array: Option<JsonView>,
)
    ensures
        !(a.phase is Mirror) ==> a.after(AnswerView::Body(body)) == a,
        !(a.phase is Attach) ==> a.after(AnswerView::Attached(attached)) == a,
        !(a.phase is Open) ==> a.after(AnswerView::Uuid(uuid)) == a,
        a.phase is Done || a.phase is Failed ==> a.errand() is None,
        !(m.phase is Create) ==> m.after(AnswerView::Body(body)) == m,
        !(m.phase is Attach) ==> m.after(AnswerView::Attached(attached)) == m,
        !(m.phase is Open) && !(m.phase is Join) ==> m.after(AnswerView::Uuid(uuid)) == m,
        !(m.phase is Rebuild) ==> m.looked(expired, array) == m,
        m.phase is Active || m.phase is Stalled || m.phase is Failed ==> m.errand() is None,
{
}

/// Why an assembly or a move failed is told with the node that was asked: that
/// of the leg, or the head.
pub proof fn failure_names_the_node(a: AssemblyView, m: LegMoveView, why: Seq<char>, v: JsonView)
    ensures
        a.phase matches Phase::Attach(i) ==> a.after(AnswerView::Attached(Err(why))).error == Some(
            a.volume.legs[i as int].node + ": attach: "@ + why,
        ),
        a.phase matches Phase::Open(i) ==> a.after(AnswerView::Uuid(Err(why))).error == Some(
            a.volume.legs[0].node + ": open "@ + (a.volume.legs[i as int].export->0).drive_uri()
                + ": "@ + why,
        ),
        a.phase is Mirror ==> a.after(AnswerView::Body(Err(why))).error == Some(
            a.volume.legs[0].node + ": create raid1: "@ + why,
        ),
        m.phase is Create ==> m.after(AnswerView::Body(Err(why))).error == Some(
            m.new_leg.node + ": create leg: "@ + why,
        ),
        m.phase is Create && v.text_at("id"@) is None ==> m.after(AnswerView::Body(Ok(v))).phase
            is Failed && m.after(AnswerView::Body(Ok(v))).error == Some(
            m.new_leg.node + ": create returned no id"@,
        ),
        m.phase is Attach ==> m.after(AnswerView::Attached(Err(why))).error == Some(
            m.new_leg.node + ": attach: "@ + why,
        ),
        m.phase is Open ==> m.after(AnswerView::Uuid(Err(why))).error == Some(
            m.head + ": open leg drive: "@ + why,
        ),
        m.phase is Join ==> m.after(AnswerView::Uuid(Err(why))).error == Some(
            m.head + ": add member: "@ + why,
        ),
{
}

/// A volume has a leg on a node exactly where one of its legs is there.
pub proof fn leg_is_found_on_its_node(legs: Seq<LegView>, node: Seq<char>)
    ensures
        orchestrate::has_leg_on(legs, node) <==> legs.map_values(|l: LegView| l.node).contains(
            node,
        ),
{
    let nodes = legs.map_values(|l: LegView| l.node);
    if orchestrate::has_leg_on(legs, node) {
        let i = choose|i: int| 0 <= i < legs.len() && (#[trigger] legs[i]).node == node;
        assert(nodes[i] == node);
    }
    if nodes.contains(node) {
        let i = nodes.index_of(node);
        assert(legs[i].node == node);
    }
}

/// Why a volume cannot be assembled: it is not known, or has one leg, or a leg
/// that does not exist yet, or, the first such, a leg on a node that is not
/// known.
pub proof fn assembly_is_refused_with_the_reason(fed: FedStateView, name: Seq<char>, k: int)
    requires
        fed.volumes.contains_key(name) ==> 0 <= k <= fed.volumes[name].legs.len(),
        fed.volumes.contains_key(name) ==> forall|j: int|
            0 <= j < k ==> fed.nodes.contains_key((#[trigger] fed.volumes[name].legs[j]).node),
        fed.volumes.contains_key(name) && k < fed.volumes[name].legs.len()
            ==> !fed.nodes.contains_key(fed.volumes[name].legs[k].node),
    ensures
        ({
            let legs = fed.volumes[name].legs;
            let made = forall|i: int|
                0 <= i < legs.len() ==> (#[trigger] legs[i]).state == LegState::Created
                    && legs[i].volume_id is Some;
            let r = AssemblyView::begin(fed, name);
            if !fed.volumes.contains_key(name) {
                r == Err::<AssemblyView, Seq<char>>(
                    "volume "@ + text::quoted_text(name) + " not found"@,
                )
            } else if legs.len() < 2 {
                r == Err::<AssemblyView, Seq<char>>(name + ": single leg — nothing to assemble"@)
            } else if !made {
                r == Err::<AssemblyView, Seq<char>>(name + ": not every leg is created"@)
            } else if k < legs.len() {
                r == Err::<AssemblyView, Seq<char>>(
                    "node "@ + text::quoted_text(legs[k].node) + " not in registry"@,
                )
            } else {
                r is Ok
            }
        }),
{
    if fed.volumes.contains_key(name) {
        let legs = fed.volumes[name].legs;
        assert(forall|i: int|
            0 <= i < legs.len() ==> (orchestrate::is_created(#[trigger] legs[i])
                <==> legs[i].state == LegState::Created && legs[i].volume_id is Some));
        first_unknown_is_first(fed.nodes, legs, k);
    }
}

proof fn first_unknown_is_first(nodes: Map<Seq<char>, NodeView>, legs: Seq<LegView>, k: int)
    requires
        0 <= k <= legs.len(),
        forall|j: int| 0 <= j < k ==> nodes.contains_key((#[trigger] legs[j]).node),
        k < legs.len() ==> !nodes.contains_key(legs[k].node),
    ensures
        orchestrate::first_unknown(nodes, legs) == if k < legs.len() {
            Some(k)
        } else {
            None
        },
    decreases legs.len(),
{
    if legs.len() > 0 {
        let front = legs.drop_last();
        assert forall|j: int| 0 <= j < k && j < front.len() implies nodes.contains_key(
            (#[trigger] front[j]).node,
        ) by {
            assert(nodes.contains_key(legs[j].node));
        }
        if k < legs.len() {
            first_unknown_is_first(nodes, front, k);
        } else {
            assert(nodes.contains_key(legs[legs.len() - 1].node));
            first_unknown_is_first(nodes, front, k - 1);
        }
    }
}

/// Why a leg cannot move: its volume is not known, is not assembled, or has no
/// leg there; or the node that is asked for is not known or not healthy.
pub proof fn move_is_refused_with_the_reason(
    fed: FedStateView,
    rungs: Seq<Seq<char>>,
    name: Seq<char>,
    from: Seq<char>,
    to: Seq<char>,
)
    ensures
        ({
            let vol = fed.volumes[name];
            let there = exists|i: int|
                0 <= i < vol.legs.len() && (#[trigger] vol.legs[i]).node == from;
            let r = LegMoveView::begin(fed, rungs, name, from, Some(to));
            if !fed.volumes.contains_key(name) {
                r == Err::<LegMoveView, Seq<char>>(
                    "volume "@ + text::quoted_text(name) + " not found"@,
                )
            } else if vol.assembly != AssemblyState::Assembled {
                r == Err::<LegMoveView, Seq<char>>(
                    name + ": not assembled — only assembled volumes move legs"@,
                )
            } else if !there {
                r == Err::<LegMoveView, Seq<char>>(
                    name + ": no leg on "@ + text::quoted_text(from),
                )
            } else if !fed.nodes.contains_key(to) {
                r == Err::<LegMoveView, Seq<char>>(
                    "target node "@ + text::quoted_text(to) + " not in registry"@,
                )
            } else if !fed.nodes[to].status.healthy {
                r == Err::<LegMoveView, Seq<char>>(
                    "target node "@ + text::quoted_text(to) + " is unhealthy"@,
                )
            } else if !fed.nodes.contains_key(vol.head->0) {
                r == Err::<LegMoveView, Seq<char>>(
                    "node "@ + text::quoted_text(vol.head->0) + " not in registry"@,
                )
            } else {
                r is Ok
            }
        }),
{
    let legs = fed.volumes[name].legs;
    orchestrate::first_on_is_first(legs, from, 0);
    if let Some(i) = orchestrate::first_on(legs, from, 0) {
        assert(legs[i].node == from);
    }
}

} // verus!
