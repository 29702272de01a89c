//! Leg wiring: assemble a volume's legs into a RAID1 on the head node, tear it
//! down again, and move a leg between nodes.
//!
//! Assembly: every leg is attached (an NVMe-TCP namespace with its
//! coordinates), the head opens each as an `nvme-tcp://` drive, including its
//! own leg over loopback, and mirrors across them.
//!
//! A leg move is the same machinery run forward: new leg, attach, add as a
//! member, wait until the member is active, remove the old member, drop the old
//! drive and volume.
//!
//! What is decided stands here; the engines are asked by whoever runs these
//! state machines, one errand at a time.

use crate::api;
use crate::engine;
use crate::engine::{AttachedLeg, AttachedLegView, Call, CallView, Engine, EngineView};
use crate::events;
use crate::events::{Notice, NoticeView, Severity};
use crate::json;
use crate::json::{Json, JsonView};
use crate::model;
use crate::model::{
    AssemblyState, DistVolume, DistVolumeView, FedState, FedStateView, Leg, LegState, LegView, Node,
    NodeView,
};
use crate::names;
use crate::names::Dup;
use crate::placement;
use crate::placement::{Candidate, CandidateView, Question};
use crate::text;
use vstd::prelude::*;
use vstd::string::*;

verus! {

/// One thing to ask of an engine.
#[derive(Debug)]
pub enum Task {
    CreateVolume { name: String, size_bytes: u64 },
    Attach { volume_id: String, master: String },
    OpenDrive { uri: String },
    Mirror { drives: Vec<String> },
    AddMember { array_id: String, drive_uuid: String },
    RemoveMember { array_id: String, member_uuid: String },
    DeleteArray { array_id: String },
    CloseDrive { uri: String },
    Detach { volume_id: String, master: String },
    DeleteVolume { volume_id: String },
}

/// What a [`Task`] asks.
pub enum TaskView {
    CreateVolume { name: Seq<char>, size_bytes: u64 },
    Attach { volume_id: Seq<char>, master: Seq<char> },
    OpenDrive { uri: Seq<char> },
    Mirror { drives: Seq<Seq<char>> },
    AddMember { array_id: Seq<char>, drive_uuid: Seq<char> },
    RemoveMember { array_id: Seq<char>, member_uuid: Seq<char> },
    DeleteArray { array_id: Seq<char> },
    CloseDrive { uri: Seq<char> },
    Detach { volume_id: Seq<char>, master: Seq<char> },
    DeleteVolume { volume_id: Seq<char> },
}

impl View for Task {
    type V = TaskView;

    open spec fn view(&self) -> TaskView {
        match *self {
            Task::CreateVolume { name, size_bytes } => TaskView::CreateVolume {
                name: name@,
                size_bytes,
            },
            Task::Attach { volume_id, master } => TaskView::Attach {
                volume_id: volume_id@,
                master: master@,
            },
            Task::OpenDrive { uri } => TaskView::OpenDrive { uri: uri@ },
            Task::Mirror { drives } => TaskView::Mirror { drives: drives.deep_view() },
            Task::AddMember { array_id, drive_uuid } => TaskView::AddMember {
                array_id: array_id@,
                drive_uuid: drive_uuid@,
            },
            Task::RemoveMember { array_id, member_uuid } => TaskView::RemoveMember {
                array_id: array_id@,
                member_uuid: member_uuid@,
            },
            Task::DeleteArray { array_id } => TaskView::DeleteArray { array_id: array_id@ },
            Task::CloseDrive { uri } => TaskView::CloseDrive { uri: uri@ },
            Task::Detach { volume_id, master } => TaskView::Detach {
                volume_id: volume_id@,
                master: master@,
            },
            Task::DeleteVolume { volume_id } => TaskView::DeleteVolume { volume_id: volume_id@ },
        }
    }
}

impl DeepView for Task {
    type V = TaskView;

    open spec fn deep_view(&self) -> TaskView {
        self@
    }
}

/// A task for one engine.
#[derive(Debug)]
pub struct Errand {
    pub engine: Engine,
    pub task: Task,
}

/// What an [`Errand`] is.
pub struct ErrandView {
    pub engine: EngineView,
    pub task: TaskView,
}

impl View for Errand {
    type V = ErrandView;

    open spec fn view(&self) -> ErrandView {
        ErrandView { engine: self.engine@, task: self.task@ }
    }
}

impl DeepView for Errand {
    type V = ErrandView;

    open spec fn deep_view(&self) -> ErrandView {
        self@
    }
}

impl ErrandView {
    /// The request that the errand is run with.
    pub open spec fn call(self) -> CallView {
        let e = self.engine;
        match self.task {
            TaskView::CreateVolume { name, size_bytes } => e.call(
                engine::Method::Post,
                "/v1/volumes"@,
                Some(engine::volume_request(name, size_bytes)),
            ),
            TaskView::Attach { volume_id, master } => e.call(
                engine::Method::Post,
                engine::attach_path(volume_id),
                Some(
                    JsonView::Object(
                        seq![
                            ("node"@, JsonView::Text(master)),
                            ("mode"@, JsonView::Text("read_write"@)),
                        ],
                    ),
                ),
            ),
            TaskView::OpenDrive { uri } => e.call(
                engine::Method::Post,
                "/api/v1/drives"@,
                Some(JsonView::Object(seq![("path"@, JsonView::Text(uri))])),
            ),
            TaskView::Mirror { drives } => e.call(
                engine::Method::Post,
                "/api/v1/arrays"@,
                Some(engine::raid1_request(drives)),
            ),
            TaskView::AddMember { array_id, drive_uuid } => e.call(
                engine::Method::Post,
                engine::members_path(array_id),
                Some(JsonView::Object(seq![("drive_uuid"@, JsonView::Text(drive_uuid))])),
            ),
            TaskView::RemoveMember { array_id, member_uuid } => e.call(
                engine::Method::Delete,
                engine::members_path(array_id) + "/"@ + member_uuid,
                None,
            ),
            TaskView::DeleteArray { array_id } => e.call(
                engine::Method::Delete,
                "/api/v1/arrays/"@ + array_id,
                None,
            ),
            TaskView::CloseDrive { uri } => e.call(
                engine::Method::Delete,
                engine::drive_path(uri, true),
                None,
            ),
            TaskView::Detach { volume_id, master } => e.call(
                engine::Method::Post,
                engine::detach_path(volume_id),
                Some(JsonView::Object(seq![("node"@, JsonView::Text(master))])),
            ),
            TaskView::DeleteVolume { volume_id } => e.call(
                engine::Method::Delete,
                "/v1/volumes/"@ + volume_id,
                None,
            ),
        }
    }
}

impl Errand {
    /// The request that the errand is run with.
    pub fn call(&self) -> (r: Call)
        ensures
            r@ == self@.call(),
    {
        match &self.task {
            Task::CreateVolume { name, size_bytes } => self.engine.create_volume(
                name.as_str(),
                *size_bytes,
            ),
            Task::Attach { volume_id, master } => self.engine.attach_volume(
                volume_id.as_str(),
                master.as_str(),
            ),
            Task::OpenDrive { uri } => self.engine.add_drive_idempotent(uri.as_str()),
            Task::Mirror { drives } => self.engine.create_raid1(drives),
            Task::AddMember { array_id, drive_uuid } => self.engine.array_add_member(
                array_id.as_str(),
                drive_uuid.as_str(),
            ),
            Task::RemoveMember { array_id, member_uuid } => self.engine.array_remove_member(
                array_id.as_str(),
                member_uuid.as_str(),
            ),
            Task::DeleteArray { array_id } => self.engine.delete_array(array_id.as_str()),
            Task::CloseDrive { uri } => self.engine.delete_drive(uri.as_str(), true),
            Task::Detach { volume_id, master } => self.engine.detach_volume(
                volume_id.as_str(),
                master.as_str(),
            ),
            Task::DeleteVolume { volume_id } => self.engine.delete_volume(volume_id.as_str()),
        }
    }
}

/// What came back from an errand that builds something.
#[derive(Debug)]
pub enum Answer {
    /// From creating a volume or an array: what the engine says of it.
    Body(Result<Json, String>),
    /// From attaching a volume: its coordinates.
    Attached(Result<AttachedLeg, String>),
    /// From opening a drive or adding a member: its uuid.
    Uuid(Result<String, String>),
}

/// What an [`Answer`] says.
pub enum AnswerView {
    Body(Result<JsonView, Seq<char>>),
    Attached(Result<AttachedLegView, Seq<char>>),
    Uuid(Result<Seq<char>, Seq<char>>),
}

impl View for Answer {
    type V = AnswerView;

    open spec fn view(&self) -> AnswerView {
        match *self {
            Answer::Body(r) => AnswerView::Body(
                match r {
                    Ok(v) => Ok(v@),
                    Err(e) => Err(e@),
                },
            ),
            Answer::Attached(r) => AnswerView::Attached(
                match r {
                    Ok(a) => Ok(a@),
                    Err(e) => Err(e@),
                },
            ),
            Answer::Uuid(r) => AnswerView::Uuid(
                match r {
                    Ok(u) => Ok(u@),
                    Err(e) => Err(e@),
                },
            ),
        }
    }
}

/// The engine of a node in the registry.
pub fn engine_of(fed: &FedState, node: &str) -> (r: Result<Engine, String>)
    ensures
        r is Ok <==> fed@.nodes.contains_key(node@),
        r matches Ok(e) ==> e@ == api::engine_at(fed@.nodes[node@]),
        r matches Err(e) ==> e@ == unknown_node(node@),
{
    match fed.nodes.get(node) {
        Some(n) => Ok(api::engine_for(n)),
        None => Err(
            text::owned("node ").concat(text::quoted(node).as_str()).concat(" not in registry"),
        ),
    }
}

/// What is said of a node that is not in the registry.
pub open spec fn unknown_node(node: Seq<char>) -> Seq<char> {
    "node "@ + text::quoted_text(node) + " not in registry"@
}

impl LegView {
    /// The name that the engine of the leg is asked as.
    pub open spec fn master(self) -> Seq<char> {
        match self.master_node {
            Some(m) => m,
            None => "localhost"@,
        }
    }
}

fn master_of(leg: &Leg) -> (r: String)
    ensures
        r@ == leg@.master(),
{
    match &leg.master_node {
        Some(m) => m.clone(),
        None => text::owned("localhost"),
    }
}

/// The nodes of the legs, in order.
pub open spec fn leg_nodes(legs: Seq<LegView>) -> Seq<Seq<char>> {
    Seq::new(legs.len(), |i: int| legs[i].node)
}

fn nodes_of(legs: &Vec<Leg>) -> (r: Vec<String>)
    ensures
        r.deep_view() == leg_nodes(legs.deep_view()),
{
    let mut r: Vec<String> = Vec::new();
    let mut i: usize = 0;
    while i < legs.len()
        invariant
            i <= legs.len(),
            r.len() == i,
            forall|j: int| 0 <= j < i ==> (#[trigger] r[j])@ == legs[j]@.node,
        decreases legs.len() - i,
    {
        r.push(legs[i].node.clone());
        i = i + 1;
    }
    assert(r.deep_view() =~= leg_nodes(legs.deep_view()));
    r
}

/// How far an assembly has come.
#[derive(Debug, Clone, Copy, PartialEq, Eq, Structural)]
pub enum Phase {
    /// This leg is to be exported.
    Attach(usize),
    /// The head is to open this leg as a drive.
    Open(usize),
    /// The head is to mirror across the drives.
    Mirror,
    Done,
    Failed,
}

/// The assembly of a volume, as far as it has come.
#[derive(Debug)]
pub struct Assembly {
    volume: DistVolume,
    engines: Vec<Engine>,
    phase: Phase,
    error: Option<String>,
}

/// What an [`Assembly`] holds.
#[verifier::ext_equal]
pub struct AssemblyView {
    /// The volume with what is wired up so far.
    pub volume: DistVolumeView,
    /// The engine of each leg.
    pub engines: Seq<EngineView>,
    pub phase: Phase,
    /// Why the assembly failed, if it did.
    pub error: Option<Seq<char>>,
}

impl View for Assembly {
    type V = AssemblyView;

    closed spec fn view(&self) -> AssemblyView {
        AssemblyView {
            volume: self.volume@,
            engines: self.engines.deep_view(),
            phase: self.phase,
            error: self.error.deep_view(),
        }
    }
}

/// Whether the volume exists on the leg's node.
pub open spec fn is_created(leg: LegView) -> bool {
    leg.state == LegState::Created && leg.volume_id is Some
}

/// The first leg at or after `i` that is not exported yet.
pub open spec fn first_unexported(legs: Seq<LegView>, i: int) -> Option<int>
    decreases legs.len() - i,
{
    if i < 0 || i >= legs.len() {
        None
    } else if legs[i].export is None {
        Some(i)
    } else {
        first_unexported(legs, i + 1)
    }
}

/// What comes next once the legs before `i` are exported.
pub open spec fn exporting(legs: Seq<LegView>, i: int) -> Phase {
    match first_unexported(legs, i) {
        Some(k) => Phase::Attach(k as usize),
        None => Phase::Open(0),
    }
}

/// The first leg whose node is not in the registry.
pub open spec fn first_unknown(nodes: Map<Seq<char>, NodeView>, legs: Seq<LegView>) -> Option<int>
    decreases legs.len(),
{
    if legs.len() == 0 {
        None
    } else {
        match first_unknown(nodes, legs.drop_last()) {
            Some(i) => Some(i),
            None => if nodes.contains_key(legs.last().node) {
                None
            } else {
                Some(legs.len() - 1)
            },
        }
    }
}

/// The legs with the uuids of the array's members, which are in the order of
/// the legs.
pub open spec fn with_members(legs: Seq<LegView>, members: Seq<JsonView>) -> Seq<LegView> {
    Seq::new(
        legs.len(),
        |i: int|
            if i < members.len() && members[i].text_at("uuid"@) is Some {
                LegView { member_uuid: members[i].text_at("uuid"@), ..legs[i] }
            } else {
                legs[i]
            },
    )
}

impl AssemblyView {
    /// The node that the array is made on: that of the first leg.
    pub open spec fn head(self) -> Seq<char> {
        self.volume.legs[0].node
    }

    /// What holds of every assembly: each leg exists and has an engine, and
    /// what the phase says is done is done.
    pub open spec fn sound(self) -> bool {
        let legs = self.volume.legs;
        &&& 2 <= legs.len() <= usize::MAX
        &&& self.engines.len() == legs.len()
        &&& forall|i: int| 0 <= i < legs.len() ==> is_created(#[trigger] legs[i])
        &&& self.phase is Failed <==> self.error is Some
        &&& match self.phase {
            Phase::Attach(i) => i < legs.len() && legs[i as int].export is None && forall|j: int|
                0 <= j < i ==> (#[trigger] legs[j]).export is Some,
            Phase::Open(i) => i < legs.len() && (forall|j: int|
                0 <= j < legs.len() ==> (#[trigger] legs[j]).export is Some) && forall|j: int|
                0 <= j < i ==> (#[trigger] legs[j]).drive_uuid is Some,
            Phase::Mirror | Phase::Done => forall|j: int|
                0 <= j < legs.len() ==> (#[trigger] legs[j]).export is Some && legs[j].drive_uuid
                    is Some,
            Phase::Failed => true,
        }
        &&& self.phase is Done ==> self.volume.assembly == AssemblyState::Assembled
            && self.volume.head == Some(self.head()) && self.volume.array_id is Some
    }

    /// The assembly of a volume at its start, or why it cannot be assembled.
    pub open spec fn begin(fed: FedStateView, name: Seq<char>) -> Result<Self, Seq<char>> {
        let volume = fed.volumes[name];
        let legs = volume.legs;
        if !fed.volumes.contains_key(name) {
            Err("volume "@ + text::quoted_text(name) + " not found"@)
        } else if legs.len() < 2 {
            Err(name + ": single leg — nothing to assemble"@)
        } else if exists|i: int| 0 <= i < legs.len() && !is_created(#[trigger] legs[i]) {
            Err(name + ": not every leg is created"@)
        } else {
            match first_unknown(fed.nodes, legs) {
                Some(i) => Err(unknown_node(legs[i].node)),
                None => Ok(
                    AssemblyView {
                        volume,
                        engines: Seq::new(
                            legs.len(),
                            |i: int| api::engine_at(fed.nodes[legs[i].node]),
                        ),
                        phase: exporting(legs, 0),
                        error: None,
                    },
                ),
            }
        }
    }

    /// What to ask next; nothing once the assembly is done or has failed.
    pub open spec fn errand(self) -> Option<ErrandView> {
        let legs = self.volume.legs;
        match self.phase {
            Phase::Attach(i) => Some(
                ErrandView {
                    engine: self.engines[i as int],
                    task: TaskView::Attach {
                        volume_id: legs[i as int].volume_id->0,
                        master: legs[i as int].master(),
                    },
                },
            ),
            Phase::Open(i) => Some(
                ErrandView {
                    engine: self.engines[0],
                    task: TaskView::OpenDrive { uri: (legs[i as int].export->0).drive_uri() },
                },
            ),
            Phase::Mirror => Some(
                ErrandView {
                    engine: self.engines[0],
                    task: TaskView::Mirror {
                        drives: Seq::new(legs.len(), |i: int| legs[i].drive_uuid->0),
                    },
                },
            ),
            _ => None,
        }
    }

    /// The assembly with one leg changed.
    pub open spec fn with_leg(self, i: int, leg: LegView, phase: Phase) -> Self {
        AssemblyView {
            volume: DistVolumeView {
                legs: self.volume.legs.update(i, leg),
                ..self.volume
            },
            phase,
            ..self
        }
    }

    pub open spec fn failed(self, why: Seq<char>) -> Self {
        AssemblyView { phase: Phase::Failed, error: Some(why), ..self }
    }

    /// The assembly once the array is there.
    pub open spec fn assembled(self, array_id: Seq<char>, array: JsonView) -> Self {
        AssemblyView {
            volume: DistVolumeView {
                legs: match array.list_at("members"@) {
                    Some(members) => with_members(self.volume.legs, members),
                    None => self.volume.legs,
                },
                head: Some(self.head()),
                array_id: Some(array_id),
                assembly: AssemblyState::Assembled,
                ..self.volume
            },
            phase: Phase::Done,
            ..self
        }
    }

    /// The assembly after an answer. An answer to something that was not asked
    /// changes nothing.
    pub open spec fn after(self, answer: AnswerView) -> Self {
        let legs = self.volume.legs;
        match (self.phase, answer) {
            (Phase::Attach(i), AnswerView::Attached(r)) => match r {
                Ok(a) => {
                    let leg = LegView { export: Some(a), ..legs[i as int] };
                    self.with_leg(
                        i as int,
                        leg,
                        exporting(legs.update(i as int, leg), i + 1),
                    )
                },
                Err(e) => self.failed(legs[i as int].node + ": attach: "@ + e),
            },
            (Phase::Open(i), AnswerView::Uuid(r)) => match r {
                Ok(u) => self.with_leg(
                    i as int,
                    LegView { drive_uuid: Some(u), ..legs[i as int] },
                    if i + 1 < legs.len() {
                        Phase::Open((i + 1) as usize)
                    } else {
                        Phase::Mirror
                    },
                ),
                Err(e) => self.failed(
                    self.head() + ": open "@ + (legs[i as int].export->0).drive_uri() + ": "@ + e,
                ),
            },
            (Phase::Mirror, AnswerView::Body(r)) => match r {
                Ok(array) => match array.text_at("id"@) {
                    Some(id) => self.assembled(id, array),
                    None => self.failed(
                        self.head() + ": array response without id: "@ + json::written(array),
                    ),
                },
                Err(e) => self.failed(self.head() + ": create raid1: "@ + e),
            },
            _ => self,
        }
    }

    /// What is noted once the volume is assembled.
    pub open spec fn notice(self) -> NoticeView {
        NoticeView {
            subject: Some(self.volume.name),
            severity: Severity::Info,
            kind: "assemble"@,
            message: self.volume.name + ": RAID1 "@ + self.volume.array_id->0 + " on "@
                + self.head() + ", "@ + text::dec(self.volume.legs.len()) + " legs ["@
                + text::joined(leg_nodes(self.volume.legs), ", "@) + "]"@,
        }
    }

    /// An upper bound on the answers that are still to come.
    pub open spec fn to_go(self) -> nat {
        let n = self.volume.legs.len();
        match self.phase {
            Phase::Attach(i) => (2 * n + 1 - i) as nat,
            Phase::Open(i) => (n + 1 - i) as nat,
            Phase::Mirror => 1,
            _ => 0,
        }
    }
}

/// The leg that is found is the first without an export, and where none is
/// found there is none.
pub proof fn first_unexported_is_first(legs: Seq<LegView>, i: int)
    requires
        0 <= i <= legs.len(),
    ensures
        match first_unexported(legs, i) {
            Some(k) => i <= k < legs.len() && legs[k].export is None && forall|j: int|
                i <= j < k ==> (#[trigger] legs[j]).export is Some,
            None => forall|j: int| i <= j < legs.len() ==> (#[trigger] legs[j]).export is Some,
        },
    decreases legs.len() - i,
{
    if i < legs.len() && legs[i].export is Some {
        first_unexported_is_first(legs, i + 1);
    }
}

/// An assembly starts sound.
pub proof fn begin_is_sound(fed: FedStateView, name: Seq<char>)
    requires
        fed.volumes[name].legs.len() <= usize::MAX,
    ensures
        AssemblyView::begin(fed, name) matches Ok(a) ==> a.sound(),
{
    let legs = fed.volumes[name].legs;
    first_unexported_is_first(legs, 0);
}

/// An assembly stays sound whatever is answered: in particular a volume that is
/// assembled has its head on the node of its first leg, an array, and every leg
/// exported and opened.
pub proof fn answer_keeps_sound(a: AssemblyView, answer: AnswerView)
    requires
        a.sound(),
    ensures
        a.after(answer).sound(),
{
    let legs = a.volume.legs;
    match (a.phase, answer) {
        (Phase::Attach(i), AnswerView::Attached(Ok(x))) => {
            let leg = LegView { export: Some(x), ..legs[i as int] };
            first_unexported_is_first(legs.update(i as int, leg), i + 1);
        },
        (Phase::Mirror, AnswerView::Body(Ok(array))) => {},
        _ => {},
    }
}

/// Wiring leaves alone what a volume is: its name, size and policy, and of each
/// leg the node, the volume on it and the engine's name there.
pub proof fn answer_keeps_identity(a: AssemblyView, answer: AnswerView, i: int)
    requires
        a.sound(),
        0 <= i < a.volume.legs.len(),
    ensures
        ({
            let v = a.volume;
            let w = a.after(answer).volume;
            &&& w.name == v.name && w.size_bytes == v.size_bytes && w.pool == v.pool
            &&& w.replicas == v.replicas && w.rung == v.rung && w.created_at == v.created_at
            &&& w.legs.len() == v.legs.len()
            &&& w.legs[i].node == v.legs[i].node && w.legs[i].volume_id == v.legs[i].volume_id
            &&& w.legs[i].state == v.legs[i].state && w.legs[i].master_node
                == v.legs[i].master_node
        }),
{
}

/// Every answer to what was asked brings the assembly nearer its end: there are
/// at most two errands for each leg and one for the array.
pub proof fn answer_makes_progress(a: AssemblyView, answer: AnswerView)
    requires
        a.sound(),
        match a.phase {
            Phase::Attach(_) => answer is Attached,
            Phase::Open(_) => answer is Uuid,
            Phase::Mirror => answer is Body,
            _ => false,
        },
    ensures
        a.after(answer).to_go() < a.to_go(),
        a.to_go() <= 2 * a.volume.legs.len() + 1,
{
    let legs = a.volume.legs;
    match (a.phase, answer) {
        (Phase::Attach(i), AnswerView::Attached(Ok(x))) => {
            let leg = LegView { export: Some(x), ..legs[i as int] };
            first_unexported_is_first(legs.update(i as int, leg), i + 1);
        },
        _ => {},
    }
}

/// A failed assembly keeps the legs: none is dropped, and what was exported
/// before stays recorded.
pub proof fn failure_keeps_progress(a: AssemblyView, answer: AnswerView)
    requires
        a.sound(),
        a.after(answer).phase is Failed,
    ensures
        a.after(answer).volume == a.volume,
{
}

/// Whether every leg's volume exists.
fn all_created(legs: &Vec<Leg>) -> (r: bool)
    ensures
        r == !(exists|i: int|
            0 <= i < legs.deep_view().len() && !is_created(#[trigger] legs.deep_view()[i])),
{
    let mut i: usize = 0;
    while i < legs.len()
        invariant
            i <= legs.len(),
            forall|j: int| 0 <= j < i ==> is_created(#[trigger] legs.deep_view()[j]),
        decreases legs.len() - i,
    {
        assert(legs.deep_view()[i as int] == legs[i as int]@);
        if legs[i].state != LegState::Created || legs[i].volume_id.is_none() {
            assert(!is_created(legs.deep_view()[i as int]));
            return false;
        }
        i = i + 1;
    }
    true
}

/// What comes next once the legs before `i` are exported.
fn next_export(legs: &Vec<Leg>, i: usize) -> (r: Phase)
    requires
        i <= legs.len(),
    ensures
        r == exporting(legs.deep_view(), i as int),
{
    let mut k: usize = i;
    while k < legs.len() && legs[k].export.is_some()
        invariant
            i <= k <= legs.len(),
            first_unexported(legs.deep_view(), i as int) == first_unexported(
                legs.deep_view(),
                k as int,
            ),
        decreases legs.len() - k,
    {
        assert(legs.deep_view()[k as int] == legs[k as int]@);
        k = k + 1;
    }
    if k < legs.len() {
        assert(legs.deep_view()[k as int] == legs[k as int]@);
        Phase::Attach(k)
    } else {
        Phase::Open(0)
    }
}

/// The engine of each leg, or that the node of one is not in the registry.
fn engines_of(fed: &FedState, legs: &Vec<Leg>) -> (r: Result<Vec<Engine>, String>)
    ensures
        match first_unknown(fed@.nodes, legs.deep_view()) {
            Some(i) => r matches Err(e) && e@ == unknown_node(legs.deep_view()[i].node),
            None => r matches Ok(es) && es.deep_view() == Seq::new(
                legs.deep_view().len(),
                |i: int| api::engine_at(fed@.nodes[legs.deep_view()[i].node]),
            ),
        },
{
    let ghost all = legs.deep_view();
    let mut engines: Vec<Engine> = Vec::new();
    let mut i: usize = 0;
    while i < legs.len()
        invariant
            i <= legs.len(),
            all == legs.deep_view(),
            engines.len() == i,
            first_unknown(fed@.nodes, all.take(i as int)) is None,
            forall|j: int|
                0 <= j < i ==> (#[trigger] engines[j])@ == api::engine_at(
                    fed@.nodes[all[j].node],
                ),
        decreases legs.len() - i,
    {
        assert(all.take(i + 1).drop_last() =~= all.take(i as int));
        assert(all.take(i + 1).last() == legs[i as int]@);
        match engine_of(fed, legs[i].node.as_str()) {
            Ok(e) => {
                engines.push(e);
            },
            Err(e) => {
                proof {
                    first_unknown_prefix(fed@.nodes, all, i + 1);
                }
                return Err(e);
            },
        }
        i = i + 1;
    }
    assert(all.take(i as int) =~= all);
    assert(engines.deep_view() =~= Seq::new(
        all.len(),
        |k: int| api::engine_at(fed@.nodes[legs.deep_view()[k].node]),
    ));
    Ok(engines)
}

/// A leg with an unknown node among the first ones is the first of all.
proof fn first_unknown_prefix(nodes: Map<Seq<char>, NodeView>, legs: Seq<LegView>, n: int)
    requires
        0 <= n <= legs.len(),
        first_unknown(nodes, legs.take(n)) is Some,
    ensures
        first_unknown(nodes, legs) == first_unknown(nodes, legs.take(n)),
    decreases legs.len() - n,
{
    if n < legs.len() {
        assert(legs.take(n + 1).drop_last() =~= legs.take(n));
        first_unknown_prefix(nodes, legs, n + 1);
    } else {
        assert(legs.take(n) =~= legs);
    }
}

impl Assembly {
    #[verifier::type_invariant]
    closed spec fn holds(self) -> bool {
        self@.sound()
    }

    /// The assembly of a volume at its start, or why it cannot be assembled.
    pub fn begin(fed: &FedState, name: &str) -> (r: Result<Assembly, String>)
        ensures
            match r {
                Ok(a) => AssemblyView::begin(fed@, name@) == Ok::<AssemblyView, Seq<char>>(a@),
                Err(e) => AssemblyView::begin(fed@, name@) == Err::<AssemblyView, Seq<char>>(e@),
            },
    {
        let volume: &DistVolume = match fed.volumes.get(name) {
            Some(v) => v,
            None => {
                return Err(
                    text::owned("volume ").concat(text::quoted(name).as_str()).concat(
                        " not found",
                    ),
                );
            },
        };
        if volume.legs.len() < 2 {
            return Err(text::owned(name).concat(": single leg — nothing to assemble"));
        }
        if !all_created(&volume.legs) {
            return Err(text::owned(name).concat(": not every leg is created"));
        }
        let engines: Vec<Engine> = match engines_of(fed, &volume.legs) {
            Ok(es) => es,
            Err(e) => {
                return Err(e);
            },
        };
        let phase: Phase = next_export(&volume.legs, 0);
        proof {
            begin_is_sound(fed@, name@);
        }
        Ok(Assembly { volume: volume.dup(), engines, phase, error: None })
    }

    /// What to ask next; nothing once the assembly is done or has failed.
    pub fn next(&self) -> (r: Option<Errand>)
        ensures
            r.deep_view() == self@.errand(),
    {
        proof {
            use_type_invariant(self);
        }
        let legs: &Vec<Leg> = &self.volume.legs;
        match self.phase {
            Phase::Attach(i) => {
                let leg: &Leg = &legs[i];
                assert(is_created(self@.volume.legs[i as int]));
                let volume_id: String = match &leg.volume_id {
                    Some(id) => id.clone(),
                    None => String::new(),
                };
                Some(
                    Errand {
                        engine: self.engines[i].dup(),
                        task: Task::Attach { volume_id, master: master_of(leg) },
                    },
                )
            },
            Phase::Open(i) => {
                let leg: &Leg = &legs[i];
                assert(self@.volume.legs[i as int].export is Some);
                let uri: String = match &leg.export {
                    Some(x) => x.drive_uri(),
                    None => String::new(),
                };
                Some(Errand { engine: self.engines[0].dup(), task: Task::OpenDrive { uri } })
            },
            Phase::Mirror => {
                let mut drives: Vec<String> = Vec::new();
                let mut i: usize = 0;
                while i < legs.len()
                    invariant
                        i <= legs.len(),
                        legs.deep_view() == self@.volume.legs,
                        drives.len() == i,
                        forall|j: int|
                            0 <= j < legs.len() ==> (
                            #[trigger] self@.volume.legs[j]).drive_uuid is Some,
                        forall|j: int|
                            0 <= j < i ==> (#[trigger] drives[j])@
                                == self@.volume.legs[j].drive_uuid->0,
                    decreases legs.len() - i,
                {
                    assert(self@.volume.legs[i as int] == legs[i as int]@);
                    let uuid: String = match &legs[i].drive_uuid {
                        Some(u) => u.clone(),
                        None => String::new(),
                    };
                    drives.push(uuid);
                    i = i + 1;
                }
                assert(drives.deep_view() =~= Seq::new(
                    self@.volume.legs.len(),
                    |k: int| self@.volume.legs[k].drive_uuid->0,
                ));
                Some(Errand { engine: self.engines[0].dup(), task: Task::Mirror { drives } })
            },
            Phase::Done => None,
            Phase::Failed => None,
        }
    }

    /// The state with another leg `i`.
    fn set_leg(&mut self, i: usize, leg: Leg, phase: Phase)
        requires
            i < old(self)@.volume.legs.len(),
            old(self)@.with_leg(i as int, leg@, phase).sound(),
        ensures
            final(self)@ == old(self)@.with_leg(i as int, leg@, phase),
    {
        let mut volume: DistVolume = self.volume.dup();
        let ghost was = volume.legs.deep_view();
        volume.legs.set(i, leg);
        assert(volume.legs.deep_view() =~= was.update(i as int, leg@));
        let next = Assembly {
            volume,
            engines: self.engines.dup(),
            phase,
            error: self.error.dup(),
        };
        *self = next;
    }

    fn fail(&mut self, why: String)
        requires
            old(self)@.sound(),
        ensures
            final(self)@ == old(self)@.failed(why@),
    {
        let next = Assembly {
            volume: self.volume.dup(),
            engines: self.engines.dup(),
            phase: Phase::Failed,
            error: Some(why),
        };
        *self = next;
    }

    /// Takes in an answer.
    pub fn step(&mut self, answer: Answer)
        ensures
            final(self)@ == old(self)@.after(answer@),
    {
        proof {
            use_type_invariant(&*self);
            answer_keeps_sound(self@, answer@);
        }
        let ghost legs = self@.volume.legs;
        assert(legs.len() >= 2);
        let head: String = self.volume.legs[0].node.clone();
        match (self.phase, answer) {
            (Phase::Attach(i), Answer::Attached(r)) => {
                match r {
                    Ok(a) => {
                        let mut volume: DistVolume = self.volume.dup();
                        let mut leg: Leg = volume.legs[i].dup();
                        leg.export = Some(a);
                        let ghost was = volume.legs.deep_view();
                        volume.legs.set(i, leg.dup());
                        assert(volume.legs.deep_view() =~= legs.update(i as int, leg@));
                        let phase: Phase = next_export(&volume.legs, i + 1);
                        self.set_leg(i, leg, phase);
                    },
                    Err(e) => {
                        let why: String = self.volume.legs[i].node.clone().concat(
                            ": attach: ",
                        ).concat(e.as_str());
                        self.fail(why);
                    },
                }
            },
            (Phase::Open(i), Answer::Uuid(r)) => {
                let mut leg: Leg = self.volume.legs[i].dup();
                assert(leg@ == legs[i as int]);
                match r {
                    Ok(u) => {
                        leg.drive_uuid = Some(u);
                        let phase: Phase = if i + 1 < self.volume.legs.len() {
                            Phase::Open(i + 1)
                        } else {
                            Phase::Mirror
                        };
                        self.set_leg(i, leg, phase);
                    },
                    Err(e) => {
                        let uri: String = match &leg.export {
                            Some(x) => x.drive_uri(),
                            None => String::new(),
                        };
                        self.fail(
                            head.concat(": open ").concat(uri.as_str()).concat(": ").concat(
                                e.as_str(),
                            ),
                        );
                    },
                }
            },
            (Phase::Mirror, Answer::Body(r)) => {
                match r {
                    Ok(array) => {
                        let id: Option<String> = match array.text_at("id") {
                            Some(id) => Some(id.clone()),
                            None => None,
                        };
                        match id {
                            Some(id) => {
                                let volume: DistVolume = mirrored(
                                    &self.volume,
                                    head,
                                    id,
                                    &array,
                                );
                                let next = Assembly {
                                    volume,
                                    engines: self.engines.dup(),
                                    phase: Phase::Done,
                                    error: self.error.dup(),
                                };
                                *self = next;
                            },
                            None => {
                                self.fail(
                                    head.concat(": array response without id: ").concat(
                                        json::write_json(&array).as_str(),
                                    ),
                                );
                            },
                        }
                    },
                    Err(e) => {
                        self.fail(head.concat(": create raid1: ").concat(e.as_str()));
                    },
                }
            },
            _ => {},
        }
    }

    /// How far the assembly has come.
    pub fn phase(&self) -> (r: Phase)
        ensures
            r == self@.phase,
    {
        self.phase
    }

    /// Records what came of the assembly under the volume's name: also of a
    /// failed one what was wired up. Gives back what is to be noted, or why the
    /// assembly failed.
    pub fn commit(self, fed: &mut FedState, name: &str) -> (r: Result<Notice, String>)
        requires
            self@.phase is Done || self@.phase is Failed,
            self@.phase is Done ==> old(fed)@.revision < u64::MAX,
        ensures
            r is Ok <==> self@.phase is Done,
            r matches Ok(n) ==> n@ == self@.notice(),
            r matches Err(e) ==> Some(e@) == self@.error,
            final(fed)@ == (FedStateView {
                revision: if self@.phase is Done {
                    (old(fed)@.revision + 1) as u64
                } else {
                    old(fed)@.revision
                },
                volumes: old(fed)@.volumes.insert(name@, self@.volume),
                ..old(fed)@
            }),
    {
        proof {
            use_type_invariant(&self);
        }
        let r: Result<Notice, String> = match &self.error {
            Some(e) => Err(e.clone()),
            None => {
                let v: &DistVolume = &self.volume;
                let array_id: String = match &v.array_id {
                    Some(id) => id.clone(),
                    None => String::new(),
                };
                let nodes: Vec<String> = nodes_of(&v.legs);
                let message: String = v.name.clone().concat(": RAID1 ").concat(
                    array_id.as_str(),
                ).concat(" on ").concat(v.legs[0].node.as_str()).concat(", ").concat(
                    text::decimal(v.legs.len() as u64).as_str(),
                ).concat(" legs [").concat(text::join(&nodes, ", ").as_str()).concat("]");
                Ok(events::notice(v.name.as_str(), Severity::Info, "assemble", message))
            },
        };
        if r.is_ok() {
            fed.revision = fed.revision + 1;
        }
        fed.volumes.insert(text::owned(name), self.volume.dup());
        r
    }
}

/// The volume once its array is there.
fn mirrored(volume: &DistVolume, head: String, array_id: String, array: &Json) -> (r: DistVolume)
    ensures
        r@ == (DistVolumeView {
            legs: match array@.list_at("members"@) {
                Some(members) => with_members(volume@.legs, members),
                None => volume@.legs,
            },
            head: Some(head@),
            array_id: Some(array_id@),
            assembly: AssemblyState::Assembled,
            ..volume@
        }),
{
    let mut r: DistVolume = volume.dup();
    r.head = Some(head);
    r.array_id = Some(array_id);
    r.assembly = AssemblyState::Assembled;
    if let Some(members) = array.list_at("members") {
        let ghost ms = members.deep_view();
        let mut legs: Vec<Leg> = Vec::new();
        let mut i: usize = 0;
        while i < volume.legs.len()
            invariant
                i <= volume.legs.len(),
                ms == members.deep_view(),
                legs.len() == i,
                forall|j: int|
                    0 <= j < i ==> (#[trigger] legs[j])@ == with_members(volume@.legs, ms)[j],
            decreases volume.legs.len() - i,
        {
            let mut leg: Leg = volume.legs[i].dup();
            assert(leg@ == volume@.legs[i as int]);
            if i < members.len() {
                assert(ms[i as int] == members[i as int]@);
                if let Some(u) = members[i].text_at("uuid") {
                    leg.member_uuid = Some(u.clone());
                }
            }
            legs.push(leg);
            i = i + 1;
        }
        assert(legs.deep_view() =~= with_members(volume@.legs, ms));
        r.legs = legs;
    }
    r
}

/// An errand that may fail without stopping what it belongs to.
#[derive(Debug)]
pub struct Chore {
    pub errand: Errand,
    /// What to blame where it fails; nothing where nobody minds.
    pub blame: Option<String>,
}

/// What a [`Chore`] is.
pub struct ChoreView {
    pub errand: ErrandView,
    pub blame: Option<Seq<char>>,
}

impl View for Chore {
    type V = ChoreView;

    open spec fn view(&self) -> ChoreView {
        ChoreView { errand: self.errand@, blame: self.blame.deep_view() }
    }
}

impl DeepView for Chore {
    type V = ChoreView;

    open spec fn deep_view(&self) -> ChoreView {
        self@
    }
}

/// What is reported of chores, each with why it failed if it did.
pub open spec fn complaints(chores: Seq<ChoreView>, failures: Seq<Option<Seq<char>>>) -> Seq<
    Seq<char>,
>
    decreases chores.len(),
{
    if chores.len() == 0 {
        Seq::empty()
    } else {
        let front = complaints(chores.drop_last(), failures.drop_last());
        match (chores.last().blame, failures.last()) {
            (Some(blame), Some(e)) => front.push(blame + ": "@ + e),
            _ => front,
        }
    }
}

/// What is reported of chores, each with why it failed if it did.
pub fn report(chores: &Vec<Chore>, failures: &Vec<Option<String>>) -> (r: Vec<String>)
    requires
        chores.len() == failures.len(),
    ensures
        r.deep_view() == complaints(chores.deep_view(), failures.deep_view()),
{
    let ghost cs = chores.deep_view();
    let ghost fs = failures.deep_view();
    let mut r: Vec<String> = Vec::new();
    let mut i: usize = 0;
    assert(r.deep_view() =~= complaints(cs.take(0), fs.take(0)));
    while i < chores.len()
        invariant
            i <= chores.len(),
            chores.len() == failures.len(),
            cs == chores.deep_view(),
            fs == failures.deep_view(),
            r.deep_view() == complaints(cs.take(i as int), fs.take(i as int)),
        decreases chores.len() - i,
    {
        let ghost was = r.deep_view();
        assert(cs.take(i + 1).drop_last() =~= cs.take(i as int));
        assert(cs.take(i + 1).last() == chores[i as int]@);
        assert(fs.take(i + 1).drop_last() =~= fs.take(i as int));
        assert(fs.take(i + 1).last() == failures[i as int].deep_view());
        if let Some(blame) = &chores[i].blame {
            if let Some(e) = &failures[i] {
                r.push(blame.clone().concat(": ").concat(e.as_str()));
                assert(r.deep_view() =~= was.push(blame@ + ": "@ + e@));
            }
        }
        i = i + 1;
    }
    assert(cs.take(i as int) =~= cs);
    assert(fs.take(i as int) =~= fs);
    r
}

/// The engine that holds a volume's array, if it is known.
pub open spec fn head_engine(fed: FedStateView, vol: DistVolumeView) -> Option<EngineView> {
    match vol.head {
        Some(h) => if fed.nodes.contains_key(h) {
            Some(api::engine_at(fed.nodes[h]))
        } else {
            None
        },
        None => None,
    }
}

/// Closing the head's drives, leg by leg.
pub open spec fn closings(engine: EngineView, legs: Seq<LegView>) -> Seq<ChoreView>
    decreases legs.len(),
{
    if legs.len() == 0 {
        Seq::empty()
    } else {
        let front = closings(engine, legs.drop_last());
        match legs.last().export {
            Some(x) => front.push(
                ChoreView {
                    errand: ErrandView {
                        engine,
                        task: TaskView::CloseDrive { uri: x.drive_uri() },
                    },
                    blame: Some("head drive "@ + x.drive_uri()),
                },
            ),
            None => front,
        }
    }
}

/// Detaching the exports, leg by leg.
pub open spec fn detachings(fed: FedStateView, legs: Seq<LegView>) -> Seq<ChoreView>
    decreases legs.len(),
{
    if legs.len() == 0 {
        Seq::empty()
    } else {
        let front = detachings(fed, legs.drop_last());
        let leg = legs.last();
        if leg.volume_id is Some && leg.export is Some && fed.nodes.contains_key(leg.node) {
            front.push(
                ChoreView {
                    errand: ErrandView {
                        engine: api::engine_at(fed.nodes[leg.node]),
                        task: TaskView::Detach {
                            volume_id: leg.volume_id->0,
                            master: leg.master(),
                        },
                    },
                    blame: Some(leg.node + " detach"@),
                },
            )
        } else {
            front
        }
    }
}

/// What tearing an assembly down takes: the array, the head's drives, the
/// exports.
pub open spec fn teardown_chores(fed: FedStateView, vol: DistVolumeView) -> Seq<ChoreView> {
    let array = match (head_engine(fed, vol), vol.array_id) {
        (Some(engine), Some(array_id)) => seq![
            ChoreView {
                errand: ErrandView { engine, task: TaskView::DeleteArray { array_id } },
                blame: Some("array "@ + array_id),
            },
        ] + closings(engine, vol.legs),
        _ => Seq::empty(),
    };
    array + detachings(fed, vol.legs)
}

/// Tear down the head-side assembly (array and attached drives) and detach the
/// leg exports: the chores that takes, in order, best-effort. Leg volume
/// deletion stays with the caller.
pub fn teardown(fed: &FedState, vol: &DistVolume) -> (r: Vec<Chore>)
    ensures
        r.deep_view() == teardown_chores(fed@, vol@),
{
    let ghost legs = vol@.legs;
    let mut out: Vec<Chore> = Vec::new();
    let head: Option<Engine> = match &vol.head {
        Some(h) => match fed.nodes.get(h.as_str()) {
            Some(n) => Some(api::engine_for(n)),
            None => None,
        },
        None => None,
    };
    assert(out.deep_view() =~= Seq::<ChoreView>::empty());
    if let Some(engine) = head {
        if let Some(array_id) = &vol.array_id {
            out.push(
                Chore {
                    errand: Errand {
                        engine: engine.dup(),
                        task: Task::DeleteArray { array_id: array_id.clone() },
                    },
                    blame: Some(text::owned("array ").concat(array_id.as_str())),
                },
            );
            let ghost first = out.deep_view();
            assert(first =~= seq![
                ChoreView {
                    errand: ErrandView {
                        engine: engine@,
                        task: TaskView::DeleteArray { array_id: array_id@ },
                    },
                    blame: Some("array "@ + array_id@),
                },
            ]);
            let mut i: usize = 0;
            assert(first + closings(engine@, legs.take(0)) =~= first);
            while i < vol.legs.len()
                invariant
                    i <= vol.legs.len(),
                    legs == vol@.legs,
                    out.deep_view() == first + closings(engine@, legs.take(i as int)),
                decreases vol.legs.len() - i,
            {
                let ghost was = out.deep_view();
                let leg: &Leg = &vol.legs[i];
                assert(legs.take(i + 1).drop_last() =~= legs.take(i as int));
                assert(legs.take(i + 1).last() == leg@);
                if let Some(x) = &leg.export {
                    let uri: String = x.drive_uri();
                    let blame: String = text::owned("head drive ").concat(uri.as_str());
                    out.push(
                        Chore {
                            errand: Errand {
                                engine: engine.dup(),
                                task: Task::CloseDrive { uri },
                            },
                            blame: Some(blame),
                        },
                    );
                    assert(out.deep_view() =~= was.push(out.deep_view().last()));
                    assert(out.deep_view() =~= first + closings(engine@, legs.take(i + 1)));
                }
                i = i + 1;
            }
            assert(legs.take(i as int) =~= legs);
        }
    }
    let ghost before = out.deep_view();
    let mut i: usize = 0;
    assert(before + detachings(fed@, legs.take(0)) =~= before);
    while i < vol.legs.len()
        invariant
            i <= vol.legs.len(),
            legs == vol@.legs,
            out.deep_view() == before + detachings(fed@, legs.take(i as int)),
        decreases vol.legs.len() - i,
    {
        let ghost was = out.deep_view();
        let leg: &Leg = &vol.legs[i];
        assert(legs.take(i + 1).drop_last() =~= legs.take(i as int));
        assert(legs.take(i + 1).last() == leg@);
        if leg.export.is_some() {
            if let Some(id) = &leg.volume_id {
                if let Some(n) = fed.nodes.get(leg.node.as_str()) {
                    out.push(
                        Chore {
                            errand: Errand {
                                engine: api::engine_for(n),
                                task: Task::Detach {
                                    volume_id: id.clone(),
                                    master: master_of(leg),
                                },
                            },
                            blame: Some(leg.node.clone().concat(" detach")),
                        },
                    );
                    assert(out.deep_view() =~= was.push(out.deep_view().last()));
                    assert(out.deep_view() =~= before + detachings(fed@, legs.take(i + 1)));
                }
            }
        }
        i = i + 1;
    }
    assert(legs.take(i as int) =~= legs);
    out
}

/// Whether a leg of the volume stays where the one on `from` leaves.
pub open spec fn staying(leg: LegView, from: Seq<char>) -> bool {
    leg.node != from
}

/// A node as a place for a leg.
pub open spec fn candidate_of(node: NodeView) -> CandidateView {
    CandidateView {
        name: node.config.name,
        labels: node.labels(),
        free_bytes: node.status.free_bytes,
        total_bytes: node.status.total_bytes,
    }
}

/// A node as a place for a leg.
pub fn candidate(node: &Node) -> (r: Candidate)
    ensures
        r@ == candidate_of(node@),
{
    Candidate {
        name: node.config.name.clone(),
        labels: node.labels(),
        free_bytes: node.status.free_bytes,
        total_bytes: node.status.total_bytes,
    }
}

/// Whether a moved leg may go to the node: it is healthy, carries no leg yet,
/// and is in another failure domain than every staying leg.
pub open spec fn may_move_to(
    fed: FedStateView,
    rungs: Seq<Seq<char>>,
    vol: DistVolumeView,
    from: Seq<char>,
    node: NodeView,
) -> bool {
    &&& node.status.healthy
    &&& forall|i: int|
        0 <= i < vol.legs.len() ==> (#[trigger] vol.legs[i]).node != node.config.name
    &&& forall|i: int|
        0 <= i < vol.legs.len() && staying(#[trigger] vol.legs[i], from) && fed.nodes.contains_key(
            vol.legs[i].node,
        ) ==> placement::domain(fed.nodes[vol.legs[i].node].labels(), rungs, vol.rung)
            != placement::domain(node.labels(), rungs, vol.rung)
}

/// Where a moved leg may go, of these nodes.
pub open spec fn move_targets(
    fed: FedStateView,
    rungs: Seq<Seq<char>>,
    vol: DistVolumeView,
    from: Seq<char>,
    nodes: Seq<NodeView>,
) -> Seq<CandidateView>
    decreases nodes.len(),
{
    if nodes.len() == 0 {
        Seq::empty()
    } else {
        let front = move_targets(fed, rungs, vol, from, nodes.drop_last());
        if may_move_to(fed, rungs, vol, from, nodes.last()) {
            front.push(candidate_of(nodes.last()))
        } else {
            front
        }
    }
}

/// The domains of the staying legs.
fn staying_domains(fed: &FedState, rungs: &[String], vol: &DistVolume, from: &str) -> (r: Vec<
    String,
>)
    ensures
        forall|d: Seq<char>| #[trigger]
            r.deep_view().contains(d) <==> exists|i: int|
                0 <= i < vol@.legs.len() && staying(#[trigger] vol@.legs[i], from@)
                    && fed@.nodes.contains_key(vol@.legs[i].node) && placement::domain(
                    fed@.nodes[vol@.legs[i].node].labels(),
                    rungs.deep_view(),
                    vol@.rung,
                ) == d,
{
    let mut r: Vec<String> = Vec::new();
    let mut i: usize = 0;
    while i < vol.legs.len()
        invariant
            i <= vol.legs.len(),
            forall|d: Seq<char>| #[trigger]
                r.deep_view().contains(d) <==> exists|j: int|
                    0 <= j < i && staying(#[trigger] vol@.legs[j], from@)
                        && fed@.nodes.contains_key(vol@.legs[j].node) && placement::domain(
                        fed@.nodes[vol@.legs[j].node].labels(),
                        rungs.deep_view(),
                        vol@.rung,
                    ) == d,
        decreases vol.legs.len() - i,
    {
        let leg: &Leg = &vol.legs[i];
        let ghost was = r.deep_view();
        assert(vol@.legs[i as int] == leg@);
        if !text::same(leg.node.as_str(), from) {
            if let Some(n) = fed.nodes.get(leg.node.as_str()) {
                r.push(placement::domain_at(&n.labels(), rungs, vol.rung.as_str()));
                assert(r.deep_view() =~= was.push(r.deep_view().last()));
            }
        }
        proof {
            assert forall|d: Seq<char>| #[trigger]
                r.deep_view().contains(d) <==> exists|j: int|
                    0 <= j < i + 1 && staying(#[trigger] vol@.legs[j], from@)
                        && fed@.nodes.contains_key(vol@.legs[j].node) && placement::domain(
                        fed@.nodes[vol@.legs[j].node].labels(),
                        rungs.deep_view(),
                        vol@.rung,
                    ) == d by {
                if was.contains(d) {
                    let p = was.index_of(d);
                    assert(r.deep_view()[p] == d);
                    let j = choose|j: int|
                        0 <= j < i && staying(#[trigger] vol@.legs[j], from@)
                            && fed@.nodes.contains_key(vol@.legs[j].node) && placement::domain(
                            fed@.nodes[vol@.legs[j].node].labels(),
                            rungs.deep_view(),
                            vol@.rung,
                        ) == d;
                    assert(staying(vol@.legs[j], from@));
                }
                if r.deep_view().contains(d) && !was.contains(d) {
                    let p = r.deep_view().index_of(d);
                    assert(p == was.len());
                    assert(staying(vol@.legs[i as int], from@));
                }
                if exists|j: int|
                    0 <= j < i + 1 && staying(#[trigger] vol@.legs[j], from@)
                        && fed@.nodes.contains_key(vol@.legs[j].node) && placement::domain(
                        fed@.nodes[vol@.legs[j].node].labels(),
                        rungs.deep_view(),
                        vol@.rung,
                    ) == d {
                    let j = choose|j: int|
                        0 <= j < i + 1 && staying(#[trigger] vol@.legs[j], from@)
                            && fed@.nodes.contains_key(vol@.legs[j].node) && placement::domain(
                            fed@.nodes[vol@.legs[j].node].labels(),
                            rungs.deep_view(),
                            vol@.rung,
                        ) == d;
                    if j < i {
                        assert(was.contains(d));
                    } else {
                        assert(r.deep_view()[was.len() as int] == d);
                    }
                }
            }
        }
        i = i + 1;
    }
    r
}

/// Whether the volume has a leg on the node.
pub open spec fn has_leg_on(legs: Seq<LegView>, node: Seq<char>) -> bool {
    exists|i: int| 0 <= i < legs.len() && (#[trigger] legs[i]).node == node
}

/// Whether the volume has a leg on the node.
pub fn leg_on(legs: &Vec<Leg>, node: &str) -> (r: bool)
    ensures
        r == has_leg_on(legs.deep_view(), node@),
{
    let mut i: usize = 0;
    while i < legs.len()
        invariant
            i <= legs.len(),
            forall|j: int| 0 <= j < i ==> (#[trigger] legs.deep_view()[j]).node != node@,
        decreases legs.len() - i,
    {
        assert(legs.deep_view()[i as int] == legs[i as int]@);
        if text::same(legs[i].node.as_str(), node) {
            assert(legs.deep_view()[i as int].node == node@);
            return true;
        }
        i = i + 1;
    }
    false
}

/// Where a moved leg may go: healthy, not already carrying a leg, and in a
/// distinct failure domain from every staying leg at the volume's rung.
pub fn move_target_candidates(
    fed: &FedState,
    rungs: &[String],
    vol: &DistVolume,
    from: &str,
) -> (r: Vec<Candidate>)
    ensures
        r.deep_view() == move_targets(
            fed@,
            rungs.deep_view(),
            vol@,
            from@,
            names::in_order(fed@.nodes),
        ),
{
    let domains: Vec<String> = staying_domains(fed, rungs, vol, from);
    let ghost all = names::in_order(fed@.nodes);
    let ghost rs = rungs.deep_view();
    let n: usize = fed.nodes.len();
    let mut r: Vec<Candidate> = Vec::new();
    let mut i: usize = 0;
    assert(r.deep_view() =~= move_targets(fed@, rs, vol@, from@, all.take(0)));
    while i < n
        invariant
            i <= n,
            n == fed.nodes.keys().len(),
            all == names::in_order(fed@.nodes),
            rs == rungs.deep_view(),
            forall|d: Seq<char>| #[trigger]
                domains.deep_view().contains(d) <==> exists|j: int|
                    0 <= j < vol@.legs.len() && staying(#[trigger] vol@.legs[j], from@)
                        && fed@.nodes.contains_key(vol@.legs[j].node) && placement::domain(
                        fed@.nodes[vol@.legs[j].node].labels(),
                        rs,
                        vol@.rung,
                    ) == d,
            r.deep_view() == move_targets(fed@, rs, vol@, from@, all.take(i as int)),
        decreases n - i,
    {
        let node: &Node = fed.nodes.value_at(i);
        let ghost was = r.deep_view();
        assert(all.take(i + 1).drop_last() =~= all.take(i as int));
        assert(all.take(i + 1).last() == node@);
        let d: String = placement::domain_at(&node.labels(), rungs, vol.rung.as_str());
        let collides: bool = text::listed(domains.as_slice(), d.as_str());
        let carries: bool = leg_on(&vol.legs, node.config.name.as_str());
        proof {
            if !collides {
                assert forall|j: int|
                    0 <= j < vol@.legs.len() && staying(#[trigger] vol@.legs[j], from@)
                        && fed@.nodes.contains_key(vol@.legs[j].node) implies placement::domain(
                    fed@.nodes[vol@.legs[j].node].labels(),
                    rs,
                    vol@.rung,
                ) != placement::domain(node@.labels(), rs, vol@.rung) by {
                    assert(!domains.deep_view().contains(d@));
                }
            } else {
                assert(domains.deep_view().contains(d@));
            }
        }
        if node.status.healthy && !carries && !collides {
            r.push(candidate(node));
            assert(r.deep_view() =~= was.push(candidate_of(node@)));
        }
        i = i + 1;
    }
    assert(all.take(i as int) =~= all);
    r
}

/// Every target for a moved leg is a healthy node that carries none of the
/// volume's legs and shares no failure domain with a leg that stays.
pub proof fn move_targets_keep_spread(
    fed: FedStateView,
    rungs: Seq<Seq<char>>,
    vol: DistVolumeView,
    from: Seq<char>,
    nodes: Seq<NodeView>,
    k: int,
)
    requires
        0 <= k < move_targets(fed, rungs, vol, from, nodes).len(),
    ensures
        exists|n: int|
            0 <= n < nodes.len() && candidate_of(#[trigger] nodes[n]) == move_targets(
                fed,
                rungs,
                vol,
                from,
                nodes,
            )[k] && may_move_to(fed, rungs, vol, from, nodes[n]),
    decreases nodes.len(),
{
    let front = nodes.drop_last();
    let before = move_targets(fed, rungs, vol, from, front);
    if k < before.len() {
        move_targets_keep_spread(fed, rungs, vol, from, front, k);
        let n = choose|n: int|
            0 <= n < front.len() && candidate_of(#[trigger] front[n]) == before[k] && may_move_to(
                fed,
                rungs,
                vol,
                from,
                front[n],
            );
        assert(nodes[n] == front[n]);
    } else {
        assert(nodes[nodes.len() - 1] == nodes.last());
    }
}

/// Where the leg on `from` is to go: to the node that was asked for, or else to
/// the best of those it may go to; or why it cannot move.
pub open spec fn move_target(
    fed: FedStateView,
    rungs: Seq<Seq<char>>,
    vol: DistVolumeView,
    from: Seq<char>,
    to: Option<Seq<char>>,
) -> Result<Seq<char>, Seq<char>> {
    match to {
        Some(t) => if !fed.nodes.contains_key(t) {
            Err("target node "@ + text::quoted_text(t) + " not in registry"@)
        } else if !fed.nodes[t].status.healthy {
            Err("target node "@ + text::quoted_text(t) + " is unhealthy"@)
        } else {
            Ok(t)
        },
        None => {
            let q = Question { rungs, rung: vol.rung, replicas: 1, size_bytes: vol.size_bytes };
            match q.answer(move_targets(fed, rungs, vol, from, names::in_order(fed.nodes))) {
                Ok(legs) => Ok(legs[0]),
                Err(e) => Err("no move target: "@ + e),
            }
        },
    }
}

/// Where the leg on `from` is to go, or why it cannot move.
pub fn choose_target(
    fed: &FedState,
    rungs: &[String],
    vol: &DistVolume,
    from: &str,
    to: Option<String>,
) -> (r: Result<String, String>)
    ensures
        match r {
            Ok(t) => move_target(fed@, rungs.deep_view(), vol@, from@, to.deep_view()) == Ok::<
                Seq<char>,
                Seq<char>,
            >(t@),
            Err(e) => move_target(fed@, rungs.deep_view(), vol@, from@, to.deep_view()) == Err::<
                Seq<char>,
                Seq<char>,
            >(e@),
        },
{
    match to {
        Some(t) => match fed.nodes.get(t.as_str()) {
            Some(n) => if n.status.healthy {
                Ok(t)
            } else {
                Err(
                    text::owned("target node ").concat(text::quoted(t.as_str()).as_str()).concat(
                        " is unhealthy",
                    ),
                )
            },
            None => Err(
                text::owned("target node ").concat(text::quoted(t.as_str()).as_str()).concat(
                    " not in registry",
                ),
            ),
        },
        None => {
            let candidates: Vec<Candidate> = move_target_candidates(fed, rungs, vol, from);
            match placement::plan(
                candidates.as_slice(),
                rungs,
                vol.rung.as_str(),
                1,
                vol.size_bytes,
            ) {
                Ok(legs) => {
                    assert(legs.deep_view().len() == 1);
                    Ok(legs[0].clone())
                },
                Err(e) => Err(text::owned("no move target: ").concat(e.as_str())),
            }
        },
    }
}

/// A target that is chosen for a moved leg is a known node with room for it,
/// healthy, without a leg of the volume, and in a failure domain of its own.
pub proof fn chosen_target_keeps_spread(
    fed: FedStateView,
    rungs: Seq<Seq<char>>,
    vol: DistVolumeView,
    from: Seq<char>,
    target: Seq<char>,
)
    requires
        fed.nodes.dom().finite(),
        model::keyed(fed.nodes),
        move_target(fed, rungs, vol, from, None) == Ok::<Seq<char>, Seq<char>>(target),
    ensures
        fed.nodes.contains_key(target),
        may_move_to(fed, rungs, vol, from, fed.nodes[target]),
        fed.nodes[target].status.free_bytes >= vol.size_bytes,
{
    let nodes = names::in_order(fed.nodes);
    let targets = move_targets(fed, rungs, vol, from, nodes);
    let q = Question { rungs, rung: vol.rung, replicas: 1, size_bytes: vol.size_bytes };
    let legs = q.answer(targets)->Ok_0;
    q.legs_have_room(targets, legs, 0);
    let k = q.ranking(targets)[0];
    move_targets_keep_spread(fed, rungs, vol, from, nodes, k);
    let n = choose|n: int|
        0 <= n < nodes.len() && candidate_of(#[trigger] nodes[n]) == targets[k] && may_move_to(
            fed,
            rungs,
            vol,
            from,
            nodes[n],
        );
    names::sorted_holds(fed.nodes.dom());
    let keys = names::sorted(fed.nodes.dom());
    assert(keys.to_set().contains(keys[n]));
    assert(fed.nodes.contains_key(keys[n]));
}

/// The first leg on the node, at or after `i`.
pub open spec fn first_on(legs: Seq<LegView>, node: Seq<char>, i: int) -> Option<int>
    decreases legs.len() - i,
{
    if i < 0 || i >= legs.len() {
        None
    } else if legs[i].node == node {
        Some(i)
    } else {
        first_on(legs, node, i + 1)
    }
}

fn position_of(legs: &Vec<Leg>, node: &str) -> (r: Option<usize>)
    ensures
        match r {
            Some(i) => first_on(legs.deep_view(), node@, 0) == Some(i as int) && i < legs.len(),
            None => first_on(legs.deep_view(), node@, 0) is None,
        },
{
    let mut i: usize = 0;
    while i < legs.len()
        invariant
            i <= legs.len(),
            first_on(legs.deep_view(), node@, 0) == first_on(legs.deep_view(), node@, i as int),
        decreases legs.len() - i,
    {
        assert(legs.deep_view()[i as int] == legs[i as int]@);
        if text::same(legs[i].node.as_str(), node) {
            return Some(i);
        }
        i = i + 1;
    }
    None
}

/// How far a leg move has come.
#[derive(Debug, Clone, Copy, PartialEq, Eq, Structural)]
pub enum MovePhase {
    /// The new leg's volume is to be created on the target.
    Create,
    /// The new leg is to be exported.
    Attach,
    /// The head is to open the new leg as a drive.
    Open,
    /// The head is to take the drive as a member of the array.
    Join,
    /// The array is rebuilding onto the new leg.
    Rebuild,
    /// The new leg is an active member: the old one can go.
    Active,
    /// The rebuild came to nothing: the old leg is kept.
    Stalled,
    /// The new leg could not be built.
    Failed,
}

/// The move of a leg to another node, as far as it has come.
#[derive(Debug)]
pub struct LegMove {
    name: String,
    volume_name: String,
    size_bytes: u64,
    from: String,
    head: String,
    array_id: String,
    target_engine: Engine,
    head_engine: Engine,
    old_leg: Leg,
    new_leg: Leg,
    phase: MovePhase,
    error: Option<String>,
}

/// What a [`LegMove`] holds.
#[verifier::ext_equal]
pub struct LegMoveView {
    /// The name that the volume is kept under.
    pub name: Seq<char>,
    pub volume_name: Seq<char>,
    pub size_bytes: u64,
    /// The node that the leg leaves.
    pub from: Seq<char>,
    pub head: Seq<char>,
    pub array_id: Seq<char>,
    pub target_engine: EngineView,
    pub head_engine: EngineView,
    pub old_leg: LegView,
    /// The new leg, on the target, with what is built of it so far.
    pub new_leg: LegView,
    pub phase: MovePhase,
    /// Why the new leg could not be built, if it could not.
    pub error: Option<Seq<char>>,
}

impl View for LegMove {
    type V = LegMoveView;

    closed spec fn view(&self) -> LegMoveView {
        LegMoveView {
            name: self.name@,
            volume_name: self.volume_name@,
            size_bytes: self.size_bytes,
            from: self.from@,
            head: self.head@,
            array_id: self.array_id@,
            target_engine: self.target_engine@,
            head_engine: self.head_engine@,
            old_leg: self.old_leg@,
            new_leg: self.new_leg@,
            phase: self.phase,
            error: self.error.deep_view(),
        }
    }
}

/// Whether a volume that is assembled says where its array is.
pub open spec fn wired(vol: DistVolumeView) -> bool {
    vol.assembly == AssemblyState::Assembled ==> vol.head is Some && vol.array_id is Some
}

/// Whether a volume that is assembled says where its array is.
pub fn is_wired(vol: &DistVolume) -> (r: bool)
    ensures
        r == wired(vol@),
{
    vol.assembly != AssemblyState::Assembled || (vol.head.is_some() && vol.array_id.is_some())
}

/// Whether there is a leg on `from` to move: the volume is there, it is
/// assembled, and it has one.
pub open spec fn movable(fed: FedStateView, name: Seq<char>, from: Seq<char>) -> bool {
    &&& fed.volumes.contains_key(name)
    &&& fed.volumes[name].assembly == AssemblyState::Assembled
    &&& has_leg_on(fed.volumes[name].legs, from)
}

/// A leg at its start: nothing of it exists yet.
pub open spec fn unbuilt_leg(node: Seq<char>) -> LegView {
    LegView {
        node,
        volume_id: None,
        state: LegState::Created,
        message: Some("rebuilding"@),
        master_node: None,
        export: None,
        drive_uuid: None,
        member_uuid: None,
    }
}

impl LegMoveView {
    /// Where the leg goes.
    pub open spec fn target(self) -> Seq<char> {
        self.new_leg.node
    }

    /// What holds of every move: the old leg is on the node it leaves, and of
    /// the new one is there what the phase says.
    pub open spec fn sound(self) -> bool {
        let leg = self.new_leg;
        let at_attach = leg.volume_id is Some && leg.master_node is Some;
        let at_open = at_attach && leg.export is Some;
        let at_join = at_open && leg.drive_uuid is Some;
        &&& self.old_leg.node == self.from
        &&& leg.state == LegState::Created
        &&& self.phase is Failed <==> self.error is Some
        &&& match self.phase {
            MovePhase::Attach => at_attach,
            MovePhase::Open => at_open,
            MovePhase::Join => at_join,
            MovePhase::Rebuild | MovePhase::Active | MovePhase::Stalled => at_join
                && leg.member_uuid is Some,
            _ => true,
        }
    }

    /// Why a leg cannot be moved at all, whichever the target.
    pub open spec fn refusal(
        fed: FedStateView,
        name: Seq<char>,
        from: Seq<char>,
    ) -> Option<Seq<char>> {
        let vol = fed.volumes[name];
        if !fed.volumes.contains_key(name) {
            Some("volume "@ + text::quoted_text(name) + " not found"@)
        } else if vol.assembly != AssemblyState::Assembled {
            Some(name + ": not assembled — only assembled volumes move legs"@)
        } else if first_on(vol.legs, from, 0) is None {
            Some(name + ": no leg on "@ + text::quoted_text(from))
        } else {
            None
        }
    }

    /// The move of the leg on `from` at its start, or why it cannot move.
    pub open spec fn begin(
        fed: FedStateView,
        rungs: Seq<Seq<char>>,
        name: Seq<char>,
        from: Seq<char>,
        to: Option<Seq<char>>,
    ) -> Result<Self, Seq<char>> {
        let vol = fed.volumes[name];
        match Self::refusal(fed, name, from) {
            Some(e) => Err(e),
            None => match move_target(fed, rungs, vol, from, to) {
                Err(e) => Err(e),
                Ok(target) => if !fed.nodes.contains_key(target) {
                    Err(unknown_node(target))
                } else if !fed.nodes.contains_key(vol.head->0) {
                    Err(unknown_node(vol.head->0))
                } else {
                    Ok(
                        LegMoveView {
                            name,
                            volume_name: vol.name,
                            size_bytes: vol.size_bytes,
                            from,
                            head: vol.head->0,
                            array_id: vol.array_id->0,
                            target_engine: api::engine_at(fed.nodes[target]),
                            head_engine: api::engine_at(fed.nodes[vol.head->0]),
                            old_leg: vol.legs[first_on(vol.legs, from, 0)->0],
                            new_leg: unbuilt_leg(target),
                            phase: MovePhase::Create,
                            error: None,
                        },
                    )
                },
            },
        }
    }

    /// What to ask next; nothing once the array is rebuilding or the move has
    /// failed.
    pub open spec fn errand(self) -> Option<ErrandView> {
        let leg = self.new_leg;
        match self.phase {
            MovePhase::Create => Some(
                ErrandView {
                    engine: self.target_engine,
                    task: TaskView::CreateVolume {
                        name: self.volume_name,
                        size_bytes: self.size_bytes,
                    },
                },
            ),
            MovePhase::Attach => Some(
                ErrandView {
                    engine: self.target_engine,
                    task: TaskView::Attach {
                        volume_id: leg.volume_id->0,
                        master: leg.master_node->0,
                    },
                },
            ),
            MovePhase::Open => Some(
                ErrandView {
                    engine: self.head_engine,
                    task: TaskView::OpenDrive { uri: (leg.export->0).drive_uri() },
                },
            ),
            MovePhase::Join => Some(
                ErrandView {
                    engine: self.head_engine,
                    task: TaskView::AddMember {
                        array_id: self.array_id,
                        drive_uuid: leg.drive_uuid->0,
                    },
                },
            ),
            _ => None,
        }
    }

    pub open spec fn with(self, leg: LegView, phase: MovePhase) -> Self {
        LegMoveView { new_leg: leg, phase, ..self }
    }

    pub open spec fn failed(self, why: Seq<char>) -> Self {
        LegMoveView { phase: MovePhase::Failed, error: Some(why), ..self }
    }

    /// The move after an answer. An answer to something that was not asked
    /// changes nothing.
    pub open spec fn after(self, answer: AnswerView) -> Self {
        let leg = self.new_leg;
        match (self.phase, answer) {
            (MovePhase::Create, AnswerView::Body(r)) => match r {
                Ok(v) => match v.text_at("id"@) {
                    Some(id) => self.with(
                        LegView {
                            volume_id: Some(id),
                            master_node: match engine::master_node(v) {
                                Some(m) => Some(m),
                                None => Some("localhost"@),
                            },
                            ..leg
                        },
                        MovePhase::Attach,
                    ),
                    None => self.failed(self.target() + ": create returned no id"@),
                },
                Err(e) => self.failed(self.target() + ": create leg: "@ + e),
            },
            (MovePhase::Attach, AnswerView::Attached(r)) => match r {
                Ok(a) => self.with(LegView { export: Some(a), ..leg }, MovePhase::Open),
                Err(e) => self.failed(self.target() + ": attach: "@ + e),
            },
            (MovePhase::Open, AnswerView::Uuid(r)) => match r {
                Ok(u) => self.with(LegView { drive_uuid: Some(u), ..leg }, MovePhase::Join),
                Err(e) => self.failed(self.head + ": open leg drive: "@ + e),
            },
            (MovePhase::Join, AnswerView::Uuid(r)) => match r {
                Ok(u) => self.with(LegView { member_uuid: Some(u), ..leg }, MovePhase::Rebuild),
                Err(e) => self.failed(self.head + ": add member: "@ + e),
            },
            _ => self,
        }
    }

    /// The move after a look at the head's array, where `expired` says whether
    /// the time for the rebuild is over and the look may have failed. Once
    /// there is a verdict, and before the array rebuilds, a look changes
    /// nothing.
    pub open spec fn looked(self, expired: bool, array: Option<JsonView>) -> Self {
        if self.phase is Rebuild {
            match verdict(expired, array, self.new_leg.member_uuid->0) {
                Some(true) => LegMoveView { phase: MovePhase::Active, ..self },
                Some(false) => LegMoveView { phase: MovePhase::Stalled, ..self },
                None => self,
            }
        } else {
            self
        }
    }

    /// The move after each of these looks in turn.
    pub open spec fn watched(self, looks: Seq<(bool, Option<JsonView>)>) -> Self
        decreases looks.len(),
    {
        if looks.len() == 0 {
            self
        } else {
            self.watched(looks.drop_last()).looked(looks.last().0, looks.last().1)
        }
    }

    /// What is noted of the move.
    pub open spec fn notice(self, severity: Severity, message: Seq<char>) -> NoticeView {
        NoticeView { subject: Some(self.name), severity, kind: "assemble"@, message }
    }

    /// What is noted once the rebuild has started.
    pub open spec fn started(self) -> NoticeView {
        self.notice(
            Severity::Info,
            self.name + ": moving leg "@ + self.from + " → "@ + self.target()
                + "; rebuild started on "@ + self.head,
        )
    }

    /// What is noted where the rebuild came to nothing.
    pub open spec fn stalled(self) -> NoticeView {
        self.notice(
            Severity::Error,
            self.name + ": rebuild of new leg on "@ + self.target()
                + " did not reach active — old leg on "@ + self.from + " kept"@,
        )
    }

    /// What is noted once the old leg is retired, with what went wrong there.
    pub open spec fn completed(self, problems: Seq<Seq<char>>) -> NoticeView {
        let done = self.name + ": leg move "@ + self.from + " → "@ + self.target() + " complete"@;
        if problems.len() == 0 {
            self.notice(Severity::Info, done)
        } else {
            self.notice(
                Severity::Warning,
                done + "; cleanup issues: "@ + text::joined(problems, "; "@),
            )
        }
    }

    /// What is noted at the end of the move.
    pub open spec fn conclusion(self, problems: Seq<Seq<char>>) -> NoticeView {
        if self.phase is Active {
            self.completed(problems)
        } else {
            self.stalled()
        }
    }

    /// What is asked at the end of the move: retiring the old leg, once the new
    /// one is active; until then, and where it does not become active, nothing.
    pub open spec fn retirement(self, fed: FedStateView) -> Seq<ChoreView> {
        if self.phase is Active {
            self.retiring(fed)
        } else {
            Seq::empty()
        }
    }

    /// What retiring the old leg takes: its member out, its drive closed on the
    /// head, its volume gone from its node, as far as each is known.
    pub open spec fn retiring(self, fed: FedStateView) -> Seq<ChoreView> {
        let leg = self.old_leg;
        let member = match leg.member_uuid {
            Some(m) => seq![
                ChoreView {
                    errand: ErrandView {
                        engine: self.head_engine,
                        task: TaskView::RemoveMember { array_id: self.array_id, member_uuid: m },
                    },
                    blame: Some("remove member"@),
                },
            ],
            None => Seq::empty(),
        };
        let drive = match leg.export {
            Some(x) => seq![
                ChoreView {
                    errand: ErrandView {
                        engine: self.head_engine,
                        task: TaskView::CloseDrive { uri: x.drive_uri() },
                    },
                    blame: Some("head drive"@),
                },
            ],
            None => Seq::empty(),
        };
        let volume = if fed.nodes.contains_key(self.from) && leg.volume_id is Some {
            let engine = api::engine_at(fed.nodes[self.from]);
            seq![
                ChoreView {
                    errand: ErrandView {
                        engine,
                        task: TaskView::Detach {
                            volume_id: leg.volume_id->0,
                            master: leg.master(),
                        },
                    },
                    blame: None,
                },
                ChoreView {
                    errand: ErrandView {
                        engine,
                        task: TaskView::DeleteVolume { volume_id: leg.volume_id->0 },
                    },
                    blame: Some(self.from + " delete volume"@),
                },
            ]
        } else {
            Seq::empty()
        };
        member + drive + volume
    }

    /// The new leg as it is recorded once it is rebuilt.
    pub open spec fn settled_leg(self) -> LegView {
        LegView { message: None, ..self.new_leg }
    }
}

/// The legs with the first one on `from` replaced.
pub open spec fn swapped(legs: Seq<LegView>, from: Seq<char>, leg: LegView) -> Seq<LegView> {
    match first_on(legs, from, 0) {
        Some(i) => legs.update(i, leg),
        None => legs,
    }
}

/// The state at the end of the move: with the new leg in the old one's place
/// where it is active, and as it was where it is not.
pub open spec fn moved(fed: FedStateView, mv: LegMoveView) -> FedStateView {
    if mv.phase is Active {
        FedStateView {
            revision: (fed.revision + 1) as u64,
            volumes: if fed.volumes.contains_key(mv.name) {
                fed.volumes.insert(
                    mv.name,
                    DistVolumeView {
                        legs: swapped(fed.volumes[mv.name].legs, mv.from, mv.settled_leg()),
                        ..fed.volumes[mv.name]
                    },
                )
            } else {
                fed.volumes
            },
            ..fed
        }
    } else {
        fed
    }
}

/// The leg that is found is the first on the node, and where none is found
/// there is none.
pub proof fn first_on_is_first(legs: Seq<LegView>, node: Seq<char>, i: int)
    requires
        0 <= i <= legs.len(),
    ensures
        match first_on(legs, node, i) {
            Some(k) => i <= k < legs.len() && legs[k].node == node && forall|j: int|
                i <= j < k ==> (#[trigger] legs[j]).node != node,
            None => forall|j: int| i <= j < legs.len() ==> (#[trigger] legs[j]).node != node,
        },
    decreases legs.len() - i,
{
    if i < legs.len() && legs[i].node != node {
        first_on_is_first(legs, node, i + 1);
    }
}

/// A move starts sound.
pub proof fn move_begin_is_sound(
    fed: FedStateView,
    rungs: Seq<Seq<char>>,
    name: Seq<char>,
    from: Seq<char>,
    to: Option<Seq<char>>,
)
    ensures
        LegMoveView::begin(fed, rungs, name, from, to) matches Ok(m) ==> m.sound(),
{
    first_on_is_first(fed.volumes[name].legs, from, 0);
}

/// A move stays sound whatever is answered, and keeps which leg moves from
/// where to where. No answer makes the new leg active.
pub proof fn move_answer_keeps_sound(m: LegMoveView, answer: AnswerView)
    requires
        m.sound(),
    ensures
        m.after(answer).sound(),
        m.after(answer).old_leg == m.old_leg,
        m.after(answer).from == m.from,
        m.after(answer).target() == m.target(),
        m.after(answer).phase is Active ==> m.phase is Active,
        m.after(answer).phase is Stalled ==> m.phase is Stalled,
{
}

/// A move stays sound whatever is seen of the rebuild, and what is built stays
/// as it is. It becomes active only by a look, in time, that shows the new
/// member active in the head's array.
pub proof fn look_keeps_sound(m: LegMoveView, expired: bool, array: Option<JsonView>)
    requires
        m.sound(),
    ensures
        m.looked(expired, array).sound(),
        m.looked(expired, array) == (LegMoveView { phase: m.looked(expired, array).phase, ..m }),
        m.looked(expired, array).phase is Active && !(m.phase is Active) ==> m.phase is Rebuild
            && !expired && array is Some && member_progress(
            array->0,
            m.new_leg.member_uuid->0,
        ) == Rebuild::Active,
{
}

/// Once there is a verdict on the rebuild it stands, whatever is answered or
/// seen after it.
pub proof fn verdict_stands(
    m: LegMoveView,
    answer: AnswerView,
    expired: bool,
    array: Option<JsonView>,
)
    requires
        m.phase is Active || m.phase is Stalled,
    ensures
        m.after(answer) == m,
        m.looked(expired, array) == m,
{
}

/// The old leg goes only once the new one is active: before that, and where it
/// never is, no engine is asked to take anything away, and neither the records
/// nor the revision change.
pub proof fn old_leg_stays_until_active(m: LegMoveView, fed: FedStateView)
    requires
        !(m.phase is Active),
    ensures
        m.retirement(fed) == Seq::<ChoreView>::empty(),
        moved(fed, m) == fed,
{
}

/// Where the new member fails, or is never seen active while there is time, the
/// old leg is kept, with its record and the revision; all that is left to do is
/// to note an error that says so.
pub proof fn stalled_move_keeps_old_leg(
    m: LegMoveView,
    looks: Seq<(bool, Option<JsonView>)>,
    fed: FedStateView,
    problems: Seq<Seq<char>>,
    k: int,
)
    requires
        m.phase is Rebuild,
        forall|i: int|
            0 <= i < looks.len() ==> verdict(
                (#[trigger] looks[i]).0,
                looks[i].1,
                m.new_leg.member_uuid->0,
            ) != Some(true),
        0 <= k < looks.len(),
        verdict(looks[k].0, looks[k].1, m.new_leg.member_uuid->0) == Some(false),
    ensures
        m.watched(looks) == (LegMoveView { phase: MovePhase::Stalled, ..m }),
        m.watched(looks).retirement(fed) == Seq::<ChoreView>::empty(),
        moved(fed, m.watched(looks)) == fed,
        m.watched(looks).conclusion(problems) == m.stalled(),
        m.stalled().severity == Severity::Error,
{
    unseen_active(m, looks);
    stalls_for_good(m, looks, k);
}

/// While no look shows the new member active, the move does not become active.
proof fn unseen_active(m: LegMoveView, looks: Seq<(bool, Option<JsonView>)>)
    requires
        m.phase is Rebuild,
        forall|i: int|
            0 <= i < looks.len() ==> verdict(
                (#[trigger] looks[i]).0,
                looks[i].1,
                m.new_leg.member_uuid->0,
            ) != Some(true),
    ensures
        m.watched(looks) == m || m.watched(looks) == (LegMoveView {
            phase: MovePhase::Stalled,
            ..m
        }),
    decreases looks.len(),
{
    if looks.len() > 0 {
        let front = looks.drop_last();
        assert(forall|i: int| 0 <= i < front.len() ==> #[trigger] front[i] == looks[i]);
        unseen_active(m, front);
        assert(looks[looks.len() - 1] == looks.last());
    }
}

/// A look with the verdict that the rebuild came to nothing ends the move.
proof fn stalls_for_good(m: LegMoveView, looks: Seq<(bool, Option<JsonView>)>, k: int)
    requires
        m.phase is Rebuild,
        forall|i: int|
            0 <= i < looks.len() ==> verdict(
                (#[trigger] looks[i]).0,
                looks[i].1,
                m.new_leg.member_uuid->0,
            ) != Some(true),
        0 <= k < looks.len(),
        verdict(looks[k].0, looks[k].1, m.new_leg.member_uuid->0) == Some(false),
    ensures
        m.watched(looks).phase is Stalled,
    decreases looks.len(),
{
    let front = looks.drop_last();
    assert(forall|i: int| 0 <= i < front.len() ==> #[trigger] front[i] == looks[i]);
    if k < front.len() {
        stalls_for_good(m, front, k);
    } else {
        unseen_active(m, front);
    }
}

/// What is recorded in the old leg's place is a whole leg: its volume exists,
/// is exported, open on the head and a member of the array.
pub proof fn moved_leg_is_whole(m: LegMoveView)
    requires
        m.sound(),
        m.phase is Active,
    ensures
        is_created(m.settled_leg()),
        m.settled_leg().node == m.target(),
        m.settled_leg().export is Some,
        m.settled_leg().drive_uuid is Some,
        m.settled_leg().member_uuid is Some,
        m.settled_leg().message is None,
{
}

/// The domain of a leg's node.
pub open spec fn leg_domain(
    fed: FedStateView,
    rungs: Seq<Seq<char>>,
    vol: DistVolumeView,
    leg: LegView,
) -> Seq<char> {
    placement::domain(fed.nodes[leg.node].labels(), rungs, vol.rung)
}

/// Whether no two legs on known nodes share a failure domain.
pub open spec fn spread(
    fed: FedStateView,
    rungs: Seq<Seq<char>>,
    vol: DistVolumeView,
    legs: Seq<LegView>,
) -> bool {
    forall|i: int, j: int|
        0 <= i < j < legs.len() && fed.nodes.contains_key((#[trigger] legs[i]).node)
            && fed.nodes.contains_key((#[trigger] legs[j]).node) ==> leg_domain(
            fed,
            rungs,
            vol,
            legs[i],
        ) != leg_domain(fed, rungs, vol, legs[j])
}

/// A volume whose one leg on `from` moves to a node it may go to keeps its legs
/// in distinct failure domains, keeps as many legs as it had, and leaves every
/// other leg alone.
pub proof fn move_keeps_spread(
    fed: FedStateView,
    rungs: Seq<Seq<char>>,
    vol: DistVolumeView,
    from: Seq<char>,
    leg: LegView,
)
    requires
        spread(fed, rungs, vol, vol.legs),
        forall|i: int, j: int|
            0 <= i < j < vol.legs.len() ==> !((#[trigger] vol.legs[i]).node == from && (
            #[trigger] vol.legs[j]).node == from),
        fed.nodes.contains_key(leg.node),
        may_move_to(fed, rungs, vol, from, fed.nodes[leg.node]),
    ensures
        spread(fed, rungs, vol, swapped(vol.legs, from, leg)),
        swapped(vol.legs, from, leg).len() == vol.legs.len(),
        forall|i: int|
            0 <= i < vol.legs.len() && (#[trigger] vol.legs[i]).node != from ==> swapped(
                vol.legs,
                from,
                leg,
            )[i] == vol.legs[i],
{
    first_on_is_first(vol.legs, from, 0);
    let legs = vol.legs;
    let new = swapped(legs, from, leg);
    match first_on(legs, from, 0) {
        None => {},
        Some(k) => {
            assert forall|i: int, j: int|
                0 <= i < j < new.len() && fed.nodes.contains_key((#[trigger] new[i]).node)
                    && fed.nodes.contains_key((#[trigger] new[j]).node) implies leg_domain(
                fed,
                rungs,
                vol,
                new[i],
            ) != leg_domain(fed, rungs, vol, new[j]) by {
                if i == k {
                    assert(new[j] == legs[j]);
                    assert(!(legs[k].node == from && legs[j].node == from));
                    assert(staying(legs[j], from));
                } else if j == k {
                    assert(new[i] == legs[i]);
                    assert(!(legs[i].node == from && legs[k].node == from));
                    assert(staying(legs[i], from));
                } else {
                    assert(new[i] == legs[i] && new[j] == legs[j]);
                }
            }
        },
    }
}

impl LegMove {
    #[verifier::type_invariant]
    closed spec fn holds(self) -> bool {
        self@.sound()
    }

    /// The move of the leg on `from` at its start, or why it cannot move.
    pub fn begin(
        fed: &FedState,
        rungs: &[String],
        name: &str,
        from: &str,
        to: Option<String>,
    ) -> (r: Result<LegMove, String>)
        requires
            movable(fed@, name@, from@) ==> wired(fed@.volumes[name@]),
        ensures
            match r {
                Ok(m) => LegMoveView::begin(
                    fed@,
                    rungs.deep_view(),
                    name@,
                    from@,
                    to.deep_view(),
                ) == Ok::<LegMoveView, Seq<char>>(m@),
                Err(e) => LegMoveView::begin(
                    fed@,
                    rungs.deep_view(),
                    name@,
                    from@,
                    to.deep_view(),
                ) == Err::<LegMoveView, Seq<char>>(e@),
            },
    {
        proof {
            move_begin_is_sound(fed@, rungs.deep_view(), name@, from@, to.deep_view());
        }
        let vol: &DistVolume = match fed.volumes.get(name) {
            Some(v) => v,
            None => {
                return Err(
                    text::owned("volume ").concat(text::quoted(name).as_str()).concat(
                        " not found",
                    ),
                );
            },
        };
        if vol.assembly != AssemblyState::Assembled {
            return Err(
                text::owned(name).concat(": not assembled — only assembled volumes move legs"),
            );
        }
        let at: usize = match position_of(&vol.legs, from) {
            Some(i) => i,
            None => {
                return Err(
                    text::owned(name).concat(": no leg on ").concat(text::quoted(from).as_str()),
                );
            },
        };
        let target: String = match choose_target(fed, rungs, vol, from, to) {
            Ok(t) => t,
            Err(e) => {
                return Err(e);
            },
        };
        assert(vol@.legs[at as int] == vol.legs[at as int]@);
        proof {
            first_on_is_first(vol@.legs, from@, 0);
            assert(vol@.legs[at as int].node == from@);
        }
        let head: String = held(&vol.head);
        let array_id: String = held(&vol.array_id);
        let target_engine: Engine = match engine_of(fed, target.as_str()) {
            Ok(e) => e,
            Err(e) => {
                return Err(e);
            },
        };
        let head_engine: Engine = match engine_of(fed, head.as_str()) {
            Ok(e) => e,
            Err(e) => {
                return Err(e);
            },
        };
        let new_leg = Leg {
            node: target,
            volume_id: None,
            state: LegState::Created,
            message: Some(text::owned("rebuilding")),
            master_node: None,
            export: None,
            drive_uuid: None,
            member_uuid: None,
        };
        Ok(
            LegMove {
                name: text::owned(name),
                volume_name: vol.name.clone(),
                size_bytes: vol.size_bytes,
                from: text::owned(from),
                head,
                array_id,
                target_engine,
                head_engine,
                old_leg: vol.legs[at].dup(),
                new_leg,
                phase: MovePhase::Create,
                error: None,
            },
        )
    }

    /// What to ask next; nothing once the array is rebuilding or the move has
    /// failed.
    pub fn next(&self) -> (r: Option<Errand>)
        ensures
            r.deep_view() == self@.errand(),
    {
        proof {
            use_type_invariant(self);
        }
        let leg: &Leg = &self.new_leg;
        match self.phase {
            MovePhase::Create => Some(
                Errand {
                    engine: self.target_engine.dup(),
                    task: Task::CreateVolume {
                        name: self.volume_name.clone(),
                        size_bytes: self.size_bytes,
                    },
                },
            ),
            MovePhase::Attach => Some(
                Errand {
                    engine: self.target_engine.dup(),
                    task: Task::Attach {
                        volume_id: held(&leg.volume_id),
                        master: held(&leg.master_node),
                    },
                },
            ),
            MovePhase::Open => {
                let uri: String = match &leg.export {
                    Some(x) => x.drive_uri(),
                    None => String::new(),
                };
                Some(Errand { engine: self.head_engine.dup(), task: Task::OpenDrive { uri } })
            },
            MovePhase::Join => Some(
                Errand {
                    engine: self.head_engine.dup(),
                    task: Task::AddMember {
                        array_id: self.array_id.clone(),
                        drive_uuid: held(&leg.drive_uuid),
                    },
                },
            ),
            MovePhase::Rebuild | MovePhase::Active | MovePhase::Stalled | MovePhase::Failed => None,
        }
    }

    fn set(&mut self, leg: Leg, phase: MovePhase, error: Option<String>)
        requires
            (LegMoveView { new_leg: leg@, phase, error: error.deep_view(), ..old(self)@ }).sound(),
        ensures
            final(self)@ == (LegMoveView {
                new_leg: leg@,
                phase,
                error: error.deep_view(),
                ..old(self)@
            }),
    {
        let next = LegMove {
            name: self.name.clone(),
            volume_name: self.volume_name.clone(),
            size_bytes: self.size_bytes,
            from: self.from.clone(),
            head: self.head.clone(),
            array_id: self.array_id.clone(),
            target_engine: self.target_engine.dup(),
            head_engine: self.head_engine.dup(),
            old_leg: self.old_leg.dup(),
            new_leg: leg,
            phase,
            error,
        };
        *self = next;
    }

    /// Takes in an answer.
    pub fn step(&mut self, answer: Answer)
        ensures
            final(self)@ == old(self)@.after(answer@),
    {
        proof {
            use_type_invariant(&*self);
            move_answer_keeps_sound(self@, answer@);
        }
        let mut leg: Leg = self.new_leg.dup();
        let head: String = self.head.clone();
        let target: String = leg.node.clone();
        match (self.phase, answer) {
            (MovePhase::Create, Answer::Body(r)) => {
                match r {
                    Ok(v) => {
                        let id: Option<String> = match v.text_at("id") {
                            Some(id) => Some(id.clone()),
                            None => None,
                        };
                        if id.is_some() {
                            let master: String = match Engine::master_node_of(&v) {
                                Some(m) => m,
                                None => text::owned("localhost"),
                            };
                            leg.volume_id = id;
                            leg.master_node = Some(master);
                            self.set(leg, MovePhase::Attach, None);
                        } else {
                            self.set(
                                leg,
                                MovePhase::Failed,
                                Some(target.concat(": create returned no id")),
                            );
                        }
                    },
                    Err(e) => {
                        self.set(
                            leg,
                            MovePhase::Failed,
                            Some(target.concat(": create leg: ").concat(e.as_str())),
                        );
                    },
                }
            },
            (MovePhase::Attach, Answer::Attached(r)) => {
                match r {
                    Ok(a) => {
                        leg.export = Some(a);
                        self.set(leg, MovePhase::Open, None);
                    },
                    Err(e) => {
                        self.set(
                            leg,
                            MovePhase::Failed,
                            Some(target.concat(": attach: ").concat(e.as_str())),
                        );
                    },
                }
            },
            (MovePhase::Open, Answer::Uuid(r)) => {
                match r {
                    Ok(u) => {
                        leg.drive_uuid = Some(u);
                        self.set(leg, MovePhase::Join, None);
                    },
                    Err(e) => {
                        self.set(
                            leg,
                            MovePhase::Failed,
                            Some(head.concat(": open leg drive: ").concat(e.as_str())),
                        );
                    },
                }
            },
            (MovePhase::Join, Answer::Uuid(r)) => {
                match r {
                    Ok(u) => {
                        leg.member_uuid = Some(u);
                        self.set(leg, MovePhase::Rebuild, None);
                    },
                    Err(e) => {
                        self.set(
                            leg,
                            MovePhase::Failed,
                            Some(head.concat(": add member: ").concat(e.as_str())),
                        );
                    },
                }
            },
            _ => {},
        }
    }

    /// Where the leg goes, once the array is rebuilding onto it, and what is to
    /// be noted then; or why the new leg could not be built.
    pub fn outcome(&self) -> (r: Result<(String, Notice), String>)
        requires
            self@.phase is Rebuild || self@.phase is Failed,
        ensures
            r is Ok <==> self@.phase is Rebuild,
            r matches Ok(x) ==> x.0@ == self@.target() && x.1@ == self@.started(),
            r matches Err(e) ==> Some(e@) == self@.error,
    {
        proof {
            use_type_invariant(self);
        }
        match &self.error {
            Some(e) => Err(e.clone()),
            None => {
                let target: String = self.new_leg.node.clone();
                let message: String = self.name.clone().concat(": moving leg ").concat(
                    self.from.as_str(),
                ).concat(" → ").concat(target.as_str()).concat("; rebuild started on ").concat(
                    self.head.as_str(),
                );
                Ok((target, self.note(Severity::Info, message)))
            },
        }
    }

    fn note(&self, severity: Severity, message: String) -> (r: Notice)
        ensures
            r@ == self@.notice(severity, message@),
    {
        events::notice(self.name.as_str(), severity, "assemble", message)
    }

    /// The engine that rebuilds, its array and the member to watch.
    pub fn watched(&self) -> (r: (Engine, String, String))
        requires
            self@.phase is Rebuild,
        ensures
            r.0@ == self@.head_engine,
            r.1@ == self@.array_id,
            Some(r.2@) == self@.new_leg.member_uuid,
    {
        proof {
            use_type_invariant(self);
        }
        (self.head_engine.dup(), self.array_id.clone(), held(&self.new_leg.member_uuid))
    }

    /// How far the move has come.
    pub fn phase(&self) -> (r: MovePhase)
        ensures
            r == self@.phase,
    {
        self.phase
    }

    /// Takes in a look at the head's array, where `expired` says whether the
    /// time for the rebuild is over and the look may have failed: the new
    /// member is active, or will not be, or is still being rebuilt.
    pub fn looked(&mut self, expired: bool, array: Option<&Json>)
        ensures
            final(self)@ == old(self)@.looked(expired, array.deep_view()),
    {
        proof {
            use_type_invariant(&*self);
            look_keeps_sound(self@, expired, array.deep_view());
        }
        if self.phase == MovePhase::Rebuild {
            let member: String = held(&self.new_leg.member_uuid);
            match wait_member_active(expired, array, member.as_str()) {
                Some(active) => {
                    let leg: Leg = self.new_leg.dup();
                    let phase: MovePhase = if active {
                        MovePhase::Active
                    } else {
                        MovePhase::Stalled
                    };
                    self.set(leg, phase, None);
                },
                None => {},
            }
        }
    }

    fn stalled(&self) -> (r: Notice)
        ensures
            r@ == self@.stalled(),
    {
        let message: String = self.name.clone().concat(": rebuild of new leg on ").concat(
            self.new_leg.node.as_str(),
        ).concat(" did not reach active — old leg on ").concat(self.from.as_str()).concat(" kept");
        self.note(Severity::Error, message)
    }

    /// What retiring the old leg takes, in order; nothing unless the new one is
    /// active.
    pub fn retire(&self, fed: &FedState) -> (r: Vec<Chore>)
        ensures
            r.deep_view() == self@.retirement(fed@),
    {
        let leg: &Leg = &self.old_leg;
        let mut out: Vec<Chore> = Vec::new();
        if self.phase != MovePhase::Active {
            assert(out.deep_view() =~= self@.retirement(fed@));
            return out;
        }
        if let Some(m) = &leg.member_uuid {
            out.push(
                Chore {
                    errand: Errand {
                        engine: self.head_engine.dup(),
                        task: Task::RemoveMember {
                            array_id: self.array_id.clone(),
                            member_uuid: m.clone(),
                        },
                    },
                    blame: Some(text::owned("remove member")),
                },
            );
        }
        if let Some(x) = &leg.export {
            out.push(
                Chore {
                    errand: Errand {
                        engine: self.head_engine.dup(),
                        task: Task::CloseDrive { uri: x.drive_uri() },
                    },
                    blame: Some(text::owned("head drive")),
                },
            );
        }
        if let Some(n) = fed.nodes.get(self.from.as_str()) {
            if let Some(id) = &leg.volume_id {
                out.push(
                    Chore {
                        errand: Errand {
                            engine: api::engine_for(n),
                            task: Task::Detach { volume_id: id.clone(), master: master_of(leg) },
                        },
                        blame: None,
                    },
                );
                out.push(
                    Chore {
                        errand: Errand {
                            engine: api::engine_for(n),
                            task: Task::DeleteVolume { volume_id: id.clone() },
                        },
                        blame: Some(self.from.clone().concat(" delete volume")),
                    },
                );
            }
        }
        assert(out.deep_view() =~= self@.retirement(fed@));
        out
    }

    /// Ends the move once there is a verdict on the rebuild. Where the new leg
    /// is active the leg record is swapped, after the old leg is retired, with
    /// what went wrong there; where it is not, every record stays as it is.
    /// Gives back what is to be noted, and whether the peers are to be told.
    pub fn finish(&self, fed: &mut FedState, problems: &Vec<String>) -> (r: (Notice, bool))
        requires
            self@.phase is Active || self@.phase is Stalled,
            self@.phase is Active ==> old(fed)@.revision < u64::MAX,
        ensures
            final(fed)@ == moved(old(fed)@, self@),
            r.0@ == self@.conclusion(problems.deep_view()),
            r.1 == (self@.phase is Active),
    {
        if self.phase != MovePhase::Active {
            return (self.stalled(), false);
        }
        let vol: Option<DistVolume> = match fed.volumes.get(self.name.as_str()) {
            Some(v) => Some(v.dup()),
            None => None,
        };
        if let Some(mut v) = vol {
            let ghost was = v@.legs;
            if let Some(i) = position_of(&v.legs, self.from.as_str()) {
                let mut leg: Leg = self.new_leg.dup();
                leg.message = None;
                v.legs.set(i, leg);
                assert(v.legs.deep_view() =~= was.update(i as int, self@.settled_leg()));
            }
            fed.volumes.insert(self.name.clone(), v);
        }
        fed.revision = fed.revision + 1;
        let done: String = self.name.clone().concat(": leg move ").concat(
            self.from.as_str(),
        ).concat(" → ").concat(self.new_leg.node.as_str()).concat(" complete");
        let notice: Notice = if problems.len() == 0 {
            self.note(Severity::Info, done)
        } else {
            self.note(
                Severity::Warning,
                done.concat("; cleanup issues: ").concat(text::join(problems, "; ").as_str()),
            )
        };
        (notice, true)
    }
}

/// The text that is there.
fn held(s: &Option<String>) -> (r: String)
    requires
        s is Some,
    ensures
        Some(r@) == s.deep_view(),
{
    match s {
        Some(s) => s.clone(),
        None => String::new(),
    }
}

/// How long a rebuild may take, in seconds.
pub const REBUILD_TIMEOUT_SECS: u64 = 3600;

/// How long to wait between two looks at a rebuild, in seconds.
pub const REBUILD_POLL_SECS: u64 = 3;

/// How a rebuild stands.
#[derive(Debug, Clone, Copy, PartialEq, Eq, Structural)]
pub enum Rebuild {
    Active,
    Failed,
    Running,
}

/// The first of the members with this uuid.
pub open spec fn member_by_uuid(members: Seq<JsonView>, uuid: Seq<char>) -> Option<JsonView>
    decreases members.len(),
{
    if members.len() == 0 {
        None
    } else if members[0].text_at("uuid"@) == Some(uuid) {
        Some(members[0])
    } else {
        member_by_uuid(members.drop_first(), uuid)
    }
}

/// The state that an array reports of a member.
pub open spec fn member_state(array: JsonView, uuid: Seq<char>) -> Option<Seq<char>> {
    match array.list_at("members"@) {
        Some(members) => match member_by_uuid(members, uuid) {
            Some(m) => m.text_at("state"@),
            None => None,
        },
        None => None,
    }
}

/// How a rebuild stands, by the state of the member in lower case.
pub open spec fn progress_of(state: Option<Seq<char>>) -> Rebuild {
    if state == Some("active"@) {
        Rebuild::Active
    } else if state == Some("failed"@) {
        Rebuild::Failed
    } else {
        Rebuild::Running
    }
}

/// How a rebuild stands, by the state of the member in lower case.
pub fn progress(state: &Option<String>) -> (r: Rebuild)
    ensures
        r == progress_of(state.deep_view()),
{
    proof {
        reveal_strlit("active");
        reveal_strlit("failed");
    }
    if text::is_some_text(state, "active") {
        Rebuild::Active
    } else if text::is_some_text(state, "failed") {
        Rebuild::Failed
    } else {
        Rebuild::Running
    }
}

/// How a rebuild stands, by what the array reports. The case of the member's
/// state does not matter.
pub open spec fn member_progress(array: JsonView, uuid: Seq<char>) -> Rebuild {
    progress_of(
        match member_state(array, uuid) {
            Some(s) => Some(text::lowercase_text(s)),
            None => None,
        },
    )
}

/// Whether a rebuild has come to its end, and if so whether the member is
/// active: after a look at the array, which may have failed.
pub open spec fn verdict(expired: bool, array: Option<JsonView>, uuid: Seq<char>) -> Option<bool> {
    if expired {
        Some(false)
    } else {
        match array {
            Some(a) => match member_progress(a, uuid) {
                Rebuild::Active => Some(true),
                Rebuild::Failed => Some(false),
                Rebuild::Running => None,
            },
            None => None,
        }
    }
}

/// How a rebuild stands, by what the array reports. The case of the member's
/// state does not matter.
pub fn rebuild_progress(array: &Json, member_uuid: &str) -> (r: Rebuild)
    ensures
        r == member_progress(array@, member_uuid@),
{
    let mut state: Option<String> = None;
    if let Some(members) = array.list_at("members") {
        let ghost all = members.deep_view();
        let mut i: usize = 0;
        let mut found: bool = false;
        assert(all.skip(0) =~= all);
        while i < members.len() && !found
            invariant
                i <= members.len(),
                all == members.deep_view(),
                array@.list_at("members"@) == Some(all),
                !found ==> state is None && member_by_uuid(all, member_uuid@) == member_by_uuid(
                    all.skip(i as int),
                    member_uuid@,
                ),
                found ==> state.deep_view() == match member_state(array@, member_uuid@) {
                    Some(s) => Some(text::lowercase_text(s)),
                    None => None,
                },
            decreases members.len() - i,
        {
            let m: &Json = &members[i];
            assert(all.skip(i as int)[0] == m@);
            assert(all.skip(i as int).drop_first() =~= all.skip(i + 1));
            let here: bool = match m.text_at("uuid") {
                Some(u) => text::same(u.as_str(), member_uuid),
                None => false,
            };
            if here {
                state = match m.text_at("state") {
                    Some(s) => Some(text::lowercase(s.as_str())),
                    None => None,
                };
                found = true;
            }
            i = i + 1;
        }
    }
    progress(&state)
}

/// Whether a rebuild has come to its end, and if so whether the member is
/// active: after a look at the array, which may have failed.
pub fn wait_member_active(expired: bool, array: Option<&Json>, member_uuid: &str) -> (r: Option<
    bool,
>)
    ensures
        r == verdict(expired, array.deep_view(), member_uuid@),
{
    if expired {
        return Some(false);
    }
    match array {
        Some(a) => match rebuild_progress(a, member_uuid) {
            Rebuild::Active => Some(true),
            Rebuild::Failed => Some(false),
            Rebuild::Running => None,
        },
        None => None,
    }
}

} // verus!
