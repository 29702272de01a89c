//! What each node's engine holds, as observed: its slabs (a node's pools) and
//! its volumes, each placed on the slabs it lives on.
//!
//! Placement comes from the slabs' slot tables. A volume that owns no slot (a
//! fresh copy-on-write clone reads entirely through its parent) is placed with
//! its parent, and failing that on the only slab of its role on the node. What
//! is still ambiguous is left unplaced rather than guessed.

use crate::names;
use crate::names::{Dup, NameMap, NameSet};
use crate::text;
use std::time::SystemTime;
use vstd::prelude::*;
use vstd::string::*;

verus! {

/// How a volume's slabs were worked out.
#[derive(Debug, Clone, Copy, PartialEq, Eq, Structural)]
pub enum PlacedBy {
    /// It owns slots on these slabs.
    Slots,
    /// It owns none; its parent's (a clone reads through it).
    Parent,
    /// The only slab of its role on the node.
    Role,
    /// Not determinable from what the engine reports.
    Unknown,
}

/// One slab as the engine reports it.
#[derive(Debug)]
pub struct Slab {
    pub id: String,
    /// hot | warm | cool | cold.
    pub tier: String,
    /// system | data.
    pub role: String,
    /// Failure domain, e.g. `drive=…`.
    pub domain: String,
    pub slot_size: u64,
    pub total_slots: u64,
    pub free_slots: u64,
    pub allocated_slots: u64,
    pub total_bytes: u64,
    pub free_bytes: u64,
}

/// What a [`Slab`] holds.
#[verifier::ext_equal]
pub struct SlabView {
    pub id: Seq<char>,
    pub tier: Seq<char>,
    pub role: Seq<char>,
    pub domain: Seq<char>,
    pub slot_size: u64,
    pub total_slots: u64,
    pub free_slots: u64,
    pub allocated_slots: u64,
    pub total_bytes: u64,
    pub free_bytes: u64,
}

impl View for Slab {
    type V = SlabView;

    open spec fn view(&self) -> SlabView {
        SlabView {
            id: self.id@,
            tier: self.tier@,
            role: self.role@,
            domain: self.domain@,
            slot_size: self.slot_size,
            total_slots: self.total_slots,
            free_slots: self.free_slots,
            allocated_slots: self.allocated_slots,
            total_bytes: self.total_bytes,
            free_bytes: self.free_bytes,
        }
    }
}

impl DeepView for Slab {
    type V = SlabView;

    open spec fn deep_view(&self) -> SlabView {
        self@
    }
}

impl Dup for Slab {
    fn dup(&self) -> (r: Self) {
        Slab {
            id: self.id.clone(),
            tier: self.tier.clone(),
            role: self.role.clone(),
            domain: self.domain.clone(),
            slot_size: self.slot_size,
            total_slots: self.total_slots,
            free_slots: self.free_slots,
            allocated_slots: self.allocated_slots,
            total_bytes: self.total_bytes,
            free_bytes: self.free_bytes,
        }
    }
}

impl Clone for Slab {
    fn clone(&self) -> (r: Self)
        ensures
            r@ == self@,
    {
        self.dup()
    }
}

/// What a volume belongs to.
#[derive(Debug)]
pub struct Owner {
    pub kind: String,
    pub namespace: String,
    pub name: String,
    pub uid: Option<String>,
}

/// What a [`Owner`] holds.
#[verifier::ext_equal]
pub struct OwnerView {
    pub kind: Seq<char>,
    pub namespace: Seq<char>,
    pub name: Seq<char>,
    pub uid: Option<Seq<char>>,
}

impl View for Owner {
    type V = OwnerView;

    open spec fn view(&self) -> OwnerView {
        OwnerView {
            kind: self.kind@,
            namespace: self.namespace@,
            name: self.name@,
            uid: self.uid.deep_view(),
        }
    }
}

impl DeepView for Owner {
    type V = OwnerView;

    open spec fn deep_view(&self) -> OwnerView {
        self@
    }
}

impl Dup for Owner {
    fn dup(&self) -> (r: Self) {
        Owner {
            kind: self.kind.clone(),
            namespace: self.namespace.clone(),
            name: self.name.clone(),
            uid: self.uid.dup(),
        }
    }
}

impl Clone for Owner {
    fn clone(&self) -> (r: Self)
        ensures
            r@ == self@,
    {
        self.dup()
    }
}

/// One volume as the engine reports it.
#[derive(Debug)]
pub struct EngineVolume {
    pub id: String,
    pub name: String,
    pub virtual_size_bytes: u64,
    pub allocated_bytes: u64,
    pub shared_bytes: u64,
    pub parent: Option<String>,
    pub sealed: bool,
    /// system | data: which half of the node's storage it lives in.
    pub role: String,
    pub health: String,
    pub redundancy: String,
    pub array_id: Option<String>,
    pub owner: Option<Owner>,
}

/// What a [`EngineVolume`] holds.
#[verifier::ext_equal]
pub struct EngineVolumeView {
    pub id: Seq<char>,
    pub name: Seq<char>,
    pub virtual_size_bytes: u64,
    pub allocated_bytes: u64,
    pub shared_bytes: u64,
    pub parent: Option<Seq<char>>,
    pub sealed: bool,
    pub role: Seq<char>,
    pub health: Seq<char>,
    pub redundancy: Seq<char>,
    pub array_id: Option<Seq<char>>,
    pub owner: Option<OwnerView>,
}

impl View for EngineVolume {
    type V = EngineVolumeView;

    open spec fn view(&self) -> EngineVolumeView {
        EngineVolumeView {
            id: self.id@,
            name: self.name@,
            virtual_size_bytes: self.virtual_size_bytes,
            allocated_bytes: self.allocated_bytes,
            shared_bytes: self.shared_bytes,
            parent: self.parent.deep_view(),
            sealed: self.sealed,
            role: self.role@,
            health: self.health@,
            redundancy: self.redundancy@,
            array_id: self.array_id.deep_view(),
            owner: self.owner.deep_view(),
        }
    }
}

impl DeepView for EngineVolume {
    type V = EngineVolumeView;

    open spec fn deep_view(&self) -> EngineVolumeView {
        self@
    }
}

impl Dup for EngineVolume {
    fn dup(&self) -> (r: Self) {
        EngineVolume {
            id: self.id.clone(),
            name: self.name.clone(),
            virtual_size_bytes: self.virtual_size_bytes,
            allocated_bytes: self.allocated_bytes,
            shared_bytes: self.shared_bytes,
            parent: self.parent.dup(),
            sealed: self.sealed,
            role: self.role.clone(),
            health: self.health.clone(),
            redundancy: self.redundancy.clone(),
            array_id: self.array_id.dup(),
            owner: self.owner.dup(),
        }
    }
}

impl Clone for EngineVolume {
    fn clone(&self) -> (r: Self)
        ensures
            r@ == self@,
    {
        self.dup()
    }
}

#[derive(Debug)]
pub struct PlacedVolume {
    pub volume: EngineVolume,
    /// Slab ids, sorted.
    pub slabs: Vec<String>,
    pub placed_by: PlacedBy,
}

/// What a [`PlacedVolume`] holds.
#[verifier::ext_equal]
pub struct PlacedVolumeView {
    pub volume: EngineVolumeView,
    pub slabs: Seq<Seq<char>>,
    pub placed_by: PlacedBy,
}

impl View for PlacedVolume {
    type V = PlacedVolumeView;

    open spec fn view(&self) -> PlacedVolumeView {
        PlacedVolumeView {
            volume: self.volume@,
            slabs: self.slabs.deep_view(),
            placed_by: self.placed_by,
        }
    }
}

impl DeepView for PlacedVolume {
    type V = PlacedVolumeView;

    open spec fn deep_view(&self) -> PlacedVolumeView {
        self@
    }
}

impl Dup for PlacedVolume {
    fn dup(&self) -> (r: Self) {
        PlacedVolume {
            volume: self.volume.dup(),
            slabs: self.slabs.dup(),
            placed_by: self.placed_by,
        }
    }
}

impl Clone for PlacedVolume {
    fn clone(&self) -> (r: Self)
        ensures
            r@ == self@,
    {
        self.dup()
    }
}

#[derive(Debug)]
pub struct NodeInventory {
    pub slabs: Vec<Slab>,
    pub volumes: Vec<PlacedVolume>,
    pub fetched_at: Option<SystemTime>,
    /// Why the last refresh failed, if it did (the previous inventory is kept
    /// until the node is marked unhealthy).
    pub error: Option<String>,
}

/// What a [`NodeInventory`] holds.
#[verifier::ext_equal]
pub struct NodeInventoryView {
    pub slabs: Seq<SlabView>,
    pub volumes: Seq<PlacedVolumeView>,
    pub fetched_at: Option<SystemTime>,
    pub error: Option<Seq<char>>,
}

impl View for NodeInventory {
    type V = NodeInventoryView;

    open spec fn view(&self) -> NodeInventoryView {
        NodeInventoryView {
            slabs: self.slabs.deep_view(),
            volumes: self.volumes.deep_view(),
            fetched_at: self.fetched_at,
            error: self.error.deep_view(),
        }
    }
}

impl DeepView for NodeInventory {
    type V = NodeInventoryView;

    open spec fn deep_view(&self) -> NodeInventoryView {
        self@
    }
}

impl Dup for NodeInventory {
    fn dup(&self) -> (r: Self) {
        NodeInventory {
            slabs: self.slabs.dup(),
            volumes: self.volumes.dup(),
            fetched_at: self.fetched_at,
            error: self.error.dup(),
        }
    }
}

impl Clone for NodeInventory {
    fn clone(&self) -> (r: Self)
        ensures
            r@ == self@,
    {
        self.dup()
    }
}

/// Slabs of one tier, summed across nodes.
#[derive(Debug)]
pub struct TierRollup {
    pub tier: String,
    /// `node/slab-id` of every slab in the tier.
    pub slabs: Vec<String>,
    pub nodes: Vec<String>,
    pub total_bytes: u64,
    pub free_bytes: u64,
    pub allocated_bytes: u64,
    pub volumes: usize,
}

/// What a [`TierRollup`] holds.
#[verifier::ext_equal]
pub struct TierRollupView {
    pub tier: Seq<char>,
    pub slabs: Seq<Seq<char>>,
    pub nodes: Seq<Seq<char>>,
    pub total_bytes: u64,
    pub free_bytes: u64,
    pub allocated_bytes: u64,
    pub volumes: usize,
}

impl View for TierRollup {
    type V = TierRollupView;

    open spec fn view(&self) -> TierRollupView {
        TierRollupView {
            tier: self.tier@,
            slabs: self.slabs.deep_view(),
            nodes: self.nodes.deep_view(),
            total_bytes: self.total_bytes,
            free_bytes: self.free_bytes,
            allocated_bytes: self.allocated_bytes,
            volumes: self.volumes,
        }
    }
}

impl DeepView for TierRollup {
    type V = TierRollupView;

    open spec fn deep_view(&self) -> TierRollupView {
        self@
    }
}

impl Dup for TierRollup {
    fn dup(&self) -> (r: Self) {
        TierRollup {
            tier: self.tier.clone(),
            slabs: self.slabs.dup(),
            nodes: self.nodes.dup(),
            total_bytes: self.total_bytes,
            free_bytes: self.free_bytes,
            allocated_bytes: self.allocated_bytes,
            volumes: self.volumes,
        }
    }
}

impl Clone for TierRollup {
    fn clone(&self) -> (r: Self)
        ensures
            r@ == self@,
    {
        self.dup()
    }
}

impl Default for Slab {
    fn default() -> (r: Self)
        ensures
            r@ == (SlabView {
                id: Seq::empty(),
                tier: Seq::empty(),
                role: Seq::empty(),
                domain: Seq::empty(),
                slot_size: 0,
                total_slots: 0,
                free_slots: 0,
                allocated_slots: 0,
                total_bytes: 0,
                free_bytes: 0,
            }),
    {
        Slab {
            id: String::new(),
            tier: String::new(),
            role: String::new(),
            domain: String::new(),
            slot_size: 0,
            total_slots: 0,
            free_slots: 0,
            allocated_slots: 0,
            total_bytes: 0,
            free_bytes: 0,
        }
    }
}

impl Default for Owner {
    fn default() -> (r: Self)
        ensures
            r@ == (OwnerView {
                kind: Seq::empty(),
                namespace: Seq::empty(),
                name: Seq::empty(),
                uid: None,
            }),
    {
        Owner { kind: String::new(), namespace: String::new(), name: String::new(), uid: None }
    }
}

impl Default for EngineVolume {
    fn default() -> (r: Self)
        ensures
            r@ == (EngineVolumeView {
                id: Seq::empty(),
                name: Seq::empty(),
                virtual_size_bytes: 0,
                allocated_bytes: 0,
                shared_bytes: 0,
                parent: None,
                sealed: false,
                role: Seq::empty(),
                health: Seq::empty(),
                redundancy: Seq::empty(),
                array_id: None,
                owner: None,
            }),
    {
        EngineVolume {
            id: String::new(),
            name: String::new(),
            virtual_size_bytes: 0,
            allocated_bytes: 0,
            shared_bytes: 0,
            parent: None,
            sealed: false,
            role: String::new(),
            health: String::new(),
            redundancy: String::new(),
            array_id: None,
            owner: None,
        }
    }
}

impl NodeInventoryView {
    /// The inventory of a node whose engine has not been read.
    pub open spec fn empty() -> Self {
        NodeInventoryView {
            slabs: Seq::empty(),
            volumes: Seq::empty(),
            fetched_at: None,
            error: None,
        }
    }
}

impl Default for NodeInventory {
    fn default() -> (r: Self)
        ensures
            r@ == NodeInventoryView::empty(),
    {
        let r = NodeInventory {
            slabs: Vec::new(),
            volumes: Vec::new(),
            fetched_at: None,
            error: None,
        };
        assert(r@.slabs =~= Seq::<SlabView>::empty());
        assert(r@.volumes =~= Seq::<PlacedVolumeView>::empty());
        r
    }
}

impl Default for TierRollup {
    fn default() -> (r: Self)
        ensures
            r@ == (TierRollupView {
                tier: Seq::empty(),
                slabs: Seq::empty(),
                nodes: Seq::empty(),
                total_bytes: 0,
                free_bytes: 0,
                allocated_bytes: 0,
                volumes: 0,
            }),
    {
        let r = TierRollup {
            tier: String::new(),
            slabs: Vec::new(),
            nodes: Vec::new(),
            total_bytes: 0,
            free_bytes: 0,
            allocated_bytes: 0,
            volumes: 0,
        };
        assert(r@.slabs =~= Seq::<Seq<char>>::empty());
        assert(r@.nodes =~= Seq::<Seq<char>>::empty());
        r
    }
}

impl SlabView {
    /// The bytes in allocated slots; as many as can be counted where there are
    /// more.
    pub open spec fn allocated_bytes(self) -> u64 {
        if self.allocated_slots * self.slot_size <= u64::MAX {
            (self.allocated_slots * self.slot_size) as u64
        } else {
            u64::MAX
        }
    }
}

impl Slab {
    pub fn allocated_bytes(&self) -> (r: u64)
        ensures
            r == self@.allocated_bytes(),
    {
        let a: u128 = self.allocated_slots as u128;
        let b: u128 = self.slot_size as u128;
        assert(a * b <= u64::MAX * u64::MAX) by (nonlinear_arith)
            requires
                a <= u64::MAX,
                b <= u64::MAX,
        ;
        let bytes: u128 = a * b;
        if bytes <= u64::MAX as u128 {
            bytes as u64
        } else {
            u64::MAX
        }
    }
}

impl OwnerView {
    pub open spec fn describe(self) -> Seq<char> {
        if self.namespace.len() == 0 {
            self.kind + " "@ + self.name
        } else {
            self.kind + " "@ + self.namespace + "/"@ + self.name
        }
    }
}

impl Owner {
    pub fn describe(&self) -> (r: String)
        ensures
            r@ == self@.describe(),
    {
        let front: String = self.kind.clone().concat(" ");
        if text::same(self.namespace.as_str(), "") {
            proof {
                reveal_strlit("");
            }
            front.concat(self.name.as_str())
        } else {
            proof {
                reveal_strlit("");
                if self.namespace@.len() == 0 {
                    assert(self.namespace@ =~= ""@);
                }
            }
            front.concat(self.namespace.as_str()).concat("/").concat(self.name.as_str())
        }
    }
}

/// The slabs that each volume owns slots on.
pub type SlotOwners = Map<Seq<char>, Set<Seq<char>>>;

/// Whether the volume owns a slot anywhere.
pub open spec fn owns_slots(owners: SlotOwners, id: Seq<char>) -> bool {
    owners.contains_key(id) && owners[id] != Set::<Seq<char>>::empty()
}

/// The volume with this id; the last of them where the engine lists several.
pub open spec fn volume_by_id(
    volumes: Seq<EngineVolumeView>,
    id: Seq<char>,
) -> Option<EngineVolumeView>
    decreases volumes.len(),
{
    if volumes.len() == 0 {
        None
    } else if volumes.last().id == id {
        Some(volumes.last())
    } else {
        volume_by_id(volumes.drop_last(), id)
    }
}

/// What the volume with this id was cloned from.
pub open spec fn parent_of(volumes: Seq<EngineVolumeView>, id: Seq<char>) -> Option<Seq<char>> {
    match volume_by_id(volumes, id) {
        Some(v) => v.parent,
        None => None,
    }
}

/// The first that owns slots of a volume and its ancestors, going at most
/// `steps` generations up.
pub open spec fn slot_ancestor(
    volumes: Seq<EngineVolumeView>,
    owners: SlotOwners,
    id: Option<Seq<char>>,
    steps: nat,
) -> Option<Seq<char>>
    decreases steps,
{
    match id {
        None => None,
        Some(id) => if steps == 0 {
            None
        } else if owns_slots(owners, id) {
            Some(id)
        } else {
            slot_ancestor(volumes, owners, parent_of(volumes, id), (steps - 1) as nat)
        },
    }
}

/// The slabs of a role.
pub open spec fn slabs_of_role(slabs: Seq<SlabView>, role: Seq<char>) -> Seq<SlabView>
    decreases slabs.len(),
{
    if slabs.len() == 0 {
        Seq::empty()
    } else {
        let front = slabs_of_role(slabs.drop_last(), role);
        if slabs.last().role == role {
            front.push(slabs.last())
        } else {
            front
        }
    }
}

/// How far up the parents of a volume are followed: a cycle in bad data must
/// come to an end.
pub const GENERATIONS: u64 = 64;

/// The slabs a volume lives on, and how that is known.
pub open spec fn resolved(
    v: EngineVolumeView,
    volumes: Seq<EngineVolumeView>,
    slabs: Seq<SlabView>,
    owners: SlotOwners,
) -> (Seq<Seq<char>>, PlacedBy) {
    let ancestor = slot_ancestor(volumes, owners, v.parent, GENERATIONS as nat);
    let same_role = slabs_of_role(slabs, v.role);
    if owns_slots(owners, v.id) {
        (names::sorted(owners[v.id]), PlacedBy::Slots)
    } else if ancestor is Some {
        (names::sorted(owners[ancestor->0]), PlacedBy::Parent)
    } else if v.role.len() > 0 && same_role.len() == 1 {
        (seq![same_role[0].id], PlacedBy::Role)
    } else {
        (Seq::empty(), PlacedBy::Unknown)
    }
}

/// Every volume with the slabs it lives on.
pub open spec fn placed(
    slabs: Seq<SlabView>,
    volumes: Seq<EngineVolumeView>,
    owners: SlotOwners,
) -> Seq<PlacedVolumeView> {
    Seq::new(
        volumes.len(),
        |i: int|
            PlacedVolumeView {
                volume: volumes[i],
                slabs: resolved(volumes[i], volumes, slabs, owners).0,
                placed_by: resolved(volumes[i], volumes, slabs, owners).1,
            },
    )
}

/// Slabs are never guessed: a volume is put on slabs that hold slots of its
/// own, or else of the nearest of its ancestors that has any, or else on the
/// one slab of its role; failing all three it is on none.
pub proof fn never_guessed(
    v: EngineVolumeView,
    volumes: Seq<EngineVolumeView>,
    slabs: Seq<SlabView>,
    owners: SlotOwners,
)
    ensures
        ({
            let (on, by) = resolved(v, volumes, slabs, owners);
            &&& by is Slots <==> owns_slots(owners, v.id)
            &&& by is Slots ==> on == names::sorted(owners[v.id])
            &&& by is Parent ==> exists|a: Seq<char>| #[trigger]
                owns_slots(owners, a) && on == names::sorted(owners[a])
            &&& by is Role ==> exists|i: int|
                0 <= i < slabs.len() && #[trigger] slabs[i].id == on[0] && slabs[i].role == v.role
                    && on.len() == 1 && forall|j: int|
                    0 <= j < slabs.len() && #[trigger] slabs[j].role == v.role ==> j == i
            &&& by is Unknown <==> !owns_slots(owners, v.id) && slot_ancestor(
                volumes,
                owners,
                v.parent,
                GENERATIONS as nat,
            ) is None && (v.role.len() == 0 || slabs_of_role(slabs, v.role).len() != 1)
            &&& by is Unknown ==> on.len() == 0
        }),
{
    let (on, by) = resolved(v, volumes, slabs, owners);
    if by is Parent {
        ancestor_owns_slots(volumes, owners, v.parent, GENERATIONS as nat);
    }
    if by is Role {
        role_members(slabs, v.role);
    }
}

proof fn ancestor_owns_slots(
    volumes: Seq<EngineVolumeView>,
    owners: SlotOwners,
    id: Option<Seq<char>>,
    steps: nat,
)
    ensures
        slot_ancestor(volumes, owners, id, steps) matches Some(a) ==> owns_slots(owners, a),
    decreases steps,
{
    if id is Some && steps > 0 && !owns_slots(owners, id->0) {
        ancestor_owns_slots(volumes, owners, parent_of(volumes, id->0), (steps - 1) as nat);
    }
}

proof fn role_members(slabs: Seq<SlabView>, role: Seq<char>)
    ensures
        slabs_of_role(slabs, role).len() == 0 ==> forall|j: int|
            0 <= j < slabs.len() ==> #[trigger] slabs[j].role != role,
        slabs_of_role(slabs, role).len() == 1 ==> exists|i: int|
            0 <= i < slabs.len() && #[trigger] slabs[i].id == slabs_of_role(slabs, role)[0].id
                && slabs[i].role == role && forall|j: int|
                0 <= j < slabs.len() && #[trigger] slabs[j].role == role ==> j == i,
    decreases slabs.len(),
{
    if slabs.len() > 0 {
        let front = slabs.drop_last();
        let n = slabs.len() - 1;
        role_members(front, role);
        assert(forall|j: int| 0 <= j < n ==> #[trigger] front[j] == slabs[j]);
        if slabs_of_role(slabs, role).len() == 0 {
            assert forall|j: int| 0 <= j < slabs.len() implies #[trigger] slabs[j].role != role by {
                if j < n {
                    assert(front[j].role != role);
                }
            }
        }
        if slabs_of_role(slabs, role).len() == 1 {
            if slabs.last().role == role {
                assert(slabs_of_role(front, role).len() == 0);
                assert(slabs[n].id == slabs_of_role(slabs, role)[0].id);
                assert forall|j: int|
                    0 <= j < slabs.len() && #[trigger] slabs[j].role == role implies j == n by {
                    if j < n {
                        assert(front[j].role != role);
                    }
                }
            } else {
                let i = choose|i: int|
                    0 <= i < front.len() && #[trigger] front[i].id == slabs_of_role(
                        front,
                        role,
                    )[0].id && front[i].role == role && forall|j: int|
                        0 <= j < front.len() && #[trigger] front[j].role == role ==> j == i;
                assert(slabs[i].id == slabs_of_role(slabs, role)[0].id);
                assert forall|j: int|
                    0 <= j < slabs.len() && #[trigger] slabs[j].role == role implies j == i by {
                    assert(front[j].role == role);
                }
            }
        }
    }
}

/// The slabs that hold slots of a volume, ascending; none where there are none.
fn slots_of(owners: &NameMap<NameSet>, id: &str) -> (r: Option<Vec<String>>)
    ensures
        r is Some <==> owns_slots(owners@, id@),
        r matches Some(s) ==> s.deep_view() == names::sorted(owners@[id@]),
{
    match owners.get(id) {
        Some(s) => if s.is_empty() {
            None
        } else {
            Some(s.to_vec())
        },
        None => None,
    }
}

fn find_volume<'a>(volumes: &'a Vec<EngineVolume>, id: &str) -> (r: Option<&'a EngineVolume>)
    ensures
        r.deep_view() == volume_by_id(volumes.deep_view(), id@),
{
    let ghost all = volumes.deep_view();
    let mut n: usize = volumes.len();
    assert(all.take(n as int) =~= all);
    while n > 0
        invariant
            n <= volumes.len(),
            all == volumes.deep_view(),
            volume_by_id(all, id@) == volume_by_id(all.take(n as int), id@),
        decreases n,
    {
        let v: &EngineVolume = &volumes[n - 1];
        assert(all.take(n as int).last() == v@);
        assert(all.take(n as int).drop_last() =~= all.take(n - 1));
        if text::same(v.id.as_str(), id) {
            return Some(v);
        }
        n = n - 1;
    }
    None
}

/// The one slab of a role, if there is just one.
fn sole_slab_of<'a>(slabs: &'a [Slab], role: &str) -> (r: Option<&'a Slab>)
    ensures
        r is Some <==> slabs_of_role(slabs.deep_view(), role@).len() == 1,
        r matches Some(s) ==> s@ == slabs_of_role(slabs.deep_view(), role@)[0],
{
    let ghost all = slabs.deep_view();
    let mut first: Option<&'a Slab> = None;
    let mut count: usize = 0;
    let mut i: usize = 0;
    while i < slabs.len()
        invariant
            i <= slabs.len(),
            count <= i,
            all == slabs.deep_view(),
            count == slabs_of_role(all.take(i as int), role@).len(),
            first is Some <==> count > 0,
            first matches Some(s) ==> s@ == slabs_of_role(all.take(i as int), role@)[0],
        decreases slabs.len() - i,
    {
        let s: &Slab = &slabs[i];
        assert(all.take(i + 1).drop_last() =~= all.take(i as int));
        assert(all.take(i + 1).last() == s@);
        if text::same(s.role.as_str(), role) {
            if count == 0 {
                first = Some(s);
            }
            count = count + 1;
        }
        i = i + 1;
    }
    assert(all.take(i as int) =~= all);
    if count == 1 {
        first
    } else {
        None
    }
}

fn resolve(
    v: &EngineVolume,
    volumes: &Vec<EngineVolume>,
    slabs: &[Slab],
    slot_owners: &NameMap<NameSet>,
) -> (r: (Vec<String>, PlacedBy))
    ensures
        r.0.deep_view() == resolved(
            v@,
            volumes.deep_view(),
            slabs.deep_view(),
            slot_owners@,
        ).0,
        r.1 == resolved(v@, volumes.deep_view(), slabs.deep_view(), slot_owners@).1,
{
    if let Some(s) = slots_of(slot_owners, v.id.as_str()) {
        return (s, PlacedBy::Slots);
    }
    let ghost all = volumes.deep_view();
    let ghost ancestor = slot_ancestor(all, slot_owners@, v@.parent, GENERATIONS as nat);
    let mut cur: Option<&String> = v.parent.as_ref();
    let mut left: u64 = GENERATIONS;
    let mut more: bool = true;
    while more
        invariant
            all == volumes.deep_view(),
            !owns_slots(slot_owners@, v@.id),
            ancestor == slot_ancestor(all, slot_owners@, v@.parent, GENERATIONS as nat),
            more ==> ancestor == slot_ancestor(all, slot_owners@, cur.deep_view(), left as nat),
            !more ==> ancestor is None,
        decreases left, if more { 1int } else { 0 },
    {
        match cur {
            Some(pid) => {
                if left == 0 {
                    more = false;
                } else {
                    if let Some(s) = slots_of(slot_owners, pid.as_str()) {
                        return (s, PlacedBy::Parent);
                    }
                    cur = match find_volume(volumes, pid.as_str()) {
                        Some(p) => p.parent.as_ref(),
                        None => None,
                    };
                    left = left - 1;
                }
            },
            None => {
                more = false;
            },
        }
    }
    let none: Vec<String> = Vec::new();
    assert(none.deep_view() =~= Seq::<Seq<char>>::empty());
    proof {
        reveal_strlit("");
        if v.role@.len() == 0 {
            assert(v.role@ =~= ""@);
        }
    }
    if !text::same(v.role.as_str(), "") {
        if let Some(s) = sole_slab_of(slabs, v.role.as_str()) {
            let one: Vec<String> = vec![s.id.clone()];
            assert(one.deep_view() =~= seq![s@.id]);
            return (one, PlacedBy::Role);
        }
    }
    (none, PlacedBy::Unknown)
}

/// Place every volume on its slabs. `slot_owners` maps a volume id to the
/// slabs holding slots it owns.
pub fn place(
    slabs: &[Slab],
    volumes: Vec<EngineVolume>,
    slot_owners: &NameMap<NameSet>,
) -> (r: Vec<PlacedVolume>)
    ensures
        r.deep_view() == placed(slabs.deep_view(), volumes.deep_view(), slot_owners@),
{
    let mut out: Vec<PlacedVolume> = Vec::new();
    let ghost want = placed(slabs.deep_view(), volumes.deep_view(), slot_owners@);
    let mut i: usize = 0;
    while i < volumes.len()
        invariant
            i <= volumes.len(),
            want == placed(slabs.deep_view(), volumes.deep_view(), slot_owners@),
            out.len() == i,
            forall|j: int| 0 <= j < i ==> (#[trigger] out[j])@ == want[j],
        decreases volumes.len() - i,
    {
        let (slabs_of, placed_by) = resolve(&volumes[i], &volumes, slabs, slot_owners);
        out.push(PlacedVolume { volume: volumes[i].dup(), slabs: slabs_of, placed_by });
        i = i + 1;
    }
    assert(out.deep_view() =~= want);
    out
}

/// The volumes that are on a slab.
pub open spec fn on_slab(volumes: Seq<PlacedVolumeView>, slab_id: Seq<char>) -> Seq<
    PlacedVolumeView,
> {
    volumes.filter(|v: PlacedVolumeView| v.slabs.contains(slab_id))
}

/// Volumes placed on a slab.
pub fn volumes_on<'a>(inv: &'a NodeInventory, slab_id: &str) -> (r: Vec<&'a PlacedVolume>)
    ensures
        r.deep_view() == on_slab(inv@.volumes, slab_id@),
{
    let ghost all = inv@.volumes;
    let mut r: Vec<&'a PlacedVolume> = Vec::new();
    let mut i: usize = 0;
    assert(r.deep_view() =~= on_slab(all.take(0), slab_id@)) by {
        reveal(Seq::filter);
    }
    while i < inv.volumes.len()
        invariant
            i <= inv.volumes.len(),
            all == inv@.volumes,
            r.deep_view() == on_slab(all.take(i as int), slab_id@),
        decreases inv.volumes.len() - i,
    {
        let v: &PlacedVolume = &inv.volumes[i];
        let ghost was = r.deep_view();
        proof {
            assert(all.take(i + 1).drop_last() =~= all.take(i as int));
            assert(all.take(i + 1).last() == v@);
            reveal(Seq::filter);
        }
        if text::listed(v.slabs.as_slice(), slab_id) {
            r.push(v);
            assert(r.deep_view() =~= was.push(v@));
        }
        i = i + 1;
    }
    assert(all.take(i as int) =~= all);
    r
}

/// The tiers that any node has a slab of.
pub open spec fn tier_names(all: Map<Seq<char>, NodeInventoryView>) -> Set<Seq<char>> {
    Set::new(
        |t: Seq<char>|
            exists|n: Seq<char>, i: int|
                all.contains_key(n) && 0 <= i < all[n].slabs.len() && (
                #[trigger] all[n].slabs[i]).tier == t,
    )
}

/// `node/slab-id` of each slab of the tier on one node.
pub open spec fn node_slabs(node: Seq<char>, slabs: Seq<SlabView>, tier: Seq<char>) -> Seq<
    Seq<char>,
>
    decreases slabs.len(),
{
    if slabs.len() == 0 {
        Seq::empty()
    } else {
        let front = node_slabs(node, slabs.drop_last(), tier);
        if slabs.last().tier == tier {
            front.push(node + "/"@ + slabs.last().id)
        } else {
            front
        }
    }
}

/// The sum of a figure over the slabs of the tier on one node.
pub open spec fn node_sum(
    slabs: Seq<SlabView>,
    tier: Seq<char>,
    figure: spec_fn(SlabView) -> nat,
) -> nat
    decreases slabs.len(),
{
    if slabs.len() == 0 {
        0
    } else {
        node_sum(slabs.drop_last(), tier, figure) + if slabs.last().tier == tier {
            figure(slabs.last())
        } else {
            0
        }
    }
}

/// The first slab with this id.
pub open spec fn slab_by_id(slabs: Seq<SlabView>, id: Seq<char>) -> Option<SlabView>
    decreases slabs.len(),
{
    if slabs.len() == 0 {
        None
    } else if slabs[0].id == id {
        Some(slabs[0])
    } else {
        slab_by_id(slabs.drop_first(), id)
    }
}

/// Whether one of the slabs that the volume is on is of the tier.
pub open spec fn on_tier(v: PlacedVolumeView, slabs: Seq<SlabView>, tier: Seq<char>) -> bool {
    exists|k: int|
        0 <= k < v.slabs.len() && (slab_by_id(slabs, #[trigger] v.slabs[k]) matches Some(s)
            && s.tier == tier)
}

/// The ids of a node's volumes on the tier. A volume spanning two slabs of one
/// tier is there once.
pub open spec fn tier_volumes(inv: NodeInventoryView, tier: Seq<char>) -> Set<Seq<char>> {
    Set::new(
        |id: Seq<char>|
            exists|i: int|
                0 <= i < inv.volumes.len() && (#[trigger] inv.volumes[i]).volume.id == id
                    && on_tier(inv.volumes[i], inv.slabs, tier),
    )
}

/// The slabs of the tier on these nodes, node by node.
pub open spec fn all_slabs(
    all: Map<Seq<char>, NodeInventoryView>,
    nodes: Seq<Seq<char>>,
    tier: Seq<char>,
) -> Seq<Seq<char>>
    decreases nodes.len(),
{
    if nodes.len() == 0 {
        Seq::empty()
    } else {
        all_slabs(all, nodes.drop_last(), tier) + node_slabs(
            nodes.last(),
            all[nodes.last()].slabs,
            tier,
        )
    }
}

/// Those of these nodes that have a slab of the tier.
pub open spec fn nodes_with(
    all: Map<Seq<char>, NodeInventoryView>,
    nodes: Seq<Seq<char>>,
    tier: Seq<char>,
) -> Seq<Seq<char>>
    decreases nodes.len(),
{
    if nodes.len() == 0 {
        Seq::empty()
    } else {
        let front = nodes_with(all, nodes.drop_last(), tier);
        if node_slabs(nodes.last(), all[nodes.last()].slabs, tier).len() > 0 {
            front.push(nodes.last())
        } else {
            front
        }
    }
}

/// The sum of a figure over the slabs of the tier on these nodes.
pub open spec fn all_sum(
    all: Map<Seq<char>, NodeInventoryView>,
    nodes: Seq<Seq<char>>,
    tier: Seq<char>,
    figure: spec_fn(SlabView) -> nat,
) -> nat
    decreases nodes.len(),
{
    if nodes.len() == 0 {
        0
    } else {
        all_sum(all, nodes.drop_last(), tier, figure) + node_sum(
            all[nodes.last()].slabs,
            tier,
            figure,
        )
    }
}

/// How many volumes these nodes have on the tier.
pub open spec fn all_volumes(
    all: Map<Seq<char>, NodeInventoryView>,
    nodes: Seq<Seq<char>>,
    tier: Seq<char>,
) -> nat
    decreases nodes.len(),
{
    if nodes.len() == 0 {
        0
    } else {
        all_volumes(all, nodes.drop_last(), tier) + tier_volumes(all[nodes.last()], tier).len()
    }
}

pub open spec fn total_of() -> spec_fn(SlabView) -> nat {
    |s: SlabView| s.total_bytes as nat
}

pub open spec fn free_of() -> spec_fn(SlabView) -> nat {
    |s: SlabView| s.free_bytes as nat
}

pub open spec fn allocated_of() -> spec_fn(SlabView) -> nat {
    |s: SlabView| s.allocated_bytes() as nat
}

/// Whether the sums of a tier can be counted.
pub open spec fn tier_fits(all: Map<Seq<char>, NodeInventoryView>, tier: Seq<char>) -> bool {
    let nodes = names::sorted(all.dom());
    &&& all_sum(all, nodes, tier, total_of()) <= u64::MAX
    &&& all_sum(all, nodes, tier, free_of()) <= u64::MAX
    &&& all_sum(all, nodes, tier, allocated_of()) <= u64::MAX
    &&& all_volumes(all, nodes, tier) <= usize::MAX
}

/// Whether the sums of every tier can be counted.
pub open spec fn tiers_fit(all: Map<Seq<char>, NodeInventoryView>) -> bool {
    forall|t: Seq<char>| #[trigger] tier_names(all).contains(t) ==> tier_fits(all, t)
}

/// The slabs of one tier, summed across the nodes.
pub open spec fn rollup(all: Map<Seq<char>, NodeInventoryView>, tier: Seq<char>) -> TierRollupView {
    let nodes = names::sorted(all.dom());
    TierRollupView {
        tier,
        slabs: all_slabs(all, nodes, tier),
        nodes: nodes_with(all, nodes, tier),
        total_bytes: all_sum(all, nodes, tier, total_of()) as u64,
        free_bytes: all_sum(all, nodes, tier, free_of()) as u64,
        allocated_bytes: all_sum(all, nodes, tier, allocated_of()) as u64,
        volumes: all_volumes(all, nodes, tier) as usize,
    }
}

/// The roll-up of each tier, by name.
pub open spec fn rollups(all: Map<Seq<char>, NodeInventoryView>) -> Seq<TierRollupView> {
    let tiers = names::sorted(tier_names(all));
    Seq::new(tiers.len(), |i: int| rollup(all, tiers[i]))
}

/// The tiers of the slabs of these nodes, slab by slab.
spec fn tiers_seen(all: Map<Seq<char>, NodeInventoryView>, nodes: Seq<Seq<char>>) -> Seq<Seq<char>>
    decreases nodes.len(),
{
    if nodes.len() == 0 {
        Seq::empty()
    } else {
        let slabs = all[nodes.last()].slabs;
        tiers_seen(all, nodes.drop_last()) + Seq::new(slabs.len(), |i: int| slabs[i].tier)
    }
}

proof fn tier_is_seen(
    all: Map<Seq<char>, NodeInventoryView>,
    nodes: Seq<Seq<char>>,
    k: int,
    i: int,
)
    requires
        0 <= k < nodes.len(),
        0 <= i < all[nodes[k]].slabs.len(),
    ensures
        tiers_seen(all, nodes).contains(all[nodes[k]].slabs[i].tier),
    decreases nodes.len(),
{
    let front = tiers_seen(all, nodes.drop_last());
    let seen = tiers_seen(all, nodes);
    let tier = all[nodes[k]].slabs[i].tier;
    if k < nodes.len() - 1 {
        tier_is_seen(all, nodes.drop_last(), k, i);
        assert(seen[front.index_of(tier)] == tier);
    } else {
        assert(seen[front.len() + i] == tier);
    }
}

/// Finitely many nodes have slabs of finitely many tiers.
pub proof fn tiers_are_finite(all: Map<Seq<char>, NodeInventoryView>)
    requires
        all.dom().finite(),
    ensures
        tier_names(all).finite(),
{
    let keys = names::sorted(all.dom());
    names::sorted_holds(all.dom());
    let seen = tiers_seen(all, keys).to_set();
    vstd::seq_lib::seq_to_set_is_finite(tiers_seen(all, keys));
    assert forall|t: Seq<char>| tier_names(all).contains(t) implies seen.contains(t) by {
        let (n, i) = choose|n: Seq<char>, i: int|
            all.contains_key(n) && 0 <= i < all[n].slabs.len() && (
            #[trigger] all[n].slabs[i]).tier == t;
        assert(keys.to_set().contains(n));
        let k = keys.index_of(n);
        tier_is_seen(all, keys, k, i);
    }
    assert(tier_names(all).subset_of(seen));
    vstd::set_lib::lemma_set_subset_finite(seen, tier_names(all));
}

/// Every slab that a tier lists is one of a node's slabs.
pub proof fn tier_slabs_exist(
    all: Map<Seq<char>, NodeInventoryView>,
    nodes: Seq<Seq<char>>,
    tier: Seq<char>,
    p: int,
) -> (at: (int, int))
    requires
        0 <= p < all_slabs(all, nodes, tier).len(),
    ensures
        0 <= at.0 < nodes.len(),
        0 <= at.1 < all[nodes[at.0]].slabs.len(),
        all_slabs(all, nodes, tier)[p] == nodes[at.0] + "/"@ + all[nodes[at.0]].slabs[at.1].id,
    decreases nodes.len(),
{
    let front = all_slabs(all, nodes.drop_last(), tier);
    if p < front.len() {
        tier_slabs_exist(all, nodes.drop_last(), tier, p)
    } else {
        let node = nodes.last();
        (nodes.len() - 1, node_slab_exists(node, all[node].slabs, tier, p - front.len()))
    }
}

proof fn node_slab_exists(
    node: Seq<char>,
    slabs: Seq<SlabView>,
    tier: Seq<char>,
    p: int,
) -> (i: int)
    requires
        0 <= p < node_slabs(node, slabs, tier).len(),
    ensures
        0 <= i < slabs.len(),
        node_slabs(node, slabs, tier)[p] == node + "/"@ + slabs[i].id,
    decreases slabs.len(),
{
    let front = node_slabs(node, slabs.drop_last(), tier);
    if p < front.len() {
        node_slab_exists(node, slabs.drop_last(), tier, p)
    } else {
        slabs.len() - 1
    }
}

proof fn node_sum_grows(
    slabs: Seq<SlabView>,
    tier: Seq<char>,
    figure: spec_fn(SlabView) -> nat,
    n: int,
)
    requires
        0 <= n <= slabs.len(),
    ensures
        node_sum(slabs.take(n), tier, figure) <= node_sum(slabs, tier, figure),
    decreases slabs.len() - n,
{
    if n < slabs.len() {
        node_sum_grows(slabs, tier, figure, n + 1);
        assert(slabs.take(n + 1).drop_last() =~= slabs.take(n));
    } else {
        assert(slabs.take(n) =~= slabs);
    }
}

proof fn all_sum_grows(
    all: Map<Seq<char>, NodeInventoryView>,
    nodes: Seq<Seq<char>>,
    tier: Seq<char>,
    figure: spec_fn(SlabView) -> nat,
    n: int,
)
    requires
        0 <= n <= nodes.len(),
    ensures
        all_sum(all, nodes.take(n), tier, figure) <= all_sum(all, nodes, tier, figure),
    decreases nodes.len() - n,
{
    if n < nodes.len() {
        all_sum_grows(all, nodes, tier, figure, n + 1);
        assert(nodes.take(n + 1).drop_last() =~= nodes.take(n));
    } else {
        assert(nodes.take(n) =~= nodes);
    }
}

proof fn all_volumes_grows(
    all: Map<Seq<char>, NodeInventoryView>,
    nodes: Seq<Seq<char>>,
    tier: Seq<char>,
    n: int,
)
    requires
        0 <= n <= nodes.len(),
    ensures
        all_volumes(all, nodes.take(n), tier) <= all_volumes(all, nodes, tier),
    decreases nodes.len() - n,
{
    if n < nodes.len() {
        all_volumes_grows(all, nodes, tier, n + 1);
        assert(nodes.take(n + 1).drop_last() =~= nodes.take(n));
    } else {
        assert(nodes.take(n) =~= nodes);
    }
}

/// The sum over a part of the tier is no more than the sum over all of it.
proof fn part_of_sum(
    all: Map<Seq<char>, NodeInventoryView>,
    nodes: Seq<Seq<char>>,
    tier: Seq<char>,
    figure: spec_fn(SlabView) -> nat,
    n: int,
    m: int,
)
    requires
        0 <= n < nodes.len(),
        0 <= m <= all[nodes[n]].slabs.len(),
    ensures
        all_sum(all, nodes.take(n), tier, figure) + node_sum(
            all[nodes[n]].slabs.take(m),
            tier,
            figure,
        ) <= all_sum(all, nodes, tier, figure),
{
    node_sum_grows(all[nodes[n]].slabs, tier, figure, m);
    all_sum_grows(all, nodes, tier, figure, n + 1);
    assert(nodes.take(n + 1).drop_last() =~= nodes.take(n));
}

fn find_slab<'a>(slabs: &'a Vec<Slab>, id: &str) -> (r: Option<&'a Slab>)
    ensures
        r.deep_view() == slab_by_id(slabs.deep_view(), id@),
{
    let ghost all = slabs.deep_view();
    let mut i: usize = 0;
    assert(all.skip(0) =~= all);
    while i < slabs.len()
        invariant
            i <= slabs.len(),
            all == slabs.deep_view(),
            slab_by_id(all, id@) == slab_by_id(all.skip(i as int), id@),
        decreases slabs.len() - i,
    {
        assert(all.skip(i as int)[0] == slabs[i as int]@);
        assert(all.skip(i as int).drop_first() =~= all.skip(i + 1));
        if text::same(slabs[i].id.as_str(), id) {
            return Some(&slabs[i]);
        }
        i = i + 1;
    }
    None
}

fn is_on_tier(v: &PlacedVolume, slabs: &Vec<Slab>, tier: &str) -> (r: bool)
    ensures
        r == on_tier(v@, slabs.deep_view(), tier@),
{
    let mut k: usize = 0;
    while k < v.slabs.len()
        invariant
            k <= v.slabs.len(),
            forall|j: int|
                0 <= j < k ==> !(slab_by_id(slabs.deep_view(), #[trigger] v@.slabs[j]) matches Some(
                    s,
                ) && s.tier == tier@),
        decreases v.slabs.len() - k,
    {
        assert(v@.slabs[k as int] == v.slabs[k as int]@);
        if let Some(s) = find_slab(slabs, v.slabs[k].as_str()) {
            if text::same(s.tier.as_str(), tier) {
                return true;
            }
        }
        k = k + 1;
    }
    false
}

/// How many volumes a node has on a tier.
fn volumes_of_tier(inv: &NodeInventory, tier: &str) -> (n: usize)
    ensures
        n == tier_volumes(inv@, tier@).len(),
{
    let mut seen: NameSet = NameSet::new();
    let mut i: usize = 0;
    while i < inv.volumes.len()
        invariant
            i <= inv.volumes.len(),
            forall|id: Seq<char>| #[trigger]
                seen@.contains(id) <==> exists|j: int|
                    0 <= j < i && (#[trigger] inv@.volumes[j]).volume.id == id && on_tier(
                        inv@.volumes[j],
                        inv@.slabs,
                        tier@,
                    ),
        decreases inv.volumes.len() - i,
    {
        let v: &PlacedVolume = &inv.volumes[i];
        let ghost was = seen@;
        assert(inv@.volumes[i as int] == v@);
        if is_on_tier(v, &inv.slabs, tier) {
            seen.insert(v.volume.id.clone());
        }
        assert forall|id: Seq<char>| #[trigger] seen@.contains(id) implies exists|j: int|
            0 <= j < i + 1 && (#[trigger] inv@.volumes[j]).volume.id == id && on_tier(
                inv@.volumes[j],
                inv@.slabs,
                tier@,
            ) by {
            if was.contains(id) {
                let j = choose|j: int|
                    0 <= j < i && (#[trigger] inv@.volumes[j]).volume.id == id && on_tier(
                        inv@.volumes[j],
                        inv@.slabs,
                        tier@,
                    );
                assert(inv@.volumes[j].volume.id == id);
            } else {
                assert(inv@.volumes[i as int].volume.id == id);
            }
        }
        i = i + 1;
    }
    assert(seen@ =~= tier_volumes(inv@, tier@));
    seen.len()
}

/// The slabs of one tier, summed across the nodes; nothing where a sum cannot
/// be counted.
pub fn tier_rollup(all: &NameMap<NodeInventory>, tier: &str) -> (r: Option<TierRollup>)
    ensures
        r is Some <==> tier_fits(all@, tier@),
        r matches Some(t) ==> t@ == rollup(all@, tier@),
{
    let n: usize = all.len();
    let ghost nodes = all.keys();
    let ghost inv = all@;
    let mut slabs: Vec<String> = Vec::new();
    let mut holders: Vec<String> = Vec::new();
    let mut total: u64 = 0;
    let mut free: u64 = 0;
    let mut allocated: u64 = 0;
    let mut volumes: usize = 0;
    let mut i: usize = 0;
    assert(slabs.deep_view() =~= all_slabs(inv, nodes.take(0), tier@));
    assert(holders.deep_view() =~= nodes_with(inv, nodes.take(0), tier@));
    while i < n
        invariant
            i <= n,
            inv == all@,
            nodes == all.keys(),
            n == nodes.len(),
            slabs.deep_view() == all_slabs(inv, nodes.take(i as int), tier@),
            holders.deep_view() == nodes_with(inv, nodes.take(i as int), tier@),
            total == all_sum(inv, nodes.take(i as int), tier@, total_of()),
            free == all_sum(inv, nodes.take(i as int), tier@, free_of()),
            allocated == all_sum(inv, nodes.take(i as int), tier@, allocated_of()),
            volumes == all_volumes(inv, nodes.take(i as int), tier@),
        decreases n - i,
    {
        let node: &String = all.key_at(i);
        let here: &NodeInventory = all.value_at(i);
        let ghost done = slabs.deep_view();
        let ghost held = holders.deep_view();
        let ghost mine = here@.slabs;
        let ghost before = nodes.take(i as int);
        assert(here@ == inv[nodes[i as int]]);
        assert(nodes.take(i + 1).drop_last() =~= before);
        assert(nodes.take(i + 1).last() == node@);
        let mut any: bool = false;
        let mut j: usize = 0;
        assert(done + node_slabs(node@, mine.take(0), tier@) =~= done);
        while j < here.slabs.len()
            invariant
                j <= here.slabs.len(),
                0 <= i < nodes.len(),
                inv == all@,
                nodes == all.keys(),
                mine == here@.slabs,
                here@ == inv[nodes[i as int]],
                before == nodes.take(i as int),
                node@ == nodes[i as int],
                done == all_slabs(inv, before, tier@),
                slabs.deep_view() == done + node_slabs(node@, mine.take(j as int), tier@),
                any == (node_slabs(node@, mine.take(j as int), tier@).len() > 0),
                total == all_sum(inv, before, tier@, total_of()) + node_sum(
                    mine.take(j as int),
                    tier@,
                    total_of(),
                ),
                free == all_sum(inv, before, tier@, free_of()) + node_sum(
                    mine.take(j as int),
                    tier@,
                    free_of(),
                ),
                allocated == all_sum(inv, before, tier@, allocated_of()) + node_sum(
                    mine.take(j as int),
                    tier@,
                    allocated_of(),
                ),
            decreases here.slabs.len() - j,
        {
            let slab: &Slab = &here.slabs[j];
            let ghost was = slabs.deep_view();
            proof {
                assert(mine.take(j + 1).drop_last() =~= mine.take(j as int));
                assert(mine.take(j + 1).last() == slab@);
                part_of_sum(inv, nodes, tier@, total_of(), i as int, j + 1);
                part_of_sum(inv, nodes, tier@, free_of(), i as int, j + 1);
                part_of_sum(inv, nodes, tier@, allocated_of(), i as int, j + 1);
            }
            if text::same(slab.tier.as_str(), tier) {
                let label: String = node.clone().concat("/").concat(slab.id.as_str());
                slabs.push(label);
                assert(slabs.deep_view() =~= was.push(node@ + "/"@ + slab@.id));
                any = true;
                let used: u64 = slab.allocated_bytes();
                if total > u64::MAX - slab.total_bytes || free > u64::MAX - slab.free_bytes
                    || allocated > u64::MAX - used {
                    return None;
                }
                total = total + slab.total_bytes;
                free = free + slab.free_bytes;
                allocated = allocated + used;
            }
            assert(slabs.deep_view() =~= done + node_slabs(node@, mine.take(j + 1), tier@));
            j = j + 1;
        }
        assert(mine.take(j as int) =~= mine);
        if any {
            holders.push(node.clone());
            assert(holders.deep_view() =~= held.push(node@));
        }
        let more: usize = volumes_of_tier(here, tier);
        proof {
            all_volumes_grows(inv, nodes, tier@, i + 1);
        }
        if volumes > usize::MAX - more {
            return None;
        }
        volumes = volumes + more;
        i = i + 1;
    }
    assert(nodes.take(i as int) =~= nodes);
    Some(
        TierRollup {
            tier: text::owned(tier),
            slabs,
            nodes: holders,
            total_bytes: total,
            free_bytes: free,
            allocated_bytes: allocated,
            volumes,
        },
    )
}

/// The tiers that any node has a slab of, ascending.
fn tier_list(all: &NameMap<NodeInventory>) -> (r: Vec<String>)
    ensures
        r.deep_view() == names::sorted(tier_names(all@)),
        r.deep_view().to_set() == tier_names(all@),
{
    let mut found: NameSet = NameSet::new();
    let n: usize = all.len();
    let ghost nodes = all.keys();
    let mut i: usize = 0;
    while i < n
        invariant
            i <= n,
            nodes == all.keys(),
            n == nodes.len(),
            nodes.to_set() == all@.dom(),
            forall|t: Seq<char>| #[trigger] found@.contains(t) ==> tier_names(all@).contains(t),
            forall|p: int, q: int|
                0 <= p < i && 0 <= q < all@[nodes[p]].slabs.len() ==> found@.contains(
                    (#[trigger] all@[nodes[p]].slabs[q]).tier,
                ),
        decreases n - i,
    {
        let here: &NodeInventory = all.value_at(i);
        let ghost node = nodes[i as int];
        assert(nodes.to_set().contains(node));
        let mut j: usize = 0;
        while j < here.slabs.len()
            invariant
                j <= here.slabs.len(),
                i < n,
                n == nodes.len(),
                node == nodes[i as int],
                all@.contains_key(node),
                here@ == all@[node],
                forall|t: Seq<char>| #[trigger] found@.contains(t) ==> tier_names(all@).contains(t),
                forall|p: int, q: int|
                    0 <= p < i && 0 <= q < all@[nodes[p]].slabs.len() ==> found@.contains(
                        (#[trigger] all@[nodes[p]].slabs[q]).tier,
                    ),
                forall|q: int|
                    0 <= q < j ==> found@.contains((#[trigger] all@[node].slabs[q]).tier),
            decreases here.slabs.len() - j,
        {
            assert(all@[node].slabs[j as int] == here.slabs[j as int]@);
            found.insert(here.slabs[j].tier.clone());
            j = j + 1;
        }
        i = i + 1;
    }
    proof {
        assert forall|t: Seq<char>| tier_names(all@).contains(t) implies found@.contains(t) by {
            let (m, q) = choose|m: Seq<char>, q: int|
                all@.contains_key(m) && 0 <= q < all@[m].slabs.len() && (
                #[trigger] all@[m].slabs[q]).tier == t;
            assert(nodes.to_set().contains(m));
            let p = nodes.index_of(m);
            assert(found@.contains(all@[nodes[p]].slabs[q].tier));
        }
        assert(found@ =~= tier_names(all@));
    }
    found.to_vec()
}

/// Aggregate every node's slabs per tier; nothing where a sum cannot be
/// counted.
pub fn tiers_checked(all: &NameMap<NodeInventory>) -> (r: Option<Vec<TierRollup>>)
    ensures
        r is Some <==> tiers_fit(all@),
        r matches Some(t) ==> t.deep_view() == rollups(all@),
{
    let tiers: Vec<String> = tier_list(all);
    let ghost want = names::sorted(tier_names(all@));
    let mut out: Vec<TierRollup> = Vec::new();
    let mut i: usize = 0;
    while i < tiers.len()
        invariant
            i <= tiers.len(),
            want == tiers.deep_view(),
            want == names::sorted(tier_names(all@)),
            want.to_set() == tier_names(all@),
            out.len() == i,
            forall|j: int|
                0 <= j < i ==> (#[trigger] out[j])@ == rollup(all@, want[j]) && tier_fits(
                    all@,
                    want[j],
                ),
        decreases tiers.len() - i,
    {
        assert(want[i as int] == tiers[i as int]@);
        assert(want.to_set().contains(want[i as int]));
        match tier_rollup(all, tiers[i].as_str()) {
            Some(t) => {
                out.push(t);
            },
            None => {
                return None;
            },
        }
        i = i + 1;
    }
    proof {
        assert forall|t: Seq<char>| #[trigger] tier_names(all@).contains(t) implies tier_fits(
            all@,
            t,
        ) by {
            assert(want.to_set().contains(t));
            let j = want.index_of(t);
            assert(out[j]@ == rollup(all@, want[j]));
        }
        assert(out.deep_view() =~= rollups(all@));
    }
    Some(out)
}

/// Aggregate every node's slabs per tier.
pub fn tiers(all: &NameMap<NodeInventory>) -> (r: Vec<TierRollup>)
    requires
        tiers_fit(all@),
    ensures
        r.deep_view() == rollups(all@),
{
    match tiers_checked(all) {
        Some(t) => t,
        None => vstd::pervasive::unreached(),
    }
}

} // verus!
