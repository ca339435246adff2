use std::collections::HashMap;
use vstd::prelude::*;

verus! {

broadcast use vstd::std_specs::hash::group_hash_axioms;

/// Unique identifier of an entity. It follows the entity wherever the
/// manager moves it; the value 0 never names a live entity.
#[derive(Debug, Clone, Copy, PartialEq, Eq, Hash, Structural)]
pub struct EntityID(pub u32);

/// A handle to an entity: the storage index it had when the handle was made,
/// and its identifier. Two handles are equal when their identifiers are.
#[derive(Debug, Clone, Copy)]
pub struct Entity {
    index: u32,
    uuid: EntityID,
}

impl Entity {
    /// The handle with the given slot and identifier.
    pub closed spec fn handle(index: u32, uuid: u32) -> Entity {
        Entity { index, uuid: EntityID(uuid) }
    }

    pub closed spec fn spec_index(&self) -> u32 {
        self.index
    }

    pub closed spec fn spec_uuid(&self) -> u32 {
        self.uuid.0
    }
}

impl PartialEq for Entity {
    fn eq(&self, other: &Self) -> (r: bool) {
        self.uuid.0 == other.uuid.0
    }
}

impl Eq for Entity {}

impl vstd::std_specs::cmp::PartialEqSpecImpl for Entity {
    open spec fn obeys_eq_spec() -> bool {
        true
    }

    open spec fn eq_spec(&self, other: &Entity) -> bool {
        self.spec_uuid() == other.spec_uuid()
    }
}


/// One slot of entity storage.
#[derive(Clone)]
pub struct EntityEntry {
    live: bool,
    uuid: EntityID,
    parent: Option<Entity>,
    children: Vec<Entity>,
}

impl EntityEntry {
    pub closed spec fn spec_live(&self) -> bool {
        self.live
    }

    pub closed spec fn spec_uuid(&self) -> u32 {
        self.uuid.0
    }

    pub closed spec fn spec_parent(&self) -> Option<Entity> {
        self.parent
    }

    pub closed spec fn spec_children(&self) -> Seq<Entity> {
        self.children@
    }

    /// A slot that holds no entity.
    pub open spec fn is_vacant(&self) -> bool {
        &&& !self.spec_live()
        &&& self.spec_uuid() == 0
        &&& self.spec_parent() is None
        &&& self.spec_children().len() == 0
    }

    fn vacant() -> (e: Self)
        ensures
            e.is_vacant(),
    {
        EntityEntry { live: false, uuid: EntityID(0), parent: None, children: Vec::new() }
    }
}

/// Storage of all entities of a scene, with recycling of vacant slots and a
/// parent/child hierarchy in which every parent is stored before its children.
pub struct EntityManager {
    entity_storage: Vec<EntityEntry>,
    free_indices: Vec<u32>,
    uuid_to_index: HashMap<u32, u32>,
    last_used_uuid: EntityID,
}

/// Where the contents of slot `p` end up after exchanging the two slots of `s`.
pub open spec fn apply_swap(s: (u32, u32), p: int) -> int {
    let (a, b) = s;
    if p == a as int {
        b as int
    } else if p == b as int {
        a as int
    } else {
        p
    }
}

/// Where the contents of slot `p` end up after the exchanges of `swaps`, in
/// order.
pub open spec fn follow_swaps(swaps: Seq<(u32, u32)>, p: int) -> int
    decreases swaps.len(),
{
    if swaps.len() == 0 {
        p
    } else {
        apply_swap(swaps.last(), follow_swaps(swaps.drop_last(), p))
    }
}

/// One more exchange moves each slot's contents once more.
pub proof fn lemma_follow_push(swaps: Seq<(u32, u32)>, s: (u32, u32), p: int)
    ensures
        follow_swaps(swaps.push(s), p) == apply_swap(s, follow_swaps(swaps, p)),
{
    assert(swaps.push(s).drop_last() =~= swaps);
}

/// The smallest element of a set of indices.
pub open spec fn is_min_of(s: Set<u32>, m: u32) -> bool {
    s.contains(m) && forall|x: u32| s.contains(x) ==> m <= x
}

impl EntityManager {
    pub closed spec fn spec_len(&self) -> nat {
        self.entity_storage@.len()
    }

    pub closed spec fn entry(&self, i: int) -> EntityEntry {
        self.entity_storage@[i]
    }

    /// Where each live identifier is stored.
    pub closed spec fn index_map(&self) -> Map<u32, u32> {
        self.uuid_to_index@
    }

    /// The vacant slots that are handed out again before storage grows.
    pub closed spec fn free_set(&self) -> Set<u32> {
        self.free_indices@.to_set()
    }

    pub closed spec fn last_uuid(&self) -> u32 {
        self.last_used_uuid.0
    }

    pub open spec fn is_live_uuid(&self, u: u32) -> bool {
        self.index_map().contains_key(u)
    }

    pub open spec fn index_of(&self, u: u32) -> u32 {
        self.index_map()[u]
    }

    pub open spec fn live_at(&self, i: int) -> bool {
        0 <= i < self.spec_len() && self.entry(i).spec_live()
    }

    /// The identifier of the parent stored in slot `i`, if any.
    pub open spec fn parent_uuid_at(&self, i: int) -> Option<u32> {
        match self.entry(i).spec_parent() {
            Some(p) => Some(p.spec_uuid()),
            None => None,
        }
    }

    closed spec fn wf_index_map(&self) -> bool {
        &&& forall|u: u32| #[trigger]
            self.index_map().contains_key(u) ==> {
                &&& (self.index_map()[u] as int) < self.spec_len()
                &&& self.entry(self.index_map()[u] as int).spec_live()
                &&& self.entry(self.index_map()[u] as int).spec_uuid() == u
                &&& 0 < u <= self.last_uuid()
            }
        &&& forall|i: int| #[trigger]
            self.live_at(i) ==> {
                &&& self.index_map().contains_key(self.entry(i).spec_uuid())
                &&& self.index_map()[self.entry(i).spec_uuid()] == i
            }
    }

    closed spec fn wf_free(&self) -> bool {
        &&& self.free_indices@.no_duplicates()
        &&& forall|k: int|
            0 <= k < self.free_indices@.len() ==> {
                &&& (#[trigger] self.free_indices@[k] as int) < self.spec_len()
                &&& !self.entry(self.free_indices@[k] as int).spec_live()
            }
        &&& forall|i: int|
            0 <= i < self.spec_len() && !#[trigger] self.entry(i).spec_live() ==> {
                &&& self.entry(i).is_vacant()
                &&& self.free_indices@.contains(i as u32)
            }
    }

    closed spec fn wf_parent(&self) -> bool {
        forall|i: int| #[trigger]
            self.live_at(i) && self.entry(i).spec_parent() is Some ==> {
                let pu = self.entry(i).spec_parent()->0.spec_uuid();
                &&& self.is_live_uuid(pu)
                &&& exists|k: int|
                    0 <= k < self.entry(self.index_of(pu) as int).spec_children().len()
                        && #[trigger] self.entry(self.index_of(pu) as int).spec_children()[k].spec_uuid()
                        == self.entry(i).spec_uuid()
            }
    }

    /// The parent of slot `i`, if any, is stored before it.
    pub open spec fn good_at(&self, i: int) -> bool {
        match self.entry(i).spec_parent() {
            Some(p) => (self.index_of(p.spec_uuid()) as int) < i,
            None => true,
        }
    }

    closed spec fn wf_order(&self) -> bool {
        forall|i: int| #[trigger] self.live_at(i) ==> self.good_at(i)
    }

    closed spec fn wf_children(&self) -> bool {
        forall|i: int, k: int|
            self.live_at(i) && 0 <= k < self.entry(i).spec_children().len() ==> {
                let cu = #[trigger] self.entry(i).spec_children()[k].spec_uuid();
                &&& self.is_live_uuid(cu)
                &&& self.parent_uuid_at(self.index_of(cu) as int) == Some(self.entry(i).spec_uuid())
                &&& forall|k2: int|
                    0 <= k2 < self.entry(i).spec_children().len() && k2 != k
                        ==> self.entry(i).spec_children()[k2].spec_uuid() != cu
            }
    }

    /// The invariant of the storage.
    pub closed spec fn wf(&self) -> bool {
        &&& self.wf_links()
        &&& self.wf_order()
    }

    /// The invariant without the order of parents before children.
    closed spec fn wf_links(&self) -> bool {
        &&& self.spec_len() <= u32::MAX
        &&& self.wf_index_map()
        &&& self.wf_free()
        &&& self.wf_parent()
        &&& self.wf_children()
    }

    pub fn new() -> (m: Self)
        ensures
            m.wf(),
            m.spec_len() == 0,
            m.index_map() == Map::<u32, u32>::empty(),
            m.free_set() == Set::<u32>::empty(),
            m.last_uuid() == 0,
    {
        let m = EntityManager {
            entity_storage: Vec::new(),
            free_indices: Vec::new(),
            uuid_to_index: HashMap::new(),
            last_used_uuid: EntityID(0),
        };
        assert(m.free_indices@.to_set() =~= Set::<u32>::empty());
        m
    }

    /// Where the entity with identifier `uuid` is stored, if it is live.
    pub fn get_entity_index_by_uuid(&self, uuid: EntityID) -> (r: Option<u32>)
        requires
            self.wf(),
        ensures
            r == (if self.is_live_uuid(uuid.0) {
                Some(self.index_of(uuid.0))
            } else {
                None
            }),
    {
        match self.uuid_to_index.get(&uuid.0) {
            Some(index) => {
                let ent = &self.entity_storage[*index as usize];
                if ent.live {
                    Some(*index)
                } else {
                    None
                }
            },
            None => None,
        }
    }

    /// Where the entity that `e` names is stored now, if it is live.
    pub fn get_entity_index(&self, e: &Entity) -> (r: Option<u32>)
        requires
            self.wf(),
        ensures
            r == (if self.is_live_uuid(e.spec_uuid()) {
                Some(self.index_of(e.spec_uuid()))
            } else {
                None
            }),
    {
        self.get_entity_index_by_uuid(e.uuid)
    }

    fn get_entity_entry(&self, e: &Entity) -> (r: Option<&EntityEntry>)
        requires
            self.wf(),
        ensures
            match r {
                Some(entry) => self.is_live_uuid(e.spec_uuid()) && *entry == self.entry(
                    self.index_of(e.spec_uuid()) as int,
                ),
                None => !self.is_live_uuid(e.spec_uuid()),
            },
    {
        let index = self.get_entity_index(e);
        if index.is_none() {
            return None;
        }
        Some(&self.entity_storage[index.unwrap() as usize])
    }

    pub fn is_live(&self, e: &Entity) -> (r: bool)
        requires
            self.wf(),
        ensures
            r == self.is_live_uuid(e.spec_uuid()),
    {
        match self.get_entity_entry(e) {
            Some(entry) => entry.live,
            None => false,
        }
    }

    fn get_entity_from_index(&self, index: u32) -> (r: Option<Entity>)
        requires
            self.wf(),
        ensures
            r == (if self.live_at(index as int) {
                Some(Entity { index, uuid: EntityID(self.entry(index as int).spec_uuid()) })
            } else {
                None
            }),
    {
        if (index as usize) < self.entity_storage.len() {
            let entry = &self.entity_storage[index as usize];
            if entry.live {
                return Some(Entity { index, uuid: entry.uuid });
            } else {
                return None;
            }
        }
        None
    }

    /// The index of the parent of whatever is stored at `entity_index`.
    pub fn get_parent_index_from_index(&self, entity_index: u32) -> (r: Option<u32>)
        requires
            self.wf(),
        ensures
            r == (if self.live_at(entity_index as int) && self.parent_uuid_at(
                entity_index as int,
            ) is Some {
                Some(self.index_of(self.parent_uuid_at(entity_index as int)->0))
            } else {
                None
            }),
    {
        if (entity_index as usize) < self.entity_storage.len() {
            let entry = &self.entity_storage[entity_index as usize];
            match &entry.parent {
                Some(parent) => {
                    assert(self.live_at(entity_index as int));
                    return self.get_entity_index(parent);
                },
                None => return None,
            }
        }
        None
    }

    /// The parent of `e` as it was set, if `e` is live and has one.
    pub fn get_entity_parent(&self, e: &Entity) -> (r: Option<Entity>)
        requires
            self.wf(),
        ensures
            r == (if self.is_live_uuid(e.spec_uuid()) {
                self.entry(self.index_of(e.spec_uuid()) as int).spec_parent()
            } else {
                None
            }),
    {
        match self.get_entity_entry(e) {
            Some(entry) => entry.parent,
            None => None,
        }
    }

    /// The children of `e`, in the order they were attached, if `e` is live.
    pub fn get_entity_children(&self, e: &Entity) -> (r: Option<&Vec<Entity>>)
        requires
            self.wf(),
        ensures
            match r {
                Some(v) => self.is_live_uuid(e.spec_uuid()) && v@ == self.entry(
                    self.index_of(e.spec_uuid()) as int,
                ).spec_children(),
                None => !self.is_live_uuid(e.spec_uuid()),
            },
    {
        match self.get_entity_entry(e) {
            Some(entry) => Some(&entry.children),
            None => None,
        }
    }

    /// Walking up from slot `i`: the parent handle stored just below the top of
    /// the hierarchy, or `None` when slot `i` has no parent.
    pub open spec fn topmost_parent(&self, i: int) -> Option<Entity>
        decreases i,
    {
        if !(0 <= i < self.spec_len()) {
            None
        } else {
            match self.entry(i).spec_parent() {
                None => None,
                Some(p) => {
                    let pi = self.index_of(p.spec_uuid()) as int;
                    if self.is_live_uuid(p.spec_uuid()) && 0 <= pi < i {
                        match self.topmost_parent(pi) {
                            None => Some(p),
                            Some(q) => Some(q),
                        }
                    } else {
                        None
                    }
                },
            }
        }
    }

    /// The topmost parent found from a live slot `i` is live, has no parent,
    /// and is an ancestor of the entity in slot `i`; there is none exactly
    /// when that entity has no parent.
    pub proof fn lemma_topmost_parent(&self, i: int)
        requires
            self.wf(),
            self.live_at(i),
        ensures
            (self.topmost_parent(i) is None) == (self.entry(i).spec_parent() is None),
            self.topmost_parent(i) matches Some(q) ==> {
                &&& self.is_live_uuid(q.spec_uuid())
                &&& self.entry(self.index_of(q.spec_uuid()) as int).spec_parent() is None
                &&& q.spec_uuid() != self.entry(i).spec_uuid()
                &&& self.descends_from(i, q.spec_uuid())
            },
        decreases i,
    {
        self.lemma_wf_facts();
        match self.entry(i).spec_parent() {
            None => {},
            Some(p) => {
                let pi = self.index_of(p.spec_uuid()) as int;
                assert(self.live_at(pi));
                self.lemma_topmost_parent(pi);
                assert(self.entry(pi).spec_uuid() == p.spec_uuid());
                if self.topmost_parent(pi) is None {
                    assert(self.descends_from(pi, p.spec_uuid()));
                } else {
                    let q = self.topmost_parent(pi)->0;
                    if q.spec_uuid() == self.entry(i).spec_uuid() {
                        assert(self.index_of(q.spec_uuid()) as int == i);
                        assert(false);
                    }
                }
            },
        }
    }

    /// The topmost parent of the hierarchy that `e` belongs to; `e` itself
    /// when it has no parent or is not live.
    pub fn get_entity_ancestor(&self, e: &Entity) -> (r: Entity)
        requires
            self.wf(),
        ensures
            r == (if self.is_live_uuid(e.spec_uuid()) {
                match self.topmost_parent(self.index_of(e.spec_uuid()) as int) {
                    Some(q) => q,
                    None => *e,
                }
            } else {
                *e
            }),
    {
        let ghost ans = if self.is_live_uuid(e.spec_uuid()) {
            self.topmost_parent(self.index_of(e.spec_uuid()) as int)
        } else {
            None
        };
        let mut parent = self.get_entity_parent(e);
        proof {
            if self.is_live_uuid(e.spec_uuid()) {
                assert(self.live_at(self.index_of(e.spec_uuid()) as int));
            }
        }
        while parent.is_some()
            invariant
                self.wf(),
                ans == (if self.is_live_uuid(e.spec_uuid()) {
                    self.topmost_parent(self.index_of(e.spec_uuid()) as int)
                } else {
                    None
                }),
                parent is Some ==> {
                    let p = parent->0;
                    &&& self.is_live_uuid(p.spec_uuid())
                    &&& ans == match self.topmost_parent(self.index_of(p.spec_uuid()) as int) {
                        None => Some(p),
                        Some(q) => Some(q),
                    }
                },
                parent is None ==> ans is None,
            decreases
                (match parent {
                    Some(p) => self.index_of(p.spec_uuid()) as int,
                    None => 0,
                }),
        {
            let p = parent.unwrap();
            proof {
                assert(self.live_at(self.index_of(p.spec_uuid()) as int));
            }
            let parent_parent = self.get_entity_parent(&p);
            if parent_parent.is_none() {
                assert(self.topmost_parent(self.index_of(p.spec_uuid()) as int) is None);
                return p;
            }
            proof {
                let pp = parent_parent->0;
                assert(self.live_at(self.index_of(p.spec_uuid()) as int));
            }
            parent = parent_parent;
        }
        *e
    }

    /// All of the invariant, except that slot `idx` may be vacant without being
    /// in the free list (it has been claimed for a new entity).
    closed spec fn wf_claimed(&self, idx: int) -> bool {
        &&& self.spec_len() <= u32::MAX
        &&& self.wf_index_map()
        &&& self.free_indices@.no_duplicates()
        &&& forall|k: int|
            0 <= k < self.free_indices@.len() ==> {
                &&& (#[trigger] self.free_indices@[k] as int) < self.spec_len()
                &&& !self.entry(self.free_indices@[k] as int).spec_live()
                &&& self.free_indices@[k] as int != idx
            }
        &&& forall|i: int|
            0 <= i < self.spec_len() && !#[trigger] self.entry(i).spec_live() ==> {
                &&& self.entry(i).is_vacant()
                &&& (i == idx || self.free_indices@.contains(i as u32))
            }
        &&& self.wf_parent()
        &&& self.wf_children()
    }

    proof fn lemma_free_below_len(&self, x: u32)
        requires
            self.wf(),
            self.free_set().contains(x),
        ensures
            (x as int) < self.spec_len(),
            !self.entry(x as int).spec_live(),
            self.entry(x as int).is_vacant(),
    {
        let k = choose|k: int| 0 <= k < self.free_indices@.len() && self.free_indices@[k] == x;
        assert(self.free_indices@[k] == x);
    }

    proof fn lemma_same_entries(a: &Self, b: &Self)
        requires
            a.entity_storage@ == b.entity_storage@,
            a.uuid_to_index@ == b.uuid_to_index@,
            a.last_used_uuid == b.last_used_uuid,
        ensures
            a.wf_index_map() == b.wf_index_map(),
            a.wf_parent() == b.wf_parent(),
            a.wf_children() == b.wf_children(),
            a.wf_order() == b.wf_order(),
            a.free_indices@ == b.free_indices@ ==> a.wf_free() == b.wf_free(),
    {
        assert(forall|i: int| a.entry(i) == b.entry(i));
        assert(forall|i: int| a.live_at(i) == b.live_at(i));
        assert(a.index_map() == b.index_map());
    }

    /// Takes the smallest index out of the free list.
    fn pop_min_free(&mut self) -> (r: Option<u32>)
        requires
            old(self).wf(),
        ensures
            final(self).spec_len() == old(self).spec_len(),
            final(self).entity_storage@ == old(self).entity_storage@,
            final(self).uuid_to_index@ == old(self).uuid_to_index@,
            final(self).last_used_uuid == old(self).last_used_uuid,
            match r {
                None => old(self).free_set() == Set::<u32>::empty() && final(self).wf(),
                Some(m) => {
                    &&& is_min_of(old(self).free_set(), m)
                    &&& final(self).free_set() == old(self).free_set().remove(m)
                    &&& final(self).wf_claimed(m as int)
                },
            },
    {
        let n = self.free_indices.len();
        if n == 0 {
            assert(self.free_indices@.to_set() =~= Set::<u32>::empty());
            return None;
        }
        let mut best: usize = 0;
        let mut k: usize = 1;
        while k < n
            invariant
                n == self.free_indices@.len(),
                best < n,
                1 <= k <= n,
                forall|j: int| 0 <= j < k ==> self.free_indices@[best as int] <= #[trigger] self.free_indices@[j],
            decreases n - k,
        {
            if self.free_indices[k] < self.free_indices[best] {
                best = k;
            }
            k = k + 1;
        }
        let ghost old_free = self.free_indices@;
        let m = self.free_indices.swap_remove(best);
        proof {
            let new_free = self.free_indices@;
            assert(old_free.to_set().contains(m));
            assert forall|x: u32| old_free.to_set().contains(x) implies m <= x by {
                let j = choose|j: int| 0 <= j < old_free.len() && old_free[j] == x;
                assert(old_free[j] == x);
            }
            assert(new_free =~= old_free.update(best as int, old_free.last()).drop_last());
            assert forall|x: u32| new_free.to_set().contains(x) <==> old_free.to_set().remove(m).contains(x) by {
                if new_free.to_set().contains(x) {
                    let j = choose|j: int| 0 <= j < new_free.len() && new_free[j] == x;
                    if j == best as int {
                        assert(old_free[old_free.len() - 1] == x);
                    } else {
                        assert(old_free[j] == x);
                    }
                }
                if old_free.to_set().remove(m).contains(x) {
                    let j = choose|j: int| 0 <= j < old_free.len() && old_free[j] == x;
                    if j == old_free.len() - 1 {
                        assert(new_free[best as int] == x);
                    } else {
                        assert(new_free[j] == x);
                    }
                }
            }
            assert(new_free.to_set() =~= old_free.to_set().remove(m));
            assert(new_free.no_duplicates());
            assert forall|i: int|
                0 <= i < self.spec_len() && !#[trigger] self.entry(i).spec_live() implies (i == m as int
                    || self.free_indices@.contains(i as u32)) by {
                assert(old(self).entry(i) == self.entry(i));
                assert(old_free.contains(i as u32));
                if i != m as int {
                    assert(old_free.to_set().contains(i as u32));
                    assert(new_free.to_set().contains(i as u32));
                }
            }
            assert forall|j: int| 0 <= j < new_free.len() implies #[trigger] new_free[j] as int != m as int by {
                if j == best as int {
                } else {
                }
            }
            assert forall|kk: int|
                0 <= kk < self.free_indices@.len() implies {
                    &&& (#[trigger] self.free_indices@[kk] as int) < self.spec_len()
                    &&& !self.entry(self.free_indices@[kk] as int).spec_live()
                    &&& self.free_indices@[kk] as int != m as int
                } by {
                if kk == best as int {
                    assert(old_free[old_free.len() - 1] == new_free[kk]);
                } else {
                    assert(old_free[kk] == new_free[kk]);
                }
            }
            Self::lemma_same_entries(self, old(self));
            assert(self.wf_claimed(m as int));
        }
        Some(m)
    }

    fn new_entity_at_index(&mut self, entity_storage_index: u32) -> (r: Entity)
        requires
            old(self).wf_claimed(entity_storage_index as int),
            (entity_storage_index as int) <= old(self).spec_len(),
            (entity_storage_index as int) < old(self).spec_len() ==> !old(self).entry(
                entity_storage_index as int,
            ).spec_live(),
            old(self).spec_len() < u32::MAX,
            old(self).last_uuid() < u32::MAX,
        ensures
            final(self).wf_links(),
            forall|i: int| #[trigger]
                old(self).live_at(i) ==> final(self).good_at(i) == old(self).good_at(i),
            final(self).good_at(entity_storage_index as int),
            final(self).spec_len() == (if entity_storage_index as int == old(self).spec_len() {
                old(self).spec_len() + 1
            } else {
                old(self).spec_len()
            }),
            final(self).last_uuid() == old(self).last_uuid() + 1,
            final(self).index_map() == old(self).index_map().insert(
                (old(self).last_uuid() + 1) as u32,
                entity_storage_index,
            ),
            final(self).free_indices@ == old(self).free_indices@,
            forall|i: int|
                0 <= i < old(self).spec_len() && i != entity_storage_index as int
                    ==> #[trigger] final(self).entry(i) == old(self).entry(i),
            final(self).entry(entity_storage_index as int).spec_live(),
            final(self).entry(entity_storage_index as int).spec_uuid() == old(self).last_uuid() + 1,
            final(self).entry(entity_storage_index as int).spec_parent() is None,
            final(self).entry(entity_storage_index as int).spec_children().len() == 0,
            r.spec_index() == entity_storage_index,
            r.spec_uuid() == old(self).last_uuid() + 1,
    {
        if (entity_storage_index as usize) >= self.entity_storage.len() {
            self.entity_storage.push(EntityEntry::vacant());
        }
        self.last_used_uuid = EntityID(self.last_used_uuid.0 + 1);
        let uuid = self.last_used_uuid;
        self.entity_storage.set(
            entity_storage_index as usize,
            EntityEntry { live: true, uuid, parent: None, children: Vec::new() },
        );
        self.uuid_to_index.insert(uuid.0, entity_storage_index);
        proof {
            let o = old(self);
            let idx = entity_storage_index as int;
            assert(!o.index_map().contains_key(uuid.0));
            assert forall|i: int| #[trigger] self.live_at(i) implies {
                &&& self.index_map().contains_key(self.entry(i).spec_uuid())
                &&& self.index_map()[self.entry(i).spec_uuid()] == i
            } by {
                if i != idx {
                    assert(o.live_at(i));
                }
            }
            assert forall|k: int|
                0 <= k < self.free_indices@.len() implies {
                    &&& (#[trigger] self.free_indices@[k] as int) < self.spec_len()
                    &&& !self.entry(self.free_indices@[k] as int).spec_live()
                } by {
                assert(o.free_indices@[k] as int != idx);
            }
            assert forall|i: int|
                0 <= i < self.spec_len() && !#[trigger] self.entry(i).spec_live() implies {
                    &&& self.entry(i).is_vacant()
                    &&& self.free_indices@.contains(i as u32)
                } by {
                assert(i != idx);
                assert(!o.entry(i).spec_live());
            }
            assert forall|i: int| #[trigger]
                self.live_at(i) && self.entry(i).spec_parent() is Some implies {
                    let pu = self.entry(i).spec_parent()->0.spec_uuid();
                    &&& self.is_live_uuid(pu)
                    &&& exists|k: int|
                        0 <= k < self.entry(self.index_of(pu) as int).spec_children().len()
                            && #[trigger] self.entry(self.index_of(pu) as int).spec_children()[k].spec_uuid()
                            == self.entry(i).spec_uuid()
                } by {
                assert(i != idx);
                assert(o.live_at(i));
                let pu = self.entry(i).spec_parent()->0.spec_uuid();
                assert(o.is_live_uuid(pu));
                assert(pu != uuid.0);
                let pi = o.index_of(pu) as int;
                assert(o.live_at(pi));
                assert(pi != idx);
                let k = choose|k: int|
                    0 <= k < o.entry(pi).spec_children().len()
                        && #[trigger] o.entry(pi).spec_children()[k].spec_uuid() == o.entry(i).spec_uuid();
                assert(self.entry(pi).spec_children()[k].spec_uuid() == self.entry(i).spec_uuid());
            }
            assert forall|i: int, k: int|
                self.live_at(i) && 0 <= k < self.entry(i).spec_children().len() implies {
                    let cu = #[trigger] self.entry(i).spec_children()[k].spec_uuid();
                    &&& self.is_live_uuid(cu)
                    &&& self.parent_uuid_at(self.index_of(cu) as int) == Some(self.entry(i).spec_uuid())
                    &&& forall|k2: int|
                        0 <= k2 < self.entry(i).spec_children().len() && k2 != k
                            ==> self.entry(i).spec_children()[k2].spec_uuid() != cu
                } by {
                assert(i != idx);
                assert(o.live_at(i));
                let cu = o.entry(i).spec_children()[k].spec_uuid();
                assert(o.is_live_uuid(cu));
                assert(cu != uuid.0);
                assert(o.live_at(o.index_of(cu) as int));
            }
        }
        proof {
            let o = old(self);
            assert forall|i: int| #[trigger]
                o.live_at(i) implies self.good_at(i) == o.good_at(i) by {
                assert(i != entity_storage_index as int);
                match o.entry(i).spec_parent() {
                    Some(p) => {
                        assert(o.is_live_uuid(p.spec_uuid()));
                        assert(p.spec_uuid() != uuid.0);
                    },
                    None => {},
                }
            }
        }
        Entity { index: entity_storage_index, uuid }
    }

    /// The slot the next new entity takes: the smallest vacant slot in the
    /// free list, or a new slot at the end of storage.
    pub open spec fn is_next_index(&self, i: u32) -> bool {
        if self.free_set() == Set::<u32>::empty() {
            i as int == self.spec_len()
        } else {
            is_min_of(self.free_set(), i)
        }
    }

    /// What a call of `new_entity` on `self` leaves and returns.
    pub open spec fn new_entity_post(&self, new: &Self, e: Entity) -> bool {
        &&& new.wf()
        &&& self.is_next_index(e.spec_index())
        &&& e.spec_uuid() == self.last_uuid() + 1
        &&& new.last_uuid() == self.last_uuid() + 1
        &&& new.index_map() == self.index_map().insert(e.spec_uuid(), e.spec_index())
        &&& new.free_set() == self.free_set().remove(e.spec_index())
        &&& new.spec_len() == (if e.spec_index() as int == self.spec_len() {
            self.spec_len() + 1
        } else {
            self.spec_len()
        })
        &&& new.entry(e.spec_index() as int).spec_live()
        &&& new.entry(e.spec_index() as int).spec_uuid() == e.spec_uuid()
        &&& new.entry(e.spec_index() as int).spec_parent() is None
        &&& new.entry(e.spec_index() as int).spec_children().len() == 0
        &&& forall|i: int|
            0 <= i < self.spec_len() && i != e.spec_index() as int ==> #[trigger] new.entry(i)
                == self.entry(i)
    }

    /// Returns a new entity. It takes the smallest vacant slot if there is
    /// one, and a new slot at the end of storage otherwise.
    pub fn new_entity(&mut self) -> (r: Entity)
        requires
            old(self).wf(),
            old(self).spec_len() < u32::MAX,
            old(self).last_uuid() < u32::MAX,
        ensures
            old(self).new_entity_post(final(self), r),
    {
        let target_index = match self.pop_min_free() {
            Some(vacant_index) => {
                proof {
                    old(self).lemma_free_below_len(vacant_index);
                }
                vacant_index
            },
            None => self.entity_storage.len() as u32,
        };
        let ghost mid = *self;
        proof {
            assert(mid.wf_claimed(target_index as int));
            assert(forall|i: int| mid.entry(i) == old(self).entry(i));
        }
        let r = self.new_entity_at_index(target_index);
        proof {
            let o = old(self);
            assert(self.free_indices@ == mid.free_indices@);
            assert(self.free_set() == mid.free_set());
            if o.free_set() == Set::<u32>::empty() {
                assert(o.free_set().remove(target_index) =~= Set::<u32>::empty());
            }
            assert(o.is_next_index(r.spec_index()));
            assert forall|i: int| #[trigger] self.live_at(i) implies self.good_at(i) by {
                if i != r.spec_index() as int {
                    assert(o.live_at(i));
                }
            }
            assert(self.wf());
            assert(self.free_set() == o.free_set().remove(r.spec_index()));
            assert(self.index_map() == o.index_map().insert(r.spec_uuid(), r.spec_index()));
        }
        r
    }

    /// Successive calls of `new_entity` hand out strictly increasing indices.
    pub proof fn lemma_new_entity_indices_increase(
        m0: &Self,
        m1: &Self,
        m2: &Self,
        e1: Entity,
        e2: Entity,
    )
        requires
            m0.wf(),
            m0.new_entity_post(m1, e1),
            m1.new_entity_post(m2, e2),
        ensures
            e1.spec_index() < e2.spec_index(),
    {
        if m0.free_set() == Set::<u32>::empty() {
            assert(m1.free_set() =~= Set::<u32>::empty());
        } else {
            m0.lemma_free_below_len(e1.spec_index());
            if m1.free_set() == Set::<u32>::empty() {
            } else {
                assert(m1.free_set().contains(e2.spec_index()));
                assert(m0.free_set().contains(e2.spec_index()));
            }
        }
    }

    /// A new entity is live, found at the slot its handle names, under an
    /// identifier that was not in use; deleting it right away leaves exactly
    /// the entities that were live before it was made.
    pub proof fn lemma_delete_undoes_new(m0: &Self, m1: &Self, m2: &Self, e: Entity)
        requires
            m0.wf(),
            m0.new_entity_post(m1, e),
            m1.delete_post(m2, e.spec_uuid()),
        ensures
            !m0.is_live_uuid(e.spec_uuid()),
            m1.is_live_uuid(e.spec_uuid()),
            m1.index_of(e.spec_uuid()) == e.spec_index(),
            !m2.is_live_uuid(e.spec_uuid()),
            forall|u: u32| #[trigger] m2.is_live_uuid(u) <==> m0.is_live_uuid(u),
    {
        let eu = e.spec_uuid();
        assert(!m0.is_live_uuid(eu)) by {
            if m0.index_map().contains_key(eu) {
                assert(eu <= m0.last_uuid());
            }
        }
        assert(m1.is_live_uuid(eu));
        assert(m1.live_at(e.spec_index() as int));
        assert(m1.descends_from(e.spec_index() as int, eu));
        assert forall|u: u32| #[trigger] m2.is_live_uuid(u) <==> m0.is_live_uuid(u) by {
            if u != eu && m1.is_live_uuid(u) {
                if m1.descends_from(m1.index_of(u) as int, eu) {
                    assert(m1.live_at(m1.index_of(u) as int));
                    assert(m1.entry(m1.index_of(u) as int).spec_uuid() == u);
                    m1.lemma_descends_child(m1.index_of(u) as int, eu);
                    assert(m1.entry(m1.index_of(eu) as int).spec_children().len() == 0);
                }
            }
        }
    }


    /// A new entity takes a slot that no live entity held, gets an
    /// identifier that no live entity had, and is found at that slot
    /// afterwards, below the slot count.
    pub proof fn lemma_new_entity_slot(m0: &Self, m1: &Self, e: Entity)
        requires
            m0.wf(),
            m0.new_entity_post(m1, e),
        ensures
            !m0.is_live_uuid(e.spec_uuid()),
            !m0.live_at(e.spec_index() as int),
            forall|u: u32| #[trigger] m0.is_live_uuid(u) ==> m0.index_of(u) != e.spec_index(),
            m1.is_live_uuid(e.spec_uuid()),
            m1.index_of(e.spec_uuid()) == e.spec_index(),
            (e.spec_index() as int) < m1.spec_len(),
    {
        m0.lemma_wf_facts();
        if (e.spec_index() as int) < m0.spec_len() {
            assert(m0.free_set().contains(e.spec_index()));
            m0.lemma_free_below_len(e.spec_index());
            assert(m0.free_indices@.contains(e.spec_index()));
            let k = choose|k: int|
                0 <= k < m0.free_indices@.len() && m0.free_indices@[k] == e.spec_index();
            assert(!m0.entry(m0.free_indices@[k] as int).spec_live());
        }
        assert forall|u: u32| #[trigger] m0.is_live_uuid(u) implies m0.index_of(u) != e.spec_index() by {
            assert(m0.live_at(m0.index_of(u) as int));
        }
        assert(!m0.is_live_uuid(e.spec_uuid())) by {
            if m0.is_live_uuid(e.spec_uuid()) {
                assert(e.spec_uuid() <= m0.last_uuid());
            }
        }
    }

    /// Walking up the parents from the live slot `i` reaches the entity with
    /// identifier `a` (slot `i` itself counts).
    pub open spec fn descends_from(&self, i: int, a: u32) -> bool
        decreases i,
    {
        if !self.live_at(i) {
            false
        } else if self.entry(i).spec_uuid() == a {
            true
        } else {
            match self.entry(i).spec_parent() {
                None => false,
                Some(p) => {
                    let pi = self.index_of(p.spec_uuid()) as int;
                    if self.is_live_uuid(p.spec_uuid()) && 0 <= pi < i {
                        self.descends_from(pi, a)
                    } else {
                        false
                    }
                },
            }
        }
    }

    /// What the storage invariant gives its users: storage fits in 32 bits;
    /// each live identifier sits in a live slot below the slot count that
    /// holds it, and each live slot is found by its identifier (so distinct
    /// live identifiers have distinct slots); identifiers in use are at most
    /// the last one handed out; a parent is live, stored before its child, and
    /// lists the child exactly once; each listed child is live, has this
    /// entity as its parent, and occurs once in the list; the vacant slots
    /// are exactly the slots below the slot count that are not live, and hold
    /// no links; there are no more live entities than slots.
    pub proof fn lemma_wf_facts(&self)
        requires
            self.wf(),
        ensures
            self.spec_len() <= u32::MAX,
            forall|u: u32| #[trigger]
                self.is_live_uuid(u) ==> {
                    &&& (self.index_of(u) as int) < self.spec_len()
                    &&& self.live_at(self.index_of(u) as int)
                    &&& self.entry(self.index_of(u) as int).spec_uuid() == u
                    &&& 0 < u <= self.last_uuid()
                },
            forall|i: int| #[trigger]
                self.live_at(i) ==> {
                    &&& self.is_live_uuid(self.entry(i).spec_uuid())
                    &&& self.index_of(self.entry(i).spec_uuid()) == i
                },
            forall|i: int| #[trigger]
                self.live_at(i) && self.entry(i).spec_parent() is Some ==> {
                    let pu = self.entry(i).spec_parent()->0.spec_uuid();
                    &&& self.is_live_uuid(pu)
                    &&& (self.index_of(pu) as int) < i
                    &&& exists|k: int|
                        0 <= k < self.entry(self.index_of(pu) as int).spec_children().len()
                            && #[trigger] self.entry(self.index_of(pu) as int).spec_children()[k].spec_uuid()
                            == self.entry(i).spec_uuid()
                },
            forall|i: int, k: int|
                self.live_at(i) && 0 <= k < self.entry(i).spec_children().len() ==> {
                    let cu = #[trigger] self.entry(i).spec_children()[k].spec_uuid();
                    &&& self.is_live_uuid(cu)
                    &&& self.parent_uuid_at(self.index_of(cu) as int) == Some(self.entry(i).spec_uuid())
                    &&& forall|k2: int|
                        0 <= k2 < self.entry(i).spec_children().len() && k2 != k
                            ==> self.entry(i).spec_children()[k2].spec_uuid() != cu
                },
            forall|i: int|
                0 <= i < self.spec_len() && !#[trigger] self.entry(i).spec_live() ==> self.entry(
                    i,
                ).is_vacant(),
            forall|x: u32| #[trigger]
                self.free_set().contains(x) <==> (x as int) < self.spec_len() && !self.entry(
                    x as int,
                ).spec_live(),
            self.index_map().dom().finite(),
            self.index_map().dom().len() <= self.spec_len(),
    {
        self.lemma_live_count();
        assert forall|x: u32| #[trigger] self.free_set().contains(x) <==> (x as int) < self.spec_len()
            && !self.entry(x as int).spec_live() by {
            if self.free_set().contains(x) {
                self.lemma_free_below_len(x);
            }
            if (x as int) < self.spec_len() && !self.entry(x as int).spec_live() {
                assert(self.free_indices@.contains(x as int as u32));
            }
        }
        assert forall|i: int| #[trigger]
            self.live_at(i) && self.entry(i).spec_parent() is Some implies (self.index_of(
            self.entry(i).spec_parent()->0.spec_uuid(),
        ) as int) < i by {
            assert(self.good_at(i));
        }
    }

    /// Whether `e` is live and `ancestor` is `e` itself or one of its
    /// ancestors.
    pub fn is_descendant(&self, e: &Entity, ancestor: &Entity) -> (r: bool)
        requires
            self.wf(),
        ensures
            r == (self.is_live_uuid(e.spec_uuid()) && self.descends_from(
                self.index_of(e.spec_uuid()) as int,
                ancestor.spec_uuid(),
            )),
    {
        let a = ancestor.uuid.0;
        let mut i = match self.lookup_index(e.uuid.0) {
            Some(i) => i,
            None => return false,
        };
        let ghost i0 = i as int;
        proof {
            self.lemma_wf_facts();
        }
        loop
            invariant
                self.wf(),
                a == ancestor.spec_uuid(),
                self.is_live_uuid(e.spec_uuid()),
                i0 == self.index_of(e.spec_uuid()) as int,
                self.live_at(i as int),
                self.descends_from(i0, a) == self.descends_from(i as int, a),
            decreases i,
        {
            proof {
                self.lemma_wf_facts();
            }
            if self.entity_storage[i as usize].uuid.0 == a {
                return true;
            }
            match &self.entity_storage[i as usize].parent {
                None => return false,
                Some(p) => {
                    let pi = self.lookup_index(p.uuid.0).unwrap();
                    i = pi;
                },
            }
        }
    }

    /// A descendant is stored after its ancestor.
    proof fn lemma_descends_index(&self, i: int, a: u32)
        requires
            self.wf_links(),
            self.descends_from(i, a),
        ensures
            self.is_live_uuid(a),
            self.index_of(a) as int <= i,
            self.entry(i).spec_uuid() != a ==> (self.index_of(a) as int) < i,
        decreases i,
    {
        assert(self.live_at(i));
        if self.entry(i).spec_uuid() == a {
        } else {
            let p = self.entry(i).spec_parent()->0;
            let pi = self.index_of(p.spec_uuid()) as int;
            self.lemma_descends_index(pi, a);
        }
    }

    /// Descending is transitive.
    proof fn lemma_descends_trans(&self, i: int, b: u32, a: u32)
        requires
            self.wf_links(),
            self.descends_from(i, b),
            self.is_live_uuid(b),
            self.descends_from(self.index_of(b) as int, a),
        ensures
            self.descends_from(i, a),
        decreases i,
    {
        if self.entry(i).spec_uuid() == b {
            assert(self.index_of(b) as int == i);
        } else {
            let p = self.entry(i).spec_parent()->0;
            let pi = self.index_of(p.spec_uuid()) as int;
            self.lemma_descends_trans(pi, b, a);
        }
    }

    /// A strict descendant of `a` descends from one of the children of `a`.
    proof fn lemma_descends_child(&self, i: int, a: u32)
        requires
            self.wf_links(),
            self.descends_from(i, a),
            self.entry(i).spec_uuid() != a,
        ensures
            exists|k: int|
                0 <= k < self.entry(self.index_of(a) as int).spec_children().len()
                    && self.descends_from(
                    i,
                    #[trigger] self.entry(self.index_of(a) as int).spec_children()[k].spec_uuid(),
                ),
        decreases i,
    {
        assert(self.live_at(i));
        let p = self.entry(i).spec_parent()->0;
        let pi = self.index_of(p.spec_uuid()) as int;
        assert(self.descends_from(pi, a));
        self.lemma_descends_index(i, a);
        let ai = self.index_of(a) as int;
        if self.entry(pi).spec_uuid() == a {
            assert(pi == ai);
            let k = choose|k: int|
                0 <= k < self.entry(pi).spec_children().len()
                    && #[trigger] self.entry(pi).spec_children()[k].spec_uuid()
                    == self.entry(i).spec_uuid();
            assert(self.descends_from(i, self.entry(ai).spec_children()[k].spec_uuid()));
        } else {
            self.lemma_descends_child(pi, a);
            let k = choose|k: int|
                0 <= k < self.entry(ai).spec_children().len() && self.descends_from(
                    pi,
                    #[trigger] self.entry(ai).spec_children()[k].spec_uuid(),
                );
            let c = self.entry(ai).spec_children()[k].spec_uuid();
            assert(self.descends_from(i, c));
        }
    }

    /// A child of `a` descends from `a`.
    proof fn lemma_child_descends(&self, ai: int, k: int)
        requires
            self.wf(),
            self.live_at(ai),
            0 <= k < self.entry(ai).spec_children().len(),
        ensures
            ({
                let c = self.entry(ai).spec_children()[k].spec_uuid();
                &&& self.is_live_uuid(c)
                &&& ai < self.index_of(c) as int
                &&& self.descends_from(self.index_of(c) as int, self.entry(ai).spec_uuid())
            }),
    {
        let c = self.entry(ai).spec_children()[k].spec_uuid();
        let ci = self.index_of(c) as int;
        assert(self.live_at(ci));
        assert(self.parent_uuid_at(ci) == Some(self.entry(ai).spec_uuid()));
        let p = self.entry(ci).spec_parent()->0;
        assert(self.index_of(p.spec_uuid()) as int == ai);
        assert(self.entry(ci).spec_uuid() == c);
        if c == self.entry(ai).spec_uuid() {
            assert(ci == ai);
        }
        assert(self.descends_from(ai, self.entry(ai).spec_uuid()));
    }

    /// Two states that agree on the live slots agree on who descends from whom.
    proof fn lemma_descends_same(s: &Self, o: &Self, i: int, a: u32)
        requires
            s.wf(),
            s.live_at(i),
            forall|j: int| #[trigger]
                s.live_at(j) ==> o.live_at(j) && s.entry(j).spec_uuid() == o.entry(j).spec_uuid()
                    && s.entry(j).spec_parent() == o.entry(j).spec_parent(),
            forall|u: u32| #[trigger]
                s.is_live_uuid(u) ==> o.is_live_uuid(u) && s.index_of(u) == o.index_of(u),
        ensures
            s.descends_from(i, a) == o.descends_from(i, a),
        decreases i,
    {
        if s.entry(i).spec_uuid() == a {
        } else {
            match s.entry(i).spec_parent() {
                None => {},
                Some(p) => {
                    assert(s.is_live_uuid(p.spec_uuid()));
                    let pi = s.index_of(p.spec_uuid()) as int;
                    assert(s.live_at(pi));
                    Self::lemma_descends_same(s, o, pi, a);
                },
            }
        }
    }

    /// How a slot that survives the deletion of `eu` looks afterwards: unchanged,
    /// except that the parent of `eu` no longer lists it as a child.
    pub open spec fn kept_after_delete(&self, new: &Self, i: int, eu: u32) -> bool {
        &&& new.entry(i).spec_live()
        &&& new.entry(i).spec_uuid() == self.entry(i).spec_uuid()
        &&& new.entry(i).spec_parent() == self.entry(i).spec_parent()
        &&& if self.is_live_uuid(eu) && self.parent_uuid_at(self.index_of(eu) as int) == Some(
            self.entry(i).spec_uuid(),
        ) {
            exists|k: int|
                0 <= k < self.entry(i).spec_children().len()
                    && #[trigger] self.entry(i).spec_children()[k].spec_uuid() == eu
                    && new.entry(i).spec_children() == self.entry(i).spec_children().remove(k)
        } else {
            new.entry(i).spec_children() == self.entry(i).spec_children()
        }
    }

    /// The slots that deleting `eu` vacates.
    pub open spec fn deleted_slots(&self, eu: u32) -> Set<u32> {
        Set::new(|x: u32| self.descends_from(x as int, eu))
    }

    /// What a call of `delete_entity` for identifier `eu` leaves: the entity
    /// and all of its descendants are gone, their slots are free, nothing
    /// else moved, and the parent of the entity no longer lists it.
    pub open spec fn delete_post(&self, new: &Self, eu: u32) -> bool {
        &&& new.wf()
        &&& new.spec_len() == self.spec_len()
        &&& new.last_uuid() == self.last_uuid()
        &&& forall|u: u32|
            #[trigger] new.is_live_uuid(u) <==> self.is_live_uuid(u) && !self.descends_from(
                self.index_of(u) as int,
                eu,
            )
        &&& forall|u: u32| #[trigger] new.is_live_uuid(u) ==> new.index_of(u) == self.index_of(u)
        &&& forall|i: int|
            0 <= i < self.spec_len() && self.live_at(i) && !self.descends_from(i, eu)
                ==> #[trigger] self.kept_after_delete(new, i, eu)
        &&& forall|i: int|
            0 <= i < self.spec_len() && !(self.live_at(i) && !self.descends_from(i, eu))
                ==> #[trigger] new.entry(i).is_vacant()
        &&& new.free_set() == self.free_set() + self.deleted_slots(eu)
    }

    pub open spec fn delete_measure(&self, u: u32) -> int {
        if self.is_live_uuid(u) {
            self.spec_len() - self.index_of(u)
        } else {
            0
        }
    }

    /// Deletes `e` together with all of its descendants. Returns whether `e`
    /// was live.
    pub fn delete_entity(&mut self, e: &Entity) -> (r: bool)
        requires
            old(self).wf(),
        ensures
            r == old(self).is_live_uuid(e.spec_uuid()),
            old(self).delete_post(final(self), e.spec_uuid()),
        decreases old(self).delete_measure(e.spec_uuid()),
    {
        let ghost o = *old(self);
        let ghost eu = e.spec_uuid();
        match self.get_entity_index(e) {
            None => {
                proof {
                    assert forall|x: u32| !o.deleted_slots(eu).contains(x) by {
                        if o.descends_from(x as int, eu) {
                            o.lemma_descends_index(x as int, eu);
                        }
                    }
                    assert(o.deleted_slots(eu) =~= Set::<u32>::empty());
                    assert(o.free_set() + o.deleted_slots(eu) =~= o.free_set());
                    assert forall|i: int|
                        0 <= i < o.spec_len() && o.live_at(i) && !o.descends_from(i, eu)
                            implies #[trigger] o.kept_after_delete(&*self, i, eu) by {}
                    assert forall|u: u32| #[trigger] o.is_live_uuid(u) implies !o.descends_from(
                        o.index_of(u) as int,
                        eu,
                    ) by {
                        if o.descends_from(o.index_of(u) as int, eu) {
                            o.lemma_descends_index(o.index_of(u) as int, eu);
                        }
                    }
                }
                false
            },
            Some(index) => {
                proof {
                    assert(o.live_at(index as int));
                }
                // Copy the handles of the children
                let n = self.entity_storage[index as usize].children.len();
                let mut children: Vec<Entity> = Vec::new();
                let mut k: usize = 0;
                while k < n
                    invariant
                        (index as int) < self.entity_storage@.len(),
                        n == self.entity_storage@[index as int].children@.len(),
                        k <= n,
                        children@ == self.entity_storage@[index as int].children@.subrange(0, k as int),
                    decreases n - k,
                {
                    children.push(self.entity_storage[index as usize].children[k]);
                    k = k + 1;
                }
                proof {
                    assert(children@ =~= o.entry(index as int).spec_children());
                }
                let ghost cs = children@;
                // Delete our children with us
                let mut j: usize = 0;
                while j < n
                    invariant
                        self.wf(),
                        o == *old(self),
                        eu == e.spec_uuid(),
                        0 <= j <= n,
                        n == cs.len(),
                        children@ == cs,
                        o.wf(),
                        o.live_at(index as int),
                        o.entry(index as int).spec_uuid() == eu,
                        cs == o.entry(index as int).spec_children(),
                        self.spec_len() == o.spec_len(),
                        self.last_uuid() == o.last_uuid(),
                        forall|u: u32| #[trigger]
                            self.is_live_uuid(u) <==> o.is_live_uuid(u) && !(exists|kk: int|
                                0 <= kk < j && o.descends_from(
                                    o.index_of(u) as int,
                                    #[trigger] cs[kk].spec_uuid(),
                                )),
                        forall|u: u32| #[trigger]
                            self.is_live_uuid(u) ==> self.index_of(u) == o.index_of(u),
                        forall|i: int| #[trigger]
                            self.live_at(i) ==> o.live_at(i) && self.entry(i).spec_uuid()
                                == o.entry(i).spec_uuid() && self.entry(i).spec_parent()
                                == o.entry(i).spec_parent() && (i != index as int ==> self.entry(
                                i,
                            ).spec_children() == o.entry(i).spec_children()),
                        self.live_at(index as int),
                        self.entry(index as int).spec_children() == cs.skip(j as int),
                        forall|i: int|
                            0 <= i < o.spec_len() && !self.live_at(i) ==> #[trigger] self.entry(
                                i,
                            ).is_vacant(),
                        forall|x: u32|
                            #[trigger] self.free_set().contains(x) <==> o.free_set().contains(x)
                                || (o.live_at(x as int) && !self.live_at(x as int)),
                    decreases n - j,
                {
                    let child = children[j];
                    let ghost sj = *self;
                    proof {
                        o.lemma_child_descends(index as int, j as int);
                        let cu = cs[j as int].spec_uuid();
                        // the child has not been deleted by an earlier sibling
                        if exists|kk: int|
                            0 <= kk < j && o.descends_from(
                                o.index_of(cu) as int,
                                #[trigger] cs[kk].spec_uuid(),
                            ) {
                            let kk = choose|kk: int|
                                0 <= kk < j && o.descends_from(
                                    o.index_of(cu) as int,
                                    #[trigger] cs[kk].spec_uuid(),
                                );
                            let ck = cs[kk].spec_uuid();
                            assert(ck != cu);
                            let ci = o.index_of(cu) as int;
                            assert(o.entry(ci).spec_uuid() == cu);
                            let p = o.entry(ci).spec_parent()->0;
                            assert(o.index_of(p.spec_uuid()) == index);
                            assert(o.descends_from(index as int, ck));
                            o.lemma_descends_index(index as int, ck);
                            o.lemma_child_descends(index as int, kk);
                            assert(false);
                        }
                        assert(self.is_live_uuid(cu));
                        assert(self.live_at(self.index_of(cu) as int));
                        assert(self.delete_measure(cu) < o.delete_measure(eu));
                        assert(child.spec_uuid() == cu);
                        assert(self.delete_measure(child.spec_uuid()) < old(self).delete_measure(
                            e.spec_uuid(),
                        ));
                    }
                    let deleted = self.delete_entity(&child);
                    proof {
                        let cu = cs[j as int].spec_uuid();
                        let ci = o.index_of(cu) as int;
                        assert(sj.live_at(ci));
                        assert(sj.parent_uuid_at(ci) == Some(eu));
                        assert(sj.kept_after_delete(&*self, index as int, cu)) by {
                            assert(sj.live_at(index as int));
                            if sj.descends_from(index as int, cu) {
                                sj.lemma_descends_index(index as int, cu);
                                assert(false);
                            }
                        }
                        let kk = choose|kk: int|
                            0 <= kk < sj.entry(index as int).spec_children().len()
                                && #[trigger] sj.entry(index as int).spec_children()[kk].spec_uuid()
                                == cu && self.entry(index as int).spec_children() == sj.entry(
                                index as int,
                            ).spec_children().remove(kk);
                        assert(sj.entry(index as int).spec_children()[0].spec_uuid() == cu);
                        if kk != 0 {
                            assert(sj.live_at(index as int));
                            assert(sj.entry(index as int).spec_children()[kk].spec_uuid()
                                != sj.entry(index as int).spec_children()[0].spec_uuid());
                        }
                        assert(self.entry(index as int).spec_children() =~= cs.skip(j + 1));
                        assert forall|u: u32| #[trigger]
                            self.is_live_uuid(u) <==> o.is_live_uuid(u) && !(exists|kk: int|
                                0 <= kk < j + 1 && o.descends_from(
                                    o.index_of(u) as int,
                                    #[trigger] cs[kk].spec_uuid(),
                                )) by {
                            if sj.is_live_uuid(u) {
                                Self::lemma_descends_same(&sj, &o, sj.index_of(u) as int, cu);
                            }
                            if o.is_live_uuid(u) && o.descends_from(o.index_of(u) as int, cu) {
                                assert(o.descends_from(o.index_of(u) as int, cs[j as int].spec_uuid()));
                            }
                        }
                        assert forall|i: int| #[trigger]
                            self.live_at(i) implies o.live_at(i) && self.entry(i).spec_uuid()
                                == o.entry(i).spec_uuid() && self.entry(i).spec_parent()
                                == o.entry(i).spec_parent() && (i != index as int ==> self.entry(
                                i,
                            ).spec_children() == o.entry(i).spec_children()) by {
                            let u = self.entry(i).spec_uuid();
                            assert(self.is_live_uuid(u));
                            assert(sj.is_live_uuid(u));
                            assert(sj.live_at(sj.index_of(u) as int));
                            assert(sj.live_at(i));
                            Self::lemma_descends_same(&sj, &o, i, cu);
                            assert(sj.kept_after_delete(&*self, i, cu));
                        }
                        assert forall|i: int|
                            0 <= i < o.spec_len() && !self.live_at(i) implies #[trigger] self.entry(
                                i,
                            ).is_vacant() by {
                            if sj.live_at(i) {
                                Self::lemma_descends_same(&sj, &o, i, cu);
                                if !sj.descends_from(i, cu) {
                                    assert(sj.kept_after_delete(&*self, i, cu));
                                }
                            }
                        }
                        assert forall|x: u32|
                            #[trigger] self.free_set().contains(x) <==> o.free_set().contains(x)
                                || (o.live_at(x as int) && !self.live_at(x as int)) by {
                            assert(self.free_set() == sj.free_set() + sj.deleted_slots(cu));
                            if sj.live_at(x as int) {
                                Self::lemma_descends_same(&sj, &o, x as int, cu);
                                if !sj.descends_from(x as int, cu) {
                                    assert(sj.kept_after_delete(&*self, x as int, cu));
                                }
                            }
                        }
                    }
                    j = j + 1;
                }
                let ghost ac = *self;
                // Remove ourselves from our parent
                let parent = self.entity_storage[index as usize].parent;
                let ghost mut removed_at: Option<(int, int)> = None;
                if let Some(p) = parent {
                    proof {
                        assert(self.live_at(index as int));
                    }
                    let pidx = self.get_entity_index(&p).unwrap();
                    proof {
                        assert(self.live_at(pidx as int));
                        let kq = choose|kq: int|
                            0 <= kq < self.entry(pidx as int).spec_children().len()
                                && #[trigger] self.entry(pidx as int).spec_children()[kq].spec_uuid()
                                == self.entry(index as int).spec_uuid();
                        assert(self.entity_storage@[pidx as int].children@[kq].uuid.0 == eu);
                    }
                    let pos = self.remove_child_handle(pidx, e);
                    proof {
                        removed_at = Some((pidx as int, pos as int));
                    }
                }
                self.entity_storage.set(index as usize, EntityEntry::vacant());
                self.free_indices.push(index);
                self.uuid_to_index.remove(&e.uuid.0);
                proof {
                    Self::lemma_delete_finish(&o, &ac, &*self, eu, index as int, cs, removed_at);
                }
                true
            },
        }
    }

    /// Removes the first handle with the identifier of `e` from the children of
    /// slot `pidx`; returns its position.
    fn remove_child_handle(&mut self, pidx: u32, e: &Entity) -> (pos: usize)
        requires
            (pidx as int) < old(self).entity_storage@.len(),
            exists|q: int|
                0 <= q < old(self).entity_storage@[pidx as int].children@.len()
                    && #[trigger] old(self).entity_storage@[pidx as int].children@[q].uuid.0
                    == e.uuid.0,
        ensures
            pos < old(self).entity_storage@[pidx as int].children@.len(),
            old(self).entity_storage@[pidx as int].children@[pos as int].uuid.0 == e.uuid.0,
            forall|q: int|
                0 <= q < pos ==> #[trigger] old(self).entity_storage@[pidx as int].children@[q].uuid.0
                    != e.uuid.0,
            final(self).entity_storage@ == old(self).entity_storage@.update(
                pidx as int,
                final(self).entity_storage@[pidx as int],
            ),
            final(self).entity_storage@[pidx as int].live == old(self).entity_storage@[pidx as int].live,
            final(self).entity_storage@[pidx as int].uuid == old(self).entity_storage@[pidx as int].uuid,
            final(self).entity_storage@[pidx as int].parent == old(self).entity_storage@[pidx as int].parent,
            final(self).entity_storage@[pidx as int].children@ == old(self).entity_storage@[pidx as int].children@.remove(
                pos as int,
            ),
            final(self).free_indices == old(self).free_indices,
            final(self).uuid_to_index == old(self).uuid_to_index,
            final(self).last_used_uuid == old(self).last_used_uuid,
    {
        let m = self.entity_storage[pidx as usize].children.len();
        let mut pos: usize = 0;
        while pos < m
            invariant
                (pidx as int) < self.entity_storage@.len(),
                self.entity_storage@ == old(self).entity_storage@,
                m == self.entity_storage@[pidx as int].children@.len(),
                pos <= m,
                forall|q: int|
                    0 <= q < pos ==> #[trigger] self.entity_storage@[pidx as int].children@[q].uuid.0
                        != e.uuid.0,
                exists|q: int|
                    0 <= q < m && #[trigger] self.entity_storage@[pidx as int].children@[q].uuid.0
                        == e.uuid.0,
            ensures
                pos < m,
                self.entity_storage@[pidx as int].children@[pos as int].uuid.0 == e.uuid.0,
            decreases m - pos,
        {
            if self.entity_storage[pidx as usize].children[pos].uuid.0 == e.uuid.0 {
                break;
            }
            pos = pos + 1;
        }
        let mut pentry = EntityEntry::vacant();
        self.entity_storage.set_and_swap(pidx as usize, &mut pentry);
        pentry.children.remove(pos);
        self.entity_storage.set_and_swap(pidx as usize, &mut pentry);
        pos
    }

    proof fn lemma_delete_finish(
        o: &Self,
        ac: &Self,
        f: &Self,
        eu: u32,
        index: int,
        cs: Seq<Entity>,
        removed_at: Option<(int, int)>,
    )
        requires
            o.wf(),
            o.live_at(index),
            o.entry(index).spec_uuid() == eu,
            cs == o.entry(index).spec_children(),
            ac.wf(),
            ac.spec_len() == o.spec_len(),
            ac.last_uuid() == o.last_uuid(),
            forall|u: u32| #[trigger]
                ac.is_live_uuid(u) <==> o.is_live_uuid(u) && !(exists|kk: int|
                    0 <= kk < cs.len() && o.descends_from(
                        o.index_of(u) as int,
                        #[trigger] cs[kk].spec_uuid(),
                    )),
            forall|u: u32| #[trigger] ac.is_live_uuid(u) ==> ac.index_of(u) == o.index_of(u),
            forall|i: int| #[trigger]
                ac.live_at(i) ==> o.live_at(i) && ac.entry(i).spec_uuid() == o.entry(i).spec_uuid()
                    && ac.entry(i).spec_parent() == o.entry(i).spec_parent() && (i != index
                    ==> ac.entry(i).spec_children() == o.entry(i).spec_children()),
            ac.live_at(index),
            ac.entry(index).spec_children().len() == 0,
            forall|i: int|
                0 <= i < o.spec_len() && !ac.live_at(i) ==> #[trigger] ac.entry(i).is_vacant(),
            forall|x: u32|
                #[trigger] ac.free_set().contains(x) <==> o.free_set().contains(x) || (o.live_at(
                    x as int,
                ) && !ac.live_at(x as int)),
            match removed_at {
                None => ac.entry(index).spec_parent() is None && f.entity_storage@
                    == ac.entity_storage@.update(index, f.entity_storage@[index]),
                Some((pi, pos)) => {
                    &&& ac.entry(index).spec_parent() is Some
                    &&& pi == ac.index_of(ac.entry(index).spec_parent()->0.spec_uuid()) as int
                    &&& 0 <= pos < ac.entry(pi).spec_children().len()
                    &&& ac.entry(pi).spec_children()[pos].spec_uuid() == eu
                    &&& f.entity_storage@ == ac.entity_storage@.update(pi, f.entity_storage@[pi]).update(
                        index,
                        f.entity_storage@[index],
                    )
                    &&& f.entry(pi).spec_live() == ac.entry(pi).spec_live()
                    &&& f.entry(pi).spec_uuid() == ac.entry(pi).spec_uuid()
                    &&& f.entry(pi).spec_parent() == ac.entry(pi).spec_parent()
                    &&& f.entry(pi).spec_children() == ac.entry(pi).spec_children().remove(pos)
                },
            },
            f.entry(index).is_vacant(),
            f.free_indices@ == ac.free_indices@.push(index as u32),
            f.uuid_to_index@ == ac.uuid_to_index@.remove(eu),
            f.last_used_uuid == ac.last_used_uuid,
        ensures
            o.delete_post(f, eu),
    {
        let len = o.spec_len();
        // who descends from eu
        assert forall|u: u32| #[trigger]
            o.is_live_uuid(u) implies (o.descends_from(o.index_of(u) as int, eu) <==> (u == eu
                || exists|kk: int|
                0 <= kk < cs.len() && o.descends_from(
                    o.index_of(u) as int,
                    #[trigger] cs[kk].spec_uuid(),
                ))) by {
            let ui = o.index_of(u) as int;
            assert(o.live_at(ui));
            assert(o.index_of(eu) as int == index);
            if u != eu && o.descends_from(ui, eu) {
                o.lemma_descends_child(ui, eu);
            }
            if exists|kk: int|
                0 <= kk < cs.len() && o.descends_from(ui, #[trigger] cs[kk].spec_uuid()) {
                let kk = choose|kk: int|
                    0 <= kk < cs.len() && o.descends_from(ui, #[trigger] cs[kk].spec_uuid());
                o.lemma_child_descends(index, kk);
                assert(o.descends_from(index, eu));
                o.lemma_descends_trans(ui, cs[kk].spec_uuid(), eu);
            }
            if u == eu {
                assert(o.entry(ui).spec_uuid() == u);
            }
        }
        assert(ac.index_of(eu) as int == index);
        // liveness in f
        assert forall|u: u32| #[trigger]
            f.is_live_uuid(u) <==> (ac.is_live_uuid(u) && u != eu) by {}
        assert forall|u: u32| #[trigger]
            f.is_live_uuid(u) <==> o.is_live_uuid(u) && !o.descends_from(o.index_of(u) as int, eu) by {
            if o.is_live_uuid(u) {
                assert(o.live_at(o.index_of(u) as int));
            }
        }
        // entries of f
        assert forall|i: int|
            0 <= i < len && i != index && (removed_at matches Some((pi, _)) ==> i != pi) implies #[trigger] f.entry(i)
                == ac.entry(i) by {}
        // wf of f
        assert(f.wf_index_map()) by {
            assert forall|u: u32| #[trigger]
                f.index_map().contains_key(u) implies {
                    &&& (f.index_map()[u] as int) < f.spec_len()
                    &&& f.entry(f.index_map()[u] as int).spec_live()
                    &&& f.entry(f.index_map()[u] as int).spec_uuid() == u
                    &&& 0 < u <= f.last_uuid()
                } by {
                let ui = ac.index_of(u) as int;
                assert(ac.live_at(ui));
                assert(ui != index);
            }
            assert forall|i: int| #[trigger]
                f.live_at(i) implies {
                    &&& f.index_map().contains_key(f.entry(i).spec_uuid())
                    &&& f.index_map()[f.entry(i).spec_uuid()] == i
                } by {
                assert(i != index);
                assert(ac.live_at(i));
            }
        }
        assert(f.wf_free()) by {
            assert(!ac.free_indices@.contains(index as u32)) by {
                if ac.free_indices@.contains(index as u32) {
                    let k = choose|k: int|
                        0 <= k < ac.free_indices@.len() && ac.free_indices@[k] == index as u32;
                    assert(ac.free_indices@[k] == index as u32);
                }
            }
            assert forall|k: int|
                0 <= k < f.free_indices@.len() implies {
                    &&& (#[trigger] f.free_indices@[k] as int) < f.spec_len()
                    &&& !f.entry(f.free_indices@[k] as int).spec_live()
                } by {
                if k < ac.free_indices@.len() {
                    assert(ac.free_indices@[k] == f.free_indices@[k]);
                    let x = f.free_indices@[k] as int;
                    assert(!ac.entry(x).spec_live());
                    assert(x != index);
                }
            }
            assert forall|i: int|
                0 <= i < f.spec_len() && !#[trigger] f.entry(i).spec_live() implies {
                    &&& f.entry(i).is_vacant()
                    &&& f.free_indices@.contains(i as u32)
                } by {
                if i == index {
                    assert(f.free_indices@[f.free_indices@.len() - 1] == index as u32);
                } else {
                    assert(!ac.entry(i).spec_live());
                    assert(ac.free_indices@.contains(i as u32));
                    let k = choose|k: int| 0 <= k < ac.free_indices@.len() && ac.free_indices@[k] == i as u32;
                    assert(f.free_indices@[k] == i as u32);
                }
            }
        }
        assert(f.wf_parent()) by {
            assert forall|i: int| #[trigger]
                f.live_at(i) && f.entry(i).spec_parent() is Some implies {
                    let pu = f.entry(i).spec_parent()->0.spec_uuid();
                    &&& f.is_live_uuid(pu)
                    &&& (f.index_of(pu) as int) < i
                    &&& exists|k: int|
                        0 <= k < f.entry(f.index_of(pu) as int).spec_children().len()
                            && #[trigger] f.entry(f.index_of(pu) as int).spec_children()[k].spec_uuid()
                            == f.entry(i).spec_uuid()
                } by {
                assert(i != index);
                assert(ac.live_at(i));
                let pu = f.entry(i).spec_parent()->0.spec_uuid();
                let pix = ac.index_of(pu) as int;
                assert(ac.live_at(pix));
                let k = choose|k: int|
                    0 <= k < ac.entry(pix).spec_children().len()
                        && #[trigger] ac.entry(pix).spec_children()[k].spec_uuid()
                        == ac.entry(i).spec_uuid();
                assert(pu != eu);
                assert(ac.entry(i).spec_uuid() != eu);
                match removed_at {
                    None => {
                        assert(f.entry(pix) == ac.entry(pix));
                        assert(f.entry(pix).spec_children()[k].spec_uuid() == f.entry(i).spec_uuid());
                    },
                    Some((pi, pos)) => {
                        if pix == pi {
                            assert(k != pos);
                            let k2 = if k < pos { k } else { k - 1 };
                            assert(f.entry(pix).spec_children()[k2].spec_uuid() == f.entry(i).spec_uuid());
                        } else {
                            assert(f.entry(pix) == ac.entry(pix));
                            assert(f.entry(pix).spec_children()[k].spec_uuid() == f.entry(i).spec_uuid());
                        }
                    },
                }
            }
        }
        assert(f.wf_order()) by {
            assert forall|i: int| #[trigger] f.live_at(i) implies f.good_at(i) by {
                assert(i != index);
                assert(ac.live_at(i));
                assert(ac.good_at(i));
                match f.entry(i).spec_parent() {
                    Some(p) => {
                        assert(ac.is_live_uuid(p.spec_uuid()));
                        assert(p.spec_uuid() != eu) by {
                            if p.spec_uuid() == eu {
                                let k = choose|k: int|
                                    0 <= k < ac.entry(index).spec_children().len()
                                        && #[trigger] ac.entry(index).spec_children()[k].spec_uuid()
                                        == ac.entry(i).spec_uuid();
                            }
                        }
                    },
                    None => {},
                }
            }
        }
        assert(f.wf_children()) by {
            assert forall|i: int, k: int|
                f.live_at(i) && 0 <= k < f.entry(i).spec_children().len() implies {
                    let cu = #[trigger] f.entry(i).spec_children()[k].spec_uuid();
                    &&& f.is_live_uuid(cu)
                    &&& f.parent_uuid_at(f.index_of(cu) as int) == Some(f.entry(i).spec_uuid())
                    &&& forall|k2: int|
                        0 <= k2 < f.entry(i).spec_children().len() && k2 != k
                            ==> f.entry(i).spec_children()[k2].spec_uuid() != cu
                } by {
                assert(i != index);
                assert(ac.live_at(i));
                let cu = f.entry(i).spec_children()[k].spec_uuid();
                let is_pi = match removed_at {
                    Some((pi, _)) => i == pi,
                    None => false,
                };
                if is_pi {
                    let (pi, pos) = removed_at->0;
                    let k1 = if k < pos { k } else { k + 1 };
                    assert(f.entry(i).spec_children()[k] == ac.entry(i).spec_children()[k1]);
                    assert(k1 != pos);
                    assert(cu != eu);
                    let ci = ac.index_of(cu) as int;
                    assert(ac.live_at(ci));
                    assert(ci != index);
                    assert(f.entry(ci).spec_parent() == ac.entry(ci).spec_parent());
                    assert forall|k2: int|
                        0 <= k2 < f.entry(i).spec_children().len() && k2 != k
                            implies f.entry(i).spec_children()[k2].spec_uuid() != cu by {
                        let k3 = if k2 < pos { k2 } else { k2 + 1 };
                        assert(f.entry(i).spec_children()[k2] == ac.entry(i).spec_children()[k3]);
                    }
                } else {
                    assert(f.entry(i) == ac.entry(i));
                    assert(ac.is_live_uuid(cu));
                    if cu == eu {
                        assert(ac.parent_uuid_at(index) == Some(ac.entry(i).spec_uuid()));
                        match removed_at {
                            None => {},
                            Some((pi, pos)) => {
                                assert(ac.index_of(ac.entry(i).spec_uuid()) as int == i);
                            },
                        }
                    }
                    let ci = ac.index_of(cu) as int;
                    assert(ac.live_at(ci));
                    assert(ci != index);
                    assert(f.entry(ci).spec_parent() == ac.entry(ci).spec_parent());
                }
            }
        }
        // survivors
        assert forall|i: int|
            0 <= i < o.spec_len() && o.live_at(i) && !o.descends_from(i, eu)
                implies #[trigger] o.kept_after_delete(f, i, eu) by {
            let u = o.entry(i).spec_uuid();
            assert(o.index_of(u) as int == i);
            assert(f.is_live_uuid(u));
            assert(ac.is_live_uuid(u));
            assert(ac.live_at(i));
            assert(i != index);
            match removed_at {
                None => {
                    assert(f.entry(i) == ac.entry(i));
                },
                Some((pi, pos)) => {
                    if i == pi {
                        assert(o.parent_uuid_at(index) == Some(u));
                        assert(o.entry(i).spec_children()[pos].spec_uuid() == eu);
                    } else {
                        assert(f.entry(i) == ac.entry(i));
                        if o.parent_uuid_at(index) == Some(u) {
                            assert(ac.index_of(u) as int == pi);
                        }
                    }
                },
            }
        }
        // vacated slots
        assert forall|i: int|
            0 <= i < o.spec_len() && !(o.live_at(i) && !o.descends_from(i, eu))
                implies #[trigger] f.entry(i).is_vacant() by {
            if i == index {
            } else if !ac.live_at(i) {
                assert(ac.entry(i).is_vacant());
                match removed_at {
                    None => {},
                    Some((pi, pos)) => {
                        assert(ac.live_at(pi));
                    },
                }
                assert(f.entry(i) == ac.entry(i));
            } else {
                let u = o.entry(i).spec_uuid();
                assert(ac.is_live_uuid(ac.entry(i).spec_uuid()));
                assert(o.index_of(u) as int == i);
                assert(f.is_live_uuid(u));
            }
        }
        // free slots
        assert forall|x: u32|
            f.free_set().contains(x) <==> (o.free_set() + o.deleted_slots(eu)).contains(x) by {
            assert(f.free_set().contains(x) <==> (ac.free_set().contains(x) || x == index as u32)) by {
                if ac.free_set().contains(x) {
                    let k = choose|k: int| 0 <= k < ac.free_indices@.len() && ac.free_indices@[k] == x;
                    assert(f.free_indices@[k] == x);
                }
                if x == index as u32 {
                    assert(f.free_indices@[f.free_indices@.len() - 1] == x);
                }
                if f.free_set().contains(x) {
                    let k = choose|k: int| 0 <= k < f.free_indices@.len() && f.free_indices@[k] == x;
                    if k < ac.free_indices@.len() {
                        assert(ac.free_indices@[k] == x);
                    }
                }
            }
            if o.descends_from(x as int, eu) {
                assert(o.live_at(x as int));
                let u = o.entry(x as int).spec_uuid();
                assert(o.index_of(u) as int == x as int);
                if x as int != index {
                    assert(!f.is_live_uuid(u));
                    assert(!ac.is_live_uuid(u));
                }
            }
            if o.live_at(x as int) && !ac.live_at(x as int) {
                let u = o.entry(x as int).spec_uuid();
                assert(o.index_of(u) as int == x as int);
                assert(!ac.is_live_uuid(u));
            }
            if x as int == index {
                assert(o.descends_from(index, eu));
            }
        }
        assert(f.free_set() =~= o.free_set() + o.deleted_slots(eu));
    }

    /// `t` holds the same live entities as `s`, each with the same slot
    /// contents, wherever they are stored.
    pub open spec fn same_by_uuid(s: &Self, t: &Self) -> bool {
        &&& forall|u: u32| #[trigger] s.is_live_uuid(u) <==> t.is_live_uuid(u)
        &&& forall|u: u32| #[trigger]
            s.is_live_uuid(u) ==> s.entry(s.index_of(u) as int) == t.entry(t.index_of(u) as int)
    }

    /// The links between parents and children only speak of identifiers, so
    /// moving entities around keeps them.
    proof fn lemma_links_by_uuid(s: &Self, t: &Self)
        requires
            s.wf_links(),
            Self::same_by_uuid(s, t),
            t.wf_index_map(),
        ensures
            t.wf_parent(),
            t.wf_children(),
    {
        assert forall|i: int| #[trigger]
            t.live_at(i) && t.entry(i).spec_parent() is Some implies {
                let pu = t.entry(i).spec_parent()->0.spec_uuid();
                &&& t.is_live_uuid(pu)
                &&& exists|k: int|
                    0 <= k < t.entry(t.index_of(pu) as int).spec_children().len()
                        && #[trigger] t.entry(t.index_of(pu) as int).spec_children()[k].spec_uuid()
                        == t.entry(i).spec_uuid()
            } by {
            let u = t.entry(i).spec_uuid();
            assert(t.is_live_uuid(u));
            assert(s.is_live_uuid(u));
            let si = s.index_of(u) as int;
            assert(s.live_at(si));
            assert(s.entry(si) == t.entry(i));
            let pu = t.entry(i).spec_parent()->0.spec_uuid();
            assert(s.is_live_uuid(pu));
            let k = choose|k: int|
                0 <= k < s.entry(s.index_of(pu) as int).spec_children().len()
                    && #[trigger] s.entry(s.index_of(pu) as int).spec_children()[k].spec_uuid()
                    == s.entry(si).spec_uuid();
            assert(t.entry(t.index_of(pu) as int).spec_children()[k].spec_uuid() == u);
        }
        assert forall|i: int, k: int|
            t.live_at(i) && 0 <= k < t.entry(i).spec_children().len() implies {
                let cu = #[trigger] t.entry(i).spec_children()[k].spec_uuid();
                &&& t.is_live_uuid(cu)
                &&& t.parent_uuid_at(t.index_of(cu) as int) == Some(t.entry(i).spec_uuid())
                &&& forall|k2: int|
                    0 <= k2 < t.entry(i).spec_children().len() && k2 != k
                        ==> t.entry(i).spec_children()[k2].spec_uuid() != cu
            } by {
            let u = t.entry(i).spec_uuid();
            assert(t.is_live_uuid(u));
            assert(s.is_live_uuid(u));
            let si = s.index_of(u) as int;
            assert(s.live_at(si));
            assert(s.entry(si) == t.entry(i));
            let cu = s.entry(si).spec_children()[k].spec_uuid();
            assert(s.is_live_uuid(cu));
            assert(s.entry(s.index_of(cu) as int) == t.entry(t.index_of(cu) as int));
        }
    }

    /// Exchanges the contents of two live slots.
    fn swap_entities(&mut self, source_index: u32, target_index: u32)
        requires
            old(self).wf_links(),
            old(self).live_at(source_index as int),
            old(self).live_at(target_index as int),
            source_index != target_index,
        ensures
            final(self).wf_links(),
            Self::same_by_uuid(old(self), final(self)),
            final(self).entity_storage@ == old(self).entity_storage@.update(
                source_index as int,
                old(self).entity_storage@[target_index as int],
            ).update(target_index as int, old(self).entity_storage@[source_index as int]),
            final(self).uuid_to_index@ == old(self).uuid_to_index@.insert(
                old(self).entry(source_index as int).spec_uuid(),
                target_index,
            ).insert(old(self).entry(target_index as int).spec_uuid(), source_index),
            final(self).free_indices == old(self).free_indices,
            final(self).last_used_uuid == old(self).last_used_uuid,
    {
        let ua = self.entity_storage[source_index as usize].uuid.0;
        let ub = self.entity_storage[target_index as usize].uuid.0;
        self.uuid_to_index.insert(ua, target_index);
        self.uuid_to_index.insert(ub, source_index);
        let mut tmp = EntityEntry::vacant();
        self.entity_storage.set_and_swap(source_index as usize, &mut tmp);
        self.entity_storage.set_and_swap(target_index as usize, &mut tmp);
        self.entity_storage.set_and_swap(source_index as usize, &mut tmp);
        proof {
            let o = old(self);
            let a = source_index as int;
            let b = target_index as int;
            assert(ua != ub);
            assert(self.entity_storage@ =~= o.entity_storage@.update(a, o.entity_storage@[b]).update(
                b,
                o.entity_storage@[a],
            ));
            assert forall|u: u32| #[trigger] o.is_live_uuid(u) <==> self.is_live_uuid(u) by {}
            assert forall|u: u32| #[trigger]
                o.is_live_uuid(u) implies o.entry(o.index_of(u) as int) == self.entry(
                    self.index_of(u) as int,
                ) by {}
            assert(self.wf_index_map()) by {
                assert forall|i: int| #[trigger]
                    self.live_at(i) implies {
                        &&& self.index_map().contains_key(self.entry(i).spec_uuid())
                        &&& self.index_map()[self.entry(i).spec_uuid()] == i
                    } by {
                    if i != a && i != b {
                        assert(o.live_at(i));
                    }
                }
            }
            assert(self.wf_free()) by {
                assert forall|k: int|
                    0 <= k < self.free_indices@.len() implies {
                        &&& (#[trigger] self.free_indices@[k] as int) < self.spec_len()
                        &&& !self.entry(self.free_indices@[k] as int).spec_live()
                    } by {
                    let x = self.free_indices@[k] as int;
                    assert(!o.entry(x).spec_live());
                }
                assert forall|i: int|
                    0 <= i < self.spec_len() && !#[trigger] self.entry(i).spec_live() implies {
                        &&& self.entry(i).is_vacant()
                        &&& self.free_indices@.contains(i as u32)
                    } by {
                    assert(o.entry(i) == self.entry(i));
                }
            }
            Self::lemma_links_by_uuid(o, self);
        }
    }

    /// Marks the live slot `i`, which has neither parent nor children, as vacant.
    fn release_slot(&mut self, i: u32)
        requires
            old(self).wf_links(),
            old(self).live_at(i as int),
            old(self).entry(i as int).spec_parent() is None,
            old(self).entry(i as int).spec_children().len() == 0,
        ensures
            final(self).wf_links(),
            final(self).entity_storage@ == old(self).entity_storage@.update(
                i as int,
                final(self).entity_storage@[i as int],
            ),
            final(self).entry(i as int).is_vacant(),
            final(self).index_map() == old(self).index_map().remove(old(self).entry(i as int).spec_uuid()),
            final(self).free_set() == old(self).free_set().insert(i),
            final(self).last_used_uuid == old(self).last_used_uuid,
    {
        let u = self.entity_storage[i as usize].uuid.0;
        self.entity_storage.set(i as usize, EntityEntry::vacant());
        let ghost mid_free = self.free_indices@;
        self.free_indices.push(i);
        self.uuid_to_index.remove(&u);
        proof {
            let o = old(self);
            let ii = i as int;
            assert(!mid_free.contains(i)) by {
                if mid_free.contains(i) {
                    let k = choose|k: int| 0 <= k < mid_free.len() && mid_free[k] == i;
                    assert(o.free_indices@[k] == i);
                }
            }
            assert(self.free_indices@.to_set() =~= mid_free.to_set().insert(i)) by {
                assert forall|x: u32| self.free_indices@.to_set().contains(x) <==> mid_free.to_set().insert(i).contains(x) by {
                    if mid_free.to_set().contains(x) {
                        let k = choose|k: int| 0 <= k < mid_free.len() && mid_free[k] == x;
                        assert(self.free_indices@[k] == x);
                    }
                    if x == i {
                        assert(self.free_indices@[mid_free.len() as int] == x);
                    }
                    if self.free_indices@.to_set().contains(x) {
                        let k = choose|k: int| 0 <= k < self.free_indices@.len() && self.free_indices@[k] == x;
                        if k < mid_free.len() {
                            assert(mid_free[k] == x);
                        }
                    }
                }
            }
            assert(self.wf_index_map()) by {
                assert forall|i2: int| #[trigger]
                    self.live_at(i2) implies {
                        &&& self.index_map().contains_key(self.entry(i2).spec_uuid())
                        &&& self.index_map()[self.entry(i2).spec_uuid()] == i2
                    } by {
                    assert(o.live_at(i2));
                }
            }
            assert(self.wf_free()) by {
                assert forall|k: int|
                    0 <= k < self.free_indices@.len() implies {
                        &&& (#[trigger] self.free_indices@[k] as int) < self.spec_len()
                        &&& !self.entry(self.free_indices@[k] as int).spec_live()
                    } by {
                    if k < mid_free.len() {
                        assert(o.free_indices@[k] == self.free_indices@[k]);
                    }
                }
                assert forall|i2: int|
                    0 <= i2 < self.spec_len() && !#[trigger] self.entry(i2).spec_live() implies {
                        &&& self.entry(i2).is_vacant()
                        &&& self.free_indices@.contains(i2 as u32)
                    } by {
                    if i2 == ii {
                        assert(self.free_indices@[mid_free.len() as int] == i);
                    } else {
                        assert(o.entry(i2) == self.entry(i2));
                        assert(!o.entry(i2).spec_live());
                        assert(o.free_indices@.contains(i2 as u32));
                        let k = choose|k: int| 0 <= k < mid_free.len() && mid_free[k] == i2 as u32;
                        assert(self.free_indices@[k] == i2 as u32);
                    }
                }
            }
            assert(self.wf_parent()) by {
                assert forall|i2: int| #[trigger]
                    self.live_at(i2) && self.entry(i2).spec_parent() is Some implies {
                        let pu = self.entry(i2).spec_parent()->0.spec_uuid();
                        &&& self.is_live_uuid(pu)
                        &&& exists|k: int|
                            0 <= k < self.entry(self.index_of(pu) as int).spec_children().len()
                                && #[trigger] self.entry(self.index_of(pu) as int).spec_children()[k].spec_uuid()
                                == self.entry(i2).spec_uuid()
                    } by {
                    assert(o.live_at(i2));
                    let pu = self.entry(i2).spec_parent()->0.spec_uuid();
                    if pu == u {
                        let k = choose|k: int|
                            0 <= k < o.entry(o.index_of(pu) as int).spec_children().len()
                                && #[trigger] o.entry(o.index_of(pu) as int).spec_children()[k].spec_uuid()
                                == o.entry(i2).spec_uuid();
                    }
                    let k = choose|k: int|
                        0 <= k < o.entry(o.index_of(pu) as int).spec_children().len()
                            && #[trigger] o.entry(o.index_of(pu) as int).spec_children()[k].spec_uuid()
                            == o.entry(i2).spec_uuid();
                    assert(self.entry(self.index_of(pu) as int).spec_children()[k].spec_uuid() == self.entry(i2).spec_uuid());
                }
            }
            assert(self.wf_children()) by {
                assert forall|i2: int, k: int|
                    self.live_at(i2) && 0 <= k < self.entry(i2).spec_children().len() implies {
                        let cu = #[trigger] self.entry(i2).spec_children()[k].spec_uuid();
                        &&& self.is_live_uuid(cu)
                        &&& self.parent_uuid_at(self.index_of(cu) as int) == Some(self.entry(i2).spec_uuid())
                        &&& forall|k2: int|
                            0 <= k2 < self.entry(i2).spec_children().len() && k2 != k
                                ==> self.entry(i2).spec_children()[k2].spec_uuid() != cu
                    } by {
                    assert(o.live_at(i2));
                    let cu = o.entry(i2).spec_children()[k].spec_uuid();
                    assert(o.is_live_uuid(cu));
                    if cu == u {
                        assert(o.parent_uuid_at(ii) == Some(o.entry(i2).spec_uuid()));
                    }
                }
            }
        }
    }

    /// Two ancestors of one slot are ancestors of one another.
    proof fn lemma_descends_comparable(&self, i: int, a: u32, b: u32)
        requires
            self.wf_links(),
            self.descends_from(i, a),
            self.descends_from(i, b),
        ensures
            self.descends_from(self.index_of(a) as int, b) || self.descends_from(
                self.index_of(b) as int,
                a,
            ),
        decreases i,
    {
        assert(self.live_at(i));
        let u = self.entry(i).spec_uuid();
        if u == a {
            assert(self.index_of(a) as int == i);
        } else if u == b {
            assert(self.index_of(b) as int == i);
        } else {
            let p = self.entry(i).spec_parent()->0;
            let pi = self.index_of(p.spec_uuid()) as int;
            self.lemma_descends_comparable(pi, a, b);
        }
    }

    /// There are no more live entities than slots.
    proof fn lemma_live_count(&self)
        requires
            self.wf_links(),
        ensures
            self.index_map().dom().finite(),
            self.index_map().dom().len() <= self.spec_len(),
    {
        let dom = self.index_map().dom();
        assert(dom.finite());
        let f = |u: u32| self.index_map()[u] as int;
        let img = dom.map(f);
        assert(vstd::relations::injective_on(f, dom)) by {
            assert forall|x: u32, y: u32| dom.contains(x) && dom.contains(y) && #[trigger] f(x) == #[trigger] f(y) implies x == y by {
                assert(self.entry(self.index_map()[x] as int).spec_uuid() == x);
            }
        }
        vstd::set_lib::lemma_map_size(dom, img, f);
        vstd::set_lib::lemma_int_range(0, self.spec_len() as int);
        assert(img.subset_of(vstd::set_lib::set_int_range(0, self.spec_len() as int))) by {
            assert forall|v: int| img.contains(v) implies vstd::set_lib::set_int_range(0, self.spec_len() as int).contains(v) by {
                let u = choose|u: u32| dom.contains(u) && f(u) == v;
            }
        }
        vstd::set_lib::lemma_len_subset(img, vstd::set_lib::set_int_range(0, self.spec_len() as int));
    }

    /// Where identifier `u` is stored, if it is live.
    fn lookup_index(&self, u: u32) -> (r: Option<u32>)
        requires
            self.wf_links(),
        ensures
            r == (if self.is_live_uuid(u) {
                Some(self.index_of(u))
            } else {
                None
            }),
    {
        match self.uuid_to_index.get(&u) {
            Some(index) => Some(*index),
            None => None,
        }
    }

    /// Takes index `x` out of the free list.
    fn take_free(&mut self, x: u32)
        requires
            old(self).wf_links(),
            old(self).free_set().contains(x),
        ensures
            final(self).entity_storage@ == old(self).entity_storage@,
            final(self).uuid_to_index@ == old(self).uuid_to_index@,
            final(self).last_used_uuid == old(self).last_used_uuid,
            final(self).free_set() == old(self).free_set().remove(x),
            final(self).wf_claimed(x as int),
    {
        let n = self.free_indices.len();
        let mut k: usize = 0;
        while k < n
            invariant
                n == self.free_indices@.len(),
                k <= n,
                forall|j: int| 0 <= j < k ==> #[trigger] self.free_indices@[j] != x,
                self.free_indices@.to_set().contains(x),
            ensures
                k < n,
                self.free_indices@[k as int] == x,
            decreases n - k,
        {
            if self.free_indices[k] == x {
                break;
            }
            k = k + 1;
        }
        let ghost old_free = self.free_indices@;
        let best = k;
        let m = self.free_indices.swap_remove(best);
        proof {
            let new_free = self.free_indices@;
            assert(new_free =~= old_free.update(best as int, old_free.last()).drop_last());
            assert forall|y: u32| new_free.to_set().contains(y) <==> old_free.to_set().remove(m).contains(y) by {
                if new_free.to_set().contains(y) {
                    let j = choose|j: int| 0 <= j < new_free.len() && new_free[j] == y;
                    if j == best as int {
                        assert(old_free[old_free.len() - 1] == y);
                    } else {
                        assert(old_free[j] == y);
                    }
                }
                if old_free.to_set().remove(m).contains(y) {
                    let j = choose|j: int| 0 <= j < old_free.len() && old_free[j] == y;
                    if j == old_free.len() - 1 {
                        assert(new_free[best as int] == y);
                    } else {
                        assert(new_free[j] == y);
                    }
                }
            }
            assert(new_free.to_set() =~= old_free.to_set().remove(m));
            assert(new_free.no_duplicates());
            assert forall|i: int|
                0 <= i < self.spec_len() && !#[trigger] self.entry(i).spec_live() implies (i == m as int
                    || self.free_indices@.contains(i as u32)) by {
                assert(old(self).entry(i) == self.entry(i));
                assert(old_free.contains(i as u32));
                if i != m as int {
                    assert(old_free.to_set().contains(i as u32));
                    assert(new_free.to_set().contains(i as u32));
                }
            }
            assert forall|kk: int|
                0 <= kk < self.free_indices@.len() implies {
                    &&& (#[trigger] self.free_indices@[kk] as int) < self.spec_len()
                    &&& !self.entry(self.free_indices@[kk] as int).spec_live()
                    &&& self.free_indices@[kk] as int != m as int
                } by {
                if kk == best as int {
                    assert(old_free[old_free.len() - 1] == new_free[kk]);
                } else {
                    assert(old_free[kk] == new_free[kk]);
                }
            }
            Self::lemma_same_entries(self, old(self));
        }
    }

    /// The slot a new entity takes when it must come after slot `reference`:
    /// the smallest vacant slot after it, or a new slot at the end of storage.
    pub open spec fn is_next_index_after(&self, reference: u32, i: u32) -> bool {
        if exists|x: u32| #[trigger] self.free_set().contains(x) && x > reference {
            &&& i > reference
            &&& self.free_set().contains(i)
            &&& forall|x: u32| #[trigger] self.free_set().contains(x) && x > reference ==> i <= x
        } else {
            i as int == self.spec_len()
        }
    }

    /// Returns a new entity stored after slot `reference`.
    fn new_entity_larger_than(&mut self, reference: u32) -> (r: Entity)
        requires
            old(self).wf_links(),
            (reference as int) < old(self).spec_len(),
            old(self).spec_len() < u32::MAX,
            old(self).last_uuid() < u32::MAX,
        ensures
            old(self).is_next_index_after(reference, r.spec_index()),
            final(self).wf_links(),
            forall|i: int| #[trigger]
                old(self).live_at(i) ==> final(self).good_at(i) == old(self).good_at(i),
            final(self).spec_len() == (if r.spec_index() as int == old(self).spec_len() {
                old(self).spec_len() + 1
            } else {
                old(self).spec_len()
            }),
            final(self).last_uuid() == old(self).last_uuid() + 1,
            final(self).index_map() == old(self).index_map().insert(r.spec_uuid(), r.spec_index()),
            final(self).free_set() == old(self).free_set().remove(r.spec_index()),
            forall|i: int|
                0 <= i < old(self).spec_len() && i != r.spec_index() as int
                    ==> #[trigger] final(self).entry(i) == old(self).entry(i),
            final(self).entry(r.spec_index() as int).spec_live(),
            final(self).entry(r.spec_index() as int).spec_uuid() == r.spec_uuid(),
            final(self).entry(r.spec_index() as int).spec_parent() is None,
            final(self).entry(r.spec_index() as int).spec_children().len() == 0,
            r.spec_uuid() == old(self).last_uuid() + 1,
    {
        let len = self.entity_storage.len();
        let mut target_index: Option<u32> = None;
        if len - (reference as usize) > self.free_indices.len() {
            // Checking free indices may be faster
            let n = self.free_indices.len();
            let mut k: usize = 0;
            while k < n
                invariant
                    n == self.free_indices@.len(),
                    k <= n,
                    match target_index {
                        Some(t) => {
                            &&& t > reference
                            &&& self.free_indices@.contains(t)
                            &&& forall|j: int|
                                0 <= j < k && #[trigger] self.free_indices@[j] > reference ==> t
                                    <= self.free_indices@[j]
                        },
                        None => forall|j: int| 0 <= j < k ==> #[trigger] self.free_indices@[j] <= reference,
                    },
                decreases n - k,
            {
                let v = self.free_indices[k];
                if v > reference {
                    match target_index {
                        Some(t) => {
                            if v < t {
                                target_index = Some(v);
                            }
                        },
                        None => {
                            target_index = Some(v);
                        },
                    }
                }
                k = k + 1;
            }
        } else {
            // Checking storage directly may be faster
            let mut i: usize = reference as usize + 1;
            while i < len
                invariant_except_break
                    target_index is None,
                invariant
                    len == self.entity_storage@.len(),
                    len <= u32::MAX,
                    reference < i <= len,
                    forall|j: int| reference < j < i ==> #[trigger] self.entry(j).spec_live(),
                ensures
                    match target_index {
                        Some(t) => {
                            &&& t > reference
                            &&& (t as int) < len
                            &&& !self.entry(t as int).spec_live()
                            &&& forall|j: int| reference < j < t ==> #[trigger] self.entry(j).spec_live()
                        },
                        None => forall|j: int| reference < j < len ==> #[trigger] self.entry(j).spec_live(),
                    },
                decreases len - i,
            {
                if !self.entity_storage[i].live {
                    target_index = Some(i as u32);
                    break;
                }
                i = i + 1;
            }
        }
        proof {
            let o = old(self);
            match target_index {
                Some(t) => {
                    if !o.free_set().contains(t) {
                        assert(!o.entry(t as int).spec_live());
                        assert(o.free_indices@.contains(t));
                    }
                    assert(o.free_set().contains(t));
                    assert forall|x: u32| #[trigger] o.free_set().contains(x) && x > reference implies t <= x by {
                        let j = choose|j: int| 0 <= j < o.free_indices@.len() && o.free_indices@[j] == x;
                        assert(o.free_indices@[j] == x);
                        assert(!o.entry(x as int).spec_live());
                    }
                },
                None => {
                    assert forall|x: u32| #[trigger] o.free_set().contains(x) implies x <= reference by {
                        let j = choose|j: int| 0 <= j < o.free_indices@.len() && o.free_indices@[j] == x;
                        assert(o.free_indices@[j] == x);
                        assert(!o.entry(x as int).spec_live());
                    }
                },
            }
        }
        let idx = match target_index {
            Some(t) => {
                self.take_free(t);
                t
            },
            // No vacant spots, signal that we should resize to fit it
            None => {
                proof {
                    assert(self.wf_claimed(len as int));
                }
                len as u32
            },
        };
        let ghost mid = *self;
        let r = self.new_entity_at_index(idx);
        proof {
            let o = old(self);
            assert(self.free_indices@ == mid.free_indices@);
            match target_index {
                Some(t) => {},
                None => {
                    assert(o.free_set().remove(idx) =~= o.free_set());
                },
            }
        }
        r
    }

    /// `u` is live in `s` and descends from `x` there.
    pub open spec fn below(s: &Self, u: u32, x: u32) -> bool {
        s.is_live_uuid(u) && s.descends_from(s.index_of(u) as int, x)
    }

    /// The parent of `u`, if any, is stored before it.
    pub open spec fn good_u(&self, u: u32) -> bool {
        self.good_at(self.index_of(u) as int)
    }

    /// `s0` is a state in which `c` has just been given a new parent that does
    /// not descend from it; every other parent is stored before its children.
    spec fn reparent_ready(s0: &Self, c: u32) -> bool {
        &&& s0.wf_links()
        &&& s0.is_live_uuid(c)
        &&& forall|i: int| #[trigger]
            s0.live_at(i) && s0.entry(i).spec_uuid() != c ==> s0.good_at(i)
        &&& s0.parent_uuid_at(s0.index_of(c) as int) is Some
        &&& !Self::below(s0, s0.parent_uuid_at(s0.index_of(c) as int)->0, c)
        &&& s0.last_uuid() + s0.spec_len() <= u32::MAX
        &&& 2 * s0.spec_len() <= u32::MAX
    }

    /// Facts about a strict descendant of `x`.
    proof fn lemma_parent_below(s: &Self, u: u32, x: u32)
        requires
            s.wf_links(),
            Self::below(s, u, x),
            u != x,
        ensures
            s.parent_uuid_at(s.index_of(u) as int) is Some,
            Self::below(s, s.parent_uuid_at(s.index_of(u) as int)->0, x),
            (s.index_of(s.parent_uuid_at(s.index_of(u) as int)->0) as int) < s.index_of(u) as int,
    {
        let ui = s.index_of(u) as int;
        assert(s.live_at(ui));
        assert(s.entry(ui).spec_uuid() == u);
    }

    /// Facts about a child `y` of an entity `x` that descends from `c`.
    proof fn lemma_child_below(s0: &Self, c: u32, x: u32, k: int)
        requires
            Self::reparent_ready(s0, c),
            Self::below(s0, x, c),
            0 <= k < s0.entry(s0.index_of(x) as int).spec_children().len(),
        ensures
            ({
                let y = s0.entry(s0.index_of(x) as int).spec_children()[k].spec_uuid();
                &&& y != c
                &&& y != x
                &&& Self::below(s0, y, x)
                &&& Self::below(s0, y, c)
                &&& (s0.index_of(x) as int) < s0.index_of(y) as int
                &&& !Self::below(s0, x, y)
                &&& s0.parent_uuid_at(s0.index_of(y) as int) == Some(x)
            }),
    {
        let xi = s0.index_of(x) as int;
        assert(s0.live_at(xi));
        let y = s0.entry(xi).spec_children()[k].spec_uuid();
        assert(s0.is_live_uuid(y));
        let yi = s0.index_of(y) as int;
        assert(s0.live_at(yi));
        assert(s0.parent_uuid_at(yi) == Some(s0.entry(xi).spec_uuid()));
        assert(s0.entry(xi).spec_uuid() == x);
        if y == c {
            assert(false);
        }
        assert(s0.good_at(yi));
        assert(s0.descends_from(xi, x));
        assert(s0.descends_from(yi, x));
        s0.lemma_descends_trans(yi, x, c);
        if s0.descends_from(xi, y) {
            s0.lemma_descends_index(xi, y);
        }
    }

    /// Entities below two different children of `x` are different.
    proof fn lemma_siblings_disjoint(s0: &Self, c: u32, x: u32, k1: int, k2: int, u: u32)
        requires
            Self::reparent_ready(s0, c),
            Self::below(s0, x, c),
            0 <= k1 < s0.entry(s0.index_of(x) as int).spec_children().len(),
            0 <= k2 < s0.entry(s0.index_of(x) as int).spec_children().len(),
            k1 != k2,
        ensures
            !(Self::below(s0, u, s0.entry(s0.index_of(x) as int).spec_children()[k1].spec_uuid())
                && Self::below(s0, u, s0.entry(s0.index_of(x) as int).spec_children()[k2].spec_uuid())),
    {
        let xi = s0.index_of(x) as int;
        let y1 = s0.entry(xi).spec_children()[k1].spec_uuid();
        let y2 = s0.entry(xi).spec_children()[k2].spec_uuid();
        Self::lemma_child_below(s0, c, x, k1);
        Self::lemma_child_below(s0, c, x, k2);
        assert(s0.live_at(xi));
        assert(y1 != y2);
        if Self::below(s0, u, y1) && Self::below(s0, u, y2) {
            s0.lemma_descends_comparable(s0.index_of(u) as int, y1, y2);
            if s0.descends_from(s0.index_of(y1) as int, y2) {
                Self::lemma_parent_below(s0, y1, y2);
                s0.lemma_descends_index(xi, y2);
            } else {
                Self::lemma_parent_below(s0, y2, y1);
                s0.lemma_descends_index(xi, y1);
            }
        }
    }

    /// A strict descendant of `x` is below one of its children.
    proof fn lemma_below_some_child(s0: &Self, x: u32, u: u32)
        requires
            s0.wf_links(),
            Self::below(s0, u, x),
            u != x,
        ensures
            exists|k: int|
                0 <= k < s0.entry(s0.index_of(x) as int).spec_children().len() && Self::below(
                    s0,
                    u,
                    #[trigger] s0.entry(s0.index_of(x) as int).spec_children()[k].spec_uuid(),
                ),
    {
        let ui = s0.index_of(u) as int;
        assert(s0.live_at(ui));
        s0.lemma_descends_child(ui, x);
    }

    /// Moves the child at `child_index`, and then its descendants, so that every
    /// one is stored after its parent; records each exchange of slots.
    fn ensure_parent_child_order(
        &mut self,
        parent_index: u32,
        child_index: u32,
        swaps: &mut Vec<(u32, u32)>,
        Ghost(s0): Ghost<Self>,
        Ghost(c): Ghost<u32>,
        Ghost(moved): Ghost<Set<u32>>,
    ) -> (moved_out: Ghost<Set<u32>>)
        requires
            Self::reparent_ready(&s0, c),
            old(self).wf_links(),
            Self::same_by_uuid(&s0, old(self)),
            old(self).live_at(child_index as int),
            Self::below(&s0, old(self).entry(child_index as int).spec_uuid(), c),
            old(self).parent_uuid_at(child_index as int) is Some,
            old(self).index_of(old(self).parent_uuid_at(child_index as int)->0) == parent_index,
            !Self::below(
                &s0,
                old(self).parent_uuid_at(child_index as int)->0,
                old(self).entry(child_index as int).spec_uuid(),
            ),
            forall|u: u32|
                #[trigger] Self::below(&s0, u, old(self).entry(child_index as int).spec_uuid())
                    ==> old(self).index_of(u) == s0.index_of(u),
            forall|u: u32| #[trigger]
                old(self).is_live_uuid(u) ==> old(self).index_of(u) as int == follow_swaps(
                    old(swaps)@,
                    s0.index_of(u) as int,
                ),
            moved.finite(),
            forall|u: u32| #[trigger] moved.contains(u) ==> s0.is_live_uuid(u),
            forall|u: u32|
                #[trigger] moved.contains(u) ==> !Self::below(
                    &s0,
                    u,
                    old(self).entry(child_index as int).spec_uuid(),
                ),
            old(swaps)@.len() == moved.len(),
            old(self).last_uuid() == s0.last_uuid() + old(swaps)@.len(),
            old(self).spec_len() <= s0.spec_len() + old(swaps)@.len(),
        ensures
            final(self).wf_links(),
            Self::same_by_uuid(&s0, final(self)),
            forall|u: u32|
                #[trigger] Self::below(&s0, u, old(self).entry(child_index as int).spec_uuid())
                    ==> final(self).good_u(u),
            forall|u: u32|
                old(self).is_live_uuid(u) && !Self::below(
                    &s0,
                    u,
                    old(self).entry(child_index as int).spec_uuid(),
                ) ==> #[trigger] final(self).index_of(u) == old(self).index_of(u),
            forall|u: u32| #[trigger]
                final(self).is_live_uuid(u) ==> final(self).index_of(u) as int == follow_swaps(
                    final(swaps)@,
                    s0.index_of(u) as int,
                ),
            moved_out@.finite(),
            moved.subset_of(moved_out@),
            forall|u: u32| #[trigger] moved_out@.contains(u) ==> s0.is_live_uuid(u),
            forall|u: u32|
                #[trigger] moved_out@.contains(u) && !moved.contains(u) ==> Self::below(
                    &s0,
                    u,
                    old(self).entry(child_index as int).spec_uuid(),
                ),
            final(swaps)@.len() == moved_out@.len(),
            final(self).last_uuid() == s0.last_uuid() + final(swaps)@.len(),
            final(self).spec_len() <= s0.spec_len() + final(swaps)@.len(),
            old(self).spec_len() <= final(self).spec_len(),
            child_index > parent_index ==> *final(self) == *old(self) && final(swaps)@ == old(swaps)@,
            child_index < parent_index ==> old(self).is_next_index_after(
                parent_index,
                final(self).index_of(old(self).entry(child_index as int).spec_uuid()),
            ),
        decreases s0.spec_len() - s0.index_of(old(self).entry(child_index as int).spec_uuid()),
    {
        let ghost x = self.entry(child_index as int).spec_uuid();
        let ghost pxu = self.parent_uuid_at(child_index as int)->0;
        if child_index > parent_index {
            proof {
                assert forall|u: u32| #[trigger] Self::below(&s0, u, x) implies self.good_u(u) by {
                    if u == x {
                        assert(self.index_of(x) == child_index);
                    } else {
                        Self::lemma_parent_below(&s0, u, x);
                        let ui = s0.index_of(u) as int;
                        assert(s0.live_at(ui));
                        if u == c {
                            s0.lemma_descends_index(s0.index_of(x) as int, c);
                            assert(s0.descends_from(s0.index_of(x) as int, x));
                            s0.lemma_descends_index(ui, x);
                        }
                        assert(s0.good_at(ui));
                        assert(s0.entry(ui) == self.entry(self.index_of(u) as int));
                    }
                }
            }
            return Ghost(moved);
        }
        let ghost e0 = *self;
        let ghost sw0 = swaps@;
        proof {
            assert(s0.is_live_uuid(x));
            assert(!moved.contains(x)) by {
                assert(s0.live_at(s0.index_of(x) as int));
                assert(s0.descends_from(s0.index_of(x) as int, x));
            }
            s0.lemma_live_count();
            vstd::set_lib::lemma_len_subset(moved.insert(x), s0.index_map().dom());
        }
        // Create a new dummy entity in a position where child would be valid (i.e. after parent)
        let dummy = self.new_entity_larger_than(parent_index);
        let new_child_index = dummy.index;
        proof {
            assert(new_child_index > parent_index);
            assert(self.live_at(new_child_index as int));
            assert(self.live_at(child_index as int));
        }
        // Swap current child with dummy
        self.swap_entities(new_child_index, child_index);
        swaps.push((new_child_index, child_index));
        // Get rid of dummy (just mark it as vacant, really)
        self.release_slot(child_index);
        let ghost moved1 = moved.insert(x);
        proof {
            let du = dummy.spec_uuid();
            assert(!s0.is_live_uuid(du));
            assert forall|u: u32| #[trigger] s0.is_live_uuid(u) <==> self.is_live_uuid(u) by {
                if u == du {}
            }
            assert forall|u: u32| #[trigger]
                s0.is_live_uuid(u) implies s0.entry(s0.index_of(u) as int) == self.entry(
                    self.index_of(u) as int,
                ) by {
                assert(e0.is_live_uuid(u));
                assert(e0.live_at(e0.index_of(u) as int));
                if u == x {
                } else {
                    assert(e0.index_of(u) != new_child_index);
                    assert(e0.index_of(u) != child_index);
                }
            }
            assert forall|u: u32| #[trigger]
                self.is_live_uuid(u) implies self.index_of(u) as int == follow_swaps(
                    swaps@,
                    s0.index_of(u) as int,
                ) by {
                lemma_follow_push(sw0, (new_child_index, child_index), s0.index_of(u) as int);
                assert(e0.is_live_uuid(u));
                assert(e0.live_at(e0.index_of(u) as int));
                if u != x {
                    assert(e0.index_of(u) != new_child_index);
                    assert(e0.index_of(u) != child_index);
                }
            }
            assert(self.index_of(x) == new_child_index);
            assert(moved1.len() == moved.len() + 1);
        }
        let ghost cs = s0.entry(s0.index_of(x) as int).spec_children();
        let ghost r1 = *self;
        // Propagate for all grandchildren in the child hierarchy
        let n = self.entity_storage[new_child_index as usize].children.len();
        let mut grand_child_indices: Vec<u32> = Vec::new();
        let mut k: usize = 0;
        while k < n
            invariant
                *self == r1,
                s0.wf_links(),
                r1.wf_links(),
                Self::same_by_uuid(&s0, &r1),
                s0.is_live_uuid(x),
                r1.index_of(x) == new_child_index,
                (new_child_index as int) < r1.spec_len(),
                cs == s0.entry(s0.index_of(x) as int).spec_children(),
                n == cs.len(),
                k <= n,
                grand_child_indices@.len() == k,
                forall|j: int| 0 <= j < k ==> #[trigger] grand_child_indices@[j] == r1.index_of(cs[j].spec_uuid()),
                forall|j: int| 0 <= j < k ==> r1.is_live_uuid(#[trigger] cs[j].spec_uuid()),
            decreases n - k,
        {
            proof {
                assert(r1.entry(new_child_index as int) == s0.entry(s0.index_of(x) as int));
                assert(s0.live_at(s0.index_of(x) as int));
                assert(s0.is_live_uuid(cs[k as int].spec_uuid()));
            }
            let g = self.entity_storage[new_child_index as usize].children[k];
            let gi = self.lookup_index(g.uuid.0).unwrap();
            grand_child_indices.push(gi);
            k = k + 1;
        }
        proof {
            assert forall|j: int| 0 <= j < n implies #[trigger] grand_child_indices@[j] == s0.index_of(cs[j].spec_uuid()) by {
                Self::lemma_child_below(&s0, c, x, j);
                let u = cs[j].spec_uuid();
                assert(e0.index_of(u) == s0.index_of(u));
                assert(e0.is_live_uuid(u));
                assert(e0.live_at(e0.index_of(u) as int));
                assert(e0.index_of(u) != new_child_index);
                assert(e0.index_of(u) != child_index);
            }
            assert forall|u: u32, j: int|
                0 <= j < n && #[trigger] moved1.contains(u) implies !Self::below(&s0, u, #[trigger] cs[j].spec_uuid()) by {
                Self::lemma_child_below(&s0, c, x, j);
                if u != x && Self::below(&s0, u, cs[j].spec_uuid()) {
                    s0.lemma_descends_trans(s0.index_of(u) as int, cs[j].spec_uuid(), x);
                }
            }
        }
        let ghost mut mv = moved1;
        let mut k: usize = 0;
        while k < n
            invariant
                x == old(self).entry(child_index as int).spec_uuid(),
                Self::same_by_uuid(&s0, &e0),
                Self::reparent_ready(&s0, c),
                self.wf_links(),
                Self::same_by_uuid(&s0, self),
                Self::below(&s0, x, c),
                s0.is_live_uuid(x),
                cs == s0.entry(s0.index_of(x) as int).spec_children(),
                n == cs.len(),
                k <= n,
                grand_child_indices@.len() == n,
                forall|j: int| 0 <= j < n ==> #[trigger] grand_child_indices@[j] == s0.index_of(cs[j].spec_uuid()),
                self.index_of(x) == new_child_index,
                e0.index_of(pxu) == parent_index,
                parent_index < new_child_index,
                s0.parent_uuid_at(s0.index_of(x) as int) == Some(pxu),
                !Self::below(&s0, pxu, x),
                e0.is_live_uuid(pxu),
                forall|u: u32|
                    #[trigger] Self::below(&s0, u, x) && u != x && (forall|j: int|
                        0 <= j < k ==> !Self::below(&s0, u, #[trigger] cs[j].spec_uuid()))
                        ==> self.index_of(u) == s0.index_of(u),
                forall|u: u32, j: int|
                    0 <= j < k && #[trigger] Self::below(&s0, u, cs[j].spec_uuid()) ==> self.good_u(u),
                forall|u: u32|
                    e0.is_live_uuid(u) && !Self::below(&s0, u, x) ==> #[trigger] self.index_of(u)
                        == e0.index_of(u),
                forall|u: u32| #[trigger]
                    self.is_live_uuid(u) ==> self.index_of(u) as int == follow_swaps(
                        swaps@,
                        s0.index_of(u) as int,
                    ),
                mv.finite(),
                moved1.subset_of(mv),
                forall|u: u32| #[trigger] mv.contains(u) ==> s0.is_live_uuid(u),
                forall|u: u32| #[trigger] mv.contains(u) && !moved.contains(u) ==> Self::below(&s0, u, x),
                forall|u: u32, j: int|
                    k <= j < n && #[trigger] mv.contains(u) ==> !Self::below(&s0, u, #[trigger] cs[j].spec_uuid()),
                swaps@.len() == mv.len(),
                self.last_uuid() == s0.last_uuid() + swaps@.len(),
                self.spec_len() <= s0.spec_len() + swaps@.len(),
                old(self).spec_len() <= self.spec_len(),
            decreases n - k,
        {
            let ghost y = cs[k as int].spec_uuid();
            let ghost sk = *self;
            proof {
                Self::lemma_child_below(&s0, c, x, k as int);
                assert(forall|j: int| 0 <= j < k ==> !Self::below(&s0, y, #[trigger] cs[j].spec_uuid())) by {
                    assert forall|j: int| 0 <= j < k implies !Self::below(&s0, y, #[trigger] cs[j].spec_uuid()) by {
                        Self::lemma_siblings_disjoint(&s0, c, x, j, k as int, y);
                        assert(s0.live_at(s0.index_of(y) as int));
                        assert(s0.descends_from(s0.index_of(y) as int, y));
                    }
                }
                assert(self.index_of(y) == s0.index_of(y));
                assert(self.live_at(grand_child_indices@[k as int] as int));
                assert(self.entry(grand_child_indices@[k as int] as int).spec_uuid() == y);
                assert(self.parent_uuid_at(grand_child_indices@[k as int] as int) == Some(x));
                assert forall|u: u32| #[trigger] Self::below(&s0, u, y) implies self.index_of(u) == s0.index_of(u) by {
                    s0.lemma_descends_trans(s0.index_of(u) as int, y, x);
                    assert(Self::below(&s0, u, x));
                    assert(u != x);
                    assert forall|j: int| 0 <= j < k implies !Self::below(&s0, u, #[trigger] cs[j].spec_uuid()) by {
                        Self::lemma_siblings_disjoint(&s0, c, x, j, k as int, u);
                    }
                }
                assert forall|u: u32| #[trigger] mv.contains(u) implies !Self::below(&s0, u, y) by {}
                assert(s0.index_of(y) > s0.index_of(x));
            }
            let mv2 = self.ensure_parent_child_order(
                new_child_index,
                grand_child_indices[k],
                swaps,
                Ghost(s0),
                Ghost(c),
                Ghost(mv),
            );
            proof {
                let mvo = mv;
                mv = mv2@;
                assert forall|u: u32, j: int|
                    0 <= j < k + 1 && #[trigger] Self::below(&s0, u, cs[j].spec_uuid()) implies self.good_u(u) by {
                    if j < k {
                        assert(sk.good_u(u));
                        Self::lemma_siblings_disjoint(&s0, c, x, j, k as int, u);
                        Self::lemma_child_below(&s0, c, x, j);
                        let cj = cs[j].spec_uuid();
                        assert(sk.is_live_uuid(u));
                        assert(self.index_of(u) == sk.index_of(u));
                        assert(s0.entry(s0.index_of(u) as int) == self.entry(self.index_of(u) as int));
                        assert(s0.entry(s0.index_of(u) as int) == sk.entry(sk.index_of(u) as int));
                        let pu = s0.parent_uuid_at(s0.index_of(u) as int);
                        if u == cj {
                            assert(pu == Some(x));
                            assert(self.index_of(x) == sk.index_of(x));
                        } else {
                            Self::lemma_parent_below(&s0, u, cj);
                            let p = pu->0;
                            Self::lemma_siblings_disjoint(&s0, c, x, j, k as int, p);
                            assert(self.index_of(p) == sk.index_of(p));
                        }
                    }
                }
                assert forall|u: u32, j: int|
                    k + 1 <= j < n && #[trigger] mv.contains(u) implies !Self::below(&s0, u, #[trigger] cs[j].spec_uuid()) by {
                    if !mvo.contains(u) {
                        Self::lemma_siblings_disjoint(&s0, c, x, k as int, j, u);
                    }
                }
                assert forall|u: u32| #[trigger] mv.contains(u) && !moved.contains(u) implies Self::below(&s0, u, x) by {
                    if !mvo.contains(u) {
                        assert(Self::below(&s0, u, y));
                        s0.lemma_descends_trans(s0.index_of(u) as int, y, x);
                    }
                }
                assert forall|u: u32|
                    e0.is_live_uuid(u) && !Self::below(&s0, u, x) implies #[trigger] self.index_of(u)
                        == e0.index_of(u) by {
                    assert(sk.is_live_uuid(u));
                    if Self::below(&s0, u, y) {
                        s0.lemma_descends_trans(s0.index_of(u) as int, y, x);
                    }
                }
            }
            k = k + 1;
        }
        proof {
            assert forall|u: u32| #[trigger] Self::below(&s0, u, x) implies self.good_u(u) by {
                if u == x {
                    assert(self.entry(self.index_of(x) as int) == s0.entry(s0.index_of(x) as int));
                    assert(self.index_of(pxu) == e0.index_of(pxu));
                } else {
                    Self::lemma_below_some_child(&s0, x, u);
                }
            }
        }
        Ghost(mv)
    }

    /// Changing the parent of `c` does not change who descends from `c`.
    proof fn lemma_descends_except(o: &Self, s: &Self, i: int, c: u32)
        requires
            s.spec_len() == o.spec_len(),
            s.index_map() == o.index_map(),
            forall|j: int|
                0 <= j < s.spec_len() ==> (#[trigger] s.entry(j)).spec_uuid() == o.entry(j).spec_uuid()
                    && s.entry(j).spec_live() == o.entry(j).spec_live() && (s.entry(j).spec_uuid() != c
                    ==> s.entry(j).spec_parent() == o.entry(j).spec_parent()),
        ensures
            s.descends_from(i, c) == o.descends_from(i, c),
        decreases i,
    {
        if 0 <= i < s.spec_len() {
            assert(s.entry(i).spec_uuid() == o.entry(i).spec_uuid());
            if s.live_at(i) && s.entry(i).spec_uuid() != c {
                match s.entry(i).spec_parent() {
                    Some(p) => {
                        let pi = s.index_of(p.spec_uuid()) as int;
                        if s.is_live_uuid(p.spec_uuid()) && 0 <= pi < i {
                            Self::lemma_descends_except(o, s, pi, c);
                        }
                    },
                    None => {},
                }
            }
        }
    }

    /// What `set_entity_parent(parent, child)` does to the entity with
    /// identifier `u`, which was live: its new parent, and its new children.
    pub open spec fn relinked_entry(
        &self,
        new_entry: EntityEntry,
        u: u32,
        parent: Entity,
        child: Entity,
    ) -> bool {
        let old_entry = self.entry(self.index_of(u) as int);
        let old_parent = self.parent_uuid_at(self.index_of(child.spec_uuid()) as int);
        &&& new_entry.spec_live()
        &&& new_entry.spec_uuid() == u
        &&& new_entry.spec_parent() == (if u == child.spec_uuid() {
            Some(parent)
        } else {
            old_entry.spec_parent()
        })
        &&& if u == parent.spec_uuid() {
            new_entry.spec_children() == old_entry.spec_children().push(child)
        } else if old_parent == Some(u) {
            exists|k: int|
                0 <= k < old_entry.spec_children().len()
                    && #[trigger] old_entry.spec_children()[k].spec_uuid() == child.spec_uuid()
                    && new_entry.spec_children() == old_entry.spec_children().remove(k)
        } else {
            new_entry.spec_children() == old_entry.spec_children()
        }
    }

    /// Whether `set_entity_parent(parent, child)` has anything to do.
    pub open spec fn relinks(&self, parent: Entity, child: Entity) -> bool {
        &&& self.is_live_uuid(parent.spec_uuid())
        &&& self.is_live_uuid(child.spec_uuid())
        &&& self.parent_uuid_at(self.index_of(child.spec_uuid()) as int) != Some(parent.spec_uuid())
    }

    /// Room for the dummy entities and slots that reordering may need.
    pub open spec fn has_room_to_reorder(&self) -> bool {
        &&& self.last_uuid() + self.spec_len() <= u32::MAX
        &&& 2 * self.spec_len() <= u32::MAX
    }

    /// The live entities in the subtree of `c`: `c` itself, when it is live,
    /// and its descendants.
    pub open spec fn subtree(&self, c: u32) -> Set<u32> {
        Set::new(|u: u32| self.is_live_uuid(u) && self.descends_from(self.index_of(u) as int, c))
    }

    /// What a call of `set_entity_parent(parent, child)` leaves and returns:
    /// the links and order of `reparent_core`; and when it relinks, only
    /// entities of the child's subtree move, one swap for each that moves.
    pub open spec fn set_parent_post(
        &self,
        new: &Self,
        parent: Entity,
        child: Entity,
        swaps: Seq<(u32, u32)>,
    ) -> bool {
        &&& self.reparent_core(new, parent, child, swaps)
        &&& self.relinks(parent, child) ==> {
            &&& self.subtree(child.spec_uuid()).finite()
            &&& self.subtree(child.spec_uuid()).len() <= self.spec_len()
            &&& swaps.len() <= self.subtree(child.spec_uuid()).len()
            &&& forall|u: u32|
                self.is_live_uuid(u) && !self.subtree(child.spec_uuid()).contains(u)
                    ==> #[trigger] new.index_of(u) == self.index_of(u)
        }
    }

    /// The links, liveness, slots and counters that `set_entity_parent`
    /// leaves.
    pub open spec fn reparent_core(
        &self,
        new: &Self,
        parent: Entity,
        child: Entity,
        swaps: Seq<(u32, u32)>,
    ) -> bool {
        &&& new.wf()
        &&& if !self.relinks(parent, child) {
            &&& swaps.len() == 0
            &&& new.spec_len() == self.spec_len()
            &&& new.last_uuid() == self.last_uuid()
            &&& new.index_map() == self.index_map()
            &&& forall|i: int| 0 <= i < self.spec_len() ==> #[trigger] new.entry(i) == self.entry(i)
        } else {
            &&& forall|u: u32| #[trigger] new.is_live_uuid(u) <==> self.is_live_uuid(u)
            &&& forall|u: u32| #[trigger]
                self.is_live_uuid(u) ==> new.index_of(u) as int == follow_swaps(
                    swaps,
                    self.index_of(u) as int,
                )
            &&& forall|u: u32| #[trigger]
                self.is_live_uuid(u) ==> self.relinked_entry(
                    new.entry(new.index_of(u) as int),
                    u,
                    parent,
                    child,
                )
            &&& new.last_uuid() == self.last_uuid() + swaps.len()
            &&& self.spec_len() <= new.spec_len() <= self.spec_len() + swaps.len()
            &&& self.index_of(child.spec_uuid()) < self.index_of(parent.spec_uuid())
                ==> self.is_next_index_after(
                self.index_of(parent.spec_uuid()),
                new.index_of(child.spec_uuid()),
            )
            &&& self.index_of(child.spec_uuid()) > self.index_of(parent.spec_uuid()) ==> swaps.len()
                == 0
        }
    }

    /// Makes `parent` the parent of `child`. When the child was stored before
    /// its new parent, it and its descendants are moved after it; the
    /// exchanges of slots that this made are returned, in order, so that
    /// per-slot component storage can follow its entities.
    pub fn set_entity_parent(&mut self, parent: &Entity, child: &Entity) -> (swaps: Vec<(u32, u32)>)
        requires
            old(self).wf(),
            old(self).has_room_to_reorder(),
            old(self).is_live_uuid(parent.spec_uuid()) && old(self).is_live_uuid(child.spec_uuid())
                ==> !old(self).descends_from(
                old(self).index_of(parent.spec_uuid()) as int,
                child.spec_uuid(),
            ),
        ensures
            old(self).set_parent_post(final(self), *parent, *child, swaps@),
    {
        let ghost o = *old(self);
        let parent_index = self.get_entity_index(parent);
        let child_index = self.get_entity_index(child);
        if parent_index.is_none() || child_index.is_none() {
            return Vec::new();
        }
        let parent_index = parent_index.unwrap();
        let child_index = child_index.unwrap();
        proof {
            assert(o.live_at(child_index as int));
            assert(o.live_at(parent_index as int));
        }
        let ghost mut removed: Option<(int, int)> = None;
        // Update old parent
        if let Some(old_parent) = self.get_entity_parent(child) {
            if old_parent == *parent {
                return Vec::new();
            }
            let opi = self.lookup_index(old_parent.uuid.0).unwrap();
            proof {
                let k = choose|k: int|
                    0 <= k < self.entry(opi as int).spec_children().len()
                        && #[trigger] self.entry(opi as int).spec_children()[k].spec_uuid()
                        == self.entry(child_index as int).spec_uuid();
                assert(self.entity_storage@[opi as int].children@[k].uuid.0 == child.uuid.0);
            }
            let pos = self.remove_child_handle(opi, child);
            proof {
                removed = Some((opi as int, pos as int));
            }
        }
        let ghost m1 = *self;
        // Update new parent
        let mut pentry = EntityEntry::vacant();
        self.entity_storage.set_and_swap(parent_index as usize, &mut pentry);
        pentry.children.push(*child);
        self.entity_storage.set_and_swap(parent_index as usize, &mut pentry);
        // Update child
        let mut centry = EntityEntry::vacant();
        self.entity_storage.set_and_swap(child_index as usize, &mut centry);
        centry.parent = Some(*parent);
        self.entity_storage.set_and_swap(child_index as usize, &mut centry);
        let ghost s0 = *self;
        proof {
            assert(s0.entity_storage@ =~= m1.entity_storage@.update(
                parent_index as int,
                s0.entity_storage@[parent_index as int],
            ).update(child_index as int, s0.entity_storage@[child_index as int]));
            Self::lemma_relink(&o, &m1, &s0, parent_index as int, child_index as int, *parent, *child, removed);
        }
        // Need to always guarantee parent < child so that when we compute transforms every frame we
        // can compute them all in one pass with minimal referencing
        let mut swaps: Vec<(u32, u32)> = Vec::new();
        let moved = self.ensure_parent_child_order(
            parent_index,
            child_index,
            &mut swaps,
            Ghost(s0),
            Ghost(child.spec_uuid()),
            Ghost(Set::empty()),
        );
        proof {
            assert(s0.free_set() == o.free_set());
            assert(s0.spec_len() == o.spec_len());
            Self::lemma_reparent_finish(&o, &s0, &*self, *parent, *child, swaps@);
            Self::lemma_reparent_moves(&o, &s0, &*self, *parent, *child, swaps@, moved@);
        }
        swaps
    }

    proof fn lemma_relink(
        o: &Self,
        m1: &Self,
        s0: &Self,
        pi: int,
        ci: int,
        parent: Entity,
        child: Entity,
        removed: Option<(int, int)>,
    )
        requires
            o.wf(),
            o.has_room_to_reorder(),
            o.relinks(parent, child),
            !o.descends_from(o.index_of(parent.spec_uuid()) as int, child.spec_uuid()),
            pi == o.index_of(parent.spec_uuid()),
            ci == o.index_of(child.spec_uuid()),
            match removed {
                None => o.entry(ci).spec_parent() is None && m1.entity_storage@ == o.entity_storage@,
                Some((opi, pos)) => {
                    &&& o.entry(ci).spec_parent() is Some
                    &&& opi == o.index_of(o.entry(ci).spec_parent()->0.spec_uuid()) as int
                    &&& 0 <= pos < o.entry(opi).spec_children().len()
                    &&& o.entry(opi).spec_children()[pos].spec_uuid() == child.spec_uuid()
                    &&& m1.entity_storage@ == o.entity_storage@.update(opi, m1.entity_storage@[opi])
                    &&& m1.entry(opi).spec_live() == o.entry(opi).spec_live()
                    &&& m1.entry(opi).spec_uuid() == o.entry(opi).spec_uuid()
                    &&& m1.entry(opi).spec_parent() == o.entry(opi).spec_parent()
                    &&& m1.entry(opi).spec_children() == o.entry(opi).spec_children().remove(pos)
                },
            },
            m1.free_indices == o.free_indices,
            m1.uuid_to_index == o.uuid_to_index,
            m1.last_used_uuid == o.last_used_uuid,
            s0.entity_storage@ == m1.entity_storage@.update(pi, s0.entity_storage@[pi]).update(
                ci,
                s0.entity_storage@[ci],
            ),
            s0.entity_storage@[pi].live == m1.entity_storage@[pi].live,
            s0.entity_storage@[pi].uuid == m1.entity_storage@[pi].uuid,
            s0.entity_storage@[pi].parent == m1.entity_storage@[pi].parent,
            s0.entity_storage@[pi].children@ == m1.entity_storage@[pi].children@.push(child),
            s0.entity_storage@[ci].live == m1.entity_storage@[ci].live,
            s0.entity_storage@[ci].uuid == m1.entity_storage@[ci].uuid,
            s0.entity_storage@[ci].parent == Some(parent),
            s0.entity_storage@[ci].children == m1.entity_storage@[ci].children,
            s0.free_indices == o.free_indices,
            s0.uuid_to_index == o.uuid_to_index,
            s0.last_used_uuid == o.last_used_uuid,
        ensures
            Self::reparent_ready(s0, child.spec_uuid()),
            s0.spec_len() == o.spec_len(),
            s0.index_map() == o.index_map(),
            s0.last_uuid() == o.last_uuid(),
            forall|u: u32| #[trigger]
                o.is_live_uuid(u) ==> o.relinked_entry(s0.entry(s0.index_of(u) as int), u, parent, child),
    {
        let cu = child.spec_uuid();
        let pu = parent.spec_uuid();
        assert(o.live_at(ci));
        assert(o.live_at(pi));
        assert(o.entry(ci).spec_uuid() == cu);
        assert(o.entry(pi).spec_uuid() == pu);
        assert(o.descends_from(pi, pu));
        assert(pu != cu);
        assert(pi != ci);
        let opi = match removed { Some((a, _)) => a, None => -1 };
        let pos = match removed { Some((_, b)) => b, None => -1 };
        if removed is Some {
            assert(o.live_at(opi));
            assert(opi != pi);
            assert(opi != ci);
        }
        // slots other than the three touched keep their contents
        assert forall|j: int|
            0 <= j < o.spec_len() && j != pi && j != ci && j != opi implies #[trigger] s0.entry(j) == o.entry(j) by {}
        assert forall|j: int|
            0 <= j < s0.spec_len() implies (#[trigger] s0.entry(j)).spec_uuid() == o.entry(j).spec_uuid()
                && s0.entry(j).spec_live() == o.entry(j).spec_live() && (s0.entry(j).spec_uuid() != cu
                ==> s0.entry(j).spec_parent() == o.entry(j).spec_parent()) by {}
        assert(s0.wf_index_map()) by {
            assert forall|i: int| #[trigger]
                s0.live_at(i) implies {
                    &&& s0.index_map().contains_key(s0.entry(i).spec_uuid())
                    &&& s0.index_map()[s0.entry(i).spec_uuid()] == i
                } by {
                assert(o.live_at(i));
            }
        }
        assert(s0.wf_free()) by {
            assert forall|k: int|
                0 <= k < s0.free_indices@.len() implies {
                    &&& (#[trigger] s0.free_indices@[k] as int) < s0.spec_len()
                    &&& !s0.entry(s0.free_indices@[k] as int).spec_live()
                } by {
                let x = s0.free_indices@[k] as int;
                assert(!o.entry(x).spec_live());
            }
            assert forall|i: int|
                0 <= i < s0.spec_len() && !#[trigger] s0.entry(i).spec_live() implies {
                    &&& s0.entry(i).is_vacant()
                    &&& s0.free_indices@.contains(i as u32)
                } by {
                assert(!o.entry(i).spec_live());
                assert(i != pi && i != ci && i != opi);
            }
        }
        assert(s0.wf_parent()) by {
            assert forall|i: int| #[trigger]
                s0.live_at(i) && s0.entry(i).spec_parent() is Some implies {
                    let pu2 = s0.entry(i).spec_parent()->0.spec_uuid();
                    &&& s0.is_live_uuid(pu2)
                    &&& exists|k: int|
                        0 <= k < s0.entry(s0.index_of(pu2) as int).spec_children().len()
                            && #[trigger] s0.entry(s0.index_of(pu2) as int).spec_children()[k].spec_uuid()
                            == s0.entry(i).spec_uuid()
                } by {
                assert(o.live_at(i));
                if i == ci {
                    let k = o.entry(pi).spec_children().len() as int;
                    assert(s0.entry(pi).spec_children()[k] == child);
                } else {
                    let pu2 = o.entry(i).spec_parent()->0.spec_uuid();
                    let pix = o.index_of(pu2) as int;
                    assert(o.live_at(pix));
                    let k = choose|k: int|
                        0 <= k < o.entry(pix).spec_children().len()
                            && #[trigger] o.entry(pix).spec_children()[k].spec_uuid() == o.entry(i).spec_uuid();
                    assert(o.entry(i).spec_uuid() != cu);
                    if pix == pi {
                        assert(s0.entry(pix).spec_children()[k] == o.entry(pix).spec_children()[k]);
                    } else if pix == opi {
                        assert(k != pos);
                        let k2 = if k < pos { k } else { k - 1 };
                        assert(s0.entry(pix).spec_children()[k2] == o.entry(pix).spec_children()[k]);
                    } else if pix == ci {
                        assert(s0.entry(pix).spec_children()[k] == o.entry(pix).spec_children()[k]);
                    } else {
                        assert(s0.entry(pix) == o.entry(pix));
                    }
                }
            }
        }
        assert(s0.wf_children()) by {
            assert forall|i: int, k: int|
                s0.live_at(i) && 0 <= k < s0.entry(i).spec_children().len() implies {
                    let cu2 = #[trigger] s0.entry(i).spec_children()[k].spec_uuid();
                    &&& s0.is_live_uuid(cu2)
                    &&& s0.parent_uuid_at(s0.index_of(cu2) as int) == Some(s0.entry(i).spec_uuid())
                    &&& forall|k2: int|
                        0 <= k2 < s0.entry(i).spec_children().len() && k2 != k
                            ==> s0.entry(i).spec_children()[k2].spec_uuid() != cu2
                } by {
                assert(o.live_at(i));
                let oc = o.entry(i).spec_children();
                if i == pi {
                    // the child was not a child of its new parent before
                    assert forall|k3: int| 0 <= k3 < oc.len() implies #[trigger] oc[k3].spec_uuid() != cu by {
                        let x = oc[k3].spec_uuid();
                        assert(o.parent_uuid_at(o.index_of(x) as int) == Some(pu));
                    }
                    if k < oc.len() {
                        let x = oc[k].spec_uuid();
                        assert(s0.entry(i).spec_children()[k] == oc[k]);
                        assert(o.is_live_uuid(x));
                        assert(o.parent_uuid_at(o.index_of(x) as int) == Some(pu));
                        assert forall|k2: int|
                            0 <= k2 < s0.entry(i).spec_children().len() && k2 != k
                                implies s0.entry(i).spec_children()[k2].spec_uuid() != x by {
                            if k2 < oc.len() {
                                assert(s0.entry(i).spec_children()[k2] == oc[k2]);
                            } else {
                                assert(s0.entry(i).spec_children()[k2] == child);
                            }
                        }
                    } else {
                        assert(s0.entry(i).spec_children()[k] == child);
                        assert forall|k2: int|
                            0 <= k2 < s0.entry(i).spec_children().len() && k2 != k
                                implies s0.entry(i).spec_children()[k2].spec_uuid() != cu by {
                            assert(s0.entry(i).spec_children()[k2] == oc[k2]);
                        }
                    }
                } else if i == opi {
                    let k1 = if k < pos { k } else { k + 1 };
                    assert(s0.entry(i).spec_children()[k] == oc[k1]);
                    assert(k1 != pos);
                    let x = oc[k1].spec_uuid();
                    assert(x != cu);
                    assert(o.is_live_uuid(x));
                    assert forall|k2: int|
                        0 <= k2 < s0.entry(i).spec_children().len() && k2 != k
                            implies s0.entry(i).spec_children()[k2].spec_uuid() != x by {
                        let k3 = if k2 < pos { k2 } else { k2 + 1 };
                        assert(s0.entry(i).spec_children()[k2] == oc[k3]);
                    }
                } else {
                    assert(s0.entry(i).spec_children() == oc);
                    let x = oc[k].spec_uuid();
                    assert(o.is_live_uuid(x));
                    assert(o.parent_uuid_at(o.index_of(x) as int) == Some(o.entry(i).spec_uuid()));
                    if x == cu {
                        assert(o.index_of(o.entry(i).spec_uuid()) as int == i);
                    }
                }
            }
        }
        assert forall|i: int| #[trigger]
            s0.live_at(i) && s0.entry(i).spec_uuid() != cu implies s0.good_at(i) by {
            assert(o.live_at(i));
            assert(o.good_at(i));
        }
        Self::lemma_descends_except(o, s0, pi, cu);
        assert forall|u: u32| #[trigger]
            o.is_live_uuid(u) implies o.relinked_entry(s0.entry(s0.index_of(u) as int), u, parent, child) by {
            let ui = o.index_of(u) as int;
            assert(o.live_at(ui));
            if ui == opi {
                assert(o.parent_uuid_at(ci) == Some(u));
            } else if ui != pi && ui != ci {
                if o.parent_uuid_at(ci) == Some(u) {
                    assert(o.index_of(u) as int == opi);
                }
            }
        }
    }

    /// Descending from `c` after `c` was relinked means descending from it
    /// before: the links below `c` did not change.
    proof fn lemma_descends_relinked(o: &Self, s0: &Self, parent: Entity, child: Entity, i: int)
        requires
            o.wf(),
            s0.wf_links(),
            s0.spec_len() == o.spec_len(),
            s0.index_map() == o.index_map(),
            forall|u: u32| #[trigger]
                o.is_live_uuid(u) ==> o.relinked_entry(s0.entry(s0.index_of(u) as int), u, parent, child),
        ensures
            s0.descends_from(i, child.spec_uuid()) ==> o.descends_from(i, child.spec_uuid()),
        decreases i,
    {
        if s0.live_at(i) {
            let u = s0.entry(i).spec_uuid();
            assert(s0.is_live_uuid(u) && s0.index_of(u) == i);
            assert(o.is_live_uuid(u));
            assert(o.relinked_entry(s0.entry(s0.index_of(u) as int), u, parent, child));
            assert(o.live_at(i));
            if u != child.spec_uuid() {
                match s0.entry(i).spec_parent() {
                    None => {},
                    Some(p) => {
                        let pi = s0.index_of(p.spec_uuid()) as int;
                        if s0.is_live_uuid(p.spec_uuid()) && 0 <= pi < i {
                            Self::lemma_descends_relinked(o, s0, parent, child, pi);
                        }
                    },
                }
            }
        }
    }

    /// Only the child's subtree moves, and the swaps are at most one per
    /// entity of it.
    proof fn lemma_reparent_moves(
        o: &Self,
        s0: &Self,
        f: &Self,
        parent: Entity,
        child: Entity,
        swaps: Seq<(u32, u32)>,
        moved: Set<u32>,
    )
        requires
            o.wf(),
            s0.wf_links(),
            s0.spec_len() == o.spec_len(),
            s0.index_map() == o.index_map(),
            forall|u: u32| #[trigger]
                o.is_live_uuid(u) ==> o.relinked_entry(s0.entry(s0.index_of(u) as int), u, parent, child),
            forall|u: u32|
                s0.is_live_uuid(u) && !Self::below(s0, u, child.spec_uuid()) ==> #[trigger] f.index_of(u)
                    == s0.index_of(u),
            moved.finite(),
            forall|u: u32| #[trigger] moved.contains(u) ==> Self::below(s0, u, child.spec_uuid()),
            swaps.len() == moved.len(),
        ensures
            o.subtree(child.spec_uuid()).finite(),
            o.subtree(child.spec_uuid()).len() <= o.spec_len(),
            swaps.len() <= o.subtree(child.spec_uuid()).len(),
            forall|u: u32|
                o.is_live_uuid(u) && !o.subtree(child.spec_uuid()).contains(u)
                    ==> #[trigger] f.index_of(u) == o.index_of(u),
    {
        let c = child.spec_uuid();
        let t = o.subtree(c);
        o.lemma_live_count();
        assert(t.subset_of(o.index_map().dom()));
        vstd::set_lib::lemma_len_subset(t, o.index_map().dom());
        assert forall|u: u32| #[trigger] moved.contains(u) implies t.contains(u) by {
            Self::lemma_descends_relinked(o, s0, parent, child, s0.index_of(u) as int);
        }
        assert(moved.subset_of(t));
        vstd::set_lib::lemma_len_subset(moved, t);
        assert forall|u: u32| o.is_live_uuid(u) && !t.contains(u) implies #[trigger] f.index_of(u)
            == o.index_of(u) by {
            Self::lemma_descends_relinked(o, s0, parent, child, o.index_of(u) as int);
            assert(!Self::below(s0, u, c));
        }
    }

    proof fn lemma_reparent_finish(
        o: &Self,
        s0: &Self,
        f: &Self,
        parent: Entity,
        child: Entity,
        swaps: Seq<(u32, u32)>,
    )
        requires
            o.wf(),
            o.relinks(parent, child),
            Self::reparent_ready(s0, child.spec_uuid()),
            s0.spec_len() == o.spec_len(),
            s0.index_map() == o.index_map(),
            s0.last_uuid() == o.last_uuid(),
            forall|u: u32| #[trigger]
                o.is_live_uuid(u) ==> o.relinked_entry(s0.entry(s0.index_of(u) as int), u, parent, child),
            f.wf_links(),
            Self::same_by_uuid(s0, f),
            forall|u: u32| #[trigger] Self::below(s0, u, child.spec_uuid()) ==> f.good_u(u),
            forall|u: u32|
                s0.is_live_uuid(u) && !Self::below(s0, u, child.spec_uuid()) ==> #[trigger] f.index_of(u)
                    == s0.index_of(u),
            forall|u: u32| #[trigger]
                f.is_live_uuid(u) ==> f.index_of(u) as int == follow_swaps(swaps, s0.index_of(u) as int),
            f.last_uuid() == s0.last_uuid() + swaps.len(),
            f.spec_len() <= s0.spec_len() + swaps.len(),
            o.spec_len() <= f.spec_len(),
            o.index_of(child.spec_uuid()) < o.index_of(parent.spec_uuid()) ==> o.is_next_index_after(
                o.index_of(parent.spec_uuid()),
                f.index_of(child.spec_uuid()),
            ),
            o.index_of(child.spec_uuid()) > o.index_of(parent.spec_uuid()) ==> swaps.len() == 0,
        ensures
            o.reparent_core(f, parent, child, swaps),
    {
        let cu = child.spec_uuid();
        assert(f.wf_order()) by {
            assert forall|i: int| #[trigger] f.live_at(i) implies f.good_at(i) by {
                let u = f.entry(i).spec_uuid();
                assert(f.is_live_uuid(u));
                assert(f.index_of(u) as int == i);
                if Self::below(s0, u, cu) {
                    assert(f.good_u(u));
                } else {
                    assert(s0.is_live_uuid(u));
                    let si = s0.index_of(u) as int;
                    assert(s0.live_at(si));
                    assert(s0.entry(si) == f.entry(i));
                    assert(u != cu) by {
                        assert(s0.descends_from(si, u));
                    }
                    assert(s0.good_at(si));
                    match s0.entry(si).spec_parent() {
                        Some(w) => {
                            let wu = w.spec_uuid();
                            assert(s0.is_live_uuid(wu));
                            if Self::below(s0, wu, cu) {
                                assert(s0.descends_from(si, cu));
                            }
                            assert(f.index_of(wu) == s0.index_of(wu));
                        },
                        None => {},
                    }
                }
            }
        }
        assert forall|u: u32| #[trigger] f.is_live_uuid(u) <==> o.is_live_uuid(u) by {
            assert(f.is_live_uuid(u) <==> s0.is_live_uuid(u));
            assert(s0.is_live_uuid(u) <==> o.is_live_uuid(u));
        }
        assert forall|u: u32| #[trigger]
            o.is_live_uuid(u) implies o.relinked_entry(f.entry(f.index_of(u) as int), u, parent, child) by {
            assert(s0.entry(s0.index_of(u) as int) == f.entry(f.index_of(u) as int));
        }
    }

    /// Makes room in storage for `num_new_spaces_to_reserve` more entities
    /// beyond the vacant slots. Nothing that the manager holds changes.
    pub fn reserve_space_for_entities(&mut self, num_new_spaces_to_reserve: u32)
        requires
            old(self).wf(),
        ensures
            final(self).wf(),
            final(self).spec_len() == old(self).spec_len(),
            final(self).last_uuid() == old(self).last_uuid(),
            final(self).index_map() == old(self).index_map(),
            final(self).free_set() == old(self).free_set(),
            forall|i: int| 0 <= i < old(self).spec_len() ==> #[trigger] final(self).entry(i) == old(self).entry(i),
    {
        let free = self.free_indices.len();
        let num_missing: usize = if (num_new_spaces_to_reserve as usize) > free {
            num_new_spaces_to_reserve as usize - free
        } else {
            0
        };
        self.entity_storage.reserve(num_missing);
        proof {
            Self::lemma_same_entries(self, old(self));
            assert forall|i: int| #[trigger] self.live_at(i) implies self.good_at(i) by {
                assert(old(self).live_at(i));
            }
        }
    }

    /// The swap of slots `ia` and `ib` keeps every parent before its children.
    pub open spec fn swap_keeps_order(&self, ia: u32, ib: u32) -> bool {
        forall|i: int| #[trigger]
            self.live_at(i) && self.entry(i).spec_parent() is Some ==> apply_swap(
                (ia, ib),
                self.index_of(self.entry(i).spec_parent()->0.spec_uuid()) as int,
            ) < apply_swap((ia, ib), i)
    }

    /// Exchanges the slots of two live entities; returns the exchange that
    /// per-slot component storage must follow, if the slots differ.
    pub fn swap_entity_indices(&mut self, a: &Entity, b: &Entity) -> (r: Option<(u32, u32)>)
        requires
            old(self).wf(),
            old(self).is_live_uuid(a.spec_uuid()),
            old(self).is_live_uuid(b.spec_uuid()),
            old(self).swap_keeps_order(
                old(self).index_of(a.spec_uuid()),
                old(self).index_of(b.spec_uuid()),
            ),
        ensures
            final(self).wf(),
            Self::same_by_uuid(old(self), final(self)),
            r == (if a.spec_uuid() == b.spec_uuid() {
                None
            } else {
                Some((old(self).index_of(a.spec_uuid()), old(self).index_of(b.spec_uuid())))
            }),
            forall|u: u32| #[trigger]
                old(self).is_live_uuid(u) ==> final(self).index_of(u) as int == apply_swap(
                    (old(self).index_of(a.spec_uuid()), old(self).index_of(b.spec_uuid())),
                    old(self).index_of(u) as int,
                ),
            final(self).spec_len() == old(self).spec_len(),
            final(self).last_uuid() == old(self).last_uuid(),
            final(self).free_set() == old(self).free_set(),
    {
        let index_a = self.get_entity_index(a).unwrap();
        let index_b = self.get_entity_index(b).unwrap();
        if index_a == index_b {
            return None;
        }
        proof {
            assert(self.live_at(index_a as int));
            assert(self.live_at(index_b as int));
        }
        self.swap_entities(index_a, index_b);
        proof {
            let o = old(self);
            assert forall|u: u32| #[trigger]
                o.is_live_uuid(u) implies self.index_of(u) as int == apply_swap(
                    (index_a, index_b),
                    o.index_of(u) as int,
                ) by {
                assert(o.live_at(o.index_of(u) as int));
            }
            assert forall|i: int| #[trigger] self.live_at(i) implies self.good_at(i) by {
                let u = self.entry(i).spec_uuid();
                assert(self.is_live_uuid(u));
                assert(o.is_live_uuid(u));
                let oi = o.index_of(u) as int;
                assert(o.live_at(oi));
                assert(o.entry(oi) == self.entry(i));
                match o.entry(oi).spec_parent() {
                    Some(p) => {
                        assert(o.is_live_uuid(p.spec_uuid()));
                        assert(o.live_at(o.index_of(p.spec_uuid()) as int));
                    },
                    None => {},
                }
            }
        }
        Some((index_a, index_b))
    }

    /// Two slots hold the same thing.
    pub open spec fn same_entry(a: EntityEntry, b: EntityEntry) -> bool {
        &&& a.spec_live() == b.spec_live()
        &&& a.spec_uuid() == b.spec_uuid()
        &&& a.spec_parent() == b.spec_parent()
        &&& a.spec_children() == b.spec_children()
    }

    /// The parent that `move_from_other` gives to the entity made for slot `k`
    /// of `other`, when the entities made for the slots of `other` are stored
    /// at `r` and numbered from `first_uuid` on.
    pub open spec fn moved_parent(other: &Self, r: Seq<u32>, first_uuid: int, k: int) -> Option<
        Entity,
    > {
        if other.live_at(k) && other.entry(k).spec_parent() is Some {
            let pk = other.index_of(other.entry(k).spec_parent()->0.spec_uuid()) as int;
            Some(Entity::handle(r[pk], (first_uuid + pk) as u32))
        } else {
            None
        }
    }

    /// Adds one new entity for each slot of `other_man`, live or vacant, and
    /// gives them the parents that the slots had there. Returns where the
    /// entity for each slot of `other_man` is stored.
    pub fn move_from_other(&mut self, other_man: Self) -> (r: Vec<u32>)
        requires
            old(self).wf(),
            other_man.wf(),
            old(self).spec_len() + other_man.spec_len() < u32::MAX,
            old(self).last_uuid() + 2 * other_man.spec_len() + old(self).spec_len() <= u32::MAX,
            2 * (old(self).spec_len() + other_man.spec_len()) <= u32::MAX,
        ensures
            final(self).wf(),
            r@.len() == other_man.spec_len(),
            forall|j: int, k: int| 0 <= j < k < r@.len() ==> r@[j] < r@[k],
            old(self).spec_len() <= final(self).spec_len(),
            forall|k: int| 0 <= k < r@.len() ==> (#[trigger] r@[k] as int) < final(self).spec_len(),
            final(self).last_uuid() == old(self).last_uuid() + other_man.spec_len(),
            forall|k: int|
                0 <= k < r@.len() ==> {
                    &&& final(self).live_at(#[trigger] r@[k] as int)
                    &&& final(self).entry(r@[k] as int).spec_uuid() == old(self).last_uuid() + 1 + k
                    &&& final(self).entry(r@[k] as int).spec_parent() == Self::moved_parent(
                        &other_man,
                        r@,
                        old(self).last_uuid() + 1,
                        k,
                    )
                },
            forall|u: u32|
                #[trigger] final(self).is_live_uuid(u) <==> (old(self).is_live_uuid(u) || (
                old(self).last_uuid() < u <= old(self).last_uuid() + other_man.spec_len())),
            forall|u: u32| #[trigger]
                old(self).is_live_uuid(u) ==> final(self).index_of(u) == old(self).index_of(u)
                    && Self::same_entry(
                    final(self).entry(final(self).index_of(u) as int),
                    old(self).entry(old(self).index_of(u) as int),
                ),
    {
        let ghost o = *old(self);
        let ghost first = o.last_uuid() + 1;
        let num_other_ents = other_man.get_num_entities();
        let mut other_to_new_index: Vec<u32> = Vec::new();
        self.reserve_space_for_entities(num_other_ents);
        let mut other_index: u32 = 0;
        while other_index < num_other_ents
            invariant
                self.wf(),
                num_other_ents == other_man.spec_len(),
                o.wf(),
                first == o.last_uuid() + 1,
                o.spec_len() + other_man.spec_len() < u32::MAX,
                o.last_uuid() + 2 * other_man.spec_len() + o.spec_len() <= u32::MAX,
                other_index <= num_other_ents,
                other_to_new_index@.len() == other_index,
                forall|j: int, k: int|
                    0 <= j < k < other_to_new_index@.len() ==> other_to_new_index@[j]
                        < other_to_new_index@[k],
                forall|j: int|
                    0 <= j < other_to_new_index@.len() ==> (#[trigger] other_to_new_index@[j] as int)
                        < self.spec_len(),
                forall|j: int, x: u32|
                    0 <= j < other_to_new_index@.len() && #[trigger] self.free_set().contains(x)
                        ==> #[trigger] other_to_new_index@[j] < x,
                forall|j: int|
                    0 <= j < other_to_new_index@.len() ==> {
                        &&& self.live_at(#[trigger] other_to_new_index@[j] as int)
                        &&& self.entry(other_to_new_index@[j] as int).spec_uuid() == first + j
                        &&& self.entry(other_to_new_index@[j] as int).spec_parent() is None
                        &&& self.entry(other_to_new_index@[j] as int).spec_children().len() == 0
                    },
                self.last_uuid() == o.last_uuid() + other_index,
                self.spec_len() <= o.spec_len() + other_index,
                o.spec_len() <= self.spec_len(),
                forall|u: u32|
                    #[trigger] self.is_live_uuid(u) <==> (o.is_live_uuid(u) || (o.last_uuid() < u
                        <= o.last_uuid() + other_index)),
                forall|u: u32| #[trigger]
                    o.is_live_uuid(u) ==> self.index_of(u) == o.index_of(u) && self.entry(
                        self.index_of(u) as int,
                    ) == o.entry(o.index_of(u) as int),
            decreases num_other_ents - other_index,
        {
            let ghost before = *self;
            let new_ent = self.new_entity();
            other_to_new_index.push(new_ent.index);
            proof {
                let ni = new_ent.spec_index();
                assert forall|j: int, x: u32|
                    0 <= j < other_to_new_index@.len() && #[trigger] self.free_set().contains(x)
                        implies #[trigger] other_to_new_index@[j] < x by {
                    assert(before.free_set().contains(x));
                    if j < other_index {
                    } else {
                        assert(x != ni);
                    }
                }
                assert forall|j: int|
                    0 <= j < other_index implies (#[trigger] other_to_new_index@[j]) < ni by {
                    if before.free_set() == Set::<u32>::empty() {
                    } else {
                        assert(before.free_set().contains(ni));
                    }
                }
                assert forall|j: int|
                    0 <= j < other_to_new_index@.len() implies {
                        &&& self.live_at(#[trigger] other_to_new_index@[j] as int)
                        &&& self.entry(other_to_new_index@[j] as int).spec_uuid() == first + j
                        &&& self.entry(other_to_new_index@[j] as int).spec_parent() is None
                        &&& self.entry(other_to_new_index@[j] as int).spec_children().len() == 0
                    } by {
                    if j < other_index {
                        assert(other_to_new_index@[j] != ni);
                    }
                }
                assert forall|u: u32|
                    #[trigger] self.is_live_uuid(u) <==> (o.is_live_uuid(u) || (o.last_uuid() < u
                        <= o.last_uuid() + other_index + 1)) by {
                    if u == new_ent.spec_uuid() {
                    } else {
                        assert(self.is_live_uuid(u) == before.is_live_uuid(u));
                    }
                }
                assert forall|u: u32| #[trigger]
                    o.is_live_uuid(u) implies self.index_of(u) == o.index_of(u) && self.entry(
                        self.index_of(u) as int,
                    ) == o.entry(o.index_of(u) as int) by {
                    assert(before.is_live_uuid(u));
                    assert(before.live_at(before.index_of(u) as int));
                    assert(u != new_ent.spec_uuid());
                }
            }
            other_index = other_index + 1;
        }
        let ghost s1 = *self;
        // Replicate parent-child relationships
        let mut other_index: u32 = 0;
        while other_index < num_other_ents
            invariant
                self.wf(),
                o.wf(),
                other_man.wf(),
                num_other_ents == other_man.spec_len(),
                other_index <= num_other_ents,
                first == o.last_uuid() + 1,
                other_to_new_index@.len() == num_other_ents,
                forall|j: int, k: int|
                    0 <= j < k < other_to_new_index@.len() ==> other_to_new_index@[j]
                        < other_to_new_index@[k],
                self.last_uuid() == o.last_uuid() + num_other_ents,
                self.spec_len() <= o.spec_len() + num_other_ents,
                o.spec_len() <= self.spec_len(),
                o.last_uuid() + 2 * other_man.spec_len() + o.spec_len() <= u32::MAX,
                2 * (o.spec_len() + other_man.spec_len()) <= u32::MAX,
                forall|u: u32| #[trigger] self.is_live_uuid(u) <==> s1.is_live_uuid(u),
                forall|u: u32| #[trigger] s1.is_live_uuid(u) ==> self.index_of(u) == s1.index_of(u),
                forall|j: int|
                    0 <= j < other_to_new_index@.len() ==> {
                        &&& self.live_at(#[trigger] other_to_new_index@[j] as int)
                        &&& self.entry(other_to_new_index@[j] as int).spec_uuid() == first + j
                    },
                forall|j: int|
                    0 <= j < other_index ==> #[trigger] self.entry(
                        other_to_new_index@[j] as int,
                    ).spec_parent() == Self::moved_parent(&other_man, other_to_new_index@, first, j),
                forall|j: int|
                    other_index <= j < other_to_new_index@.len() ==> #[trigger] self.entry(
                        other_to_new_index@[j] as int,
                    ).spec_parent() is None,
                forall|u: u32| #[trigger]
                    o.is_live_uuid(u) ==> self.is_live_uuid(u) && self.index_of(u) == o.index_of(u)
                        && Self::same_entry(
                        self.entry(self.index_of(u) as int),
                        o.entry(o.index_of(u) as int),
                    ),
            decreases num_other_ents - other_index,
        {
            if let Some(other_parent_index) = other_man.get_parent_index_from_index(other_index) {
                let new_index = other_to_new_index[other_index as usize];
                let new_parent_index = other_to_new_index[other_parent_index as usize];
                let child_ent = self.get_entity_from_index(new_index).unwrap();
                let parent_ent = self.get_entity_from_index(new_parent_index).unwrap();
                let ghost before = *self;
                let ghost k = other_index as int;
                let ghost pk = other_parent_index as int;
                proof {
                    assert(other_man.live_at(k));
                    assert(other_man.good_at(k));
                    assert(pk < k);
                    assert(new_parent_index < new_index);
                    let cu = child_ent.spec_uuid();
                    let pu = parent_ent.spec_uuid();
                    assert(self.index_of(cu) == new_index);
                    assert(self.index_of(pu) == new_parent_index);
                    if self.descends_from(new_parent_index as int, cu) {
                        self.lemma_descends_index(new_parent_index as int, cu);
                    }
                    assert(self.entry(new_index as int).spec_parent() is None);
                    assert(self.relinks(parent_ent, child_ent));
                    assert(self.has_room_to_reorder());
                }
                let swaps = self.set_entity_parent(&parent_ent, &child_ent);
                proof {
                    assert(swaps@.len() == 0);
                    assert forall|u: u32| #[trigger] s1.is_live_uuid(u) implies self.index_of(u) == s1.index_of(u) by {
                        assert(before.is_live_uuid(u));
                    }
                    assert forall|j: int|
                        0 <= j < other_to_new_index@.len() implies {
                            &&& self.live_at(#[trigger] other_to_new_index@[j] as int)
                            &&& self.entry(other_to_new_index@[j] as int).spec_uuid() == first + j
                            &&& self.entry(other_to_new_index@[j] as int).spec_parent() == (if j == k {
                                Some(parent_ent)
                            } else {
                                before.entry(other_to_new_index@[j] as int).spec_parent()
                            })
                        } by {
                        let ri = other_to_new_index@[j] as int;
                        assert(before.live_at(ri));
                        let u = before.entry(ri).spec_uuid();
                        assert(before.is_live_uuid(u));
                        assert(before.index_of(u) as int == ri);
                        assert(before.relinked_entry(self.entry(self.index_of(u) as int), u, parent_ent, child_ent));
                        assert(self.index_of(u) as int == follow_swaps(swaps@, ri));
                        assert(follow_swaps(swaps@, ri) == ri);
                        assert(u == first + j);
                        assert(self.is_live_uuid(u));
                        assert(self.index_of(u) as int == ri);
                        assert(self.live_at(ri));
                        assert(self.entry(ri).spec_uuid() == first + j);
                        assert(child_ent.spec_uuid() == first + k);
                        if j != k {
                            assert(other_to_new_index@[j] != other_to_new_index@[k]);
                        }
                    }
                    assert(parent_ent == Entity::handle(other_to_new_index@[pk], (first + pk) as u32));
                    assert forall|u: u32| #[trigger]
                        o.is_live_uuid(u) implies self.is_live_uuid(u) && self.index_of(u) == o.index_of(u)
                            && Self::same_entry(
                            self.entry(self.index_of(u) as int),
                            o.entry(o.index_of(u) as int),
                        ) by {
                        assert(before.is_live_uuid(u));
                        assert(u <= o.last_uuid());
                        assert(u != child_ent.spec_uuid());
                        assert(u != parent_ent.spec_uuid());
                        assert(before.relinked_entry(self.entry(self.index_of(u) as int), u, parent_ent, child_ent));
                        assert(self.index_of(u) as int == follow_swaps(swaps@, before.index_of(u) as int));
                    }
                }
            }
            other_index = other_index + 1;
        }
        proof {
        }
        other_to_new_index
    }

    /// The number of slots, live or vacant.
    pub fn get_num_entities(&self) -> (r: u32)
        requires
            self.wf(),
        ensures
            r == self.spec_len(),
    {
        self.entity_storage.len() as u32
    }
}

} // verus!
