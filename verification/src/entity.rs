use std::collections::hash_map::Entry as MapEntry;
use std::collections::HashMap;
use vstd::prelude::*;

verus! {

broadcast use vstd::std_specs::hash::group_hash_axioms;

/// A named entity of the simple scene registry.
pub struct Entity {
    pub id: u32,
    pub name: String,
}

/// A registry that numbers entities from 1 on and finds them by number.
pub struct EntityManager {
    last_id: u32,
    entities: HashMap<u32, Entity>,
}

impl EntityManager {
    /// The entities by number.
    pub closed spec fn entity_map(&self) -> Map<u32, Entity> {
        self.entities@
    }

    /// The number of the last entity made.
    pub closed spec fn last_id_spec(&self) -> u32 {
        self.last_id
    }

    /// Every registered number was handed out already.
    pub closed spec fn wf(&self) -> bool {
        forall|id: u32| #[trigger] self.entities@.contains_key(id) ==> 0 < id <= self.last_id
    }

    pub fn new() -> (m: Self)
        ensures
            m.wf(),
            m.last_id_spec() == 0,
            m.entity_map() == Map::<u32, Entity>::empty(),
    {
        Self { last_id: 0, entities: HashMap::new() }
    }

    /// Registers a new entity called `name` under the next number and returns
    /// it for editing.
    pub fn new_entity(&mut self, name: &str) -> (r: &mut Entity)
        requires
            old(self).wf(),
            old(self).last_id_spec() < u32::MAX,
        ensures
            final(self).wf(),
            final(self).last_id_spec() == old(self).last_id_spec() + 1,
            r.id == final(self).last_id_spec(),
            r.name@ == name@,
            !old(self).entity_map().contains_key(final(self).last_id_spec()),
            final(self).entity_map() == old(self).entity_map().insert(
                final(self).last_id_spec(),
                *final(r),
            ),
    {
        self.last_id = self.last_id + 1;
        let id = self.last_id;
        let ghost before = self.entities@;
        proof {
            assert(!before.contains_key(id));
        }
        match self.entities.entry(id) {
            MapEntry::Occupied(o) => {
                proof {
                    assert(false);
                }
                o.into_mut()
            },
            MapEntry::Vacant(v) => v.insert(Entity { id, name: String::from_str(name) }),
        }
    }

    /// The entity with number `id`, for editing, if there is one.
    pub fn get_entity(&mut self, id: u32) -> (r: Option<&mut Entity>)
        requires
            old(self).wf(),
        ensures
            final(self).wf(),
            final(self).last_id_spec() == old(self).last_id_spec(),
            match r {
                Some(e) => {
                    &&& old(self).entity_map().contains_key(id)
                    &&& *e == old(self).entity_map()[id]
                    &&& final(self).entity_map() == old(self).entity_map().insert(id, *final(e))
                },
                None => {
                    &&& !old(self).entity_map().contains_key(id)
                    &&& final(self).entity_map() == old(self).entity_map()
                },
            },
    {
        match self.entities.entry(id) {
            MapEntry::Occupied(o) => Some(o.into_mut()),
            MapEntry::Vacant(v) => {
                let _ = v.into_key();
                None
            },
        }
    }

    /// The numbers registered are exactly 1 up to the last one handed out.
    pub open spec fn holds_numbers_up_to_last(&self) -> bool {
        forall|id: u32| #[trigger] self.entity_map().contains_key(id) <==> 1 <= id <= self.last_id_spec()
    }

    /// A new registry holds no numbers; after `new_entity`, or after
    /// `get_entity`, the numbers held are still exactly 1 up to the last one
    /// handed out. So after `k` calls of `new_entity` on a new registry,
    /// `get_entity(id)` finds an entity exactly for `1 <= id <= k`.
    pub proof fn lemma_numbers_held(m0: &Self, m1: &Self)
        requires
            m0.last_id_spec() == 0 && m0.entity_map() == Map::<u32, Entity>::empty()
                || m0.holds_numbers_up_to_last(),
            m1.last_id_spec() == m0.last_id_spec() + 1 && m1.entity_map().dom()
                == m0.entity_map().dom().insert(m1.last_id_spec()) || m1.last_id_spec()
                == m0.last_id_spec() && m1.entity_map().dom() == m0.entity_map().dom(),
        ensures
            m0.holds_numbers_up_to_last(),
            m1.holds_numbers_up_to_last(),
    {
        assert forall|id: u32| #[trigger] m1.entity_map().contains_key(id) <==> 1 <= id <= m1.last_id_spec() by {
            assert(m1.entity_map().dom().contains(id) == m1.entity_map().contains_key(id));
            assert(m0.entity_map().dom().contains(id) == m0.entity_map().contains_key(id));
        }
    }
}

} // verus!
