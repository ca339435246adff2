use crate::components::UIComponent;
use crate::managers::entity::{apply_swap, follow_swaps, lemma_follow_push, Entity, EntityManager};
use vstd::prelude::*;

verus! {

/// `x` is a value that `T::default()` can return.
pub open spec fn is_default<T: Default>(x: T) -> bool {
    call_ensures(T::default, (), x)
}

/// `new` is `old` grown to at least `min_len` slots: the slots that `old`
/// has are kept, the new ones hold default values.
pub open spec fn grown<T: Default>(old: Seq<T>, new: Seq<T>, min_len: int) -> bool {
    &&& new.len() == if min_len <= old.len() {
        old.len() as int
    } else {
        min_len
    }
    &&& forall|i: int| 0 <= i < old.len() ==> #[trigger] new[i] == old[i]
    &&& forall|i: int| old.len() <= i < new.len() ==> is_default(#[trigger] new[i])
}

/// The number of slots needed to hold slots `a` and `b`.
pub open spec fn slots_for(a: int, b: int) -> int {
    if a < b {
        b + 1
    } else {
        a + 1
    }
}

/// `new` is `old` grown to hold slots `a` and `b`, with the two slots
/// exchanged.
pub open spec fn swapped<T: Default>(old: Seq<T>, new: Seq<T>, a: int, b: int) -> bool {
    exists|g: Seq<T>|
        #[trigger] grown(old, g, slots_for(a, b)) && new == g.update(a, g[b]).update(
            b,
            g[a],
        )
}

/// Swapping the same two distinct slots twice puts every slot back: the
/// column is then the original one, grown to hold both slots.
pub proof fn lemma_swap_twice_restores<T: Default>(s0: Seq<T>, s1: Seq<T>, s2: Seq<T>, a: int, b: int)
    requires
        0 <= a,
        0 <= b,
        a != b,
        swapped(s0, s1, a, b),
        swapped(s1, s2, a, b),
    ensures
        grown(s0, s2, slots_for(a, b)),
        forall|i: int| 0 <= i < s0.len() ==> #[trigger] s2[i] == s0[i],
{
    let g1 = choose|g: Seq<T>| #[trigger] grown(s0, g, slots_for(a, b)) && s1 == g.update(a, g[b]).update(b, g[a]);
    let g2 = choose|g: Seq<T>| #[trigger] grown(s1, g, slots_for(a, b)) && s2 == g.update(a, g[b]).update(b, g[a]);
    assert(g2 =~= s1);
    assert(s2 =~= g1);
}

/// `col` after the last `n` slots of `src` were put in place, one by one
/// from the last: slot `k` of those goes to `col[targets[k]]`.
pub open spec fn moved_into<T>(col: Seq<T>, src: Seq<T>, targets: Seq<u32>, n: int) -> Seq<T>
    decreases n,
{
    if n <= 0 {
        col
    } else {
        moved_into(
            col.update(targets[n - 1] as int, src[src.len() - targets.len() + n - 1]),
            src,
            targets,
            n - 1,
        )
    }
}

/// The largest of `s`.
pub open spec fn seq_max(s: Seq<u32>) -> int
    decreases s.len(),
{
    if s.len() == 0 {
        0
    } else if s.len() == 1 {
        s[0] as int
    } else {
        let m = seq_max(s.drop_last());
        if m < s.last() {
            s.last() as int
        } else {
            m
        }
    }
}

/// Grows `col` to at least `min_len` slots with default values.
fn grow_column<T: Default>(col: &mut Vec<T>, min_len: usize)
    ensures
        grown(old(col)@, final(col)@, min_len as int),
{
    let ghost start = col@;
    while col.len() < min_len
        invariant
            col@.len() >= start.len(),
            col@.len() <= if min_len <= start.len() {
                start.len() as int
            } else {
                min_len as int
            },
            forall|i: int| 0 <= i < start.len() ==> #[trigger] col@[i] == start[i],
            forall|i: int| start.len() <= i < col@.len() ==> is_default(#[trigger] col@[i]),
        decreases min_len - col@.len(),
    {
        let d = T::default();
        col.push(d);
    }
}

/// Grows `col` to hold slots `a` and `b`, then exchanges them.
fn swap_column<T: Default>(col: &mut Vec<T>, a: u32, b: u32)
    requires
        a != b,
        a < u32::MAX,
        b < u32::MAX,
    ensures
        swapped(old(col)@, final(col)@, a as int, b as int),
{
    let ghost start = col@;
    let top = if a < b { b } else { a };
    grow_column(col, (top + 1) as usize);
    let ghost g = col@;
    assert(grown(start, g, slots_for(a as int, b as int)));
    let mut tmp = T::default();
    col.set_and_swap(a as usize, &mut tmp);
    col.set_and_swap(b as usize, &mut tmp);
    col.set_and_swap(a as usize, &mut tmp);
    assert(col@ =~= g.update(a as int, g[b as int]).update(b as int, g[a as int]));
}

/// Puts the last `targets.len()` slots of `src` into `col`, from the last:
/// slot `k` of those goes to `col[targets[k]]`.
fn move_column<T>(col: &mut Vec<T>, src: Vec<T>, targets: &Vec<u32>)
    requires
        src@.len() >= targets@.len(),
        forall|k: int| 0 <= k < targets@.len() ==> #[trigger] targets@[k] < old(col)@.len(),
    ensures
        final(col)@ == moved_into(old(col)@, src@, targets@, targets@.len() as int),
        final(col)@.len() == old(col)@.len(),
{
    let ghost col0 = col@;
    let ghost src0 = src@;
    let mut rest = src;
    let mut j: usize = targets.len();
    while j > 0
        invariant
            j <= targets@.len(),
            src0.len() >= targets@.len(),
            col@.len() == col0.len(),
            forall|k: int| 0 <= k < targets@.len() ==> #[trigger] targets@[k] < col0.len(),
            rest@ == src0.take(src0.len() - targets@.len() + j),
            moved_into(col0, src0, targets@, targets@.len() as int) == moved_into(
                col@,
                src0,
                targets@,
                j as int,
            ),
        decreases j,
    {
        let ghost before = col@;
        let value = rest.pop().unwrap();
        col.set(targets[j - 1] as usize, value);
        assert(moved_into(before, src0, targets@, j as int) == moved_into(
            col@,
            src0,
            targets@,
            j - 1,
        ));
        assert(rest@ =~= src0.take(src0.len() - targets@.len() + j - 1));
        j = j - 1;
    }
}

/// The component storage of a scene: one slot per entity index in each
/// column, for physics, meshes, transforms and interface widgets.
pub struct ComponentManager<Ph, Me, Tr> {
    pub physics: Vec<Ph>,
    pub mesh: Vec<Me>,
    pub transform: Vec<Tr>,
    pub interface: Vec<UIComponent>,
}

impl<Ph: Default, Me: Default, Tr: Default> ComponentManager<Ph, Me, Tr> {
    /// All columns have a slot for the same entity indices.
    pub open spec fn wf(&self) -> bool {
        &&& self.mesh@.len() == self.physics@.len()
        &&& self.transform@.len() == self.physics@.len()
        &&& self.interface@.len() == self.physics@.len()
    }

    /// No components yet.
    pub fn new() -> (r: Self)
        ensures
            r.wf(),
            r.physics@.len() == 0,
    {
        ComponentManager {
            physics: Vec::new(),
            mesh: Vec::new(),
            transform: Vec::new(),
            interface: Vec::new(),
        }
    }

    /// Grows every column to at least `min_length` slots, keeping what they
    /// hold; the columns are left alone when the physics column is long
    /// enough.
    fn resize_components(&mut self, min_length: usize)
        ensures
            min_length <= old(self).physics@.len() ==> *final(self) == *old(self),
            min_length > old(self).physics@.len() ==> {
                &&& grown(old(self).physics@, final(self).physics@, min_length as int)
                &&& grown(old(self).mesh@, final(self).mesh@, min_length as int)
                &&& grown(old(self).transform@, final(self).transform@, min_length as int)
                &&& grown(old(self).interface@, final(self).interface@, min_length as int)
            },
    {
        if min_length <= self.physics.len() {
            return ;
        }
        grow_column(&mut self.physics, min_length);
        grow_column(&mut self.mesh, min_length);
        grow_column(&mut self.transform, min_length);
        grow_column(&mut self.interface, min_length);
    }

    /// Exchanges the components of entity indices `id_a` and `id_b`, growing
    /// the columns to hold both.
    pub fn swap_components(&mut self, id_a: u32, id_b: u32)
        requires
            old(self).wf(),
            id_a < u32::MAX,
            id_b < u32::MAX,
        ensures
            final(self).wf(),
            id_a == id_b ==> *final(self) == *old(self),
            id_a != id_b ==> {
                &&& swapped(old(self).physics@, final(self).physics@, id_a as int, id_b as int)
                &&& swapped(old(self).mesh@, final(self).mesh@, id_a as int, id_b as int)
                &&& swapped(old(self).transform@, final(self).transform@, id_a as int, id_b as int)
                &&& swapped(old(self).interface@, final(self).interface@, id_a as int, id_b as int)
            },
    {
        if id_a == id_b {
            return ;
        }
        swap_column(&mut self.physics, id_a, id_b);
        swap_column(&mut self.mesh, id_a, id_b);
        swap_column(&mut self.transform, id_a, id_b);
        swap_column(&mut self.interface, id_a, id_b);
    }

    /// Takes the components of `other`: the last `other_to_this_index.len()`
    /// slots of each of its columns go, from the last, to the slots that
    /// `other_to_this_index` names, the columns growing to hold them.
    pub fn move_from_other(&mut self, other: Self, other_to_this_index: &Vec<u32>)
        requires
            old(self).wf(),
            other_to_this_index@.len() > 0,
            seq_max(other_to_this_index@) < u32::MAX,
            other.physics@.len() >= other_to_this_index@.len(),
            other.mesh@.len() >= other_to_this_index@.len(),
            other.transform@.len() >= other_to_this_index@.len(),
            other.interface@.len() >= other_to_this_index@.len(),
        ensures
            final(self).wf(),
            ({
                let n = other_to_this_index@.len() as int;
                let m = seq_max(other_to_this_index@) + 1;
                let t = other_to_this_index@;
                &&& exists|g: Seq<Ph>|
                    #[trigger] grown(old(self).physics@, g, m) && final(self).physics@ == moved_into(
                        g,
                        other.physics@,
                        t,
                        n,
                    )
                &&& exists|g: Seq<Me>|
                    #[trigger] grown(old(self).mesh@, g, m) && final(self).mesh@ == moved_into(
                        g,
                        other.mesh@,
                        t,
                        n,
                    )
                &&& exists|g: Seq<Tr>|
                    #[trigger] grown(old(self).transform@, g, m) && final(self).transform@
                        == moved_into(g, other.transform@, t, n)
                &&& exists|g: Seq<UIComponent>|
                    #[trigger] grown(old(self).interface@, g, m) && final(self).interface@
                        == moved_into(g, other.interface@, t, n)
            }),
    {
        let highest = max_index(other_to_this_index);
        let ghost s0 = *self;
        self.resize_components((highest + 1) as usize);
        let ghost g = *self;
        proof {
            if highest as int + 1 <= s0.physics@.len() {
                assert(grown(s0.physics@, g.physics@, highest + 1));
                assert(grown(s0.mesh@, g.mesh@, highest + 1));
                assert(grown(s0.transform@, g.transform@, highest + 1));
                assert(grown(s0.interface@, g.interface@, highest + 1));
            }
        }
        let ComponentManager { physics, mesh, transform, interface } = other;
        move_column(&mut self.physics, physics, other_to_this_index);
        move_column(&mut self.mesh, mesh, other_to_this_index);
        move_column(&mut self.transform, transform, other_to_this_index);
        move_column(&mut self.interface, interface, other_to_this_index);
    }
}

/// The largest of `v`.
fn max_index(v: &Vec<u32>) -> (r: u32)
    requires
        v@.len() > 0,
    ensures
        r == seq_max(v@),
        forall|k: int| 0 <= k < v@.len() ==> #[trigger] v@[k] <= r,
{
    let mut best = v[0];
    let mut i: usize = 1;
    assert(v@.take(1).drop_last() =~= Seq::<u32>::empty());
    while i < v.len()
        invariant
            1 <= i <= v@.len(),
            best == seq_max(v@.take(i as int)),
            forall|k: int| 0 <= k < i ==> #[trigger] v@[k] <= best,
        decreases v@.len() - i,
    {
        assert(v@.take(i + 1).drop_last() =~= v@.take(i as int));
        if best < v[i] {
            best = v[i];
        }
        i = i + 1;
    }
    assert(v@.take(v@.len() as int) =~= v@);
    best
}

/// Moving components to distinct slots puts each where its target says and
/// leaves every other slot alone: with `src` holding exactly one component
/// per target, the component in slot `k` of `src` ends in slot `targets[k]`.
pub proof fn lemma_moved_into_places<T>(col: Seq<T>, src: Seq<T>, targets: Seq<u32>, n: int)
    requires
        0 <= n <= targets.len(),
        src.len() == targets.len(),
        forall|k: int| 0 <= k < targets.len() ==> #[trigger] targets[k] < col.len(),
        forall|j: int, k: int| 0 <= j < k < targets.len() ==> targets[j] != targets[k],
    ensures
        moved_into(col, src, targets, n).len() == col.len(),
        forall|k: int|
            0 <= k < n ==> moved_into(col, src, targets, n)[#[trigger] targets[k] as int] == src[k],
        forall|i: int|
            0 <= i < col.len() && (forall|k: int| 0 <= k < n ==> targets[k] != i) ==> #[trigger] moved_into(
                col,
                src,
                targets,
                n,
            )[i] == col[i],
    decreases n,
{
    if n > 0 {
        let col2 = col.update(targets[n - 1] as int, src[n - 1]);
        lemma_moved_into_places(col2, src, targets, n - 1);
        assert forall|k: int| 0 <= k < n implies moved_into(col, src, targets, n)[#[trigger] targets[
            k
        ] as int] == src[k] by {
            if k == n - 1 {
                assert forall|j: int| 0 <= j < n - 1 implies #[trigger] targets[j] != targets[n - 1] by {}
            }
        }
    }
}

/// Each slot of `old` reappears in `new` at the slot that the exchanges of
/// `swaps` take it to; `new` has at least the slots of `old`.
pub open spec fn follows_swaps<T>(old: Seq<T>, new: Seq<T>, swaps: Seq<(u32, u32)>) -> bool {
    &&& old.len() <= new.len()
    &&& forall|p: int|
        0 <= p < old.len() ==> {
            &&& 0 <= #[trigger] follow_swaps(swaps, p) < new.len()
            &&& new[follow_swaps(swaps, p)] == old[p]
        }
}

/// An exchange of two different slots takes each slot's contents to the
/// slot that `apply_swap` names.
proof fn lemma_swapped_moves<T: Default>(old: Seq<T>, new: Seq<T>, a: u32, b: u32)
    requires
        swapped(old, new, a as int, b as int),
        a != b,
    ensures
        old.len() <= new.len(),
        forall|q: int| 0 <= q < new.len() ==> 0 <= #[trigger] apply_swap((a, b), q) < new.len(),
        forall|q: int| 0 <= q < old.len() ==> new[#[trigger] apply_swap((a, b), q)] == old[q],
{
    let g = choose|g: Seq<T>|
        #[trigger] grown(old, g, slots_for(a as int, b as int)) && new == g.update(
            a as int,
            g[b as int],
        ).update(b as int, g[a as int]);
    assert(a < g.len() && b < g.len());
}

/// Carries the exchanges of one more swap over.
proof fn lemma_follows_step<T: Default>(
    start: Seq<T>,
    old: Seq<T>,
    new: Seq<T>,
    swaps: Seq<(u32, u32)>,
    s: (u32, u32),
)
    requires
        follows_swaps(start, old, swaps),
        s.0 == s.1 ==> new == old,
        s.0 != s.1 ==> swapped(old, new, s.0 as int, s.1 as int),
    ensures
        follows_swaps(start, new, swaps.push(s)),
{
    if s.0 != s.1 {
        lemma_swapped_moves(old, new, s.0, s.1);
    }
    assert forall|p: int| 0 <= p < start.len() implies {
        &&& 0 <= #[trigger] follow_swaps(swaps.push(s), p) < new.len()
        &&& new[follow_swaps(swaps.push(s), p)] == start[p]
    } by {
        lemma_follow_push(swaps, s, p);
        let q = follow_swaps(swaps, p);
        assert(0 <= q < old.len());
        assert(old[q] == start[p]);
    }
}

impl<Ph: Default, Me: Default, Tr: Default> ComponentManager<Ph, Me, Tr> {
    /// Applies the slot exchanges that the entity manager reports, in order,
    /// so that each entity's components follow it to its new slot.
    pub fn apply_swaps(&mut self, swaps: &Vec<(u32, u32)>)
        requires
            old(self).wf(),
            forall|k: int|
                0 <= k < swaps@.len() ==> #[trigger] swaps@[k].0 < u32::MAX && swaps@[k].1 < u32::MAX,
        ensures
            final(self).wf(),
            follows_swaps(old(self).physics@, final(self).physics@, swaps@),
            follows_swaps(old(self).mesh@, final(self).mesh@, swaps@),
            follows_swaps(old(self).transform@, final(self).transform@, swaps@),
            follows_swaps(old(self).interface@, final(self).interface@, swaps@),
    {
        let ghost o = *old(self);
        let mut k: usize = 0;
        assert(swaps@.take(0) =~= Seq::<(u32, u32)>::empty());
        while k < swaps.len()
            invariant
                self.wf(),
                k <= swaps@.len(),
                forall|j: int|
                    0 <= j < swaps@.len() ==> #[trigger] swaps@[j].0 < u32::MAX && swaps@[j].1
                        < u32::MAX,
                follows_swaps(o.physics@, self.physics@, swaps@.take(k as int)),
                follows_swaps(o.mesh@, self.mesh@, swaps@.take(k as int)),
                follows_swaps(o.transform@, self.transform@, swaps@.take(k as int)),
                follows_swaps(o.interface@, self.interface@, swaps@.take(k as int)),
            decreases swaps@.len() - k,
        {
            let ghost before = *self;
            let (a, b) = swaps[k];
            self.swap_components(a, b);
            proof {
                assert(swaps@.take(k + 1) =~= swaps@.take(k as int).push((a, b)));
                lemma_follows_step(o.physics@, before.physics@, self.physics@, swaps@.take(k as int), (a, b));
                lemma_follows_step(o.mesh@, before.mesh@, self.mesh@, swaps@.take(k as int), (a, b));
                lemma_follows_step(
                    o.transform@,
                    before.transform@,
                    self.transform@,
                    swaps@.take(k as int),
                    (a, b),
                );
                lemma_follows_step(
                    o.interface@,
                    before.interface@,
                    self.interface@,
                    swaps@.take(k as int),
                    (a, b),
                );
            }
            k = k + 1;
        }
        assert(swaps@.take(swaps@.len() as int) =~= swaps@);
    }
}

/// After `set_entity_parent` and `apply_swaps` with the swaps it returned,
/// every live entity finds, at its new slot, the component it had at its old
/// one.
pub proof fn lemma_components_follow_entities<T>(
    m0: &EntityManager,
    m1: &EntityManager,
    parent: Entity,
    child: Entity,
    swaps: Seq<(u32, u32)>,
    c0: Seq<T>,
    c1: Seq<T>,
)
    requires
        m0.set_parent_post(m1, parent, child, swaps),
        follows_swaps(c0, c1, swaps),
    ensures
        forall|u: u32|
            #[trigger] m0.is_live_uuid(u) && (m0.index_of(u) as int) < c0.len() ==> {
                &&& m1.is_live_uuid(u)
                &&& (m1.index_of(u) as int) < c1.len()
                &&& c1[m1.index_of(u) as int] == c0[m0.index_of(u) as int]
            },
{
    assert forall|u: u32|
        #[trigger] m0.is_live_uuid(u) && (m0.index_of(u) as int) < c0.len() implies {
            &&& m1.is_live_uuid(u)
            &&& (m1.index_of(u) as int) < c1.len()
            &&& c1[m1.index_of(u) as int] == c0[m0.index_of(u) as int]
        } by {
        let p = m0.index_of(u) as int;
        assert(0 <= follow_swaps(swaps, p) < c1.len());
        if !m0.relinks(parent, child) {
            assert(swaps.len() == 0);
        }
    }
}

} // verus!
