use crate::text::str_eq;
use vstd::prelude::*;

verus! {

/// Free-form text data attached to an entity: a map from keys to values.
#[derive(Clone, Debug)]
pub struct MetadataComponent {
    data: Vec<(String, String)>,
}

impl MetadataComponent {
    /// The key and value pairs of the component.
    pub closed spec fn pairs(&self) -> Seq<(String, String)> {
        self.data@
    }

    /// Each key occurs once.
    pub closed spec fn wf(&self) -> bool {
        forall|i: int, j: int|
            0 <= i < j < self.data@.len() ==> #[trigger] self.data@[i].0@ != #[trigger] self.data@[j].0@
    }

    /// The metadata as a map.
    pub closed spec fn view(&self) -> Map<Seq<char>, Seq<char>> {
        Map::new(
            |k: Seq<char>| exists|i: int| 0 <= i < self.data@.len() && #[trigger] self.data@[i].0@ == k,
            |k: Seq<char>|
                {
                    let i = choose|i: int| 0 <= i < self.data@.len() && #[trigger] self.data@[i].0@ == k;
                    self.data@[i].1@
                },
        )
    }

    /// After `set_metadata(key, value)` reading `key` gives `value`, and
    /// every other key reads as before.
    pub proof fn lemma_read_after_set(
        m0: &Self,
        m1: &Self,
        key: Seq<char>,
        value: Seq<char>,
        other: Seq<char>,
    )
        requires
            m1.view() == m0.view().insert(key, value),
            other != key,
        ensures
            m1.view().contains_key(key),
            m1.view()[key] == value,
            m1.view().contains_key(other) == m0.view().contains_key(other),
            m0.view().contains_key(other) ==> m1.view()[other] == m0.view()[other],
    {
    }

    /// After `clear_metadata(key)` reading `key` gives nothing, and every
    /// other key reads as before.
    pub proof fn lemma_read_after_clear(m0: &Self, m1: &Self, key: Seq<char>, other: Seq<char>)
        requires
            m1.view() == m0.view().remove(key),
            other != key,
        ensures
            !m1.view().contains_key(key),
            m1.view().contains_key(other) == m0.view().contains_key(other),
            m0.view().contains_key(other) ==> m1.view()[other] == m0.view()[other],
    {
    }

    /// A component without metadata.
    pub fn new() -> (m: Self)
        ensures
            m.wf(),
            m.view() == Map::<Seq<char>, Seq<char>>::empty(),
    {
        let m = Self::default();
        assert(m.view() =~= Map::<Seq<char>, Seq<char>>::empty());
        m
    }

    fn find(&self, key: &str) -> (r: Option<usize>)
        ensures
            match r {
                Some(i) => i < self.data@.len() && self.data@[i as int].0@ == key@,
                None => forall|i: int| 0 <= i < self.data@.len() ==> #[trigger] self.data@[i].0@ != key@,
            },
    {
        let mut i: usize = 0;
        while i < self.data.len()
            invariant
                i <= self.data@.len(),
                forall|j: int| 0 <= j < i ==> #[trigger] self.data@[j].0@ != key@,
            decreases self.data@.len() - i,
        {
            if str_eq(self.data[i].0.as_str(), key) {
                return Some(i);
            }
            i = i + 1;
        }
        None
    }

    /// The value stored under `key`, if any.
    pub fn get_metadata(&self, key: &str) -> (r: Option<&String>)
        requires
            self.wf(),
        ensures
            match r {
                Some(v) => self.view().contains_key(key@) && v@ == self.view()[key@],
                None => !self.view().contains_key(key@),
            },
    {
        match self.find(key) {
            Some(i) => {
                proof {
                    assert(self.view().contains_key(key@));
                    let j = choose|j: int| 0 <= j < self.data@.len() && #[trigger] self.data@[j].0@ == key@;
                    if j != i as int {
                        if j < i as int {
                            assert(self.data@[j].0@ != self.data@[i as int].0@);
                        } else {
                            assert(self.data@[i as int].0@ != self.data@[j].0@);
                        }
                    }
                }
                Some(&self.data[i].1)
            },
            None => None,
        }
    }

    /// Stores `value` under `key`, replacing what was there.
    pub fn set_metadata(&mut self, key: &str, value: &str)
        requires
            old(self).wf(),
        ensures
            final(self).wf(),
            final(self).view() == old(self).view().insert(key@, value@),
    {
        let ghost o = self.data@;
        let entry = (key.to_owned(), value.to_owned());
        match self.find(key) {
            Some(i) => {
                self.data.set(i, entry);
                proof {
                    let n = self.data@;
                    assert forall|a: int, b: int| 0 <= a < b < n.len() implies #[trigger] n[a].0@ != #[trigger] n[b].0@ by {
                        assert(o[a].0@ != o[b].0@ || false);
                    }
                    assert forall|k: Seq<char>| #[trigger] self.view().contains_key(k) == old(self).view().insert(key@, value@).contains_key(k) by {
                        if k == key@ {
                            assert(n[i as int].0@ == k);
                        } else if old(self).view().contains_key(k) {
                            let j = choose|j: int| 0 <= j < o.len() && #[trigger] o[j].0@ == k;
                            assert(n[j].0@ == k);
                        } else if self.view().contains_key(k) {
                            let j = choose|j: int| 0 <= j < n.len() && #[trigger] n[j].0@ == k;
                            assert(o[j].0@ == k);
                        }
                    }
                    assert forall|k: Seq<char>| #[trigger] self.view().contains_key(k) implies self.view()[k] == old(self).view().insert(key@, value@)[k] by {
                        let j = choose|j: int| 0 <= j < n.len() && #[trigger] n[j].0@ == k;
                        if k == key@ {
                            assert(j == i as int) by {
                                if j != i as int {
                                    if j < i as int {
                                        assert(n[j].0@ != n[i as int].0@);
                                    } else {
                                        assert(n[i as int].0@ != n[j].0@);
                                    }
                                }
                            }
                        } else {
                            assert(o[j].0@ == k);
                            let j2 = choose|j2: int| 0 <= j2 < o.len() && #[trigger] o[j2].0@ == k;
                            assert(j2 == j) by {
                                if j2 != j {
                                    if j2 < j {
                                        assert(o[j2].0@ != o[j].0@);
                                    } else {
                                        assert(o[j].0@ != o[j2].0@);
                                    }
                                }
                            }
                        }
                    }
                    assert(self.view() =~= old(self).view().insert(key@, value@));
                }
            },
            None => {
                self.data.push(entry);
                proof {
                    let n = self.data@;
                    let last = o.len() as int;
                    assert forall|k: Seq<char>| #[trigger] self.view().contains_key(k) == old(self).view().insert(key@, value@).contains_key(k) by {
                        if k == key@ {
                            assert(n[last].0@ == k);
                        } else if old(self).view().contains_key(k) {
                            let j = choose|j: int| 0 <= j < o.len() && #[trigger] o[j].0@ == k;
                            assert(n[j].0@ == k);
                        } else if self.view().contains_key(k) {
                            let j = choose|j: int| 0 <= j < n.len() && #[trigger] n[j].0@ == k;
                            assert(o[j].0@ == k);
                        }
                    }
                    assert forall|k: Seq<char>| #[trigger] self.view().contains_key(k) implies self.view()[k] == old(self).view().insert(key@, value@)[k] by {
                        let j = choose|j: int| 0 <= j < n.len() && #[trigger] n[j].0@ == k;
                        if k == key@ {
                            assert(j == last);
                        } else {
                            assert(j != last);
                            assert(o[j].0@ == k);
                            let j2 = choose|j2: int| 0 <= j2 < o.len() && #[trigger] o[j2].0@ == k;
                            assert(j2 == j) by {
                                if j2 != j {
                                    if j2 < j {
                                        assert(o[j2].0@ != o[j].0@);
                                    } else {
                                        assert(o[j].0@ != o[j2].0@);
                                    }
                                }
                            }
                        }
                    }
                    assert(self.view() =~= old(self).view().insert(key@, value@));
                }
            },
        }
    }

    /// Removes what is stored under `key`, if anything.
    pub fn clear_metadata(&mut self, key: &str)
        requires
            old(self).wf(),
        ensures
            final(self).wf(),
            final(self).view() == old(self).view().remove(key@),
    {
        let ghost o = self.data@;
        match self.find(key) {
            Some(i) => {
                self.data.remove(i);
                proof {
                    let n = self.data@;
                    let ii = i as int;
                    assert forall|a: int, b: int| 0 <= a < b < n.len() implies #[trigger] n[a].0@ != #[trigger] n[b].0@ by {
                        let a2 = if a < ii { a } else { a + 1 };
                        let b2 = if b < ii { b } else { b + 1 };
                        assert(n[a] == o[a2]);
                        assert(n[b] == o[b2]);
                        assert(o[a2].0@ != o[b2].0@);
                    }
                    assert forall|k: Seq<char>| #[trigger] self.view().contains_key(k) == old(self).view().remove(key@).contains_key(k) by {
                        if self.view().contains_key(k) {
                            let j = choose|j: int| 0 <= j < n.len() && #[trigger] n[j].0@ == k;
                            let j2 = if j < ii { j } else { j + 1 };
                            assert(n[j] == o[j2]);
                            assert(j2 != ii);
                            if k == key@ {
                                if j2 < ii {
                                    assert(o[j2].0@ != o[ii].0@);
                                } else {
                                    assert(o[ii].0@ != o[j2].0@);
                                }
                            }
                        }
                        if k != key@ && old(self).view().contains_key(k) {
                            let j = choose|j: int| 0 <= j < o.len() && #[trigger] o[j].0@ == k;
                            assert(j != ii);
                            let j2 = if j < ii { j } else { j - 1 };
                            assert(n[j2] == o[j]);
                        }
                    }
                    assert forall|k: Seq<char>| #[trigger] self.view().contains_key(k) implies self.view()[k] == old(self).view().remove(key@)[k] by {
                        let j = choose|j: int| 0 <= j < n.len() && #[trigger] n[j].0@ == k;
                        let j2 = if j < ii { j } else { j + 1 };
                        assert(n[j] == o[j2]);
                        let j3 = choose|j3: int| 0 <= j3 < o.len() && #[trigger] o[j3].0@ == k;
                        assert(j3 == j2) by {
                            if j3 != j2 {
                                if j3 < j2 {
                                    assert(o[j3].0@ != o[j2].0@);
                                } else {
                                    assert(o[j2].0@ != o[j3].0@);
                                }
                            }
                        }
                    }
                    assert(self.view() =~= old(self).view().remove(key@));
                }
            },
            None => {
                proof {
                    assert(!old(self).view().contains_key(key@));
                    assert(self.view() =~= old(self).view().remove(key@));
                }
            },
        }
    }
}

impl Default for MetadataComponent {
    fn default() -> (m: Self)
        ensures
            m.pairs().len() == 0,
            m.wf(),
            m.view() == Map::<Seq<char>, Seq<char>>::empty(),
    {
        let m = Self { data: Vec::new() };
        assert(m.view() =~= Map::<Seq<char>, Seq<char>>::empty());
        m
    }
}

} // verus!
