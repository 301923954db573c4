//! The ordered record container a successful decode produces: a mapping from
//! type id to decoded value, kept sorted by type id with unique keys.

use vstd::prelude::*;

use crate::record::{kind_of, TypeId, Value, ValueKind, ValueView};

verus! {

/// Some entry of `s` holds the key `t`.
pub open spec fn seq_contains_key(s: Seq<(u64, ValueView)>, t: u64) -> bool {
    exists|i: int| #![trigger s[i]] 0 <= i < s.len() && s[i].0 == t
}

/// An ordered mapping from type id to decoded value.
///
/// Entries are held sorted by type id with no key twice (`wf`). The container
/// itself does not refuse an overwrite — `insert` always stores and reports
/// whether the key was new; duplicate rejection is the decode loop's rule.
#[derive(Debug)]
pub struct Stream {
    entries: Vec<(TypeId, Value)>,
}

/// A handle to the slot a type id occupies, or would occupy, in the order
/// of the entries: for read-modify-insert beyond `get` and `insert`.
#[derive(Clone, Copy, Debug, PartialEq, Eq, Structural)]
pub enum Entry {
    /// The key is present, at this position.
    Occupied(usize),
    /// The key is absent; inserting it would place it at this position.
    Vacant(usize),
}

impl View for Stream {
    type V = Seq<(u64, ValueView)>;

    closed spec fn view(&self) -> Seq<(u64, ValueView)> {
        self.entries@.map(|i: int, e: (TypeId, Value)| (e.0.0, e.1@))
    }
}

impl Stream {
    /// Keys are strictly increasing, hence unique.
    pub open spec fn wf(&self) -> bool {
        forall|i: int, j: int|
            #![trigger self@[i], self@[j]]
            0 <= i < j < self@.len() ==> self@[i].0 < self@[j].0
    }

    /// Some entry holds this type id.
    pub open spec fn spec_contains(&self, t: u64) -> bool {
        seq_contains_key(self@, t)
    }

    /// The position of the entry holding this type id.
    pub open spec fn spec_index_of(&self, t: u64) -> int {
        choose|i: int| #![trigger self@[i]] 0 <= i < self@.len() && self@[i].0 == t
    }

    /// The value stored under this type id, if any.
    pub open spec fn spec_get(&self, t: u64) -> Option<ValueView> {
        if self.spec_contains(t) {
            Some(self@[self.spec_index_of(t)].1)
        } else {
            None
        }
    }

    /// In a well-formed stream a key sits at one position only.
    pub proof fn lemma_key_position_unique(&self, i: int, j: int)
        requires
            self.wf(),
            0 <= i < self@.len(),
            0 <= j < self@.len(),
            self@[i].0 == self@[j].0,
        ensures
            i == j,
    {
    }

    /// An empty stream.
    pub fn new() -> (s: Self)
        ensures
            s@ == Seq::<(u64, ValueView)>::empty(),
            s.wf(),
    {
        Self::default()
    }

    /// How many records the stream holds.
    pub fn len(&self) -> (n: usize)
        ensures
            n == self@.len(),
    {
        self.entries.len()
    }

    /// The type id of the record at a position.
    pub fn key_at(&self, i: usize) -> (t: TypeId)
        requires
            i < self@.len(),
        ensures
            t.0 == self@[i as int].0,
    {
        self.entries[i].0
    }

    /// The value of the record at a position.
    pub fn value_at(&self, i: usize) -> (v: &Value)
        requires
            i < self@.len(),
        ensures
            v@ == self@[i as int].1,
    {
        &self.entries[i].1
    }

    /// Whether a record with this type id is present.
    pub fn contains_key(&self, type_id: &TypeId) -> (b: bool)
        ensures
            b == self.spec_contains(type_id.0),
    {
        let mut i: usize = 0;
        while i < self.entries.len()
            invariant
                i <= self@.len(),
                forall|k: int| #![trigger self@[k]] 0 <= k < i ==> self@[k].0 != type_id.0,
            decreases self@.len() - i,
        {
            if self.entries[i].0.0 == type_id.0 {
                proof {
                    assert(self@[i as int].0 == type_id.0);
                }
                return true;
            }
            i = i + 1;
        }
        false
    }

    /// The stored value, only if present and of the expected kind: a value
    /// of another kind under this type id yields nothing, never an error.
    pub fn get(&self, type_id: &TypeId, kind: ValueKind) -> (r: Option<&Value>)
        requires
            self.wf(),
        ensures
            ({
                let g = self.spec_get(type_id.0);
                match r {
                    Some(v) => g == Some(v@) && kind_of(v@) == kind,
                    None => match g {
                        Some(w) => kind_of(w) != kind,
                        None => true,
                    },
                }
            }),
    {
        let mut i: usize = 0;
        while i < self.entries.len()
            invariant
                self.wf(),
                i <= self@.len(),
                forall|k: int| #![trigger self@[k]] 0 <= k < i ==> self@[k].0 != type_id.0,
            decreases self@.len() - i,
        {
            if self.entries[i].0.0 == type_id.0 {
                proof {
                    assert(self@[i as int].0 == type_id.0);
                    assert(self.spec_contains(type_id.0));
                    self.lemma_key_position_unique(i as int, self.spec_index_of(type_id.0));
                }
                let v = &self.entries[i].1;
                proof {
                    assert(self@[i as int].1 == v@);
                }
                if v.kind() == kind {
                    return Some(v);
                } else {
                    return None;
                }
            }
            i = i + 1;
        }
        None
    }

    /// The slot this type id occupies, or would occupy, in entry order.
    pub fn entry(&self, type_id: &TypeId) -> (e: Entry)
        requires
            self.wf(),
        ensures
            match e {
                Entry::Occupied(i) => i < self@.len() && self@[i as int].0 == type_id.0,
                Entry::Vacant(i) => {
                    &&& !self.spec_contains(type_id.0)
                    &&& i <= self@.len()
                    &&& forall|k: int| #![trigger self@[k]] 0 <= k < i ==> self@[k].0 < type_id.0
                    &&& i < self@.len() ==> self@[i as int].0 > type_id.0
                },
            },
    {
        let p = self.lower_bound(type_id.0);
        if p < self.entries.len() && self.entries[p].0.0 == type_id.0 {
            proof {
                assert(self@[p as int].0 == type_id.0);
            }
            Entry::Occupied(p)
        } else {
            proof {
                if p < self@.len() {
                    assert(self@[p as int].0 > type_id.0);
                }
                if self.spec_contains(type_id.0) {
                    let w = self.spec_index_of(type_id.0);
                    assert(0 <= w < self@.len() && self@[w].0 == type_id.0);
                    if w < p {
                        assert(self@[w].0 < type_id.0);
                    } else if w > p {
                        assert(self@[p as int].0 < self@[w].0);
                    }
                    assert(false);
                }
            }
            Entry::Vacant(p)
        }
    }

    /// The first position whose key is not below `t`.
    fn lower_bound(&self, t: u64) -> (p: usize)
        requires
            self.wf(),
        ensures
            p <= self@.len(),
            forall|k: int| #![trigger self@[k]] 0 <= k < p ==> self@[k].0 < t,
            p < self@.len() ==> self@[p as int].0 >= t,
    {
        let mut p: usize = 0;
        while p < self.entries.len()
            invariant
                p <= self@.len(),
                forall|k: int| #![trigger self@[k]] 0 <= k < p ==> self@[k].0 < t,
            decreases self@.len() - p,
        {
            if self.entries[p].0.0 >= t {
                proof {
                    assert(self@[p as int].0 >= t);
                }
                return p;
            }
            proof {
                assert(self@[p as int].0 < t);
            }
            p = p + 1;
        }
        p
    }

    /// Always stores `value` under `type_id` — overwriting any earlier value —
    /// and reports whether the key was absent beforehand.
    pub fn insert(&mut self, type_id: TypeId, value: Value) -> (fresh: bool)
        requires
            old(self).wf(),
        ensures
            final(self).wf(),
            fresh == !old(self).spec_contains(type_id.0),
            final(self).spec_contains(type_id.0),
            final(self).spec_get(type_id.0) == Some(value@),
            forall|u: u64|
                u != type_id.0 ==> final(self).spec_contains(u) == old(self).spec_contains(u),
            forall|u: u64| u != type_id.0 ==> final(self).spec_get(u) == old(self).spec_get(u),
            final(self)@.len() == old(self)@.len() + (if fresh {
                1int
            } else {
                0int
            }),
            (forall|i: int|
                #![trigger old(self)@[i]]
                0 <= i < old(self)@.len() ==> old(self)@[i].0 < type_id.0) ==> final(self)@ == old(
                self,
            )@.push((type_id.0, value@)),
    {
        let ghost pre = *self;
        let p = self.lower_bound(type_id.0);
        if p < self.entries.len() && self.entries[p].0.0 == type_id.0 {
            self.entries.set(p, (type_id, value));
            proof {
                assert(self@ =~= pre@.update(p as int, (type_id.0, value@)));
                self.lemma_insert_frame_update(pre, p as int, type_id.0, value@);
                if forall|i: int| #![trigger pre@[i]] 0 <= i < pre@.len() ==> pre@[i].0 < type_id.0 {
                    assert(pre@[p as int].0 < type_id.0);
                    assert(false);
                }
            }
            false
        } else {
            proof {
                if p < pre@.len() {
                    assert(pre@[p as int].0 >= type_id.0);
                    assert(pre@[p as int].0 != type_id.0);
                }
            }
            self.entries.insert(p, (type_id, value));
            proof {
                assert(self@ =~= pre@.insert(p as int, (type_id.0, value@)));
                self.lemma_insert_frame_vacant(pre, p as int, type_id.0, value@);
            }
            true
        }
    }

    /// Overwriting the entry at the position of its own key preserves
    /// well-formedness and leaves every other key's lookup unchanged.
    proof fn lemma_insert_frame_update(&self, pre: Stream, p: int, t: u64, v: ValueView)
        requires
            pre.wf(),
            0 <= p < pre@.len(),
            pre@[p].0 == t,
            self@ == pre@.update(p, (t, v)),
        ensures
            self.wf(),
            pre.spec_contains(t),
            self.spec_contains(t),
            self.spec_get(t) == Some(v),
            self@.len() == pre@.len(),
            forall|u: u64| u != t ==> self.spec_contains(u) == pre.spec_contains(u),
            forall|u: u64| u != t ==> self.spec_get(u) == pre.spec_get(u),
    {
        assert(forall|i: int|
            #![trigger self@[i]]
            0 <= i < self@.len() ==> self@[i].0 == pre@[i].0);
        assert(self@[p].0 == t);
        assert(self.spec_contains(t));
        assert(pre.spec_contains(t));
        self.lemma_key_position_unique(p, self.spec_index_of(t));
        assert(self.spec_get(t) == Some(v));
        assert forall|u: u64| u != t implies self.spec_contains(u) == pre.spec_contains(u)
            && self.spec_get(u) == pre.spec_get(u) by {
            if pre.spec_contains(u) {
                let i = pre.spec_index_of(u);
                assert(0 <= i < pre@.len() && pre@[i].0 == u);
                assert(self@[i].0 == u);
                assert(self.spec_contains(u));
                self.lemma_key_position_unique(i, self.spec_index_of(u));
                assert(i != p);
                assert(self@[i].1 == pre@[i].1);
                pre.lemma_key_position_unique(i, pre.spec_index_of(u));
            } else {
                if self.spec_contains(u) {
                    let i = self.spec_index_of(u);
                    assert(0 <= i < self@.len() && self@[i].0 == u);
                    assert(pre@[i].0 == u);
                    assert(pre.spec_contains(u));
                }
            }
        }
    }

    /// Inserting a fresh key at its sorted position preserves
    /// well-formedness and leaves every other key's lookup unchanged.
    proof fn lemma_insert_frame_vacant(&self, pre: Stream, p: int, t: u64, v: ValueView)
        requires
            pre.wf(),
            0 <= p <= pre@.len(),
            forall|k: int| #![trigger pre@[k]] 0 <= k < p ==> pre@[k].0 < t,
            p < pre@.len() ==> pre@[p].0 > t,
            self@ == pre@.insert(p, (t, v)),
        ensures
            self.wf(),
            !pre.spec_contains(t),
            self.spec_contains(t),
            self.spec_get(t) == Some(v),
            self@.len() == pre@.len() + 1,
            forall|u: u64| u != t ==> self.spec_contains(u) == pre.spec_contains(u),
            forall|u: u64| u != t ==> self.spec_get(u) == pre.spec_get(u),
            (forall|i: int| #![trigger pre@[i]] 0 <= i < pre@.len() ==> pre@[i].0 < t) ==> self@
                == pre@.push((t, v)),
    {
        assert(forall|i: int| #![trigger self@[i]] 0 <= i < p ==> self@[i] == pre@[i]);
        assert(forall|i: int|
            #![trigger self@[i]]
            p < i < self@.len() ==> self@[i] == pre@[i - 1]);
        assert(self@[p] == (t, v));
        assert(self@[p].0 == t);
        if pre.spec_contains(t) {
            let w = pre.spec_index_of(t);
            assert(0 <= w < pre@.len() && pre@[w].0 == t);
            if w < p {
                assert(pre@[w].0 < t);
            } else if w > p {
                assert(pre@[p].0 < pre@[w].0);
            }
            assert(false);
        }
        assert forall|i: int, j: int| 0 <= i < j < self@.len() implies self@[i].0 < self@[j].0 by {
            if j < p {
                assert(pre@[i].0 < pre@[j].0);
            } else if j == p {
                assert(self@[i] == pre@[i]);
                assert(pre@[i].0 < t);
            } else if i < p {
                assert(self@[i] == pre@[i]);
                assert(self@[j] == pre@[j - 1]);
                if j - 1 == p {
                    assert(pre@[p].0 > t);
                } else {
                    assert(pre@[p].0 < pre@[j - 1].0);
                }
                assert(pre@[i].0 < t);
            } else if i == p {
                assert(self@[j] == pre@[j - 1]);
                if j - 1 == p {
                    assert(pre@[p].0 > t);
                } else {
                    assert(pre@[p].0 < pre@[j - 1].0);
                }
            } else {
                assert(self@[i] == pre@[i - 1]);
                assert(self@[j] == pre@[j - 1]);
                assert(pre@[i - 1].0 < pre@[j - 1].0);
            }
        }
        assert(self.spec_contains(t));
        self.lemma_key_position_unique(p, self.spec_index_of(t));
        assert(self.spec_get(t) == Some(v));
        assert forall|u: u64| u != t implies self.spec_contains(u) == pre.spec_contains(u)
            && self.spec_get(u) == pre.spec_get(u) by {
            if pre.spec_contains(u) {
                let i = pre.spec_index_of(u);
                assert(0 <= i < pre@.len() && pre@[i].0 == u);
                let i2 = if i < p {
                    i
                } else {
                    i + 1
                };
                assert(self@[i2].0 == u);
                assert(self.spec_contains(u));
                self.lemma_key_position_unique(i2, self.spec_index_of(u));
                pre.lemma_key_position_unique(i, pre.spec_index_of(u));
                assert(self@[i2].1 == pre@[i].1);
            } else {
                if self.spec_contains(u) {
                    let i = self.spec_index_of(u);
                    assert(0 <= i < self@.len() && self@[i].0 == u);
                    assert(i != p);
                    let i0 = if i < p {
                        i
                    } else {
                        i - 1
                    };
                    assert(pre@[i0].0 == u);
                    assert(pre.spec_contains(u));
                }
            }
        }
        if forall|i: int| #![trigger pre@[i]] 0 <= i < pre@.len() ==> pre@[i].0 < t {
            if p < pre@.len() {
                assert(pre@[p].0 < t);
                assert(false);
            }
            assert(self@ =~= pre@.push((t, v)));
        }
    }
}

impl Default for Stream {
    /// An empty stream.
    fn default() -> (s: Self)
        ensures
            s@ == Seq::<(u64, ValueView)>::empty(),
            s.wf(),
    {
        let s = Stream { entries: Vec::new() };
        proof {
            assert(s@ =~= Seq::<(u64, ValueView)>::empty());
        }
        s
    }
}

} // verus!
