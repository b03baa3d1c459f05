//! What is recorded for the expressions and patterns of a body.

use rustc_hash::{FxHashMap, FxHasher};
use vstd::prelude::*;

use crate::defs::ExprOrPatId;
use crate::ty::{Ty, TyModel};

verus! {

/// The types recorded for the nodes of one kind, found by their numbers.
#[derive(Clone, PartialEq, Eq, Debug)]
pub struct ArenaMap {
    types: Vec<Option<Ty>>,
}

impl ArenaMap {
    pub closed spec fn slots(&self) -> Seq<Option<Ty>> {
        self.types@
    }
}

/// Whether a type is recorded under a number.
pub open spec fn is_recorded(slots: Seq<Option<Ty>>, id: u32) -> bool {
    (id as int) < slots.len() && slots[id as int] is Some
}

/// The recorded types.
pub open spec fn recorded(slots: Seq<Option<Ty>>) -> Map<u32, TyModel> {
    Map::new(|id: u32| is_recorded(slots, id), |id: u32| slots[id as int]->Some_0@)
}

impl View for ArenaMap {
    type V = Map<u32, TyModel>;

    open spec fn view(&self) -> Map<u32, TyModel> {
        recorded(self.slots())
    }
}

impl ArenaMap {
    pub fn new() -> (r: ArenaMap)
        ensures
            r@ == Map::<u32, TyModel>::empty(),
            r.slots().len() == 0,
    {
        let r = ArenaMap { types: Vec::new() };
        assert(r@ =~= Map::<u32, TyModel>::empty());
        r
    }

    pub fn insert(&mut self, id: u32, ty: Ty)
        ensures
            final(self)@ == old(self)@.insert(id, ty@),
    {
        while self.types.len() <= id as usize
            invariant
                self@ == old(self)@,
            decreases id + 1 - self.types.len(),
        {
            let ghost before = self@;
            self.types.push(None);
            assert(self@ =~= before);
        }
        self.types.set(id as usize, Some(ty));
        assert(self@ =~= old(self)@.insert(id, ty@));
    }

    pub fn get(&self, id: u32) -> (r: Option<&Ty>)
        ensures
            match r {
                Some(ty) => self@.contains_key(id) && self@[id] == ty@,
                None => !self@.contains_key(id),
            },
    {
        if (id as usize) < self.types.len() {
            self.types[id as usize].as_ref()
        } else {
            None
        }
    }

    /// The number of slots: no type is recorded from there on.
    pub fn len(&self) -> (r: usize)
        ensures
            r == self.slots().len(),
    {
        self.types.len()
    }

    /// The type in a slot.
    pub fn slot(&self, i: usize) -> (r: &Option<Ty>)
        requires
            i < self.slots().len(),
        ensures
            *r == self.slots()[i as int],
    {
        &self.types[i]
    }

    /// Appends a slot.
    pub fn push_slot(&mut self, slot: Option<Ty>)
        ensures
            final(self).slots() == old(self).slots().push(slot),
    {
        self.types.push(slot);
    }
}

/// The hasher of the `rustc-hash` crate.
#[verifier::external_type_specification]
#[verifier::external_body]
pub struct ExFxHasher(FxHasher);

/// The standard library's source of hashers that all start alike.
#[verifier::external_type_specification]
#[verifier::external_body]
#[verifier::reject_recursive_types(H)]
pub struct ExBuildHasherDefault<H>(std::hash::BuildHasherDefault<H>);

/// `HashMap::insert` under the hasher of `rustc-hash`: puts the value under the
/// key, in place of one that was there.
#[verifier::external_body]
fn fx_insert<V>(map: &mut FxHashMap<u64, V>, key: u64, value: V)
    ensures
        final(map)@ == old(map)@.insert(key, value),
{
    map.insert(key, value);
}

/// `HashMap::get` under the hasher of `rustc-hash`: the value under the key.
#[verifier::external_body]
fn fx_get<V>(map: &FxHashMap<u64, V>, key: u64) -> (r: Option<&V>)
    ensures
        match r {
            Some(value) => map@.contains_key(key) && *value == map@[key],
            None => !map@.contains_key(key),
        },
{
    map.get(&key)
}

/// The number under which something is recorded for a node: expressions have the
/// even numbers, patterns the odd ones.
pub open spec fn node_key(id: ExprOrPatId) -> u64 {
    match id {
        ExprOrPatId::ExprId(e) => (2 * e.0) as u64,
        ExprOrPatId::PatId(p) => (2 * p.0 + 1) as u64,
    }
}

/// What nodes resolve to.
#[verifier::reject_recursive_types(V)]
#[derive(Clone, PartialEq, Eq, Debug)]
pub struct NodeMap<V> {
    entries: FxHashMap<u64, V>,
}

impl<V> NodeMap<V> {
    pub closed spec fn raw(&self) -> Map<u64, V> {
        self.entries@
    }
}

impl<V> View for NodeMap<V> {
    type V = Map<ExprOrPatId, V>;

    open spec fn view(&self) -> Map<ExprOrPatId, V> {
        Map::new(
            |id: ExprOrPatId| self.raw().contains_key(node_key(id)),
            |id: ExprOrPatId| self.raw()[node_key(id)],
        )
    }
}

fn key_of(id: ExprOrPatId) -> (r: u64)
    ensures
        r == node_key(id),
{
    match id {
        ExprOrPatId::ExprId(e) => 2 * (e.0 as u64),
        ExprOrPatId::PatId(p) => 2 * (p.0 as u64) + 1,
    }
}

/// What one node resolves to is not taken for what another does.
proof fn lemma_node_key_injective(a: ExprOrPatId, b: ExprOrPatId)
    requires
        node_key(a) == node_key(b),
    ensures
        a == b,
{
}

impl<V: Copy> NodeMap<V> {
    pub fn new() -> (r: NodeMap<V>)
        ensures
            r@ == Map::<ExprOrPatId, V>::empty(),
    {
        let r = NodeMap { entries: FxHashMap::default() };
        assert(r@ =~= Map::<ExprOrPatId, V>::empty());
        r
    }

    pub fn insert(&mut self, id: ExprOrPatId, value: V)
        ensures
            final(self)@ == old(self)@.insert(id, value),
    {
        fx_insert(&mut self.entries, key_of(id), value);
        assert(self@ =~= old(self)@.insert(id, value)) by {
            assert forall|other: ExprOrPatId| node_key(other) == node_key(id) implies other
                == id by {
                lemma_node_key_injective(other, id);
            }
        }
    }

    pub fn get(&self, id: ExprOrPatId) -> (r: Option<V>)
        ensures
            r == (if self@.contains_key(id) {
                Some(self@[id])
            } else {
                None
            }),
    {
        match fx_get(&self.entries, key_of(id)) {
            Some(value) => Some(*value),
            None => None,
        }
    }
}

} // verus!
