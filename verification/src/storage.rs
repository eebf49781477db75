//! Sparse component tables keyed by entity.

use vstd::prelude::*;

verus! {

/// An entity is known by its index alone.
pub type Entity = usize;

/// The components of one type, held for the entities that carry one.
///
/// The table is seen as the map from each such entity to its component.
pub struct Storage<T> {
    slots: Vec<Option<T>>,
}

impl<T> View for Storage<T> {
    type V = Map<Entity, T>;

    closed spec fn view(&self) -> Map<Entity, T> {
        Map::new(
            |e: Entity| e < self.slots.len() && self.slots[e as int] is Some,
            |e: Entity| self.slots[e as int]->Some_0,
        )
    }
}

impl<T> Storage<T> {
    /// An index above every entity in the table.
    pub closed spec fn spec_bound(&self) -> nat {
        self.slots.len() as nat
    }

    /// The table that holds nothing.
    pub fn new() -> (table: Self)
        ensures
            table@ == Map::<Entity, T>::empty(),
    {
        let table = Storage { slots: Vec::new() };
        assert(table@ =~= Map::<Entity, T>::empty());
        table
    }

    /// An index above every entity in the table.
    pub fn bound(&self) -> (limit: usize)
        ensures
            limit == self.spec_bound(),
            forall|e: Entity| #[trigger] self@.contains_key(e) ==> e < limit,
    {
        self.slots.len()
    }

    /// Whether `entity` carries the component.
    pub fn contains(&self, entity: Entity) -> (present: bool)
        ensures
            present == self@.contains_key(entity),
    {
        entity < self.slots.len() && self.slots[entity].is_some()
    }

    /// The component of `entity`, if it carries one.
    pub fn get(&self, entity: Entity) -> (component: Option<&T>)
        ensures
            component == if self@.contains_key(entity) {
                Some(&self@[entity])
            } else {
                None
            },
    {
        if entity < self.slots.len() {
            self.slots[entity].as_ref()
        } else {
            None
        }
    }

    /// Gives `entity` the component `value` and hands back the one it carried.
    /// The table grows as far as the index of the entity.
    pub fn insert(&mut self, entity: Entity, value: T) -> (previous: Option<T>)
        ensures
            final(self)@ == old(self)@.insert(entity, value),
            previous == if old(self)@.contains_key(entity) {
                Some(old(self)@[entity])
            } else {
                None
            },
    {
        while self.slots.len() <= entity
            invariant
                self@ =~= old(self)@,
            decreases entity + 1 - self.slots.len(),
        {
            self.slots.push(None);
        }
        self.slots.push(Some(value));
        let previous = self.slots.swap_remove(entity);
        assert(self@ =~= old(self)@.insert(entity, value));
        previous
    }

    /// Takes the component from `entity` and hands it back.
    pub fn remove(&mut self, entity: Entity) -> (previous: Option<T>)
        ensures
            final(self)@ == old(self)@.remove(entity),
            previous == if old(self)@.contains_key(entity) {
                Some(old(self)@[entity])
            } else {
                None
            },
    {
        if entity < self.slots.len() {
            self.slots.push(None);
            let previous = self.slots.swap_remove(entity);
            assert(self@ =~= old(self)@.remove(entity));
            previous
        } else {
            assert(self@ =~= old(self)@.remove(entity));
            None
        }
    }
}

impl<T> Storage<T> {
    /// Lists the entities that carry the component, the smaller first.
    pub fn entities(&self) -> (entities: Vec<Entity>)
        ensures
            entities@ == in_order(self@.dom()),
    {
        let mut entities: Vec<Entity> = Vec::new();
        let mut entity: usize = 0;
        while entity < self.slots.len()
            invariant
                entity <= self.slots.len(),
                entities@ == ascending(self@.dom(), entity as nat),
            decreases self.slots.len() - entity,
        {
            if self.slots[entity].is_some() {
                entities.push(entity);
            }
            entity += 1;
        }
        proof {
            lemma_ascending_gap(self@.dom(), self.slots.len() as nat, usize::MAX as nat + 1);
        }
        entities
    }
}

/// The entities of `keys` below `limit`, each once, the smaller first.
pub open spec fn ascending(keys: Set<Entity>, limit: nat) -> Seq<Entity>
    decreases limit,
{
    if limit == 0 {
        Seq::empty()
    } else {
        let rest = ascending(keys, (limit - 1) as nat);
        if keys.contains((limit - 1) as usize) {
            rest.push((limit - 1) as usize)
        } else {
            rest
        }
    }
}

/// The entities of `keys`, each once, the smaller first.
pub open spec fn in_order(keys: Set<Entity>) -> Seq<Entity> {
    ascending(keys, usize::MAX as nat + 1)
}

/// `ascending` lists the entities of `keys` below `limit` and no others, in
/// strictly rising order.
pub proof fn lemma_ascending(keys: Set<Entity>, limit: nat)
    requires
        limit <= usize::MAX + 1,
    ensures
        ascending(keys, limit).len() <= limit,
        forall|i: int|
            0 <= i < ascending(keys, limit).len() ==> keys.contains(
                #[trigger] ascending(keys, limit)[i],
            ) && ascending(keys, limit)[i] < limit,
        forall|e: Entity|
            keys.contains(e) && e < limit ==> #[trigger] ascending(keys, limit).contains(e),
        forall|i: int, j: int|
            0 <= i < j < ascending(keys, limit).len() ==> #[trigger] ascending(keys, limit)[i]
                < #[trigger] ascending(keys, limit)[j],
    decreases limit,
{
    if limit > 0 {
        let below = (limit - 1) as nat;
        let rest = ascending(keys, below);
        lemma_ascending(keys, below);
        let whole = ascending(keys, limit);
        assert forall|e: Entity| keys.contains(e) && e < limit implies #[trigger] whole.contains(
            e,
        ) by {
            if e < below {
                assert(rest.contains(e));
                let i = choose|i: int| 0 <= i < rest.len() && rest[i] == e;
                assert(whole[i] == e);
            } else {
                assert(whole[whole.len() - 1] == e);
            }
        }
    }
}

/// Where `keys` holds nothing from `from` up to `to`, listing up to `to` adds
/// nothing to listing up to `from`.
pub proof fn lemma_ascending_gap(keys: Set<Entity>, from: nat, to: nat)
    requires
        from <= to <= usize::MAX + 1,
        forall|e: Entity| from <= e < to ==> !keys.contains(e),
    ensures
        ascending(keys, to) == ascending(keys, from),
    decreases to,
{
    if from < to {
        lemma_ascending_gap(keys, from, (to - 1) as nat);
    }
}

/// `in_order` lists the entities of `keys` and no others, in strictly rising
/// order.
pub proof fn lemma_in_order(keys: Set<Entity>)
    ensures
        forall|i: int|
            0 <= i < in_order(keys).len() ==> keys.contains(#[trigger] in_order(keys)[i]),
        forall|e: Entity| keys.contains(e) ==> #[trigger] in_order(keys).contains(e),
        forall|i: int, j: int|
            0 <= i < j < in_order(keys).len() ==> #[trigger] in_order(keys)[i]
                < #[trigger] in_order(keys)[j],
{
    lemma_ascending(keys, usize::MAX as nat + 1);
}

} // verus!
