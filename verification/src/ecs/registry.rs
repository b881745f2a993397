use core::ops::BitOrAssign;
use std::any::TypeId;
use vstd::prelude::*;

use super::bits::{lemma_set_kind_bit, lemma_has_kind_bit, lemma_empty_has_only_empty};
use super::laws::lemma_step_keeps_wf;
use super::{
    ComponentMask, ComponentRegistry, ComponentSlot, MAX_ENTITY_CNT, Mask, RegistryModel, RegistryOp,
    is_scan_prefix, kind_bit, matching_entities, same_type, scan_stops_at, slot_of,
};

verus! {

/// `slot_of` names the last position that holds `id`, or -1 when none does.
pub proof fn lemma_slot_of(ids: Seq<TypeId>, id: TypeId)
    ensures
        -1 <= slot_of(ids, id) < ids.len(),
        slot_of(ids, id) >= 0 ==> ids[slot_of(ids, id)] == id,
        forall|k: int| slot_of(ids, id) < k < ids.len() ==> ids[k] != id,
    decreases ids.len(),
{
    if ids.len() > 0 && ids.last() != id {
        let rest = ids.drop_last();
        lemma_slot_of(rest, id);
        assert forall|k: int| slot_of(ids, id) < k < ids.len() implies ids[k] != id by {
            if k < rest.len() {
                assert(rest[k] == ids[k]);
            }
        }
    }
}

/// Every type of `ids` is registered, at its position in `ids` or at a later one.
pub proof fn lemma_slot_of_each(ids: Seq<TypeId>, c: int)
    requires
        0 <= c < ids.len(),
    ensures
        c <= slot_of(ids, ids[c]),
    decreases ids.len(),
{
    if ids.last() != ids[c] {
        let rest = ids.drop_last();
        assert(rest[c] == ids[c]);
        lemma_slot_of_each(rest, c);
    }
}

impl<T> ComponentRegistry<T> {
    /// The position at which `id` was last registered.
    pub(crate) fn slot(&self, id: &TypeId) -> (r: Option<usize>)
        requires
            self.wf(),
        ensures
            r == if self@.registered(*id) {
                Some(self@.slot(*id) as usize)
            } else {
                None::<usize>
            },
    {
        let ghost ids = self@.type_ids;
        let mut i = self.component_ids.len();
        assert(ids.take(i as int) =~= ids);
        while i > 0
            invariant
                i <= ids.len(),
                ids == self.component_ids@,
                slot_of(ids, *id) == slot_of(ids.take(i as int), *id),
            decreases i,
        {
            assert(ids.take(i as int).drop_last() =~= ids.take(i - 1));
            if same_type(&self.component_ids[i - 1], id) {
                return Some(i - 1);
            }
            i = i - 1;
        }
        None
    }

    /// A registry with no component types and no entities.
    fn _new_empty() -> (r: ComponentRegistry<T>)
        ensures
            r.wf(),
            r@.type_ids == Seq::<TypeId>::empty(),
            r@.entity_masks == Seq::<Mask>::empty(),
    {
        let r = ComponentRegistry {
            component_ids: Vec::new(),
            component_database: Vec::new(),
            entity_masks: Vec::with_capacity(MAX_ENTITY_CNT),
            num_component_types: 0,
            num_entities: 0,
        };
        assert(r@.columns =~= Seq::<Seq<ComponentSlot<T>>>::empty());
        r
    }

    /// Registers one more component type, with an empty column.
    fn _register_component(&mut self, id: TypeId)
        requires
            old(self)@.num_kinds() < 32,
            old(self)@.num_entities() == 0,
        ensures
            final(self)@.type_ids == old(self)@.type_ids.push(id),
            final(self)@.entity_masks == old(self)@.entity_masks,
    {
        let mut registry = Self::_new_empty();
        std::mem::swap(&mut registry, self);
        proof {
            use_type_invariant(&registry);
        }
        let ghost o = registry@;
        let ComponentRegistry {
            mut component_ids,
            mut component_database,
            entity_masks,
            num_component_types,
            num_entities,
        } = registry;
        let ghost old_db = component_database@;
        component_ids.push(id);
        component_database.push(Vec::with_capacity(MAX_ENTITY_CNT));
        let ghost db = component_database@;
        proof {
            assert forall|p: int| 0 <= p < db.len() implies #[trigger] db[p]@.len() == entity_masks@.len() by {
                if p < old_db.len() {
                    assert(db[p] == old_db[p]);
                    assert(o.columns[p] == old_db[p]@);
                }
            }
        }
        let next = ComponentRegistry {
            component_ids,
            component_database,
            entity_masks,
            num_component_types: num_component_types + 1,
            num_entities,
        };
        proof {
            let m = next@;
            assert(m.entity_masks == o.entity_masks);
            assert forall|p: int| 0 <= p < m.columns.len() implies #[trigger] m.columns[p].len()
                == m.entity_masks.len() by {
                assert(m.columns[p] == db[p]@);
            }
        }
        *self = next;
    }

    /// Creates a registry with one component type per entry of `ids`, in that order.
    /// A type given twice is known by its last position.
    pub fn new(ids: Vec<TypeId>) -> (r: ComponentRegistry<T>)
        requires
            ids.len() <= 32,
        ensures
            r@.wf(),
            r@.type_ids == ids@,
            r@.num_entities() == 0,
            forall|c: int| 0 <= c < ids.len() ==> r@.registered(#[trigger] ids@[c]),
    {
        let mut new_registry = ComponentRegistry::_new_empty();
        for i in 0..ids.len()
            invariant
                ids.len() <= 32,
                new_registry@.type_ids == ids@.take(i as int),
                new_registry@.num_entities() == 0,
        {
            new_registry._register_component(ids[i]);
            assert(ids@.take(i as int).push(ids@[i as int]) =~= ids@.take(i + 1));
        }
        assert(ids@.take(ids.len() as int) =~= ids@);
        proof {
            use_type_invariant(&new_registry);
        }
        assert forall|c: int| 0 <= c < ids.len() implies new_registry@.registered(#[trigger] ids@[c]) by {
            lemma_slot_of_each(ids@, c);
        }
        new_registry
    }

    /// The number of component types registered (a type given twice counts twice).
    pub fn num_registered_components(&self) -> (r: usize)
        ensures
            r == self@.num_kinds(),
    {
        proof {
            use_type_invariant(self);
        }
        self.num_component_types
    }

    /// The number of entities created so far (deleted ones included).
    pub fn num_entities(&self) -> (r: usize)
        ensures
            r == self@.num_entities(),
    {
        proof {
            use_type_invariant(self);
        }
        self.num_entities
    }

    /// The id of the entity created last.
    pub fn save_id(&mut self) -> (r: usize)
        requires
            old(self)@.num_entities() > 0,
        ensures
            *final(self) == *old(self),
            r == old(self)@.num_entities() - 1,
    {
        proof {
            use_type_invariant(&*self);
        }
        self.num_entities - 1
    }



    /// The mask of the kind registered at position `k`.
    fn mask_of_slot(k: usize) -> (r: ComponentMask)
        requires
            k < 32,
        ensures
            r@ == kind_bit(k as int),
    {
        ComponentMask(1u32 << (k as u32))
    }

    /// Whether the component type `id` is registered.
    pub fn is_registered(&self, id: TypeId) -> (r: bool)
        ensures
            r == self@.registered(id),
    {
        proof {
            use_type_invariant(self);
        }
        self.slot(&id).is_some()
    }

    /// The mask that names the component type `id`.
    pub fn _mask_of(&self, id: TypeId) -> (r: ComponentMask)
        requires
            self@.registered(id),
        ensures
            r@ == self@.mask_of(id),
    {
        proof {
            use_type_invariant(self);
        }
        proof {
            lemma_slot_of(self@.type_ids, id);
        }
        match self.slot(&id) {
            Some(k) => Self::mask_of_slot(k),
            None => vstd::pervasive::unreached(),
        }
    }

    /// Gives the entity created last the component `component` of type `id`, in place of
    /// what its slot of that type held.
    pub fn with_component(&mut self, id: TypeId, component: T) -> (r: &mut Self)
        requires
            old(self)@.registered(id),
            old(self)@.num_entities() > 0,
        ensures
            r@.wf(),
            old(self)@.with_component_step(id, component, r@),
            r@.component(id, old(self)@.num_entities() - 1) == Some(component),
            r@.has_components(old(self)@.num_entities() - 1, r@.mask_of(id)),
            *final(self) == *final(r),
    {
        proof {
            use_type_invariant(&*self);
            lemma_slot_of(self@.type_ids, id);
        }
        let k = match self.slot(&id) {
            Some(k) => k,
            None => vstd::pervasive::unreached(),
        };
        let e = self.num_entities - 1;
        let mut registry = Self::_new_empty();
        std::mem::swap(&mut registry, self);
        proof {
            use_type_invariant(&registry);
        }
        let ghost o = registry@;
        let ComponentRegistry {
            component_ids,
            mut component_database,
            mut entity_masks,
            num_component_types,
            num_entities,
        } = registry;
        assert(component_database@[k as int]@ == o.columns[k as int]);
        assert(o.columns[k as int].len() == o.entity_masks.len());
        component_database[k].set(e, ComponentSlot { stored: true, value: component });
        let mask_to_enable = Self::mask_of_slot(k);
        let mut last_mask = entity_masks[e];
        last_mask.bitor_assign(mask_to_enable);
        entity_masks.set(e, last_mask);
        proof {
            let m = RegistryModel {
                type_ids: component_ids@,
                columns: component_database@.map_values(|c: Vec<ComponentSlot<T>>| c@),
                entity_masks: entity_masks@.map_values(|x: ComponentMask| x@),
            };
            lemma_set_kind_bit(o.entity_masks[e as int], k as int, k as int);
            lemma_has_kind_bit(o.entity_masks[e as int] | kind_bit(k as int), k as int);
            assert(m.columns =~= o.columns.update(
                k as int,
                o.columns[k as int].update(e as int, ComponentSlot { stored: true, value: component }),
            ));
            assert(m.entity_masks =~= o.entity_masks.update(e as int, o.entity_masks[e as int] | kind_bit(k as int)));
            assert(o.with_component_step(id, component, m));
            lemma_step_keeps_wf(o, RegistryOp::WithComponent(id, component), m);
        }
        *self = ComponentRegistry {
            component_ids,
            component_database,
            entity_masks,
            num_component_types,
            num_entities,
        };
        self
    }

    /// Whether entity `eid` exists and holds every component that `mask` names.
    pub fn entity_has_components(&self, eid: usize, mask: ComponentMask) -> (r: bool)
        ensures
            r == self@.has_components(eid as int, mask@),
    {
        proof {
            use_type_invariant(self);
        }
        if eid < self.entity_masks.len() {
            self.entity_masks[eid].has(&mask)
        } else {
            false
        }
    }

    /// The ids, in increasing order, of the entities that hold every component that
    /// `f_mask` names.
    pub fn mask_filter(&self, f_mask: ComponentMask) -> (r: Vec<usize>)
        ensures
            r@ == matching_entities(self@.entity_masks, f_mask@),
    {
        proof {
            use_type_invariant(self);
        }
        let ghost masks = self@.entity_masks;
        let mut idx: Vec<usize> = Vec::new();
        for i in 0..self.entity_masks.len()
            invariant
                masks == self@.entity_masks,
                idx@ == matching_entities(masks.take(i as int), f_mask@),
        {
            assert(masks.take(i + 1).drop_last() =~= masks.take(i as int));
            if self.entity_masks[i].has(&f_mask) {
                idx.push(i);
            }
        }
        assert(masks.take(masks.len() as int) =~= masks);
        idx
    }

    /// The component of type `id` that entity `eid` holds.
    pub fn get_component_from_id(&self, id: TypeId, eid: usize) -> (r: &T)
        requires
            self@.registered(id),
            eid < self@.num_entities(),
            self@.component(id, eid as int) is Some,
        ensures
            Some(*r) == self@.component(id, eid as int),
    {
        proof {
            use_type_invariant(self);
        }
        proof {
            lemma_slot_of(self@.type_ids, id);
        }
        let k = match self.slot(&id) {
            Some(k) => k,
            None => vstd::pervasive::unreached(),
        };
        assert(self@.columns[k as int] == self.component_database@[k as int]@);
        &self.component_database[k][eid].value
    }

    /// Whether entity `eid` exists and holds a component of the registered type `id`.
    pub fn holds_component(&self, id: TypeId, eid: usize) -> (r: bool)
        requires
            self@.registered(id),
        ensures
            r == (eid < self@.num_entities() && self@.component(id, eid as int) is Some),
    {
        proof {
            use_type_invariant(self);
        }
        proof {
            lemma_slot_of(self@.type_ids, id);
        }
        let k = match self.slot(&id) {
            Some(k) => k,
            None => vstd::pervasive::unreached(),
        };
        assert(self@.columns[k as int] == self.component_database@[k as int]@);
        if eid < self.num_entities {
            self.component_database[k][eid].stored
        } else {
            false
        }
    }

    /// Walks the entities in order and takes the component of type `id` of each entity
    /// that `ids` names next: the components of the leading run of `ids` that is strictly
    /// increasing and below the number of entities.
    pub fn id_filter(&self, id: TypeId, ids: &Vec<usize>) -> (r: Vec<&T>)
        requires
            self@.registered(id),
            forall|i: int|
                0 <= i < ids.len() && is_scan_prefix(ids@, self@.num_entities(), i + 1)
                    ==> self@.component(id, #[trigger] ids@[i] as int) is Some,
        ensures
            is_scan_prefix(ids@, self@.num_entities(), r.len() as int),
            scan_stops_at(ids@, self@.num_entities(), r.len() as int),
            forall|i: int|
                0 <= i < r.len() ==> Some(*#[trigger] r@[i]) == self@.component(id, ids@[i] as int),
    {
        proof {
            use_type_invariant(self);
        }
        proof {
            lemma_slot_of(self@.type_ids, id);
        }
        let k = match self.slot(&id) {
            Some(k) => k,
            None => vstd::pervasive::unreached(),
        };
        let ghost n = self@.num_entities();
        let column = &self.component_database[k];
        let ghost col = column@;
        assert(col == self@.columns[k as int]);
        assert forall|i: int|
            0 <= i < ids.len() && is_scan_prefix(ids@, n, i + 1) implies (#[trigger] col[ids@[i] as int]).stored by {
            assert(self@.component(id, ids@[i] as int) is Some);
        }
        let mut components: Vec<&T> = Vec::new();
        let mut j: usize = 0;
        for eid in 0..column.len()
            invariant
                n == col.len(),
                col == column@,
                j <= ids.len(),
                components.len() == j,
                is_scan_prefix(ids@, n, j as int),
                forall|i: int| 0 <= i < j ==> #[trigger] ids@[i] < eid,
                j == ids.len() || ids@[j as int] >= eid || (j > 0 && ids@[j as int] <= ids@[j - 1]),
                forall|i: int|
                    0 <= i < components.len() ==> *#[trigger] components@[i] == col[ids@[i] as int].value,
                forall|i: int|
                    0 <= i < ids.len() && is_scan_prefix(ids@, n, i + 1) ==> (#[trigger] col[ids@[i] as int]).stored,
        {
            if j < ids.len() && ids[j] == eid {
                assert(is_scan_prefix(ids@, n, j + 1));
                components.push(&column[eid].value);
                j = j + 1;
            }
        }
        components
    }

    /// `id_filter` for any `ids`: `None` exactly when an entity that the pass takes holds no
    /// component of type `id` (where `id_filter` would have nothing to hand out).
    pub fn try_id_filter(&self, id: TypeId, ids: &Vec<usize>) -> (r: Option<Vec<&T>>)
        requires
            self@.registered(id),
        ensures
            r is None <==> exists|i: int|
                0 <= i < ids.len() && is_scan_prefix(ids@, self@.num_entities(), i + 1)
                    && self@.component(id, #[trigger] ids@[i] as int) is None,
            r matches Some(v) ==> {
                &&& is_scan_prefix(ids@, self@.num_entities(), v.len() as int)
                &&& scan_stops_at(ids@, self@.num_entities(), v.len() as int)
                &&& forall|i: int|
                    0 <= i < v.len() ==> Some(*#[trigger] v@[i]) == self@.component(id, ids@[i] as int)
            },
    {
        proof {
            use_type_invariant(self);
        }
        proof {
            lemma_slot_of(self@.type_ids, id);
        }
        let k = match self.slot(&id) {
            Some(k) => k,
            None => vstd::pervasive::unreached(),
        };
        let ghost n = self@.num_entities();
        let column = &self.component_database[k];
        let ghost col = column@;
        assert(col == self@.columns[k as int]);
        let mut components: Vec<&T> = Vec::new();
        let mut j: usize = 0;
        for eid in 0..column.len()
            invariant
                n == col.len(),
                col == column@,
                n == self@.num_entities(),
                self@.registered(id),
                0 <= self@.slot(id) < self@.columns.len(),
                col == self@.columns[self@.slot(id)],
                j <= ids.len(),
                components.len() == j,
                is_scan_prefix(ids@, n, j as int),
                forall|i: int| 0 <= i < j ==> #[trigger] ids@[i] < eid,
                j == ids.len() || ids@[j as int] >= eid || (j > 0 && ids@[j as int] <= ids@[j - 1]),
                forall|i: int|
                    0 <= i < components.len() ==> *#[trigger] components@[i] == col[ids@[i] as int].value,
                forall|i: int| 0 <= i < j ==> (#[trigger] col[ids@[i] as int]).stored,
        {
            if j < ids.len() && ids[j] == eid {
                assert(is_scan_prefix(ids@, n, j + 1));
                if !column[eid].stored {
                    assert(self@.component(id, ids@[j as int] as int) is None);
                    return None;
                }
                components.push(&column[eid].value);
                j = j + 1;
            }
        }
        assert forall|i: int| 0 <= i < ids.len() && is_scan_prefix(ids@, n, i + 1) implies self@.component(
            id,
            #[trigger] ids@[i] as int,
        ) is Some by {
            if i >= j {
                assert(ids@[j as int] < n);
                if j > 0 {
                    assert(ids@[j - 1] < ids@[j as int]);
                }
            }
            assert(col[ids@[i] as int].stored);
        }
        Some(components)
    }

    /// Clears the mask of entity `eid`, so that it no longer matches any query. Its
    /// components stay where they are. Returns whether the entity existed.
    pub fn delete_entity(&mut self, eid: usize) -> (r: bool)
        ensures
            final(self)@.wf(),
            r == (eid < old(self)@.num_entities()),
            old(self)@.delete_step(eid, final(self)@),
            forall|f: Mask| f != 0 ==> !#[trigger] final(self)@.has_components(eid as int, f),
    {
        proof {
            use_type_invariant(&*self);
        }
        if eid < self.entity_masks.len() {
            let mut registry = Self::_new_empty();
            std::mem::swap(&mut registry, self);
            proof {
                use_type_invariant(&registry);
            }
            let ghost o = registry@;
            let ComponentRegistry {
                component_ids,
                component_database,
                mut entity_masks,
                num_component_types,
                num_entities,
            } = registry;
            entity_masks.set(eid, ComponentMask::empty());
            proof {
                let m = RegistryModel {
                    type_ids: component_ids@,
                    columns: component_database@.map_values(|c: Vec<ComponentSlot<T>>| c@),
                    entity_masks: entity_masks@.map_values(|x: ComponentMask| x@),
                };
                assert(m.entity_masks =~= o.entity_masks.update(eid as int, 0));
                assert(m.columns =~= o.columns);
                lemma_step_keeps_wf(o, RegistryOp::DeleteEntity(eid), m);
                assert forall|f: Mask| f != 0 implies !#[trigger] m.has_components(eid as int, f) by {
                    lemma_empty_has_only_empty(f);
                }
            }
            *self = ComponentRegistry {
                component_ids,
                component_database,
                entity_masks,
                num_component_types,
                num_entities,
            };
            true
        } else {
            false
        }
    }
}

impl<T: Default> ComponentRegistry<T> {
    /// Creates an entity with no component. Every column gets a slot for it holding
    /// `T::default()`, marked as holding no component.
    pub fn new_entity(&mut self) -> (r: &mut Self)
        requires
            old(self)@.num_entities() < usize::MAX,
        ensures
            r@.wf(),
            old(self)@.new_entity_step(r@),
            forall|p: int|
                0 <= p < r@.columns.len() ==> call_ensures(T::default, (), (#[trigger] r@.columns[p]).last().value),
            *final(self) == *final(r),
    {
        let mut registry = Self::_new_empty();
        std::mem::swap(&mut registry, self);
        proof {
            use_type_invariant(&registry);
        }
        let ghost o = registry@;
        let ComponentRegistry {
            component_ids,
            mut component_database,
            mut entity_masks,
            num_component_types,
            num_entities,
        } = registry;
        let ghost old_db = component_database@;
        let n_cols = component_database.len();
        for k in 0..n_cols
            invariant
                n_cols == old_db.len(),
                component_database@.len() == n_cols,
                forall|p: int|
                    0 <= p < k ==> {
                        &&& (#[trigger] component_database@[p])@.len() == old_db[p]@.len() + 1
                        &&& component_database@[p]@.drop_last() == old_db[p]@
                        &&& !component_database@[p]@.last().stored
                        &&& call_ensures(T::default, (), component_database@[p]@.last().value)
                    },
                forall|p: int| k <= p < n_cols ==> #[trigger] component_database@[p] == old_db[p],
        {
            let filler_value = T::default();
            let filler = ComponentSlot { stored: false, value: filler_value };
            component_database[k].push(filler);
            assert(component_database@[k as int]@.drop_last() =~= old_db[k as int]@);
        }
        entity_masks.push(ComponentMask::empty());
        proof {
            let m = RegistryModel {
                type_ids: component_ids@,
                columns: component_database@.map_values(|c: Vec<ComponentSlot<T>>| c@),
                entity_masks: entity_masks@.map_values(|x: ComponentMask| x@),
            };
            assert(m.entity_masks =~= o.entity_masks.push(0));
            assert forall|p: int| 0 <= p < o.columns.len() implies {
                &&& (#[trigger] m.columns[p]).len() == o.columns[p].len() + 1
                &&& m.columns[p].drop_last() == o.columns[p]
                &&& !m.columns[p].last().stored
            } by {
                assert(m.columns[p] == component_database@[p]@);
                assert(o.columns[p] == old_db[p]@);
            }
            assert forall|p: int| 0 <= p < m.columns.len() implies call_ensures(
                T::default,
                (),
                (#[trigger] m.columns[p]).last().value,
            ) by {
                assert(m.columns[p] == component_database@[p]@);
            }
            assert(o.new_entity_step(m));
            lemma_step_keeps_wf(o, RegistryOp::NewEntity, m);
        }
        *self = ComponentRegistry {
            component_ids,
            component_database,
            entity_masks,
            num_component_types,
            num_entities: num_entities + 1,
        };
        self
    }
}

} // verus!
