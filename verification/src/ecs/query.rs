use core::ops::BitOrAssign;
use std::any::TypeId;
use vstd::prelude::*;

use super::bits::lemma_has_kind_bit;
use super::laws::{lemma_matching_entities, lemma_union_mask_has};
use super::registry::lemma_slot_of;
use super::{ComponentMask, ComponentRegistry, has_bits, matching_entities};

verus! {

impl<T> ComponentRegistry<T> {
    /// The mask that names every component type of `ids`.
    pub fn query_mask(&self, ids: &Vec<TypeId>) -> (r: ComponentMask)
        requires
            forall|c: int| 0 <= c < ids.len() ==> self@.registered(#[trigger] ids@[c]),
        ensures
            r@ == self@.union_mask(ids@),
    {
        proof {
            use_type_invariant(self);
        }
        let mut out = ComponentMask::empty();
        for i in 0..ids.len()
            invariant
                self.wf(),
                forall|c: int| 0 <= c < ids.len() ==> self@.registered(#[trigger] ids@[c]),
                out@ == self@.union_mask(ids@.take(i as int)),
        {
            assert(ids@.take(i + 1).drop_last() =~= ids@.take(i as int));
            let m = self._mask_of(ids[i]);
            out.bitor_assign(m);
        }
        assert(ids@.take(ids.len() as int) =~= ids@);
        out
    }

    /// The components of types `ids` that entity `eid` holds, in the order of `ids`.
    fn components_of(&self, eid: usize, ids: &Vec<TypeId>) -> (r: Vec<&T>)
        requires
            self.wf(),
            forall|c: int| 0 <= c < ids.len() ==> self@.registered(#[trigger] ids@[c]),
            self@.has_components(eid as int, self@.union_mask(ids@)),
        ensures
            r.len() == ids.len(),
            forall|c: int|
                0 <= c < r.len() ==> Some(*#[trigger] r@[c]) == self@.component(ids@[c], eid as int),
    {
        let ghost m = self@.entity_masks[eid as int];
        proof {
            lemma_union_mask_has(self@, ids@, m);
        }
        let mut row: Vec<&T> = Vec::new();
        for c in 0..ids.len()
            invariant
                self.wf(),
                forall|c: int| 0 <= c < ids.len() ==> self@.registered(#[trigger] ids@[c]),
                eid < self@.num_entities(),
                m == self@.entity_masks[eid as int],
                forall|c: int| 0 <= c < ids.len() ==> has_bits(m, self@.mask_of(#[trigger] ids@[c])),
                row.len() == c,
                forall|k: int|
                    0 <= k < row.len() ==> Some(*#[trigger] row@[k]) == self@.component(ids@[k], eid as int),
        {
            let id = ids[c];
            proof {
                lemma_slot_of(self@.type_ids, id);
                let p = self@.slot(id);
                assert(has_bits(m, self@.mask_of(ids@[c as int])));
                lemma_has_kind_bit(m, p);
            }
            row.push(self.get_component_from_id(id, eid));
        }
        row
    }

    /// The components of types `ids` of entity `eid`, when it exists and holds all of them.
    pub fn query_entity(&self, eid: usize, ids: &Vec<TypeId>) -> (r: Option<Vec<&T>>)
        requires
            forall|c: int| 0 <= c < ids.len() ==> self@.registered(#[trigger] ids@[c]),
        ensures
            r is Some <==> self@.has_components(eid as int, self@.union_mask(ids@)),
            r matches Some(row) ==> row.len() == ids.len() && forall|c: int|
                0 <= c < row.len() ==> Some(*#[trigger] row@[c]) == self@.component(ids@[c], eid as int),
    {
        proof {
            use_type_invariant(self);
        }
        let component_mask = self.query_mask(ids);
        if self.entity_has_components(eid, component_mask) {
            Some(self.components_of(eid, ids))
        } else {
            None
        }
    }

    /// One row per entity that holds every component type of `ids`, in increasing order of
    /// entity id; each row holds that entity's components in the order of `ids`.
    pub fn query_components(&self, ids: &Vec<TypeId>) -> (r: Vec<Vec<&T>>)
        requires
            forall|c: int| 0 <= c < ids.len() ==> self@.registered(#[trigger] ids@[c]),
        ensures
            r.len() == matching_entities(self@.entity_masks, self@.union_mask(ids@)).len(),
            forall|j: int|
                0 <= j < r.len() ==> (#[trigger] r@[j]).len() == ids.len() && forall|c: int|
                    0 <= c < ids.len() ==> Some(*#[trigger] r@[j]@[c]) == self@.component(
                        ids@[c],
                        matching_entities(self@.entity_masks, self@.union_mask(ids@))[j] as int,
                    ),
    {
        proof {
            use_type_invariant(self);
        }
        let component_mask = self.query_mask(ids);
        let filtered_indices = self.mask_filter(component_mask);
        let ghost es = filtered_indices@;
        proof {
            lemma_matching_entities(self@.entity_masks, component_mask@);
        }
        let mut flat_zip: Vec<Vec<&T>> = Vec::new();
        for j in 0..filtered_indices.len()
            invariant
                self.wf(),
                forall|c: int| 0 <= c < ids.len() ==> self@.registered(#[trigger] ids@[c]),
                es == filtered_indices@,
                es == matching_entities(self@.entity_masks, self@.union_mask(ids@)),
                forall|i: int|
                    0 <= i < es.len() ==> #[trigger] es[i] < self@.entity_masks.len() && has_bits(
                        self@.entity_masks[es[i] as int],
                        self@.union_mask(ids@),
                    ),
                flat_zip.len() == j,
                forall|k: int|
                    0 <= k < flat_zip.len() ==> (#[trigger] flat_zip@[k]).len() == ids.len() && forall|c: int|
                        0 <= c < ids.len() ==> Some(*#[trigger] flat_zip@[k]@[c]) == self@.component(
                            ids@[c],
                            es[k] as int,
                        ),
        {
            let eid = filtered_indices[j];
            assert(es[j as int] == eid);
            let row = self.components_of(eid, ids);
            flat_zip.push(row);
        }
        flat_zip
    }
}

} // verus!
