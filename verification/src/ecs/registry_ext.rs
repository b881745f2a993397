use std::any::TypeId;
use vstd::prelude::*;

use super::ComponentRegistry;
use super::registry::lemma_slot_of;

verus! {

/// Additional, non-essential functionality.
impl<T> ComponentRegistry<T> {
    /// What the slot of type `id` of the entity created last holds: its component, or the
    /// filler it was created with when it holds none of that type.
    pub fn _peek_last_added_trait(&self, id: TypeId) -> (r: &T)
        requires
            self@.registered(id),
            self@.num_entities() > 0,
        ensures
            *r == self@.slot_at(id, self@.num_entities() - 1).value,
    {
        proof {
            use_type_invariant(self);
        }
        proof {
            lemma_slot_of(self@.type_ids, id);
        }
        let k = match self.slot(&id) {
            Some(k) => k,
            None => vstd::pervasive::unreached(),
        };
        let column = &self.component_database[k];
        assert(column@ == self@.columns[k as int]);
        let last = column.len() - 1;
        &column[last].value
    }
}

} // verus!
