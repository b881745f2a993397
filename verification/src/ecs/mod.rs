use std::any::TypeId;
use vstd::prelude::*;
use vstd::std_specs::ops::BitAndSpecImpl;

pub mod bits;
pub mod laws;
pub mod query;
pub mod registry;
pub mod registry_ext;
pub mod text;

verus! {

/// A hint for how many entities a registry expects; columns reserve this much room.
pub const MAX_ENTITY_CNT: usize = 99;

/// The raw bits of a component mask.
pub type Mask = u32;

/// A set of component kinds, one bit per registered kind.
#[derive(PartialEq, Eq, Structural, Clone, Copy, Debug)]
pub struct ComponentMask(Mask);

impl View for ComponentMask {
    type V = Mask;

    closed spec fn view(&self) -> Mask {
        self.0
    }
}

/// The mask bit of the component kind registered at position `slot`.
pub open spec fn kind_bit(slot: int) -> Mask {
    1u32 << (slot as u32)
}

/// Bit `p` of `m` is set.
pub open spec fn bit_is_set(m: Mask, p: int) -> bool {
    m & kind_bit(p) != 0
}

/// `m` names every component that `f` names.
pub open spec fn has_bits(m: Mask, f: Mask) -> bool {
    m & f == f
}

impl core::ops::BitOrAssign for ComponentMask {
    fn bitor_assign(&mut self, rhs: Self)
        ensures
            final(self)@ == old(self)@ | rhs@,
    {
        self.0 = self.0 | rhs.0;
    }
}

impl core::ops::BitAnd for ComponentMask {
    type Output = Self;

    fn bitand(self, rhs: Self) -> (r: Self)
        ensures
            r@ == self@ & rhs@,
    {
        ComponentMask(self.0 & rhs.0)
    }
}

impl BitAndSpecImpl for ComponentMask {
    open spec fn obeys_bitand_spec() -> bool {
        true
    }

    open spec fn bitand_req(self, rhs: Self) -> bool {
        true
    }

    closed spec fn bitand_spec(self, rhs: Self) -> Self {
        ComponentMask(self.0 & rhs.0)
    }
}

/// The digit of bit `i` of `m`.
pub open spec fn bit_char(m: Mask, i: int) -> char {
    if (m >> (i as u32)) & 1 == 1 {
        '1'
    } else {
        '0'
    }
}

/// How many binary digits `m` is written with: its significant digits, padded with
/// leading zeros to at least 30 (32 characters with the `0b` prefix).
pub open spec fn digit_count(m: Mask) -> nat {
    if m >= 0x8000_0000 {
        32
    } else if m >= 0x4000_0000 {
        31
    } else {
        30
    }
}

/// The text of a mask: `Mask: 0b` and then its binary digits, most significant first.
pub open spec fn mask_text(m: Mask) -> Seq<char> {
    seq!['M', 'a', 's', 'k', ':', ' ', '0', 'b'] + Seq::new(
        digit_count(m),
        |j: int| bit_char(m, digit_count(m) - 1 - j),
    )
}

impl ComponentMask {
    /// The mask that names no component.
    pub fn empty() -> (m: ComponentMask)
        ensures
            m@ == 0,
    {
        ComponentMask(0)
    }

    /// Whether this mask names every component that `f_mask` names.
    pub fn has(&self, f_mask: &ComponentMask) -> (r: bool)
        ensures
            r == has_bits(self@, f_mask@),
    {
        if (self.0 & f_mask.0) == f_mask.0 {
            true
        } else {
            false
        }
    }

    /// The mask written as `Mask: 0b` followed by its bits, zero-padded to 32 characters
    /// with the prefix (Rust's `{:#032b}`).
    pub fn debug_string(&self) -> (s: String)
        ensures
            s@ == mask_text(self@),
            s@.subrange(0, 8) == seq!['M', 'a', 's', 'k', ':', ' ', '0', 'b'],
            30 <= s@.len() - 8 <= 32,
            forall|j: int| 8 <= j < s@.len() ==> #[trigger] s@[j] == '0' || s@[j] == '1',
            text::binary_value(s@.subrange(8, s@.len() as int)) == self@ as nat,
            s@.len() - 8 > 30 ==> s@[8] == '1',
    {
        let m = self.0;
        let mut s = String::from_str("Mask: 0b");
        proof {
            reveal_strlit("Mask: 0b");
        }
        let w: u32 = if m >= 0x8000_0000 {
            32
        } else if m >= 0x4000_0000 {
            31
        } else {
            30
        };
        assert(w == digit_count(m));
        let ghost prefix = seq!['M', 'a', 's', 'k', ':', ' ', '0', 'b'];
        assert(s@ =~= prefix);
        let mut i: u32 = w;
        while i > 0
            invariant
                i <= w,
                w == digit_count(m),
                m == self@,
                s@ =~= prefix + Seq::new((w - i) as nat, |j: int| bit_char(m, w - 1 - j)),
            decreases i,
        {
            i = i - 1;
            let ghost before = s@;
            let ghost digit = bit_char(m, i as int);
            proof {
                reveal_strlit("0");
                reveal_strlit("1");
            }
            if (m >> i) & 1 == 1 {
                s.append("1");
                assert(digit == '1');
            } else {
                s.append("0");
                assert(digit == '0');
            }
            assert(s@ =~= before.push(digit));
            assert(s@ =~= prefix + Seq::new((w - i) as nat, |j: int| bit_char(m, w - 1 - j)));
        }
        assert(mask_text(m) =~= prefix + Seq::new(w as nat, |j: int| bit_char(m, w - 1 - j)));
        proof {
            text::lemma_mask_text_reads_back(m);
        }
        s
    }
}

/// `std::any::TypeId`, the identity of a component type. Verus sees nothing inside it.
#[verifier::external_type_specification]
#[verifier::external_body]
pub struct ExTypeId(TypeId);

/// Calls `<TypeId as PartialEq>::eq`. Trusted: two type ids compare equal exactly when
/// they are the same value.
#[verifier::external_body]
pub(crate) fn same_type(a: &TypeId, b: &TypeId) -> (r: bool)
    ensures
        r == (*a == *b),
{
    *a == *b
}

/// The position at which `id` was last registered in `ids`, or -1 when it never was.
/// A kind registered twice is known by its last registration.
pub open spec fn slot_of(ids: Seq<TypeId>, id: TypeId) -> int
    decreases ids.len(),
{
    if ids.len() == 0 {
        -1
    } else if ids.last() == id {
        ids.len() - 1
    } else {
        slot_of(ids.drop_last(), id)
    }
}

/// The entities, in increasing order, whose mask names every component of `f`.
pub open spec fn matching_entities(masks: Seq<Mask>, f: Mask) -> Seq<usize>
    decreases masks.len(),
{
    if masks.len() == 0 {
        Seq::empty()
    } else {
        let rest = matching_entities(masks.drop_last(), f);
        if has_bits(masks.last(), f) {
            rest.push((masks.len() - 1) as usize)
        } else {
            rest
        }
    }
}

/// The first `k` ids of `ids` are those that a single pass over entities `0..n`, which
/// takes the next wanted id whenever the pass reaches it, meets: strictly increasing and
/// each below `n`.
pub open spec fn is_scan_prefix(ids: Seq<usize>, n: nat, k: int) -> bool {
    &&& 0 <= k <= ids.len()
    &&& forall|i: int| 0 <= i < k ==> #[trigger] ids[i] < n
    &&& forall|i: int, j: int| 0 <= i < j < k ==> #[trigger] ids[i] < #[trigger] ids[j]
}

/// Such a pass never meets id `k`: there is none, it lies past the last entity, or it is
/// not above the id before it.
pub open spec fn scan_stops_at(ids: Seq<usize>, n: nat, k: int) -> bool {
    ||| k == ids.len()
    ||| ids[k] >= n
    ||| (k > 0 && ids[k] <= ids[k - 1])
}

/// One entity's slot in a column: the value it holds, and whether that value is a
/// component given to the entity (`stored`) or the filler that a new entity starts with.
#[derive(Debug)]
pub struct ComponentSlot<T> {
    pub stored: bool,
    pub value: T,
}

/// What a registry holds: the registered component types in the order of registration,
/// one column of slots per registration (one slot per entity), and one mask per entity.
pub struct RegistryModel<T> {
    pub type_ids: Seq<TypeId>,
    pub columns: Seq<Seq<ComponentSlot<T>>>,
    pub entity_masks: Seq<Mask>,
}

/// A change made to a registry after it was created.
pub enum RegistryOp<T> {
    NewEntity,
    WithComponent(TypeId, T),
    DeleteEntity(usize),
}

/// How many entities the changes `ops` create.
pub open spec fn new_entity_count<T>(ops: Seq<RegistryOp<T>>) -> nat
    decreases ops.len(),
{
    if ops.len() == 0 {
        0
    } else {
        new_entity_count(ops.drop_last()) + if ops.last() is NewEntity {
            1nat
        } else {
            0nat
        }
    }
}

/// The component of type `id` that the changes `ops` last gave entity `eid`: each
/// `WithComponent` gives it to the entity created last before it.
pub open spec fn last_write<T>(ops: Seq<RegistryOp<T>>, id: TypeId, eid: int) -> Option<T>
    decreases ops.len(),
{
    if ops.len() == 0 {
        None
    } else {
        let prev = ops.drop_last();
        match ops.last() {
            RegistryOp::WithComponent(i, c) => if i == id && eid == new_entity_count(prev) - 1 {
                Some(c)
            } else {
                last_write(prev, id, eid)
            },
            _ => last_write(prev, id, eid),
        }
    }
}

impl<T> RegistryModel<T> {
    pub open spec fn num_entities(self) -> nat {
        self.entity_masks.len()
    }

    pub open spec fn num_kinds(self) -> nat {
        self.type_ids.len()
    }

    pub open spec fn slot(self, id: TypeId) -> int {
        slot_of(self.type_ids, id)
    }

    pub open spec fn registered(self, id: TypeId) -> bool {
        self.slot(id) >= 0
    }

    /// The mask that names the component type `id`.
    pub open spec fn mask_of(self, id: TypeId) -> Mask {
        kind_bit(self.slot(id))
    }

    /// The slot of type `id` of entity `eid`.
    pub open spec fn slot_at(self, id: TypeId, eid: int) -> ComponentSlot<T> {
        self.columns[self.slot(id)][eid]
    }

    /// The component of type `id` that entity `eid` holds, if any.
    pub open spec fn component(self, id: TypeId, eid: int) -> Option<T> {
        if self.slot_at(id, eid).stored {
            Some(self.slot_at(id, eid).value)
        } else {
            None
        }
    }

    /// Entity `eid` exists and its mask names every component of `m`.
    pub open spec fn has_components(self, eid: int, m: Mask) -> bool {
        &&& 0 <= eid < self.num_entities()
        &&& has_bits(self.entity_masks[eid], m)
    }

    /// The union of the masks of the component types `ids`.
    pub open spec fn union_mask(self, ids: Seq<TypeId>) -> Mask
        decreases ids.len(),
    {
        if ids.len() == 0 {
            0
        } else {
            self.union_mask(ids.drop_last()) | self.mask_of(ids.last())
        }
    }

    /// At most 32 registrations (one bit each); every column has one slot per entity;
    /// a bit set in an entity's mask belongs to a registration whose column holds a
    /// component for that entity.
    pub open spec fn wf(self) -> bool {
        &&& self.type_ids.len() <= 32
        &&& self.columns.len() == self.type_ids.len()
        &&& forall|p: int| 0 <= p < self.columns.len() ==> #[trigger] self.columns[p].len() == self.entity_masks.len()
        &&& forall|e: int, p: int|
            0 <= e < self.entity_masks.len() && 0 <= p < 32 && #[trigger] bit_is_set(self.entity_masks[e], p)
                ==> p < self.type_ids.len() && self.columns[p][e].stored
    }

    /// `post` is this registry after `new_entity`: one more entity, with an empty mask and
    /// a filler slot in every column.
    pub open spec fn new_entity_step(self, post: Self) -> bool {
        &&& post.type_ids == self.type_ids
        &&& post.entity_masks == self.entity_masks.push(0)
        &&& post.columns.len() == self.columns.len()
        &&& forall|p: int|
            0 <= p < self.columns.len() ==> {
                &&& (#[trigger] post.columns[p]).len() == self.columns[p].len() + 1
                &&& post.columns[p].drop_last() == self.columns[p]
                &&& !post.columns[p].last().stored
            }
    }

    /// `post` is this registry after `with_component(id, c)`: the entity created last
    /// holds `c` as its component of type `id`, and its mask names that type.
    pub open spec fn with_component_step(self, id: TypeId, c: T, post: Self) -> bool {
        let k = self.slot(id);
        let e = self.num_entities() - 1;
        &&& self.registered(id)
        &&& self.num_entities() > 0
        &&& post.type_ids == self.type_ids
        &&& post.columns == self.columns.update(
            k,
            self.columns[k].update(e, ComponentSlot { stored: true, value: c }),
        )
        &&& post.entity_masks == self.entity_masks.update(e, self.entity_masks[e] | self.mask_of(id))
    }

    /// `post` is this registry after `delete_entity(eid)`: the entity's mask is empty, if it
    /// exists; nothing else changes.
    pub open spec fn delete_step(self, eid: usize, post: Self) -> bool {
        &&& post.type_ids == self.type_ids
        &&& post.columns == self.columns
        &&& post.entity_masks == if eid < self.num_entities() {
            self.entity_masks.update(eid as int, 0)
        } else {
            self.entity_masks
        }
    }

    /// `post` is this registry after the change `op`.
    pub open spec fn step(self, op: RegistryOp<T>, post: Self) -> bool {
        match op {
            RegistryOp::NewEntity => self.new_entity_step(post),
            RegistryOp::WithComponent(id, c) => self.with_component_step(id, c, post),
            RegistryOp::DeleteEntity(eid) => self.delete_step(eid, post),
        }
    }
}

/// A registry of entities and of the components they hold, one column per registered
/// component type.
///
/// Types are looked up in `component_ids` by a scan from the end, and a type's column and
/// mask bit are found by its position. vstd specifies `HashMap` only for keys whose hashing
/// and equality it models, which `TypeId` is not, so the map from type to column is this
/// list of positions; the last registration of a type wins, as a map insert would.
#[derive(Debug)]
pub struct ComponentRegistry<T> {
    component_ids: Vec<TypeId>,
    component_database: Vec<Vec<ComponentSlot<T>>>,
    entity_masks: Vec<ComponentMask>,
    num_component_types: usize,
    num_entities: usize,
}

impl<T> View for ComponentRegistry<T> {
    type V = RegistryModel<T>;

    closed spec fn view(&self) -> RegistryModel<T> {
        RegistryModel {
            type_ids: self.component_ids@,
            columns: self.component_database@.map_values(|c: Vec<ComponentSlot<T>>| c@),
            entity_masks: self.entity_masks@.map_values(|m: ComponentMask| m@),
        }
    }
}

impl<T> ComponentRegistry<T> {
    /// The registry's counters agree with what it holds, and its model is well formed.
    /// Every registry keeps this at all times.
    #[verifier::type_invariant]
    pub closed spec fn wf(&self) -> bool {
        &&& self@.wf()
        &&& self.num_component_types == self.component_ids.len()
        &&& self.num_entities == self.entity_masks.len()
    }

    /// A well-formed registry (every registry, by its type invariant) has a well-formed
    /// model, so the laws about models apply.
    pub proof fn lemma_wf_model(&self)
        requires
            self.wf(),
        ensures
            self@.wf(),
    {
    }
}

} // verus!
