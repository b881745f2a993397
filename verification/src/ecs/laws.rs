use std::any::TypeId;
use vstd::prelude::*;

use super::bits::{
    lemma_empty_has_only_empty, lemma_empty_no_bits, lemma_has_empty_and_self, lemma_has_kind_bit,
    lemma_has_union, lemma_kind_bits_disjoint, lemma_set_kind_bit,
};
use super::registry::lemma_slot_of;
use super::{
    Mask, RegistryModel, RegistryOp, bit_is_set, has_bits, is_scan_prefix,
    last_write, matching_entities, new_entity_count, scan_stops_at,
};

verus! {

/// What `mask_filter` returns is exact: strictly increasing entity ids, each of an entity
/// whose mask names `f`, and every such entity among them.
pub proof fn lemma_matching_entities(masks: Seq<Mask>, f: Mask)
    requires
        masks.len() <= usize::MAX,
    ensures
        forall|i: int, j: int|
            0 <= i < j < matching_entities(masks, f).len() ==> #[trigger] matching_entities(masks, f)[i]
                < #[trigger] matching_entities(masks, f)[j],
        forall|i: int|
            0 <= i < matching_entities(masks, f).len() ==> #[trigger] matching_entities(masks, f)[i]
                < masks.len() && has_bits(masks[matching_entities(masks, f)[i] as int], f),
        forall|e: int|
            0 <= e < masks.len() && has_bits(#[trigger] masks[e], f) ==> matching_entities(
                masks,
                f,
            ).contains(e as usize),
    decreases masks.len(),
{
    if masks.len() > 0 {
        let rest = masks.drop_last();
        lemma_matching_entities(rest, f);
        let r = matching_entities(masks, f);
        let rr = matching_entities(rest, f);
        assert forall|i: int| 0 <= i < rr.len() implies #[trigger] rr[i] < rest.len() && has_bits(
            masks[rr[i] as int],
            f,
        ) by {
            assert(rest[rr[i] as int] == masks[rr[i] as int]);
        }
        assert forall|e: int| 0 <= e < masks.len() && has_bits(#[trigger] masks[e], f) implies r.contains(
            e as usize,
        ) by {
            if e < rest.len() {
                assert(rest[e] == masks[e]);
                assert(rr.contains(e as usize));
                let k = choose|k: int| 0 <= k < rr.len() && rr[k] == e as usize;
                assert(r[k] == e as usize);
            } else {
                assert(r[r.len() - 1] == e as usize);
            }
        }
    }
}

/// A mask names the union of the masks of several component types exactly when it
/// names the mask of each of them.
pub proof fn lemma_union_mask_has<T>(model: RegistryModel<T>, ids: Seq<TypeId>, m: Mask)
    ensures
        has_bits(m, model.union_mask(ids)) <==> forall|c: int|
            0 <= c < ids.len() ==> has_bits(m, model.mask_of(#[trigger] ids[c])),
    decreases ids.len(),
{
    lemma_has_empty_and_self(m);
    if ids.len() > 0 {
        let rest = ids.drop_last();
        lemma_union_mask_has(model, rest, m);
        lemma_has_union(m, model.union_mask(rest), model.mask_of(ids.last()));
        if has_bits(m, model.union_mask(ids)) {
            assert forall|c: int| 0 <= c < ids.len() implies has_bits(m, model.mask_of(#[trigger] ids[c])) by {
                if c < rest.len() {
                    assert(rest[c] == ids[c]);
                }
            }
        }
        if forall|c: int| 0 <= c < ids.len() ==> has_bits(m, model.mask_of(#[trigger] ids[c])) {
            assert forall|c: int| 0 <= c < rest.len() implies has_bits(m, model.mask_of(#[trigger] rest[c])) by {
                assert(rest[c] == ids[c]);
            }
            assert(has_bits(m, model.mask_of(ids[ids.len() - 1])));
        }
    }
}

/// An entity whose mask is empty (a deleted one) is in no query's result but that of
/// the empty mask.
pub proof fn lemma_cleared_entity_unmatched(masks: Seq<Mask>, eid: int, f: Mask)
    requires
        masks.len() <= usize::MAX,
        0 <= eid < masks.len(),
        masks[eid] == 0,
        f != 0,
    ensures
        !matching_entities(masks, f).contains(eid as usize),
{
    lemma_matching_entities(masks, f);
    lemma_empty_has_only_empty(f);
    let r = matching_entities(masks, f);
    if r.contains(eid as usize) {
        let k = choose|k: int| 0 <= k < r.len() && r[k] == eid as usize;
        assert(has_bits(masks[r[k] as int], f));
    }
}

/// Each registered component type has a mask of its own: a single bit, which no other
/// registered type shares.
pub proof fn lemma_kind_masks_disjoint<T>(model: RegistryModel<T>, a: TypeId, b: TypeId)
    requires
        model.wf(),
        model.registered(a),
        model.registered(b),
    ensures
        model.mask_of(a) != 0,
        a != b ==> model.mask_of(a) & model.mask_of(b) == 0,
{
    lemma_slot_of(model.type_ids, a);
    lemma_slot_of(model.type_ids, b);
    lemma_kind_bits_disjoint(model.slot(a), model.slot(b));
}

/// The entities that `mask_filter` returns are exactly what `id_filter` walks through in
/// full: strictly increasing and each below the number of entities.
pub proof fn lemma_filtered_ids_scan_whole(masks: Seq<Mask>, f: Mask)
    requires
        masks.len() <= usize::MAX,
    ensures
        is_scan_prefix(
            matching_entities(masks, f),
            masks.len(),
            matching_entities(masks, f).len() as int,
        ),
        scan_stops_at(matching_entities(masks, f), masks.len(), matching_entities(masks, f).len() as int),
{
    lemma_matching_entities(masks, f);
}

/// A mask bit of an entity after `new_entity` has a stored component behind it.
proof fn lemma_new_entity_bit<T>(pre: RegistryModel<T>, post: RegistryModel<T>, e: int, p: int)
    requires
        pre.wf(),
        pre.new_entity_step(post),
        0 <= e < post.entity_masks.len(),
        0 <= p < 32,
        bit_is_set(post.entity_masks[e], p),
    ensures
        p < post.type_ids.len(),
        post.columns[p][e].stored,
{
    if e == pre.entity_masks.len() {
        lemma_empty_no_bits(p);
    } else {
        assert(post.entity_masks[e] == pre.entity_masks[e]);
        assert(pre.columns[p][e].stored);
        assert(post.columns[p].drop_last() == pre.columns[p]);
        assert(post.columns[p][e] == post.columns[p].drop_last()[e]);
    }
}

/// Every change keeps a registry well formed.
pub proof fn lemma_step_keeps_wf<T>(pre: RegistryModel<T>, op: RegistryOp<T>, post: RegistryModel<T>)
    requires
        pre.wf(),
        pre.step(op, post),
    ensures
        post.wf(),
{
    match op {
        RegistryOp::NewEntity => {
            assert forall|p: int| 0 <= p < post.columns.len() implies #[trigger] post.columns[p].len()
                == post.entity_masks.len() by {
                assert(post.columns[p].len() == pre.columns[p].len() + 1);
                assert(pre.columns[p].len() == pre.entity_masks.len());
            }
            assert forall|e: int, p: int|
                0 <= e < post.entity_masks.len() && 0 <= p < 32 && #[trigger] bit_is_set(
                    post.entity_masks[e],
                    p,
                ) implies p < post.type_ids.len() && post.columns[p][e].stored by {
                lemma_new_entity_bit(pre, post, e, p);
            }
        },
        RegistryOp::WithComponent(id, c) => {
            lemma_slot_of(pre.type_ids, id);
            let k = pre.slot(id);
            let e = pre.num_entities() - 1;
            assert forall|p: int| 0 <= p < post.columns.len() implies #[trigger] post.columns[p].len()
                == post.entity_masks.len() by {
                assert(pre.columns[p].len() == pre.entity_masks.len());
            }
            assert forall|ee: int, p: int|
                0 <= ee < post.entity_masks.len() && 0 <= p < 32 && #[trigger] bit_is_set(
                    post.entity_masks[ee],
                    p,
                ) implies p < post.type_ids.len() && post.columns[p][ee].stored by {
                if ee == e {
                    lemma_set_kind_bit(pre.entity_masks[ee], k, p);
                    if p != k {
                        assert(bit_is_set(pre.entity_masks[ee], p));
                        assert(pre.columns[p][ee].stored);
                    }
                } else {
                    assert(bit_is_set(pre.entity_masks[ee], p));
                    assert(pre.columns[p][ee].stored);
                }
            }
        },
        RegistryOp::DeleteEntity(eid) => {
            assert forall|e: int, p: int|
                0 <= e < post.entity_masks.len() && 0 <= p < 32 && #[trigger] bit_is_set(
                    post.entity_masks[e],
                    p,
                ) implies p < post.type_ids.len() && post.columns[p][e].stored by {
                if eid < pre.num_entities() && e == eid {
                    lemma_empty_no_bits(p);
                } else {
                    assert(post.entity_masks[e] == pre.entity_masks[e]);
                    assert(bit_is_set(pre.entity_masks[e], p));
                    assert(pre.columns[p][e].stored);
                }
            }
            assert forall|p: int| 0 <= p < post.columns.len() implies #[trigger] post.columns[p].len()
                == post.entity_masks.len() by {
                assert(pre.columns[p].len() == pre.entity_masks.len());
            }
        },
    }
}

/// In a well-formed registry an entity whose mask names a registered type holds a
/// component of that type, so reading it cannot fail.
pub proof fn lemma_held_components_readable<T>(model: RegistryModel<T>, id: TypeId, eid: int)
    requires
        model.wf(),
        model.registered(id),
        model.has_components(eid, model.mask_of(id)),
    ensures
        model.component(id, eid) is Some,
{
    lemma_slot_of(model.type_ids, id);
    lemma_has_kind_bit(model.entity_masks[eid], model.slot(id));
}

/// A run of changes from a registry with no entity: every state is well formed, keeps the
/// registered types, and has exactly as many entities as the changes created (deleting
/// one never lowers the count, so ids are never reused).
pub proof fn lemma_trace_entity_count<T>(states: Seq<RegistryModel<T>>, ops: Seq<RegistryOp<T>>)
    requires
        states.len() == ops.len() + 1,
        states[0].wf(),
        states[0].num_entities() == 0,
        forall|i: int| 0 <= i < ops.len() ==> #[trigger] states[i].step(ops[i], states[i + 1]),
    ensures
        states.last().wf(),
        states.last().type_ids == states[0].type_ids,
        states.last().num_entities() == new_entity_count(ops),
    decreases ops.len(),
{
    if ops.len() > 0 {
        let n = ops.len() - 1;
        let ps = states.drop_last();
        let po = ops.drop_last();
        assert forall|i: int| 0 <= i < po.len() implies #[trigger] ps[i].step(po[i], ps[i + 1]) by {
            assert(states[i].step(ops[i], states[i + 1]));
        }
        lemma_trace_entity_count(ps, po);
        assert(ps.last() == states[n]);
        assert(states[n].step(ops[n], states[n + 1]));
        lemma_step_keeps_wf(states[n], ops[n], states[n + 1]);
    }
}

/// No change gives a component to an entity that did not exist yet.
proof fn lemma_last_write_past_end<T>(ops: Seq<RegistryOp<T>>, id: TypeId, eid: int)
    requires
        eid >= new_entity_count(ops),
    ensures
        last_write(ops, id, eid) is None,
    decreases ops.len(),
{
    if ops.len() > 0 {
        lemma_last_write_past_end(ops.drop_last(), id, eid);
    }
}

/// Read after write: along a run of changes from a registry with no entity, the component
/// of type `id` that an entity holds is the one the last `with_component` of that type
/// gave it while it was the entity created last (and none if no such call was made).
pub proof fn lemma_trace_read_back<T>(
    states: Seq<RegistryModel<T>>,
    ops: Seq<RegistryOp<T>>,
    id: TypeId,
    eid: int,
)
    requires
        states.len() == ops.len() + 1,
        states[0].wf(),
        states[0].num_entities() == 0,
        states[0].registered(id),
        forall|i: int| 0 <= i < ops.len() ==> #[trigger] states[i].step(ops[i], states[i + 1]),
        0 <= eid < states.last().num_entities(),
    ensures
        states.last().component(id, eid) == last_write(ops, id, eid),
    decreases ops.len(),
{
    lemma_trace_entity_count(states, ops);
    if ops.len() > 0 {
        let n = ops.len() - 1;
        let ps = states.drop_last();
        let po = ops.drop_last();
        assert forall|i: int| 0 <= i < po.len() implies #[trigger] ps[i].step(po[i], ps[i + 1]) by {
            assert(states[i].step(ops[i], states[i + 1]));
        }
        lemma_trace_entity_count(ps, po);
        let pre = states[n];
        let post = states[n + 1];
        assert(ps.last() == pre);
        assert(post == states.last());
        assert(pre.step(ops[n], post));
        lemma_slot_of(pre.type_ids, id);
        let k = pre.slot(id);
        if eid < pre.num_entities() {
            lemma_trace_read_back(ps, po, id, eid);
        } else {
            lemma_last_write_past_end(po, id, eid);
        }
        match ops[n] {
            RegistryOp::NewEntity => {
                assert(post.columns[k].drop_last() == pre.columns[k]);
                if eid < pre.num_entities() {
                    assert(post.columns[k][eid] == post.columns[k].drop_last()[eid]);
                }
            },
            RegistryOp::WithComponent(i, c) => {
                lemma_slot_of(pre.type_ids, i);
                if i != id {
                    assert(pre.slot(i) != k);
                }
            },
            RegistryOp::DeleteEntity(d) => {},
        }
    }
}

} // verus!
