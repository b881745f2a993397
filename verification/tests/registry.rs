use std::any::{Any, TypeId};
use std::cell::{RefCell, RefMut};
use std::rc::Rc;

use yaecs::ecs::ComponentMask;
use yaecs::ComponentRegistry;

/// A type-erased component cell; a new entity's slots hold a `0u8` cell.
struct Slot(Rc<RefCell<dyn Any>>);

impl Default for Slot {
    fn default() -> Self {
        Slot(Rc::new(RefCell::new(0u8)))
    }
}

type Registry = ComponentRegistry<Slot>;

struct SimpleComponent(f32);

#[allow(dead_code)]
struct ComplexComponent(f32, f32, Vec<f32>);

#[allow(dead_code)]
struct FillerComponentA(i64);
struct FillerComponentB(i64);
struct FillerComponentC(i64);
struct FillerComponentD(i64);

fn slot<C: Any>(c: C) -> Slot {
    Slot(Rc::new(RefCell::new(c)))
}

fn six_kinds() -> Vec<TypeId> {
    vec![
        TypeId::of::<SimpleComponent>(),
        TypeId::of::<ComplexComponent>(),
        TypeId::of::<FillerComponentA>(),
        TypeId::of::<FillerComponentB>(),
        TypeId::of::<FillerComponentC>(),
        TypeId::of::<FillerComponentD>(),
    ]
}

fn build() -> Registry {
    ComponentRegistry::new(six_kinds())
}

fn downcast<C: Any>(s: &Slot) -> RefMut<'_, C> {
    RefMut::map(s.0.borrow_mut(), |c| c.downcast_mut::<C>().unwrap())
}

/// What `query_entity!(registry[eid]: C)` does: the single component, when the entity holds it.
fn query_one<C: Any>(registry: &Registry, eid: usize) -> Option<RefMut<'_, C>> {
    registry
        .query_entity(eid, &vec![TypeId::of::<C>()])
        .map(|row| downcast::<C>(row[0]))
}

struct Container {
    pub reg: Registry,
}

impl Container {
    pub fn do_query(&self) {
        let query = self.reg.query_components(&vec![
            TypeId::of::<SimpleComponent>(),
            TypeId::of::<FillerComponentA>(),
        ]);
        for row in query {
            let simple = downcast::<SimpleComponent>(row[0]);
            assert!((*simple).0 == 7.7);
        }
    }
}

#[test]
fn test_build_registry() {
    let registry = build();
    assert!(registry.num_registered_components() == 6 as usize);
}

#[test]
fn test_adding_components() {
    let mut registry = build();
    let my_entity = registry
        .new_entity()
        .with_component(TypeId::of::<SimpleComponent>(), slot(SimpleComponent(7.7)))
        .save_id();
    {
        let q = query_one::<SimpleComponent>(&registry, my_entity);
        let q = q.unwrap();
        assert!(q.0 == 7.7);
    }
}

#[test]
fn test_modifying_components() {
    let mut registry = build();
    let my_entity = registry
        .new_entity()
        .with_component(TypeId::of::<SimpleComponent>(), slot(SimpleComponent(7.7)))
        .with_component(
            TypeId::of::<ComplexComponent>(),
            slot(ComplexComponent(22.22, 33.33, vec![99.7, 113.0])),
        )
        .save_id();
    {
        let mut q = query_one::<SimpleComponent>(&registry, my_entity).unwrap();
        (*q).0 = 1234.4321;
    }
    {
        let q = query_one::<SimpleComponent>(&registry, my_entity).unwrap();
        assert!(q.0 == 1234.4321);
    }
    {
        let ids = vec![TypeId::of::<SimpleComponent>(), TypeId::of::<ComplexComponent>()];
        let row = registry.query_entity(my_entity, &ids).unwrap();
        let mut s = downcast::<SimpleComponent>(row[0]);
        let mut c = downcast::<ComplexComponent>(row[1]);
        (*s).0 = 9.9;
        (*c).0 = 5.5;
        (*c).1 = 5.5;
    }
    {
        // entity 2 does not exist
        let ids = vec![TypeId::of::<SimpleComponent>(), TypeId::of::<ComplexComponent>()];
        let q2 = registry.query_entity(2, &ids);
        assert!(q2.is_none());
    }
}

#[test]
fn test_identifier() {
    let mut container = Container { reg: build() };
    container
        .reg
        .new_entity()
        .with_component(TypeId::of::<SimpleComponent>(), slot(SimpleComponent(7.7)))
        .with_component(TypeId::of::<FillerComponentA>(), slot(FillerComponentA(1)));
    container.do_query();
}

#[test]
fn test_removing_components() {
    let mut registry = build();
    let simple = TypeId::of::<SimpleComponent>();
    let my_entity = registry.new_entity().with_component(simple, slot(SimpleComponent(8.8))).save_id();
    for _ in 0..5 {
        registry.new_entity().with_component(simple, slot(SimpleComponent(7.7))).save_id();
    }
    {
        let query = query_one::<SimpleComponent>(&registry, my_entity);
        assert!(query.is_none() != true);
    }
    {
        let got_deleted = registry.delete_entity(my_entity);
        assert!(got_deleted);
        let query = query_one::<SimpleComponent>(&registry, my_entity);
        assert!(query.is_none());
    }
    {
        let query = registry.query_components(&vec![simple]);
        assert!(query.len() == 5);
        for row in query {
            assert!((*downcast::<SimpleComponent>(row[0])).0 == 7.7);
        }
    }
}

// ---- further scenarios ----

#[test]
fn empty_mask_names_nothing_and_is_named_by_all() {
    let e = ComponentMask::empty();
    assert!(e.has(&e));
    let registry = build();
    let m = registry._mask_of(TypeId::of::<SimpleComponent>());
    assert!(m.has(&e));
    assert!(!e.has(&m));
}

#[test]
fn masks_are_one_bit_per_position() {
    let registry = build();
    let a = registry._mask_of(TypeId::of::<SimpleComponent>());
    let b = registry._mask_of(TypeId::of::<ComplexComponent>());
    let d = registry._mask_of(TypeId::of::<FillerComponentD>());
    assert!(a == registry.query_mask(&vec![TypeId::of::<SimpleComponent>()]));
    assert!((a & b) == ComponentMask::empty());
    let mut ab = a;
    ab |= b;
    assert!(ab.has(&a) && ab.has(&b) && !ab.has(&d));
    assert!(ab == registry.query_mask(&vec![TypeId::of::<ComplexComponent>(), TypeId::of::<SimpleComponent>()]));
    assert!(format!("{:?}", d) != format!("{:?}", a));
}

#[test]
fn duplicate_registration_uses_last_position() {
    let ids = vec![
        TypeId::of::<SimpleComponent>(),
        TypeId::of::<FillerComponentB>(),
        TypeId::of::<SimpleComponent>(),
    ];
    let registry: Registry = ComponentRegistry::new(ids);
    assert_eq!(registry.num_registered_components(), 3);
    let s = registry._mask_of(TypeId::of::<SimpleComponent>());
    let b = registry._mask_of(TypeId::of::<FillerComponentB>());
    let mut both = s;
    both |= b;
    assert!((s & b) == ComponentMask::empty());
    let q = registry.query_mask(&vec![TypeId::of::<FillerComponentB>(), TypeId::of::<SimpleComponent>()]);
    assert!(q == both);
    assert!(q.has(&ComponentMask::empty()));
}

#[test]
fn new_entity_counts_and_ids() {
    let mut registry = build();
    assert_eq!(registry.num_entities(), 0);
    registry.new_entity();
    registry.new_entity();
    assert_eq!(registry.num_entities(), 2);
    assert_eq!(registry.save_id(), 1);
    // a new entity holds nothing: its slots hold the filler cell
    let filler = registry._peek_last_added_trait(TypeId::of::<SimpleComponent>());
    assert_eq!(*downcast::<u8>(filler), 0);
    assert!(!registry.holds_component(TypeId::of::<SimpleComponent>(), 1));
    assert!(registry.entity_has_components(1, ComponentMask::empty()));
    assert!(!registry.entity_has_components(2, ComponentMask::empty()));
}

#[test]
fn with_component_then_read_back() {
    let mut registry = build();
    let b = TypeId::of::<FillerComponentB>();
    registry.new_entity().with_component(b, slot(FillerComponentB(41)));
    assert!(registry.holds_component(b, 0));
    assert!(!registry.holds_component(b, 1));
    let last = registry._peek_last_added_trait(b);
    assert_eq!(downcast::<FillerComponentB>(last).0, 41);
    let got = registry.get_component_from_id(b, 0);
    assert_eq!(downcast::<FillerComponentB>(got).0, 41);
    // replacing keeps one component of that type
    registry.with_component(b, slot(FillerComponentB(42)));
    assert_eq!(downcast::<FillerComponentB>(registry.get_component_from_id(b, 0)).0, 42);
    let mb = registry._mask_of(b);
    assert!(registry.entity_has_components(0, mb));
}

#[test]
fn mask_filter_lists_matching_entities_in_order() {
    let mut registry = build();
    let a = TypeId::of::<FillerComponentA>();
    let c = TypeId::of::<FillerComponentC>();
    registry.new_entity().with_component(a, slot(FillerComponentA(0)));
    registry.new_entity().with_component(c, slot(FillerComponentC(1)));
    registry.new_entity().with_component(a, slot(FillerComponentA(2))).with_component(c, slot(FillerComponentC(2)));
    registry.new_entity();
    let ma = registry._mask_of(a);
    let mc = registry._mask_of(c);
    let mut both = ma;
    both |= mc;
    assert_eq!(registry.mask_filter(ma), vec![0, 2]);
    assert_eq!(registry.mask_filter(mc), vec![1, 2]);
    assert_eq!(registry.mask_filter(both), vec![2]);
    assert_eq!(registry.mask_filter(ComponentMask::empty()), vec![0, 1, 2, 3]);
    assert!(registry.delete_entity(2));
    assert!(!registry.delete_entity(4));
    // a deleted entity keeps its components and its id
    assert!(registry.holds_component(a, 2));
    assert_eq!(downcast::<FillerComponentA>(registry.get_component_from_id(a, 2)).0, 2);
    assert_eq!(registry.num_entities(), 4);
    assert_eq!(registry.mask_filter(ma), vec![0]);
    assert_eq!(registry.mask_filter(ComponentMask::empty()), vec![0, 1, 2, 3]);
}

#[test]
fn id_filter_takes_the_increasing_run() {
    let mut registry = build();
    let d = TypeId::of::<FillerComponentD>();
    for i in 0..5 {
        registry.new_entity().with_component(d, slot(FillerComponentD(i * 10)));
    }
    let values = |ids: Vec<usize>| -> Vec<i64> {
        registry.id_filter(d, &ids).iter().map(|s| downcast::<FillerComponentD>(s).0).collect()
    };
    assert_eq!(values(vec![0, 2, 4]), vec![0, 20, 40]);
    assert_eq!(values(vec![1, 3, 2, 4]), vec![10, 30]);
    assert_eq!(values(vec![3, 7, 4]), vec![30]);
    assert_eq!(values(vec![]), Vec::<i64>::new());
    assert_eq!(values(vec![9]), Vec::<i64>::new());
}

#[test]
fn try_id_filter_refuses_a_taken_slot_without_component() {
    let mut registry = build();
    let d = TypeId::of::<FillerComponentD>();
    registry.new_entity().with_component(d, slot(FillerComponentD(0)));
    registry.new_entity();
    registry.new_entity().with_component(d, slot(FillerComponentD(2)));
    assert!(registry.try_id_filter(d, &vec![0, 1, 2]).is_none());
    // entity 1 is not taken when the run stops before it
    let got = registry.try_id_filter(d, &vec![2, 1]).unwrap();
    assert_eq!(got.len(), 1);
    assert_eq!(downcast::<FillerComponentD>(got[0]).0, 2);
    let all = registry.try_id_filter(d, &vec![0, 2]).unwrap();
    assert_eq!(all.len(), 2);
    assert!(registry.try_id_filter(d, &vec![5, 1]).unwrap().is_empty());
}

#[test]
fn id_filter_takes_every_entity_that_mask_filter_returns() {
    let mut registry = build();
    let a = TypeId::of::<FillerComponentA>();
    let d = TypeId::of::<FillerComponentD>();
    for i in 0..6 {
        registry.new_entity().with_component(d, slot(FillerComponentD(i)));
        if i % 2 == 1 {
            registry.with_component(a, slot(FillerComponentA(i)));
        }
    }
    let mut both = registry._mask_of(a);
    both |= registry._mask_of(d);
    let ids = registry.mask_filter(both);
    assert_eq!(ids, vec![1, 3, 5]);
    let got: Vec<i64> = registry.id_filter(d, &ids).iter().map(|s| downcast::<FillerComponentD>(s).0).collect();
    assert_eq!(got, vec![1, 3, 5]);
}

#[test]
fn query_components_rows_follow_entity_order() {
    let mut registry = build();
    let a = TypeId::of::<FillerComponentA>();
    let b = TypeId::of::<FillerComponentB>();
    registry.new_entity().with_component(a, slot(FillerComponentA(1))).with_component(b, slot(FillerComponentB(10)));
    registry.new_entity().with_component(b, slot(FillerComponentB(20)));
    registry.new_entity().with_component(b, slot(FillerComponentB(30))).with_component(a, slot(FillerComponentA(3)));
    let rows = registry.query_components(&vec![b, a]);
    assert_eq!(rows.len(), 2);
    assert_eq!(downcast::<FillerComponentB>(rows[0][0]).0, 10);
    assert_eq!(downcast::<FillerComponentA>(rows[0][1]).0, 1);
    assert_eq!(downcast::<FillerComponentB>(rows[1][0]).0, 30);
    assert_eq!(downcast::<FillerComponentA>(rows[1][1]).0, 3);
    assert!(registry.query_entity(1, &vec![b, a]).is_none());
    assert_eq!(registry.query_entity(1, &vec![b]).unwrap().len(), 1);
}

struct K<const N: usize>;

fn tid<const N: usize>() -> TypeId {
    TypeId::of::<K<N>>()
}

fn thirty_two_kinds() -> Vec<TypeId> {
    vec![
        tid::<0>(), tid::<1>(), tid::<2>(), tid::<3>(), tid::<4>(), tid::<5>(), tid::<6>(), tid::<7>(),
        tid::<8>(), tid::<9>(), tid::<10>(), tid::<11>(), tid::<12>(), tid::<13>(), tid::<14>(), tid::<15>(),
        tid::<16>(), tid::<17>(), tid::<18>(), tid::<19>(), tid::<20>(), tid::<21>(), tid::<22>(), tid::<23>(),
        tid::<24>(), tid::<25>(), tid::<26>(), tid::<27>(), tid::<28>(), tid::<29>(), tid::<30>(), tid::<31>(),
    ]
}

#[test]
fn registration_is_by_type_identity() {
    let registry = build();
    assert!(registry.is_registered(TypeId::of::<FillerComponentC>()));
    assert!(!registry.is_registered(TypeId::of::<K<0>>()));
    assert!(!registry.is_registered(TypeId::of::<u8>()));
}

#[test]
fn debug_string_is_padded_binary() {
    let registry = build();
    let c = registry._mask_of(TypeId::of::<FillerComponentA>());
    assert_eq!(c.debug_string(), format!("Mask: {:#032b}", 4u32));
    assert_eq!(c.debug_string(), "Mask: 0b000000000000000000000000000100");
    assert_eq!(ComponentMask::empty().debug_string(), format!("Mask: {:#032b}", 0u32));
    let mut all = registry.query_mask(&six_kinds());
    assert_eq!(all.debug_string(), format!("Mask: {:#032b}", 0b111111u32));
    all = all & c;
    assert_eq!(all.debug_string(), format!("Mask: {:#032b}", 4u32));
}

#[test]
fn high_bits_widen_the_text() {
    let registry: Registry = ComponentRegistry::new(thirty_two_kinds());
    assert_eq!(registry.num_registered_components(), 32);
    let top = registry._mask_of(tid::<31>());
    assert_eq!(top.debug_string(), format!("Mask: {:#032b}", 1u32 << 31));
    assert_eq!(top.debug_string().len(), 6 + 2 + 32);
    let next = registry._mask_of(tid::<30>());
    assert_eq!(next.debug_string(), format!("Mask: {:#032b}", 1u32 << 30));
    let all = registry.query_mask(&thirty_two_kinds());
    assert_eq!(all.debug_string(), format!("Mask: {:#032b}", u32::MAX));
}
