# yaecs

A small entity–component registry. Each registered component type gets one bit of a
32-bit mask and one column of slots (one per entity; a new entity's slots hold a default
filler until a component is given); each entity has a mask naming the components it holds. Queries filter entities by mask and collect their
components.

- `src/ecs/mod.rs`: `ComponentMask`, the model (`RegistryModel`) and the registry type.
- `src/ecs/registry.rs`, `src/ecs/registry_ext.rs`: creation, entities, components, filters.
- `src/ecs/query.rs`: the multi-type queries (mask of several types, one entity, all entities).
- `src/ecs/laws.rs`, `src/ecs/bits.rs`: properties of filters, masks and queries, and of
  runs of changes (the invariant, the entity count, reading back what was written).
- `app/`: a demonstration program, the query macros, and the typed (`TypeId` + `dyn Any`)
  front end.

The registry is generic in what a slot holds; the program stores `Rc<RefCell<dyn Any>>`
cells (a new entity's filler is a `0u8` cell), so components can be borrowed mutably
through a shared registry.
