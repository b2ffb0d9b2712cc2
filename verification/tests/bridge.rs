use wasvy::access::{FilteredAccess, ModAccess};
use wasvy::component::{insert_serialized, get_serialized, ComponentBridge};
use wasvy::access::spawn_for_mod;
use wasvy::query::{
    query_entities, Param, QueryAccessError, QueryCursor, QueryFor, QueryId, QueryResolver,
};
use wasvy::schedule::ModSchedules;
use wasvy::world::World;

fn bridge_with_health() -> ComponentBridge {
    // One native reflected export and room for dynamic slots above it.
    let native = vec![("game::Health".to_string(), 1u64)];
    ComponentBridge::new(native, 100)
}

#[test]
fn component_round_trip_native_and_dynamic() {
    let mut world = World::new();
    let mut bridge = bridge_with_health();
    let e = world.spawn(None);

    // Native path: the type path is known to the reflection registry.
    let native_ref = insert_serialized(
        &mut world,
        &mut bridge,
        e,
        "game::Health",
        "{\"current\":2.0,\"max\":10.0}".to_string(),
    );
    assert!(native_ref.native);
    assert_eq!(
        get_serialized(&world, e, native_ref).expect("stored"),
        "{\"current\":2.0,\"max\":10.0}"
    );

    // Dynamic path: an unknown type path allocates a slot on first use.
    let dyn_ref = insert_serialized(
        &mut world,
        &mut bridge,
        e,
        "guest::Mana",
        "{\"points\":3}".to_string(),
    );
    assert!(!dyn_ref.native);
    assert_eq!(dyn_ref.component_id, 100);
    assert_eq!(
        get_serialized(&world, e, dyn_ref).expect("stored"),
        "{\"points\":3}"
    );

    // Overwrite and read back: the last written value wins.
    let again = insert_serialized(
        &mut world,
        &mut bridge,
        e,
        "guest::Mana",
        "{\"points\":9}".to_string(),
    );
    assert_eq!(again.component_id, dyn_ref.component_id);
    assert_eq!(
        get_serialized(&world, e, dyn_ref).expect("stored"),
        "{\"points\":9}"
    );
}

#[test]
fn resolve_is_stable_per_type_path() {
    let mut bridge = bridge_with_health();
    let a = bridge.resolve("guest::A");
    let b = bridge.resolve("guest::B");
    let a_again = bridge.resolve("guest::A");
    let native = bridge.resolve("game::Health");

    assert_eq!(a.component_id, a_again.component_id);
    assert_ne!(a.component_id, b.component_id);
    assert!(native.native);
    assert_eq!(native.component_id, 1);
}

#[test]
fn query_yields_only_entities_with_all_components() {
    let mut world = World::new();
    let mut bridge = bridge_with_health();

    let health = bridge.resolve("game::Health").component_id;
    let marker = bridge.resolve("game::Marker").component_id;

    let both = world.spawn(None);
    world.insert_component(both, health, "{}".to_string());
    world.insert_component(both, marker, "{}".to_string());

    let health_only = world.spawn(None);
    world.insert_component(health_only, health, "{}".to_string());

    let marker_only = world.spawn(None);
    world.insert_component(marker_only, marker, "{}".to_string());

    let _neither = world.spawn(None);

    // Terms [Read(Health), With(Marker)] in the world domain.
    let required = vec![health, marker];
    let excluded: Vec<u64> = Vec::new();
    let access = FilteredAccess::non_sandboxed();
    let matched = query_entities(&world, &required, &excluded, &access);
    assert_eq!(matched, vec![both]);

    // The resolver exposes a handle only to the data term.
    let params = vec![Param::Query(vec![
        QueryFor::Ref("game::Health".to_string()),
        QueryFor::With("game::Marker".to_string()),
    ])];
    let resolver = QueryResolver::new(&params, &mut bridge);
    assert_eq!(resolver.0.len(), 1);
    assert_eq!(resolver.0[0].len(), 1);
    assert_eq!(resolver.0[0][0].component.component_id, health);
    assert!(!resolver.0[0][0].mutable);
}

#[test]
fn without_term_excludes_entities() {
    let mut world = World::new();
    let mut bridge = bridge_with_health();
    let health = bridge.resolve("game::Health").component_id;
    let frozen = bridge.resolve("game::Frozen").component_id;

    let plain = world.spawn(None);
    world.insert_component(plain, health, "{}".to_string());
    let excluded_entity = world.spawn(None);
    world.insert_component(excluded_entity, health, "{}".to_string());
    world.insert_component(excluded_entity, frozen, "{}".to_string());

    let access = FilteredAccess::non_sandboxed();
    let matched = query_entities(&world, &vec![health], &vec![frozen], &access);
    assert_eq!(matched, vec![plain]);
}

#[test]
fn sandbox_access_partitions_queries() {
    let mut world = World::new();
    let mut bridge = bridge_with_health();
    let health = bridge.resolve("game::Health").component_id;

    let sandbox = world.spawn(None);
    let _ = world.add_sandbox(sandbox, ModSchedules::empty());
    let inside = world.spawn(Some(sandbox));
    world.insert_component(inside, health, "{}".to_string());
    let outside = world.spawn(None);
    world.insert_component(outside, health, "{}".to_string());

    let required = vec![health];
    let excluded: Vec<u64> = Vec::new();

    let sandbox_access = ModAccess::Sandbox(sandbox).filtered_access(&world);
    assert_eq!(
        query_entities(&world, &required, &excluded, &sandbox_access),
        vec![inside]
    );

    let world_access = ModAccess::World.filtered_access(&world);
    assert_eq!(
        query_entities(&world, &required, &excluded, &world_access),
        vec![outside]
    );

    // A vanished sandbox grants access to nothing.
    let gone = ModAccess::Sandbox(outside).filtered_access(&world);
    assert!(query_entities(&world, &required, &excluded, &gone).is_empty());
}

#[test]
fn query_cursor_resumes_instead_of_restarting() {
    let mut world = World::new();
    let mut bridge = bridge_with_health();
    let health = bridge.resolve("game::Health").component_id;

    let a = world.spawn(None);
    world.insert_component(a, health, "{}".to_string());
    let b = world.spawn(None);
    world.insert_component(b, health, "{}".to_string());

    let required = vec![health];
    let excluded: Vec<u64> = Vec::new();
    let access = FilteredAccess::non_sandboxed();

    let mut cursor = QueryCursor::new();
    let first = cursor.increment();
    assert_eq!(first.entity(&world, &required, &excluded, &access), Some(a));
    let second = cursor.increment();
    assert_eq!(second.entity(&world, &required, &excluded, &access), Some(b));
    let third = cursor.increment();
    assert_eq!(third.entity(&world, &required, &excluded, &access), None);
}

#[test]
fn resolver_set_gates_on_mutability() {
    let mut world = World::new();
    let mut bridge = bridge_with_health();
    let health = bridge.resolve("game::Health").component_id;
    let e = world.spawn(None);
    world.insert_component(e, health, "{\"current\":2.0}".to_string());

    let params = vec![Param::Query(vec![
        QueryFor::Ref("game::Health".to_string()),
        QueryFor::Mut("guest::Mana".to_string()),
    ])];
    let resolver = QueryResolver::new(&params, &mut bridge);
    let q = QueryId(0);

    // Reading through the read-only handle works.
    assert_eq!(
        resolver.get(q, 0, &world, e).expect("read"),
        "{\"current\":2.0}"
    );

    // Writing through it is refused and leaves the world untouched.
    assert_eq!(
        resolver
            .set(q, 0, &mut world, e, "{\"current\":9.0}".to_string())
            .unwrap_err(),
        QueryAccessError::NotMutable
    );
    assert_eq!(
        resolver.get(q, 0, &world, e).expect("read"),
        "{\"current\":2.0}"
    );

    // Writing through the mutable handle works.
    resolver
        .set(q, 1, &mut world, e, "{\"points\":4}".to_string())
        .expect("write");
    assert_eq!(resolver.get(q, 1, &world, e).expect("read"), "{\"points\":4}");

    // An index past the declared data terms is an error.
    assert_eq!(
        resolver.get(q, 2, &world, e).unwrap_err(),
        QueryAccessError::UnknownComponentIndex
    );
}

#[test]
fn mod_spawns_land_in_their_sandbox() {
    let mut world = World::new();
    let sandbox = world.spawn(None);
    let _ = world.add_sandbox(sandbox, ModSchedules::empty());

    let in_lineage = spawn_for_mod(&mut world, ModAccess::Sandbox(sandbox), 3, true);
    assert_eq!(world.tag_of(in_lineage), Some(sandbox));
    assert_eq!(world.created_by_of(in_lineage), Some(3));

    let outside_lineage = spawn_for_mod(&mut world, ModAccess::World, 3, false);
    assert_eq!(world.tag_of(outside_lineage), None);
    assert_eq!(world.created_by_of(outside_lineage), None);
}
