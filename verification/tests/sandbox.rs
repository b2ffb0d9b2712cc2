use wasvy::schedule::ModSchedules;
use wasvy::world::World;

#[test]
fn sandboxed_propagate_marker() {
    let mut world = World::new();

    let sandbox = world.spawn(None);
    let marker = world.add_sandbox(sandbox, ModSchedules::empty());
    let child = world.spawn(Some(sandbox));

    assert!(
        !world.has_marker(sandbox, marker),
        "Sandbox should not have a marker"
    );
    assert!(
        world.has_marker(child, marker),
        "Child has the SandboxMarker"
    );
}

#[test]
fn simple_sandboxed_propagate() {
    let mut world = World::new();

    let sandbox = world.spawn(None);
    let _ = world.add_sandbox(sandbox, ModSchedules::empty());
    let child = world.spawn(Some(sandbox));
    let nested_child = world.spawn(Some(child));

    assert_eq!(
        world.sandboxed_entities(sandbox),
        vec![child, nested_child],
        "All Children have the sandbox relation and were added to the SandboxedEntities"
    );
}

#[test]
fn reparent_sandboxed() {
    let mut world = World::new();

    let sandbox1 = world.spawn(None);
    let marker1 = world.add_sandbox(sandbox1, ModSchedules::empty());
    let sandbox2 = world.spawn(None);
    let marker2 = world.add_sandbox(sandbox2, ModSchedules::empty());

    let child = world.spawn(Some(sandbox1));
    let nested_child = world.spawn(Some(child));

    world.reparent(child, Some(sandbox2));

    assert_eq!(
        world.tag_of(child),
        Some(sandbox2),
        "A reparented sandboxed entity should be updated"
    );
    assert_eq!(
        world.tag_of(nested_child),
        Some(sandbox2),
        "The child of a reparented sandboxed entity should be updated"
    );
    assert!(
        !world.has_marker(nested_child, marker1) && world.has_marker(nested_child, marker2),
        "A reparented child should have the correct marker trait"
    );
}

#[test]
fn replace_sandbox() {
    let mut world = World::new();

    let sandbox = world.spawn(None);
    let marker1 = world.add_sandbox(sandbox, ModSchedules::empty());
    let child = world.spawn(Some(sandbox));

    let marker2 = world.replace_sandbox(sandbox, ModSchedules::empty());

    assert!(
        !world.has_marker(child, marker1) && world.has_marker(child, marker2),
        "Child should have the correct marker trait"
    );
    assert!(
        !world.sandboxed_entities(sandbox).is_empty(),
        "SandboxedEntities should not be removed"
    );
}

#[test]
fn remove_sandbox() {
    let mut world = World::new();

    let sandbox = world.spawn(None);
    let marker = world.add_sandbox(sandbox, ModSchedules::empty());
    let child = world.spawn(Some(sandbox));

    world.remove_sandbox(sandbox);

    assert!(
        world.tag_of(child).is_none(),
        "A child of a removed sandbox should have no more markers"
    );
    assert!(
        !world.has_marker(child, marker),
        "A child of a removed sandbox should have no more markers"
    );
}

#[test]
fn nested_sandbox_propagate() {
    let mut world = World::new();

    let sandbox1 = world.spawn(None);
    let _ = world.add_sandbox(sandbox1, ModSchedules::empty());
    let child1 = world.spawn(Some(sandbox1));

    let sandbox2 = world.spawn(Some(child1));
    let _ = world.add_sandbox(sandbox2, ModSchedules::empty());
    let child2 = world.spawn(Some(sandbox2));

    assert_eq!(
        world.tag_of(sandbox2),
        Some(sandbox1),
        "Sandbox is sandboxed"
    );
    assert_eq!(
        world.tag_of(child2),
        Some(sandbox2),
        "Nested sandbox children belong to their own sandbox"
    );
}

#[test]
fn despawn_mod_lineage_spares_unrelated_entities() {
    let mut world = World::new();

    let sandbox = world.spawn(None);
    let _ = world.add_sandbox(sandbox, ModSchedules::empty());
    let created_by_a = world.spawn(Some(sandbox));
    let created_by_b = world.spawn(Some(sandbox));
    let unrelated = world.spawn(None);
    world.set_created_by(created_by_a, 7);
    world.set_created_by(created_by_b, 8);

    world.despawn_created_by(7);

    assert!(!world.is_alive(created_by_a));
    assert!(world.is_alive(created_by_b));
    assert!(world.is_alive(unrelated));
    assert!(world.is_alive(sandbox));
}
