use wasvy::methods::{ArgInfo, FunctionIndex, FunctionInfo, Ownership};
use wasvy::authoring::WasvyMethodMetadata;
use wasvy::paths::{method_from_name, normalize_type_path};
use wasvy::witgen::{map_type, render_method, strip_path, type_path_to_name};

#[test]
fn method_names_come_from_the_last_segment() {
    assert_eq!(method_from_name("my_game::Health::heal"), "heal");
    assert_eq!(method_from_name("heal"), "heal");
    assert_eq!(method_from_name("closure.pct"), "pct");
    assert_eq!(method_from_name("my_game::Health::closure.heal"), "heal");
}

#[test]
fn type_paths_normalize() {
    assert_eq!(normalize_type_path("  game::Health ", "wasvy"), "game::Health");
    assert_eq!(normalize_type_path("&game::Health", "wasvy"), "game::Health");
    assert_eq!(normalize_type_path("&mut game::Health", "wasvy"), "game::Health");
    assert_eq!(
        normalize_type_path("build_script_build::tests::Health", "my_pkg"),
        "my_pkg::tests::Health"
    );
}

#[test]
fn type_paths_map_to_interface_types() {
    assert_eq!(map_type("f32").unwrap(), "f32");
    assert_eq!(map_type("i64").unwrap(), "s64");
    assert_eq!(map_type("alloc::string::String").unwrap(), "string");
    assert_eq!(map_type("()").unwrap(), "()");
    assert_eq!(map_type("Option<f32>").unwrap(), "option<f32>");
    assert_eq!(map_type("Vec<u8>").unwrap(), "list<u8>");
    assert_eq!(
        map_type("std::vec::Vec<Option<i32>>").unwrap(),
        "list<option<s32>>"
    );
    assert_eq!(map_type("Option< f32 >").unwrap(), "option<f32>");
    assert!(map_type("game::Health").is_none());

    assert_eq!(strip_path("std::vec::Vec<u8>"), "Vec<u8>");
    assert_eq!(type_path_to_name("game::combat::Health"), "Health");
}

#[test]
fn wit_uses_arg_names() {
    let exported = vec!["wasvy::tests::Health".to_string()];
    let functions = vec![FunctionInfo {
        name: Some("Health::heal".to_string()),
        overloaded: false,
        args: vec![
            ArgInfo {
                name: None,
                type_path: "wasvy::tests::Health".to_string(),
                ownership: Ownership::Mut,
            },
            ArgInfo {
                name: None,
                type_path: "f32".to_string(),
                ownership: Ownership::Owned,
            },
        ],
        ret: "()".to_string(),
        function: 1,
    }];
    let overrides = vec![WasvyMethodMetadata {
        type_path: "wasvy::tests::Health".to_string(),
        method: "heal".to_string(),
        arg_names: vec!["amount".to_string()],
    }];
    let index = FunctionIndex::build(&exported, &functions, &overrides, "wasvy");
    let entry = index.get("wasvy::tests::Health", "heal").expect("heal entry");

    let output = render_method(entry).expect("renderable");
    assert_eq!(output, "heal: func(amount: f32)");
}

#[test]
fn rendered_methods_carry_return_types() {
    let exported = vec!["wasvy::tests::Health".to_string()];
    let functions = vec![FunctionInfo {
        name: Some("Health::pct".to_string()),
        overloaded: false,
        args: vec![ArgInfo {
            name: None,
            type_path: "wasvy::tests::Health".to_string(),
            ownership: Ownership::Ref,
        }],
        ret: "f32".to_string(),
        function: 2,
    }];
    let overrides: Vec<WasvyMethodMetadata> = Vec::new();
    let index = FunctionIndex::build(&exported, &functions, &overrides, "wasvy");
    let entry = index.get("wasvy::tests::Health", "pct").expect("pct entry");

    assert_eq!(render_method(entry).expect("renderable"), "pct: func() -> f32");
}

#[test]
fn wit_handles_collisions_and_empty_methods() {
    let mut used: Vec<String> = Vec::new();
    assert_eq!(wasvy::witgen::to_wit_ident("Health", &mut used), "health");
    assert_eq!(wasvy::witgen::to_wit_ident("Health", &mut used), "health-1");
    assert_eq!(wasvy::witgen::to_wit_ident("Marker", &mut used), "marker");
    assert_eq!(wasvy::witgen::to_wit_ident("HealthBar", &mut used), "health-bar");
    assert_eq!(wasvy::witgen::to_wit_ident("", &mut used), "component");
}
