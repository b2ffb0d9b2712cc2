use wasvy::bindgen::{
    contains_wasvy_attr, extract_wit_type_path, module_segments, sanitize_ident, upper_camel,
    ModuleNode, SegmentError,
};

fn path(parts: &[&str]) -> Vec<String> {
    parts.iter().map(|p| p.to_string()).collect()
}

#[test]
fn guest_bindings_includes_type_path_helpers() {
    let docs = "wasvy:type-path=tests::fixtures::components::Health";
    let type_path = extract_wit_type_path(docs).expect("tagged resource");
    assert_eq!(
        type_path.as_str(),
        "tests::fixtures::components::Health"
    );
    assert_eq!(type_path, type_path.as_str().to_string());
}

#[test]
fn extract_tag_scans_lines_and_trims() {
    let docs = "A health pool.\n  wasvy:type-path= game::Health  \nmore text";
    assert_eq!(extract_wit_type_path(docs).expect("tag"), "game::Health");

    assert!(extract_wit_type_path("no tag here").is_none());
    assert!(extract_wit_type_path("wasvy:type-path=   ").is_none());
}

#[test]
fn wasvy_attr_detection() {
    assert!(contains_wasvy_attr("#[wasvy::component]\nstruct Tag;"));
    assert!(contains_wasvy_attr("#[wasvy::methods]\nimpl Health {}"));
    assert!(!contains_wasvy_attr("fn main() {}"));
}

#[test]
fn sanitize_ident_rewrites_components() {
    assert_eq!(sanitize_ident("my-mod"), "my_mod");
    assert_eq!(sanitize_ident("3d"), "_3d");
    assert_eq!(sanitize_ident(""), "_");
    assert_eq!(sanitize_ident("plain"), "plain");
}

#[test]
fn upper_camel_names_resources() {
    assert_eq!(upper_camel("health"), "Health");
    assert_eq!(upper_camel("health-bar"), "HealthBar");
    assert_eq!(upper_camel("health_bar"), "HealthBar");
    assert_eq!(upper_camel("___"), "Component");
}

#[test]
fn module_segments_for_source_layouts() {
    let base = path(&["src"]);

    assert_eq!(
        module_segments(&base, &path(&["src", "lib.rs"])).unwrap(),
        Vec::<String>::new()
    );
    assert_eq!(
        module_segments(&base, &path(&["src", "main.rs"])).unwrap(),
        Vec::<String>::new()
    );
    assert_eq!(
        module_segments(&base, &path(&["src", "combat", "mod.rs"])).unwrap(),
        path(&["combat"])
    );
    assert_eq!(
        module_segments(&base, &path(&["src", "combat", "health.rs"])).unwrap(),
        path(&["combat", "health"])
    );
    assert_eq!(
        module_segments(&base, &path(&["src", "my-mod", "3d.rs"])).unwrap(),
        path(&["my_mod", "_3d"])
    );

    assert_eq!(
        module_segments(&path(&["other"]), &path(&["src", "lib.rs"])).unwrap_err(),
        SegmentError::NotUnderBase
    );
    assert_eq!(
        module_segments(&base, &path(&["src"])).unwrap_err(),
        SegmentError::NoFileName
    );
}

#[test]
fn module_tree_insert_routes_files() {
    let mut root = ModuleNode::empty();
    let segs = path(&["combat", "health"]);
    root.insert(&segs, 0, path(&["src", "combat", "health.rs"]));

    assert_eq!(root.children.len(), 1);
    assert_eq!(root.children[0].0, "combat");
    let combat = &root.children[0].1;
    assert_eq!(combat.children.len(), 1);
    assert_eq!(combat.children[0].0, "health");
    assert_eq!(
        combat.children[0].1.file,
        Some(path(&["src", "combat", "health.rs"]))
    );

    let mut root2 = ModuleNode::empty();
    root2.insert(&path(&["a"]), 0, path(&["src", "a.rs"]));
    root2.insert(&path(&["b"]), 0, path(&["src", "b.rs"]));
    assert_eq!(root2.children.len(), 2);
    assert_eq!(root2.children[0].1.file, Some(path(&["src", "a.rs"])));
    assert_eq!(root2.children[1].1.file, Some(path(&["src", "b.rs"])));
}
