use wasvy::authoring::WasvyMethodMetadata;
use wasvy::methods::{
    ArgInfo, FunctionAccess, FunctionIndex, FunctionInfo, InvokeError, MethodTarget, Ownership,
};

fn health_fn(name: &str, overloaded: bool, receiver: Ownership, function: u64) -> FunctionInfo {
    FunctionInfo {
        name: Some(name.to_string()),
        overloaded,
        args: vec![
            ArgInfo {
                name: None,
                type_path: "wasvy::tests::Health".to_string(),
                ownership: receiver,
            },
            ArgInfo {
                name: None,
                type_path: "f32".to_string(),
                ownership: Ownership::Owned,
            },
        ],
        ret: "()".to_string(),
        function,
    }
}

fn exported_health() -> Vec<String> {
    vec!["wasvy::tests::Health".to_string()]
}

#[test]
fn build_skips_overloaded_functions() {
    let exported = exported_health();
    let functions = vec![health_fn("OverloadedHealth::heal", true, Ownership::Mut, 1)];
    let overrides: Vec<WasvyMethodMetadata> = Vec::new();
    let index = FunctionIndex::build(&exported, &functions, &overrides, "wasvy");

    assert!(index.get("wasvy::tests::Health", "heal").is_none());
}

#[test]
fn build_skips_non_exported_components() {
    let exported: Vec<String> = Vec::new();
    let functions = vec![health_fn("BuildScriptHealth::heal", false, Ownership::Mut, 1)];
    let overrides: Vec<WasvyMethodMetadata> = Vec::new();
    let index = FunctionIndex::build(&exported, &functions, &overrides, "wasvy");

    assert!(index.get("wasvy::tests::Health", "heal").is_none());
}

#[test]
fn arg_names_fallback_to_arg_index() {
    let exported = exported_health();
    let functions = vec![health_fn("FallbackHealth::heal", false, Ownership::Mut, 1)];
    let overrides: Vec<WasvyMethodMetadata> = Vec::new();
    let index = FunctionIndex::build(&exported, &functions, &overrides, "wasvy");

    let entry = index.get("wasvy::tests::Health", "heal").expect("heal entry");
    assert_eq!(entry.args[0].name, "arg0");
}

#[test]
fn metadata_build_script_path_normalizes() {
    let exported = exported_health();
    let functions = vec![health_fn("BuildScriptHealth::heal", false, Ownership::Mut, 1)];
    let overrides = vec![WasvyMethodMetadata {
        type_path: "build_script_build::tests::Health".to_string(),
        method: "heal".to_string(),
        arg_names: vec!["amount".to_string()],
    }];
    let index = FunctionIndex::build(&exported, &functions, &overrides, "wasvy");

    let entry = index.get("wasvy::tests::Health", "heal").expect("heal entry");
    assert_eq!(entry.args[0].name, "amount");
}

#[test]
fn build_skips_owned_receivers() {
    let exported = exported_health();
    let functions = vec![health_fn("Health::consume", false, Ownership::Owned, 1)];
    let overrides: Vec<WasvyMethodMetadata> = Vec::new();
    let index = FunctionIndex::build(&exported, &functions, &overrides, "wasvy");

    assert!(index.get("wasvy::tests::Health", "consume").is_none());
}

#[test]
fn duplicate_method_first_registered_wins() {
    let exported = exported_health();
    let functions = vec![
        health_fn("Health::heal", false, Ownership::Mut, 1),
        health_fn("Other::heal", false, Ownership::Ref, 2),
    ];
    let overrides: Vec<WasvyMethodMetadata> = Vec::new();
    let index = FunctionIndex::build(&exported, &functions, &overrides, "wasvy");

    let entry = index.get("wasvy::tests::Health", "heal").expect("heal entry");
    assert_eq!(entry.function, 1);
    assert_eq!(entry.access, FunctionAccess::Write);
}

#[test]
fn invoke_write_method_needs_mutable_target() {
    let exported = exported_health();
    let functions = vec![
        health_fn("Health::heal", false, Ownership::Mut, 1),
        health_fn("Health::pct", false, Ownership::Ref, 2),
    ];
    let overrides: Vec<WasvyMethodMetadata> = Vec::new();
    let index = FunctionIndex::build(&exported, &functions, &overrides, "wasvy");

    let denied = index.plan_invoke(
        "wasvy::tests::Health",
        "heal",
        MethodTarget::Read,
        "[5.0]",
    );
    assert_eq!(denied.unwrap_err(), InvokeError::NeedsMutableAccess);

    let allowed = index.plan_invoke(
        "wasvy::tests::Health",
        "heal",
        MethodTarget::Write,
        "[5.0]",
    );
    assert!(allowed.is_ok());

    let read_read = index.plan_invoke("wasvy::tests::Health", "pct", MethodTarget::Read, "[1.5]");
    let read_write = index.plan_invoke("wasvy::tests::Health", "pct", MethodTarget::Write, "[1.5]");
    assert!(read_read.is_ok());
    assert!(read_write.is_ok());
}

#[test]
fn invoke_unknown_method_fails() {
    let exported = exported_health();
    let functions = vec![health_fn("Health::heal", false, Ownership::Mut, 1)];
    let overrides: Vec<WasvyMethodMetadata> = Vec::new();
    let index = FunctionIndex::build(&exported, &functions, &overrides, "wasvy");

    let r = index.plan_invoke("wasvy::tests::Health", "vanish", MethodTarget::Write, "[]");
    assert_eq!(r.unwrap_err(), InvokeError::UnknownMethod);
}

#[test]
fn invoke_checks_arity_exactly() {
    let exported = exported_health();
    let functions = vec![health_fn("Health::heal", false, Ownership::Mut, 1)];
    let overrides: Vec<WasvyMethodMetadata> = Vec::new();
    let index = FunctionIndex::build(&exported, &functions, &overrides, "wasvy");

    let too_many = index.plan_invoke(
        "wasvy::tests::Health",
        "heal",
        MethodTarget::Write,
        "[5.0, 6.0]",
    );
    assert_eq!(
        too_many.unwrap_err(),
        InvokeError::ArityMismatch { expected: 1, got: 2 }
    );

    let too_few = index.plan_invoke("wasvy::tests::Health", "heal", MethodTarget::Write, "null");
    assert_eq!(
        too_few.unwrap_err(),
        InvokeError::ArityMismatch { expected: 1, got: 0 }
    );
}

#[test]
fn invoke_rejects_malformed_params() {
    let exported = exported_health();
    let functions = vec![health_fn("Health::heal", false, Ownership::Mut, 1)];
    let overrides: Vec<WasvyMethodMetadata> = Vec::new();
    let index = FunctionIndex::build(&exported, &functions, &overrides, "wasvy");

    let not_array = index.plan_invoke(
        "wasvy::tests::Health",
        "heal",
        MethodTarget::Write,
        "{\"amount\": 5.0}",
    );
    assert_eq!(not_array.unwrap_err(), InvokeError::MalformedParams);

    let garbage = index.plan_invoke("wasvy::tests::Health", "heal", MethodTarget::Write, "[5.0");
    assert_eq!(garbage.unwrap_err(), InvokeError::MalformedParams);
}

#[test]
fn invoke_plan_splits_json_params() {
    let exported = exported_health();
    let mut functions = vec![health_fn("Health::heal", false, Ownership::Mut, 1)];
    functions[0].args.push(ArgInfo {
        name: Some("label".to_string()),
        type_path: "String".to_string(),
        ownership: Ownership::Ref,
    });
    let overrides: Vec<WasvyMethodMetadata> = Vec::new();
    let index = FunctionIndex::build(&exported, &functions, &overrides, "wasvy");

    let plan = index
        .plan_invoke(
            "wasvy::tests::Health",
            "heal",
            MethodTarget::Write,
            " [5.0, \"boost\"] ",
        )
        .expect("plan");
    assert_eq!(plan.function, 1);
    assert_eq!(plan.args.len(), 2);
    assert_eq!(plan.args[0].json, "5.0");
    assert_eq!(plan.args[0].ownership, Ownership::Owned);
    assert_eq!(plan.args[1].json, "\"boost\"");
    assert_eq!(plan.args[1].ownership, Ownership::Ref);

    assert_eq!(wasvy::methods::finish_invoke(None), "null");
    assert_eq!(
        wasvy::methods::finish_invoke(Some("0.7".to_string())),
        "0.7"
    );
}

#[test]
fn empty_params_mean_no_arguments() {
    let exported = exported_health();
    let functions = vec![FunctionInfo {
        name: Some("Health::pct".to_string()),
        overloaded: false,
        args: vec![ArgInfo {
            name: None,
            type_path: "wasvy::tests::Health".to_string(),
            ownership: Ownership::Ref,
        }],
        ret: "f32".to_string(),
        function: 9,
    }];
    let overrides: Vec<WasvyMethodMetadata> = Vec::new();
    let index = FunctionIndex::build(&exported, &functions, &overrides, "wasvy");

    let plan = index
        .plan_invoke("wasvy::tests::Health", "pct", MethodTarget::Read, "  ")
        .expect("plan");
    assert_eq!(plan.args.len(), 0);
    assert_eq!(plan.access, FunctionAccess::Read);
}
