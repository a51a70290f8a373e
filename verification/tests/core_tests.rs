use kiln::builder::TargetBuilder;
use kiln::cli::inspect_key_parts;
use kiln::error::{KilnError, ReferenceRelation};
use kiln::planner::build_execution_plan;
use kiln::resource::{AccessMode, Resource, ResourceId, ResourceRef};
use kiln::target::{Pipeline, PipelineVersion, ShellBlock, Target, TargetId};
use kiln::types::KilnType;
use kiln::validator::validate;

fn target() -> Target {
    Target::new(ShellBlock::new("bash", "true"))
}

fn target_with(interpreter: &str, code: &str) -> Target {
    Target::new(ShellBlock::new(interpreter, code))
}

fn pipeline_from(targets: Vec<(&str, Target)>) -> Pipeline {
    let mut pipeline = Pipeline::new();
    for (id, target) in targets {
        pipeline.add(TargetId::new(id), target);
    }
    pipeline
}

// ---- resources ----

#[test]
fn resource_id_conversions() {
    let from_str: ResourceId = "gpu".into();
    let from_string: ResourceId = String::from("gpu").into();
    assert_eq!(from_str, from_string);
    assert_eq!(from_str.as_ref(), "gpu");
    assert_eq!(from_str.to_string(), "gpu");
}

#[test]
fn resource_default_fields() {
    let r = Resource::new(ResourceId::new("network"), AccessMode::Shared);
    assert!(r.capacity.is_none());
    assert!(r.description.is_none());
    assert!(r.metadata.is_empty());
    assert_eq!(r.to_string(), "resource network (shared)");
}

#[test]
fn resource_types_are_send() {
    fn assert_send<T: Send>() {}
    assert_send::<Resource>();
    assert_send::<ResourceRef>();
    assert_send::<ResourceId>();
    assert_send::<AccessMode>();
}

#[test]
fn access_mode_names() {
    assert_eq!(AccessMode::Exclusive.to_string(), "exclusive");
    assert_eq!(AccessMode::Shared.to_string(), "shared");
    let r = Resource::new(ResourceId::new("gpu"), AccessMode::Exclusive);
    assert_eq!(r.to_string(), "resource gpu (exclusive)");
}

// ---- targets and pipelines ----

#[test]
fn target_id_from_str_and_string() {
    let from_str: TargetId = "build".into();
    let from_string: TargetId = String::from("build").into();
    assert_eq!(from_str, from_string);
    assert_eq!(from_str.as_ref(), "build");
    assert_eq!(from_str.to_string(), "build");
}

#[test]
fn shell_block_display_lists_byte_count() {
    let block = ShellBlock::new("python3", "print('hi')");
    assert_eq!(block.to_string(), "shell:python3 (11 bytes)");
}

#[test]
fn shell_block_counts_bytes_not_characters() {
    let block = ShellBlock::new("bash", "echo é");
    assert_eq!(block.to_string(), "shell:bash (7 bytes)");
}

#[test]
fn target_default_fields_are_empty() {
    let target = target_with("bash", "true");
    assert_eq!(target.run.interpreter, "bash");
    assert!(target.cleanup.is_none());
    assert!(target.requires.is_empty());
    assert!(target.conflicts.is_empty());
    assert!(target.resources.is_empty());
    assert!(target.inputs.is_empty());
    assert!(target.outputs.is_empty());
    assert!(target.metadata.is_empty());
}

#[test]
fn pipeline_add_and_lookup() {
    let mut pipeline = Pipeline::new();
    assert!(pipeline.is_empty());

    let previous = pipeline.add(TargetId::new("a"), target_with("bash", "true"));
    assert!(previous.is_none());

    assert_eq!(pipeline.len(), 1);
    assert!(pipeline.contains(&TargetId::new("a")));
    assert!(!pipeline.contains(&TargetId::new("b")));
    assert!(pipeline.target(&TargetId::new("a")).is_some());
}

#[test]
fn pipeline_add_replaces_existing_target() {
    let mut pipeline = Pipeline::new();
    pipeline.add(TargetId::new("a"), target_with("bash", "first"));
    let previous = pipeline.add(TargetId::new("a"), target_with("bash", "second"));
    let prev = previous.expect("first insert returned");
    assert_eq!(prev.run.code, "first");

    let current = pipeline.target(&TargetId::new("a")).unwrap();
    assert_eq!(current.run.code, "second");
}

#[test]
fn target_types_are_send() {
    fn assert_send<T: Send>() {}
    assert_send::<Pipeline>();
    assert_send::<Target>();
    assert_send::<TargetId>();
    assert_send::<ShellBlock>();
    assert_send::<PipelineVersion>();
}

#[test]
fn target_map_keeps_ids_sorted() {
    let pipeline = pipeline_from(vec![("c", target()), ("a", target()), ("b", target())]);
    let ids: Vec<&str> = pipeline.targets.as_slice().iter().map(|(id, _)| id.as_str()).collect();
    assert_eq!(ids, vec!["a", "b", "c"]);
    assert_eq!(pipeline.version.to_string(), "1");
}

#[test]
fn kiln_type_wire_names() {
    assert_eq!(KilnType::Path.name(), "path");
    assert_eq!(KilnType::Int.name(), "int");
    assert_eq!(KilnType::Duration.name(), "duration");
}

// ---- errors ----

#[test]
fn cyclic_dependency_query() {
    let err = KilnError::cyclic_dependency("a -> b -> a");
    assert!(err.is_cyclic_dependency());
    assert!(!err.is_unknown_target_reference());
    assert!(!err.is_duplicate_target());
}

#[test]
fn unknown_reference_query() {
    let err = KilnError::unknown_target_reference("nope", "a", ReferenceRelation::Requires);
    assert!(err.is_unknown_target_reference());
    assert!(!err.is_cyclic_dependency());
}

#[test]
fn duplicate_query() {
    let err = KilnError::duplicate_target("a");
    assert!(err.is_duplicate_target());
}

#[test]
fn display_renders_human_readable_message() {
    let err = KilnError::unknown_target_reference("nope", "a", ReferenceRelation::Requires);
    let rendered = err.to_string();
    assert!(rendered.contains("`a`"), "{rendered}");
    assert!(rendered.contains("`nope`"), "{rendered}");
    assert!(rendered.contains("requires"), "{rendered}");
}

#[test]
fn missing_required_query() {
    let err = KilnError::missing_required("shell");
    assert!(err.is_missing_required());
    assert!(!err.is_cyclic_dependency());
}

#[test]
fn json_parse_query_and_source_chain() {
    let json_err = serde_json::from_str::<i32>("not valid").expect_err("invalid json");
    let err = KilnError::json_parse(json_err);
    assert!(err.is_json_parse_error());
    let source = err.json_source();
    assert!(source.is_some());
}

#[test]
fn error_error_is_send() {
    fn assert_send<T: Send>() {}
    assert_send::<KilnError>();
    assert_send::<kiln::cache_error::CacheError>();
    assert_send::<kiln::exec_error::ExecError>();
}

#[test]
fn kiln_error_messages_are_exact() {
    assert_eq!(
        KilnError::cyclic_dependency("x").to_string(),
        "kiln pipeline has a cyclic dependency: x"
    );
    assert_eq!(
        KilnError::unknown_target_reference("nope", "a", ReferenceRelation::Conflicts).to_string(),
        "target `a` declares a `conflicts` on unknown target `nope`"
    );
    assert_eq!(
        KilnError::duplicate_target("gpu").to_string(),
        "target id `gpu` is declared more than once"
    );
    assert_eq!(
        KilnError::missing_required("run").to_string(),
        "builder is missing the required `run` field"
    );
    let json_err = serde_json::from_str::<i32>("x").unwrap_err();
    assert!(KilnError::json_parse(json_err)
        .to_string()
        .starts_with("failed to parse pipeline JSON: "));
}

// ---- validation ----

#[test]
fn empty_pipeline_validates() {
    validate(&Pipeline::new()).unwrap();
}

#[test]
fn well_formed_pipeline_validates() {
    let mut pipeline = Pipeline::new();
    pipeline.add(TargetId::new("a"), target());
    let mut b = target();
    b.requires.push(TargetId::new("a"));
    pipeline.add(TargetId::new("b"), b);
    validate(&pipeline).unwrap();
}

#[test]
fn unknown_requires_target_fails_validation() {
    let mut pipeline = Pipeline::new();
    let mut a = target();
    a.requires.push(TargetId::new("ghost"));
    pipeline.add(TargetId::new("a"), a);

    let err = validate(&pipeline).expect_err("ghost target");
    assert!(err.is_unknown_target_reference());
}

#[test]
fn unknown_conflicts_target_fails_validation() {
    let mut pipeline = Pipeline::new();
    let mut a = target();
    a.conflicts.push(TargetId::new("ghost"));
    pipeline.add(TargetId::new("a"), a);

    let err = validate(&pipeline).expect_err("ghost target");
    assert!(err.is_unknown_target_reference());
}

#[test]
fn duplicate_resource_id_fails_validation() {
    let mut pipeline = Pipeline::new();
    pipeline.resources.push(Resource::new(ResourceId::new("gpu"), AccessMode::Exclusive));
    pipeline.resources.push(Resource::new(ResourceId::new("gpu"), AccessMode::Shared));

    let err = validate(&pipeline).expect_err("duplicate resource");
    assert!(err.is_duplicate_target());
}

#[test]
fn validation_reports_the_first_unknown_reference() {
    // Targets are scanned in id order, `requires` before `conflicts`.
    let mut b = target();
    b.conflicts.push(TargetId::new("x"));
    b.requires.push(TargetId::new("y"));
    let mut a = target();
    a.conflicts.push(TargetId::new("z"));
    let pipeline = pipeline_from(vec![("b", b), ("a", a)]);
    let err = pipeline.validate().unwrap_err();
    assert_eq!(
        err.to_string(),
        "target `a` declares a `conflicts` on unknown target `z`"
    );
}

#[test]
fn validation_names_the_repeated_resource() {
    let mut pipeline = Pipeline::new();
    pipeline.resources.push(Resource::new(ResourceId::new("net"), AccessMode::Shared));
    pipeline.resources.push(Resource::new(ResourceId::new("gpu"), AccessMode::Shared));
    pipeline.resources.push(Resource::new(ResourceId::new("gpu"), AccessMode::Exclusive));
    let err = pipeline.validate().unwrap_err();
    assert_eq!(err.to_string(), "target id `gpu` is declared more than once");
}

// ---- planning ----

#[test]
fn empty_pipeline_yields_empty_plan() {
    let plan = build_execution_plan(&Pipeline::new()).unwrap();
    assert!(plan.waves.is_empty());
}

#[test]
fn single_target_runs_alone() {
    let pipeline = pipeline_from(vec![("a", target())]);
    let plan = build_execution_plan(&pipeline).unwrap();
    assert_eq!(plan.waves, vec![vec![TargetId::new("a")]]);
}

#[test]
fn linear_chain_produces_sequential_waves() {
    let mut a = target();
    a.requires.push(TargetId::new("b"));
    let mut b = target();
    b.requires.push(TargetId::new("c"));
    let c = target();

    let pipeline = pipeline_from(vec![("a", a), ("b", b), ("c", c)]);
    let plan = build_execution_plan(&pipeline).unwrap();
    assert_eq!(
        plan.waves,
        vec![
            vec![TargetId::new("c")],
            vec![TargetId::new("b")],
            vec![TargetId::new("a")],
        ]
    );
}

#[test]
fn independent_targets_share_a_wave() {
    let pipeline = pipeline_from(vec![("a", target()), ("b", target()), ("c", target())]);
    let plan = build_execution_plan(&pipeline).unwrap();
    assert_eq!(plan.waves.len(), 1);
    assert_eq!(
        plan.waves[0],
        vec![TargetId::new("a"), TargetId::new("b"), TargetId::new("c")]
    );
}

#[test]
fn diamond_dependency_three_waves() {
    let a = target();
    let mut b = target();
    b.requires.push(TargetId::new("a"));
    let mut c = target();
    c.requires.push(TargetId::new("a"));
    let mut d = target();
    d.requires.push(TargetId::new("b"));
    d.requires.push(TargetId::new("c"));

    let pipeline = pipeline_from(vec![("a", a), ("b", b), ("c", c), ("d", d)]);
    let plan = build_execution_plan(&pipeline).unwrap();
    assert_eq!(plan.waves.len(), 3);
    assert_eq!(plan.waves[0], vec![TargetId::new("a")]);
    assert_eq!(plan.waves[1], vec![TargetId::new("b"), TargetId::new("c")]);
    assert_eq!(plan.waves[2], vec![TargetId::new("d")]);
}

#[test]
fn cycle_returns_cyclic_dependency_error() {
    let mut a = target();
    a.requires.push(TargetId::new("b"));
    let mut b = target();
    b.requires.push(TargetId::new("a"));

    let pipeline = pipeline_from(vec![("a", a), ("b", b)]);
    let err = build_execution_plan(&pipeline).expect_err("cycle must surface");
    assert!(err.is_cyclic_dependency());
}

#[test]
fn unknown_requires_target_surfaces_typed_error() {
    let mut a = target();
    a.requires.push(TargetId::new("nope"));
    let pipeline = pipeline_from(vec![("a", a)]);
    let err = build_execution_plan(&pipeline).expect_err("unknown reference");
    assert!(err.is_unknown_target_reference());
}

#[test]
fn unknown_conflicts_target_surfaces_typed_error() {
    let mut a = target();
    a.conflicts.push(TargetId::new("nope"));
    let pipeline = pipeline_from(vec![("a", a)]);
    let err = build_execution_plan(&pipeline).expect_err("unknown reference");
    assert!(err.is_unknown_target_reference());
}

#[test]
fn conflicting_targets_split_into_separate_waves() {
    let mut a = target();
    a.conflicts.push(TargetId::new("b"));
    let mut b = target();
    b.conflicts.push(TargetId::new("a"));

    let pipeline = pipeline_from(vec![("a", a), ("b", b)]);
    let plan = build_execution_plan(&pipeline).unwrap();
    assert_eq!(plan.waves.len(), 2);
}

#[test]
fn three_way_conflict_packs_compatible_pair() {
    let mut a = target();
    a.conflicts.push(TargetId::new("b"));
    let mut b = target();
    b.conflicts.push(TargetId::new("a"));
    b.conflicts.push(TargetId::new("c"));
    let mut c = target();
    c.conflicts.push(TargetId::new("b"));

    let pipeline = pipeline_from(vec![("a", a), ("b", b), ("c", c)]);
    let plan = build_execution_plan(&pipeline).unwrap();
    assert_eq!(plan.waves.len(), 2);
    assert_eq!(plan.waves[0], vec![TargetId::new("a"), TargetId::new("c")]);
    assert_eq!(plan.waves[1], vec![TargetId::new("b")]);
}

#[test]
fn exclusive_resource_holders_split_wave() {
    let mut a = target();
    a.resources.push(ResourceRef::new(ResourceId::new("gpu"), AccessMode::Exclusive));
    let mut b = target();
    b.resources.push(ResourceRef::new(ResourceId::new("gpu"), AccessMode::Exclusive));

    let pipeline = pipeline_from(vec![("a", a), ("b", b)]);
    let plan = build_execution_plan(&pipeline).unwrap();
    assert_eq!(plan.waves.len(), 2);
}

#[test]
fn shared_resource_holders_share_a_wave() {
    let mut a = target();
    a.resources.push(ResourceRef::new(ResourceId::new("network"), AccessMode::Shared));
    let mut b = target();
    b.resources.push(ResourceRef::new(ResourceId::new("network"), AccessMode::Shared));

    let pipeline = pipeline_from(vec![("a", a), ("b", b)]);
    let plan = build_execution_plan(&pipeline).unwrap();
    assert_eq!(plan.waves.len(), 1);
    assert_eq!(plan.waves[0].len(), 2);
}

#[test]
fn exclusive_holder_against_shared_holder_splits() {
    let mut a = target();
    a.resources.push(ResourceRef::new(ResourceId::new("gpu"), AccessMode::Shared));
    let mut b = target();
    b.resources.push(ResourceRef::new(ResourceId::new("gpu"), AccessMode::Exclusive));
    let mut c = target();
    c.resources.push(ResourceRef::new(ResourceId::new("cpu"), AccessMode::Exclusive));
    let pipeline = pipeline_from(vec![("a", a), ("b", b), ("c", c)]);
    let plan = build_execution_plan(&pipeline).unwrap();
    assert_eq!(
        plan.waves,
        vec![
            vec![TargetId::new("a"), TargetId::new("c")],
            vec![TargetId::new("b")],
        ]
    );
}

#[test]
fn split_waves_stay_in_dependency_order() {
    // Level 0 holds a and b (conflicting), level 1 holds c and d.
    let mut a = target();
    a.conflicts.push(TargetId::new("b"));
    let mut b = target();
    b.conflicts.push(TargetId::new("a"));
    let mut c = target();
    c.requires.push(TargetId::new("a"));
    let mut d = target();
    d.requires.push(TargetId::new("b"));
    let pipeline = pipeline_from(vec![("a", a), ("b", b), ("c", c), ("d", d)]);
    let plan = build_execution_plan(&pipeline).unwrap();
    assert_eq!(
        plan.waves,
        vec![
            vec![TargetId::new("a")],
            vec![TargetId::new("b")],
            vec![TargetId::new("c"), TargetId::new("d")],
        ]
    );
}

#[test]
fn self_dependency_is_a_cycle() {
    let mut a = target();
    a.requires.push(TargetId::new("a"));
    let pipeline = pipeline_from(vec![("a", a)]);
    let err = build_execution_plan(&pipeline).unwrap_err();
    assert_eq!(
        err.to_string(),
        "kiln pipeline has a cyclic dependency: cycle detected in target dependency graph"
    );
}

#[test]
fn plan_places_every_target_once_after_its_requirements() {
    // A wider graph: each target requires the previous two.
    let names = ["t0", "t1", "t2", "t3", "t4", "t5"];
    let mut pipeline = Pipeline::new();
    for (i, name) in names.iter().enumerate() {
        let mut t = target();
        if i >= 1 {
            t.requires.push(TargetId::new(names[i - 1]));
        }
        if i >= 2 {
            t.requires.push(TargetId::new(names[i - 2]));
        }
        pipeline.add(TargetId::new(name), t);
    }
    let plan = build_execution_plan(&pipeline).unwrap();
    let wave_of = |id: &str| {
        plan.waves
            .iter()
            .position(|w| w.iter().any(|x| x.as_str() == id))
            .unwrap()
    };
    let total: usize = plan.waves.iter().map(|w| w.len()).sum();
    assert_eq!(total, names.len());
    for (i, name) in names.iter().enumerate() {
        if i >= 1 {
            assert!(wave_of(names[i - 1]) < wave_of(name));
        }
    }
    assert_eq!(plan.waves.len(), names.len());
}

// ---- builders ----

#[test]
fn target_builder_requires_shell_and_run() {
    let err = TargetBuilder::new().build().expect_err("shell missing must error");
    assert!(err.is_missing_required());

    let err = TargetBuilder::new()
        .shell("bash")
        .build()
        .expect_err("run missing must error");
    assert!(err.is_missing_required());

    let err = TargetBuilder::new()
        .run("true")
        .build()
        .expect_err("shell missing must error");
    assert!(err.is_missing_required());
}

#[test]
fn target_builder_names_the_missing_field() {
    let err = TargetBuilder::new().run("true").build().unwrap_err();
    assert_eq!(err.to_string(), "builder is missing the required `shell` field");
    let err = TargetBuilder::new().shell("bash").build().unwrap_err();
    assert_eq!(err.to_string(), "builder is missing the required `run` field");
}

#[test]
fn target_builder_populates_all_fields() {
    let target = Target::builder()
        .shell("bash")
        .run("echo hello")
        .cleanup(ShellBlock::new("bash", "echo bye"))
        .requirements(vec!["a", "b"])
        .conflicts(vec!["c"])
        .resources(vec![ResourceRef::new(ResourceId::new("gpu"), AccessMode::Exclusive)])
        .inputs(vec!["src", "dst"])
        .outputs(vec!["log"])
        .metadata("key", serde_json::Value::String("value".to_owned()))
        .build()
        .unwrap();

    assert_eq!(target.run.interpreter, "bash");
    assert_eq!(target.run.code, "echo hello");
    assert!(target.cleanup.is_some());
    assert_eq!(target.requires.len(), 2);
    assert_eq!(target.conflicts.len(), 1);
    assert_eq!(target.resources.len(), 1);
    assert_eq!(target.inputs, vec!["src".to_owned(), "dst".to_owned()]);
    assert_eq!(target.outputs, vec!["log".to_owned()]);
    assert_eq!(
        target.metadata.get("key"),
        Some(&serde_json::Value::String("value".to_owned()))
    );
}

#[test]
fn target_builder_singular_setters_append() {
    let target = Target::builder()
        .shell("bash")
        .run("true")
        .require("a")
        .require("b")
        .conflict("c")
        .input("x")
        .output("y")
        .build()
        .unwrap();

    assert_eq!(target.requires, vec![TargetId::new("a"), TargetId::new("b")]);
    assert_eq!(target.conflicts, vec![TargetId::new("c")]);
    assert_eq!(target.inputs, vec!["x".to_owned()]);
    assert_eq!(target.outputs, vec!["y".to_owned()]);
}

#[test]
fn target_builder_fetch_setters_append_specs() {
    let target = Target::builder()
        .shell("bash")
        .run("true")
        .fetch("https://example/a", std::path::PathBuf::from("a"))
        .fetch_with_blake3("https://example/b", std::path::PathBuf::from("b"), "ab")
        .build()
        .unwrap();
    assert_eq!(target.fetches.len(), 2);
    assert_eq!(target.fetches[0].url, "https://example/a");
    assert!(target.fetches[0].blake3_hex.is_none());
    assert_eq!(target.fetches[1].blake3_hex.as_deref(), Some("ab"));
}

#[test]
fn pipeline_builder_assembles_validated_pipeline() {
    let pipeline = Pipeline::builder()
        .target("a", Target::builder().shell("bash").run("true").build().unwrap())
        .target(
            "b",
            Target::builder()
                .shell("bash")
                .run("true")
                .require("a")
                .build()
                .unwrap(),
        )
        .build()
        .unwrap();

    assert_eq!(pipeline.len(), 2);
    assert!(pipeline.contains(&TargetId::new("a")));
    assert!(pipeline.contains(&TargetId::new("b")));
}

#[test]
fn pipeline_builder_rejects_unknown_reference() {
    let err = Pipeline::builder()
        .target(
            "a",
            Target::builder()
                .shell("bash")
                .run("true")
                .require("ghost")
                .build()
                .unwrap(),
        )
        .build()
        .expect_err("ghost target");
    assert!(err.is_unknown_target_reference());
}

#[test]
fn pipeline_builder_chains_resource_and_metadata() {
    let pipeline = Pipeline::builder()
        .resource(Resource::new(ResourceId::new("gpu"), AccessMode::Exclusive))
        .metadata("owner", serde_json::Value::String("kiln".to_owned()))
        .build()
        .unwrap();

    assert_eq!(pipeline.resources.len(), 1);
    assert_eq!(
        pipeline.metadata.get("owner"),
        Some(&serde_json::Value::String("kiln".to_owned()))
    );
}

#[test]
fn builders_are_send() {
    fn assert_send<T: Send>() {}
    assert_send::<TargetBuilder>();
    assert_send::<kiln::builder::PipelineBuilder>();
}

#[test]
fn conflict_declared_by_one_side_splits_the_wave() {
    let mut a = target();
    a.conflicts.push(TargetId::new("b"));
    let b = target();
    let pipeline = pipeline_from(vec![("a", a), ("b", b)]);
    let plan = build_execution_plan(&pipeline).unwrap();
    assert_eq!(plan.waves, vec![vec![TargetId::new("a")], vec![TargetId::new("b")]]);

    let a = target();
    let mut b = target();
    b.conflicts.push(TargetId::new("a"));
    let pipeline = pipeline_from(vec![("a", a), ("b", b)]);
    let plan = build_execution_plan(&pipeline).unwrap();
    assert_eq!(plan.waves, vec![vec![TargetId::new("a")], vec![TargetId::new("b")]]);
}

#[test]
fn inspect_key_splits_into_shard_and_rest() {
    assert_eq!(
        inspect_key_parts("  abcdef \n").unwrap(),
        ("ab".to_owned(), "cdef".to_owned())
    );
    assert_eq!(
        inspect_key_parts(" abc ").unwrap_err(),
        "hex key `abc` is too short (must be at least 4 chars)"
    );
    // Characters, not bytes: a multi-byte character is never split.
    assert_eq!(
        inspect_key_parts("\u{e9}\u{e9}xy").unwrap(),
        ("\u{e9}\u{e9}".to_owned(), "xy".to_owned())
    );
}
