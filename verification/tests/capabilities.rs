use concord::capabilities::{
    capability_for_path, CapabilityCatalog, CapabilitySource, CapabilityStatus, ComparisonPlan, PlannedToolStatus,
};
use concord::config::Config;
use concord::model::Tool;

#[test]
fn known_extension_is_supported() {
    let decision = capability_for_path(Tool::Prettier, "app.ts", None);
    assert_eq!(decision.status, CapabilityStatus::Supported);
}

#[test]
fn unknown_extension_is_attempted() {
    let decision = capability_for_path(Tool::Prettier, "template.foo", None);
    assert_eq!(decision.status, CapabilityStatus::Unknown);
    assert_eq!(decision.source, CapabilitySource::Unknown);
}

#[test]
fn oxfmt_capability_is_versioned() {
    let known = capability_for_path(Tool::Oxfmt, "package-lock.json", Some("oxfmt 0.60.0"));
    assert_eq!(known.status, CapabilityStatus::Unsupported);
    let future = capability_for_path(Tool::Oxfmt, "package-lock.json", Some("0.61.0"));
    assert_eq!(future.status, CapabilityStatus::Unknown);
}

#[test]
fn configuration_distinguishes_unsupported_and_skipped() {
    let mut config = Config::default();
    config.tools.biome.unsupported = vec!["**/lock.json".into()];
    config.tools.biome.exclude = vec!["**/generated/**".into()];
    config.tools.biome.includes = vec!["**/*.json".into()];
    let catalog = CapabilityCatalog::new(&config).expect("catalog");
    assert_eq!(
        catalog.classify("/project", Tool::Biome, "/project/lock.json", None).status,
        PlannedToolStatus::Unsupported
    );
    assert_eq!(
        catalog.classify("/project", Tool::Biome, "/project/generated/file.json", None).status,
        PlannedToolStatus::Skipped
    );
    assert_eq!(
        catalog.classify("/project", Tool::Biome, "/project/file.ts", None).status,
        PlannedToolStatus::Skipped
    );
}

#[test]
fn comparison_plan_paths_are_sorted() {
    let config = Config::default();
    let catalog = CapabilityCatalog::new(&config).expect("catalog");
    let plan = ComparisonPlan::build(
        "/project",
        &vec!["/project/z.ts".into(), "/project/a.ts".into()],
        Tool::Eslint,
        Tool::Biome,
        None,
        None,
        &catalog,
        Vec::new(),
    );
    assert_eq!(plan.comparable, ["a.ts", "z.ts"]);
    assert_eq!(plan.discovered[0].path, "a.ts");
}

#[test]
fn every_discovered_file_is_counted_once() {
    let mut config = Config::default();
    config.tools.biome.unsupported = vec!["**/lock.json".into()];
    config.tools.biome.exclude = vec!["**/generated/**".into()];
    config.tools.biome.includes = vec!["**/*.json".into()];
    let catalog = CapabilityCatalog::new(&config).expect("catalog");
    let plan = ComparisonPlan::build(
        "/project",
        &vec![
            "/project/lock.json".into(),
            "/project/generated/file.json".into(),
            "/project/data.json".into(),
            "/project/app.ts".into(),
        ],
        Tool::Prettier,
        Tool::Biome,
        None,
        None,
        &catalog,
        Vec::new(),
    );
    assert_eq!(plan.discovered_count(), 4);
    assert_eq!(plan.comparable_count(), 1);
    assert_eq!(plan.unsupported_count(), 1);
    assert_eq!(plan.skipped_count(), 2);
    assert_eq!(
        plan.comparable_count() + plan.unsupported_count() + plan.skipped_count(),
        plan.discovered_count()
    );
}
