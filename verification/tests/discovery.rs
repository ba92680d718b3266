use concord::config::DiscoveryConfig;
use concord::discovery::{
    collect_discovered, discovery_targets, missing_input, skips, unsupported_input, walk_failure, Discovered,
    DiscoveryFilter,
};
use concord::error::ErrorKind;

fn found(entries: &[(&str, &str)]) -> Vec<Discovered> {
    entries.iter().map(|(n, p)| Discovered { normalized: (*n).into(), path: (*p).into() }).collect()
}

#[test]
fn default_ignored_directories_are_skipped_below_the_walk_root() {
    assert!(skips("/p", "/p", "/p/node_modules/pkg/index.js"));
    assert!(skips("/p", "/p", "/p/src/.git"));
    assert!(skips("/p", "/p", "/p/coverage"));
    assert!(!skips("/p", "/p", "/p/src/app.ts"));
    assert!(!skips("/p", "/p/dist", "/p/dist"));
}

#[test]
fn default_filter_takes_sources_and_leaves_documents() {
    let filter = DiscoveryFilter::new(&DiscoveryConfig::default()).expect("filter");
    assert!(filter.is_supported("src/app.ts"));
    assert!(filter.is_supported("package.json"));
    assert!(!filter.is_supported("src/readme.md"));
    assert!(!filter.is_supported("src/generated/app.ts"));
}

#[test]
fn invalid_discovery_glob_names_its_field() {
    let config = DiscoveryConfig { includes: vec!["[oops".into()], exclude: Vec::new() };
    let error = DiscoveryFilter::new(&config).expect_err("invalid glob");
    assert_eq!(error.kind, ErrorKind::Usage);
    assert!(error.message.contains("discovery.include"));
    assert!(error.message.contains("[oops"));
}

#[test]
fn targets_default_to_the_root() {
    assert_eq!(discovery_targets("/p", &Vec::new()), vec!["/p".to_owned()]);
    assert_eq!(
        discovery_targets("/p", &vec!["src".into(), "/abs/file.ts".into()]),
        vec!["/p/src".to_owned(), "/abs/file.ts".to_owned()]
    );
}

#[test]
fn discovery_errors_name_the_path() {
    let missing = missing_input("/p/nope");
    assert_eq!(missing.kind, ErrorKind::Usage);
    assert_eq!(missing.message, "input path does not exist: /p/nope");
    assert_eq!(unsupported_input("notes.md").message, "unsupported or excluded file: notes.md");
    let walk = walk_failure("/p", "permission denied");
    assert_eq!(walk.kind, ErrorKind::Operational);
    assert_eq!(walk.message, "failed while discovering files under /p\nerror: permission denied");
}

#[test]
fn collected_files_are_sorted_and_unique() {
    let paths = collect_discovered(found(&[("z.ts", "/p/z.ts"), ("a.ts", "/p/a.ts"), ("z.ts", "/p/z.ts")]));
    assert_eq!(paths, vec!["/p/a.ts".to_owned(), "/p/z.ts".to_owned()]);
}

#[test]
fn walk_order_does_not_change_the_result() {
    let first = collect_discovered(found(&[("b.ts", "/p/b.ts"), ("a/c.ts", "/p/a/c.ts"), ("a.ts", "/p/a.ts")]));
    let second = collect_discovered(found(&[("a.ts", "/p/a.ts"), ("b.ts", "/p/b.ts"), ("a/c.ts", "/p/a/c.ts")]));
    assert_eq!(first, second);
    assert_eq!(first, vec!["/p/a.ts".to_owned(), "/p/a/c.ts".to_owned(), "/p/b.ts".to_owned()]);
}

#[test]
fn project_under_an_ignored_directory_is_still_walked() {
    assert!(!skips("/build", "/build", "/build/a"));
    assert!(!skips("/home/dist/project", "/home/dist/project", "/home/dist/project/src/app.ts"));
    assert!(skips("/home/dist/project", "/home/dist/project", "/home/dist/project/dist/app.js"));
    assert!(skips("/home/dist/project", "/home/dist/project", "/home/dist/project/src/node_modules"));
}

#[test]
fn an_input_directory_inside_an_ignored_directory_yields_nothing() {
    assert!(!skips("/p", "/p/dist/sub", "/p/dist/sub"));
    assert!(skips("/p", "/p/dist/sub", "/p/dist/sub/app.js"));
    assert!(skips("/p", "/p/build", "/p/build/x/a.ts"));
}
