use artifact_cleaner::{
    artifact_kinds, get_directory_size, get_project_info, is_manifest_name, is_project_manifest,
    is_pruned_name, scan_for_projects, FileStat, ProjectInfo, WalkEntry,
};

const MTIME: u64 = 1_700_000_000;

fn comps(path: &str) -> Vec<String> {
    path.split('/').map(|s| s.to_string()).collect()
}

fn file(len: u64) -> FileStat {
    FileStat { is_file: true, len }
}

fn dir() -> FileStat {
    FileStat { is_file: false, len: 4096 }
}

fn plain(path: &str) -> WalkEntry {
    WalkEntry {
        components: comps(path),
        project_dir: String::new(),
        artifacts: Vec::new(),
        node_modules_mtime: None,
    }
}

fn manifest(path: &str, dir: &str, artifacts: Vec<Option<u64>>, mtime: Option<u64>) -> WalkEntry {
    WalkEntry {
        components: comps(path),
        project_dir: dir.to_string(),
        artifacts,
        node_modules_mtime: mtime,
    }
}

/// Probes of the eight artifact kinds with only node_modules present.
fn only_node_modules(size: u64) -> Vec<Option<u64>> {
    let mut v = vec![None; 8];
    v[0] = Some(size);
    v
}

#[test]
fn happy_path_reports_one_project() {
    let node_modules = get_directory_size(&vec![dir(), file(10)]);
    let dist = get_directory_size(&vec![dir(), file(5)]);
    let artifacts = vec![Some(node_modules), Some(dist), None, None, None, None, None, None];
    let entries = vec![
        plain("proj"),
        manifest("proj/package.json", "T/proj", artifacts, Some(MTIME)),
        plain("proj/dist"),
        plain("proj/dist/b.js"),
    ];
    let found = scan_for_projects(&entries);
    assert_eq!(
        found,
        vec![ProjectInfo { path: "T/proj".to_string(), last_modified: MTIME, size: 15 }]
    );
}

#[test]
fn artifacts_without_node_modules_are_not_reported() {
    let artifacts = vec![None, Some(5), None, None, None, None, None, None];
    let entries = vec![
        plain("proj"),
        manifest("proj/package.json", "T/proj", artifacts, None),
        plain("proj/dist"),
        plain("proj/dist/b.js"),
    ];
    assert!(scan_for_projects(&entries).is_empty());
}

#[test]
fn project_under_hidden_directory_is_pruned() {
    let entries = vec![manifest(
        ".hidden/proj/package.json",
        "T/.hidden/proj",
        only_node_modules(1),
        Some(MTIME),
    )];
    assert!(scan_for_projects(&entries).is_empty());
}

#[test]
fn manifest_deeper_than_five_levels_is_ignored() {
    let deep = manifest(
        "a/b/c/d/e/proj/package.json",
        "T/a/b/c/d/e/proj",
        only_node_modules(1),
        Some(MTIME),
    );
    assert!(scan_for_projects(&vec![deep]).is_empty());
    let shallow = manifest("a/b/c/proj/package.json", "T/a/b/c/proj", only_node_modules(1), Some(MTIME));
    let found = scan_for_projects(&vec![shallow]);
    assert_eq!(found.len(), 1);
    assert_eq!(found[0].path, "T/a/b/c/proj");
}

#[test]
fn manifest_at_depth_six_is_outside_the_walk() {
    assert!(is_project_manifest(&comps("a/b/c/d/package.json")));
    assert!(!is_project_manifest(&comps("a/b/c/d/e/package.json")));
}

#[test]
fn nested_node_modules_manifest_is_not_reported() {
    let entries = vec![
        manifest("proj/package.json", "T/proj", only_node_modules(3), Some(MTIME)),
        manifest(
            "proj/node_modules/sub/package.json",
            "T/proj/node_modules/sub",
            only_node_modules(1),
            Some(MTIME),
        ),
    ];
    let found = scan_for_projects(&entries);
    assert_eq!(
        found,
        vec![ProjectInfo { path: "T/proj".to_string(), last_modified: MTIME, size: 3 }]
    );
}

#[test]
fn projects_come_in_walk_order() {
    let entries = vec![
        manifest("b/package.json", "T/b", only_node_modules(2), Some(9)),
        plain("b/src"),
        manifest("a/package.json", "T/a", only_node_modules(1), Some(8)),
    ];
    let found = scan_for_projects(&entries);
    assert_eq!(found.len(), 2);
    assert_eq!(found[0].path, "T/b");
    assert_eq!(found[1].path, "T/a");
    assert_eq!(found[1].last_modified, 8);
}

#[test]
fn dropping_a_too_deep_entry_changes_nothing() {
    let keep = manifest("p/package.json", "T/p", only_node_modules(4), Some(MTIME));
    let deep = manifest("a/b/c/d/e/f/package.json", "T/a/b/c/d/e/f", only_node_modules(4), Some(MTIME));
    let with_deep = vec![
        manifest("p/package.json", "T/p", only_node_modules(4), Some(MTIME)),
        deep,
    ];
    assert_eq!(scan_for_projects(&with_deep), scan_for_projects(&vec![keep]));
}

#[test]
fn pruned_names() {
    assert!(is_pruned_name(".git"));
    assert!(is_pruned_name(".next"));
    assert!(is_pruned_name("node_modules"));
    assert!(!is_pruned_name("node_module"));
    assert!(!is_pruned_name("src"));
    assert!(!is_pruned_name(""));
    assert!(!is_pruned_name("a.b"));
}

#[test]
fn manifest_name_is_exact() {
    assert!(is_manifest_name("package.json"));
    assert!(!is_manifest_name("Package.json"));
    assert!(!is_manifest_name("package.json5"));
}

#[test]
fn manifest_path_rules() {
    assert!(is_project_manifest(&comps("proj/package.json")));
    assert!(is_project_manifest(&comps("package.json")));
    assert!(!is_project_manifest(&comps("proj/.config/package.json")));
    assert!(!is_project_manifest(&comps("proj/node_modules/x/package.json")));
    assert!(!is_project_manifest(&comps("proj/index.js")));
    assert!(!is_project_manifest(&Vec::new()));
}

#[test]
fn directory_size_counts_regular_files_only() {
    assert_eq!(get_directory_size(&vec![dir(), file(10), dir(), file(5), file(0)]), 15);
    assert_eq!(get_directory_size(&Vec::new()), 0);
    assert_eq!(get_directory_size(&vec![dir()]), 0);
}

#[test]
fn directory_size_saturates() {
    assert_eq!(get_directory_size(&vec![file(u64::MAX), file(1)]), u64::MAX);
}

#[test]
fn project_size_is_the_sum_over_artifacts() {
    let sizes = [7u64, 11, 13];
    let listings: Vec<Vec<FileStat>> = sizes.iter().map(|n| vec![dir(), file(*n), file(1)]).collect();
    let mut artifacts = vec![None; 8];
    artifacts[0] = Some(get_directory_size(&listings[0]));
    artifacts[2] = Some(get_directory_size(&listings[1]));
    artifacts[7] = Some(get_directory_size(&listings[2]));
    let info = get_project_info("T/p".to_string(), &artifacts, Some(3)).unwrap();
    assert_eq!(info.size, 8 + 12 + 14);
}

#[test]
fn project_info_needs_an_artifact_and_a_witness() {
    assert_eq!(get_project_info("T/p".to_string(), &vec![None; 8], Some(1)), None);
    assert_eq!(get_project_info("T/p".to_string(), &only_node_modules(2), None), None);
    let info = get_project_info("T/p".to_string(), &only_node_modules(2), Some(1));
    assert_eq!(info, Some(ProjectInfo { path: "T/p".to_string(), last_modified: 1, size: 2 }));
}

#[test]
fn empty_artifact_directory_still_counts_as_present() {
    let info = get_project_info("T/p".to_string(), &only_node_modules(0), Some(5));
    assert_eq!(info, Some(ProjectInfo { path: "T/p".to_string(), last_modified: 5, size: 0 }));
}

#[test]
fn artifact_kinds_in_order() {
    assert_eq!(
        artifact_kinds(),
        vec!["node_modules", "dist", "build", ".next", "out", ".cache", ".parcel-cache", ".webpack"]
    );
}
