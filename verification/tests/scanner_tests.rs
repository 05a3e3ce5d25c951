use nm_remover::scanner::scan_for_node_modules;
use nm_remover::scanner::tree_size_fits;
use nm_remover::scanner::try_dir_size;
use nm_remover::scanner::DirTree;

fn dir(name: &str, file_bytes: u64, subdirs: Vec<DirTree>) -> DirTree {
    DirTree { name: name.to_owned(), file_bytes, modified: None, subdirs }
}

#[test]
fn test_finds_first_level_node_modules() {
    // project1/node_modules holds some_package/node_modules: only the outer
    // one is reported, the nested one is pruned away.
    let root = dir(
        "root",
        0,
        vec![dir(
            "project1",
            0,
            vec![dir(
                "node_modules",
                0,
                vec![dir("some_package", 0, vec![dir("node_modules", 0, vec![])])],
            )],
        )],
    );
    let results = scan_for_node_modules(&"/tmp/root".to_owned(), &root);
    assert_eq!(results.len(), 1);
    assert_eq!(results[0].path, "/tmp/root/project1/node_modules");
}

#[test]
fn test_finds_multiple_projects() {
    let root = dir(
        "root",
        0,
        vec![
            dir("project1", 0, vec![dir("node_modules", 0, vec![])]),
            dir("project2", 0, vec![dir("node_modules", 0, vec![])]),
        ],
    );
    let results = scan_for_node_modules(&"/tmp/root".to_owned(), &root);
    assert_eq!(results.len(), 2);
}

#[test]
fn scan_of_empty_directory_is_empty_success() {
    let root = dir("empty", 0, vec![]);
    let results = scan_for_node_modules(&"/e".to_owned(), &root);
    assert_eq!(results.len(), 0);
}

#[test]
fn scan_root_files_do_not_make_entries() {
    // Plain files at the root (modelled by file_bytes) produce no entries.
    let root = dir("root", 1234, vec![dir("src", 77, vec![])]);
    let results = scan_for_node_modules(&"/r".to_owned(), &root);
    assert_eq!(results.len(), 0);
}

#[test]
fn entry_size_sums_whole_marker_subtree() {
    // The size walk descends into the marker directory without restriction,
    // nested marker included, though discovery never reports the inner one.
    let root = dir(
        "root",
        5,
        vec![dir(
            "app",
            7,
            vec![dir(
                "node_modules",
                100,
                vec![
                    dir("left", 20, vec![]),
                    dir("deep", 3, vec![dir("node_modules", 9, vec![])]),
                ],
            )],
        )],
    );
    let results = scan_for_node_modules(&"/r".to_owned(), &root);
    assert_eq!(results.len(), 1);
    assert_eq!(results[0].path, "/r/app/node_modules");
    assert_eq!(results[0].size, 100 + 20 + 3 + 9);
}

#[test]
fn siblings_under_different_ancestors_are_both_found() {
    let root = dir(
        "root",
        0,
        vec![
            dir("a", 0, vec![dir("node_modules", 11, vec![])]),
            dir("b", 0, vec![dir("c", 0, vec![dir("node_modules", 22, vec![])])]),
        ],
    );
    let results = scan_for_node_modules(&"/r".to_owned(), &root);
    assert_eq!(results.len(), 2);
    let mut sizes: Vec<u64> = results.iter().map(|e| e.size).collect();
    sizes.sort();
    assert_eq!(sizes, vec![11, 22]);
}

#[test]
fn scan_keeps_modification_times() {
    let mut marker = dir("node_modules", 1, vec![]);
    marker.modified = Some(1_000_000);
    let root = dir("root", 0, vec![dir("p", 0, vec![marker])]);
    let results = scan_for_node_modules(&"/r".to_owned(), &root);
    assert_eq!(results.len(), 1);
    assert_eq!(results[0].last_modified, Some(1_000_000));
}

#[test]
fn end_to_end_scan_of_two_projects() {
    // /tmp/x holds a/node_modules (100+200+300 bytes of files) and
    // b/c/node_modules (one 50-byte file); a/node_modules/sub/node_modules
    // is ignored by discovery.
    let root = dir(
        "x",
        0,
        vec![
            dir(
                "a",
                0,
                vec![dir(
                    "node_modules",
                    600,
                    vec![dir("sub", 0, vec![dir("node_modules", 0, vec![])])],
                )],
            ),
            dir("b", 0, vec![dir("c", 0, vec![dir("node_modules", 50, vec![])])]),
        ],
    );
    assert!(tree_size_fits(&root));
    let results = scan_for_node_modules(&"/tmp/x".to_owned(), &root);
    assert_eq!(results.len(), 2);
    let mut found: Vec<(String, u64)> =
        results.iter().map(|e| (e.path.clone(), e.size)).collect();
    found.sort();
    assert_eq!(
        found,
        vec![
            ("/tmp/x/a/node_modules".to_owned(), 600),
            ("/tmp/x/b/c/node_modules".to_owned(), 50),
        ]
    );
}

#[test]
fn try_dir_size_totals_the_tree() {
    let root = dir(
        "r",
        10,
        vec![dir("a", 20, vec![dir("b", 30, vec![])]), dir("c", 40, vec![])],
    );
    assert_eq!(try_dir_size(&root), Some(100));
    assert!(tree_size_fits(&root));
}

#[test]
fn try_dir_size_reports_overflow() {
    let root = dir(
        "r",
        u64::MAX,
        vec![dir("a", 1, vec![])],
    );
    assert_eq!(try_dir_size(&root), None);
    assert!(!tree_size_fits(&root));
}
