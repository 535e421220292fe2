use std::collections::HashSet;

use differential_review::map::{compute_map_rows, MapRow};
use differential_review::tree::{files_under, TreeEntry, TreeKind};

fn dir(depth: usize, path: &str) -> TreeEntry {
    TreeEntry { depth, kind: TreeKind::Dir { path: path.to_string() } }
}

fn file(depth: usize, file_idx: usize) -> TreeEntry {
    TreeEntry { depth, kind: TreeKind::File { file_idx } }
}

#[test]
fn the_map_folds_what_the_group_does_not_touch() {
    let tree = vec![
        dir(0, "src"),
        dir(1, "src/app"),
        file(2, 0),
        file(2, 1),
        dir(1, "src/deep"),
        dir(2, "src/deep/er"),
        dir(3, "src/deep/er/est"),
        file(4, 2),
        file(4, 3),
        file(1, 4),
        file(1, 5),
        file(1, 6),
    ];
    let paths: Vec<String> = [
        "src/app/a.rs",
        "src/app/b.rs",
        "src/deep/er/est/x.rs",
        "src/deep/er/est/y.rs",
        "src/lib.rs",
        "src/main.rs",
        "src/util.rs",
    ]
    .iter()
    .map(|p| p.to_string())
    .collect();
    let mine: HashSet<usize> = [0, 6].into_iter().collect();
    let rows = compute_map_rows(&tree, &paths, &mine);
    assert_eq!(
        rows,
        vec![
            MapRow::Dir { depth: 0, name: "src".into() },
            MapRow::Dir { depth: 1, name: "app".into() },
            MapRow::File { depth: 2, file_idx: 0 },
            MapRow::More { depth: 2, files: 1 },
            MapRow::Folded { depth: 1, name: "deep/er/est".into(), files: 2 },
            MapRow::More { depth: 1, files: 2 },
            MapRow::File { depth: 1, file_idx: 6 },
        ]
    );
    assert_eq!(rows.iter().map(MapRow::depth).collect::<Vec<_>>(), [0, 1, 2, 2, 1, 1, 1]);
}

#[test]
fn a_group_that_touches_nothing_folds_the_whole_tree() {
    let tree = vec![dir(0, "a"), dir(1, "a/b"), file(2, 0), dir(0, "c"), file(1, 1), file(1, 2)];
    let paths: Vec<String> = ["a/b/x.rs", "c/y.rs", "c/z.rs"].iter().map(|p| p.to_string()).collect();
    let rows = compute_map_rows(&tree, &paths, &HashSet::new());
    assert_eq!(
        rows,
        vec![
            MapRow::Folded { depth: 0, name: "a/b".into(), files: 1 },
            MapRow::Folded { depth: 0, name: "c".into(), files: 2 },
        ]
    );
    assert!(compute_map_rows(&[], &[], &HashSet::new()).is_empty());
}

#[test]
fn a_directory_covers_the_files_under_it_in_path_order() {
    let paths: Vec<String> =
        ["src/b.rs", "src/a.rs", "srcx/c.rs", "src/deep/z.rs", "README.md", "src/a.rs"].iter().map(|p| p.to_string()).collect();
    let tree = vec![dir(0, "src"), dir(1, "src/deep"), file(2, 3), file(1, 1), file(0, 4)];
    assert_eq!(files_under(&tree, &paths, 0), [1, 5, 0, 3], "equal paths keep their order; srcx is not under src");
    assert_eq!(files_under(&tree, &paths, 1), [3]);
    assert_eq!(files_under(&tree, &paths, 3), [1]);
    assert!(files_under(&tree, &paths, 9).is_empty());
}
