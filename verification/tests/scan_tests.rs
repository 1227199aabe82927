use volumetrik::fstree::FsEntry;
use volumetrik::scan::{analyze_recursive, child_stats, join_path_str, scan_path};

fn file(name: &str, size: u64, modified: u64) -> FsEntry {
    FsEntry::File { name: name.to_string(), size, modified }
}

fn dir(name: &str, modified: u64, children: Vec<FsEntry>) -> FsEntry {
    FsEntry::Dir { name: name.to_string(), modified, children }
}

fn symlink(name: &str) -> FsEntry {
    FsEntry::Symlink { name: name.to_string() }
}

fn unreadable(name: &str, is_dir: bool) -> FsEntry {
    FsEntry::Unreadable { name: name.to_string(), is_dir }
}

#[test]
fn empty_directory_scan() {
    let children: Vec<FsEntry> = Vec::new();
    let (files, analysis) = scan_path("/base", &children);
    assert_eq!(files.len(), 0);
    assert_eq!(analysis.total_size, 0);
    assert_eq!(analysis.total_files, 0);
    assert_eq!(analysis.extension_distribution.entries.len(), 0);
}

#[test]
fn single_file_aggregate() {
    let e = file("notes.txt", 120, 1700000000);
    let (size, count, m) = analyze_recursive(&e);
    assert_eq!(size, 120);
    assert_eq!(count, 1);
    assert_eq!(m.lookup("txt"), Some(120));
    assert_eq!(m.lookup("pdf"), None);
}

#[test]
fn nested_tree_totals() {
    let tree = dir(
        "root",
        5,
        vec![
            file("a.txt", 100, 1),
            file("b.TXT", 50, 2),
            dir(
                "sub",
                6,
                vec![file("c.log", 25, 3), file("README", 7, 4), dir("deep", 7, vec![file("d.txt", 3, 8)])],
            ),
        ],
    );
    let (size, count, m) = analyze_recursive(&tree);
    assert_eq!(size, 100 + 50 + 25 + 7 + 3);
    assert_eq!(count, 5);
    // lowercased keys merge across depths
    assert_eq!(m.lookup("txt"), Some(153));
    assert_eq!(m.lookup("log"), Some(25));
    assert_eq!(m.lookup("unknown"), Some(7));
    // distribution sums back to the total size
    let mut dist_sum: u64 = 0;
    for entry in &m.entries {
        dist_sum += entry.size;
    }
    assert_eq!(dist_sum, size);
}

#[test]
fn scan_reports_children_in_order() {
    let children = vec![
        file("z.bin", 10, 1),
        dir("docs", 2, vec![file("a.md", 5, 1), file("b.md", 6, 1)]),
        symlink("link-to-elsewhere"),
        unreadable("secret", true),
    ];
    let (files, analysis) = scan_path("/base", &children);
    assert_eq!(files.len(), 4);

    assert_eq!(files[0].name, "z.bin");
    assert_eq!(files[0].path, "/base/z.bin");
    assert!(!files[0].is_dir);
    assert_eq!(files[0].size, 10);
    assert_eq!(files[0].file_count, 1);
    assert_eq!(files[0].modified, 1);

    assert_eq!(files[1].name, "docs");
    assert!(files[1].is_dir);
    assert_eq!(files[1].size, 11);
    assert_eq!(files[1].file_count, 2);
    assert_eq!(files[1].modified, 2);

    // the symlink is listed but contributes nothing
    assert_eq!(files[2].name, "link-to-elsewhere");
    assert!(!files[2].is_dir);
    assert_eq!(files[2].size, 0);
    assert_eq!(files[2].file_count, 0);

    // the unreadable child keeps its classification, contributes nothing
    assert_eq!(files[3].name, "secret");
    assert!(files[3].is_dir);
    assert_eq!(files[3].size, 0);
    assert_eq!(files[3].file_count, 0);

    assert_eq!(analysis.total_size, 21);
    assert_eq!(analysis.total_files, 3);
}

#[test]
fn distribution_counts_contributing_children() {
    // two children contribute the md bucket, one contributes bin
    let children = vec![
        dir("d1", 1, vec![file("x.md", 4, 1)]),
        dir("d2", 1, vec![file("y.md", 6, 1)]),
        file("z.bin", 10, 1),
    ];
    let (_files, analysis) = scan_path("/p", &children);
    let md = analysis.extension_distribution.stats_for("md").unwrap();
    assert_eq!(md.size, 10);
    assert_eq!(md.count, 2);
    let bin = analysis.extension_distribution.stats_for("bin").unwrap();
    assert_eq!(bin.size, 10);
    assert_eq!(bin.count, 1);
    assert!(analysis.extension_distribution.stats_for("txt").is_none());
}

#[test]
fn distribution_sizes_sum_to_total() {
    let children = vec![
        file("a.rs", 11, 1),
        file("b.rs", 22, 1),
        dir("sub", 1, vec![file("c.toml", 5, 1), file("noext", 9, 1)]),
    ];
    let (_files, analysis) = scan_path("/p", &children);
    let mut sum: u64 = 0;
    for entry in &analysis.extension_distribution.entries {
        sum += entry.size;
    }
    assert_eq!(sum, analysis.total_size);
    assert_eq!(analysis.total_size, 47);
}

#[test]
fn symlinks_never_counted() {
    let tree = dir(
        "root",
        1,
        vec![file("real.dat", 40, 1), symlink("cycle"), dir("sub", 1, vec![symlink("again")])],
    );
    let (size, count, m) = analyze_recursive(&tree);
    assert_eq!(size, 40);
    assert_eq!(count, 1);
    assert_eq!(m.bucket_count(), 1);
}

#[test]
fn unreadable_child_contributes_zero() {
    let children = vec![
        file("ok1.txt", 30, 1),
        unreadable("denied", true),
        file("ok2.txt", 12, 1),
        unreadable("gone.tmp", false),
    ];
    let (files, analysis) = scan_path("/base", &children);
    assert_eq!(files.len(), 4);
    assert_eq!(analysis.total_size, 42);
    assert_eq!(analysis.total_files, 2);
    assert_eq!(analysis.extension_distribution.stats_for("txt").unwrap().size, 42);
    assert!(analysis.extension_distribution.stats_for("tmp").is_none());
}

#[test]
fn disjoint_scans_are_independent() {
    let left = vec![file("a.x", 1, 1), file("b.x", 2, 1)];
    let right = vec![file("c.y", 10, 1), dir("d", 1, vec![file("e.y", 20, 1)])];

    // scan in one order
    let (_lf1, la1) = scan_path("/left", &left);
    let (_rf1, ra1) = scan_path("/right", &right);
    // and in the other order
    let (_rf2, ra2) = scan_path("/right", &right);
    let (_lf2, la2) = scan_path("/left", &left);

    assert_eq!(la1.total_size, 3);
    assert_eq!(la2.total_size, 3);
    assert_eq!(ra1.total_size, 30);
    assert_eq!(ra2.total_size, 30);
    assert_eq!(la1.total_files, la2.total_files);
    assert_eq!(ra1.total_files, ra2.total_files);
    assert_eq!(la1.extension_distribution.stats_for("x").unwrap().size, 3);
    assert_eq!(ra1.extension_distribution.stats_for("y").unwrap().size, 30);
}

#[test]
fn child_stats_matches_scan_entry() {
    let e = dir("pics", 9, vec![file("p.jpg", 100, 3)]);
    let (st, m) = child_stats("/media", &e);
    assert_eq!(st.path, "/media/pics");
    assert_eq!(st.name, "pics");
    assert!(st.is_dir);
    assert_eq!(st.size, 100);
    assert_eq!(st.file_count, 1);
    assert_eq!(st.modified, 9);
    assert_eq!(m.lookup("jpg"), Some(100));
}

#[test]
fn join_path_single_separator() {
    assert_eq!(join_path_str("/a", "b"), "/a/b");
    assert_eq!(join_path_str("/a/", "b"), "/a/b");
    assert_eq!(join_path_str("", "b"), "/b");
}
