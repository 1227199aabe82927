use volumetrik::models::FileStats;
use volumetrik::order::{filter_files, sort_files, sort_names, str_le_str, SortColumn};

fn entry(name: &str, size: u64, count: u64, modified: u64) -> FileStats {
    FileStats {
        path: format!("/p/{}", name),
        name: name.to_string(),
        is_dir: false,
        size,
        file_count: count,
        modified,
    }
}

#[test]
fn sort_by_size_descending() {
    let v = vec![entry("a", 5, 1, 1), entry("b", 50, 1, 1), entry("c", 20, 1, 1)];
    let r = sort_files(&v, SortColumn::Size, true);
    let sizes: Vec<u64> = r.iter().map(|f| f.size).collect();
    assert_eq!(sizes, vec![50, 20, 5]);
}

#[test]
fn sort_by_name_ascending() {
    let v = vec![entry("pear", 1, 1, 1), entry("apple", 2, 1, 1), entry("mango", 3, 1, 1)];
    let r = sort_files(&v, SortColumn::Name, false);
    let names: Vec<String> = r.iter().map(|f| f.name.clone()).collect();
    assert_eq!(names, vec!["apple", "mango", "pear"]);
}

#[test]
fn sort_by_modified_and_count() {
    let v = vec![entry("a", 1, 7, 300), entry("b", 2, 3, 100), entry("c", 3, 5, 200)];
    let by_modified = sort_files(&v, SortColumn::Modified, false);
    let times: Vec<u64> = by_modified.iter().map(|f| f.modified).collect();
    assert_eq!(times, vec![100, 200, 300]);
    let by_count = sort_files(&v, SortColumn::Count, true);
    let counts: Vec<u64> = by_count.iter().map(|f| f.file_count).collect();
    assert_eq!(counts, vec![7, 5, 3]);
}

#[test]
fn directory_names_sort_case_insensitively() {
    let v = vec!["banana".to_string(), "Apple".to_string(), "cherry".to_string()];
    let r = sort_names(&v);
    assert_eq!(r, vec!["Apple".to_string(), "banana".to_string(), "cherry".to_string()]);
}

#[test]
fn string_order_is_lexicographic() {
    assert!(str_le_str("abc", "abd"));
    assert!(str_le_str("ab", "abc"));
    assert!(!str_le_str("abd", "abc"));
    assert!(str_le_str("", "a"));
    assert!(str_le_str("same", "same"));
}

#[test]
fn filter_is_case_insensitive() {
    let v = vec![entry("README", 1, 1, 1), entry("main.rs", 2, 1, 1), entry("Makefile", 3, 1, 1)];
    let r = filter_files(&v, "ma");
    let names: Vec<String> = r.iter().map(|f| f.name.clone()).collect();
    assert_eq!(names, vec!["main.rs", "Makefile"]);

    let all = filter_files(&v, "");
    assert_eq!(all.len(), 3);

    let none = filter_files(&v, "zzz");
    assert_eq!(none.len(), 0);

    let upper = filter_files(&v, "READ");
    assert_eq!(upper.len(), 1);
    assert_eq!(upper[0].name, "README");
}
