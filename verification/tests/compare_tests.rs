use diffdirs::collect::{collect_paths, Entry, EntryKind};
use diffdirs::diff::{compare, diff};
use diffdirs::pathset::PathSet;

fn entry(path: &str, kind: EntryKind, depth: usize) -> Entry {
    Entry { path: path.to_string(), kind, depth }
}

fn file(path: &str, depth: usize) -> Entry {
    entry(path, EntryKind::File, depth)
}

fn dir(path: &str, depth: usize) -> Entry {
    entry(path, EntryKind::Dir, depth)
}

fn sorted(v: &[String]) -> Vec<String> {
    let mut s: Vec<String> = v.to_vec();
    s.sort();
    s
}

#[test]
fn scenario_nested_files() {
    let a = vec![file("x.txt", 1), dir("sub", 1), file("sub/y.txt", 2)];
    let b = vec![file("x.txt", 1), dir("sub", 1), file("sub/z.txt", 2)];
    let r = compare(&a, &b, false, None);
    assert_eq!(r.only_in_a, vec!["sub/y.txt".to_string()]);
    assert_eq!(r.only_in_b, vec!["sub/z.txt".to_string()]);
    assert_eq!(r.summary.unique_in_a, 1);
    assert_eq!(r.summary.unique_in_b, 1);
}

#[test]
fn scenario_both_empty() {
    let a: Vec<Entry> = Vec::new();
    let b: Vec<Entry> = Vec::new();
    let r = compare(&a, &b, false, None);
    assert!(r.only_in_a.is_empty());
    assert!(r.only_in_b.is_empty());
    assert_eq!(r.summary.unique_in_a, 0);
    assert_eq!(r.summary.unique_in_b, 0);
}

#[test]
fn identity_same_tree() {
    let a = vec![file("x.txt", 1), dir("sub", 1), file("sub/y.txt", 2)];
    let b = vec![file("x.txt", 1), dir("sub", 1), file("sub/y.txt", 2)];
    let r = compare(&a, &b, false, None);
    assert!(r.only_in_a.is_empty());
    assert!(r.only_in_b.is_empty());
    assert_eq!(r.summary.unique_in_a, 0);
    assert_eq!(r.summary.unique_in_b, 0);
}

#[test]
fn symmetry_swapped_roots() {
    let a = vec![file("common.txt", 1), file("a-only.txt", 1), file("a2.txt", 1)];
    let b = vec![file("common.txt", 1), file("b-only.txt", 1)];
    let r_ab = compare(&a, &b, false, None);
    let r_ba = compare(&b, &a, false, None);
    assert_eq!(sorted(&r_ab.only_in_a), sorted(&r_ba.only_in_b));
    assert_eq!(sorted(&r_ab.only_in_b), sorted(&r_ba.only_in_a));
    assert_eq!(r_ab.summary.unique_in_a, r_ba.summary.unique_in_b);
    assert_eq!(r_ab.summary.unique_in_b, r_ba.summary.unique_in_a);
    assert_eq!(r_ab.summary.unique_in_a, 2);
    assert_eq!(r_ab.summary.unique_in_b, 1);
}

#[test]
fn idempotent_two_runs() {
    let a = vec![file("one.txt", 1), dir("d", 1), file("d/two.txt", 2)];
    let b = vec![file("one.txt", 1), file("three.txt", 1)];
    let first = compare(&a, &b, false, None);
    let second = compare(&a, &b, false, None);
    assert_eq!(sorted(&first.only_in_a), sorted(&second.only_in_a));
    assert_eq!(sorted(&first.only_in_b), sorted(&second.only_in_b));
    assert_eq!(first.summary.unique_in_a, second.summary.unique_in_a);
    assert_eq!(first.summary.unique_in_b, second.summary.unique_in_b);
}

#[test]
fn depth_zero_keeps_only_direct_children() {
    let a = vec![file("top.txt", 1), dir("sub", 1), file("sub/deep.txt", 2)];
    let b = vec![dir("sub", 1)];
    let r = compare(&a, &b, false, Some(0));
    assert_eq!(r.only_in_a, vec!["top.txt".to_string()]);
    assert!(r.only_in_b.is_empty());
    assert_eq!(r.summary.unique_in_a, 1);
    assert_eq!(r.summary.unique_in_b, 0);
}

#[test]
fn depth_one_reaches_one_level_down() {
    let a = vec![
        dir("sub", 1),
        file("sub/kept.txt", 2),
        dir("sub/deeper", 2),
        file("sub/deeper/dropped.txt", 3),
    ];
    let b: Vec<Entry> = Vec::new();
    let r = compare(&a, &b, false, Some(1));
    assert_eq!(sorted(&r.only_in_a), vec!["sub/kept.txt".to_string()]);
    assert_eq!(r.summary.unique_in_a, 1);
}

#[test]
fn dirs_only_excludes_files() {
    let a = vec![file("a.txt", 1), dir("adir", 1), dir("shared", 1)];
    let b = vec![file("b.txt", 1), dir("bdir", 1), dir("shared", 1)];
    let r = compare(&a, &b, true, None);
    assert_eq!(r.only_in_a, vec!["adir".to_string()]);
    assert_eq!(r.only_in_b, vec!["bdir".to_string()]);
    assert_eq!(r.summary.unique_in_a, 1);
    assert_eq!(r.summary.unique_in_b, 1);
}

#[test]
fn files_mode_excludes_directories() {
    let a = vec![file("a.txt", 1), dir("adir", 1)];
    let b = vec![file("b.txt", 1), dir("bdir", 1)];
    let r = compare(&a, &b, false, None);
    assert_eq!(r.only_in_a, vec!["a.txt".to_string()]);
    assert_eq!(r.only_in_b, vec!["b.txt".to_string()]);
}

#[test]
fn other_kind_never_selected() {
    let a = vec![entry("link", EntryKind::Other, 1), file("real.txt", 1)];
    let b: Vec<Entry> = Vec::new();
    let with_files = compare(&a, &b, false, None);
    assert_eq!(with_files.only_in_a, vec!["real.txt".to_string()]);
    let with_dirs = compare(&a, &b, true, None);
    assert!(with_dirs.only_in_a.is_empty());
}

#[test]
fn root_entry_never_selected() {
    let a = vec![entry("", EntryKind::Dir, 0), file("x.txt", 1)];
    let b: Vec<Entry> = Vec::new();
    let r = compare(&a, &b, true, None);
    assert!(r.only_in_a.is_empty());
    assert_eq!(r.summary.unique_in_a, 0);
}

#[test]
fn duplicate_paths_collapse() {
    let a = vec![file("twice.txt", 1), file("twice.txt", 1)];
    let b: Vec<Entry> = Vec::new();
    let r = compare(&a, &b, false, None);
    assert_eq!(r.only_in_a, vec!["twice.txt".to_string()]);
    assert_eq!(r.summary.unique_in_a, 1);
}

#[test]
fn collect_filters_by_kind_and_depth() {
    let entries = vec![
        file("kept.txt", 1),
        dir("somedir", 1),
        file("somedir/too-deep.txt", 2),
    ];
    let set = collect_paths(&entries, false, Some(0));
    assert!(set.contains(&"kept.txt".to_string()));
    assert!(!set.contains(&"somedir".to_string()));
    assert!(!set.contains(&"somedir/too-deep.txt".to_string()));
    assert_eq!(set.len(), 1);
}

#[test]
fn pathset_insert_and_contains() {
    let mut set = PathSet::new();
    assert_eq!(set.len(), 0);
    assert!(!set.contains(&"a".to_string()));
    set.insert("a".to_string());
    set.insert("b".to_string());
    assert!(set.contains(&"a".to_string()));
    assert!(set.contains(&"b".to_string()));
    assert!(!set.contains(&"c".to_string()));
    assert_eq!(set.len(), 2);
}

#[test]
fn pathset_insert_twice_keeps_one() {
    let mut set = PathSet::new();
    set.insert("a".to_string());
    set.insert("a".to_string());
    assert_eq!(set.len(), 1);
}

#[test]
fn diff_on_path_sets() {
    let mut a = PathSet::new();
    a.insert("shared".to_string());
    a.insert("left".to_string());
    let mut b = PathSet::new();
    b.insert("shared".to_string());
    b.insert("right".to_string());
    let r = diff(&a, &b);
    assert_eq!(r.only_in_a, vec!["left".to_string()]);
    assert_eq!(r.only_in_b, vec!["right".to_string()]);
    assert_eq!(r.summary.unique_in_a, 1);
    assert_eq!(r.summary.unique_in_b, 1);
}
