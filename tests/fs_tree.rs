use stream_puffer::adb::AdbHelper;
use stream_puffer::fs_tree::{path_components, DirTree, FSNode, FileSystem, Listing};
use stream_puffer::fs_types::{FileInfo, FileType};

fn comps(p: &str) -> Vec<String> {
    path_components(p)
}

fn info(size: u64) -> FileInfo {
    let mut i = FileInfo::default();
    i.size = size;
    i
}

fn sample_tree() -> FSNode {
    let mut t = FSNode::new(FileInfo::default());
    t.add_child("/a", FileType::Directory, info(0));
    t.add_child("/a/b", FileType::Directory, info(0));
    t.add_child("/a/b/f.txt", FileType::File, info(12));
    t.add_child("/a/c", FileType::Directory, info(0));
    t.add_child("/a/link", FileType::Symlink, info(0));
    t
}

#[test]
fn components_follow_path_iter() {
    assert_eq!(comps("/data/local/tmp"), vec!["/", "data", "local", "tmp"]);
    assert_eq!(comps("a//b/"), vec!["a", "b"]);
    assert_eq!(comps("./a/./b"), vec![".", "a", "b"]);
    assert_eq!(comps("a/.."), vec!["a", ".."]);
    assert_eq!(comps("/"), vec!["/"]);
    assert!(comps("").is_empty());
}

#[test]
fn root_keeps_its_metadata() {
    let t = FSNode::new(info(99));
    assert_eq!(t.len(), 1);
    assert_eq!(t.node(0).metadata.size, 99);
    assert_eq!(t.node(0).file_type, FileType::Directory);
}

#[test]
fn add_path_takes_components() {
    let mut t = FSNode::new(FileInfo::default());
    let p = vec!["x".to_string(), "y".to_string()];
    assert_eq!(t.add_path(&p, FileType::File, info(1)), 2);
    assert_eq!(t.lookup(&p), t.get_child("x/y"));
    assert!(t.lookup(&p).is_some());
}

#[test]
fn add_child_counts_created_nodes() {
    let mut t = FSNode::new(FileInfo::default());
    assert_eq!(t.add_child("/a/b", FileType::File, info(5)), 3);
    assert_eq!(t.add_child("/a/c", FileType::File, info(6)), 1);
    assert_eq!(t.add_child("/a/b", FileType::Symlink, info(7)), 0);
    assert_eq!(t.len(), 5);
    let b = t.get_child("/a/b").unwrap();
    assert_eq!(t.node(b).file_type, FileType::Symlink);
    assert_eq!(t.node(b).metadata.size, 7);
    assert!(t.get_child("/a/x").is_none());
    assert_eq!(t.get_child(""), Some(0));
}

#[test]
fn children_are_listed_in_order() {
    let t = sample_tree();
    let kids: Vec<(String, FileType)> =
        t.list_children("/a").into_iter().map(|(n, k, _)| (n, k)).collect();
    assert_eq!(
        kids,
        vec![
            ("b".to_string(), FileType::Directory),
            ("c".to_string(), FileType::Directory),
            ("link".to_string(), FileType::Symlink),
        ]
    );
    assert!(t.list_children("/nowhere").is_empty());
}

#[test]
fn folder_rows_walk_directories() {
    let t = sample_tree();
    assert_eq!(
        t.list_folders_tree("/a"),
        vec![
            ("/a/b".to_string(), FileType::Directory, 1),
            ("/a/c".to_string(), FileType::Directory, 0),
            ("/a/link".to_string(), FileType::Symlink, 0),
            ("/a/b/f.txt".to_string(), FileType::File, 0),
        ]
    );
    assert_eq!(t.list_folders_tree("/")[0], ("/a".to_string(), FileType::Directory, 3));
    assert!(t.list_folders_tree("/zz").is_empty());
}

fn names(f: &[DirTree]) -> Vec<(String, String, usize)> {
    f.iter().map(|d| (d.name.clone(), d.path.clone(), d.rows.len())).collect()
}

#[test]
fn subtree_lists_directories_with_paths() {
    let t = sample_tree();
    let f = t.subtree_as_json("/a");
    assert_eq!(
        names(&f),
        vec![("b".to_string(), "/a/b".to_string(), 0), ("c".to_string(), "/a/c".to_string(), 0)]
    );
    let top = t.subtree_as_json("/");
    assert_eq!(names(&top), vec![("a".to_string(), "/a".to_string(), 2)]);
    assert!(t.subtree_as_json("/a/b/f.txt").is_empty());
}

#[test]
fn subtree_is_named_after_its_last_component() {
    let t = sample_tree();
    let d = t.subtree_json("/a").unwrap();
    assert_eq!(d.name, "a");
    assert_eq!(d.rows.len(), 2);
    assert_eq!(t.subtree_json("/").unwrap().name, "[ROOT]");
    assert!(t.subtree_json("/missing").is_none());
    let whole = t.to_tree_json().unwrap();
    let mut fs = FileSystem::new(None);
    fs.root = sample_tree();
    assert_eq!(fs.subtree_json("/a").unwrap().name, "a");
    assert_eq!(fs.subtree_as_json("/a").len(), 2);
    assert!(fs.list_directory_as_json("/a").is_some());
    assert_eq!(fs.to_tree_json().unwrap().rows.len(), 1);
    assert_eq!(whole.name, "[ROOT]");
    assert_eq!(names(&whole.rows), vec![("/".to_string(), "//".to_string(), 1)]);
}

fn listed(l: &Listing) -> Vec<(String, bool)> {
    l.entries.iter().map(|(n, sub)| (n.clone(), sub.is_some())).collect()
}

#[test]
fn listing_marks_files_and_empty_dirs() {
    let t = sample_tree();
    let l = t.list_directory_as_json("/a").unwrap();
    assert_eq!(
        listed(&l),
        vec![("b".to_string(), true), ("c".to_string(), false), ("link".to_string(), false)]
    );
    assert!(t.list_directory_as_json("/a/c").is_none());
    assert!(t.list_directory_as_json("/a/b/f.txt").is_none());
    assert!(t.list_directory_as_json("/nope").is_none());
}

#[test]
fn refresh_builds_tree_from_stat_lines() {
    let lines = vec![
        "1|drwxr-xr-x|10|20|30|root|root|4096|'/sdcard'".to_string(),
        "2|-rw-r--r--|11|21|31|u0|g0|123|'/sdcard/a.txt'".to_string(),
        "3|lrwxrwxrwx|12|22|32|root|root|7|'/sdcard/l' -> '/data'".to_string(),
        "short|line".to_string(),
    ];
    let entries = AdbHelper::load_all(&lines);
    assert_eq!(entries.len(), 3);
    // the space before the arrow keeps the closing quote
    assert_eq!(entries[2].0, "/sdcard/l' ");
    assert_eq!(entries[1].1.size, 123);
    assert_eq!(entries[1].1.created_time, 11);
    assert_eq!(entries[1].1.modified_time, 21);
    assert_eq!(entries[1].1.accessed_time, 31);
    assert_eq!(entries[1].1.user, "u0");

    let mut fs = FileSystem::new(None);
    assert!(fs.adb.root);
    fs.refresh(entries);
    assert_eq!(fs.count, 4);
    let kinds: Vec<(String, FileType)> =
        fs.root.list_children("/sdcard").into_iter().map(|(n, k, _)| (n, k)).collect();
    assert_eq!(
        kinds,
        vec![("a.txt".to_string(), FileType::File), ("l' ".to_string(), FileType::Symlink)]
    );
}

#[test]
fn stat_fields_that_do_not_parse_count_as_zero() {
    let lines = vec!["x|perm|||-1|u|g|big|''name''".to_string()];
    let e = AdbHelper::load_all(&lines);
    assert_eq!(e[0].0, "name");
    assert_eq!(e[0].1.inode, 0);
    assert_eq!(e[0].1.accessed_time, 0);
    assert_eq!(e[0].1.size, 0);
    assert_eq!(e[0].1.permissions, "perm");
}

#[test]
fn folder_rows_are_breadth_first() {
    let mut t = FSNode::new(FileInfo::default());
    t.add_child("r/A", FileType::Directory, info(0));
    t.add_child("r/A/x", FileType::File, info(0));
    t.add_child("r/C", FileType::Directory, info(0));
    t.add_child("r/C/y", FileType::File, info(0));
    let paths: Vec<String> = t.list_folders_tree("r").into_iter().map(|(p, _, _)| p).collect();
    assert_eq!(paths, vec!["r/A", "r/C", "r/A/x", "r/C/y"]);
}

#[test]
fn created_parents_are_default_directories() {
    let mut t = FSNode::new(FileInfo::default());
    assert_eq!(t.add_child("/p/q/file", FileType::File, info(42)), 4);
    for dir in ["/", "/p", "/p/q"] {
        let n = t.node(t.get_child(dir).unwrap());
        assert_eq!(n.file_type, FileType::Directory);
        assert_eq!(n.metadata.size, 0);
        assert!(n.metadata.permissions.is_empty());
    }
    let f = t.node(t.get_child("/p/q/file").unwrap());
    assert_eq!(f.file_type, FileType::File);
    assert_eq!(f.metadata.size, 42);
}
