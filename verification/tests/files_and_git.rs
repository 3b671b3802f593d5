use modou::commands::{
    check_copy, check_create_dir, check_create_file, check_delete, check_list_dir,
    check_open_project, check_read_file, check_rename, detect_language, extension, file_name,
    open_tree_nodes, Removal,
};
use modou::file_tree::{bytes_less, copy_node, DirEntryInfo, FileNode, FileTree};
use modou::git_status::{
    added_files, branch, change_letter, changes, diff_lines, modified_files, StatusEntry,
    StatusFlags,
};
use modou::line_diff::{myers_line_diff, push_merge, LineDiff};

fn entry(name: &str, is_dir: bool) -> DirEntryInfo {
    DirEntryInfo {
        name: name.to_string(),
        name_bytes: name.as_bytes().to_vec(),
        path: format!("/proj/{}", name),
        is_dir,
    }
}

fn names(nodes: &[FileNode]) -> Vec<&str> {
    nodes.iter().map(|n| n.name.as_str()).collect()
}

#[test]
fn scan_level_returns_single_level_sorted_dirs_first() {
    let listing = vec![entry("zdir", true), entry("b.txt", false), entry("adir", true)];
    let nodes = FileTree::scan_level(Ok(listing), 0).unwrap();
    assert_eq!(names(&nodes), vec!["adir", "zdir", "b.txt"]);
    assert!(nodes[0].is_dir && nodes[1].is_dir && !nodes[2].is_dir);
    assert!(nodes.iter().all(|n| n.children.is_empty()));
}

#[test]
fn scan_level_ignores_heavy_dirs() {
    let listing = vec![
        entry(".git", true),
        entry("node_modules", true),
        entry("target", true),
        entry(".venv", true),
        entry("src", true),
    ];
    let nodes = FileTree::scan_level(Ok(listing), 0).unwrap();
    assert_eq!(nodes.len(), 1);
    assert_eq!(nodes[0].name, "src");
}

#[test]
fn scan_level_rejects_file_path() {
    let r = FileTree::new("/tmp/notdir/a.txt", false, Ok(vec![]));
    match r {
        Err(e) => assert_eq!(e, "Not a directory"),
        Ok(_) => panic!("a file is not a project root"),
    }
}

#[test]
fn scan_level_orders_names_by_bytes_and_keeps_depth_and_paths() {
    let listing = vec![
        entry("b", false),
        entry("B", false),
        entry("a", false),
        entry("_x", true),
        entry("Z", true),
    ];
    let nodes = FileTree::scan_level(Ok(listing), 3).unwrap();
    assert_eq!(names(&nodes), vec!["Z", "_x", "B", "a", "b"]);
    assert!(nodes.iter().all(|n| n.depth == 3));
    assert_eq!(nodes[0].path, "/proj/Z");
}

#[test]
fn scan_level_keeps_listing_order_of_equal_names() {
    let mut first = entry("same", false);
    first.path = "/one/same".to_string();
    let mut second = entry("same", false);
    second.path = "/two/same".to_string();
    let nodes = FileTree::scan_level(Ok(vec![first, second]), 0).unwrap();
    assert_eq!(nodes[0].path, "/one/same");
    assert_eq!(nodes[1].path, "/two/same");
}

#[test]
fn scan_level_passes_on_listing_error() {
    let r = FileTree::scan_level(Err("permission denied".to_string()), 1);
    assert_eq!(r.unwrap_err(), "permission denied");
}

#[test]
fn file_tree_of_directory_and_its_nodes() {
    let tree = FileTree::new("/proj", true, Ok(vec![entry("main.rs", false), entry("src", true)])).unwrap();
    assert_eq!(tree.root, "/proj");
    let nodes = tree.to_nodes();
    assert_eq!(names(&nodes), vec!["src", "main.rs"]);
    assert_eq!(nodes[0].depth, 0);
    let listed = open_tree_nodes(Some(&tree)).unwrap();
    assert_eq!(names(&listed), vec!["src", "main.rs"]);
    assert_eq!(open_tree_nodes(None).unwrap_err(), "No project opened");
}

#[test]
fn file_tree_listing_error_when_root_is_directory() {
    let r = FileTree::new("/proj", true, Err("gone".to_string()));
    assert_eq!(r.unwrap_err(), "gone");
}

#[test]
fn copied_node_keeps_children() {
    let leaf = FileNode { name: "x".into(), path: "/a/x".into(), is_dir: false, children: vec![], depth: 1 };
    let dir = FileNode { name: "a".into(), path: "/a".into(), is_dir: true, children: vec![leaf], depth: 0 };
    let c = copy_node(&dir);
    assert_eq!(c.name, "a");
    assert_eq!(c.children.len(), 1);
    assert_eq!(c.children[0].path, "/a/x");
    assert_eq!(c.children[0].depth, 1);
}

#[test]
fn ignored_names() {
    for n in [".git", ".svn", ".hg", "node_modules", "target", "build", "dist", "__pycache__", ".venv", "venv",
        ".idea", ".vscode", ".DS_Store", ".next", ".nuxt", ".cache", "Pods", "DerivedData", ".dart_tool",
        ".gradle", "coverage"]
    {
        assert!(FileTree::should_ignore(n), "{n}");
    }
    for n in ["src", ".gitignore", "Target", "", "builds"] {
        assert!(!FileTree::should_ignore(n), "{n}");
    }
}

#[test]
fn byte_order_of_names() {
    assert!(bytes_less(&b"B".to_vec(), &b"a".to_vec()));
    assert!(bytes_less(&b"ab".to_vec(), &b"abc".to_vec()));
    assert!(!bytes_less(&b"abc".to_vec(), &b"abc".to_vec()));
    assert!(!bytes_less(&b"b".to_vec(), &b"abc".to_vec()));
    assert!(bytes_less(&vec![], &b"a".to_vec()));
}

fn flags() -> StatusFlags {
    StatusFlags {
        index_new: false,
        index_modified: false,
        index_deleted: false,
        index_renamed: false,
        index_typechange: false,
        wt_new: false,
        wt_modified: false,
        wt_deleted: false,
        wt_renamed: false,
        wt_typechange: false,
    }
}

#[test]
fn changes_reports_modified_and_untracked() {
    let mut modified = flags();
    modified.wt_modified = true;
    let mut untracked = flags();
    untracked.wt_new = true;
    let entries = vec![
        StatusEntry { path: Some("/repo/a.txt".into()), flags: modified },
        StatusEntry { path: Some("/repo/new.txt".into()), flags: untracked },
    ];
    let out = changes(&entries);
    let get = |name: &str| out.iter().find(|c| c.path.ends_with(name)).map(|c| c.status.as_str());
    assert_eq!(get("a.txt"), Some("M"));
    assert_eq!(get("new.txt"), Some("A"));
}

#[test]
fn change_letters_and_skipped_entries() {
    let mut deleted = flags();
    deleted.index_deleted = true;
    assert_eq!(change_letter(deleted), Some('D'));
    let mut both = flags();
    both.index_new = true;
    both.wt_deleted = true;
    assert_eq!(change_letter(both), Some('A'));
    let mut renamed = flags();
    renamed.wt_renamed = true;
    assert_eq!(change_letter(renamed), Some('M'));
    assert_eq!(change_letter(flags()), None);
    let entries = vec![
        StatusEntry { path: None, flags: deleted },
        StatusEntry { path: Some("/r/clean".into()), flags: flags() },
        StatusEntry { path: Some("/r/gone".into()), flags: deleted },
    ];
    let out = changes(&entries);
    assert_eq!(out.len(), 1);
    assert_eq!(out[0].path, "/r/gone");
    assert_eq!(out[0].status, "D");
}

#[test]
fn modified_and_added_files_and_branch() {
    let mut m = flags();
    m.wt_modified = true;
    let mut n = flags();
    n.wt_new = true;
    let mut staged = flags();
    staged.index_modified = true;
    let entries = vec![
        StatusEntry { path: Some("a.rs".into()), flags: m },
        StatusEntry { path: Some("b.rs".into()), flags: n },
        StatusEntry { path: Some("c.rs".into()), flags: staged },
    ];
    assert_eq!(modified_files(&entries), vec!["a.rs".to_string()]);
    assert_eq!(added_files(&entries), vec!["b.rs".to_string()]);
    assert_eq!(branch(Some("main".into())), "main");
    assert_eq!(branch(None), "unknown");
}

#[test]
fn diff_lines_modified_added_deleted() {
    let d = diff_lines(Some("a\nb\nc\nd\n"), "a\nB\nc\nx\ny\n");
    assert_eq!(d.modified, vec![(2, 2), (4, 5)]);
    assert!(d.deleted.is_empty(), "不应有纯删除标记");
    assert!(d.added.is_empty(), "不应有纯新增区间，实际 {:?}", d.added);
}

#[test]
fn diff_lines_pure_add_and_delete() {
    let d = diff_lines(Some("a\nc\n"), "a\nb\nc\n");
    assert_eq!(d.added, vec![(2, 2)]);
    assert!(d.modified.is_empty());
    let d2 = diff_lines(Some("a\nc\n"), "a\n");
    assert_eq!(d2.deleted, vec![1], "删除末尾行应标记在第 1 行");
    assert!(d2.added.is_empty() && d2.modified.is_empty());
}

#[test]
fn diff_lines_new_file_all_added() {
    let d = diff_lines(None, "x\ny\nz\n");
    assert_eq!(d.added, vec![(1, 3)]);
}

#[test]
fn diff_lines_of_empty_new_file_marks_one_line() {
    let d = diff_lines(None, "");
    assert_eq!(d.added, vec![(1, 1)]);
}

#[test]
fn diff_lines_unchanged_file_has_no_marks() {
    let d = diff_lines(Some("one\r\ntwo\n"), "one\ntwo");
    assert!(d.added.is_empty() && d.modified.is_empty() && d.deleted.is_empty());
}

#[test]
fn diff_lines_deleting_first_line_marks_line_one() {
    let d = diff_lines(Some("a\nb\n"), "b\n");
    assert_eq!(d.deleted, vec![1]);
}

#[test]
fn push_merge_joins_adjacent_ranges() {
    let mut r: Vec<(usize, usize)> = vec![];
    push_merge(&mut r, 2, 3);
    push_merge(&mut r, 4, 4);
    push_merge(&mut r, 6, 7);
    push_merge(&mut r, 7, 9);
    assert_eq!(r, vec![(2, 4), (6, 9)]);
}

#[test]
fn myers_over_line_slices() {
    let old: Vec<String> = vec!["a".into(), "b".into(), "c".into()];
    let new: Vec<String> = vec!["a".into(), "x".into(), "c".into(), "d".into()];
    let mut out = LineDiff::new();
    myers_line_diff(&old, &new, &mut out);
    assert_eq!(out.modified, vec![(2, 2)]);
    assert_eq!(out.added, vec![(4, 4)]);
    assert!(out.deleted.is_empty());
}

#[test]
fn command_guards() {
    assert_eq!(check_open_project(false).unwrap_err(), "Path does not exist");
    assert!(check_open_project(true).is_ok());
    assert_eq!(check_list_dir(false).unwrap_err(), "Not a directory");
    assert_eq!(check_read_file(false).unwrap_err(), "File does not exist");
    assert_eq!(check_rename(false, false).unwrap_err(), "源路径不存在");
    assert_eq!(check_rename(true, true).unwrap_err(), "目标名称已存在");
    assert!(check_rename(true, false).is_ok());
    assert_eq!(check_create_file(true).unwrap_err(), "文件已存在");
    assert!(check_create_file(false).is_ok());
    assert_eq!(check_create_dir(true).unwrap_err(), "文件夹已存在");
    assert_eq!(check_delete(false, true).unwrap_err(), "路径不存在");
    assert_eq!(check_delete(true, true).unwrap(), Removal::Tree);
    assert_eq!(check_delete(true, false).unwrap(), Removal::File);
    assert_eq!(check_copy(false, true).unwrap_err(), "源路径不存在");
    assert_eq!(check_copy(true, true).unwrap_err(), "目标路径已存在");
    assert!(check_copy(true, false).is_ok());
}

#[test]
fn file_names_and_extensions() {
    assert_eq!(file_name("/a/b/main.rs").as_deref(), Some("main.rs"));
    assert_eq!(file_name("foo.txt/.").as_deref(), Some("foo.txt"));
    assert_eq!(file_name("foo.txt/.//").as_deref(), Some("foo.txt"));
    assert_eq!(file_name("foo/.."), None);
    assert_eq!(file_name("/"), None);
    assert_eq!(file_name("."), None);
    assert_eq!(file_name(""), None);
    assert_eq!(extension("main.rs").as_deref(), Some("rs"));
    assert_eq!(extension("archive.tar.gz").as_deref(), Some("gz"));
    assert_eq!(extension(".bashrc"), None);
    assert_eq!(extension("..foo").as_deref(), Some("foo"));
    assert_eq!(extension("name.").as_deref(), Some(""));
    assert_eq!(extension("README"), None);
    assert_eq!(extension(".."), None);
}

#[test]
fn languages_by_extension() {
    assert_eq!(detect_language("/p/lib.rs"), "rust");
    assert_eq!(detect_language("/p/MAIN.GO"), "go");
    assert_eq!(detect_language("a.py"), "python");
    assert_eq!(detect_language("a.tsx"), "typescript");
    assert_eq!(detect_language("a.Ts"), "typescript");
    assert_eq!(detect_language("a.jsx"), "javascript");
    assert_eq!(detect_language("a.h"), "c");
    assert_eq!(detect_language("a.cxx"), "cpp");
    assert_eq!(detect_language("a.HPP"), "cpp");
    assert_eq!(detect_language("README.md"), "markdown");
    assert_eq!(detect_language("x.json"), "json");
    assert_eq!(detect_language("Cargo.toml"), "toml");
    assert_eq!(detect_language("ci.yml"), "yaml");
    assert_eq!(detect_language("i.html"), "html");
    assert_eq!(detect_language("s.css"), "css");
    assert_eq!(detect_language("Makefile"), "plaintext");
    assert_eq!(detect_language(".rs"), "plaintext");
    assert_eq!(detect_language("src/lib.rs/"), "rust");
    assert_eq!(detect_language("x.rsx"), "plaintext");
}

#[test]
fn gutter_ranges_ascend_without_touching() {
    let d = diff_lines(Some("a\nb\nc\nd\ne\nf\n"), "A\nb\nC\nd\nx\ne\nF\n");
    assert_eq!(d.modified, vec![(1, 1), (3, 3), (7, 7)]);
    assert_eq!(d.added, vec![(5, 5)]);
    for w in d.modified.windows(2) {
        assert!(w[0].1 + 1 < w[1].0);
    }
}
