use folder_tree::basename::base_name;
use folder_tree::entry::classify_entry;
use folder_tree::entry::EntryAction;
use folder_tree::entry::EntryKind;
use folder_tree::folder::Folder;
use folder_tree::ignore::should_ignore;
use folder_tree::render::render_folder;
use folder_tree::render::render_tree;
use folder_tree::text::str_eq;

#[test]
fn empty_directory_single_line() {
    let x = Folder::new(String::from("X"));
    assert_eq!(render_tree(&x), "└── X\n");
}

#[test]
fn file_then_empty_subdirectory() {
    // The connector of a file line is decided by its position among the
    // files alone, so the last file keeps the corner even though a
    // subfolder is printed after it.
    let mut a = Folder::new(String::from("A"));
    a.add_file(String::from("b.txt"));
    a.add_subfolder(Folder::new(String::from("C")));
    assert_eq!(render_tree(&a), "└── A\n  └── b.txt\n  └── C\n");
}

#[test]
fn ignored_subdirectory_hidden() {
    let mut parent = Folder::new(String::from("proj"));
    let mut noise = Folder::new(String::from("node_modules"));
    noise.add_file(String::from("x.js"));
    noise.add_file(String::from("y.js"));
    parent.add_subfolder(noise);
    let out = render_tree(&parent);
    assert_eq!(out, "└── proj\n");
    assert!(!out.contains("node_modules"));
    assert!(!out.contains("x.js"));
}

#[test]
fn ignored_subdirectory_hidden_at_depth() {
    let mut root = Folder::new(String::from("root"));
    let mut mid = Folder::new(String::from("mid"));
    let mut git = Folder::new(String::from(".git"));
    git.add_file(String::from("HEAD"));
    mid.add_subfolder(git);
    mid.add_file(String::from("kept.txt"));
    root.add_subfolder(mid);
    let out = render_tree(&root);
    assert_eq!(out, "└── root\n  └── mid\n    └── kept.txt\n");
}

#[test]
fn single_file_path() {
    // A path that names a regular file yields a childless node.
    let name = base_name("f.txt");
    assert_eq!(name, "f.txt");
    let node = Folder::new(name);
    assert_eq!(render_tree(&node), "└── f.txt\n");
}

#[test]
fn nonexistent_path_single_line() {
    // A path that names nothing still yields a node with its base name.
    let name = base_name("/no/such/path");
    assert_eq!(name, "path");
    let node = Folder::new(name);
    assert_eq!(render_tree(&node), "└── path\n");
}

#[test]
fn rendering_is_idempotent() {
    let mut a = Folder::new(String::from("A"));
    a.add_file(String::from("one"));
    let mut b = Folder::new(String::from("B"));
    b.add_file(String::from("two"));
    a.add_subfolder(b);
    let first = render_tree(&a);
    let second = render_tree(&a);
    assert_eq!(first.as_bytes(), second.as_bytes());
}

#[test]
fn root_line_uses_corner_connector() {
    let mut deep = Folder::new(String::from("outer"));
    deep.add_subfolder(Folder::new(String::from("inner")));
    let out = render_tree(&deep);
    assert!(out.starts_with("└── "));
}

#[test]
fn sibling_connectors_tee_then_corner() {
    let mut r = Folder::new(String::from("R"));
    r.add_file(String::from("f1"));
    r.add_file(String::from("f2"));
    r.add_file(String::from("f3"));
    r.add_subfolder(Folder::new(String::from("S1")));
    r.add_subfolder(Folder::new(String::from("S2")));
    assert_eq!(
        render_tree(&r),
        "└── R\n  ├── f1\n  ├── f2\n  └── f3\n  ├── S1\n  └── S2\n"
    );
}

#[test]
fn indentation_is_two_columns_per_depth() {
    let mut r = Folder::new(String::from("R"));
    let mut s = Folder::new(String::from("S"));
    s.add_subfolder(Folder::new(String::from("T")));
    r.add_subfolder(s);
    assert_eq!(render_tree(&r), "└── R\n  └── S\n    └── T\n");
}

#[test]
fn render_at_explicit_indent_and_flag() {
    let x = Folder::new(String::from("X"));
    assert_eq!(render_folder(&x, 1, false), " ├── X\n");
    assert_eq!(render_folder(&x, 4, true), "    └── X\n");
}

#[test]
fn one_node_per_added_entry() {
    let mut r = Folder::new(String::from("R"));
    r.add_file(String::from("a"));
    r.add_file(String::from("b"));
    r.add_subfolder(Folder::new(String::from("S")));
    assert_eq!(r.files.len(), 2);
    assert_eq!(r.subfolders.len(), 1);
    assert_eq!(r.files, vec![String::from("a"), String::from("b")]);
    assert_eq!(r.subfolders[0].name, "S");
}

#[test]
fn every_ignored_name_is_ignored() {
    assert!(should_ignore("node_modules"));
    assert!(should_ignore("target"));
    assert!(should_ignore(".next"));
    assert!(should_ignore(".ssh"));
    assert!(should_ignore("coverage"));
    assert!(should_ignore(".git"));
}

#[test]
fn other_names_are_kept() {
    assert!(!should_ignore("src"));
    assert!(!should_ignore("Target"));
    assert!(!should_ignore("node_modules2"));
    assert!(!should_ignore(".gitignore"));
    assert!(!should_ignore(""));
}

#[test]
fn classify_directory_entries() {
    assert_eq!(
        classify_entry(EntryKind::Directory, "src"),
        EntryAction::Descend
    );
    assert_eq!(
        classify_entry(EntryKind::Directory, "target"),
        EntryAction::Skip
    );
    assert_eq!(
        classify_entry(EntryKind::Directory, ".git"),
        EntryAction::Skip
    );
}

#[test]
fn classify_file_and_other_entries() {
    // A regular file whose name matches an ignored directory name is still
    // recorded: the ignore set applies to directories only.
    assert_eq!(classify_entry(EntryKind::File, "target"), EntryAction::Record);
    assert_eq!(classify_entry(EntryKind::File, "a.rs"), EntryAction::Record);
    assert_eq!(classify_entry(EntryKind::Other, "pipe"), EntryAction::Skip);
}

#[test]
fn base_name_of_plain_paths() {
    assert_eq!(base_name("a/b/c"), "c");
    assert_eq!(base_name("foo"), "foo");
    assert_eq!(base_name("foo/"), "foo");
    assert_eq!(base_name("a//b"), "b");
    assert_eq!(base_name("a//"), "a");
    assert_eq!(base_name("./foo"), "foo");
    assert_eq!(base_name("foo."), "foo.");
    assert_eq!(base_name("..."), "...");
}

#[test]
fn base_name_skips_trailing_dot_components() {
    assert_eq!(base_name("foo/."), "foo");
    assert_eq!(base_name("foo/./"), "foo");
    assert_eq!(base_name("a/././."), "a");
    assert_eq!(base_name("foo.txt/."), "foo.txt");
    assert_eq!(base_name("./."), "");
    assert_eq!(base_name("/."), "");
}

#[test]
fn base_name_of_unnameable_paths() {
    assert_eq!(base_name("/"), "");
    assert_eq!(base_name("//"), "");
    assert_eq!(base_name(""), "");
    assert_eq!(base_name("."), "");
    assert_eq!(base_name(".."), "");
    assert_eq!(base_name("foo/.."), "");
    assert_eq!(base_name("foo/../"), "");
}

#[test]
fn root_path_yields_empty_name() {
    let name = base_name("/");
    assert_eq!(name, "");
    let node = Folder::new(name);
    assert_eq!(render_tree(&node), "└── \n");
}

#[test]
fn str_eq_compares_contents() {
    assert!(str_eq("", ""));
    assert!(str_eq("abc", "abc"));
    assert!(str_eq("└── ", "└── "));
    assert!(!str_eq("abc", "abd"));
    assert!(!str_eq("abc", "ab"));
    assert!(!str_eq("", " "));
}
