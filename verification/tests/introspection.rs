use repohost::repo_retrive_service::count_files_in_structure;
use repohost::repo_retrive_service::get_file_extension_from_name;
use repohost::repo_retrive_service::get_total_size_from_structure;
use repohost::repo_retrive_service::read_git_repository_structure;
use repohost::repo_retrive_service::should_ignore_git_entry;
use repohost::repo_retrive_service::RepoStructure;
use repohost::repo_retrive_service::RetrieveError;

fn file_node(name: &str, size: u64) -> RepoStructure {
    RepoStructure {
        name: String::from(name),
        path: String::from(name),
        id: String::new(),
        is_file: true,
        size: Some(size),
        children: Vec::new(),
        extension: get_file_extension_from_name(name),
        content: None,
    }
}

fn dir_node(name: &str, children: Vec<RepoStructure>) -> RepoStructure {
    let total = children
        .iter()
        .map(|c| c.size.unwrap_or(0))
        .fold(0u64, |a, b| a.saturating_add(b));
    RepoStructure {
        name: String::from(name),
        path: String::from(name),
        id: String::new(),
        is_file: false,
        size: Some(total),
        children,
        extension: None,
        content: None,
    }
}

#[test]
fn ignore_policy_matches_fixed_set_and_dotfiles() {
    assert!(should_ignore_git_entry("node_modules"));
    assert!(should_ignore_git_entry("target"));
    assert!(should_ignore_git_entry(".vscode"));
    assert!(should_ignore_git_entry(".idea"));
    assert!(should_ignore_git_entry(".DS_Store"));
    assert!(should_ignore_git_entry("Thumbs.db"));
    assert!(should_ignore_git_entry(".bashrc"));
    assert!(should_ignore_git_entry(".git"));
    assert!(!should_ignore_git_entry("src"));
    assert!(!should_ignore_git_entry("a.txt"));
    assert!(!should_ignore_git_entry("targets"));
    assert!(!should_ignore_git_entry(""));
}

#[test]
fn extension_is_lowercased_suffix_after_last_dot() {
    assert_eq!(get_file_extension_from_name("a.txt"), Some(String::from("txt")));
    assert_eq!(get_file_extension_from_name("archive.TAR.GZ"), Some(String::from("gz")));
    assert_eq!(get_file_extension_from_name("README"), None);
    assert_eq!(get_file_extension_from_name(".bashrc"), None);
    assert_eq!(get_file_extension_from_name("a."), Some(String::from("")));
    assert_eq!(get_file_extension_from_name(""), None);
    assert_eq!(get_file_extension_from_name("Makefile.IN"), Some(String::from("in")));
}

#[test]
fn counts_and_sizes_fold_over_the_tree() {
    let tree = dir_node(
        "root",
        vec![
            file_node("a.txt", 10),
            dir_node("sub", vec![file_node("b.bin", 3), file_node("c.md", 4)]),
        ],
    );
    assert_eq!(count_files_in_structure(&tree), 3);
    assert_eq!(get_total_size_from_structure(&tree), 17);
    let leaf = file_node("a.txt", 10);
    assert_eq!(count_files_in_structure(&leaf), 1);
    assert_eq!(get_total_size_from_structure(&leaf), 10);
}

#[test]
fn read_on_commit_less_repository_reports_empty() {
    let repo = git2::Repository::init_bare("/tmp/repohost_test_empty_repo.git").unwrap();
    let r = read_git_repository_structure(&repo);
    match r {
        Err(RetrieveError::EmptyRepository(msg)) => {
            assert!(msg.starts_with("Repository has no commits yet: "));
        }
        other => panic!("expected an empty-repository indication, got {:?}", other),
    }
}

fn build_repo_with_tree() -> git2::Repository {
    let repo = git2::Repository::init_bare("/tmp/repohost_test_structure_repo.git").unwrap();
    let blob = repo.blob(b"0123456789").unwrap();
    let junk = repo.blob(b"junk").unwrap();
    let ignored_oid = {
        let mut b = repo.treebuilder(None).unwrap();
        b.insert("settings.json", junk, 0o100644).unwrap();
        b.write().unwrap()
    };
    let root_oid = {
        let mut b = repo.treebuilder(None).unwrap();
        b.insert("a.txt", blob, 0o100644).unwrap();
        b.insert(".vscode", ignored_oid, 0o040000).unwrap();
        b.write().unwrap()
    };
    commit_tree(&repo, root_oid);
    repo
}

fn commit_tree(repo: &git2::Repository, root_oid: git2::Oid) {
    let tree = repo.find_tree(root_oid).unwrap();
    let sig = git2::Signature::now("tester", "tester@invalid").unwrap();
    let parents = match repo.head() {
        Ok(h) => vec![h.peel_to_commit().unwrap()],
        Err(_) => Vec::new(),
    };
    let parent_refs: Vec<&git2::Commit> = parents.iter().collect();
    repo.commit(Some("HEAD"), &sig, &sig, "snapshot", &tree, &parent_refs)
        .unwrap();
}

#[test]
fn read_skips_ignored_directory_and_annotates_the_file() {
    let repo = build_repo_with_tree();
    let s = read_git_repository_structure(&repo).unwrap();
    assert_eq!(s.name, "root");
    assert_eq!(s.path, "");
    assert!(!s.is_file);
    assert_eq!(s.children.len(), 1);
    assert_eq!(count_files_in_structure(&s), 1);
    assert_eq!(get_total_size_from_structure(&s), 10);
    let child = &s.children[0];
    assert_eq!(child.name, "a.txt");
    assert_eq!(child.path, "a.txt");
    assert!(child.is_file);
    assert_eq!(child.size, Some(10));
    assert_eq!(child.extension, Some(String::from("txt")));
    assert_eq!(child.content, Some(String::from("0123456789")));
}

fn build_repo_with_nested_dirs() -> git2::Repository {
    let repo = git2::Repository::init_bare("/tmp/repohost_test_nested_repo.git").unwrap();
    let small = repo.blob(b"abc").unwrap();
    let big = repo.blob(b"0123456789").unwrap();
    let binary = repo.blob(b"\x00\x01\x02").unwrap();
    let deep_oid = {
        let mut b = repo.treebuilder(None).unwrap();
        b.insert("inner.txt", small, 0o100644).unwrap();
        b.write().unwrap()
    };
    let sub_oid = {
        let mut b = repo.treebuilder(None).unwrap();
        b.insert("z.rs", small, 0o100644).unwrap();
        b.insert("data.bin", binary, 0o100644).unwrap();
        b.insert("sub", deep_oid, 0o040000).unwrap();
        b.write().unwrap()
    };
    let root_oid = {
        let mut b = repo.treebuilder(None).unwrap();
        b.insert("zz.txt", big, 0o100644).unwrap();
        b.insert("lib", sub_oid, 0o040000).unwrap();
        b.write().unwrap()
    };
    commit_tree(&repo, root_oid);
    repo
}

#[test]
fn read_sorts_children_and_sums_directory_sizes() {
    let repo = build_repo_with_nested_dirs();
    let s = read_git_repository_structure(&repo).unwrap();
    assert_eq!(s.children.len(), 2);
    assert_eq!(s.children[0].name, "lib");
    assert_eq!(s.children[1].name, "zz.txt");
    let lib = &s.children[0];
    assert!(!lib.is_file);
    assert_eq!(lib.path, "lib");
    assert_eq!(lib.size, Some(9));
    assert_eq!(lib.children.len(), 3);
    assert_eq!(lib.children[0].name, "data.bin");
    assert_eq!(lib.children[0].content, None);
    assert_eq!(lib.children[0].path, "lib/data.bin");
    assert_eq!(lib.children[0].id, "lib");
    assert_eq!(lib.children[1].name, "sub");
    assert_eq!(lib.children[1].path, "lib/sub");
    assert_eq!(lib.children[1].size, Some(3));
    let deep = &lib.children[1];
    assert_eq!(deep.children.len(), 1);
    assert_eq!(deep.children[0].name, "inner.txt");
    assert_eq!(deep.children[0].path, "lib/sub/inner.txt");
    assert_eq!(deep.children[0].id, "lib_sub");
    assert_eq!(lib.children[2].name, "z.rs");
    assert_eq!(lib.children[2].content, Some(String::from("abc")));
    assert_eq!(get_total_size_from_structure(&s), 19);
    assert_eq!(count_files_in_structure(&s), 4);
}
