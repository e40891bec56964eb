use repohost::git_service::contain_file_path;
use repohost::git_service::GitService;
use repohost::git_service::GitServiceError;
use repohost::repo_store::InMemoryStore;
use repohost::repo_store::RepositoryStore;

fn service() -> GitService {
    GitService::new(String::from("/srv/git"), "git")
}

#[test]
fn create_then_delete_restores_base() {
    let svc = service();
    let mut store = InMemoryStore::new(true);
    let created = svc.create_bare_repository(&mut store, "proj");
    assert!(created.is_ok());
    assert_eq!(created.unwrap(), "/srv/git/proj.git");
    assert!(store.repo_exists("proj"));
    let deleted = svc.delete_repository(&mut store, "proj");
    assert!(deleted.is_ok());
    assert!(!store.repo_exists("proj"));
    assert_eq!(store.repo_count(), 0);
    assert!(store.base_dir_exists());
}

#[test]
fn create_twice_fails_already_exists() {
    let svc = service();
    let mut store = InMemoryStore::new(true);
    assert!(svc.create_bare_repository(&mut store, "proj").is_ok());
    let first_token = store.repo_token("proj");
    assert!(first_token.is_some());
    let second = svc.create_bare_repository(&mut store, "proj");
    assert!(matches!(second, Err(GitServiceError::AlreadyExists(_))));
    assert_eq!(store.repo_count(), 1);
    assert_eq!(store.repo_token("proj"), first_token);
}

#[test]
fn delete_missing_fails_not_found() {
    let svc = service();
    let mut store = InMemoryStore::new(true);
    let r = svc.delete_repository(&mut store, "ghost");
    assert!(matches!(r, Err(GitServiceError::NotFound(_))));
    assert_eq!(store.repo_count(), 0);
    assert!(store.base_dir_exists());
}

#[test]
fn rename_to_same_name_fails_already_exists() {
    let svc = service();
    let mut store = InMemoryStore::new(true);
    assert!(svc.create_bare_repository(&mut store, "same").is_ok());
    let r = svc.rename_repository(&mut store, "same", "same");
    assert!(matches!(r, Err(GitServiceError::AlreadyExists(_))));
    assert!(store.repo_exists("same"));
    assert_eq!(store.repo_count(), 1);
}

#[test]
fn rename_moves_contents() {
    let svc = service();
    let mut store = InMemoryStore::new(true);
    assert!(svc.create_bare_repository(&mut store, "alpha").is_ok());
    let token = store.repo_token("alpha");
    assert!(token.is_some());
    let r = svc.rename_repository(&mut store, "alpha", "beta");
    assert!(r.is_ok());
    assert!(!store.repo_exists("alpha"));
    assert!(store.repo_exists("beta"));
    assert_eq!(store.repo_token("beta"), token);
    assert_eq!(store.repo_count(), 1);
}

#[test]
fn rename_missing_source_fails_not_found() {
    let svc = service();
    let mut store = InMemoryStore::new(true);
    let r = svc.rename_repository(&mut store, "nope", "other");
    assert!(matches!(r, Err(GitServiceError::NotFound(_))));
    assert_eq!(store.repo_count(), 0);
}

#[test]
fn rename_to_existing_target_fails_already_exists() {
    let svc = service();
    let mut store = InMemoryStore::new(true);
    assert!(svc.create_bare_repository(&mut store, "one").is_ok());
    assert!(svc.create_bare_repository(&mut store, "two").is_ok());
    let r = svc.rename_repository(&mut store, "one", "two");
    assert!(matches!(r, Err(GitServiceError::AlreadyExists(_))));
    assert!(store.repo_exists("one"));
    assert!(store.repo_exists("two"));
}

#[test]
fn failing_git_init_leaves_no_residue() {
    let svc = service();
    let mut store = InMemoryStore::new(false);
    store.set_fail_git_init(true);
    let r = svc.create_bare_repository(&mut store, "doomed");
    assert!(matches!(r, Err(GitServiceError::GitError(_))));
    assert!(!store.repo_exists("doomed"));
    assert_eq!(store.repo_count(), 0);
    assert!(!store.base_dir_exists());
}

#[test]
fn failing_git_init_keeps_existing_base() {
    let svc = service();
    let mut store = InMemoryStore::new(true);
    assert!(svc.create_bare_repository(&mut store, "kept").is_ok());
    store.set_fail_git_init(true);
    let r = svc.create_bare_repository(&mut store, "doomed");
    assert!(matches!(r, Err(GitServiceError::GitError(_))));
    assert!(!store.repo_exists("doomed"));
    assert!(store.repo_exists("kept"));
    assert_eq!(store.repo_count(), 1);
    assert!(store.base_dir_exists());
}

#[test]
fn create_base_dir_failure_is_filesystem_error() {
    let svc = service();
    let mut store = InMemoryStore::new(false);
    store.set_fail_fs(true);
    let r = svc.create_bare_repository(&mut store, "proj");
    assert!(matches!(r, Err(GitServiceError::FilesystemError(_))));
    assert!(!store.base_dir_exists());
    assert_eq!(store.repo_count(), 0);
}

#[test]
fn delete_failure_is_filesystem_error() {
    let svc = service();
    let mut store = InMemoryStore::new(true);
    assert!(svc.create_bare_repository(&mut store, "proj").is_ok());
    store.set_fail_fs(true);
    let r = svc.delete_repository(&mut store, "proj");
    assert!(matches!(r, Err(GitServiceError::FilesystemError(_))));
    assert!(store.repo_exists("proj"));
}

#[test]
fn rename_failure_is_filesystem_error() {
    let svc = service();
    let mut store = InMemoryStore::new(true);
    assert!(svc.create_bare_repository(&mut store, "proj").is_ok());
    store.set_fail_fs(true);
    let r = svc.rename_repository(&mut store, "proj", "other");
    assert!(matches!(r, Err(GitServiceError::FilesystemError(_))));
    assert!(store.repo_exists("proj"));
    assert!(!store.repo_exists("other"));
}

#[test]
fn sanitizer_distinguishes_blank_from_invalid_names() {
    let svc = service();
    for blank in ["", "   ", "\t", " \n "] {
        match svc.get_repository_path(blank) {
            Err(GitServiceError::InvalidRepositoryName(m)) => {
                assert_eq!(m, "Repository name cannot be empty", "for {:?}", blank);
            }
            other => panic!("accepted {:?}: {:?}", blank, other.is_ok()),
        }
    }
    match svc.get_repository_path("a b") {
        Err(GitServiceError::InvalidRepositoryName(m)) => {
            assert_eq!(m, "Repository name contains invalid characters");
        }
        other => panic!("accepted 'a b': {:?}", other.is_ok()),
    }
}

#[test]
fn error_messages_name_the_repository_path() {
    let svc = service();
    let mut store = InMemoryStore::new(true);
    match svc.delete_repository(&mut store, "ghost") {
        Err(GitServiceError::NotFound(m)) => {
            assert_eq!(m, "Repository does not exist: /srv/git/ghost.git");
        }
        other => panic!("expected NotFound, got Ok: {:?}", other.is_ok()),
    }
    assert!(svc.create_bare_repository(&mut store, "proj").is_ok());
    store.set_fail_fs(true);
    match svc.delete_repository(&mut store, "proj") {
        Err(GitServiceError::FilesystemError(m)) => {
            assert!(m.starts_with("Failed to delete repository /srv/git/proj.git: "));
        }
        other => panic!("expected FilesystemError, got Ok: {:?}", other.is_ok()),
    }
}

#[test]
fn sanitizer_rejects_traversal_and_separators() {
    let svc = service();
    for bad in ["../etc", "a/b", "", "name with space", "  ", "dot.dot"] {
        let r = svc.get_repository_path(bad);
        assert!(
            matches!(r, Err(GitServiceError::InvalidRepositoryName(_))),
            "accepted {:?}",
            bad
        );
    }
}

#[test]
fn sanitizer_accepts_plain_names() {
    let svc = service();
    let r = svc.get_repository_path("my-repo_1");
    assert_eq!(r.unwrap(), "/srv/git/my-repo_1.git");
    let r2 = svc.get_repository_path("A9");
    assert_eq!(r2.unwrap(), "/srv/git/A9.git");
}

#[test]
fn contained_paths_stay_below_the_root() {
    assert_eq!(contain_file_path("/repo", "a/b.txt"), Some(String::from("/repo/a/b.txt")));
    assert_eq!(contain_file_path("/repo", "./a"), Some(String::from("/repo/a")));
    assert_eq!(contain_file_path("/repo", "a//b"), Some(String::from("/repo/a/b")));
    assert_eq!(contain_file_path("/repo", "a/../b"), Some(String::from("/repo/b")));
    assert_eq!(contain_file_path("/repo", "a/b/../../c"), Some(String::from("/repo/c")));
    assert_eq!(contain_file_path("/repo", ""), Some(String::from("/repo")));
}

#[test]
fn traversal_above_the_root_is_refused() {
    assert_eq!(contain_file_path("/repo", ".."), None);
    assert_eq!(contain_file_path("/repo", "../etc"), None);
    assert_eq!(contain_file_path("/repo", "a/../../x"), None);
    assert_eq!(contain_file_path("/repo", "../a/.."), None);
}

#[test]
fn create_with_invalid_name_changes_nothing() {
    let svc = service();
    let mut store = InMemoryStore::new(true);
    let r = svc.create_bare_repository(&mut store, "../etc");
    assert!(matches!(r, Err(GitServiceError::InvalidRepositoryName(_))));
    assert_eq!(store.repo_count(), 0);
    let msg = match r {
        Err(e) => e.message().clone(),
        Ok(_) => String::new(),
    };
    assert!(!msg.is_empty());
}
