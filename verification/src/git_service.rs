//! Lifecycle management of bare git repositories.
//!
//! `GitService` validates user-supplied repository names, maps them to
//! on-disk paths under a configured base directory, and creates, renames
//! and deletes the corresponding bare repositories through an injected
//! [`crate::repo_store::RepositoryStore`] capability.

use crate::repo_store::RepositoryStore;
use crate::text::has_prefix;
use crate::text::lemma_concat_has_prefix;
use vstd::prelude::*;
use vstd::string::StringExecFns;

verus! {

/// One recorded inverse operation, executed during rollback to undo an
/// earlier step of a multi-step lifecycle operation.
pub enum CompensatingAction {
    /// Remove the repository directory of the named repository.
    RemoveRepoDir(String),
    /// Remove the base directory (recorded only when this operation
    /// created it).
    RemoveBaseDir,
}

/// One compensating action, executed best-effort. Removing a repository
/// directory touches nothing outside that repository's entry, whether
/// the removal succeeds, fails partway or is skipped; removing the base
/// directory either takes full effect or leaves the view unchanged.
pub open spec fn compensation_step(
    a: CompensatingAction,
    base0: bool,
    repos0: Map<Seq<char>, u64>,
    base1: bool,
    repos1: Map<Seq<char>, u64>,
) -> bool {
    match a {
        CompensatingAction::RemoveRepoDir(n) => base1 == base0 && repos1.remove(n@)
            == repos0.remove(n@),
        CompensatingAction::RemoveBaseDir => (!base1 && repos1 == Map::<Seq<char>, u64>::empty())
            || (base1 == base0 && repos1 == repos0),
    }
}

/// The recorded actions, executed in reverse order (last first), each
/// best-effort, turn the view `(base0, repos0)` into `(base1, repos1)`.
pub open spec fn compensations_applied(
    ops: Seq<CompensatingAction>,
    base0: bool,
    repos0: Map<Seq<char>, u64>,
    base1: bool,
    repos1: Map<Seq<char>, u64>,
) -> bool
    decreases ops.len(),
{
    if ops.len() == 0 {
        base1 == base0 && repos1 == repos0
    } else {
        exists|bm: bool, rm: Map<Seq<char>, u64>|
            compensation_step(ops.last(), base0, repos0, bm, rm) && compensations_applied(
                ops.drop_last(),
                bm,
                rm,
                base1,
                repos1,
            )
    }
}

/// Executing one more action after a recorded sequence is the same as
/// recording that action first: rollback runs the records in reverse.
proof fn lemma_compensations_extend_front(
    a: CompensatingAction,
    ops: Seq<CompensatingAction>,
    base0: bool,
    repos0: Map<Seq<char>, u64>,
    base1: bool,
    repos1: Map<Seq<char>, u64>,
    base2: bool,
    repos2: Map<Seq<char>, u64>,
)
    requires
        compensations_applied(ops, base0, repos0, base1, repos1),
        compensation_step(a, base1, repos1, base2, repos2),
    ensures
        compensations_applied(seq![a] + ops, base0, repos0, base2, repos2),
    decreases ops.len(),
{
    if ops.len() == 0 {
        assert((seq![a] + ops).last() == a);
        assert((seq![a] + ops).drop_last() =~= Seq::<CompensatingAction>::empty());
        assert(compensation_step((seq![a] + ops).last(), base0, repos0, base2, repos2)
            && compensations_applied(
            (seq![a] + ops).drop_last(),
            base2,
            repos2,
            base2,
            repos2,
        ));
    } else {
        let (bm, rm) = choose|bm: bool, rm: Map<Seq<char>, u64>|
            compensation_step(ops.last(), base0, repos0, bm, rm) && compensations_applied(
                ops.drop_last(),
                bm,
                rm,
                base1,
                repos1,
            );
        lemma_compensations_extend_front(
            a,
            ops.drop_last(),
            bm,
            rm,
            base1,
            repos1,
            base2,
            repos2,
        );
        assert((seq![a] + ops).last() == ops.last());
        assert((seq![a] + ops).drop_last() =~= seq![a] + ops.drop_last());
        assert(compensation_step((seq![a] + ops).last(), base0, repos0, bm, rm)
            && compensations_applied((seq![a] + ops).drop_last(), bm, rm, base2, repos2));
    }
}

/// A character allowed in a repository name: ASCII letters, digits,
/// `-` and `_`.
pub open spec fn is_name_char(c: char) -> bool {
    ('a' <= c && c <= 'z') || ('A' <= c && c <= 'Z') || ('0' <= c && c <= '9') || c == '-' || c
        == '_'
}

/// A valid repository name is non-empty and consists only of allowed
/// characters; in particular it contains no path separators.
pub open spec fn valid_repo_name(s: Seq<char>) -> bool {
    s.len() > 0 && forall|i: int| 0 <= i < s.len() ==> is_name_char(#[trigger] s[i])
}

/// The on-disk path of the repository called `name`:
/// `{base}/{name}.git`.
pub open spec fn repo_dir_path(base: Seq<char>, name: Seq<char>) -> Seq<char> {
    base + seq!['/'] + name + seq!['.', 'g', 'i', 't']
}

/// An ASCII whitespace character, as the name validation counts them.
pub open spec fn is_space_char(c: char) -> bool {
    c == ' ' || c == '\t' || c == '\n' || c == '\r'
}

/// The name is empty or holds only whitespace.
pub open spec fn all_whitespace(s: Seq<char>) -> bool {
    forall|i: int| 0 <= i < s.len() ==> is_space_char(#[trigger] s[i])
}

/// The diagnostic for a rejected name: a blank name cannot be empty,
/// any other rejected name holds an invalid character.
pub open spec fn invalid_name_message(n: Seq<char>) -> Seq<char> {
    if all_whitespace(n) {
        "Repository name cannot be empty"@
    } else {
        "Repository name contains invalid characters"@
    }
}

/// One step of lexical path normalisation: an empty segment or `.` is
/// dropped, `..` pops the last kept segment — or escapes the root if
/// none is left — and any other segment is kept.
pub open spec fn step_segment(st: Seq<Seq<char>>, seg: Seq<char>) -> Option<Seq<Seq<char>>> {
    if seg.len() == 0 || seg == "."@ {
        Some(st)
    } else if seg == ".."@ {
        if st.len() == 0 {
            None
        } else {
            Some(st.drop_last())
        }
    } else {
        Some(st.push(seg))
    }
}

/// Normalisation of the remaining segments, starting from the kept
/// segments `st`; `None` means some `..` stepped above the root.
pub open spec fn norm_from(st: Seq<Seq<char>>, segs: Seq<Seq<char>>) -> Option<Seq<Seq<char>>>
    decreases segs.len(),
{
    if segs.len() == 0 {
        Some(st)
    } else {
        match step_segment(st, segs.first()) {
            Some(st2) => norm_from(st2, segs.drop_first()),
            None => None,
        }
    }
}

/// The segments of a relative path after lexical normalisation, or
/// `None` when the path escapes its root.
pub open spec fn normalize_segments(segs: Seq<Seq<char>>) -> Option<Seq<Seq<char>>> {
    norm_from(Seq::empty(), segs)
}

/// The path of `segs` below `root`: the root with `/` and a segment
/// appended for each segment in turn.
pub open spec fn join_under(root: Seq<char>, segs: Seq<Seq<char>>) -> Seq<char>
    decreases segs.len(),
{
    if segs.len() == 0 {
        root
    } else {
        join_under(root, segs.drop_last()) + "/"@ + segs.last()
    }
}

/// A joined path always begins with its root: whatever segments are
/// appended below a repository root, the result stays prefixed by that
/// root, so a contained path cannot name anything outside it.
pub proof fn lemma_join_under_keeps_root_prefix(root: Seq<char>, segs: Seq<Seq<char>>)
    ensures
        join_under(root, segs).len() >= root.len(),
        join_under(root, segs).take(root.len() as int) == root,
    decreases segs.len(),
{
    if segs.len() == 0 {
        assert(join_under(root, segs).take(root.len() as int) =~= root);
    } else {
        lemma_join_under_keeps_root_prefix(root, segs.drop_last());
        let prev = join_under(root, segs.drop_last());
        assert((prev + "/"@ + segs.last()).take(root.len() as int) =~= prev.take(
            root.len() as int,
        ));
    }
}

/// The views of a vector of owned segments.
pub open spec fn seg_views(v: Seq<String>) -> Seq<Seq<char>> {
    Seq::new(v.len(), |i: int| v[i]@)
}

/// Joins `relative_path` below `repo_root`, normalising `.`, `..` and
/// empty segments lexically, and refuses a path whose `..` segments
/// climb above the root: the result, when there is one, begins with
/// `repo_root` and stays contained in it.
pub fn contain_file_path(repo_root: &str, relative_path: &str) -> (r: Option<String>)
    ensures
        r.is_some() == normalize_segments(
            crate::text::split_at_char(relative_path@, '/'),
        ).is_some(),
        r matches Some(p) ==> (normalize_segments(crate::text::split_at_char(relative_path@, '/'))
            matches Some(st) && p@ == join_under(repo_root@, st)),
        r matches Some(p) ==> p@.len() >= repo_root@.len() && p@.take(repo_root@.len() as int)
            == repo_root@,
{
    let n = relative_path.unicode_len();
    let mut stack: Vec<String> = Vec::new();
    let mut start: usize = 0;
    proof {
        assert(relative_path@.skip(0) =~= relative_path@);
        assert(seg_views(stack@) =~= Seq::<Seq<char>>::empty());
    }
    while start < n
        invariant
            start <= n,
            n == relative_path@.len(),
            norm_from(
                seg_views(stack@),
                crate::text::split_at_char(relative_path@.skip(start as int), '/'),
            ) == normalize_segments(crate::text::split_at_char(relative_path@, '/')),
        decreases n - start,
    {
        let ghost pre_stack = seg_views(stack@);
        let end = crate::text::find_char(relative_path, start, '/');
        let seg = relative_path.substring_char(start, end);
        let ghost s = relative_path@.skip(start as int);
        let ghost e = end - start;
        let ghost tail = if end < n {
            s.skip(e + 1)
        } else {
            Seq::<char>::empty()
        };
        let ghost chunks = seq![s.take(e as int)] + crate::text::split_at_char(tail, '/');
        proof {
            assert(seg@ =~= s.take(e as int));
            crate::text::lemma_split_first_chunk(s, '/', e as int);
            assert(chunks.first() == s.take(e as int));
            assert(chunks.drop_first() =~= crate::text::split_at_char(tail, '/'));
        }
        let dropped = seg.unicode_len() == 0 || crate::text::str_eq(seg, ".");
        if !dropped {
            if crate::text::str_eq(seg, "..") {
                if stack.len() == 0 {
                    proof {
                        assert(step_segment(pre_stack, chunks.first()) matches None);
                        assert(norm_from(pre_stack, chunks) matches None);
                    }
                    return None;
                }
                stack.pop();
            } else {
                stack.push(String::from_str(seg));
            }
        }
        let new_start = if end < n {
            end + 1
        } else {
            n
        };
        proof {
            if end < n {
                assert(s.skip(e + 1) =~= relative_path@.skip(new_start as int));
            } else {
                assert(relative_path@.skip(new_start as int) =~= Seq::<char>::empty());
            }
            if dropped {
                assert(seg_views(stack@) =~= pre_stack);
                assert(step_segment(pre_stack, chunks.first()) == Some(seg_views(stack@)));
            } else if seg@ == ".."@ {
                assert(seg_views(stack@) =~= pre_stack.drop_last());
                assert(step_segment(pre_stack, chunks.first()) == Some(seg_views(stack@)));
            } else {
                assert(seg_views(stack@) =~= pre_stack.push(seg@));
                assert(step_segment(pre_stack, chunks.first()) == Some(seg_views(stack@)));
            }
            assert(norm_from(pre_stack, chunks) == norm_from(
                seg_views(stack@),
                crate::text::split_at_char(relative_path@.skip(new_start as int), '/'),
            ));
        }
        start = new_start;
    }
    proof {
        assert(relative_path@.skip(n as int) =~= Seq::<char>::empty());
    }
    let mut p = String::from_str(repo_root);
    let mut i: usize = 0;
    while i < stack.len()
        invariant
            i <= stack@.len(),
            p@ == join_under(repo_root@, seg_views(stack@).take(i as int)),
        decreases stack@.len() - i,
    {
        p.append("/");
        p.append(stack[i].as_str());
        proof {
            assert(seg_views(stack@).take(i + 1).drop_last() =~= seg_views(stack@).take(i as int));
            assert(seg_views(stack@).take(i + 1).last() == stack@[i as int]@);
        }
        i = i + 1;
    }
    proof {
        assert(seg_views(stack@).take(stack@.len() as int) =~= seg_views(stack@));
        lemma_join_under_keeps_root_prefix(repo_root@, seg_views(stack@));
    }
    Some(p)
}

/// An error from a lifecycle operation. Every variant carries the
/// underlying diagnostic text for operator visibility.
#[derive(Debug)]
pub enum GitServiceError {
    /// The repository name is empty or contains a disallowed character.
    InvalidRepositoryName(String),
    /// The target repository directory already exists.
    AlreadyExists(String),
    /// The repository directory does not exist.
    NotFound(String),
    /// A filesystem operation failed.
    FilesystemError(String),
    /// The external git command exited non-zero or could not be spawned.
    GitError(String),
}

impl GitServiceError {
    /// The diagnostic text carried by this error.
    pub fn message(&self) -> (m: &String)
        ensures
            m == match self {
                GitServiceError::InvalidRepositoryName(s) => s,
                GitServiceError::AlreadyExists(s) => s,
                GitServiceError::NotFound(s) => s,
                GitServiceError::FilesystemError(s) => s,
                GitServiceError::GitError(s) => s,
            },
    {
        match self {
            GitServiceError::InvalidRepositoryName(s) => s,
            GitServiceError::AlreadyExists(s) => s,
            GitServiceError::NotFound(s) => s,
            GitServiceError::FilesystemError(s) => s,
            GitServiceError::GitError(s) => s,
        }
    }
}

/// A service for managing bare git repositories below one base directory.
pub struct GitService {
    base_path: String,
    user: String,
}

impl GitService {
    /// The configured base directory.
    pub closed spec fn base(&self) -> Seq<char> {
        self.base_path@
    }

    /// The user that should own newly created repositories.
    pub closed spec fn owner(&self) -> Seq<char> {
        self.user@
    }

    /// Creates a new `GitService` for the given base directory and
    /// service user.
    pub fn new(base_path: String, user: &str) -> (s: Self)
        ensures
            s.base() == base_path@,
            s.owner() == user@,
    {
        GitService { base_path, user: String::from_str(user) }
    }

    /// Validates `name` and returns the repository path
    /// `{base}/{name}.git`. A name that is empty or all whitespace is
    /// rejected as empty; any other name holding a character outside
    /// ASCII letters, digits, `-` and `_` is rejected as invalid; no
    /// normalisation is performed.
    pub fn get_repository_path(&self, name: &str) -> (r: Result<String, GitServiceError>)
        ensures
            r.is_ok() <==> valid_repo_name(name@),
            r matches Ok(p) ==> p@ == repo_dir_path(self.base(), name@),
            r matches Err(e) ==> e matches GitServiceError::InvalidRepositoryName(_),
            r matches Err(GitServiceError::InvalidRepositoryName(m)) ==> m@ == invalid_name_message(
                name@,
            ),
    {
        let n = name.unicode_len();
        let mut has_content = false;
        let mut i: usize = 0;
        while i < n
            invariant
                n == name@.len(),
                i <= n,
                has_content == exists|j: int| 0 <= j < i && !is_space_char(#[trigger] name@[j]),
            decreases n - i,
        {
            let c = name.get_char(i);
            if !(c == ' ' || c == '\t' || c == '\n' || c == '\r') {
                has_content = true;
            }
            i = i + 1;
        }
        if !has_content {
            proof {
                assert(all_whitespace(name@));
                if name@.len() > 0 {
                    assert(is_space_char(name@[0]));
                    assert(!is_name_char(name@[0]));
                }
            }
            return Err(
                GitServiceError::InvalidRepositoryName(
                    String::from_str("Repository name cannot be empty"),
                ),
            );
        }
        let mut i: usize = 0;
        while i < n
            invariant
                n == name@.len(),
                i <= n,
                !all_whitespace(name@),
                forall|j: int| 0 <= j < i ==> is_name_char(#[trigger] name@[j]),
            decreases n - i,
        {
            let c = name.get_char(i);
            let ok = (c >= 'a' && c <= 'z') || (c >= 'A' && c <= 'Z') || (c >= '0' && c <= '9')
                || c == '-' || c == '_';
            if !ok {
                return Err(
                    GitServiceError::InvalidRepositoryName(
                        String::from_str("Repository name contains invalid characters"),
                    ),
                );
            }
            i = i + 1;
        }
        proof {
            assert(n > 0) by {
                let j = choose|j: int| 0 <= j < n && !is_space_char(#[trigger] name@[j]);
            }
        }
        let mut path = self.base_path.clone();
        path.append("/");
        path.append(name);
        path.append(".git");
        proof {
            reveal_strlit("/");
            reveal_strlit(".git");
            assert(path@ =~= repo_dir_path(self.base(), name@));
        }
        Ok(path)
    }

    /// A diagnostic message `{prefix}{detail}`.
    fn message_with(prefix: &str, detail: &str) -> (m: String)
        ensures
            m@ == prefix@ + detail@,
    {
        let mut m = String::from_str(prefix);
        m.append(detail);
        m
    }

    /// Executes the recorded compensating actions in reverse order, each
    /// best-effort: a failing removal is skipped, later compensations
    /// still run.
    fn rollback<S: RepositoryStore>(&self, store: &mut S, operations: Vec<CompensatingAction>)
        requires
            old(store).inv(),
        ensures
            final(store).inv(),
            compensations_applied(
                operations@,
                old(store).base_exists(),
                old(store).repos(),
                final(store).base_exists(),
                final(store).repos(),
            ),
    {
        let len = operations.len();
        let mut idx: usize = len;
        while idx > 0
            invariant
                store.inv(),
                idx <= len,
                len == operations@.len(),
                compensations_applied(
                    operations@.subrange(idx as int, len as int),
                    old(store).base_exists(),
                    old(store).repos(),
                    store.base_exists(),
                    store.repos(),
                ),
            decreases idx,
        {
            idx = idx - 1;
            let ghost pre_base = store.base_exists();
            let ghost pre_repos = store.repos();
            match &operations[idx] {
                CompensatingAction::RemoveRepoDir(n) => {
                    if store.repo_exists(n.as_str()) {
                        let _ = store.remove_repo_dir(n.as_str());
                    }
                    proof {
                        assert(store.repos().remove(n@) =~= pre_repos.remove(n@));
                    }
                },
                CompensatingAction::RemoveBaseDir => {
                    let _ = store.remove_base_dir();
                },
            }
            proof {
                assert(compensation_step(
                    operations@[idx as int],
                    pre_base,
                    pre_repos,
                    store.base_exists(),
                    store.repos(),
                ));
                lemma_compensations_extend_front(
                    operations@[idx as int],
                    operations@.subrange(idx as int + 1, len as int),
                    old(store).base_exists(),
                    old(store).repos(),
                    pre_base,
                    pre_repos,
                    store.base_exists(),
                    store.repos(),
                );
                assert(operations@.subrange(idx as int, len as int) =~= seq![
                    operations@[idx as int],
                ] + operations@.subrange(idx as int + 1, len as int));
            }
        }
        proof {
            assert(operations@.subrange(0, len as int) =~= operations@);
        }
    }

    /// Creates the bare repository `{base}/{name}.git`.
    ///
    /// Fails `InvalidRepositoryName` exactly on invalid names and
    /// `AlreadyExists` exactly when the repository directory is already
    /// present, both without touching the filesystem. A failure while
    /// creating the base directory changes nothing. A failing `git init`
    /// triggers the compensating rollback: the repositories are exactly as
    /// before the call, and the base directory is as before unless only
    /// its compensating removal failed. On success exactly the one new
    /// repository has been added and its path is returned.
    pub fn create_bare_repository<S: RepositoryStore>(
        &self,
        store: &mut S,
        name: &str,
    ) -> (r: Result<String, GitServiceError>)
        requires
            old(store).inv(),
        ensures
            final(store).inv(),
            match r {
                Ok(p) => valid_repo_name(name@) && !(old(store).base_exists() && old(store).repos().dom().contains(name@)) && p@ == repo_dir_path(self.base(), name@)
                    && final(store).base_exists() && !old(store).repos().dom().contains(name@)
                    && final(store).repos().remove(name@) == old(store).repos() && final(store).repos().dom().contains(name@),
                Err(GitServiceError::InvalidRepositoryName(_)) => !valid_repo_name(name@) && final(store).base_exists() == old(store).base_exists() && final(store).repos() == old(store).repos(),
                Err(GitServiceError::AlreadyExists(_)) => valid_repo_name(name@) && old(store).base_exists() && old(store).repos().dom().contains(name@) && final(store).base_exists() == old(store).base_exists() && final(store).repos() == old(store).repos(),
                Err(GitServiceError::FilesystemError(_)) => valid_repo_name(name@) && !(old(store).base_exists() && old(store).repos().dom().contains(name@)) && final(store).base_exists() == old(store).base_exists() && final(store).repos() == old(store).repos(),
                Err(GitServiceError::GitError(_)) => valid_repo_name(name@) && !(old(store).base_exists() && old(store).repos().dom().contains(name@)) && final(store).repos() == old(store).repos() && (final(store).base_exists() == old(store).base_exists() || !old(store).base_exists()),
                Err(GitServiceError::NotFound(_)) => false,
            },
            r matches Err(GitServiceError::InvalidRepositoryName(m)) ==> m@ == invalid_name_message(
                name@,
            ),
            r matches Err(GitServiceError::AlreadyExists(m)) ==> m@ == "Repository already exists: "@
                + name@,
            r matches Err(GitServiceError::FilesystemError(m)) ==> has_prefix(
                m@,
                "Failed to create parent directory: "@,
            ),
            r matches Err(GitServiceError::GitError(m)) ==> has_prefix(m@, "Git init failed: "@),
    {
        let path = match self.get_repository_path(name) {
            Ok(p) => p,
            Err(e) => { return Err(e); },
        };
        if store.repo_exists(name) {
            return Err(
                GitServiceError::AlreadyExists(
                    Self::message_with("Repository already exists: ", name),
                ),
            );
        }
        let mut rollback_steps: Vec<CompensatingAction> = Vec::new();
        match store.create_base_dir() {
            Ok(created) => {
                if created {
                    rollback_steps.push(CompensatingAction::RemoveBaseDir);
                }
            },
            Err(e) => {
                proof {
                    lemma_concat_has_prefix("Failed to create parent directory: "@, e@);
                }
                return Err(
                    GitServiceError::FilesystemError(
                        Self::message_with("Failed to create parent directory: ", e.as_str()),
                    ),
                );
            },
        }
        match store.git_init_bare(name) {
            Ok(_) => {
                rollback_steps.push(CompensatingAction::RemoveRepoDir(String::from_str(name)));
            },
            Err(stderr) => {
                let ghost pre_base = store.base_exists();
                let ghost pre_repos = store.repos();
                let ghost steps = rollback_steps@;
                self.rollback(store, rollback_steps);
                proof {
                    if steps.len() > 0 {
                        let (bm, rm) = choose|bm: bool, rm: Map<Seq<char>, u64>|
                            compensation_step(steps.last(), pre_base, pre_repos, bm, rm)
                                && compensations_applied(
                                steps.drop_last(),
                                bm,
                                rm,
                                store.base_exists(),
                                store.repos(),
                            );
                        assert(steps.drop_last().len() == 0);
                    }
                }
                proof {
                    lemma_concat_has_prefix("Git init failed: "@, stderr@);
                }
                return Err(
                    GitServiceError::GitError(
                        Self::message_with("Git init failed: ", stderr.as_str()),
                    ),
                );
            },
        }
        let _ = store.set_owner(name, self.user.as_str());
        let _ = store.configure_repo(name);
        Ok(path)
    }

    /// Deletes the repository `{base}/{name}.git` by removing its
    /// directory tree.
    ///
    /// Fails `InvalidRepositoryName` exactly on invalid names and
    /// `NotFound` exactly when the repository directory is absent, both
    /// without touching the filesystem. On success exactly that repository
    /// has been removed; a failing removal reports `FilesystemError`.
    pub fn delete_repository<S: RepositoryStore>(
        &self,
        store: &mut S,
        name: &str,
    ) -> (r: Result<(), GitServiceError>)
        requires
            old(store).inv(),
        ensures
            final(store).inv(),
            match r {
                Ok(_) => valid_repo_name(name@) && old(store).base_exists() && old(store).repos().dom().contains(name@) && final(store).base_exists() == old(store).base_exists() && final(store).repos() == old(store).repos().remove(name@),
                Err(GitServiceError::InvalidRepositoryName(_)) => !valid_repo_name(name@) && final(store).base_exists() == old(store).base_exists() && final(store).repos() == old(store).repos(),
                Err(GitServiceError::NotFound(_)) => valid_repo_name(name@) && !(old(store).base_exists() && old(store).repos().dom().contains(name@)) && final(store).base_exists() == old(store).base_exists() && final(store).repos() == old(store).repos(),
                Err(GitServiceError::FilesystemError(_)) => valid_repo_name(name@) && old(store).base_exists() && old(store).repos().dom().contains(name@) && final(store).base_exists() == old(store).base_exists() && final(store).repos().remove(name@) == old(store).repos().remove(name@),
                Err(_) => false,
            },
            r matches Err(GitServiceError::InvalidRepositoryName(m)) ==> m@ == invalid_name_message(
                name@,
            ),
            r matches Err(GitServiceError::NotFound(m)) ==> m@ == "Repository does not exist: "@
                + repo_dir_path(self.base(), name@),
            r matches Err(GitServiceError::FilesystemError(m)) ==> has_prefix(
                m@,
                "Failed to delete repository "@ + repo_dir_path(self.base(), name@) + ": "@,
            ),
    {
        let path = match self.get_repository_path(name) {
            Ok(p) => p,
            Err(e) => { return Err(e); },
        };
        if !store.repo_exists(name) {
            return Err(
                GitServiceError::NotFound(
                    Self::message_with("Repository does not exist: ", path.as_str()),
                ),
            );
        }
        match store.remove_repo_dir(name) {
            Ok(_) => Ok(()),
            Err(e) => {
                let mut m = Self::message_with("Failed to delete repository ", path.as_str());
                m.append(": ");
                m.append(e.as_str());
                proof {
                    lemma_concat_has_prefix(
                        "Failed to delete repository "@ + repo_dir_path(self.base(), name@)
                            + ": "@,
                        e@,
                    );
                }
                Err(GitServiceError::FilesystemError(m))
            },
        }
    }

    /// Renames the repository `{base}/{old_name}.git` to
    /// `{base}/{new_name}.git` by one atomic move.
    ///
    /// Fails `InvalidRepositoryName` exactly when either name is invalid,
    /// `NotFound` exactly when the source repository is absent, and
    /// `AlreadyExists` exactly when the target directory is already
    /// present — including the degenerate case of renaming a repository to
    /// its own name, which is rejected rather than treated as a no-op. All
    /// pre-check failures leave the filesystem untouched. On success the
    /// source is absent, and the target exists with exactly the source's
    /// prior contents.
    pub fn rename_repository<S: RepositoryStore>(
        &self,
        store: &mut S,
        old_name: &str,
        new_name: &str,
    ) -> (r: Result<(), GitServiceError>)
        requires
            old(store).inv(),
        ensures
            final(store).inv(),
            match r {
                Ok(_) => valid_repo_name(old_name@) && valid_repo_name(new_name@) && old(store).base_exists() && old(store).repos().dom().contains(old_name@) && !old(store).repos().dom().contains(new_name@) && final(store).base_exists() == old(store).base_exists() && final(store).repos() == old(store).repos().remove(
                    old_name@,
                ).insert(new_name@, old(store).repos()[old_name@]),
                Err(GitServiceError::InvalidRepositoryName(_)) => !(valid_repo_name(old_name@)
                    && valid_repo_name(new_name@)) && final(store).base_exists() == old(store).base_exists() && final(store).repos() == old(store).repos(),
                Err(GitServiceError::NotFound(_)) => valid_repo_name(old_name@) && valid_repo_name(
                    new_name@,
                ) && !(old(store).base_exists() && old(store).repos().dom().contains(old_name@))
                    && final(store).base_exists() == old(store).base_exists() && final(store).repos() == old(store).repos(),
                Err(GitServiceError::AlreadyExists(_)) => valid_repo_name(old_name@)
                    && valid_repo_name(new_name@) && old(store).base_exists() && old(store).repos().dom().contains(old_name@) && old(store).repos().dom().contains(new_name@)
                    && final(store).base_exists() == old(store).base_exists() && final(store).repos() == old(store).repos(),
                Err(GitServiceError::FilesystemError(_)) => valid_repo_name(old_name@)
                    && valid_repo_name(new_name@) && old(store).base_exists() && old(store).repos().dom().contains(old_name@) && !old(store).repos().dom().contains(new_name@)
                    && final(store).base_exists() == old(store).base_exists() && final(store).repos() == old(store).repos(),
                Err(GitServiceError::GitError(_)) => false,
            },
            r matches Err(GitServiceError::InvalidRepositoryName(m)) ==> m@ == (if !valid_repo_name(
                old_name@,
            ) {
                invalid_name_message(old_name@)
            } else {
                invalid_name_message(new_name@)
            }),
            r matches Err(GitServiceError::NotFound(m)) ==> m@
                == "Source repository does not exist: "@ + repo_dir_path(self.base(), old_name@),
            r matches Err(GitServiceError::AlreadyExists(m)) ==> m@
                == "Target repository already exists: "@ + repo_dir_path(self.base(), new_name@),
            r matches Err(GitServiceError::FilesystemError(m)) ==> has_prefix(
                m@,
                "Failed to rename repository: "@,
            ),
    {
        let old_path = match self.get_repository_path(old_name) {
            Ok(p) => p,
            Err(e) => { return Err(e); },
        };
        let new_path = match self.get_repository_path(new_name) {
            Ok(p) => p,
            Err(e) => { return Err(e); },
        };
        if !store.repo_exists(old_name) {
            return Err(
                GitServiceError::NotFound(
                    Self::message_with("Source repository does not exist: ", old_path.as_str()),
                ),
            );
        }
        if store.repo_exists(new_name) {
            return Err(
                GitServiceError::AlreadyExists(
                    Self::message_with("Target repository already exists: ", new_path.as_str()),
                ),
            );
        }
        match store.rename_repo_dir(old_name, new_name) {
            Ok(_) => Ok(()),
            Err(e) => {
                proof {
                    lemma_concat_has_prefix("Failed to rename repository: "@, e@);
                }
                Err(
                    GitServiceError::FilesystemError(
                        Self::message_with("Failed to rename repository: ", e.as_str()),
                    ),
                )
            },
        }
    }
}

/// Creating a repository that was absent and then deleting it restores
/// the base directory to its prior state: no stray repository remains
/// and the base directory itself is as it was. The hypotheses are
/// exactly what `create_bare_repository` ensures on success over a base
/// directory that already existed, and what `delete_repository` then
/// ensures on success; the conclusion is that both observables return
/// to their values before the two calls.
pub proof fn lemma_create_then_delete_restores(
    base_before: bool,
    before: Map<Seq<char>, u64>,
    base_after_create: bool,
    after_create: Map<Seq<char>, u64>,
    base_after_delete: bool,
    after_delete: Map<Seq<char>, u64>,
    name: Seq<char>,
)
    requires
        base_before,
        !before.dom().contains(name),
        base_after_create,
        after_create.remove(name) == before,
        after_create.dom().contains(name),
        base_after_delete == base_after_create,
        after_delete == after_create.remove(name),
    ensures
        base_after_delete == base_before,
        after_delete == before,
{
}

} // verus!
