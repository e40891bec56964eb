//! The filesystem/command-executor capability behind the lifecycle manager.
//!
//! `RepositoryStore` abstracts the few on-disk effects the lifecycle
//! operations need: an existence check, creation of the base directory,
//! `git init --bare`, the advisory ownership and configuration steps, and
//! directory removal and renaming. Each method's contract states its effect
//! on an abstract view of the base directory: whether the base directory
//! exists, and a map from repository name to the content of its `.git`
//! directory (contents are tracked as opaque tokens; renaming a repository
//! moves its token). Ownership and configuration changes inside a
//! repository do not alter the view.
//!
//! Creation and renaming are modelled as atomic: they either take full
//! effect or fail leaving the view unchanged. A failed recursive removal
//! of a repository directory may stop partway: the contract then leaves
//! that one repository's entry unconstrained — it may survive, with any
//! content — while every other entry and the base directory are
//! untouched.
//!
//! `InMemoryStore` implements the capability over plain in-memory data, so
//! the lifecycle logic can be driven end to end without touching a real
//! filesystem; a store backed by the real filesystem and the real `git`
//! binary lives outside the verified library.

use vstd::prelude::*;
use vstd::string::StringExecFns;

verus! {

/// The on-disk effects a lifecycle operation may perform.
pub trait RepositoryStore: Sized {
    /// The store's internal invariant. A store outside the verified
    /// library leaves the default in place.
    open spec fn inv(&self) -> bool {
        true
    }

    /// Whether the base directory itself exists.
    open spec fn base_exists(&self) -> bool {
        true
    }

    /// The repositories inside the base directory: repository name to
    /// content token.
    open spec fn repos(&self) -> Map<Seq<char>, u64> {
        Map::empty()
    }

    /// Whether the directory `{base}/{name}.git` exists.
    fn repo_exists(&self, name: &str) -> (b: bool)
        requires
            self.inv(),
        ensures
            b == (self.base_exists() && self.repos().dom().contains(name@)),
    ;

    /// Creates the base directory if it is missing; reports whether it was
    /// created by this call.
    fn create_base_dir(&mut self) -> (r: Result<bool, String>)
        requires
            old(self).inv(),
        ensures
            final(self).inv(),
            match r {
                Ok(created) => final(self).base_exists() && final(self).repos() == old(self).repos() && created == !old(self).base_exists() && (created ==> old(self).repos() == Map::<Seq<char>, u64>::empty()),
                Err(_) => final(self).base_exists() == old(self).base_exists() && final(self).repos() == old(self).repos(),
            },
    ;

    /// Runs `git init --bare` for `name` inside the base directory. On
    /// failure the view is unchanged and the captured diagnostic text is
    /// returned.
    fn git_init_bare(&mut self, name: &str) -> (r: Result<(), String>)
        requires
            old(self).inv(),
            old(self).base_exists(),
            !old(self).repos().dom().contains(name@),
        ensures
            final(self).inv(),
            match r {
                Ok(_) => final(self).base_exists() && final(self).repos().remove(name@) == old(self).repos() && final(self).repos().dom().contains(name@),
                Err(_) => final(self).base_exists() == old(self).base_exists() && final(self).repos() == old(self).repos(),
            },
    ;

    /// Changes the ownership of the repository tree to `user`. Ownership is
    /// advisory: it never alters the view.
    fn set_owner(&mut self, name: &str, user: &str) -> (r: Result<(), String>)
        requires
            old(self).inv(),
        ensures
            final(self).inv(),
            final(self).base_exists() == old(self).base_exists(),
            final(self).repos() == old(self).repos(),
    ;

    /// Applies the repository configuration (disable the "deny current
    /// branch" guard, ensure a `hooks` directory). Configuration inside a
    /// repository does not alter the view.
    fn configure_repo(&mut self, name: &str) -> (r: Result<(), String>)
        requires
            old(self).inv(),
        ensures
            final(self).inv(),
            final(self).base_exists() == old(self).base_exists(),
            final(self).repos() == old(self).repos(),
    ;

    /// Recursively removes the directory `{base}/{name}.git`. A failed
    /// removal may have deleted part of that repository's tree: its
    /// entry is left unconstrained, everything else is untouched.
    fn remove_repo_dir(&mut self, name: &str) -> (r: Result<(), String>)
        requires
            old(self).inv(),
            old(self).base_exists(),
            old(self).repos().dom().contains(name@),
        ensures
            final(self).inv(),
            match r {
                Ok(_) => final(self).base_exists() == old(self).base_exists() && final(self).repos() == old(self).repos().remove(name@),
                Err(_) => final(self).base_exists() == old(self).base_exists() && final(self).repos().remove(name@) == old(self).repos().remove(name@),
            },
    ;

    /// Recursively removes the base directory and everything below it.
    fn remove_base_dir(&mut self) -> (r: Result<(), String>)
        requires
            old(self).inv(),
        ensures
            final(self).inv(),
            match r {
                Ok(_) => !final(self).base_exists() && final(self).repos() == Map::<
                    Seq<char>,
                    u64,
                >::empty(),
                Err(_) => final(self).base_exists() == old(self).base_exists() && final(self).repos() == old(self).repos(),
            },
    ;

    /// Atomically moves `{base}/{old_name}.git` to `{base}/{new_name}.git`.
    fn rename_repo_dir(&mut self, old_name: &str, new_name: &str) -> (r: Result<(), String>)
        requires
            old(self).inv(),
            old(self).base_exists(),
            old(self).repos().dom().contains(old_name@),
            !old(self).repos().dom().contains(new_name@),
        ensures
            final(self).inv(),
            match r {
                Ok(_) => final(self).base_exists() == old(self).base_exists() && final(self).repos() == old(self).repos().remove(old_name@).insert(
                    new_name@,
                    old(self).repos()[old_name@],
                ),
                Err(_) => final(self).base_exists() == old(self).base_exists() && final(self).repos() == old(self).repos(),
            },
    ;
}

/// The map described by a sequence of `(name, token)` entries; later
/// entries win, though the store keeps names unique.
pub open spec fn map_of(entries: Seq<(String, u64)>) -> Map<Seq<char>, u64>
    decreases entries.len(),
{
    if entries.len() == 0 {
        Map::empty()
    } else {
        map_of(entries.drop_last()).insert(entries.last().0@, entries.last().1)
    }
}

/// No two entries share a name.
pub open spec fn unique_names(entries: Seq<(String, u64)>) -> bool {
    forall|i: int, j: int|
        0 <= i < j < entries.len() ==> (#[trigger] entries[i]).0@ != (#[trigger] entries[j]).0@
}

proof fn lemma_map_of_contains(entries: Seq<(String, u64)>, n: Seq<char>)
    ensures
        map_of(entries).dom().contains(n) <==> exists|i: int|
            0 <= i < entries.len() && (#[trigger] entries[i]).0@ == n,
    decreases entries.len(),
{
    if entries.len() > 0 {
        lemma_map_of_contains(entries.drop_last(), n);
        if entries.last().0@ == n {
            assert(entries[entries.len() - 1].0@ == n);
        } else {
            if map_of(entries).dom().contains(n) {
                let i = choose|i: int|
                    0 <= i < entries.drop_last().len() && (#[trigger] entries.drop_last()[i]).0@
                        == n;
                assert(entries[i].0@ == n);
            }
            if exists|i: int| 0 <= i < entries.len() && (#[trigger] entries[i]).0@ == n {
                let i = choose|i: int| 0 <= i < entries.len() && (#[trigger] entries[i]).0@ == n;
                assert(i < entries.len() - 1);
                assert(entries.drop_last()[i].0@ == n);
            }
        }
    }
}

proof fn lemma_map_of_lookup(entries: Seq<(String, u64)>, i: int)
    requires
        unique_names(entries),
        0 <= i < entries.len(),
    ensures
        map_of(entries).dom().contains(entries[i].0@),
        map_of(entries)[entries[i].0@] == entries[i].1,
    decreases entries.len(),
{
    if i == entries.len() - 1 {
    } else {
        assert(entries.drop_last()[i] == entries[i]);
        lemma_map_of_lookup(entries.drop_last(), i);
        assert(entries.last().0@ != entries[i].0@);
    }
}

proof fn lemma_map_of_remove(entries: Seq<(String, u64)>, i: int)
    requires
        unique_names(entries),
        0 <= i < entries.len(),
    ensures
        map_of(entries.remove(i)) =~= map_of(entries).remove(entries[i].0@),
    decreases entries.len(),
{
    if i == entries.len() - 1 {
        assert(entries.remove(i) =~= entries.drop_last());
        lemma_map_of_contains(entries.drop_last(), entries[i].0@);
        assert(!map_of(entries.drop_last()).dom().contains(entries[i].0@));
        assert(map_of(entries.drop_last()).insert(entries[i].0@, entries[i].1).remove(entries[i].0@)
            =~= map_of(entries.drop_last()));
    } else {
        assert(entries.remove(i).drop_last() =~= entries.drop_last().remove(i));
        assert(entries.remove(i).last() == entries.last());
        assert(entries.drop_last()[i] == entries[i]);
        lemma_map_of_remove(entries.drop_last(), i);
        assert(map_of(entries.remove(i)) =~= map_of(entries.drop_last().remove(i)).insert(
            entries.last().0@,
            entries.last().1,
        ));
        assert(entries.last().0@ != entries[i].0@);
    }
}

/// A `RepositoryStore` over plain in-memory data. `fail_git_init` makes
/// the next `git init` invocations fail, to exercise the rollback path of
/// the lifecycle manager.
pub struct InMemoryStore {
    base: bool,
    entries: Vec<(String, u64)>,
    next_token: u64,
    fail_git_init: bool,
    fail_fs: bool,
}

impl InMemoryStore {
    /// An empty store; `base_exists` says whether the base directory is
    /// already present.
    pub fn new(base_exists: bool) -> (s: Self)
        ensures
            s.inv(),
            s.base_exists() == base_exists,
            s.repos() == Map::<Seq<char>, u64>::empty(),
            !s.failing_git_init(),
            !s.failing_fs(),
    {
        InMemoryStore {
            base: base_exists,
            entries: Vec::new(),
            next_token: 0,
            fail_git_init: false,
            fail_fs: false,
        }
    }

    /// Whether `git init` invocations are set up to fail.
    pub closed spec fn failing_git_init(&self) -> bool {
        self.fail_git_init
    }

    /// Makes every following `git init` invocation fail (or succeed
    /// again), leaving the view untouched.
    pub fn set_fail_git_init(&mut self, fail: bool)
        requires
            old(self).inv(),
        ensures
            final(self).inv(),
            final(self).failing_git_init() == fail,
            final(self).base_exists() == old(self).base_exists(),
            final(self).repos() == old(self).repos(),
    {
        self.fail_git_init = fail;
    }

    /// Whether filesystem mutations (directory creation, removal,
    /// renaming) are set up to fail.
    pub closed spec fn failing_fs(&self) -> bool {
        self.fail_fs
    }

    /// Makes every following filesystem mutation fail (or succeed
    /// again), leaving the view untouched.
    pub fn set_fail_fs(&mut self, fail: bool)
        requires
            old(self).inv(),
        ensures
            final(self).inv(),
            final(self).failing_fs() == fail,
            final(self).base_exists() == old(self).base_exists(),
            final(self).repos() == old(self).repos(),
    {
        self.fail_fs = fail;
    }

    /// Whether the base directory exists, as an executable observation.
    pub fn base_dir_exists(&self) -> (b: bool)
        requires
            self.inv(),
        ensures
            b == self.base_exists(),
    {
        self.base
    }

    /// How many repositories the base directory holds.
    pub fn repo_count(&self) -> (n: usize)
        requires
            self.inv(),
        ensures
            n == self.repos().dom().len(),
    {
        proof {
            lemma_map_of_card(self.entries@);
        }
        self.entries.len()
    }

    /// The content token of the repository called `name`, if present.
    pub fn repo_token(&self, name: &str) -> (t: Option<u64>)
        requires
            self.inv(),
        ensures
            match t {
                Some(v) => self.repos().dom().contains(name@) && self.repos()[name@] == v,
                None => !self.repos().dom().contains(name@),
            },
    {
        let idx = self.find(name);
        match idx {
            Some(i) => {
                proof {
                    lemma_map_of_lookup(self.entries@, i as int);
                }
                Some(self.entries[i].1)
            },
            None => {
                proof {
                    lemma_map_of_contains(self.entries@, name@);
                }
                None
            },
        }
    }

    /// The position of `name` among the entries, if present.
    fn find(&self, name: &str) -> (r: Option<usize>)
        ensures
            match r {
                Some(i) => i < self.entries@.len() && self.entries@[i as int].0@ == name@,
                None => forall|i: int|
                    0 <= i < self.entries@.len() ==> (#[trigger] self.entries@[i]).0@ != name@,
            },
    {
        let key = String::from_str(name);
        let mut i: usize = 0;
        while i < self.entries.len()
            invariant
                i <= self.entries@.len(),
                key@ == name@,
                forall|j: int| 0 <= j < i ==> (#[trigger] self.entries@[j]).0@ != name@,
            decreases self.entries@.len() - i,
        {
            if self.entries[i].0 == key {
                return Some(i);
            }
            i = i + 1;
        }
        None
    }
}

proof fn lemma_map_of_card(entries: Seq<(String, u64)>)
    requires
        unique_names(entries),
    ensures
        map_of(entries).dom().finite(),
        map_of(entries).dom().len() == entries.len(),
    decreases entries.len(),
{
    if entries.len() > 0 {
        lemma_map_of_card(entries.drop_last());
        lemma_map_of_contains(entries.drop_last(), entries.last().0@);
        assert(!map_of(entries.drop_last()).dom().contains(entries.last().0@));
        assert(map_of(entries).dom() =~= map_of(entries.drop_last()).dom().insert(
            entries.last().0@,
        ));
    }
}

impl RepositoryStore for InMemoryStore {
    closed spec fn inv(&self) -> bool {
        unique_names(self.entries@) && (!self.base ==> self.entries@.len() == 0)
    }

    closed spec fn base_exists(&self) -> bool {
        self.base
    }

    closed spec fn repos(&self) -> Map<Seq<char>, u64> {
        map_of(self.entries@)
    }

    fn repo_exists(&self, name: &str) -> (b: bool) {
        proof {
            lemma_map_of_contains(self.entries@, name@);
        }
        if !self.base {
            false
        } else {
            self.find(name).is_some()
        }
    }

    fn create_base_dir(&mut self) -> (r: Result<bool, String>) {
        if self.fail_fs {
            return Err(String::from_str("simulated: cannot create directory"));
        }
        if self.base {
            Ok(false)
        } else {
            self.base = true;
            Ok(true)
        }
    }

    fn git_init_bare(&mut self, name: &str) -> (r: Result<(), String>) {
        if self.fail_git_init {
            return Err(String::from_str("simulated: git init exited non-zero"));
        }
        let token = self.next_token;
        self.next_token = if token == u64::MAX {
            0
        } else {
            token + 1
        };
        proof {
            lemma_map_of_contains(self.entries@, name@);
        }
        self.entries.push((String::from_str(name), token));
        proof {
            assert(self.entries@.drop_last() =~= old(self).entries@);
            assert(map_of(self.entries@) =~= map_of(old(self).entries@).insert(name@, token));
            assert(map_of(self.entries@).remove(name@) =~= map_of(old(self).entries@));
        }
        Ok(())
    }

    fn set_owner(&mut self, name: &str, user: &str) -> (r: Result<(), String>) {
        Ok(())
    }

    fn configure_repo(&mut self, name: &str) -> (r: Result<(), String>) {
        Ok(())
    }

    fn remove_repo_dir(&mut self, name: &str) -> (r: Result<(), String>) {
        if self.fail_fs {
            return Err(String::from_str("simulated: cannot remove directory"));
        }
        proof {
            lemma_map_of_contains(self.entries@, name@);
        }
        let idx = self.find(name);
        match idx {
            Some(i) => {
                proof {
                    lemma_map_of_remove(self.entries@, i as int);
                }
                self.entries.remove(i);
                Ok(())
            },
            None => Err(String::from_str("repository entry not present")),
        }
    }

    fn remove_base_dir(&mut self) -> (r: Result<(), String>) {
        if self.fail_fs {
            return Err(String::from_str("simulated: cannot remove directory"));
        }
        self.base = false;
        self.entries = Vec::new();
        Ok(())
    }

    fn rename_repo_dir(&mut self, old_name: &str, new_name: &str) -> (r: Result<(), String>) {
        if self.fail_fs {
            return Err(String::from_str("simulated: cannot rename directory"));
        }
        proof {
            lemma_map_of_contains(self.entries@, old_name@);
            lemma_map_of_contains(self.entries@, new_name@);
        }
        let idx = self.find(old_name);
        match idx {
            Some(i) => {
                let token = self.entries[i].1;
                proof {
                    lemma_map_of_lookup(self.entries@, i as int);
                    lemma_map_of_remove(self.entries@, i as int);
                }
                self.entries.remove(i);
                proof {
                    lemma_map_of_contains(self.entries@, new_name@);
                }
                self.entries.push((String::from_str(new_name), token));
                proof {
                    assert(self.entries@.drop_last() =~= old(self).entries@.remove(idx->Some_0 as int));
                    assert(map_of(self.entries@) =~= map_of(old(self).entries@).remove(
                        old_name@,
                    ).insert(new_name@, token));
                }
                Ok(())
            },
            None => Err(String::from_str("repository entry not present")),
        }
    }
}

} // verus!
