//! Declarations and trusted contracts for the `git2` object-graph API.
//!
//! The introspector walks a repository's commit/tree/blob graph through
//! the items declared here. A loaded tree, tree entry or blob is an
//! immutable in-memory value, so what its accessors return is a function
//! of that value alone; those results carry names (`tree_entries`,
//! `entry_name_of`, `blob_bytes_of`, ...) that the walk's contracts speak
//! of. Loading an object from the repository (`head`, `to_object`, the
//! peels) depends on the object store on disk, so those calls promise
//! nothing about their result; the verified walk takes what they return
//! as it comes.

use vstd::prelude::*;

verus! {

#[verifier::external_type_specification]
#[verifier::external_body]
pub struct ExRepository(git2::Repository);

#[verifier::external_type_specification]
#[verifier::external_body]
pub struct ExReference<'a>(git2::Reference<'a>);

#[verifier::external_type_specification]
#[verifier::external_body]
pub struct ExCommit<'a>(git2::Commit<'a>);

#[verifier::external_type_specification]
#[verifier::external_body]
pub struct ExTree<'a>(git2::Tree<'a>);

#[verifier::external_type_specification]
#[verifier::external_body]
pub struct ExTreeEntry<'a>(git2::TreeEntry<'a>);

#[verifier::external_type_specification]
#[verifier::external_body]
pub struct ExObject<'a>(git2::Object<'a>);

#[verifier::external_type_specification]
#[verifier::external_body]
pub struct ExBlob<'a>(git2::Blob<'a>);

#[verifier::external_type_specification]
#[verifier::external_body]
pub struct ExError(git2::Error);

/// What kind of object a tree entry points at, as far as the walk cares.
pub enum EntryKind {
    /// A subtree: a directory.
    Directory,
    /// A blob: a file.
    File,
    /// Anything else (a nested commit, a tag, or an unknown type).
    Other,
}

/// What a loaded tree value holds: for each entry, in tree order, its
/// name (`None` when the stored name is not valid UTF-8) and the kind of
/// object it points at.
pub uninterp spec fn tree_entries(t: git2::Tree) -> Seq<(Option<Seq<char>>, EntryKind)>;

/// The name a loaded tree entry value carries, if it is valid UTF-8.
pub uninterp spec fn entry_name_of(e: git2::TreeEntry) -> Option<Seq<char>>;

/// The object kind a loaded tree entry value points at.
pub uninterp spec fn entry_kind_of(e: git2::TreeEntry) -> EntryKind;

/// The content bytes a loaded blob value holds.
pub uninterp spec fn blob_bytes_of(b: git2::Blob) -> Seq<u8>;

/// Whether a loaded blob value reads as binary under the null-byte
/// heuristic.
pub uninterp spec fn blob_is_binary_of(b: git2::Blob) -> bool;

/// Whether an error value says HEAD points at no commit.
pub uninterp spec fn error_is_empty_of(e: git2::Error) -> bool;

/// The diagnostic text an error value carries.
pub uninterp spec fn error_message_of(e: git2::Error) -> Seq<char>;

/// What `String::from_utf8` makes of the given bytes: their text, or
/// nothing when they are not valid UTF-8.
pub uninterp spec fn utf8_decode_of(bytes: Seq<u8>) -> Option<Seq<char>>;

/// Relies on `git2::Repository::head`: resolves the reference HEAD
/// points at; which reference that is depends on the repository on disk.
pub assume_specification<'r>[ git2::Repository::head ](repo: &'r git2::Repository) -> Result<
    git2::Reference<'r>,
    git2::Error,
>;

/// Relies on `git2::Reference::peel_to_commit`: peels the reference to a
/// commit object; the result depends on the object store on disk.
pub assume_specification<'repo>[ git2::Reference::<'repo>::peel_to_commit ](
    r: &git2::Reference<'repo>,
) -> Result<git2::Commit<'repo>, git2::Error>;

/// Relies on `git2::Commit::tree`: loads the root tree of the commit
/// from the object store.
pub assume_specification<'repo>[ git2::Commit::<'repo>::tree ](c: &git2::Commit<'repo>) -> Result<
    git2::Tree<'repo>,
    git2::Error,
>;

/// Relies on `git2::Tree::len`: how many entries the loaded tree holds.
pub assume_specification<'repo>[ git2::Tree::<'repo>::len ](t: &git2::Tree<'repo>) -> (r: usize)
    ensures
        r == tree_entries(*t).len(),
;

/// Relies on `git2::Tree::get`: the `n`-th entry of the loaded tree,
/// present exactly when `n` is in range, carrying the listed name and
/// kind.
pub assume_specification<'repo, 'a>[ git2::Tree::<'repo>::get ](
    t: &'a git2::Tree<'repo>,
    n: usize,
) -> (r: Option<git2::TreeEntry<'a>>)
    ensures
        match r {
            Some(e) => n < tree_entries(*t).len() && entry_name_of(e) == tree_entries(*t)[n as int].0
                && entry_kind_of(e) == tree_entries(*t)[n as int].1,
            None => n >= tree_entries(*t).len(),
        },
;

/// Relies on `git2::TreeEntry::name`: the entry's stored file name,
/// exactly when it is valid UTF-8.
pub assume_specification<'tree, 'a>[ git2::TreeEntry::<'tree>::name ](
    e: &'a git2::TreeEntry<'tree>,
) -> (r: Result<&'a str, git2::Error>)
    ensures
        match r {
            Ok(s) => entry_name_of(*e) == Some(s@),
            Err(_) => entry_name_of(*e) matches None,
        },
;

/// Relies on `git2::TreeEntry::to_object`: loads the object the entry
/// points at from the repository's object store on disk.
pub assume_specification<'tree, 'a>[ git2::TreeEntry::<'tree>::to_object ](
    e: &git2::TreeEntry<'tree>,
    repo: &'a git2::Repository,
) -> Result<git2::Object<'a>, git2::Error>;

/// Relies on `git2::Object::peel_to_tree`: the object as a tree, if it
/// is one.
pub assume_specification<'repo>[ git2::Object::<'repo>::peel_to_tree ](
    o: &git2::Object<'repo>,
) -> Result<git2::Tree<'repo>, git2::Error>;

/// Relies on `git2::Object::peel_to_blob`: the object as a blob, if it
/// is one.
pub assume_specification<'repo>[ git2::Object::<'repo>::peel_to_blob ](
    o: &git2::Object<'repo>,
) -> Result<git2::Blob<'repo>, git2::Error>;

/// Relies on `git2::Blob::size`: the byte length of the loaded blob's
/// content.
pub assume_specification<'repo>[ git2::Blob::<'repo>::size ](b: &git2::Blob<'repo>) -> (r: usize)
    ensures
        r == blob_bytes_of(*b).len(),
;

/// Relies on `git2::Blob::is_binary`: the null-byte heuristic on the
/// loaded blob's content.
pub assume_specification<'repo>[ git2::Blob::<'repo>::is_binary ](b: &git2::Blob<'repo>) -> (r:
    bool)
    ensures
        r == blob_is_binary_of(*b),
;

/// Relies on `git2::Blob::content`: the loaded blob's content bytes.
pub assume_specification<'repo, 'a>[ git2::Blob::<'repo>::content ](
    b: &'a git2::Blob<'repo>,
) -> (r: &'a [u8])
    ensures
        r@ == blob_bytes_of(*b),
;

/// Relies on `git2::Error::message`: the diagnostic text of the error.
pub assume_specification<'a>[ git2::Error::message ](e: &'a git2::Error) -> (r: &'a str)
    ensures
        r@ == error_message_of(*e),
;

/// Relies on `git2::TreeEntry::kind`: tells the entry's object type
/// apart, one arm per variant.
#[verifier::external_body]
pub fn entry_kind(e: &git2::TreeEntry<'_>) -> (r: EntryKind)
    ensures
        r == entry_kind_of(*e),
{
    match e.kind() {
        Some(git2::ObjectType::Tree) => EntryKind::Directory,
        Some(git2::ObjectType::Blob) => EntryKind::File,
        Some(git2::ObjectType::Commit) => EntryKind::Other,
        Some(git2::ObjectType::Tag) => EntryKind::Other,
        Some(git2::ObjectType::Any) => EntryKind::Other,
        None => EntryKind::Other,
    }
}

/// Relies on `git2::Error::code`: whether the error says HEAD points at
/// no commit (an unborn branch or a missing reference), the signature of
/// a freshly created, commit-less repository.
#[verifier::external_body]
pub fn error_indicates_empty_repo(e: &git2::Error) -> (r: bool)
    ensures
        r == error_is_empty_of(*e),
{
    match e.code() {
        git2::ErrorCode::UnbornBranch => true,
        git2::ErrorCode::NotFound => true,
        _ => false,
    }
}

/// Relies on `String::from_utf8`: the bytes as text, exactly when they
/// are valid UTF-8; the result is a function of the bytes alone.
#[verifier::external_body]
pub fn utf8_string(bytes: Vec<u8>) -> (r: Option<String>)
    ensures
        match r {
            Some(s) => utf8_decode_of(bytes@) == Some(s@),
            None => utf8_decode_of(bytes@) matches None,
        },
{
    String::from_utf8(bytes).ok()
}

} // verus!
