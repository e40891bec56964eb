//! Read-only introspection of a repository's file tree.
//!
//! The tree is rebuilt on every call by walking the repository's
//! commit/tree/blob object graph: HEAD resolves to a commit, the commit
//! to its root tree, and tree entries recurse by object type. No checkout
//! is materialised, so the walk is read-only against the object store and
//! free of caching and staleness hazards.
//!
//! Every tree this module hands out is well formed ([`wf_structure`]): a
//! directory's size is the sum of its children's sizes (saturating at
//! `u64::MAX`), children are sorted by name, ignored entries (tooling
//! directories, OS artifact files, dotfiles) never appear, and every
//! child sits under its parent's path. Each directory node holds exactly
//! one child per listed entry of its tree ([`listing_keys`]). That
//! exactness is why a failure to load any subtree fails the whole read
//! instead of being swallowed into a partial tree: a silently pruned
//! branch could not be told apart from an empty repository.

use crate::git_objects::blob_bytes_of;
use crate::git_objects::blob_is_binary_of;
use crate::git_objects::entry_kind;
use crate::git_objects::error_indicates_empty_repo;
use crate::git_objects::error_is_empty_of;
use crate::git_objects::error_message_of;
use crate::git_objects::tree_entries;
use crate::git_objects::utf8_decode_of;
use crate::git_objects::utf8_string;
use crate::git_objects::EntryKind;
use crate::text::has_prefix;
use crate::text::lemma_concat_has_prefix;
use crate::text::lemma_lex_le_total;
use crate::text::lemma_lex_le_trans;
use crate::text::lex_le;
use crate::text::push_char;
use crate::text::str_eq;
use crate::text::str_le;
use vstd::prelude::*;
use vstd::string::StrSliceExecFns;
use vstd::string::StringExecFns;

verus! {

/// One node of a repository's file tree: a file, or a directory with its
/// children.
#[derive(Debug)]
pub struct RepoStructure {
    pub name: String,
    pub path: String,
    pub id: String,
    pub is_file: bool,
    pub size: Option<u64>,
    pub children: Vec<RepoStructure>,
    pub extension: Option<String>,
    pub content: Option<String>,
}

/// Request parameters naming a repository.
pub struct RepoParams {
    pub id: String,
}

/// Request parameters naming one file inside a repository.
pub struct FileContentParams {
    pub repo_id: String,
    pub file_path: String,
}

/// A repository's tree together with its aggregate counts.
pub struct RepoResponse {
    pub id: String,
    pub name: String,
    pub structure: RepoStructure,
    pub total_files: usize,
    pub total_size: u64,
}

/// One file's content and metadata.
pub struct FileContentResponse {
    pub repo_id: String,
    pub file_path: String,
    pub content: String,
    pub size: u64,
    pub is_binary: bool,
}

/// An error payload for callers that render errors.
pub struct ErrorResponse {
    pub error: String,
    pub message: String,
}

/// An error while reading a repository's tree.
#[derive(Debug)]
pub enum RetrieveError {
    /// HEAD resolves to no commit: the repository is freshly created and
    /// has no history yet.
    EmptyRepository(String),
    /// Any other failure while reading the object graph.
    GitError(String),
}

impl RetrieveError {
    /// The diagnostic text carried by this error.
    pub fn message(&self) -> (m: &String)
        ensures
            m == match self {
                RetrieveError::EmptyRepository(s) => s,
                RetrieveError::GitError(s) => s,
            },
    {
        match self {
            RetrieveError::EmptyRepository(s) => s,
            RetrieveError::GitError(s) => s,
        }
    }
}

/// An entry name the tree walk leaves out: tooling directories, OS
/// artifact files, and any name starting with a dot.
pub open spec fn spec_should_ignore(n: Seq<char>) -> bool {
    n == "node_modules"@ || n == "target"@ || n == ".vscode"@ || n == ".idea"@ || n == ".DS_Store"@
        || n == "Thumbs.db"@ || (n.len() > 0 && n[0] == '.')
}

/// ASCII lowercasing of one character.
pub open spec fn lower_char(c: char) -> char {
    if 'A' <= c && c <= 'Z' {
        ((c as u32) + 32) as char
    } else {
        c
    }
}

/// ASCII lowercasing of a character sequence.
pub open spec fn lower_seq(s: Seq<char>) -> Seq<char>
    decreases s.len(),
{
    if s.len() == 0 {
        Seq::empty()
    } else {
        lower_seq(s.drop_last()).push(lower_char(s.last()))
    }
}

/// The extension of a plain file name: the characters after the last
/// dot, lowercased — provided that dot is not the name's first
/// character. A name without a dot, or whose only dot leads it, has no
/// extension.
pub open spec fn spec_extension(n: Seq<char>) -> Option<Seq<char>>
    decreases n.len(),
{
    if n.len() < 2 {
        None
    } else if n.last() == '.' {
        Some(Seq::empty())
    } else {
        match spec_extension(n.drop_last()) {
            Some(e) => Some(e.push(lower_char(n.last()))),
            None => None,
        }
    }
}

/// The view of an optional string.
pub open spec fn opt_str_view(e: Option<String>) -> Option<Seq<char>> {
    match e {
        Some(s) => Some(s@),
        None => None,
    }
}

/// Path separators become underscores in a node's identifier.
pub open spec fn id_char(c: char) -> char {
    if c == '/' || c == '\\' {
        '_'
    } else {
        c
    }
}

/// A node identifier: the node's path with separators replaced.
pub open spec fn id_seq(s: Seq<char>) -> Seq<char> {
    Seq::new(s.len(), |i: int| id_char(s[i]))
}

/// The size recorded on a node, with a missing size reading as zero.
pub open spec fn stored_size(s: RepoStructure) -> u64 {
    match s.size {
        Some(v) => v,
        None => 0,
    }
}

/// The sum of the recorded sizes of a sequence of nodes.
pub open spec fn sum_sizes(cs: Seq<RepoStructure>) -> int
    decreases cs.len(),
{
    if cs.len() == 0 {
        0
    } else {
        sum_sizes(cs.drop_last()) + stored_size(cs.last())
    }
}

/// Saturation at `u64::MAX`.
pub open spec fn clamp_u64(n: int) -> int {
    if n > u64::MAX {
        u64::MAX as int
    } else {
        n
    }
}

/// Saturation at `usize::MAX`.
pub open spec fn clamp_usize(n: int) -> int {
    if n > usize::MAX {
        usize::MAX as int
    } else {
        n
    }
}

/// How many file leaves a node holds.
pub open spec fn count_files_of(s: RepoStructure) -> int
    decreases s,
{
    if s.is_file {
        1
    } else {
        count_files_of_seq(s.children@)
    }
}

/// How many file leaves a sequence of nodes holds in all.
pub open spec fn count_files_of_seq(cs: Seq<RepoStructure>) -> int
    decreases cs,
{
    if cs.len() == 0 {
        0
    } else {
        count_files_of_seq(cs.drop_last()) + count_files_of(cs.last())
    }
}

/// The nodes are sorted by name.
pub open spec fn sorted_by_name(cs: Seq<RepoStructure>) -> bool {
    forall|i: int, j: int|
        0 <= i < j < cs.len() ==> lex_le((#[trigger] cs[i]).name@, (#[trigger] cs[j]).name@)
}

/// The label of a directory node: its entry name, or `root` at the top.
pub open spec fn dir_label(n: Seq<char>) -> Seq<char> {
    if n.len() == 0 {
        "root"@
    } else {
        n
    }
}

/// The path of a child entry below its parent's path.
pub open spec fn child_path_of(parent: Seq<char>, name: Seq<char>) -> Seq<char> {
    if parent.len() == 0 {
        name
    } else {
        parent + "/"@ + name
    }
}

/// How a child node sits below its parent: its path extends the
/// parent's path with its name, a directory's identifier comes from its
/// own path and a file's from its parent's path.
pub open spec fn child_placed(parent_path: Seq<char>, c: RepoStructure) -> bool {
    c.path@ == child_path_of(parent_path, c.name@) && c.id@ == (if c.is_file {
        id_seq(parent_path)
    } else {
        id_seq(c.path@)
    })
}

/// Whether a listed tree entry produces a node: its name is readable,
/// non-empty and not ignored, and it points at a tree or a blob.
pub open spec fn listed_entry(ent: (Option<Seq<char>>, EntryKind)) -> bool {
    match ent.0 {
        Some(n) => n.len() > 0 && !spec_should_ignore(n) && !(ent.1 matches EntryKind::Other),
        None => false,
    }
}

/// The `(name, is_file)` keys of the nodes a tree listing produces, in
/// tree order.
pub open spec fn listing_keys(entries: Seq<(Option<Seq<char>>, EntryKind)>) -> Seq<
    (Seq<char>, bool),
>
    decreases entries.len(),
{
    if entries.len() == 0 {
        Seq::empty()
    } else {
        listing_keys(entries.drop_last()) + (if listed_entry(entries.last()) {
            seq![(entries.last().0->Some_0, entries.last().1 matches EntryKind::File)]
        } else {
            Seq::empty()
        })
    }
}

/// The `(name, is_file)` keys of a sequence of nodes.
pub open spec fn node_keys(cs: Seq<RepoStructure>) -> Seq<(Seq<char>, bool)> {
    Seq::new(cs.len(), |i: int| (cs[i].name@, cs[i].is_file))
}

/// Well-formedness of a tree node. A file carries no children and its
/// extension follows from its name; a directory carries no extension or
/// content, its size is the saturating sum of its children's sizes, its
/// children are sorted by name, each child is well formed, and no
/// ignored entry appears among them.
pub open spec fn wf_structure(s: RepoStructure) -> bool
    decreases s,
{
    if s.is_file {
        s.children@.len() == 0 && (s.size matches Some(_)) && opt_str_view(s.extension)
            == spec_extension(s.name@)
    } else {
        (s.extension matches None) && (s.content matches None) && s.size == Some(
            clamp_u64(sum_sizes(s.children@)) as u64,
        ) && sorted_by_name(s.children@) && forall|i: int|
            0 <= i < s.children@.len() ==> wf_structure(#[trigger] s.children@[i])
                && !spec_should_ignore(s.children@[i].name@) && child_placed(
                s.path@,
                s.children@[i],
            )
    }
}

/// Whether the tree walk leaves an entry of this name out.
pub fn should_ignore_git_entry(name: &str) -> (b: bool)
    ensures
        b == spec_should_ignore(name@),
{
    if str_eq(name, "node_modules") || str_eq(name, "target") || str_eq(name, ".vscode") || str_eq(
        name,
        ".idea",
    ) || str_eq(name, ".DS_Store") || str_eq(name, "Thumbs.db") {
        return true;
    }
    name.unicode_len() > 0 && name.get_char(0) == '.'
}

/// ASCII lowercasing of one character.
fn lower_char_exec(c: char) -> (r: char)
    ensures
        r == lower_char(c),
{
    if c >= 'A' && c <= 'Z' {
        let code: u32 = c as u32;
        let b: u8 = (code + 32) as u8;
        b as char
    } else {
        c
    }
}

proof fn lemma_extension_at_dot(n: Seq<char>, d: int)
    requires
        0 < d < n.len(),
        n[d] == '.',
        forall|k: int| d < k < n.len() ==> n[k] != '.',
    ensures
        spec_extension(n) == Some(lower_seq(n.skip(d + 1))),
    decreases n.len(),
{
    if d == n.len() - 1 {
        assert(n.skip(d + 1) =~= Seq::<char>::empty());
    } else {
        assert(n[n.len() - 1] != '.');
        let m = n.drop_last();
        lemma_extension_at_dot(m, d);
        assert(n.skip(d + 1).drop_last() =~= m.skip(d + 1));
        assert(n.skip(d + 1).last() == n.last());
    }
}

proof fn lemma_extension_none(n: Seq<char>)
    requires
        forall|k: int| 1 <= k < n.len() ==> n[k] != '.',
    ensures
        spec_extension(n) matches None,
    decreases n.len(),
{
    if n.len() >= 2 {
        assert(n.last() != '.');
        lemma_extension_none(n.drop_last());
    }
}

/// The extension of a file name: what follows the last dot, lowercased,
/// unless the name has no dot or its only dot is the leading character.
pub fn get_file_extension_from_name(name: &str) -> (r: Option<String>)
    ensures
        opt_str_view(r) == spec_extension(name@),
{
    let n = name.unicode_len();
    let mut found = false;
    let mut dot: usize = 0;
    let mut i: usize = 0;
    while i < n
        invariant
            i <= n,
            n == name@.len(),
            found ==> dot < i && name@[dot as int] == '.' && forall|k: int|
                dot < k < i ==> name@[k] != '.',
            !found ==> forall|k: int| 0 <= k < i ==> name@[k] != '.',
        decreases n - i,
    {
        if name.get_char(i) == '.' {
            dot = i;
            found = true;
        }
        i = i + 1;
    }
    if !found || dot == 0 {
        proof {
            lemma_extension_none(name@);
        }
        return None;
    }
    let mut ext = String::new();
    let mut j: usize = dot + 1;
    while j < n
        invariant
            dot + 1 <= j <= n,
            n == name@.len(),
            ext@ == lower_seq(name@.subrange(dot + 1, j as int)),
        decreases n - j,
    {
        let c = name.get_char(j);
        let lc = lower_char_exec(c);
        push_char(&mut ext, lc);
        proof {
            assert(name@.subrange(dot + 1, j + 1).drop_last() =~= name@.subrange(
                dot + 1,
                j as int,
            ));
            assert(name@.subrange(dot + 1, j + 1).last() == name@[j as int]);
        }
        j = j + 1;
    }
    proof {
        lemma_extension_at_dot(name@, dot as int);
        assert(name@.subrange(dot + 1, n as int) =~= name@.skip(dot + 1));
    }
    Some(ext)
}

/// The identifier of the node at `path`: the path with separators
/// replaced by underscores.
fn make_entry_id(path: &str) -> (r: String)
    ensures
        r@ == id_seq(path@),
{
    let n = path.unicode_len();
    let mut id = String::new();
    let mut i: usize = 0;
    while i < n
        invariant
            i <= n,
            n == path@.len(),
            id@ =~= Seq::new(i as nat, |k: int| id_char(path@[k])),
        decreases n - i,
    {
        let c = path.get_char(i);
        if c == '/' || c == '\\' {
            push_char(&mut id, '_');
        } else {
            push_char(&mut id, c);
        }
        i = i + 1;
    }
    proof {
        assert(id@ =~= id_seq(path@));
    }
    id
}

/// How many files the tree holds: one per file leaf, summed over every
/// directory, saturating at `usize::MAX`.
pub fn count_files_in_structure(structure: &RepoStructure) -> (r: usize)
    ensures
        r == clamp_usize(count_files_of(*structure)),
    decreases *structure,
{
    if structure.is_file {
        1
    } else {
        let mut total: usize = 0;
        let mut i: usize = 0;
        while i < structure.children.len()
            invariant
                i <= structure.children@.len(),
                total == clamp_usize(count_files_of_seq(structure.children@.take(i as int))),
            decreases structure.children@.len() - i,
        {
            let c = count_files_in_structure(&structure.children[i]);
            proof {
                lemma_count_files_nonneg(structure.children@[i as int]);
                lemma_count_files_seq_nonneg(structure.children@.take(i as int));
                assert(structure.children@.take(i + 1).drop_last() =~= structure.children@.take(
                    i as int,
                ));
                assert(structure.children@.take(i + 1).last() == structure.children@[i as int]);
            }
            total = if total > usize::MAX - c {
                usize::MAX
            } else {
                total + c
            };
            i = i + 1;
        }
        proof {
            assert(structure.children@.take(structure.children@.len() as int)
                =~= structure.children@);
        }
        total
    }
}

proof fn lemma_count_files_nonneg(s: RepoStructure)
    ensures
        count_files_of(s) >= 0,
    decreases s,
{
    if !s.is_file {
        lemma_count_files_seq_nonneg(s.children@);
    }
}

proof fn lemma_count_files_seq_nonneg(cs: Seq<RepoStructure>)
    ensures
        count_files_of_seq(cs) >= 0,
    decreases cs,
{
    if cs.len() > 0 {
        lemma_count_files_seq_nonneg(cs.drop_last());
        lemma_count_files_nonneg(cs.last());
    }
}

/// The total size recorded on the tree's root.
pub fn get_total_size_from_structure(structure: &RepoStructure) -> (r: u64)
    ensures
        r == stored_size(*structure),
{
    match &structure.size {
        Some(v) => *v,
        None => 0,
    }
}

proof fn lemma_sum_sizes_insert(cs: Seq<RepoStructure>, k: int, x: RepoStructure)
    requires
        0 <= k <= cs.len(),
    ensures
        sum_sizes(cs.insert(k, x)) == sum_sizes(cs) + stored_size(x),
    decreases cs.len(),
{
    if k == cs.len() {
        assert(cs.insert(k, x).drop_last() =~= cs);
        assert(cs.insert(k, x).last() == x);
    } else {
        assert(cs.insert(k, x).drop_last() =~= cs.drop_last().insert(k, x));
        assert(cs.insert(k, x).last() == cs.last());
        lemma_sum_sizes_insert(cs.drop_last(), k, x);
    }
}

proof fn lemma_sum_sizes_nonneg(cs: Seq<RepoStructure>)
    ensures
        sum_sizes(cs) >= 0,
    decreases cs.len(),
{
    if cs.len() > 0 {
        lemma_sum_sizes_nonneg(cs.drop_last());
    }
}

/// Inserts `child` into the sorted children, keeping them sorted and
/// `total` the saturating sum of their sizes.
fn add_child(children: &mut Vec<RepoStructure>, total: &mut u64, child: RepoStructure)
    requires
        sorted_by_name(old(children)@),
        forall|i: int|
            0 <= i < old(children)@.len() ==> wf_structure(#[trigger] old(children)@[i])
                && !spec_should_ignore(old(children)@[i].name@),
        wf_structure(child),
        !spec_should_ignore(child.name@),
        *old(total) == clamp_u64(sum_sizes(old(children)@)),
    ensures
        sorted_by_name(final(children)@),
        forall|i: int|
            0 <= i < final(children)@.len() ==> wf_structure(#[trigger] final(children)@[i])
                && !spec_should_ignore(final(children)@[i].name@),
        *final(total) == clamp_u64(sum_sizes(final(children)@)),
        exists|k: int|
            0 <= k <= old(children)@.len() && final(children)@ == old(children)@.insert(k, child),
{
    let ghost pre = children@;
    let ghost x = child;
    let csize = get_total_size_from_structure(&child);
    let mut pos: usize = 0;
    loop
        invariant_except_break
            pos <= children@.len(),
            children@ == pre,
            x == child,
            forall|j: int| 0 <= j < pos ==> lex_le((#[trigger] children@[j]).name@, x.name@),
        ensures
            pos <= children@.len(),
            children@ == pre,
            x == child,
            forall|j: int| 0 <= j < pos ==> lex_le((#[trigger] children@[j]).name@, x.name@),
            pos < children@.len() ==> lex_le(x.name@, children@[pos as int].name@),
        decreases children@.len() - pos,
    {
        if pos >= children.len() {
            break ;
        }
        if str_le(child.name.as_str(), children[pos].name.as_str()) {
            break ;
        }
        proof {
            lemma_lex_le_total(x.name@, children@[pos as int].name@);
        }
        pos = pos + 1;
    }
    children.insert(pos, child);
    let new_total = if *total > u64::MAX - csize {
        u64::MAX
    } else {
        *total + csize
    };
    *total = new_total;
    proof {
        pre.insert_ensures(pos as int, x);
        lemma_sum_sizes_insert(pre, pos as int, x);
        lemma_sum_sizes_nonneg(pre);
        assert forall|i: int, j: int| 0 <= i < j < children@.len() implies lex_le(
            (#[trigger] children@[i]).name@,
            (#[trigger] children@[j]).name@,
        ) by {
            let p = pos as int;
            if j < p {
            } else if i < p && j == p {
            } else if i < p && j > p {
                assert(children@[j] == pre[j - 1]);
                assert(i < j - 1 || i == j - 1);
                if i == j - 1 {
                    assert(false);
                }
            } else if i == p && j > p {
                assert(children@[j] == pre[j - 1]);
                assert(p < pre.len());
                if j - 1 > p {
                    lemma_lex_le_trans(x.name@, pre[p].name@, pre[j - 1].name@);
                }
            } else {
                assert(children@[i] == pre[i - 1]);
                assert(children@[j] == pre[j - 1]);
            }
        }
        assert forall|i: int| 0 <= i < children@.len() implies wf_structure(
            #[trigger] children@[i],
        ) && !spec_should_ignore(children@[i].name@) by {
            let p = pos as int;
            if i < p {
            } else if i == p {
            } else {
                assert(children@[i] == pre[i - 1]);
            }
        }
        assert(children@ == pre.insert(pos as int, x));
    }
}

proof fn lemma_insert_to_multiset<A>(s: Seq<A>, k: int, x: A)
    requires
        0 <= k <= s.len(),
    ensures
        s.insert(k, x).to_multiset() == s.to_multiset().insert(x),
{
    broadcast use vstd::seq_lib::group_to_multiset_ensures;

    assert(s.insert(k, x) =~= s.take(k).push(x) + s.skip(k));
    vstd::seq_lib::lemma_multiset_commutative(s.take(k).push(x), s.skip(k));
    vstd::seq_lib::lemma_multiset_commutative(s.take(k), s.skip(k));
    assert(s =~= s.take(k) + s.skip(k));
    assert(s.take(k).push(x).to_multiset() =~= s.take(k).to_multiset().insert(x));
    assert(s.take(k).to_multiset().insert(x).add(s.skip(k).to_multiset()) =~= s.take(
        k,
    ).to_multiset().add(s.skip(k).to_multiset()).insert(x));
}

/// Inserting one placed node into the children adds exactly its key to
/// the key multiset and keeps every node placed.
proof fn lemma_add_child_step(
    pre: Seq<RepoStructure>,
    post: Seq<RepoStructure>,
    x: RepoStructure,
    parent_path: Seq<char>,
)
    requires
        exists|k: int| 0 <= k <= pre.len() && post == pre.insert(k, x),
        forall|j: int| 0 <= j < pre.len() ==> child_placed(parent_path, #[trigger] pre[j]),
        child_placed(parent_path, x),
    ensures
        node_keys(post).to_multiset() == node_keys(pre).to_multiset().insert((x.name@, x.is_file)),
        forall|j: int| 0 <= j < post.len() ==> child_placed(parent_path, #[trigger] post[j]),
{
    let k = choose|k: int| 0 <= k <= pre.len() && post == pre.insert(k, x);
    pre.insert_ensures(k, x);
    node_keys(pre).insert_ensures(k, (x.name@, x.is_file));
    assert(node_keys(post) =~= node_keys(pre).insert(k, (x.name@, x.is_file)));
    lemma_insert_to_multiset(node_keys(pre), k, (x.name@, x.is_file));
    assert forall|j: int| 0 <= j < post.len() implies child_placed(
        parent_path,
        #[trigger] post[j],
    ) by {
        if j < k {
        } else if j == k {
        } else {
            assert(post[j] == pre[j - 1]);
        }
    }
}

/// The file node for `blob`, named `name` at `path` with identifier
/// `id`: its size is the blob's byte length; a binary blob carries no
/// content, any other blob its UTF-8 text when the bytes decode.
pub fn file_node_from_blob(name: String, path: String, id: String, blob: &git2::Blob<'_>) -> (r:
    RepoStructure)
    ensures
        r.is_file,
        r.name == name,
        r.path == path,
        r.id == id,
        r.children@.len() == 0,
        r.size == Some(blob_bytes_of(*blob).len() as u64),
        opt_str_view(r.extension) == spec_extension(name@),
        blob_is_binary_of(*blob) ==> (r.content matches None),
        !blob_is_binary_of(*blob) ==> opt_str_view(r.content) == utf8_decode_of(
            blob_bytes_of(*blob),
        ),
{
    let fsize = blob.size() as u64;
    let content = if blob.is_binary() {
        None
    } else {
        utf8_string(vstd::slice::slice_to_vec(blob.content()))
    };
    let extension = get_file_extension_from_name(name.as_str());
    RepoStructure {
        name,
        path,
        id,
        is_file: true,
        size: Some(fsize),
        children: Vec::new(),
        extension,
        content,
    }
}

/// How deep a tree walk may recurse before it gives up; a pathological
/// object graph cannot exhaust the stack.
pub const MAX_TREE_DEPTH: u64 = 64;

/// A `GitError` carrying the prefixed diagnostic text of `e`.
fn git_error_from(prefix: &str, e: &git2::Error) -> (r: RetrieveError)
    ensures
        r matches RetrieveError::GitError(m) ==> m@ == prefix@ + error_message_of(*e),
        r matches RetrieveError::GitError(_),
{
    let mut m = String::from_str(prefix);
    m.append(e.message());
    RetrieveError::GitError(m)
}

/// Classifies a failure to resolve HEAD: the empty-repository signal
/// becomes `EmptyRepository`, anything else `GitError`, each carrying a
/// fixed prefix followed by the error's own diagnostic text.
pub fn classify_head_error(e: &git2::Error) -> (r: RetrieveError)
    ensures
        (r matches RetrieveError::EmptyRepository(_)) <==> error_is_empty_of(*e),
        r matches RetrieveError::EmptyRepository(m) ==> m@ == "Repository has no commits yet: "@
            + error_message_of(*e),
        r matches RetrieveError::GitError(m) ==> m@ == "Failed to get HEAD: "@ + error_message_of(
            *e,
        ),
{
    if error_indicates_empty_repo(e) {
        let mut m = String::from_str("Repository has no commits yet: ");
        m.append(e.message());
        RetrieveError::EmptyRepository(m)
    } else {
        let mut m = String::from_str("Failed to get HEAD: ");
        m.append(e.message());
        RetrieveError::GitError(m)
    }
}

/// Walks `tree`, recursing at most `depth` levels, and builds the
/// well-formed node describing it: its children hold exactly one node,
/// under its listed name, per listed entry of the tree.
fn walk_tree(
    repo: &git2::Repository,
    tree: &git2::Tree<'_>,
    name: &str,
    path: &str,
    depth: u64,
) -> (r: Result<RepoStructure, RetrieveError>)
    ensures
        r matches Ok(s) ==> wf_structure(s) && !s.is_file && s.name@ == dir_label(name@) && s.path@
            == path@ && s.id@ == id_seq(path@) && node_keys(s.children@).to_multiset()
            == listing_keys(tree_entries(*tree)).to_multiset(),
        r matches Err(e) ==> e matches RetrieveError::GitError(_),
    decreases depth,
{
    if depth == 0 {
        return Err(RetrieveError::GitError(String::from_str("tree depth limit exceeded")));
    }
    let ghost ents = tree_entries(*tree);
    let count = tree.len();
    let mut children: Vec<RepoStructure> = Vec::new();
    let mut total: u64 = 0;
    let mut i: usize = 0;
    proof {
        assert(node_keys(children@) =~= Seq::<(Seq<char>, bool)>::empty());
        assert(ents.take(0) =~= Seq::<(Option<Seq<char>>, EntryKind)>::empty());
    }
    while i < count
        invariant
            depth >= 1,
            i <= count,
            count == ents.len(),
            ents == tree_entries(*tree),
            sorted_by_name(children@),
            forall|k: int|
                0 <= k < children@.len() ==> wf_structure(#[trigger] children@[k])
                    && !spec_should_ignore(children@[k].name@),
            forall|k: int| 0 <= k < children@.len() ==> child_placed(path@, #[trigger] children@[k]),
            total == clamp_u64(sum_sizes(children@)),
            node_keys(children@).to_multiset() == listing_keys(ents.take(i as int)).to_multiset(),
        decreases count - i,
    {
        proof {
            assert(ents.take(i + 1).drop_last() =~= ents.take(i as int));
            assert(ents.take(i + 1).last() == ents[i as int]);
        }
        let entry = match tree.get(i) {
            Some(e) => e,
            None => {
                return Err(RetrieveError::GitError(String::from_str("tree entry out of range")));
            },
        };
        let entry_name: Option<String> = match entry.name() {
            Ok(n) => Some(String::from_str(n)),
            Err(_) => None,
        };
        let mut included = false;
        if let Some(entry_name) = entry_name {
            if entry_name.as_str().unicode_len() > 0 && !should_ignore_git_entry(
                entry_name.as_str(),
            ) {
                let mut entry_path = if path.is_empty() {
                    String::new()
                } else {
                    let mut p = String::from_str(path);
                    p.append("/");
                    p
                };
                entry_path.append(entry_name.as_str());
                proof {
                    assert(entry_path@ =~= child_path_of(path@, entry_name@));
                }
                match entry_kind(&entry) {
                    EntryKind::Directory => {
                        included = true;
                        let obj = match entry.to_object(repo) {
                            Ok(o) => o,
                            Err(e) => {
                                return Err(git_error_from("Failed to get tree object: ", &e));
                            },
                        };
                        let subtree = match obj.peel_to_tree() {
                            Ok(t) => t,
                            Err(e) => {
                                return Err(git_error_from("Failed to peel to tree: ", &e));
                            },
                        };
                        let child = match walk_tree(
                            repo,
                            &subtree,
                            entry_name.as_str(),
                            entry_path.as_str(),
                            depth - 1,
                        ) {
                            Ok(c) => c,
                            Err(e) => {
                                return Err(e);
                            },
                        };
                        let ghost pre_children = children@;
                        let ghost gchild = child;
                        proof {
                            assert(gchild.name@ == entry_name@);
                            assert(child_placed(path@, gchild));
                        }
                        add_child(&mut children, &mut total, child);
                        proof {
                            broadcast use vstd::seq_lib::group_to_multiset_ensures;

                            lemma_add_child_step(pre_children, children@, gchild, path@);
                            assert(listed_entry(ents[i as int]));
                            assert(listing_keys(ents.take(i + 1)) =~= listing_keys(
                                ents.take(i as int),
                            ).push((entry_name@, false)));
                        }
                    },
                    EntryKind::File => {
                        included = true;
                        let obj = match entry.to_object(repo) {
                            Ok(o) => o,
                            Err(e) => {
                                return Err(git_error_from("Failed to get blob object: ", &e));
                            },
                        };
                        let blob = match obj.peel_to_blob() {
                            Ok(b) => b,
                            Err(e) => {
                                return Err(git_error_from("Failed to peel to blob: ", &e));
                            },
                        };
                        let node = file_node_from_blob(
                            entry_name,
                            entry_path,
                            make_entry_id(path),
                            &blob,
                        );
                        let ghost pre_children = children@;
                        let ghost gnode = node;
                        proof {
                            assert(child_placed(path@, gnode));
                        }
                        add_child(&mut children, &mut total, node);
                        proof {
                            broadcast use vstd::seq_lib::group_to_multiset_ensures;

                            lemma_add_child_step(pre_children, children@, gnode, path@);
                            assert(listed_entry(ents[i as int]));
                            assert(listing_keys(ents.take(i + 1)) =~= listing_keys(
                                ents.take(i as int),
                            ).push((gnode.name@, true)));
                        }
                    },
                    EntryKind::Other => {},
                }
            }
        }
        if !included {
            proof {
                assert(!listed_entry(ents[i as int]));
                assert(listing_keys(ents.take(i + 1)) =~= listing_keys(ents.take(i as int)));
            }
        }
        i = i + 1;
    }
    proof {
        assert(ents.take(count as int) =~= ents);
    }
    let label = if name.is_empty() {
        String::from_str("root")
    } else {
        String::from_str(name)
    };
    Ok(
        RepoStructure {
            name: label,
            path: String::from_str(path),
            id: make_entry_id(path),
            is_file: false,
            size: Some(total),
            children,
            extension: None,
            content: None,
        },
    )
}

/// Builds the size-and-count-annotated tree below `tree`, labelled
/// `name` (or `root` at the top) and rooted at `path`. Entries are
/// walked by object type — a tree recurses as a directory, a blob is a
/// file with its stored byte length and, for non-binary blobs, its
/// text — and any other object type is skipped, as are ignored names.
/// The resulting node is well formed — sizes sum, children are sorted
/// by name, no ignored entry appears — and its children hold exactly
/// one node, under its listed name, per listed entry of `tree`.
pub fn read_git_tree_structure(
    repo: &git2::Repository,
    tree: &git2::Tree<'_>,
    name: &str,
    path: &str,
) -> (r: Result<RepoStructure, RetrieveError>)
    ensures
        r matches Ok(s) ==> wf_structure(s) && !s.is_file && s.name@ == dir_label(name@) && s.path@
            == path@ && s.id@ == id_seq(path@) && node_keys(s.children@).to_multiset()
            == listing_keys(tree_entries(*tree)).to_multiset(),
        r matches Err(e) ==> e matches RetrieveError::GitError(_),
{
    walk_tree(repo, tree, name, path, MAX_TREE_DEPTH)
}

/// Resolves HEAD to a commit and its root tree, and builds the
/// repository's well-formed file tree. A repository whose HEAD resolves
/// to no commit — freshly created, with no history — fails with
/// `EmptyRepository`, its message carrying the empty-repository prefix,
/// rather than with a generic error.
pub fn read_git_repository_structure(repo: &git2::Repository) -> (r: Result<
    RepoStructure,
    RetrieveError,
>)
    ensures
        r matches Ok(s) ==> wf_structure(s) && !s.is_file && s.name@ == "root"@ && s.path@.len()
            == 0 && s.id@.len() == 0,
        r matches Err(RetrieveError::EmptyRepository(m)) ==> has_prefix(
            m@,
            "Repository has no commits yet: "@,
        ),
{
    let head = match repo.head() {
        Ok(h) => h,
        Err(e) => {
            let classified = classify_head_error(&e);
            proof {
                lemma_concat_has_prefix(
                    "Repository has no commits yet: "@,
                    error_message_of(e),
                );
            }
            return Err(classified);
        },
    };
    let commit = match head.peel_to_commit() {
        Ok(c) => c,
        Err(e) => {
            return Err(git_error_from("Failed to get commit: ", &e));
        },
    };
    let tree = match commit.tree() {
        Ok(t) => t,
        Err(e) => {
            return Err(git_error_from("Failed to get tree: ", &e));
        },
    };
    proof {
        reveal_strlit("");
    }
    read_git_tree_structure(repo, &tree, "", "")
}

} // verus!
