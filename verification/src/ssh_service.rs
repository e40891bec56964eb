//! Line-oriented editing of an `authorized_keys` file.
//!
//! The service works on the file's text: adding a key appends it as one
//! line, removing a key drops every line that contains it. Reading and
//! writing the file itself is the caller's business; the service's
//! functions are pure text transformations.

use crate::text::find_char;
use crate::text::lemma_split_first_chunk;
use crate::text::push_char;
use crate::text::split_at_char;
use vstd::prelude::*;
use vstd::string::StrSliceExecFns;
use vstd::string::StringExecFns;

verus! {

/// The needle occurs in the haystack starting at position `i`.
pub open spec fn contains_at(h: Seq<char>, n: Seq<char>, i: int) -> bool {
    0 <= i && i + n.len() <= h.len() && h.subrange(i, i + n.len()) == n
}

/// The needle occurs somewhere in the haystack.
pub open spec fn seq_contains(h: Seq<char>, n: Seq<char>) -> bool {
    exists|i: int| contains_at(h, n, i)
}

/// The text split at newlines: `a\nb` gives the lines `a` and `b`, a
/// trailing newline adds no empty final line, and empty text has no
/// lines.
pub open spec fn split_lines(s: Seq<char>) -> Seq<Seq<char>> {
    split_at_char(s, '\n')
}

/// The lines not containing `key`, each closed with a newline.
pub open spec fn filter_kept_lines(ls: Seq<Seq<char>>, key: Seq<char>) -> Seq<char>
    decreases ls.len(),
{
    if ls.len() == 0 {
        Seq::empty()
    } else {
        (if seq_contains(ls.first(), key) {
            Seq::<char>::empty()
        } else {
            ls.first().push('\n')
        }) + filter_kept_lines(ls.drop_first(), key)
    }
}

/// The text with every line containing `key` removed; every kept line
/// ends in a newline.
pub open spec fn remove_matching_lines(s: Seq<char>, key: Seq<char>) -> Seq<char> {
    filter_kept_lines(split_lines(s), key)
}

/// Edits a user's `authorized_keys` file contents.
pub struct SshKeyService {
    authorized_keys_path: String,
}

impl SshKeyService {
    /// The path of the `authorized_keys` file this service is for.
    pub closed spec fn key_path(&self) -> Seq<char> {
        self.authorized_keys_path@
    }

    /// A service for the given user's `~/.ssh/authorized_keys`.
    pub fn new(user_home: &str) -> (s: Self)
        ensures
            s.key_path() == user_home@ + "/.ssh/authorized_keys"@,
    {
        let mut p = String::from_str(user_home);
        p.append("/.ssh/authorized_keys");
        SshKeyService { authorized_keys_path: p }
    }

    /// The path of the `authorized_keys` file this service is for.
    pub fn authorized_keys_path(&self) -> (p: &String)
        ensures
            p@ == self.key_path(),
    {
        &self.authorized_keys_path
    }

    /// The file contents with `key` appended as one line.
    pub fn add_key(&self, contents: &str, key: &str) -> (r: String)
        ensures
            r@ == contents@ + key@ + seq!['\n'],
    {
        let mut out = String::from_str(contents);
        out.append(key);
        push_char(&mut out, '\n');
        proof {
            assert(out@ =~= contents@ + key@ + seq!['\n']);
        }
        out
    }

    /// The file contents with every line containing `key` removed; each
    /// kept line is closed with a newline.
    pub fn remove_key(&self, contents: &str, key: &str) -> (r: String)
        ensures
            r@ == remove_matching_lines(contents@, key@),
    {
        let n = contents.unicode_len();
        let mut out = String::new();
        let mut start: usize = 0;
        proof {
            assert(contents@.skip(0) =~= contents@);
            assert(Seq::<char>::empty() + remove_matching_lines(contents@, key@)
                =~= remove_matching_lines(contents@, key@));
        }
        while start < n
            invariant
                start <= n,
                n == contents@.len(),
                out@ + remove_matching_lines(contents@.skip(start as int), key@)
                    == remove_matching_lines(contents@, key@),
            decreases n - start,
        {
            let ghost pre_out = out@;
            let end = find_char(contents, start, '\n');
            let line = contents.substring_char(start, end);
            let kept = !str_contains(line, key);
            if kept {
                out.append(line);
                push_char(&mut out, '\n');
            }
            let new_start = if end < n {
                end + 1
            } else {
                n
            };
            proof {
                let s = contents@.skip(start as int);
                let e = end - start;
                assert(line@ =~= s.take(e as int));
                lemma_remove_first_line(s, key@, e as int);
                if end < n {
                    assert(s.skip(e + 1) =~= contents@.skip(new_start as int));
                } else {
                    assert(contents@.skip(new_start as int) =~= Seq::<char>::empty());
                }
                if kept {
                    assert(out@ =~= pre_out + (s.take(e as int).push('\n')));
                }
                assert(out@ + remove_matching_lines(contents@.skip(new_start as int), key@)
                    =~= pre_out + remove_matching_lines(s, key@));
            }
            start = new_start;
        }
        proof {
            assert(contents@.skip(n as int) =~= Seq::<char>::empty());
            assert(out@ + remove_matching_lines(Seq::empty(), key@) =~= out@);
        }
        out
    }

    /// The file contents with every line containing `old_key` removed
    /// and `new_key` appended as one line.
    pub fn update_key(&self, contents: &str, old_key: &str, new_key: &str) -> (r: String)
        ensures
            r@ == remove_matching_lines(contents@, old_key@) + new_key@ + seq!['\n'],
    {
        let removed = self.remove_key(contents, old_key);
        self.add_key(removed.as_str(), new_key)
    }
}

/// Whether `h` holds `n` as a contiguous substring.
fn str_contains(h: &str, n: &str) -> (b: bool)
    ensures
        b == seq_contains(h@, n@),
{
    let hl = h.unicode_len();
    let nl = n.unicode_len();
    if nl > hl {
        proof {
            assert forall|i: int| !contains_at(h@, n@, i) by {}
        }
        return false;
    }
    if nl == 0 {
        proof {
            assert(h@.subrange(0, 0) =~= n@);
            assert(contains_at(h@, n@, 0));
        }
        return true;
    }
    let mut i: usize = 0;
    while i <= hl - nl
        invariant
            1 <= nl <= hl,
            hl == h@.len(),
            nl == n@.len(),
            i <= hl - nl + 1,
            forall|k: int| 0 <= k < i ==> !contains_at(h@, n@, k),
        decreases hl - nl - i + 1,
    {
        if match_at(h, n, i) {
            return true;
        }
        i = i + 1;
    }
    proof {
        assert forall|k: int| !contains_at(h@, n@, k) by {
            if 0 <= k <= hl - nl {
            }
        }
    }
    false
}

/// Whether `n` occurs in `h` at position `i`.
fn match_at(h: &str, n: &str, i: usize) -> (b: bool)
    requires
        i + n@.len() <= h@.len(),
    ensures
        b == contains_at(h@, n@, i as int),
{
    let hl = h.unicode_len();
    let nl = n.unicode_len();
    let mut j: usize = 0;
    while j < nl
        invariant
            i + nl <= h@.len(),
            hl == h@.len(),
            nl == n@.len(),
            j <= nl,
            forall|k: int| 0 <= k < j ==> h@[i + k] == n@[k],
        decreases nl - j,
    {
        if h.get_char(i + j) != n.get_char(j) {
            proof {
                assert(h@.subrange(i as int, i + nl) != n@) by {
                    assert(h@.subrange(i as int, i + nl as int)[j as int] == h@[i + j]);
                }
            }
            return false;
        }
        j = j + 1;
    }
    proof {
        assert(h@.subrange(i as int, i + nl as int) =~= n@);
    }
    true
}

proof fn lemma_remove_first_line(s: Seq<char>, key: Seq<char>, e: int)
    requires
        s.len() > 0,
        0 <= e <= s.len(),
        forall|k: int| 0 <= k < e ==> s[k] != '\n',
        e < s.len() ==> s[e] == '\n',
    ensures
        remove_matching_lines(s, key) == (if seq_contains(s.take(e), key) {
            Seq::<char>::empty()
        } else {
            s.take(e).push('\n')
        }) + remove_matching_lines(
            if e < s.len() {
                s.skip(e + 1)
            } else {
                Seq::empty()
            },
            key,
        ),
{
    lemma_split_first_chunk(s, '\n', e);
    let tail = if e < s.len() {
        s.skip(e + 1)
    } else {
        Seq::<char>::empty()
    };
    let ls = seq![s.take(e)] + split_lines(tail);
    assert(ls.first() == s.take(e));
    assert(ls.drop_first() =~= split_lines(tail));
}

} // verus!
