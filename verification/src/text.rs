//! Character-level text helpers: equality and lexicographic comparison of
//! strings, and single-character appends.

use vstd::prelude::*;

verus! {

/// Lexicographic order on character sequences by code point; a prefix
/// precedes its extensions.
pub open spec fn lex_le(a: Seq<char>, b: Seq<char>) -> bool
    decreases a.len(),
{
    if a.len() == 0 {
        true
    } else if b.len() == 0 {
        false
    } else if a[0] == b[0] {
        lex_le(a.drop_first(), b.drop_first())
    } else {
        a[0] < b[0]
    }
}

/// `p` is an initial segment of `m`.
pub open spec fn has_prefix(m: Seq<char>, p: Seq<char>) -> bool {
    m.len() >= p.len() && m.take(p.len() as int) == p
}

/// A concatenation begins with its first part.
pub proof fn lemma_concat_has_prefix(a: Seq<char>, b: Seq<char>)
    ensures
        has_prefix(a + b, a),
{
    assert((a + b).take(a.len() as int) =~= a);
}

/// `lex_le` is total: two sequences are always comparable.
pub proof fn lemma_lex_le_total(a: Seq<char>, b: Seq<char>)
    ensures
        lex_le(a, b) || lex_le(b, a),
    decreases a.len(),
{
    if a.len() > 0 && b.len() > 0 && a[0] == b[0] {
        lemma_lex_le_total(a.drop_first(), b.drop_first());
    }
}

/// `lex_le` is transitive.
pub proof fn lemma_lex_le_trans(a: Seq<char>, b: Seq<char>, c: Seq<char>)
    requires
        lex_le(a, b),
        lex_le(b, c),
    ensures
        lex_le(a, c),
    decreases a.len(),
{
    if a.len() > 0 && b.len() > 0 && c.len() > 0 {
        if a[0] == b[0] && b[0] == c[0] {
            lemma_lex_le_trans(a.drop_first(), b.drop_first(), c.drop_first());
        }
    }
}

/// Comparing two sequences that agree on their first `i` characters is
/// the same as comparing what follows.
proof fn lemma_lex_le_skip(a: Seq<char>, b: Seq<char>, i: int)
    requires
        0 <= i <= a.len(),
        i <= b.len(),
        forall|j: int| 0 <= j < i ==> a[j] == b[j],
    ensures
        lex_le(a, b) == lex_le(a.skip(i), b.skip(i)),
    decreases i,
{
    if i > 0 {
        assert(a.len() > 0 && b.len() > 0 && a[0] == b[0]);
        lemma_lex_le_skip(a.drop_first(), b.drop_first(), i - 1);
        assert(a.drop_first().skip(i - 1) =~= a.skip(i));
        assert(b.drop_first().skip(i - 1) =~= b.skip(i));
    } else {
        assert(a.skip(0) =~= a);
        assert(b.skip(0) =~= b);
    }
}

/// Whether `a` precedes `b` (or equals it) in lexicographic order.
pub fn str_le(a: &str, b: &str) -> (r: bool)
    ensures
        r == lex_le(a@, b@),
{
    let a_len = a.unicode_len();
    let b_len = b.unicode_len();
    let mut i: usize = 0;
    loop
        invariant
            i <= a_len,
            i <= b_len,
            a_len == a@.len(),
            b_len == b@.len(),
            forall|j: int| 0 <= j < i ==> a@[j] == b@[j],
        decreases a_len - i,
    {
        proof {
            lemma_lex_le_skip(a@, b@, i as int);
        }
        if i >= a_len {
            proof {
                assert(a@.skip(i as int).len() == 0);
            }
            return true;
        }
        if i >= b_len {
            proof {
                assert(b@.skip(i as int).len() == 0);
                assert(a@.skip(i as int).len() > 0);
            }
            return false;
        }
        let ca = a.get_char(i);
        let cb = b.get_char(i);
        if ca != cb {
            proof {
                assert(a@.skip(i as int)[0] == ca);
                assert(b@.skip(i as int)[0] == cb);
            }
            return ca < cb;
        }
        i = i + 1;
    }
}

/// Whether `a` and `b` hold the same characters.
pub fn str_eq(a: &str, b: &str) -> (r: bool)
    ensures
        r == (a@ == b@),
{
    let a_len = a.unicode_len();
    let b_len = b.unicode_len();
    if a_len != b_len {
        return false;
    }
    let mut i: usize = 0;
    while i < a_len
        invariant
            i <= a_len,
            a_len == a@.len(),
            b_len == b@.len(),
            a_len == b_len,
            forall|j: int| 0 <= j < i ==> a@[j] == b@[j],
        decreases a_len - i,
    {
        if a.get_char(i) != b.get_char(i) {
            return false;
        }
        i = i + 1;
    }
    proof {
        assert(a@ =~= b@);
    }
    true
}

/// The text split at `sep`: `a/b` split at `/` gives the chunks `a` and
/// `b`, a trailing separator adds no empty final chunk, and empty text
/// has no chunks.
pub open spec fn split_at_char(s: Seq<char>, sep: char) -> Seq<Seq<char>>
    decreases s.len(),
{
    if s.len() == 0 {
        Seq::empty()
    } else if s[0] == sep {
        seq![Seq::<char>::empty()] + split_at_char(s.drop_first(), sep)
    } else {
        let rest = split_at_char(s.drop_first(), sep);
        if rest.len() == 0 {
            seq![seq![s[0]]]
        } else {
            rest.update(0, seq![s[0]] + rest[0])
        }
    }
}

/// Splitting peels off the first chunk: with `e` the position of the
/// first separator (or the text's length if none occurs), the chunks are
/// the text up to `e` followed by the chunks of what comes after it.
pub proof fn lemma_split_first_chunk(s: Seq<char>, sep: char, e: int)
    requires
        s.len() > 0,
        0 <= e <= s.len(),
        forall|k: int| 0 <= k < e ==> s[k] != sep,
        e < s.len() ==> s[e] == sep,
    ensures
        split_at_char(s, sep) == seq![s.take(e)] + split_at_char(
            if e < s.len() {
                s.skip(e + 1)
            } else {
                Seq::empty()
            },
            sep,
        ),
    decreases s.len(),
{
    if s[0] == sep {
        assert(e == 0);
        assert(s.take(0) =~= Seq::<char>::empty());
        assert(s.skip(1) =~= s.drop_first());
        assert(seq![Seq::<char>::empty()] + split_at_char(s.drop_first(), sep) =~= seq![s.take(0)]
            + split_at_char(s.skip(1), sep));
    } else {
        assert(e >= 1);
        let rest = split_at_char(s.drop_first(), sep);
        if s.len() == 1 {
            assert(e == 1);
            assert(rest.len() == 0);
            assert(s.take(1) =~= seq![s[0]]);
            assert(split_at_char(s, sep) =~= seq![s.take(1)] + split_at_char(Seq::empty(), sep));
        } else {
            lemma_split_first_chunk(s.drop_first(), sep, e - 1);
            assert(rest.len() > 0);
            assert(rest[0] == s.drop_first().take(e - 1));
            assert(seq![s[0]] + s.drop_first().take(e - 1) =~= s.take(e));
            if e < s.len() {
                assert(s.drop_first().skip(e) =~= s.skip(e + 1));
                assert(rest.update(0, seq![s[0]] + rest[0]) =~= seq![s.take(e)] + split_at_char(
                    s.skip(e + 1),
                    sep,
                ));
            } else {
                assert(s.drop_first().len() == e - 1);
                assert(rest.update(0, seq![s[0]] + rest[0]) =~= seq![s.take(e)] + split_at_char(
                    Seq::empty(),
                    sep,
                ));
            }
        }
    }
}

/// The position of the first `sep` at or after `start`, or the text's
/// length if none follows.
pub fn find_char(s: &str, start: usize, sep: char) -> (r: usize)
    requires
        start <= s@.len(),
    ensures
        start <= r <= s@.len(),
        forall|k: int| start <= k < r ==> s@[k] != sep,
        r < s@.len() ==> s@[r as int] == sep,
{
    let n = s.unicode_len();
    let mut i: usize = start;
    loop
        invariant_except_break
            start <= i <= n,
            n == s@.len(),
            forall|k: int| start <= k < i ==> s@[k] != sep,
        ensures
            start <= i <= n,
            n == s@.len(),
            forall|k: int| start <= k < i ==> s@[k] != sep,
            i < n ==> s@[i as int] == sep,
        decreases n - i,
    {
        if i >= n {
            break ;
        }
        if s.get_char(i) == sep {
            break ;
        }
        i = i + 1;
    }
    i
}

/// Relies on `String::push`: appends exactly the one character.
#[verifier::external_body]
pub fn push_char(s: &mut String, c: char)
    ensures
        final(s)@ == old(s)@.push(c),
{
    s.push(c);
}

} // verus!
