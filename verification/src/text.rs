//! Splitting text on a delimiter character: the spec-level model of how the
//! input breaks into lines and how a line breaks into fields, and a verified
//! executable splitter.

use vstd::prelude::*;
use vstd::string::StrSliceExecFns;
use vstd::string::StringExecFns;

verus! {

/// Index of the first occurrence of `c` in `s`, or `-1` if none.
pub open spec fn find_char(s: Seq<char>, c: char) -> int
    decreases s.len(),
{
    if s.len() == 0 {
        -1
    } else if s[0] == c {
        0
    } else {
        let r = find_char(s.drop_first(), c);
        if r < 0 {
            -1
        } else {
            r + 1
        }
    }
}

pub proof fn lemma_find_char_props(s: Seq<char>, c: char)
    ensures
        -1 <= find_char(s, c) < s.len(),
        find_char(s, c) >= 0 ==> s[find_char(s, c)] == c,
        forall|j: int| 0 <= j < find_char(s, c) ==> s[j] != c,
        find_char(s, c) == -1 ==> forall|j: int| 0 <= j < s.len() ==> s[j] != c,
    decreases s.len(),
{
    if s.len() == 0 {
    } else if s[0] == c {
    } else {
        lemma_find_char_props(s.drop_first(), c);
        let r = find_char(s.drop_first(), c);
        assert(forall|j: int| 0 <= j < s.drop_first().len() ==> s.drop_first()[j] == s[j + 1]);
        if r >= 0 {
            assert(s[r + 1] == s.drop_first()[r]);
            assert forall|j: int| 0 <= j < find_char(s, c) implies s[j] != c by {
                if j > 0 {
                    assert(s[j] == s.drop_first()[j - 1]);
                }
            }
        } else {
            assert forall|j: int| 0 <= j < s.len() implies s[j] != c by {
                if j > 0 {
                    assert(s[j] == s.drop_first()[j - 1]);
                }
            }
        }
    }
}

/// If `k` is an occurrence of `c` with no earlier occurrence, `find_char`
/// returns `k`.
pub proof fn lemma_find_char_at(s: Seq<char>, c: char, k: int)
    requires
        0 <= k < s.len(),
        s[k] == c,
        forall|j: int| 0 <= j < k ==> s[j] != c,
    ensures
        find_char(s, c) == k,
    decreases s.len(),
{
    if k == 0 {
    } else {
        assert(s[0] != c);
        assert forall|j: int| 0 <= j < k - 1 implies s.drop_first()[j] != c by {
            assert(s.drop_first()[j] == s[j + 1]);
        }
        assert(s.drop_first()[k - 1] == s[k]);
        lemma_find_char_at(s.drop_first(), c, k - 1);
    }
}

/// Splits `s` at every occurrence of `c`. The result always has at least one
/// element; `n` separators yield `n + 1` pieces, empty pieces included.
pub open spec fn split_chars(s: Seq<char>, c: char) -> Seq<Seq<char>>
    decreases s.len()
        via split_chars_decreases
{
    let k = find_char(s, c);
    if k < 0 {
        seq![s]
    } else {
        seq![s.subrange(0, k)] + split_chars(s.subrange(k + 1, s.len() as int), c)
    }
}

#[via_fn]
proof fn split_chars_decreases(s: Seq<char>, c: char) {
    lemma_find_char_props(s, c);
}

/// A separator-free sequence splits into exactly itself.
pub proof fn lemma_split_chars_no_sep(s: Seq<char>, c: char)
    requires
        forall|j: int| 0 <= j < s.len() ==> s[j] != c,
    ensures
        split_chars(s, c) == seq![s],
{
    lemma_find_char_props(s, c);
}

/// Splitting at the first separator peels off one piece.
pub proof fn lemma_split_chars_step(s: Seq<char>, c: char, k: int)
    requires
        0 <= k < s.len(),
        s[k] == c,
        forall|j: int| 0 <= j < k ==> s[j] != c,
    ensures
        split_chars(s, c) == seq![s.subrange(0, k)] + split_chars(
            s.subrange(k + 1, s.len() as int),
            c,
        ),
{
    lemma_find_char_at(s, c, k);
}

/// Splits `s` at every occurrence of `sep`, with the pieces as owned strings.
pub fn split_str(s: &str, sep: char) -> (r: Vec<String>)
    ensures
        r.deep_view() == split_chars(s@, sep),
{
    let n = s.unicode_len();
    let mut parts: Vec<String> = Vec::new();
    let mut start: usize = 0;
    let mut i: usize = 0;
    proof {
        assert(s@.subrange(0, n as int) =~= s@);
        assert(parts.deep_view() =~= Seq::<Seq<char>>::empty());
        assert(Seq::<Seq<char>>::empty() + split_chars(s@, sep) =~= split_chars(s@, sep));
    }
    while i < n
        invariant
            n == s@.len(),
            0 <= start <= i <= n,
            forall|j: int| start <= j < i ==> s@[j] != sep,
            parts.deep_view() + split_chars(s@.subrange(start as int, n as int), sep)
                =~= split_chars(s@, sep),
        decreases n - i,
    {
        let ch = s.get_char(i);
        if ch == sep {
            let piece = String::from_str(s.substring_char(start, i));
            proof {
                let t = s@.subrange(start as int, n as int);
                let k: int = i - start;
                assert forall|j: int| 0 <= j < k implies t[j] != sep by {
                    assert(t[j] == s@[start + j]);
                }
                assert(t[k] == s@[i as int]);
                lemma_split_chars_step(t, sep, k);
                assert(t.subrange(0, k) =~= s@.subrange(start as int, i as int));
                assert(t.subrange(k + 1, t.len() as int) =~= s@.subrange(i + 1, n as int));
            }
            let ghost pdv = parts.deep_view();
            parts.push(piece);
            proof {
                assert(parts.deep_view() =~= pdv.push(piece@));
                assert(pdv.push(piece@) + split_chars(s@.subrange(i + 1, n as int), sep)
                    =~= pdv + (seq![piece@] + split_chars(s@.subrange(i + 1, n as int), sep)));
            }
            start = i + 1;
        }
        i = i + 1;
    }
    let piece = String::from_str(s.substring_char(start, n));
    proof {
        let t = s@.subrange(start as int, n as int);
        assert forall|j: int| 0 <= j < t.len() implies t[j] != sep by {
            assert(t[j] == s@[start + j]);
        }
        lemma_split_chars_no_sep(t, sep);
    }
    let ghost pdv = parts.deep_view();
    parts.push(piece);
    proof {
        assert(parts.deep_view() =~= pdv.push(piece@));
        assert(parts.deep_view() =~~= split_chars(s@, sep));
    }
    parts
}

} // verus!
