//! Character-level text model: ASCII case folding and substring search.
//!
//! Strings are viewed as sequences of characters. Case folding lowers the
//! ASCII letters `A`..`Z` and leaves every other character unchanged, which
//! is the locale-independent folding the search uses.

use vstd::prelude::*;

verus! {

/// ASCII-lowercase a single character: `A`..`Z` become `a`..`z`, everything
/// else is unchanged.
pub open spec fn lower_char(c: char) -> char {
    if 65 <= c as u32 && c as u32 <= 90 {
        (((c as u32) + 32) as u32) as char
    } else {
        c
    }
}

/// ASCII-lowercase a character sequence, pointwise.
pub open spec fn lower_seq(s: Seq<char>) -> Seq<char> {
    s.map_values(|c: char| lower_char(c))
}

/// The pattern `pat` occurs in `text` starting at position `i`.
pub open spec fn matches_at(text: Seq<char>, pat: Seq<char>, i: int) -> bool {
    0 <= i && i + pat.len() <= text.len() && text.subrange(i, i + pat.len()) == pat
}

/// The pattern `pat` occurs somewhere in `text`.
pub open spec fn contains_seq(text: Seq<char>, pat: Seq<char>) -> bool {
    exists|i: int| matches_at(text, pat, i)
}

/// ASCII-uppercase a single character: `a`..`z` become `A`..`Z`.
pub open spec fn upper_char(c: char) -> char {
    if 97 <= c as u32 && c as u32 <= 122 {
        (((c as u32) - 32) as u32) as char
    } else {
        c
    }
}

/// ASCII-uppercase a character sequence, pointwise.
pub open spec fn upper_seq(s: Seq<char>) -> Seq<char> {
    s.map_values(|c: char| upper_char(c))
}

/// Lowering a character twice is the same as lowering it once.
pub proof fn lemma_lower_char_idempotent(c: char)
    ensures
        lower_char(lower_char(c)) == lower_char(c),
{
}

/// Lowering after uppering folds to the same character as lowering alone.
pub proof fn lemma_lower_upper_char(c: char)
    ensures
        lower_char(upper_char(c)) == lower_char(c),
{
}

/// The exec form of [`lower_char`].
pub fn lower_char_exec(c: char) -> (r: char)
    ensures
        r == lower_char(c),
{
    let u = c as u32;
    if 65 <= u && u <= 90 {
        let l = u + 32;
        char_from_code(l)
    } else {
        c
    }
}

/// Turns a known-valid code point back into a character.
fn char_from_code(u: u32) -> (r: char)
    requires
        97 <= u <= 122,
    ensures
        r == u as char,
{
    (u as u8) as char
}

/// Collects the characters of a string into a vector.
pub fn chars_of(s: &str) -> (r: Vec<char>)
    ensures
        r@ == s@,
{
    let n = s.unicode_len();
    let mut r: Vec<char> = Vec::new();
    let mut i: usize = 0;
    while i < n
        invariant
            n == s@.len(),
            i <= n,
            r@ == s@.take(i as int),
        decreases n - i,
    {
        r.push(s.get_char(i));
        i = i + 1;
        proof {
            assert(r@ =~= s@.take(i as int));
        }
    }
    proof {
        assert(r@ =~= s@);
    }
    r
}

/// Collects the ASCII-lowercased characters of a string.
pub fn lower_chars_of(s: &str) -> (r: Vec<char>)
    ensures
        r@ == lower_seq(s@),
{
    let n = s.unicode_len();
    let mut r: Vec<char> = Vec::new();
    let mut i: usize = 0;
    while i < n
        invariant
            n == s@.len(),
            i <= n,
            r@ == lower_seq(s@).take(i as int),
        decreases n - i,
    {
        r.push(lower_char_exec(s.get_char(i)));
        i = i + 1;
        proof {
            assert(r@ =~= lower_seq(s@).take(i as int));
        }
    }
    proof {
        assert(r@ =~= lower_seq(s@));
    }
    r
}

/// Whether `pat` occurs in `text` starting at position `i`.
fn match_at_exec(text: &Vec<char>, pat: &Vec<char>, i: usize) -> (r: bool)
    requires
        i + pat@.len() <= text@.len(),
    ensures
        r == matches_at(text@, pat@, i as int),
{
    let n = text.len();
    let m = pat.len();
    let mut j: usize = 0;
    while j < m
        invariant
            n == text@.len(),
            m == pat@.len(),
            i + m <= text@.len(),
            j <= m,
            forall|k: int| 0 <= k < j ==> text@[i + k] == pat@[k],
        decreases m - j,
    {
        if text[i + j] != pat[j] {
            proof {
                assert(text@.subrange(i as int, i + m)[j as int] != pat@[j as int]);
            }
            return false;
        }
        j = j + 1;
    }
    proof {
        assert(text@.subrange(i as int, i + m) =~= pat@);
    }
    true
}

/// Whether `pat` occurs anywhere in `text`.
pub fn contains_pattern(text: &Vec<char>, pat: &Vec<char>) -> (r: bool)
    ensures
        r == contains_seq(text@, pat@),
{
    let n = text.len();
    let m = pat.len();
    if m == 0 {
        proof {
            assert(text@.subrange(0, 0) =~= pat@);
            assert(matches_at(text@, pat@, 0));
        }
        return true;
    }
    if m > n {
        proof {
            assert(forall|i: int| !matches_at(text@, pat@, i));
        }
        return false;
    }
    let last = n - m;
    let mut i: usize = 0;
    while i <= last
        invariant
            n == text@.len(),
            m == pat@.len(),
            0 < m <= n,
            last == n - m,
            i <= last + 1,
            forall|k: int| 0 <= k < i ==> !matches_at(text@, pat@, k),
        decreases last - i + 1,
    {
        if match_at_exec(text, pat, i) {
            return true;
        }
        i = i + 1;
    }
    proof {
        assert forall|k: int| !matches_at(text@, pat@, k) by {
            if 0 <= k <= last {
            }
        }
    }
    false
}

/// The start positions of every occurrence of `pat` in `text`, scanned left
/// to right without overlap: after a match at `from`, the scan resumes at
/// `from + pat.len()`.
pub open spec fn nonoverlap_indices(text: Seq<char>, pat: Seq<char>, from: int) -> Seq<int>
    decreases text.len() - from,
{
    if pat.len() == 0 || from < 0 || from + pat.len() > text.len() {
        Seq::<int>::empty()
    } else if matches_at(text, pat, from) {
        seq![from] + nonoverlap_indices(text, pat, from + pat.len())
    } else {
        nonoverlap_indices(text, pat, from + 1)
    }
}

/// Computes [`nonoverlap_indices`] from position 0.
pub fn find_indices(text: &Vec<char>, pat: &Vec<char>) -> (r: Vec<usize>)
    requires
        pat@.len() > 0,
    ensures
        r@.map_values(|u: usize| u as int) == nonoverlap_indices(text@, pat@, 0),
{
    let n = text.len();
    let m = pat.len();
    let mut r: Vec<usize> = Vec::new();
    if m > n {
        proof {
            assert(r@.map_values(|u: usize| u as int) =~= nonoverlap_indices(text@, pat@, 0));
        }
        return r;
    }
    let last = n - m;
    let mut from: usize = 0;
    while from <= last
        invariant
            n == text@.len(),
            m == pat@.len(),
            0 < m <= n,
            last == n - m,
            from <= last + m,
            r@.map_values(|u: usize| u as int) + nonoverlap_indices(text@, pat@, from as int)
                == nonoverlap_indices(text@, pat@, 0),
        decreases last + m - from,
    {
        let ghost rv = r@.map_values(|u: usize| u as int);
        if match_at_exec(text, pat, from) {
            r.push(from);
            proof {
                assert(r@.map_values(|u: usize| u as int) =~= rv.push(from as int));
                assert(rv.push(from as int) + nonoverlap_indices(text@, pat@, from + m)
                    =~= rv + (seq![from as int] + nonoverlap_indices(text@, pat@, from + m)));
            }
            from = from + m;
        } else {
            from = from + 1;
        }
    }
    proof {
        assert(nonoverlap_indices(text@, pat@, from as int) =~= Seq::<int>::empty());
        assert(r@.map_values(|u: usize| u as int) + Seq::<int>::empty() =~= r@.map_values(
            |u: usize| u as int,
        ));
    }
    r
}

/// Lowering a sequence twice is the same as lowering it once.
pub proof fn lemma_lower_seq_idempotent(s: Seq<char>)
    ensures
        lower_seq(lower_seq(s)) == lower_seq(s),
{
    assert(lower_seq(lower_seq(s)) =~= lower_seq(s)) by {
        assert forall|i: int| 0 <= i < s.len() implies lower_seq(lower_seq(s))[i] == lower_seq(s)[i] by {
            lemma_lower_char_idempotent(s[i]);
        }
    }
}

/// Lowering after uppering folds a sequence as lowering alone does.
pub proof fn lemma_lower_upper_seq(s: Seq<char>)
    ensures
        lower_seq(upper_seq(s)) == lower_seq(s),
{
    assert(lower_seq(upper_seq(s)) =~= lower_seq(s)) by {
        assert forall|i: int| 0 <= i < s.len() implies lower_seq(upper_seq(s))[i] == lower_seq(s)[i] by {
            lemma_lower_upper_char(s[i]);
        }
    }
}

/// Substring matching is insensitive to case in both the query and the text:
/// folding the query up and the text down before the fold-and-match changes
/// nothing.
pub proof fn lemma_case_insensitive(query: Seq<char>, text: Seq<char>)
    ensures
        contains_seq(lower_seq(lower_seq(text)), lower_seq(upper_seq(query))) == contains_seq(
            lower_seq(text),
            lower_seq(query),
        ),
{
    lemma_lower_seq_idempotent(text);
    lemma_lower_upper_seq(query);
}

} // verus!
