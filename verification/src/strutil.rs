//! Small verified string helpers.
//!
//! The script language is line- and token-oriented, so the parser keeps
//! needing the same few operations: exact equality, prefix tests, substring
//! search and trimming.  They are written once here, each against a spec
//! function over the character sequence.

use vstd::prelude::*;
use vstd::string::StrSliceExecFns;

verus! {

/// The whitespace the script language recognises inside a line.
pub open spec fn is_space_char(c: char) -> bool {
    c == ' ' || c == '\t' || c == '\r'
}

/// Executable twin of [`is_space_char`].
pub fn is_space(c: char) -> (r: bool)
    ensures
        r == is_space_char(c),
{
    c == ' ' || c == '\t' || c == '\r'
}

/// Exact character-for-character equality of two string slices.
pub fn str_eq(a: &str, b: &str) -> (r: bool)
    ensures
        r == (a@ == b@),
{
    let na = a.unicode_len();
    let nb = b.unicode_len();
    if na != nb {
        proof {
            assert(a@ != b@);
        }
        return false;
    }
    let mut i: usize = 0;
    while i < na
        invariant
            na == a@.len(),
            nb == b@.len(),
            na == nb,
            i <= na,
            forall|j: int| 0 <= j < i ==> a@[j] == b@[j],
        decreases na - i,
    {
        if a.get_char(i) != b.get_char(i) {
            return false;
        }
        i += 1;
    }
    proof {
        assert(a@ =~= b@);
    }
    true
}

/// `p` occurs in `s` starting at position `i`.
pub open spec fn occurs_at(s: Seq<char>, p: Seq<char>, i: int) -> bool {
    0 <= i && i + p.len() <= s.len() && s.subrange(i, i + p.len() as int) == p
}

/// Does `p` occur in `s` at position `i`?
pub fn check_occurs_at(s: &str, p: &str, i: usize) -> (r: bool)
    requires
        i + p@.len() <= s@.len(),
        s@.len() <= usize::MAX,
    ensures
        r == occurs_at(s@, p@, i as int),
{
    let np = p.unicode_len();
    let mut j: usize = 0;
    while j < np
        invariant
            np == p@.len(),
            i + np <= s@.len(),
            s@.len() <= usize::MAX,
            j <= np,
            forall|k: int| 0 <= k < j ==> s@[i + k] == p@[k],
        decreases np - j,
    {
        if s.get_char(i + j) != p.get_char(j) {
            proof {
                assert(s@.subrange(i as int, i + p@.len() as int)[j as int] == s@[i + j]);
            }
            return false;
        }
        j += 1;
    }
    proof {
        assert(s@.subrange(i as int, i + p@.len() as int) =~= p@);
    }
    true
}

/// `s` begins with `p`.
pub open spec fn spec_starts_with(s: Seq<char>, p: Seq<char>) -> bool {
    occurs_at(s, p, 0)
}

/// Prefix test.
pub fn str_starts_with(s: &str, p: &str) -> (r: bool)
    ensures
        r == spec_starts_with(s@, p@),
{
    let ns = s.unicode_len();
    let np = p.unicode_len();
    if np > ns {
        return false;
    }
    check_occurs_at(s, p, 0)
}

/// A nonempty prefix pins down the first character.
pub proof fn lemma_starts_with_first_char(s: Seq<char>, p: Seq<char>)
    requires
        spec_starts_with(s, p),
        p.len() > 0,
    ensures
        s.len() > 0 && s[0] == p[0],
{
    assert(s.subrange(0, p.len() as int)[0] == s[0]);
}

/// A prefix pins down each of the first characters.
pub proof fn lemma_starts_with_char_at(s: Seq<char>, p: Seq<char>, i: int)
    requires
        spec_starts_with(s, p),
        0 <= i < p.len(),
    ensures
        s[i] == p[i],
{
    assert(s.subrange(0, p.len() as int)[i] == s[i]);
}

/// Position of the first occurrence of `p` at or after `i`, if any.
pub open spec fn find_from(s: Seq<char>, p: Seq<char>, i: int) -> Option<int>
    decreases s.len() - i + 1,
{
    if i < 0 || i + p.len() > s.len() {
        None
    } else if occurs_at(s, p, i) {
        Some(i)
    } else {
        find_from(s, p, i + 1)
    }
}

proof fn lemma_find_from_some(s: Seq<char>, p: Seq<char>, i: int, j: int)
    requires
        find_from(s, p, i) == Some(j),
    ensures
        occurs_at(s, p, j),
        i <= j,
    decreases s.len() - i + 1,
{
    if !(i < 0 || i + p.len() > s.len()) && !occurs_at(s, p, i) {
        lemma_find_from_some(s, p, i + 1, j);
    }
}

/// A found position really is an occurrence.
pub proof fn lemma_find_first_some(s: Seq<char>, p: Seq<char>, j: int)
    requires
        spec_find_first(s, p) == Some(j),
    ensures
        occurs_at(s, p, j),
{
    lemma_find_from_some(s, p, 0, j);
}

proof fn lemma_rfind_from_some(s: Seq<char>, p: Seq<char>, i: int, j: int)
    requires
        rfind_from(s, p, i) == Some(j),
    ensures
        occurs_at(s, p, j),
        j <= i,
    decreases i + 1,
{
    if !(i < 0 || i + p.len() > s.len()) && !occurs_at(s, p, i) {
        lemma_rfind_from_some(s, p, i - 1, j);
    }
}

/// A position found from the right really is an occurrence.
pub proof fn lemma_find_last_some(s: Seq<char>, p: Seq<char>, j: int)
    requires
        spec_find_last(s, p) == Some(j),
    ensures
        occurs_at(s, p, j),
{
    lemma_rfind_from_some(s, p, s.len() - p.len(), j);
}

proof fn lemma_find_from_unfold(s: Seq<char>, p: Seq<char>, i: int)
    requires
        0 <= i,
        i + p.len() <= s.len(),
        !occurs_at(s, p, i),
    ensures
        find_from(s, p, i) == find_from(s, p, i + 1),
{
}

/// Position of the first occurrence of `p` in `s`, if any.
pub open spec fn spec_find_first(s: Seq<char>, p: Seq<char>) -> Option<int> {
    find_from(s, p, 0)
}

/// Leftmost occurrence of `p` in `s`.
pub fn find_first(s: &str, p: &str) -> (r: Option<usize>)
    ensures
        match r {
            Some(i) => spec_find_first(s@, p@) == Some(i as int),
            None => spec_find_first(s@, p@) is None,
        },
{
    let ns = s.unicode_len();
    let np = p.unicode_len();
    if np > ns {
        return None;
    }
    if np == 0 {
        proof {
            assert(s@.subrange(0, 0) =~= p@);
        }
        return Some(0);
    }
    let mut i: usize = 0;
    while i <= ns - np
        invariant
            ns == s@.len(),
            np == p@.len(),
            1 <= np <= ns,
            i as int <= ns - np + 1,
            find_from(s@, p@, 0) == find_from(s@, p@, i as int),
        decreases ns - i,
    {
        if check_occurs_at(s, p, i) {
            return Some(i);
        }
        proof {
            lemma_find_from_unfold(s@, p@, i as int);
        }
        i += 1;
    }
    None
}

/// Position of the last occurrence of `p` at or before `i`, if any.
pub open spec fn rfind_from(s: Seq<char>, p: Seq<char>, i: int) -> Option<int>
    decreases i + 1,
{
    if i < 0 || i + p.len() > s.len() {
        None
    } else if occurs_at(s, p, i) {
        Some(i)
    } else {
        rfind_from(s, p, i - 1)
    }
}

/// Position of the last occurrence of `p` in `s`, if any.
pub open spec fn spec_find_last(s: Seq<char>, p: Seq<char>) -> Option<int> {
    rfind_from(s, p, s.len() - p.len())
}

/// Rightmost occurrence of `p` in `s`.
pub fn find_last(s: &str, p: &str) -> (r: Option<usize>)
    ensures
        match r {
            Some(i) => spec_find_last(s@, p@) == Some(i as int),
            None => spec_find_last(s@, p@) is None,
        },
{
    let ns = s.unicode_len();
    let np = p.unicode_len();
    if np > ns {
        return None;
    }
    let mut i: usize = ns - np;
    loop
        invariant
            ns == s@.len(),
            np == p@.len(),
            np <= ns,
            i <= ns - np,
            rfind_from(s@, p@, (ns - np) as int) == rfind_from(s@, p@, i as int),
        decreases i,
    {
        if check_occurs_at(s, p, i) {
            return Some(i);
        }
        if i == 0 {
            return None;
        }
        i -= 1;
    }
}

proof fn lemma_find_from_at(s: Seq<char>, p: Seq<char>, i: int, k: int)
    requires
        0 <= i <= k,
        occurs_at(s, p, k),
        forall|q: int| i <= q < k ==> !occurs_at(s, p, q),
    ensures
        find_from(s, p, i) == Some(k),
    decreases k - i,
{
    if i < k {
        lemma_find_from_at(s, p, i + 1, k);
    }
}

/// An occurrence with none before it is the first.
pub proof fn lemma_find_first_at(s: Seq<char>, p: Seq<char>, k: int)
    requires
        occurs_at(s, p, k),
        forall|q: int| 0 <= q < k ==> !occurs_at(s, p, q),
    ensures
        spec_find_first(s, p) == Some(k),
{
    lemma_find_from_at(s, p, 0, k);
}

proof fn lemma_rfind_from_at(s: Seq<char>, p: Seq<char>, i: int, k: int)
    requires
        k <= i <= s.len() - p.len(),
        occurs_at(s, p, k),
        forall|q: int| k < q <= i ==> !occurs_at(s, p, q),
    ensures
        rfind_from(s, p, i) == Some(k),
    decreases i - k,
{
    if i > k {
        lemma_rfind_from_at(s, p, i - 1, k);
    }
}

/// An occurrence with none after it is the last.
pub proof fn lemma_find_last_at(s: Seq<char>, p: Seq<char>, k: int)
    requires
        occurs_at(s, p, k),
        forall|q: int| k < q <= s.len() - p.len() ==> !occurs_at(s, p, q),
    ensures
        spec_find_last(s, p) == Some(k),
{
    lemma_rfind_from_at(s, p, s.len() - p.len(), k);
}

proof fn lemma_find_from_none(s: Seq<char>, p: Seq<char>, i: int)
    requires
        forall|q: int| i <= q ==> !occurs_at(s, p, q),
    ensures
        find_from(s, p, i) is None,
    decreases s.len() - i + 1,
{
    if !(i < 0 || i + p.len() > s.len()) {
        if i < 0 {
        } else {
            lemma_find_from_none(s, p, i + 1);
        }
    }
}

/// With no occurrence at all there is nothing to find.
pub proof fn lemma_find_first_none(s: Seq<char>, p: Seq<char>)
    requires
        forall|q: int| 0 <= q ==> !occurs_at(s, p, q),
    ensures
        spec_find_first(s, p) is None,
{
    assert(forall|q: int| #![auto] q < 0 ==> !occurs_at(s, p, q));
    lemma_find_from_none(s, p, 0);
}

/// `s` without leading whitespace.
pub open spec fn trim_front(s: Seq<char>) -> Seq<char>
    decreases s.len(),
{
    if s.len() > 0 && is_space_char(s[0]) {
        trim_front(s.drop_first())
    } else {
        s
    }
}

/// `s` without trailing whitespace.
pub open spec fn trim_back(s: Seq<char>) -> Seq<char>
    decreases s.len(),
{
    if s.len() > 0 && is_space_char(s[s.len() - 1]) {
        trim_back(s.drop_last())
    } else {
        s
    }
}

/// `s` without leading or trailing whitespace.
pub open spec fn spec_trim(s: Seq<char>) -> Seq<char> {
    trim_back(trim_front(s))
}

pub proof fn lemma_trim_front_is_subrange(s: Seq<char>, i: int)
    requires
        0 <= i <= s.len(),
        forall|j: int| 0 <= j < i ==> is_space_char(s[j]),
        i == s.len() || !is_space_char(s[i]),
    ensures
        trim_front(s) == s.subrange(i, s.len() as int),
    decreases i,
{
    if i == 0 {
        assert(trim_front(s) == s.subrange(0, s.len() as int)) by {
            assert(s.subrange(0, s.len() as int) =~= s);
            if s.len() > 0 && is_space_char(s[0]) {
                assert(!is_space_char(s[i]));
            }
        }
    } else {
        let t = s.drop_first();
        assert(trim_front(s) == trim_front(t));
        assert(forall|j: int| 0 <= j < i - 1 ==> t[j] == s[j + 1] && is_space_char(t[j]));
        lemma_trim_front_is_subrange(t, i - 1);
        assert(t.subrange(i - 1, t.len() as int) =~= s.subrange(i, s.len() as int));
    }
}

pub proof fn lemma_trim_back_is_subrange(s: Seq<char>, i: int)
    requires
        0 <= i <= s.len(),
        forall|j: int| i <= j < s.len() ==> is_space_char(s[j]),
        i == 0 || !is_space_char(s[i - 1]),
    ensures
        trim_back(s) == s.subrange(0, i),
    decreases s.len() - i,
{
    if i == s.len() {
        assert(s.subrange(0, i) =~= s);
    } else {
        let t = s.drop_last();
        assert(is_space_char(s[s.len() - 1]));
        assert(trim_back(s) == trim_back(t));
        lemma_trim_back_is_subrange(t, i);
        assert(t.subrange(0, i) =~= s.subrange(0, i));
    }
}

/// Trimming changes nothing when the ends are not whitespace.
pub proof fn lemma_trim_id(s: Seq<char>)
    requires
        s.len() == 0 || (!is_space_char(s[0]) && !is_space_char(s[s.len() - 1])),
    ensures
        spec_trim(s) == s,
{
    lemma_trim_front_is_subrange(s, 0);
    assert(s.subrange(0, s.len() as int) =~= s);
    lemma_trim_back_is_subrange(s, s.len() as int);
}

/// Strip leading and trailing whitespace.
pub fn str_trim<'a>(s: &'a str) -> (r: &'a str)
    ensures
        r@ == spec_trim(s@),
{
    let n = s.unicode_len();
    let mut lo: usize = 0;
    while lo < n && is_space(s.get_char(lo))
        invariant
            n == s@.len(),
            lo <= n,
            forall|j: int| 0 <= j < lo ==> is_space_char(s@[j]),
        decreases n - lo,
    {
        lo += 1;
    }
    proof {
        lemma_trim_front_is_subrange(s@, lo as int);
    }
    let mut hi: usize = n;
    while hi > lo && is_space(s.get_char(hi - 1))
        invariant
            n == s@.len(),
            lo <= hi <= n,
            forall|j: int| 0 <= j < lo ==> is_space_char(s@[j]),
            forall|j: int| hi <= j < n ==> is_space_char(s@[j]),
        decreases hi,
    {
        hi -= 1;
    }
    let r = s.substring_char(lo, hi);
    proof {
        let f = trim_front(s@);
        assert(f == s@.subrange(lo as int, n as int));
        assert(forall|j: int| hi - lo <= j < f.len() ==> is_space_char(#[trigger] f[j]));
        if hi > lo {
            assert(f[hi - lo - 1] == s@[hi - 1]);
        }
        lemma_trim_back_is_subrange(f, hi - lo);
        assert(f.subrange(0, hi - lo) =~= s@.subrange(lo as int, hi as int));
    }
    r
}

/// Spec images of a string list.
pub open spec fn seqs_of(v: Seq<String>) -> Seq<Seq<char>> {
    v.map_values(|x: String| x@)
}

proof fn lemma_seqs_push(v: Seq<String>, x: String)
    ensures
        seqs_of(v.push(x)) == seqs_of(v).push(x@),
{
    assert(seqs_of(v.push(x)) =~= seqs_of(v).push(x@));
}

/// The scan behind [`spec_split_ws`]: `start..i` is the pending word.
pub open spec fn split_ws_rec(s: Seq<char>, start: int, i: int, acc: Seq<Seq<char>>) -> Seq<
    Seq<char>,
>
    recommends
        0 <= start <= i <= s.len(),
    decreases s.len() - i,
{
    if i < 0 || i >= s.len() {
        if start < s.len() {
            acc.push(s.subrange(start, s.len() as int))
        } else {
            acc
        }
    } else if is_space_char(s[i]) {
        if start < i {
            split_ws_rec(s, i + 1, i + 1, acc.push(s.subrange(start, i)))
        } else {
            split_ws_rec(s, i + 1, i + 1, acc)
        }
    } else {
        split_ws_rec(s, start, i + 1, acc)
    }
}

/// The whitespace-separated words of `s`, in order, without empties.
pub open spec fn spec_split_ws(s: Seq<char>) -> Seq<Seq<char>> {
    split_ws_rec(s, 0, 0, Seq::empty())
}

/// Split into whitespace-separated words.
pub fn split_ws(s: &str) -> (r: Vec<String>)
    ensures
        seqs_of(r@) == spec_split_ws(s@),
{
    let n = s.unicode_len();
    let mut words: Vec<String> = Vec::new();
    let mut start: usize = 0;
    let mut i: usize = 0;
    proof {
        assert(seqs_of(words@) =~= Seq::<Seq<char>>::empty());
    }
    while i < n
        invariant
            n == s@.len(),
            start <= i <= n,
            split_ws_rec(s@, start as int, i as int, seqs_of(words@)) == spec_split_ws(s@),
        decreases n - i,
    {
        let c = s.get_char(i);
        if is_space(c) {
            if start < i {
                let w = s.substring_char(start, i).to_owned();
                proof {
                    lemma_seqs_push(words@, w);
                }
                words.push(w);
            }
            start = i + 1;
            i = i + 1;
        } else {
            i = i + 1;
        }
    }
    if start < n {
        let w = s.substring_char(start, n).to_owned();
        proof {
            lemma_seqs_push(words@, w);
        }
        words.push(w);
    }
    words
}

/// The scan behind [`spec_split_on`]: pieces split at `sep`, kept even when
/// empty.
pub open spec fn split_on_rec(s: Seq<char>, sep: char, start: int, i: int, acc: Seq<Seq<char>>) -> Seq<
    Seq<char>,
>
    recommends
        0 <= start <= i <= s.len(),
    decreases s.len() - i,
{
    if i < 0 || i >= s.len() {
        acc.push(s.subrange(start, s.len() as int))
    } else if s[i] == sep {
        split_on_rec(s, sep, i + 1, i + 1, acc.push(s.subrange(start, i)))
    } else {
        split_on_rec(s, sep, start, i + 1, acc)
    }
}

/// The pieces of `s` between occurrences of `sep`, kept even when empty;
/// a separator-free `s` is one piece.
pub open spec fn spec_split_on(s: Seq<char>, sep: char) -> Seq<Seq<char>> {
    split_on_rec(s, sep, 0, 0, Seq::empty())
}

/// Split on a separator character, keeping empty pieces.
pub fn split_on(s: &str, sep: char) -> (r: Vec<String>)
    ensures
        seqs_of(r@) == spec_split_on(s@, sep),
{
    let n = s.unicode_len();
    let mut pieces: Vec<String> = Vec::new();
    let mut start: usize = 0;
    let mut i: usize = 0;
    proof {
        assert(seqs_of(pieces@) =~= Seq::<Seq<char>>::empty());
    }
    while i < n
        invariant
            n == s@.len(),
            start <= i <= n,
            split_on_rec(s@, sep, start as int, i as int, seqs_of(pieces@)) == spec_split_on(
                s@,
                sep,
            ),
        decreases n - i,
    {
        let c = s.get_char(i);
        if c == sep {
            let w = s.substring_char(start, i).to_owned();
            proof {
                lemma_seqs_push(pieces@, w);
            }
            pieces.push(w);
            start = i + 1;
            i = i + 1;
        } else {
            i = i + 1;
        }
    }
    let w = s.substring_char(start, n).to_owned();
    proof {
        lemma_seqs_push(pieces@, w);
    }
    pieces.push(w);
    pieces
}

} // verus!
