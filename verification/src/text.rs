//! Character-level text utilities.
//!
//! Commit messages, tag names, tag-message templates and command output
//! parsing all work on `Vec<char>` values whose mathematical model is
//! `Seq<char>`, so every transformation here carries an exact contract.

use vstd::prelude::*;

verus! {

/// Collect the characters of a string slice.
pub fn str_chars(s: &str) -> (v: Vec<char>)
    ensures
        v@ == s@,
{
    let mut v: Vec<char> = Vec::new();
    for c in it: s.chars()
        invariant
            it.seq() == s@,
            v@ == it.seq().take(it.index()),
    {
        v.push(c);
    }
    v
}

/// Relies on `String`'s `FromIterator<char>` implementation: collecting the
/// characters of `v` yields the string with exactly those characters.
#[verifier::external_body]
pub(crate) fn chars_string(v: &Vec<char>) -> (s: String)
    ensures
        s@ == v@,
{
    v.iter().collect()
}

/// Append every character of `src` to `out`.
pub fn append_chars(out: &mut Vec<char>, src: &Vec<char>)
    ensures
        final(out)@ == old(out)@ + src@,
{
    let mut i: usize = 0;
    while i < src.len()
        invariant
            i <= src.len(),
            out@ == old(out)@ + src@.take(i as int),
        decreases src.len() - i,
    {
        out.push(src[i]);
        i = i + 1;
        assert(src@.take(i as int) =~= src@.take(i as int - 1).push(src@[i as int - 1]));
    }
    assert(src@.take(src@.len() as int) =~= src@);
}

/// Append every character of the string slice `src` to `out`.
pub fn append_str(out: &mut Vec<char>, src: &str)
    ensures
        final(out)@ == old(out)@ + src@,
{
    let v = str_chars(src);
    append_chars(out, &v);
}

/// Character-for-character equality.
pub fn chars_eq(a: &Vec<char>, b: &Vec<char>) -> (r: bool)
    ensures
        r == (a@ == b@),
{
    if a.len() != b.len() {
        return false;
    }
    let mut i: usize = 0;
    while i < a.len()
        invariant
            i <= a.len(),
            a@.len() == b@.len(),
            forall|j: int| 0 <= j < i ==> a@[j] == b@[j],
        decreases a.len() - i,
    {
        if a[i] != b[i] {
            return false;
        }
        i = i + 1;
    }
    proof {
        assert(a@ =~= b@);
    }
    true
}

/// Equality of two string slices, decided character by character.
pub fn str_eq(a: &str, b: &str) -> (r: bool)
    ensures
        r == (a@ == b@),
{
    let va = str_chars(a);
    let vb = str_chars(b);
    chars_eq(&va, &vb)
}

/// `needle` occurs as a contiguous run inside `hay`.
pub open spec fn seq_contains(hay: Seq<char>, needle: Seq<char>) -> bool {
    exists|i: int|
        0 <= i && i + needle.len() <= hay.len() && #[trigger] hay.subrange(
            i,
            i + needle.len() as int,
        ) == needle
}

/// The run of `hay` starting at `at` equals `needle`.
fn matches_at(hay: &Vec<char>, needle: &Vec<char>, at: usize) -> (r: bool)
    requires
        at + needle@.len() <= hay@.len(),
    ensures
        r == (hay@.subrange(at as int, at + needle@.len() as int) == needle@),
{
    let hay_len = hay.len();
    let mut k: usize = 0;
    while k < needle.len()
        invariant
            k <= needle@.len(),
            at + needle@.len() <= hay@.len(),
            hay_len == hay@.len(),
            forall|j: int| 0 <= j < k ==> hay@[at + j] == needle@[j],
        decreases needle.len() - k,
    {
        assert(at + k < hay@.len());
        if hay[at + k] != needle[k] {
            assert(hay@.subrange(at as int, at + needle@.len() as int)[k as int] != needle@[k as int]);
            return false;
        }
        k = k + 1;
    }
    proof {
        assert(hay@.subrange(at as int, at + needle@.len() as int) =~= needle@);
    }
    true
}

/// Substring search.
pub fn contains_chars(hay: &Vec<char>, needle: &Vec<char>) -> (r: bool)
    ensures
        r == seq_contains(hay@, needle@),
{
    if needle.len() > hay.len() {
        return false;
    }
    if needle.len() == 0 {
        assert(seq_contains(hay@, needle@)) by {
            assert(hay@.subrange(0, 0 + needle@.len() as int) =~= needle@);
        }
        return true;
    }
    let mut i: usize = 0;
    while i <= hay.len() - needle.len()
        invariant
            1 <= needle@.len() <= hay@.len(),
            i <= hay@.len() - needle@.len() + 1,
            forall|j: int|
                0 <= j < i ==> #[trigger] hay@.subrange(j, j + needle@.len() as int) != needle@,
        decreases hay.len() - i,
    {
        if matches_at(hay, needle, i) {
            return true;
        }
        i = i + 1;
    }
    false
}

/// Substring search on string slices.
pub fn str_contains(hay: &str, needle: &str) -> (r: bool)
    ensures
        r == seq_contains(hay@, needle@),
{
    let vh = str_chars(hay);
    let vn = str_chars(needle);
    contains_chars(&vh, &vn)
}

/// Replace every non-overlapping occurrence of `pat` in `s` by `rep`,
/// scanning left to right. An empty pattern leaves `s` unchanged.
pub open spec fn spec_replace(s: Seq<char>, pat: Seq<char>, rep: Seq<char>) -> Seq<char>
    decreases s.len(),
{
    if pat.len() == 0 || s.len() < pat.len() {
        s
    } else if s.subrange(0, pat.len() as int) == pat {
        rep + spec_replace(s.subrange(pat.len() as int, s.len() as int), pat, rep)
    } else {
        s.subrange(0, 1) + spec_replace(s.subrange(1, s.len() as int), pat, rep)
    }
}

/// Copy of a character vector.
pub fn copy_chars(s: &Vec<char>) -> (r: Vec<char>)
    ensures
        r@ == s@,
{
    let mut r: Vec<char> = Vec::new();
    append_chars(&mut r, s);
    r
}

/// Replacement of every occurrence of `pat` by `rep`.
pub fn replace_chars(s: &Vec<char>, pat: &Vec<char>, rep: &Vec<char>) -> (r: Vec<char>)
    ensures
        r@ == spec_replace(s@, pat@, rep@),
{
    if pat.len() == 0 {
        return copy_chars(s);
    }
    let s_len = s.len();
    let mut out: Vec<char> = Vec::new();
    let mut i: usize = 0;
    proof {
        assert(s@.subrange(0, s@.len() as int) =~= s@);
        assert(Seq::<char>::empty() + spec_replace(s@, pat@, rep@) =~= spec_replace(
            s@,
            pat@,
            rep@,
        ));
    }
    while i < s_len
        invariant
            1 <= pat@.len(),
            i <= s@.len(),
            s_len == s@.len(),
            spec_replace(s@, pat@, rep@) == out@ + spec_replace(
                s@.subrange(i as int, s@.len() as int),
                pat@,
                rep@,
            ),
        decreases s_len - i,
    {
        let ghost rest = s@.subrange(i as int, s@.len() as int);
        if s_len - i >= pat.len() && matches_at(s, pat, i) {
            append_chars(&mut out, rep);
            proof {
                assert(rest.subrange(0, pat@.len() as int) =~= s@.subrange(
                    i as int,
                    i + pat@.len() as int,
                ));
                assert(rest.subrange(pat@.len() as int, rest.len() as int) =~= s@.subrange(
                    i + pat@.len(),
                    s@.len() as int,
                ));
            }
            i = i + pat.len();
        } else {
            out.push(s[i]);
            proof {
                if rest.len() >= pat@.len() {
                    assert(rest.subrange(0, pat@.len() as int) =~= s@.subrange(
                        i as int,
                        i + pat@.len() as int,
                    ));
                }
                assert(rest.subrange(1, rest.len() as int) =~= s@.subrange(
                    i + 1,
                    s@.len() as int,
                ));
                assert(rest.subrange(0, 1) =~= seq![s@[i as int]]);
            }
            i = i + 1;
        }
    }
    proof {
        assert(s@.subrange(s@.len() as int, s@.len() as int) =~= Seq::<char>::empty());
        assert(out@ + Seq::<char>::empty() =~= out@);
    }
    out
}

/// Index of the first occurrence of `c` in `s`, or `-1` when absent.
pub open spec fn spec_idx_of(s: Seq<char>, c: char) -> int
    decreases s.len(),
{
    if s.len() == 0 {
        -1
    } else if s[0] == c {
        0
    } else {
        let r = spec_idx_of(s.subrange(1, s.len() as int), c);
        if r < 0 {
            -1
        } else {
            r + 1
        }
    }
}

/// `spec_idx_of` names the least index holding `c`, when one exists.
pub proof fn lemma_idx_of(s: Seq<char>, c: char)
    ensures
        spec_idx_of(s, c) < 0 ==> forall|t: int| 0 <= t < s.len() ==> s[t] != c,
        spec_idx_of(s, c) >= 0 ==> {
            let j = spec_idx_of(s, c);
            &&& 0 <= j < s.len()
            &&& s[j] == c
            &&& forall|t: int| 0 <= t < j ==> s[t] != c
        },
    decreases s.len(),
{
    if s.len() > 0 && s[0] != c {
        let sub = s.subrange(1, s.len() as int);
        lemma_idx_of(sub, c);
        if spec_idx_of(s, c) < 0 {
            assert forall|t: int| 0 <= t < s.len() implies s[t] != c by {
                if t >= 1 {
                    assert(s[t] == sub[t - 1]);
                }
            }
        } else {
            let j = spec_idx_of(s, c);
            assert(s[j] == sub[j - 1]);
            assert forall|t: int| 0 <= t < j implies s[t] != c by {
                if t >= 1 {
                    assert(s[t] == sub[t - 1]);
                }
            }
        }
    }
}

/// First index at or after `from` holding `c`.
pub fn find_char_from(v: &Vec<char>, c: char, from: usize) -> (r: Option<usize>)
    requires
        from <= v@.len(),
    ensures
        match r {
            Some(j) => from <= j < v@.len() && v@[j as int] == c && (forall|t: int|
                from <= t < j ==> v@[t] != c),
            None => forall|t: int| from <= t < v@.len() ==> v@[t] != c,
        },
{
    let mut i: usize = from;
    while i < v.len()
        invariant
            from <= i <= v@.len(),
            forall|t: int| from <= t < i ==> v@[t] != c,
        decreases v.len() - i,
    {
        if v[i] == c {
            return Some(i);
        }
        i = i + 1;
    }
    None
}

/// Index of the first occurrence of the two-character run `a b`, or `-1`.
pub open spec fn spec_idx_of2(s: Seq<char>, a: char, b: char) -> int
    decreases s.len(),
{
    if s.len() < 2 {
        -1
    } else if s[0] == a && s[1] == b {
        0
    } else {
        let r = spec_idx_of2(s.subrange(1, s.len() as int), a, b);
        if r < 0 {
            -1
        } else {
            r + 1
        }
    }
}

/// `spec_idx_of2` names the least index starting the run `a b`, when one exists.
pub proof fn lemma_idx_of2(s: Seq<char>, a: char, b: char)
    ensures
        spec_idx_of2(s, a, b) < 0 ==> forall|t: int|
            0 <= t && t + 2 <= s.len() ==> !(#[trigger] s[t] == a && s[t + 1] == b),
        spec_idx_of2(s, a, b) >= 0 ==> {
            let j = spec_idx_of2(s, a, b);
            &&& 0 <= j && j + 2 <= s.len()
            &&& s[j] == a
            &&& s[j + 1] == b
            &&& forall|t: int| 0 <= t < j ==> !(#[trigger] s[t] == a && s[t + 1] == b)
        },
    decreases s.len(),
{
    if s.len() >= 2 && !(s[0] == a && s[1] == b) {
        let sub = s.subrange(1, s.len() as int);
        lemma_idx_of2(sub, a, b);
        if spec_idx_of2(s, a, b) < 0 {
            assert forall|t: int| 0 <= t && t + 2 <= s.len() implies !(#[trigger] s[t] == a && s[t
                + 1] == b) by {
                if t >= 1 {
                    assert(s[t] == sub[t - 1] && s[t + 1] == sub[t]);
                }
            }
        } else {
            let j = spec_idx_of2(s, a, b);
            assert(s[j] == sub[j - 1] && s[j + 1] == sub[j]);
            assert forall|t: int| 0 <= t < j implies !(#[trigger] s[t] == a && s[t + 1] == b) by {
                if t >= 1 {
                    assert(s[t] == sub[t - 1] && s[t + 1] == sub[t]);
                }
            }
        }
    }
}

/// First index at or after `from` starting the run `a b`.
pub fn find_pair_from(v: &Vec<char>, a: char, b: char, from: usize) -> (r: Option<usize>)
    requires
        from <= v@.len(),
    ensures
        match r {
            Some(j) => from <= j && j + 2 <= v@.len() && v@[j as int] == a && v@[j + 1] == b && (
            forall|t: int| from <= t < j ==> !(#[trigger] v@[t] == a && v@[t + 1] == b)),
            None => forall|t: int|
                from <= t && t + 2 <= v@.len() ==> !(#[trigger] v@[t] == a && v@[t + 1] == b),
        },
{
    if v.len() < 1 {
        return None;
    }
    let mut i: usize = from;
    while i < v.len() - 1
        invariant
            1 <= v@.len(),
            from <= i <= v@.len(),
            forall|t: int| from <= t < i ==> !(#[trigger] v@[t] == a && v@[t + 1] == b),
        decreases v.len() - i,
    {
        if v[i] == a && v[i + 1] == b {
            return Some(i);
        }
        i = i + 1;
    }
    None
}

/// Lexicographic order on character sequences, by character code, with a
/// prefix ordered before its extensions.
pub open spec fn lex_le(a: Seq<char>, b: Seq<char>) -> bool
    decreases a.len(),
{
    if a.len() == 0 {
        true
    } else if b.len() == 0 {
        false
    } else if a[0] < b[0] {
        true
    } else if b[0] < a[0] {
        false
    } else {
        lex_le(a.subrange(1, a.len() as int), b.subrange(1, b.len() as int))
    }
}

/// The lexicographic order is total.
pub proof fn lemma_lex_total(a: Seq<char>, b: Seq<char>)
    ensures
        lex_le(a, b) || lex_le(b, a),
    decreases a.len(),
{
    if a.len() > 0 && b.len() > 0 && a[0] == b[0] {
        lemma_lex_total(a.subrange(1, a.len() as int), b.subrange(1, b.len() as int));
    }
}

/// The lexicographic order is antisymmetric.
pub proof fn lemma_lex_antisym(a: Seq<char>, b: Seq<char>)
    requires
        lex_le(a, b),
        lex_le(b, a),
    ensures
        a == b,
    decreases a.len(),
{
    if a.len() > 0 && b.len() > 0 && a[0] == b[0] {
        lemma_lex_antisym(a.subrange(1, a.len() as int), b.subrange(1, b.len() as int));
        assert(a =~= seq![a[0]] + a.subrange(1, a.len() as int));
        assert(b =~= seq![b[0]] + b.subrange(1, b.len() as int));
    } else {
        assert(a =~= b);
    }
}

/// The lexicographic order is transitive.
pub proof fn lemma_lex_trans(a: Seq<char>, b: Seq<char>, c: Seq<char>)
    requires
        lex_le(a, b),
        lex_le(b, c),
    ensures
        lex_le(a, c),
    decreases a.len(),
{
    if a.len() > 0 && b.len() > 0 && c.len() > 0 && a[0] == b[0] && b[0] == c[0] {
        lemma_lex_trans(
            a.subrange(1, a.len() as int),
            b.subrange(1, b.len() as int),
            c.subrange(1, c.len() as int),
        );
    }
}

/// Lexicographic comparison.
pub fn chars_le(a: &Vec<char>, b: &Vec<char>) -> (r: bool)
    ensures
        r == lex_le(a@, b@),
{
    let mut i: usize = 0;
    proof {
        assert(a@.subrange(0, a@.len() as int) =~= a@);
        assert(b@.subrange(0, b@.len() as int) =~= b@);
    }
    while i < a.len() && i < b.len()
        invariant
            i <= a@.len(),
            i <= b@.len(),
            lex_le(a@, b@) == lex_le(
                a@.subrange(i as int, a@.len() as int),
                b@.subrange(i as int, b@.len() as int),
            ),
        decreases a.len() - i,
    {
        let ghost ra = a@.subrange(i as int, a@.len() as int);
        let ghost rb = b@.subrange(i as int, b@.len() as int);
        if a[i] < b[i] {
            return true;
        }
        if b[i] < a[i] {
            return false;
        }
        proof {
            assert(ra.subrange(1, ra.len() as int) =~= a@.subrange(i + 1, a@.len() as int));
            assert(rb.subrange(1, rb.len() as int) =~= b@.subrange(i + 1, b@.len() as int));
        }
        i = i + 1;
    }
    i == a.len()
}

/// Lexicographic comparison of string slices.
pub fn str_le(a: &str, b: &str) -> (r: bool)
    ensures
        r == lex_le(a@, b@),
{
    let va = str_chars(a);
    let vb = str_chars(b);
    chars_le(&va, &vb)
}

/// `t` occurs in `s` as one full newline-delimited line.
pub open spec fn has_line(s: Seq<char>, t: Seq<char>) -> bool {
    exists|i: int|
        0 <= i && i + t.len() <= s.len() && #[trigger] s.subrange(i, i + t.len() as int) == t && (i
            == 0 || s[i - 1] == '\n') && (i + t.len() == s.len() || s[i + t.len() as int] == '\n')
}

/// Does `t` occur in `s` as one full line?
pub fn contains_line(s: &Vec<char>, t: &Vec<char>) -> (r: bool)
    ensures
        r == has_line(s@, t@),
{
    if t.len() > s.len() {
        return false;
    }
    let s_len = s.len();
    let last = s_len - t.len();
    let mut i: usize = 0;
    while i <= last
        invariant_except_break
            t@.len() <= s@.len(),
            s_len == s@.len(),
            last == s@.len() - t@.len(),
            i <= last,
            forall|j: int|
                0 <= j < i ==> !(#[trigger] s@.subrange(j, j + t@.len() as int) == t@ && (j == 0
                    || s@[j - 1] == '\n') && (j + t@.len() == s@.len() || s@[j + t@.len() as int]
                    == '\n')),
        ensures
            forall|j: int|
                0 <= j && j + t@.len() <= s@.len() ==> !(#[trigger] s@.subrange(
                    j,
                    j + t@.len() as int,
                ) == t@ && (j == 0 || s@[j - 1] == '\n') && (j + t@.len() == s@.len() || s@[j
                    + t@.len() as int] == '\n')),
        decreases last - i,
    {
        let boundary_before = i == 0 || s[i - 1] == '\n';
        let boundary_after = i + t.len() == s_len || s[i + t.len()] == '\n';
        if boundary_before && boundary_after && matches_at(s, t, i) {
            return true;
        }
        if i == last {
            break;
        }
        i = i + 1;
    }
    false
}

/// Copy of the run `[a, b)` of `v`.
pub fn sub_chars(v: &Vec<char>, a: usize, b: usize) -> (r: Vec<char>)
    requires
        a <= b <= v@.len(),
    ensures
        r@ == v@.subrange(a as int, b as int),
{
    let mut r: Vec<char> = Vec::new();
    let mut i: usize = a;
    while i < b
        invariant
            a <= i <= b <= v@.len(),
            r@ == v@.subrange(a as int, i as int),
        decreases b - i,
    {
        r.push(v[i]);
        proof {
            assert(v@.subrange(a as int, i + 1) =~= v@.subrange(a as int, i as int).push(
                v@[i as int],
            ));
        }
        i = i + 1;
    }
    r
}

/// The views of a list of strings.
pub open spec fn str_views(v: Seq<String>) -> Seq<Seq<char>> {
    Seq::new(v.len(), |i: int| v[i]@)
}

} // verus!
