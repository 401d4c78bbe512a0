use vstd::prelude::*;

verus! {

/// Relies on `str::chars` and `collect`: the characters of `s`, in order.
#[verifier::external_body]
pub(crate) fn chars_of(s: &str) -> (r: Vec<char>)
    ensures
        r@ == s@,
{
    s.chars().collect()
}

/// Relies on `FromIterator<&char>` for `String`: the string made of the characters of `v`.
#[verifier::external_body]
pub(crate) fn string_of(v: &[char]) -> (r: String)
    ensures
        r@ == v@,
{
    v.iter().collect()
}

/// `pat` occurs in `s` starting at index `i`.
pub open spec fn occurs_at(s: Seq<char>, pat: Seq<char>, i: int) -> bool {
    0 <= i && i + pat.len() <= s.len() && s.subrange(i, i + pat.len()) == pat
}

/// `i` is the first index at which `pat` occurs in `s`.
pub open spec fn is_first_at(s: Seq<char>, pat: Seq<char>, i: int) -> bool {
    occurs_at(s, pat, i) && forall|j: int| 0 <= j < i ==> !#[trigger] occurs_at(s, pat, j)
}

/// The index of the first occurrence of `pat` in `s`, if any.
pub open spec fn find_spec(s: Seq<char>, pat: Seq<char>) -> Option<int> {
    if exists|i: int| is_first_at(s, pat, i) {
        Some(choose|i: int| is_first_at(s, pat, i))
    } else {
        None
    }
}

/// `pat` occurs somewhere in `s`.
pub open spec fn contains_spec(s: Seq<char>, pat: Seq<char>) -> bool {
    exists|i: int| occurs_at(s, pat, i)
}

proof fn lemma_first_unique(s: Seq<char>, pat: Seq<char>, i: int, k: int)
    requires
        is_first_at(s, pat, i),
        is_first_at(s, pat, k),
    ensures
        i == k,
{
    if i < k {
        assert(!occurs_at(s, pat, i));
    } else if k < i {
        assert(!occurs_at(s, pat, k));
    }
}

/// Where `pat` occurs somewhere in `s`, it has a first occurrence.
pub proof fn lemma_first_exists(s: Seq<char>, pat: Seq<char>, i: int)
    requires
        occurs_at(s, pat, i),
    ensures
        exists|j: int| is_first_at(s, pat, j),
    decreases i,
{
    if exists|j: int| 0 <= j < i && occurs_at(s, pat, j) {
        let j = choose|j: int| 0 <= j < i && occurs_at(s, pat, j);
        lemma_first_exists(s, pat, j);
    } else {
        assert(is_first_at(s, pat, i));
    }
}

/// The first occurrence is what `find_spec` gives.
pub proof fn lemma_find_is(s: Seq<char>, pat: Seq<char>, i: int)
    requires
        is_first_at(s, pat, i),
    ensures
        find_spec(s, pat) == Some(i),
{
    let k = choose|k: int| is_first_at(s, pat, k);
    lemma_first_unique(s, pat, i, k);
}

/// Where `find_spec` finds nothing, `pat` occurs nowhere in `s`.
pub proof fn lemma_find_none(s: Seq<char>, pat: Seq<char>)
    requires
        find_spec(s, pat) is None,
    ensures
        forall|i: int| !#[trigger] occurs_at(s, pat, i),
{
    assert forall|i: int| !#[trigger] occurs_at(s, pat, i) by {
        if occurs_at(s, pat, i) {
            lemma_first_exists(s, pat, i);
        }
    }
}

/// Nothing is found in the empty sequence but the empty pattern.
pub proof fn lemma_find_none_empty()
    ensures
        find_spec(Seq::<char>::empty(), seq!['\n']) is None,
{
    if exists|i: int| is_first_at(Seq::<char>::empty(), seq!['\n'], i) {
        let i = choose|i: int| is_first_at(Seq::<char>::empty(), seq!['\n'], i);
        assert(occurs_at(Seq::<char>::empty(), seq!['\n'], i));
    }
}

/// A one-character pattern occurs exactly where that character stands.
pub proof fn lemma_occurs_char(s: Seq<char>, c: char, i: int)
    ensures
        occurs_at(s, seq![c], i) == (0 <= i < s.len() && s[i] == c),
{
    if 0 <= i < s.len() && s[i] == c {
        assert(s.subrange(i, i + 1) =~= seq![c]);
    }
    if occurs_at(s, seq![c], i) {
        assert(s.subrange(i, i + 1)[0] == c);
    }
}

/// Whether `pat` occurs in `s` at index `i`.
pub fn matches_at(s: &[char], pat: &[char], i: usize) -> (r: bool)
    ensures
        r == occurs_at(s@, pat@, i as int),
{
    if pat.len() > s.len() || i > s.len() - pat.len() {
        return false;
    }
    let mut k: usize = 0;
    while k < pat.len()
        invariant
            i + pat.len() <= s.len(),
            k <= pat.len(),
            forall|m: int| 0 <= m < k ==> s@[i + m] == pat@[m],
        decreases pat.len() - k,
    {
        if s[i + k] != pat[k] {
            assert(s@.subrange(i as int, i + pat.len())[k as int] != pat@[k as int]);
            return false;
        }
        k = k + 1;
    }
    assert(s@.subrange(i as int, i + pat.len()) =~= pat@);
    true
}

/// The first index at or after `from` at which `pat` occurs in `s`.
pub fn find_from(s: &[char], pat: &[char], from: usize) -> (r: Option<usize>)
    requires
        from <= s.len(),
    ensures
        r matches Some(i) ==> from <= i && occurs_at(s@, pat@, i as int) && forall|j: int|
            from <= j < i ==> !#[trigger] occurs_at(s@, pat@, j),
        r is None ==> forall|j: int| from <= j ==> !#[trigger] occurs_at(s@, pat@, j),
{
    let mut i: usize = from;
    loop
        invariant
            from <= i <= s.len(),
            forall|j: int| from <= j < i ==> !#[trigger] occurs_at(s@, pat@, j),
        decreases s.len() - i,
    {
        if matches_at(s, pat, i) {
            return Some(i);
        }
        if i == s.len() {
            return None;
        }
        i = i + 1;
    }
}

/// The index of the first occurrence of `pat` in `s`.
pub fn find(s: &[char], pat: &[char]) -> (r: Option<usize>)
    ensures
        r matches Some(i) ==> find_spec(s@, pat@) == Some(i as int) && occurs_at(
            s@,
            pat@,
            i as int,
        ),
        r is None ==> find_spec(s@, pat@) is None,
{
    let r = find_from(s, pat, 0);
    proof {
        match r {
            Some(i) => {
                assert(is_first_at(s@, pat@, i as int));
                let k = choose|k: int| is_first_at(s@, pat@, k);
                lemma_first_unique(s@, pat@, i as int, k);
            },
            None => {
                assert forall|k: int| !is_first_at(s@, pat@, k) by {
                    if 0 <= k {
                        assert(!occurs_at(s@, pat@, k));
                    }
                }
            },
        }
    }
    r
}

/// Whether `pat` occurs anywhere in `s`.
pub fn contains(s: &[char], pat: &[char]) -> (r: bool)
    ensures
        r == contains_spec(s@, pat@),
{
    match find_from(s, pat, 0) {
        Some(_) => true,
        None => {
            assert forall|k: int| !occurs_at(s@, pat@, k) by {
                if 0 <= k {
                    assert(!occurs_at(s@, pat@, k));
                }
            }
            false
        },
    }
}

/// The copy of `s[from..to]`.
pub fn slice_to_vec(s: &[char], from: usize, to: usize) -> (r: Vec<char>)
    requires
        from <= to <= s.len(),
    ensures
        r@ == s@.subrange(from as int, to as int),
{
    let mut r: Vec<char> = Vec::new();
    let mut i: usize = from;
    while i < to
        invariant
            from <= i <= to <= s.len(),
            r@ == s@.subrange(from as int, i as int),
        decreases to - i,
    {
        r.push(s[i]);
        i = i + 1;
        assert(r@ =~= s@.subrange(from as int, i as int));
    }
    r
}

/// Appends the characters of `b` to `a`.
pub fn append_chars(a: &mut Vec<char>, b: &[char])
    ensures
        final(a)@ == old(a)@ + b@,
{
    let ghost a0 = a@;
    let mut i: usize = 0;
    while i < b.len()
        invariant
            i <= b.len(),
            a@ == a0 + b@.subrange(0, i as int),
        decreases b.len() - i,
    {
        a.push(b[i]);
        i = i + 1;
        assert(a@ =~= a0 + b@.subrange(0, i as int));
    }
    assert(b@.subrange(0, b.len() as int) =~= b@);
}

/// White space in the sense of Unicode's `White_Space` property.
pub open spec fn is_white_space(c: char) -> bool {
    ('\u{9}' <= c && c <= '\u{d}') || c == ' ' || c == '\u{85}' || c == '\u{a0}' || c == '\u{1680}'
        || ('\u{2000}' <= c && c <= '\u{200a}') || c == '\u{2028}' || c == '\u{2029}' || c
        == '\u{202f}' || c == '\u{205f}' || c == '\u{3000}'
}

pub fn white_space(c: char) -> (r: bool)
    ensures
        r == is_white_space(c),
{
    ('\u{9}' <= c && c <= '\u{d}') || c == ' ' || c == '\u{85}' || c == '\u{a0}' || c == '\u{1680}'
        || ('\u{2000}' <= c && c <= '\u{200a}') || c == '\u{2028}' || c == '\u{2029}' || c
        == '\u{202f}' || c == '\u{205f}' || c == '\u{3000}'
}

/// `s` with white space removed from both ends, given as the bounds `(lo, hi)` of what stays.
pub open spec fn is_trim_bounds(s: Seq<char>, lo: int, hi: int) -> bool {
    &&& 0 <= lo <= hi <= s.len()
    &&& forall|k: int| 0 <= k < lo ==> is_white_space(#[trigger] s[k])
    &&& forall|k: int| hi <= k < s.len() ==> is_white_space(#[trigger] s[k])
    &&& lo < hi ==> !is_white_space(s[lo]) && !is_white_space(s[hi - 1])
}

/// `s` with leading and trailing white space removed.
pub open spec fn trim_spec(s: Seq<char>) -> Seq<char> {
    let (lo, hi) = choose|lo: int, hi: int| is_trim_bounds(s, lo, hi);
    s.subrange(lo, hi)
}

proof fn lemma_trim_bounds_unique(s: Seq<char>, lo: int, hi: int, lo2: int, hi2: int)
    requires
        is_trim_bounds(s, lo, hi),
        is_trim_bounds(s, lo2, hi2),
    ensures
        s.subrange(lo, hi) == s.subrange(lo2, hi2),
{
    if lo < hi {
        if lo2 < hi2 {
            assert(lo == lo2 && hi == hi2) by {
                if lo < lo2 {
                    assert(is_white_space(s[lo]));
                }
                if lo2 < lo {
                    assert(is_white_space(s[lo2]));
                }
                if hi < hi2 {
                    assert(is_white_space(s[hi2 - 1]));
                }
                if hi2 < hi {
                    assert(is_white_space(s[hi - 1]));
                }
            }
        } else {
            assert(is_white_space(s[lo])) by {
                if lo < lo2 {
                } else {
                    assert(hi2 <= lo);
                }
            }
        }
    } else if lo2 < hi2 {
        assert(is_white_space(s[lo2])) by {
            if lo2 < lo {
            } else {
                assert(hi <= lo2);
            }
        }
    } else {
        assert(s.subrange(lo, hi) =~= s.subrange(lo2, hi2));
    }
}

/// The characters of `s` with leading and trailing white space removed.
pub fn trim(s: &[char]) -> (r: Vec<char>)
    ensures
        r@ == trim_spec(s@),
{
    let mut lo: usize = 0;
    while lo < s.len() && white_space(s[lo])
        invariant
            lo <= s.len(),
            forall|k: int| 0 <= k < lo ==> is_white_space(#[trigger] s@[k]),
        decreases s.len() - lo,
    {
        lo = lo + 1;
    }
    let mut hi: usize = s.len();
    while hi > lo && white_space(s[hi - 1])
        invariant
            lo <= hi <= s.len(),
            forall|k: int| hi <= k < s.len() ==> is_white_space(#[trigger] s@[k]),
        decreases hi,
    {
        hi = hi - 1;
    }
    proof {
        assert(is_trim_bounds(s@, lo as int, hi as int));
        let (lo2, hi2) = choose|lo2: int, hi2: int| is_trim_bounds(s@, lo2, hi2);
        lemma_trim_bounds_unique(s@, lo as int, hi as int, lo2, hi2);
    }
    slice_to_vec(s, lo, hi)
}

} // verus!
