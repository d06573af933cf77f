//! Small verified helpers over `&str` used throughout the crate: equality,
//! character search, substring search, trimming and ASCII lowercasing.
use vstd::prelude::*;

verus! {

/// True when two strings have the same characters.
pub fn str_eq(a: &str, b: &str) -> (r: bool)
    ensures
        r == (a@ == b@),
{
    let alen = a.unicode_len();
    let blen = b.unicode_len();
    if alen != blen {
        return false;
    }
    let mut i: usize = 0;
    while i < alen
        invariant
            i <= alen,
            alen == a@.len(),
            blen == b@.len(),
            alen == blen,
            forall|j: int| 0 <= j < i ==> a@[j] == b@[j],
        decreases alen - i,
    {
        if a.get_char(i) != b.get_char(i) {
            return false;
        }
        i += 1;
    }
    proof {
        assert(a@ =~= b@);
    }
    true
}

/// The index of the first occurrence of `c` in `s`, or -1 when absent.
pub open spec fn spec_find_char(s: Seq<char>, c: char) -> int
    decreases s.len(),
{
    if s.len() == 0 {
        -1
    } else if s[0] == c {
        0
    } else {
        let rest = spec_find_char(s.drop_first(), c);
        if rest < 0 {
            -1
        } else {
            rest + 1
        }
    }
}

/// What the first-occurrence index means, stated positionally.
pub proof fn lemma_find_char(s: Seq<char>, c: char)
    ensures
        spec_find_char(s, c) < 0 ==> forall|j: int| 0 <= j < s.len() ==> s[j] != c,
        spec_find_char(s, c) >= 0 ==> 0 <= spec_find_char(s, c) < s.len() && s[spec_find_char(
            s,
            c,
        )] == c && (forall|j: int| 0 <= j < spec_find_char(s, c) ==> s[j] != c),
    decreases s.len(),
{
    if s.len() == 0 {
    } else if s[0] == c {
    } else {
        lemma_find_char(s.drop_first(), c);
        let rest = spec_find_char(s.drop_first(), c);
        if rest < 0 {
            assert forall|j: int| 0 <= j < s.len() implies s[j] != c by {
                if j > 0 {
                    assert(s.drop_first()[j - 1] == s[j]);
                }
            }
        } else {
            assert(s.drop_first()[rest] == s[rest + 1]);
            assert forall|j: int| 0 <= j < rest + 1 implies s[j] != c by {
                if j > 0 {
                    assert(s.drop_first()[j - 1] == s[j]);
                }
            }
        }
    }
}

/// Finds the first occurrence of `c` in `s`.
pub fn find_char(s: &str, c: char) -> (r: Option<usize>)
    ensures
        match r {
            Some(i) => spec_find_char(s@, c) == i as int,
            None => spec_find_char(s@, c) < 0,
        },
{
    let len = s.unicode_len();
    let mut i: usize = 0;
    while i < len
        invariant
            i <= len,
            len == s@.len(),
            forall|j: int| 0 <= j < i ==> s@[j] != c,
        decreases len - i,
    {
        if s.get_char(i) == c {
            proof {
                lemma_find_char(s@, c);
            }
            return Some(i);
        }
        i += 1;
    }
    proof {
        lemma_find_char(s@, c);
    }
    None
}

pub open spec fn is_upper_char(c: char) -> bool {
    'A' <= c && c <= 'Z'
}

/// ASCII-case-insensitive character equality.
pub open spec fn eq_ci_char(a: char, b: char) -> bool {
    a == b || (is_upper_char(a) && a as u32 + 32 == b as u32) || (is_upper_char(b) && b as u32
        + 32 == a as u32)
}

/// ASCII-case-insensitive string equality.
pub open spec fn spec_eq_ci(a: Seq<char>, b: Seq<char>) -> bool {
    a.len() == b.len() && (forall|i: int| 0 <= i < a.len() ==> eq_ci_char(a[i], b[i]))
}

/// Compares two strings, ignoring ASCII case.
pub fn eq_ci(a: &str, b: &str) -> (r: bool)
    ensures
        r == spec_eq_ci(a@, b@),
{
    let alen: usize = a.unicode_len();
    let blen: usize = b.unicode_len();
    if alen != blen {
        return false;
    }
    let mut i: usize = 0;
    while i < alen
        invariant
            i <= alen,
            alen == a@.len(),
            blen == b@.len(),
            alen == blen,
            forall|j: int| 0 <= j < i ==> eq_ci_char(a@[j], b@[j]),
        decreases alen - i,
    {
        let ca = a.get_char(i);
        let cb = b.get_char(i);
        let same = ca == cb || (ca >= 'A' && ca <= 'Z' && (ca as u32) + 32 == (cb as u32)) || (cb
            >= 'A' && cb <= 'Z' && (cb as u32) + 32 == (ca as u32));
        if !same {
            return false;
        }
        i += 1;
    }
    true
}

pub open spec fn is_trim_char(c: char) -> bool {
    c == ' ' || c == '\t' || c == '\r' || c == '\n'
}

pub open spec fn trim_front(s: Seq<char>) -> Seq<char>
    decreases s.len(),
{
    if s.len() > 0 && is_trim_char(s[0]) {
        trim_front(s.drop_first())
    } else {
        s
    }
}

pub open spec fn trim_back(s: Seq<char>) -> Seq<char>
    decreases s.len(),
{
    if s.len() > 0 && is_trim_char(s.last()) {
        trim_back(s.drop_last())
    } else {
        s
    }
}

/// The string with leading and trailing whitespace removed.
pub open spec fn spec_trim(s: Seq<char>) -> Seq<char> {
    trim_back(trim_front(s))
}

proof fn lemma_trim_front_at(s: Seq<char>, k: int)
    requires
        0 <= k <= s.len(),
        forall|j: int| 0 <= j < k ==> is_trim_char(#[trigger] s[j]),
        k == s.len() || !is_trim_char(s[k]),
    ensures
        trim_front(s) == s.skip(k),
    decreases k,
{
    if k == 0 {
        assert(trim_front(s) =~= s.skip(0));
    } else {
        assert(is_trim_char(s[0]));
        assert forall|j: int| 0 <= j < k - 1 implies is_trim_char(#[trigger] s.drop_first()[j]) by {
            assert(s.drop_first()[j] == s[j + 1]);
        }
        if k < s.len() {
            assert(s.drop_first()[k - 1] == s[k]);
        }
        lemma_trim_front_at(s.drop_first(), k - 1);
        assert(s.drop_first().skip(k - 1) =~= s.skip(k));
    }
}

proof fn lemma_trim_back_at(s: Seq<char>, e: int)
    requires
        0 <= e <= s.len(),
        forall|j: int| e <= j < s.len() ==> is_trim_char(#[trigger] s[j]),
        e == 0 || !is_trim_char(s[e - 1]),
    ensures
        trim_back(s) == s.take(e),
    decreases s.len() - e,
{
    if e == s.len() {
        if s.len() > 0 {
            assert(trim_back(s) =~= s.take(e));
        } else {
            assert(trim_back(s) =~= s.take(0));
        }
    } else {
        assert(is_trim_char(s.last()));
        assert forall|j: int| e <= j < s.drop_last().len() implies is_trim_char(
            #[trigger] s.drop_last()[j],
        ) by {
            assert(s.drop_last()[j] == s[j]);
        }
        if e > 0 {
            assert(s.drop_last()[e - 1] == s[e - 1]);
        }
        lemma_trim_back_at(s.drop_last(), e);
        assert(s.drop_last().take(e) =~= s.take(e));
    }
}

fn is_trim(c: char) -> (r: bool)
    ensures
        r == is_trim_char(c),
{
    c == ' ' || c == '\t' || c == '\r' || c == '\n'
}

/// Removes leading and trailing whitespace.
pub fn trim(s: &str) -> (r: String)
    ensures
        r@ == spec_trim(s@),
{
    let len: usize = s.unicode_len();
    let mut start: usize = 0;
    while start < len && is_trim(s.get_char(start))
        invariant
            start <= len,
            len == s@.len(),
            forall|j: int| 0 <= j < start ==> is_trim_char(#[trigger] s@[j]),
        decreases len - start,
    {
        start += 1;
    }
    let mut end: usize = len;
    while end > start && is_trim(s.get_char(end - 1))
        invariant
            start <= end <= len,
            len == s@.len(),
            forall|j: int| 0 <= j < start ==> is_trim_char(#[trigger] s@[j]),
            forall|j: int| end <= j < len ==> is_trim_char(#[trigger] s@[j]),
        decreases end,
    {
        end -= 1;
    }
    let r = s.substring_char(start, end).to_owned();
    proof {
        lemma_trim_front_at(s@, start as int);
        let mid = s@.skip(start as int);
        assert forall|j: int| end - start <= j < mid.len() implies is_trim_char(
            #[trigger] mid[j],
        ) by {
            assert(mid[j] == s@[j + start]);
        }
        if end > start {
            assert(mid[end - start - 1] == s@[end - 1]);
        }
        lemma_trim_back_at(mid, end as int - start as int);
        assert(mid.take(end as int - start as int) =~= s@.subrange(start as int, end as int));
    }
    r
}

/// The index of the first occurrence of `pat` inside `s`, or -1 when it
/// does not occur.
pub open spec fn spec_find_sub(s: Seq<char>, pat: Seq<char>) -> int
    decreases s.len(),
{
    if pat.len() > s.len() {
        -1
    } else if s.take(pat.len() as int) == pat {
        0
    } else if s.len() == 0 {
        -1
    } else {
        let r0 = spec_find_sub(s.drop_first(), pat);
        if r0 < 0 {
            -1
        } else {
            r0 + 1
        }
    }
}

/// What the first-occurrence index of a substring means, positionally.
pub proof fn lemma_find_sub(s: Seq<char>, pat: Seq<char>)
    ensures
        spec_find_sub(s, pat) < 0 ==> forall|i: int|
            0 <= i <= s.len() - pat.len() ==> #[trigger] s.subrange(i, i + pat.len() as int)
                != pat,
        spec_find_sub(s, pat) >= 0 ==> spec_find_sub(s, pat) + pat.len() <= s.len()
            && s.subrange(spec_find_sub(s, pat), spec_find_sub(s, pat) + pat.len() as int) == pat
            && (forall|i: int|
            0 <= i < spec_find_sub(s, pat) ==> #[trigger] s.subrange(i, i + pat.len() as int)
                != pat),
    decreases s.len(),
{
    if pat.len() > s.len() {
    } else if s.take(pat.len() as int) == pat {
        assert(s.subrange(0, pat.len() as int) =~= s.take(pat.len() as int));
    } else if s.len() == 0 {
        assert(s.take(pat.len() as int) =~= Seq::<char>::empty());
        assert(pat =~= Seq::<char>::empty());
    } else {
        lemma_find_sub(s.drop_first(), pat);
        assert(s.subrange(0, pat.len() as int) =~= s.take(pat.len() as int));
        assert forall|i: int| 1 <= i <= s.len() - pat.len() implies #[trigger] s.subrange(
            i,
            i + pat.len() as int,
        ) == s.drop_first().subrange(i - 1, i - 1 + pat.len() as int) by {
            assert(s.subrange(i, i + pat.len() as int) =~= s.drop_first().subrange(
                i - 1,
                i - 1 + pat.len() as int,
            ));
        }
    }
}

/// Finds the first occurrence of `pat` inside `s`.
pub fn find_sub(s: &str, pat: &str) -> (r: Option<usize>)
    ensures
        match r {
            Some(k) => spec_find_sub(s@, pat@) == k as int,
            None => spec_find_sub(s@, pat@) < 0,
        },
{
    let slen: usize = s.unicode_len();
    let plen: usize = pat.unicode_len();
    if plen > slen {
        return None;
    }
    if plen == 0 {
        proof {
            assert(s@.take(0) =~= pat@);
        }
        return Some(0);
    }
    let mut i: usize = 0;
    while i <= slen - plen
        invariant
            1 <= plen <= slen,
            slen == s@.len(),
            plen == pat@.len(),
            i <= slen - plen + 1,
            forall|q: int|
                0 <= q < i ==> #[trigger] s@.subrange(q, q + pat@.len() as int) != pat@,
        decreases slen - plen - i + 1,
    {
        let mut j: usize = 0;
        let mut matched: bool = true;
        while j < plen
            invariant
                j <= plen,
                i + plen <= slen,
                slen == s@.len(),
                plen == pat@.len(),
                matched ==> (forall|q: int| 0 <= q < j ==> s@[i + q] == pat@[q]),
                !matched ==> s@.subrange(i as int, i as int + plen as int) != pat@,
            decreases plen - j,
        {
            if matched && s.get_char(i + j) != pat.get_char(j) {
                proof {
                    let sub = s@.subrange(i as int, i as int + plen as int);
                    assert(sub[j as int] == s@[i as int + j as int]);
                    assert(sub != pat@);
                }
                matched = false;
            }
            j += 1;
        }
        if matched {
            proof {
                assert(s@.subrange(i as int, i as int + plen as int) =~= pat@);
                lemma_find_sub(s@, pat@);
                let k = spec_find_sub(s@, pat@);
                assert(k >= 0);
                assert(k >= i);
                assert(k <= i);
            }
            return Some(i);
        }
        i += 1;
    }
    proof {
        lemma_find_sub(s@, pat@);
    }
    None
}

} // verus!
