//! Byte-sequence primitives shared by the directive parser, the redaction
//! engine and the tree synchronizer: substring search, slicing, equality,
//! whitespace tests and trimming, all specified over `Seq<u8>`.

use vstd::prelude::*;

verus! {

/// ASCII whitespace, as the directive syntax understands it.
pub open spec fn is_space(b: u8) -> bool {
    b == 32 || b == 9 || b == 10 || b == 11 || b == 12 || b == 13
}

pub fn is_space_byte(b: u8) -> (r: bool)
    ensures
        r == is_space(b),
{
    b == 32 || b == 9 || b == 10 || b == 11 || b == 12 || b == 13
}

/// Index of the first occurrence of `pat` in `hay` at or after `from`,
/// if there is one.
pub open spec fn spec_find(hay: Seq<u8>, pat: Seq<u8>, from: int) -> Option<int>
    recommends
        0 <= from,
    decreases hay.len() - from,
{
    if from < 0 || from + pat.len() > hay.len() {
        None
    } else if pat.len() == 0 {
        Some(from)
    } else if hay.subrange(from, from + pat.len() as int) == pat {
        Some(from)
    } else {
        spec_find(hay, pat, from + 1)
    }
}

/// A found occurrence lies within bounds and matches the pattern.
pub broadcast proof fn lemma_find_bounds(hay: Seq<u8>, pat: Seq<u8>, from: int)
    ensures
        (#[trigger] spec_find(hay, pat, from)) matches Some(i) ==> from <= i
            && i + pat.len() <= hay.len() && hay.subrange(i, i + pat.len() as int) == pat,
    decreases hay.len() - from,
{
    if !(from < 0 || from + pat.len() > hay.len()) && pat.len() != 0
        && hay.subrange(from, from + pat.len() as int) != pat {
        lemma_find_bounds(hay, pat, from + 1);
    } else if !(from < 0 || from + pat.len() > hay.len()) && pat.len() == 0 {
        assert(hay.subrange(from, from + pat.len() as int) =~= pat);
    }
}

/// Whether `hay` matches `pat` at position `at`.
fn match_at(hay: &Vec<u8>, pat: &Vec<u8>, at: usize) -> (r: bool)
    requires
        at + pat@.len() <= hay@.len(),
    ensures
        r == (hay@.subrange(at as int, at as int + pat@.len() as int) == pat@),
{
    let ghost sub = hay@.subrange(at as int, at as int + pat@.len() as int);
    let hn: usize = hay.len();
    let mut j: usize = 0;
    while j < pat.len()
        invariant
            j <= pat@.len(),
            at + pat@.len() <= hay@.len(),
            hn == hay@.len(),
            sub == hay@.subrange(at as int, at as int + pat@.len() as int),
            forall|k: int| 0 <= k < j ==> hay@[at + k] == pat@[k],
        decreases pat@.len() - j,
    {
        if hay[at + j] != pat[j] {
            proof {
                assert(sub[j as int] == hay@[at + j]);
            }
            return false;
        }
        j = j + 1;
    }
    proof {
        assert(sub =~= pat@);
    }
    true
}

/// First occurrence of `pat` in `hay` at or after `from`.
pub fn find_at(hay: &Vec<u8>, pat: &Vec<u8>, from: usize) -> (r: Option<usize>)
    requires
        from <= hay@.len(),
    ensures
        match r {
            Some(i) => spec_find(hay@, pat@, from as int) == Some(i as int) && from <= i
                && i + pat@.len() <= hay@.len(),
            None => spec_find(hay@, pat@, from as int) is None,
        },
{
    if pat.len() == 0 {
        return Some(from);
    }
    let mut i: usize = from;
    while pat.len() <= hay.len() - i
        invariant
            from <= i <= hay@.len(),
            pat@.len() >= 1,
            spec_find(hay@, pat@, from as int) == spec_find(hay@, pat@, i as int),
        decreases hay@.len() - i,
    {
        if match_at(hay, pat, i) {
            return Some(i);
        }
        i = i + 1;
    }
    None
}

/// Copy of `v[from..to]`.
pub fn subvec(v: &Vec<u8>, from: usize, to: usize) -> (r: Vec<u8>)
    requires
        from <= to && to <= v@.len(),
    ensures
        r@ == v@.subrange(from as int, to as int),
{
    let mut r: Vec<u8> = Vec::new();
    let mut i: usize = from;
    while i < to
        invariant
            from <= i <= to <= v@.len(),
            r@ == v@.subrange(from as int, i as int),
        decreases to - i,
    {
        r.push(v[i]);
        proof {
            assert(r@ =~= v@.subrange(from as int, i + 1));
        }
        i = i + 1;
    }
    r
}

/// Copy of the whole of `v`.
pub fn clone_bytes(v: &Vec<u8>) -> (r: Vec<u8>)
    ensures
        r@ == v@,
{
    let r = subvec(v, 0, v.len());
    proof {
        assert(v@.subrange(0, v@.len() as int) =~= v@);
    }
    r
}

/// Append all of `src` to `dst`.
pub fn append_bytes(dst: &mut Vec<u8>, src: &Vec<u8>)
    ensures
        final(dst)@ == old(dst)@ + src@,
{
    let mut i: usize = 0;
    while i < src.len()
        invariant
            i <= src@.len(),
            dst@ == old(dst)@ + src@.subrange(0, i as int),
        decreases src@.len() - i,
    {
        dst.push(src[i]);
        proof {
            assert(dst@ =~= old(dst)@ + src@.subrange(0, i + 1));
        }
        i = i + 1;
    }
    proof {
        assert(old(dst)@ + src@.subrange(0, src@.len() as int) =~= old(dst)@ + src@);
    }
}

pub fn bytes_eq(a: &Vec<u8>, b: &Vec<u8>) -> (r: bool)
    ensures
        r == (a@ == b@),
{
    if a.len() != b.len() {
        return false;
    }
    let mut i: usize = 0;
    while i < a.len()
        invariant
            i <= a@.len(),
            a@.len() == b@.len(),
            forall|k: int| 0 <= k < i ==> a@[k] == b@[k],
        decreases a@.len() - i,
    {
        if a[i] != b[i] {
            return false;
        }
        i = i + 1;
    }
    proof {
        assert(a@ =~= b@);
    }
    true
}

pub open spec fn starts_with(s: Seq<u8>, pat: Seq<u8>) -> bool {
    pat.len() <= s.len() && s.subrange(0, pat.len() as int) == pat
}

pub open spec fn ends_with(s: Seq<u8>, pat: Seq<u8>) -> bool {
    pat.len() <= s.len() && s.subrange(s.len() - pat.len(), s.len() as int) == pat
}

pub fn bytes_starts_with(v: &Vec<u8>, pat: &Vec<u8>) -> (r: bool)
    ensures
        r == starts_with(v@, pat@),
{
    if pat.len() > v.len() {
        return false;
    }
    match_at(v, pat, 0)
}

pub fn bytes_ends_with(v: &Vec<u8>, pat: &Vec<u8>) -> (r: bool)
    ensures
        r == ends_with(v@, pat@),
{
    if pat.len() > v.len() {
        return false;
    }
    match_at(v, pat, v.len() - pat.len())
}

/// A line consisting only of whitespace (or empty).
pub open spec fn is_blank(l: Seq<u8>) -> bool {
    forall|i: int| 0 <= i < l.len() ==> is_space(#[trigger] l[i])
}

pub fn is_blank_line(l: &Vec<u8>) -> (r: bool)
    ensures
        r == is_blank(l@),
{
    let mut i: usize = 0;
    while i < l.len()
        invariant
            i <= l@.len(),
            forall|k: int| 0 <= k < i ==> is_space(#[trigger] l@[k]),
        decreases l@.len() - i,
    {
        if !is_space_byte(l[i]) {
            return false;
        }
        i = i + 1;
    }
    true
}

/// `s` with trailing whitespace removed.
pub open spec fn spec_trim_end(s: Seq<u8>) -> Seq<u8>
    decreases s.len(),
{
    if s.len() > 0 && is_space(s.last()) {
        spec_trim_end(s.drop_last())
    } else {
        s
    }
}

/// Trimming keeps a prefix, and everything past it is whitespace.
pub proof fn lemma_trim_end_props(s: Seq<u8>)
    ensures
        spec_trim_end(s).len() <= s.len(),
        spec_trim_end(s) == s.take(spec_trim_end(s).len() as int),
        forall|j: int| spec_trim_end(s).len() <= j < s.len() ==> is_space(#[trigger] s[j]),
    decreases s.len(),
{
    if s.len() > 0 && is_space(s.last()) {
        lemma_trim_end_props(s.drop_last());
        assert(s.drop_last().take(spec_trim_end(s).len() as int) =~= s.take(
            spec_trim_end(s).len() as int,
        ));
        assert forall|j: int| spec_trim_end(s).len() <= j < s.len() implies is_space(
            #[trigger] s[j],
        ) by {
            if j < s.len() - 1 {
                assert(s.drop_last()[j] == s[j]);
            }
        }
    } else {
        assert(s.take(s.len() as int) =~= s);
    }
}

/// Length of `v` once trailing whitespace is dropped.
pub fn trimmed_len(v: &Vec<u8>) -> (n: usize)
    ensures
        n <= v@.len(),
        spec_trim_end(v@) == v@.take(n as int),
{
    let mut n: usize = v.len();
    proof {
        assert(v@.take(v@.len() as int) =~= v@);
    }
    while n > 0 && is_space_byte(v[n - 1])
        invariant
            n <= v@.len(),
            spec_trim_end(v@) == spec_trim_end(v@.take(n as int)),
        decreases n,
    {
        proof {
            assert(v@.take(n as int).last() == v@[n - 1]);
            assert(v@.take(n as int).drop_last() =~= v@.take(n - 1));
        }
        n = n - 1;
    }
    proof {
        if n > 0 {
            assert(v@.take(n as int).last() == v@[n - 1]);
        }
    }
    n
}

/// End of the leading-whitespace prefix of `l`, scanning from `i`.
pub open spec fn indent_end(l: Seq<u8>, i: int) -> int
    decreases l.len() - i,
{
    if i < 0 || i >= l.len() || !is_space(l[i]) {
        i
    } else {
        indent_end(l, i + 1)
    }
}

/// The leading whitespace of `l`: its indentation.
pub open spec fn indent_of(l: Seq<u8>) -> Seq<u8> {
    l.take(indent_end(l, 0))
}

/// Copy of the leading-whitespace prefix of `l`.
pub fn indent_prefix(l: &Vec<u8>) -> (r: Vec<u8>)
    ensures
        r@ == indent_of(l@),
{
    let mut i: usize = 0;
    while i < l.len() && is_space_byte(l[i])
        invariant
            i <= l@.len(),
            indent_end(l@, 0) == indent_end(l@, i as int),
        decreases l@.len() - i,
    {
        i = i + 1;
    }
    subvec(l, 0, i)
}

/// The views of the elements of a byte vector are the bytes themselves.
pub broadcast proof fn lemma_bytes_deep_view(v: Vec<u8>)
    ensures
        #[trigger] v.deep_view() == v@,
{
    assert(v.deep_view() =~= v@);
}

/// Indexing the deep view of a vector of byte vectors gives the element's view.
pub broadcast proof fn lemma_lines_deep_view(v: Vec<Vec<u8>>, i: int)
    requires
        0 <= i < v@.len(),
    ensures
        #[trigger] v.deep_view()[i] == v@[i]@,
{
    lemma_bytes_deep_view(v@[i]);
}

/// Pushing a byte vector extends the deep view by the vector's view.
pub proof fn lemma_push_deep_view_bytes(v0: Vec<Vec<u8>>, v1: Vec<Vec<u8>>, x: Vec<u8>)
    requires
        v1@ == v0@.push(x),
    ensures
        v1.deep_view() == v0.deep_view().push(x@),
{
    assert(v1.deep_view().len() == v1@.len());
    assert(v0.deep_view().len() == v0@.len());
    assert forall|k: int| 0 <= k < v1@.len() implies v1.deep_view()[k] == v0.deep_view().push(
        x@,
    )[k] by {
        assert(v1.deep_view()[k] == v1@[k]@);
        if k < v0@.len() {
            assert(v0.deep_view()[k] == v0@[k]@);
            assert(v1@[k] == v0@[k]);
        } else {
            assert(v1@[k] == x);
        }
    }
    assert(v1.deep_view() =~= v0.deep_view().push(x@));
}

/// Whether the name `name` occurs in `set`.
pub fn contains_name(set: &Vec<Vec<u8>>, name: &Vec<u8>) -> (r: bool)
    ensures
        r == set.deep_view().contains(name@),
{
    broadcast use lemma_lines_deep_view;

    let mut i: usize = 0;
    while i < set.len()
        invariant
            i <= set@.len(),
            forall|j: int| 0 <= j < i ==> #[trigger] set.deep_view()[j] != name@,
        decreases set@.len() - i,
    {
        if bytes_eq(&set[i], name) {
            proof {
                assert(set.deep_view()[i as int] == name@);
            }
            return true;
        }
        proof {
            assert(set.deep_view()[i as int] == set@[i as int]@);
        }
        i = i + 1;
    }
    proof {
        assert(!set.deep_view().contains(name@)) by {
            if set.deep_view().contains(name@) {
                let j = choose|j: int|
                    0 <= j < set.deep_view().len() && set.deep_view()[j] == name@;
                assert(set.deep_view()[j] != name@);
            }
        }
    }
    false
}

} // verus!
