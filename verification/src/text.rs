//! Byte-string helpers shared by the engine: decimal rendering, substring
//! search and removal, trimming, splitting, and ASCII case folding.  All
//! texts handled by the library are byte sequences.

use vstd::prelude::*;

verus! {

/// Decimal digits of `n`, most significant first.
pub open spec fn spec_dec_u64(n: nat) -> Seq<u8>
    decreases n,
{
    if n < 10 {
        seq![(48 + n) as u8]
    } else {
        spec_dec_u64(n / 10).push((48 + n % 10) as u8)
    }
}

/// Canonical decimal text of a signed integer: optional `-`, then digits.
pub open spec fn spec_dec_i64(i: int) -> Seq<u8> {
    if i < 0 {
        seq![45u8] + spec_dec_u64((-i) as nat)
    } else {
        spec_dec_u64(i as nat)
    }
}

/// Renders `n` in decimal, most significant digit first.
pub fn u64_to_dec(n: u64) -> (v: Vec<u8>)
    ensures
        v@ == spec_dec_u64(n as nat),
    decreases n,
{
    if n < 10 {
        let mut v: Vec<u8> = Vec::new();
        v.push(48 + (n as u8));
        assert(v@ =~= spec_dec_u64(n as nat));
        v
    } else {
        let mut v = u64_to_dec(n / 10);
        v.push(48 + ((n % 10) as u8));
        v
    }
}

/// Renders `i` in decimal with a leading `-` when negative.
pub fn i64_to_dec(i: i64) -> (v: Vec<u8>)
    ensures
        v@ == spec_dec_i64(i as int),
{
    if i >= 0 {
        u64_to_dec(i as u64)
    } else {
        let m: u64 = if i == i64::MIN {
            9223372036854775808u64
        } else {
            (-i) as u64
        };
        let mut v: Vec<u8> = Vec::new();
        v.push(45);
        let mut d = u64_to_dec(m);
        v.append(&mut d);
        assert(v@ =~= spec_dec_i64(i as int));
        v
    }
}

/// Appends all of `src` to `dst`.
pub fn push_all(dst: &mut Vec<u8>, src: &Vec<u8>)
    ensures
        final(dst)@ == old(dst)@ + src@,
{
    let mut i: usize = 0;
    while i < src.len()
        invariant
            i <= src.len(),
            dst@ == old(dst)@ + src@.subrange(0, i as int),
        decreases src.len() - i,
    {
        dst.push(src[i]);
        i += 1;
        assert(dst@ =~= old(dst)@ + src@.subrange(0, i as int));
    }
    assert(dst@ =~= old(dst)@ + src@);
}

/// Copy of `s[a..b]`.
pub fn subvec(s: &Vec<u8>, a: usize, b: usize) -> (r: Vec<u8>)
    requires
        a <= b <= s@.len(),
    ensures
        r@ == s@.subrange(a as int, b as int),
{
    let mut r: Vec<u8> = Vec::new();
    let mut i: usize = a;
    while i < b
        invariant
            a <= i <= b,
            r@ == s@.subrange(a as int, i as int),
        decreases b - i,
    {
        r.push(s[i]);
        i += 1;
        assert(r@ =~= s@.subrange(a as int, i as int));
    }
    r
}

/// `needle` occurs in `hay` starting at position `i`.
pub open spec fn is_match_at(hay: Seq<u8>, needle: Seq<u8>, i: int) -> bool {
    0 <= i && i + needle.len() <= hay.len() && hay.subrange(i, i + needle.len()) == needle
}

/// Checks one candidate position.
fn match_at(hay: &Vec<u8>, needle: &Vec<u8>, i: usize) -> (r: bool)
    requires
        i + needle@.len() <= hay@.len(),
    ensures
        r == is_match_at(hay@, needle@, i as int),
{
    let hl = hay.len();
    let nl = needle.len();
    let mut j: usize = 0;
    while j < nl
        invariant
            j <= nl,
            nl == needle@.len(),
            hl == hay@.len(),
            i + nl <= hl,
            forall|k: int| 0 <= k < j ==> hay@[i + k] == needle@[k],
        decreases nl - j,
    {
        if hay[i + j] != needle[j] {
            assert(hay@.subrange(i as int, i + needle@.len())[j as int] != needle@[j as int]);
            return false;
        }
        j += 1;
    }
    assert(hay@.subrange(i as int, i + needle@.len()) =~= needle@);
    true
}

/// Finds the first occurrence of `needle` in `hay` at or after `from`.
pub fn find_sub(hay: &Vec<u8>, needle: &Vec<u8>, from: usize) -> (r: Option<usize>)
    ensures
        match r {
            Some(i) => from <= i && is_match_at(hay@, needle@, i as int) && forall|j: int|
                from <= j < i ==> !is_match_at(hay@, needle@, j),
            None => forall|j: int| from <= j ==> !is_match_at(hay@, needle@, j),
        },
{
    if needle.len() > hay.len() {
        return None;
    }
    let last = hay.len() - needle.len();
    if from > last {
        return None;
    }
    let mut i: usize = from;
    loop
        invariant
            from <= i <= last,
            needle@.len() <= hay@.len(),
            last == hay@.len() - needle@.len(),
            forall|j: int| from <= j < i ==> !is_match_at(hay@, needle@, j),
        decreases last - i,
    {
        if match_at(hay, needle, i) {
            return Some(i);
        }
        if i == last {
            return None;
        }
        i += 1;
    }
}

/// `needle` occurs somewhere in `hay`.
pub open spec fn spec_contains(hay: Seq<u8>, needle: Seq<u8>) -> bool {
    exists|i: int| is_match_at(hay, needle, i)
}

/// Substring test.
pub fn contains_sub(hay: &Vec<u8>, needle: &Vec<u8>) -> (r: bool)
    ensures
        r == spec_contains(hay@, needle@),
{
    match find_sub(hay, needle, 0) {
        Some(i) => {
            assert(is_match_at(hay@, needle@, i as int));
            true
        },
        None => {
            assert(forall|j: int| !is_match_at(hay@, needle@, j));
            false
        },
    }
}

/// ASCII whitespace, the characters the trimming step removes.
pub open spec fn is_ws(b: u8) -> bool {
    b == 32 || b == 9 || b == 10 || b == 13 || b == 11 || b == 12
}

/// Number of leading whitespace bytes.
pub open spec fn spec_ws_prefix(s: Seq<u8>) -> int
    decreases s.len(),
{
    if s.len() > 0 && is_ws(s[0]) {
        1 + spec_ws_prefix(s.subrange(1, s.len() as int))
    } else {
        0
    }
}

/// End of `s` once trailing whitespace is dropped.
pub open spec fn spec_ws_end(s: Seq<u8>) -> int
    decreases s.len(),
{
    if s.len() > 0 && is_ws(s[s.len() - 1]) {
        spec_ws_end(s.subrange(0, s.len() - 1))
    } else {
        s.len() as int
    }
}

/// `s` with leading and trailing whitespace removed.
pub open spec fn spec_trim(s: Seq<u8>) -> Seq<u8> {
    let a = spec_ws_prefix(s);
    let b = spec_ws_end(s);
    if a <= b {
        s.subrange(a, b)
    } else {
        Seq::empty()
    }
}

proof fn lemma_ws_prefix_bounds(s: Seq<u8>)
    ensures
        0 <= spec_ws_prefix(s) <= s.len(),
        forall|k: int| 0 <= k < spec_ws_prefix(s) ==> is_ws(s[k]),
        spec_ws_prefix(s) < s.len() ==> !is_ws(s[spec_ws_prefix(s)]),
    decreases s.len(),
{
    if s.len() > 0 && is_ws(s[0]) {
        let t = s.subrange(1, s.len() as int);
        lemma_ws_prefix_bounds(t);
        assert forall|k: int| 0 <= k < spec_ws_prefix(s) implies is_ws(s[k]) by {
            if k > 0 {
                assert(t[k - 1] == s[k]);
            }
        }
        if spec_ws_prefix(s) < s.len() {
            assert(t[spec_ws_prefix(t)] == s[spec_ws_prefix(s)]);
        }
    }
}

proof fn lemma_ws_end_bounds(s: Seq<u8>)
    ensures
        0 <= spec_ws_end(s) <= s.len(),
        forall|k: int| spec_ws_end(s) <= k < s.len() ==> is_ws(s[k]),
        spec_ws_end(s) > 0 ==> !is_ws(s[spec_ws_end(s) - 1]),
    decreases s.len(),
{
    if s.len() > 0 && is_ws(s[s.len() - 1]) {
        lemma_ws_end_bounds(s.subrange(0, s.len() - 1));
        assert forall|k: int| spec_ws_end(s) <= k < s.len() implies is_ws(s[k]) by {
            if k < s.len() - 1 {
                assert(s.subrange(0, s.len() - 1)[k] == s[k]);
            }
        }
    }
}

/// Trims ASCII whitespace from both ends.
pub fn trim_bytes(s: &Vec<u8>) -> (r: Vec<u8>)
    ensures
        r@ == spec_trim(s@),
{
    proof {
        lemma_ws_prefix_bounds(s@);
        lemma_ws_end_bounds(s@);
    }
    let mut a: usize = 0;
    while a < s.len() && (s[a] == 32 || s[a] == 9 || s[a] == 10 || s[a] == 13 || s[a] == 11
        || s[a] == 12)
        invariant
            a <= s@.len(),
            forall|k: int| 0 <= k < a ==> is_ws(s@[k]),
            a <= spec_ws_prefix(s@),
        decreases s.len() - a,
    {
        a += 1;
        proof {
            if a > spec_ws_prefix(s@) {
                assert(is_ws(s@[spec_ws_prefix(s@)]));
            }
        }
    }
    assert(a == spec_ws_prefix(s@));
    let mut b: usize = s.len();
    while b > a && (s[b - 1] == 32 || s[b - 1] == 9 || s[b - 1] == 10 || s[b - 1] == 13 || s[b - 1]
        == 11 || s[b - 1] == 12)
        invariant
            a <= b <= s@.len(),
            forall|k: int| b <= k < s@.len() ==> is_ws(s@[k]),
            spec_ws_end(s@) <= b || b < a,
        decreases b,
    {
        b -= 1;
        proof {
            if b < spec_ws_end(s@) {
                assert(!is_ws(s@[spec_ws_end(s@) - 1]));
            }
        }
    }
    proof {
        if b > a {
            assert(b == spec_ws_end(s@)) by {
                if b > spec_ws_end(s@) {
                    assert(is_ws(s@[b - 1]));
                }
            }
        } else {
            assert(b == a);
            if spec_ws_end(s@) > a {
                assert(!is_ws(s@[spec_ws_end(s@) - 1]));
            }
            assert(spec_ws_end(s@) <= a);
            assert(spec_trim(s@) =~= s@.subrange(a as int, b as int)) by {
                if spec_ws_prefix(s@) <= spec_ws_end(s@) {
                    assert(spec_ws_end(s@) == a);
                }
            }
        }
    }
    subvec(s, a, b)
}

/// ASCII lower-casing of one byte.
pub open spec fn spec_lower_byte(b: u8) -> u8 {
    if 65 <= b <= 90 {
        (b + 32) as u8
    } else {
        b
    }
}

/// ASCII lower-casing of a byte text.
pub open spec fn spec_lower(s: Seq<u8>) -> Seq<u8> {
    s.map_values(|b: u8| spec_lower_byte(b))
}

/// Lower-cases ASCII letters, leaving other bytes unchanged.
pub fn to_lower_ascii(s: &Vec<u8>) -> (r: Vec<u8>)
    ensures
        r@ == spec_lower(s@),
{
    let mut r: Vec<u8> = Vec::new();
    let mut i: usize = 0;
    while i < s.len()
        invariant
            i <= s@.len(),
            r@ == s@.subrange(0, i as int).map_values(|b: u8| spec_lower_byte(b)),
        decreases s.len() - i,
    {
        let b = s[i];
        if 65 <= b && b <= 90 {
            r.push(b + 32);
        } else {
            r.push(b);
        }
        i += 1;
        assert(r@ =~= s@.subrange(0, i as int).map_values(|b: u8| spec_lower_byte(b)));
    }
    assert(s@.subrange(0, s@.len() as int) =~= s@);
    r
}

/// Left-to-right, non-overlapping removal of every occurrence of `pat`.
pub open spec fn spec_remove_all(s: Seq<u8>, pat: Seq<u8>) -> Seq<u8>
    decreases s.len(),
{
    if pat.len() == 0 || s.len() < pat.len() {
        s
    } else if s.subrange(0, pat.len() as int) == pat {
        spec_remove_all(s.skip(pat.len() as int), pat)
    } else {
        seq![s[0]] + spec_remove_all(s.skip(1), pat)
    }
}

proof fn lemma_remove_all_no_match(s: Seq<u8>, pat: Seq<u8>)
    requires
        pat.len() > 0,
        forall|j: int| !is_match_at(s, pat, j),
    ensures
        spec_remove_all(s, pat) == s,
    decreases s.len(),
{
    if s.len() >= pat.len() {
        assert(!is_match_at(s, pat, 0));
        assert(s.subrange(0, pat.len() as int) != pat);
        assert forall|j: int| !is_match_at(s.skip(1), pat, j) by {
            if is_match_at(s.skip(1), pat, j) {
                assert(s.skip(1).subrange(j, j + pat.len() as int) =~= s.subrange(
                    j + 1,
                    j + 1 + pat.len() as int,
                ));
                assert(is_match_at(s, pat, j + 1));
            }
        }
        lemma_remove_all_no_match(s.skip(1), pat);
        assert(spec_remove_all(s, pat) =~= s);
    }
}

proof fn lemma_remove_all_first_match(s: Seq<u8>, pat: Seq<u8>, i: int)
    requires
        pat.len() > 0,
        is_match_at(s, pat, i),
        forall|j: int| 0 <= j < i ==> !is_match_at(s, pat, j),
    ensures
        spec_remove_all(s, pat) == s.subrange(0, i) + spec_remove_all(
            s.skip(i + pat.len() as int),
            pat,
        ),
    decreases s.len(),
{
    if i == 0 {
        assert(s.subrange(0, pat.len() as int) == pat);
        assert(spec_remove_all(s, pat) =~= s.subrange(0, 0) + spec_remove_all(
            s.skip(pat.len() as int),
            pat,
        ));
    } else {
        assert(!is_match_at(s, pat, 0));
        assert(s.len() >= pat.len()) by {
            assert(i + pat.len() <= s.len());
        }
        assert(s.subrange(0, pat.len() as int) != pat) by {
            if s.subrange(0, pat.len() as int) == pat {
                assert(is_match_at(s, pat, 0));
            }
        }
        assert(is_match_at(s.skip(1), pat, i - 1)) by {
            assert(s.skip(1).subrange(i - 1, i - 1 + pat.len() as int) =~= s.subrange(
                i,
                i + pat.len() as int,
            ));
        }
        assert forall|j: int| 0 <= j < i - 1 implies !is_match_at(s.skip(1), pat, j) by {
            if is_match_at(s.skip(1), pat, j) {
                assert(s.skip(1).subrange(j, j + pat.len() as int) =~= s.subrange(
                    j + 1,
                    j + 1 + pat.len() as int,
                ));
                assert(is_match_at(s, pat, j + 1));
            }
        }
        lemma_remove_all_first_match(s.skip(1), pat, i - 1);
        assert(s.skip(1).subrange(0, i - 1) =~= s.subrange(1, i));
        assert(s.skip(1).skip(i - 1 + pat.len() as int) =~= s.skip(i + pat.len() as int));
        assert(spec_remove_all(s, pat) =~= s.subrange(0, i) + spec_remove_all(
            s.skip(i + pat.len() as int),
            pat,
        ));
    }
}

/// Removes every occurrence of `pat` from `s`, scanning left to right.
pub fn remove_all(s: &Vec<u8>, pat: &Vec<u8>) -> (r: Vec<u8>)
    requires
        pat@.len() > 0,
    ensures
        r@ == spec_remove_all(s@, pat@),
    decreases s@.len(),
{
    match find_sub(s, pat, 0) {
        None => {
            proof {
                lemma_remove_all_no_match(s@, pat@);
            }
            s.clone()
        },
        Some(i) => {
            proof {
                assert(is_match_at(s@, pat@, i as int));
                assert(i + pat@.len() <= s@.len());
                lemma_remove_all_first_match(s@, pat@, i as int);
            }
            let sl = s.len();
            let mut r = subvec(s, 0, i);
            let rest = subvec(s, i + pat.len(), sl);
            let mut tail = remove_all(&rest, pat);
            proof {
                assert(rest@ =~= s@.skip(i + pat@.len() as int));
            }
            r.append(&mut tail);
            r
        },
    }
}

/// The byte sequences held by a vector of byte texts.
pub open spec fn views(v: Seq<Vec<u8>>) -> Seq<Seq<u8>> {
    v.map_values(|x: Vec<u8>| x@)
}

/// Position of the first comma, or the length when there is none.
pub open spec fn spec_first_comma(s: Seq<u8>) -> int
    decreases s.len(),
{
    if s.len() == 0 {
        0
    } else if s[0] == 44u8 {
        0
    } else {
        1 + spec_first_comma(s.skip(1))
    }
}

proof fn lemma_first_comma(s: Seq<u8>)
    ensures
        0 <= spec_first_comma(s) <= s.len(),
        forall|k: int| 0 <= k < spec_first_comma(s) ==> s[k] != 44u8,
        spec_first_comma(s) < s.len() ==> s[spec_first_comma(s)] == 44u8,
    decreases s.len(),
{
    if s.len() > 0 && s[0] != 44u8 {
        let t = s.skip(1);
        lemma_first_comma(t);
        assert forall|k: int| 0 <= k < spec_first_comma(s) implies s[k] != 44u8 by {
            if k > 0 {
                assert(t[k - 1] == s[k]);
            }
        }
        if spec_first_comma(s) < s.len() {
            assert(t[spec_first_comma(t)] == s[spec_first_comma(s)]);
        }
    }
}

/// Pieces of `s` split on commas; an input without commas is one piece.
pub open spec fn spec_split_commas(s: Seq<u8>) -> Seq<Seq<u8>>
    decreases s.len(),
{
    let i = spec_first_comma(s);
    if i < 0 || i >= s.len() {
        seq![s]
    } else {
        seq![s.subrange(0, i)] + spec_split_commas(s.skip(i + 1))
    }
}

/// Splits on commas; mirrors `spec_split_commas`.
pub fn split_commas(s: &Vec<u8>) -> (r: Vec<Vec<u8>>)
    ensures
        views(r@) == spec_split_commas(s@),
    decreases s@.len(),
{
    proof {
        lemma_first_comma(s@);
    }
    let mut i: usize = 0;
    while i < s.len() && s[i] != 44
        invariant
            i <= s@.len(),
            forall|k: int| 0 <= k < i ==> s@[k] != 44u8,
            i <= spec_first_comma(s@),
        decreases s.len() - i,
    {
        i += 1;
        proof {
            if i > spec_first_comma(s@) {
                assert(s@[spec_first_comma(s@)] == 44u8);
            }
        }
    }
    proof {
        assert(i == spec_first_comma(s@)) by {
            if i < spec_first_comma(s@) {
                assert(s@[i as int] != 44u8);
            }
        }
    }
    if i == s.len() {
        let whole = subvec(s, 0, i);
        let mut r: Vec<Vec<u8>> = Vec::new();
        r.push(whole);
        assert(s@.subrange(0, s@.len() as int) =~= s@);
        assert(views(r@) =~= spec_split_commas(s@));
        r
    } else {
        let sl = s.len();
        let head = subvec(s, 0, i);
        let rest = subvec(s, i + 1, sl);
        proof {
            assert(rest@ =~= s@.skip(i + 1));
        }
        let mut r = split_commas(&rest);
        r.insert(0, head);
        assert(views(r@) =~= seq![s@.subrange(0, i as int)] + spec_split_commas(rest@));
        r
    }
}

} // verus!
