//! Byte-level helpers shared by the matcher and the prompt: prefix tests,
//! byte searches, lexicographic comparison and the longest common prefix.

use vstd::prelude::*;
use vstd::relations::total_ordering;

verus! {

/// Length of the longest common prefix of two byte sequences.
pub open spec fn common_prefix_len(a: Seq<u8>, b: Seq<u8>) -> nat
    decreases a.len(),
{
    if a.len() == 0 || b.len() == 0 || a[0] != b[0] {
        0
    } else {
        (1 + common_prefix_len(a.skip(1), b.skip(1))) as nat
    }
}

/// What `common_prefix_len` returns: a common prefix length that cannot be
/// extended.
pub proof fn lemma_common_prefix_len(a: Seq<u8>, b: Seq<u8>)
    ensures
        common_prefix_len(a, b) <= a.len(),
        common_prefix_len(a, b) <= b.len(),
        a.take(common_prefix_len(a, b) as int) =~= b.take(common_prefix_len(a, b) as int),
        common_prefix_len(a, b) < a.len() && common_prefix_len(a, b) < b.len() ==> a[
            common_prefix_len(a, b) as int
        ] != b[common_prefix_len(a, b) as int],
    decreases a.len(),
{
    if a.len() == 0 || b.len() == 0 || a[0] != b[0] {
    } else {
        lemma_common_prefix_len(a.skip(1), b.skip(1));
        let l = common_prefix_len(a, b) as int;
        assert(a.take(l) =~= b.take(l)) by {
            assert forall|i: int| 0 <= i < l implies a[i] == b[i] by {
                if i > 0 {
                    assert(a.skip(1).take(l - 1) =~= b.skip(1).take(l - 1));
                    assert(a.skip(1).take(l - 1)[i - 1] == a[i]);
                    assert(b.skip(1).take(l - 1)[i - 1] == b[i]);
                }
            }
        }
    }
}

/// Any length on which the two sequences agree is at most `common_prefix_len`.
pub proof fn lemma_common_prefix_len_is_max(a: Seq<u8>, b: Seq<u8>, k: int)
    requires
        0 <= k <= a.len(),
        k <= b.len(),
        a.take(k) =~= b.take(k),
    ensures
        k <= common_prefix_len(a, b),
    decreases a.len(),
{
    if k > 0 {
        assert(a.take(k)[0] == b.take(k)[0]);
        assert(a[0] == b[0]);
        assert(a.skip(1).take(k - 1) =~= b.skip(1).take(k - 1)) by {
            assert forall|i: int| 0 <= i < k - 1 implies a.skip(1)[i] == b.skip(1)[i] by {
                assert(a.take(k)[i + 1] == b.take(k)[i + 1]);
            }
        }
        lemma_common_prefix_len_is_max(a.skip(1), b.skip(1), k - 1);
    }
}

/// The exact common prefix length is determined by agreement below it and
/// disagreement (or exhaustion) at it.
pub proof fn lemma_common_prefix_len_unique(a: Seq<u8>, b: Seq<u8>, k: int)
    requires
        0 <= k <= a.len(),
        k <= b.len(),
        forall|j: int| 0 <= j < k ==> a[j] == b[j],
        k == a.len() || k == b.len() || a[k] != b[k],
    ensures
        k == common_prefix_len(a, b),
{
    assert(a.take(k) =~= b.take(k));
    lemma_common_prefix_len_is_max(a, b, k);
    lemma_common_prefix_len(a, b);
    let l = common_prefix_len(a, b) as int;
    if k < l {
        assert(a.take(l)[k] == b.take(l)[k]);
    }
}

/// Length of the longest common prefix of `strs[0]` with all of
/// `strs[i..]`; the full set LCP length is `lcp_len_from(strs, 0)`.
pub open spec fn lcp_len_from(strs: Seq<Seq<u8>>, i: int) -> nat
    decreases strs.len() - i,
{
    if i < 0 || i >= strs.len() {
        strs[0].len()
    } else {
        let here = common_prefix_len(strs[0], strs[i]);
        let rest = lcp_len_from(strs, i + 1);
        if here <= rest {
            here
        } else {
            rest
        }
    }
}

/// Length of the longest common prefix of a non-empty set of byte strings.
pub open spec fn lcp_len(strs: Seq<Seq<u8>>) -> nat {
    lcp_len_from(strs, 0)
}

/// The longest common prefix of a non-empty set of byte strings.
pub open spec fn lcp_of(strs: Seq<Seq<u8>>) -> Seq<u8> {
    strs[0].take(lcp_len(strs) as int)
}

proof fn lemma_lcp_len_from_bound(strs: Seq<Seq<u8>>, i: int)
    ensures
        lcp_len_from(strs, i) <= strs[0].len(),
    decreases strs.len() - i,
{
    if 0 <= i < strs.len() {
        lemma_lcp_len_from_bound(strs, i + 1);
    }
}

proof fn lemma_lcp_len_from_le(strs: Seq<Seq<u8>>, i: int, j: int)
    requires
        0 <= i <= j < strs.len(),
    ensures
        lcp_len_from(strs, i) <= common_prefix_len(strs[0], strs[j]),
    decreases j - i,
{
    if i < j {
        lemma_lcp_len_from_le(strs, i + 1, j);
    }
}

proof fn lemma_lcp_len_from_max(strs: Seq<Seq<u8>>, i: int, k: int)
    requires
        0 <= i,
        0 <= k <= strs[0].len(),
        forall|j: int| i <= j < strs.len() ==> k <= common_prefix_len(strs[0], #[trigger] strs[j]),
    ensures
        k <= lcp_len_from(strs, i),
    decreases strs.len() - i,
{
    if 0 <= i < strs.len() {
        lemma_lcp_len_from_max(strs, i + 1, k);
    }
}

/// The set LCP is a common prefix of every member.
pub proof fn lemma_lcp_prefix(strs: Seq<Seq<u8>>)
    requires
        strs.len() > 0,
    ensures
        lcp_len(strs) <= strs[0].len(),
        forall|j: int|
            0 <= j < strs.len() ==> lcp_len(strs) <= (#[trigger] strs[j]).len() && strs[j].take(
                lcp_len(strs) as int,
            ) =~= strs[0].take(lcp_len(strs) as int),
{
    lemma_lcp_len_from_bound(strs, 0);
    let l = lcp_len(strs) as int;
    assert forall|j: int|
        0 <= j < strs.len() implies l <= (#[trigger] strs[j]).len() && strs[j].take(l)
        =~= strs[0].take(l) by {
        lemma_lcp_len_from_le(strs, 0, j);
        lemma_common_prefix_len(strs[0], strs[j]);
        let c = common_prefix_len(strs[0], strs[j]) as int;
        assert forall|x: int| 0 <= x < l implies strs[j][x] == strs[0][x] by {
            assert(strs[0].take(c)[x] == strs[j].take(c)[x]);
        }
    }
}

/// No longer common prefix exists: any length on which all members agree
/// with the first is at most the set LCP length.
pub proof fn lemma_lcp_max(strs: Seq<Seq<u8>>, k: int)
    requires
        strs.len() > 0,
        0 <= k <= strs[0].len(),
        forall|j: int|
            0 <= j < strs.len() ==> k <= (#[trigger] strs[j]).len() && strs[j].take(k)
                =~= strs[0].take(k),
    ensures
        k <= lcp_len(strs),
{
    assert forall|j: int|
        0 <= j < strs.len() implies k <= common_prefix_len(strs[0], #[trigger] strs[j]) by {
        lemma_common_prefix_len_is_max(strs[0], strs[j], k);
    }
    lemma_lcp_len_from_max(strs, 0, k);
}

/// On a single-element set, the LCP is that element.
pub proof fn lemma_lcp_single(strs: Seq<Seq<u8>>)
    requires
        strs.len() == 1,
    ensures
        lcp_of(strs) =~= strs[0],
{
    lemma_common_prefix_len(strs[0], strs[0]);
    lemma_common_prefix_len_is_max(strs[0], strs[0], strs[0].len() as int);
    assert(lcp_len_from(strs, 1) == strs[0].len());
    assert(lcp_of(strs) =~= strs[0]);
}

/// A set that contains the empty string has the empty LCP.
pub proof fn lemma_lcp_contains_empty(strs: Seq<Seq<u8>>)
    requires
        strs.len() > 0,
        strs.contains(Seq::<u8>::empty()),
    ensures
        lcp_of(strs) =~= Seq::<u8>::empty(),
{
    let j = choose|j: int| 0 <= j < strs.len() && strs[j] =~= Seq::<u8>::empty();
    lemma_lcp_prefix(strs);
    assert(lcp_len(strs) <= strs[j].len());
}

/// The LCP depends only on which strings are in the set: two non-empty sets
/// with the same members have the same LCP, whatever the order and however
/// often a member repeats.
pub proof fn lemma_lcp_membership(strs1: Seq<Seq<u8>>, strs2: Seq<Seq<u8>>)
    requires
        strs1.len() > 0,
        strs2.len() > 0,
        forall|s: Seq<u8>| strs1.contains(s) <==> strs2.contains(s),
    ensures
        lcp_of(strs1) =~= lcp_of(strs2),
{
    lemma_lcp_le_of_members(strs1, strs2);
    lemma_lcp_le_of_members(strs2, strs1);
    let l = lcp_len(strs1) as int;
    lemma_lcp_prefix(strs1);
    lemma_lcp_prefix(strs2);
    assert(strs1.contains(strs1[0]));
    let j = choose|j: int| 0 <= j < strs2.len() && strs2[j] =~= strs1[0];
    assert(strs2[j].take(l) =~= strs2[0].take(l));
}

proof fn lemma_lcp_le_of_members(strs1: Seq<Seq<u8>>, strs2: Seq<Seq<u8>>)
    requires
        strs1.len() > 0,
        strs2.len() > 0,
        forall|s: Seq<u8>| strs1.contains(s) ==> strs2.contains(s),
    ensures
        lcp_len(strs2) <= lcp_len(strs1),
{
    let l2 = lcp_len(strs2) as int;
    lemma_lcp_prefix(strs2);
    assert(strs1.contains(strs1[0]));
    let j0 = choose|j: int| 0 <= j < strs2.len() && strs2[j] =~= strs1[0];
    assert(strs1[0].take(l2) =~= strs2[0].take(l2));
    assert forall|j: int|
        0 <= j < strs1.len() implies l2 <= (#[trigger] strs1[j]).len() && strs1[j].take(l2)
        =~= strs1[0].take(l2) by {
        assert(strs1.contains(strs1[j]));
        let j2 = choose|j2: int| 0 <= j2 < strs2.len() && strs2[j2] =~= strs1[j];
        assert(strs1[j].take(l2) =~= strs2[0].take(l2));
    }
    lemma_lcp_max(strs1, l2);
}

/// The LCP of a non-empty set is unchanged by any permutation of it.
pub proof fn lemma_lcp_permutation(strs1: Seq<Seq<u8>>, strs2: Seq<Seq<u8>>)
    requires
        strs1.len() > 0,
        strs1.to_multiset() == strs2.to_multiset(),
    ensures
        lcp_of(strs1) =~= lcp_of(strs2),
{
    broadcast use vstd::seq_lib::group_to_multiset_ensures;

    strs1.to_multiset_ensures();
    strs2.to_multiset_ensures();
    assert(strs2.len() == strs2.to_multiset().len());
    assert forall|s: Seq<u8>| strs1.contains(s) <==> strs2.contains(s) by {
        assert(strs1.contains(s) <==> strs1.to_multiset().count(s) > 0);
        assert(strs2.contains(s) <==> strs2.to_multiset().count(s) > 0);
    }
    lemma_lcp_membership(strs1, strs2);
}

/// Lexicographic order on byte sequences, as `Ord` on byte strings has it.
pub open spec fn lex_le(a: Seq<u8>, b: Seq<u8>) -> bool
    decreases a.len(),
{
    if a.len() == 0 {
        true
    } else if b.len() == 0 {
        false
    } else if a[0] < b[0] {
        true
    } else if a[0] > b[0] {
        false
    } else {
        lex_le(a.skip(1), b.skip(1))
    }
}

pub proof fn lemma_lex_le_refl(a: Seq<u8>)
    ensures
        lex_le(a, a),
    decreases a.len(),
{
    if a.len() > 0 {
        lemma_lex_le_refl(a.skip(1));
    }
}

pub proof fn lemma_lex_le_antisym(a: Seq<u8>, b: Seq<u8>)
    requires
        lex_le(a, b),
        lex_le(b, a),
    ensures
        a =~= b,
    decreases a.len(),
{
    if a.len() > 0 && b.len() > 0 {
        lemma_lex_le_antisym(a.skip(1), b.skip(1));
        assert(a =~= seq![a[0]] + a.skip(1));
        assert(b =~= seq![b[0]] + b.skip(1));
    }
}

pub proof fn lemma_lex_le_trans(a: Seq<u8>, b: Seq<u8>, c: Seq<u8>)
    requires
        lex_le(a, b),
        lex_le(b, c),
    ensures
        lex_le(a, c),
    decreases a.len(),
{
    if a.len() > 0 && b.len() > 0 && c.len() > 0 {
        if a[0] == b[0] && b[0] == c[0] {
            lemma_lex_le_trans(a.skip(1), b.skip(1), c.skip(1));
        }
    }
}

pub proof fn lemma_lex_le_connected(a: Seq<u8>, b: Seq<u8>)
    ensures
        lex_le(a, b) || lex_le(b, a),
    decreases a.len(),
{
    if a.len() > 0 && b.len() > 0 && a[0] == b[0] {
        lemma_lex_le_connected(a.skip(1), b.skip(1));
    }
}

/// `lex_le` as a binary relation value, for sorting.
pub open spec fn lex_leq() -> spec_fn(Seq<u8>, Seq<u8>) -> bool {
    |a: Seq<u8>, b: Seq<u8>| lex_le(a, b)
}

/// `lex_le` is a total ordering, which makes sorting by it well defined.
pub proof fn lemma_lex_le_total_ordering()
    ensures
        total_ordering(lex_leq()),
{
    let leq = lex_leq();
    assert forall|a: Seq<u8>| #[trigger] leq(a, a) by {
        lemma_lex_le_refl(a);
    }
    assert forall|a: Seq<u8>, b: Seq<u8>| #[trigger] leq(a, b) && #[trigger] leq(b, a) implies a
        == b by {
        lemma_lex_le_antisym(a, b);
    }
    assert forall|a: Seq<u8>, b: Seq<u8>, c: Seq<u8>|
        #[trigger] leq(a, b) && #[trigger] leq(b, c) implies leq(a, c) by {
        lemma_lex_le_trans(a, b, c);
    }
    assert forall|a: Seq<u8>, b: Seq<u8>| #[trigger] leq(a, b) || #[trigger] leq(b, a) by {
        lemma_lex_le_connected(a, b);
    }
}

/// First occurrence of `b` in `s` at or after `from`.
pub open spec fn find_from(s: Seq<u8>, from: int, b: u8) -> Option<int>
    decreases s.len() - from,
{
    if from < 0 || from >= s.len() {
        None
    } else if s[from] == b {
        Some(from)
    } else {
        find_from(s, from + 1, b)
    }
}

/// Last occurrence of `b` in `s`.
pub open spec fn rfind(s: Seq<u8>, b: u8) -> Option<int>
    decreases s.len(),
{
    if s.len() == 0 {
        None
    } else if s[s.len() - 1] == b {
        Some(s.len() - 1)
    } else {
        rfind(s.drop_last(), b)
    }
}

/// The bytes of an ASCII character sequence, character for character.
pub open spec fn ascii_bytes(s: Seq<char>) -> Seq<u8> {
    Seq::new(s.len(), |i: int| s[i] as u8)
}

/// The bytes of an ASCII string.
pub fn str_to_bytes(s: &str) -> (r: Vec<u8>)
    requires
        s.is_ascii(),
    ensures
        r@ == ascii_bytes(s@),
{
    proof {
        broadcast use vstd::string::is_ascii_spec_bytes;

    }
    let r = s.as_bytes_vec();
    assert(r@ =~= ascii_bytes(s@));
    r
}

/// Append a byte slice to a vector.
pub fn append_bytes(dst: &mut Vec<u8>, src: &[u8])
    ensures
        final(dst)@ == old(dst)@ + src@,
{
    let mut i: usize = 0;
    while i < src.len()
        invariant
            i <= src@.len(),
            dst@ =~= old(dst)@ + src@.take(i as int),
        decreases src@.len() - i,
    {
        dst.push(src[i]);
        assert(dst@ =~= old(dst)@ + src@.take(i + 1));
        i += 1;
    }
    assert(dst@ =~= old(dst)@ + src@);
}

/// What `find_from` returns: the first hit at or after `from`, if any.
pub proof fn lemma_find_from_props(s: Seq<u8>, from: int, b: u8)
    requires
        0 <= from,
    ensures
        match find_from(s, from, b) {
            Some(i) => from <= i < s.len() && s[i] == b && forall|j: int| from <= j < i ==> s[j] != b,
            None => forall|j: int| from <= j < s.len() ==> s[j] != b,
        },
    decreases s.len() - from,
{
    if from < s.len() && s[from] != b {
        lemma_find_from_props(s, from + 1, b);
    }
}

/// What `rfind` returns: the last hit, if any.
pub proof fn lemma_rfind_props(s: Seq<u8>, b: u8)
    ensures
        match rfind(s, b) {
            Some(i) => 0 <= i < s.len() && s[i] == b && forall|j: int| i < j < s.len() ==> s[j] != b,
            None => forall|j: int| 0 <= j < s.len() ==> s[j] != b,
        },
    decreases s.len(),
{
    if s.len() > 0 && s[s.len() - 1] != b {
        lemma_rfind_props(s.drop_last(), b);
        let d = s.drop_last();
        assert forall|j: int| 0 <= j < d.len() implies d[j] == s[j] by {}
        match rfind(d, b) {
            Some(i) => {
                assert(s[i] == d[i]);
                assert forall|j: int| i < j < s.len() implies s[j] != b by {
                    if j < s.len() - 1 {
                        assert(s[j] == d[j]);
                    }
                }
            },
            None => {
                assert forall|j: int| 0 <= j < s.len() implies s[j] != b by {
                    if j < s.len() - 1 {
                        assert(s[j] == d[j]);
                    }
                }
            },
        }
    }
}

/// Whether two byte slices hold the same bytes.
pub fn bytes_eq(a: &[u8], b: &[u8]) -> (r: bool)
    ensures
        r == (a@ =~= b@),
{
    if a.len() != b.len() {
        return false;
    }
    let mut i: usize = 0;
    while i < a.len()
        invariant
            a@.len() == b@.len(),
            0 <= i <= a@.len(),
            forall|j: int| 0 <= j < i ==> a@[j] == b@[j],
        decreases a@.len() - i,
    {
        if a[i] != b[i] {
            return false;
        }
        i += 1;
    }
    true
}

/// Whether `s` starts with `p`.
pub fn starts_with_bytes(s: &[u8], p: &[u8]) -> (r: bool)
    ensures
        r == p@.is_prefix_of(s@),
{
    if p.len() > s.len() {
        return false;
    }
    let mut i: usize = 0;
    while i < p.len()
        invariant
            p@.len() <= s@.len(),
            0 <= i <= p@.len(),
            forall|j: int| 0 <= j < i ==> p@[j] == s@[j],
        decreases p@.len() - i,
    {
        if p[i] != s[i] {
            assert(!(p@ =~= s@.subrange(0, p@.len() as int)));
            return false;
        }
        i += 1;
    }
    assert(p@ =~= s@.subrange(0, p@.len() as int));
    true
}

/// First occurrence of `b` in `s` at or after `from`, as `find_from` has it.
pub fn find_byte_from(s: &[u8], from: usize, b: u8) -> (r: Option<usize>)
    ensures
        match r {
            Some(i) => Some(i as int) == find_from(s@, from as int, b),
            None => find_from(s@, from as int, b) is None,
        },
{
    let mut i: usize = from;
    while i < s.len()
        invariant
            from <= i,
            find_from(s@, from as int, b) == find_from(s@, i as int, b),
        decreases s@.len() - i,
    {
        if s[i] == b {
            return Some(i);
        }
        i += 1;
    }
    None
}

/// Last occurrence of `b` in `s`, as `rfind` has it.
pub fn rfind_byte(s: &[u8], b: u8) -> (r: Option<usize>)
    ensures
        match r {
            Some(i) => Some(i as int) == rfind(s@, b),
            None => rfind(s@, b) is None,
        },
{
    let mut i: usize = s.len();
    proof {
        assert(s@.take(s@.len() as int) =~= s@);
    }
    while i > 0
        invariant
            i <= s@.len(),
            rfind(s@, b) == rfind(s@.take(i as int), b),
        decreases i,
    {
        i -= 1;
        if s[i] == b {
            assert(s@.take(i + 1)[i as int] == s@[i as int]);
            return Some(i);
        }
        assert(s@.take(i + 1).drop_last() =~= s@.take(i as int));
    }
    assert(s@.take(0) =~= Seq::<u8>::empty());
    None
}

/// Concatenation of two byte slices.
pub fn concat_bytes(a: &[u8], b: &[u8]) -> (r: Vec<u8>)
    ensures
        r@ =~= a@ + b@,
{
    let mut r = bytes_range(a, 0, a.len());
    let mut i: usize = 0;
    while i < b.len()
        invariant
            i <= b@.len(),
            r@ =~= a@ + b@.take(i as int),
        decreases b@.len() - i,
    {
        r.push(b[i]);
        assert(r@ =~= a@ + b@.take(i + 1));
        i += 1;
    }
    assert(b@.take(b@.len() as int) =~= b@);
    r
}

/// Copy of `s[from..to]`.
pub fn bytes_range(s: &[u8], from: usize, to: usize) -> (r: Vec<u8>)
    requires
        from <= to <= s@.len(),
    ensures
        r@ =~= s@.subrange(from as int, to as int),
{
    let mut r: Vec<u8> = Vec::new();
    let mut i: usize = from;
    while i < to
        invariant
            from <= i <= to <= s@.len(),
            r@ =~= s@.subrange(from as int, i as int),
        decreases to - i,
    {
        r.push(s[i]);
        assert(r@ =~= s@.subrange(from as int, i + 1));
        i += 1;
    }
    r
}

/// Longest common prefix length of two byte slices, as `common_prefix_len`
/// has it.
pub fn common_prefix_len_bytes(a: &[u8], b: &[u8]) -> (l: usize)
    ensures
        l == common_prefix_len(a@, b@),
{
    let mut i: usize = 0;
    while i < a.len() && i < b.len() && a[i] == b[i]
        invariant
            i <= a@.len(),
            i <= b@.len(),
            forall|j: int| 0 <= j < i ==> a@[j] == b@[j],
        decreases a@.len() - i,
    {
        i += 1;
    }
    proof {
        lemma_common_prefix_len_unique(a@, b@, i as int);
    }
    i
}

/// Lexicographic comparison of two byte slices, as `lex_le` has it.
pub fn lex_le_bytes(a: &[u8], b: &[u8]) -> (r: bool)
    ensures
        r == lex_le(a@, b@),
{
    let mut i: usize = 0;
    proof {
        assert(a@.skip(0) =~= a@);
        assert(b@.skip(0) =~= b@);
    }
    while i < a.len() && i < b.len() && a[i] == b[i]
        invariant
            i <= a@.len(),
            i <= b@.len(),
            lex_le(a@, b@) == lex_le(a@.skip(i as int), b@.skip(i as int)),
            lex_le(b@, a@) == lex_le(b@.skip(i as int), a@.skip(i as int)),
        decreases a@.len() - i,
    {
        proof {
            assert(a@.skip(i as int).skip(1) =~= a@.skip(i + 1));
            assert(b@.skip(i as int).skip(1) =~= b@.skip(i + 1));
        }
        i += 1;
    }
    if i < a.len() && i < b.len() {
        a[i] < b[i]
    } else {
        a.len() <= b.len()
    }
}

/// The longest common prefix of a set of byte strings.
///
/// Nothing comes back on an empty set, on a set whose members disagree in
/// their first byte, and on a set that contains the empty string; otherwise
/// the shared leading bytes come back.
pub fn longest_common_prefix(strings: &[Vec<u8>]) -> (r: Option<Vec<u8>>)
    ensures
        match r {
            Some(p) => strings@.len() > 0 && p@.len() > 0 && p@ =~= lcp_of(strings.deep_view()),
            None => strings@.len() == 0 || lcp_of(strings.deep_view()).len() == 0,
        },
{
    if strings.len() == 0 {
        return None;
    }
    let ghost strs = strings.deep_view();
    let first: &Vec<u8> = &strings[0];
    let mut l: usize = first.len();
    let mut idx: usize = 0;
    proof {
        lemma_lcp_len_from_bound(strs, 0);
        assert(strs[0] == strings@[0]@);
    }
    while idx < strings.len()
        invariant
            strings@.len() > 0,
            strs == strings.deep_view(),
            first@ == strs[0],
            idx <= strings@.len(),
            l <= strs[0].len(),
            lcp_len(strs) == if l <= lcp_len_from(strs, idx as int) {
                l as nat
            } else {
                lcp_len_from(strs, idx as int)
            },
        decreases strings@.len() - idx,
    {
        let c = common_prefix_len_bytes(first.as_slice(), strings[idx].as_slice());
        proof {
            assert(strings@[idx as int]@ == strs[idx as int]);
            lemma_lcp_len_from_bound(strs, idx + 1);
        }
        if c < l {
            l = c;
        }
        idx += 1;
    }
    if l == 0 {
        return None;
    }
    Some(bytes_range(first.as_slice(), 0, l))
}

/// A sequence splits into a prefix of it and the rest.
pub proof fn lemma_prefix_split(p: Seq<u8>, w: Seq<u8>)
    requires
        p.is_prefix_of(w),
    ensures
        w == p + w.skip(p.len() as int),
{
    assert(w =~= p + w.skip(p.len() as int));
}

/// A run of spaces.
pub open spec fn spaces(n: int) -> Seq<u8> {
    Seq::new(if n >= 0 { n as nat } else { 0 }, |i: int| 32u8)
}

/// The longest length among a set of byte strings.
pub open spec fn max_len_of(strs: Seq<Seq<u8>>) -> int
    decreases strs.len(),
{
    if strs.len() == 0 {
        0
    } else {
        let m = max_len_of(strs.drop_last());
        if strs.last().len() > m {
            strs.last().len() as int
        } else {
            m
        }
    }
}

/// How many columns a listing gets: as many as fit, one more when one
/// column of bare text still fits after the spaced ones, and never fewer
/// than one.
pub open spec fn grid_columns(width: int, spacing: int, max_len: int) -> int {
    if max_len > width || max_len + spacing == 0 {
        1
    } else {
        let c = width / (max_len + spacing);
        if (max_len + spacing) * c + max_len <= width {
            c + 1
        } else {
            c
        }
    }
}

/// How many rows a listing gets.
pub open spec fn grid_rows_count(n: int, columns: int) -> int {
    n / columns + if n % columns == 0 {
        0int
    } else {
        1int
    }
}

/// One cell of the listing: the entry at its position padded up to the
/// column width, except in the last column; nothing past the last entry.
pub open spec fn grid_cell(
    strs: Seq<Seq<u8>>,
    rows: int,
    columns: int,
    max_len: int,
    spacing: int,
    i: int,
    j: int,
) -> Seq<u8> {
    let pos = j * rows + i;
    if 0 <= pos < strs.len() {
        if j < columns - 1 {
            strs[pos] + spaces(max_len - strs[pos].len() + spacing)
        } else {
            strs[pos]
        }
    } else {
        Seq::<u8>::empty()
    }
}

/// The cells of one row, from column `j` on.
pub open spec fn grid_row(
    strs: Seq<Seq<u8>>,
    rows: int,
    columns: int,
    max_len: int,
    spacing: int,
    i: int,
    j: int,
) -> Seq<u8>
    decreases columns - j,
{
    if j >= columns {
        Seq::<u8>::empty()
    } else {
        grid_cell(strs, rows, columns, max_len, spacing, i, j) + grid_row(
            strs,
            rows,
            columns,
            max_len,
            spacing,
            i,
            j + 1,
        )
    }
}

/// The rows of the listing from row `i` on, each closed by the newline
/// sequence.
pub open spec fn grid_output_from(
    strs: Seq<Seq<u8>>,
    rows: int,
    columns: int,
    max_len: int,
    spacing: int,
    newline: Seq<u8>,
    i: int,
) -> Seq<u8>
    decreases rows - i,
{
    if i >= rows {
        Seq::<u8>::empty()
    } else {
        grid_row(strs, rows, columns, max_len, spacing, i, 0) + newline + grid_output_from(
            strs,
            rows,
            columns,
            max_len,
            spacing,
            newline,
            i + 1,
        )
    }
}

/// The whole column-formatted listing.
pub open spec fn columns_output(strs: Seq<Seq<u8>>, width: int, spacing: int, newline: Seq<u8>) -> Seq<
    u8,
> {
    if strs.len() == 0 {
        Seq::<u8>::empty()
    } else {
        let max_len = max_len_of(strs);
        let columns = grid_columns(width, spacing, max_len);
        let rows = grid_rows_count(strs.len() as int, columns);
        grid_output_from(strs, rows, columns, max_len, spacing, newline, 0)
    }
}

proof fn lemma_grid_row_empty(
    strs: Seq<Seq<u8>>,
    rows: int,
    columns: int,
    max_len: int,
    spacing: int,
    i: int,
    j: int,
)
    requires
        rows >= 0,
        0 <= j,
        0 <= i,
        j * rows + i >= strs.len(),
    ensures
        grid_row(strs, rows, columns, max_len, spacing, i, j) =~= Seq::<u8>::empty(),
    decreases columns - j,
{
    if j < columns {
        assert((j + 1) * rows + i >= j * rows + i) by (nonlinear_arith)
            requires
                rows >= 0,
        ;
        lemma_grid_row_empty(strs, rows, columns, max_len, spacing, i, j + 1);
    }
}

proof fn lemma_max_len_bounds(strs: Seq<Seq<u8>>)
    ensures
        forall|k: int| 0 <= k < strs.len() ==> (#[trigger] strs[k]).len() <= max_len_of(strs),
    decreases strs.len(),
{
    if strs.len() > 0 {
        lemma_max_len_bounds(strs.drop_last());
        assert forall|k: int| 0 <= k < strs.len() implies (#[trigger] strs[k]).len() <= max_len_of(
            strs,
        ) by {
            if k < strs.len() - 1 {
                assert(strs.drop_last()[k] == strs[k]);
            }
        }
    }
}

/// A vector of `n` spaces.
fn make_spaces(n: usize) -> (r: Vec<u8>)
    ensures
        r@ =~= spaces(n as int),
{
    let mut r: Vec<u8> = Vec::new();
    let mut i: usize = 0;
    while i < n
        invariant
            i <= n,
            r@ =~= spaces(i as int),
        decreases n - i,
    {
        r.push(32);
        assert(r@ =~= spaces(i + 1));
        i += 1;
    }
    r
}

/// Formats the strings in autocomplete-style column notation. Fills the
/// width of the entire line with a string plus the desired spacing
/// characters. Preserves the ordering in columns.
///
/// An entry longer than the whole width gets a row of its own.
pub fn format_in_columns<W: crate::terminal::CharacterTerminalWriter>(
    strings: &[Vec<u8>],
    width: u16,
    spacing: u16,
    new_line: &[u8],
    write: &mut W,
) -> (r: Result<(), crate::autocomplete::CliError>)
    ensures
        r is Ok,
        final(write).newline_bytes() == old(write).newline_bytes(),
        final(write).written() == old(write).written() + columns_output(
            strings.deep_view(),
            width as int,
            spacing as int,
            new_line@,
        ),
{
    let ghost strs = strings.deep_view();
    let ghost w0 = old(write).written();
    if strings.len() == 0 {
        proof {
            assert(w0 + columns_output(strs, width as int, spacing as int, new_line@) =~= w0);
        }
        return Ok(());
    }
    let n = strings.len();

    let mut max_len: usize = 0;
    let mut i: usize = 0;
    proof {
        assert(strs.take(0) =~= Seq::<Seq<u8>>::empty());
    }
    while i < n
        invariant
            strs == strings.deep_view(),
            n == strs.len(),
            i <= n,
            max_len as int == max_len_of(strs.take(i as int)),
        decreases n - i,
    {
        proof {
            assert(strs.take(i + 1).drop_last() =~= strs.take(i as int));
            assert(strs.take(i + 1).last() == strs[i as int]);
            assert(strs[i as int] == strings@[i as int]@);
        }
        if strings[i].len() > max_len {
            max_len = strings[i].len();
        }
        i += 1;
    }
    proof {
        assert(strs.take(n as int) =~= strs);
    }

    let widthz = width as usize;
    let spacingz = spacing as usize;
    proof {
        lemma_max_len_bounds(strs);
    }
    let columns: usize = if max_len > widthz || max_len + spacingz == 0 {
        1
    } else {
        let c = widthz / (max_len + spacingz);
        proof {
            assert((max_len + spacingz) * c <= widthz) by (nonlinear_arith)
                requires
                    max_len + spacingz > 0,
                    c as int == widthz as int / (max_len as int + spacingz as int),
                    widthz >= 0,
            ;
        }
        if (max_len + spacingz) * c + max_len <= widthz {
            c + 1
        } else {
            proof {
                assert(c >= 1) by {
                    if c == 0 {
                        assert((max_len + spacingz) * c == 0) by (nonlinear_arith)
                            requires
                                c == 0,
                        ;
                    }
                }
            }
            c
        }
    };
    proof {
        assert(columns as int == grid_columns(widthz as int, spacingz as int, max_len as int));
        assert(columns >= 1);
    }
    proof {
        vstd::arithmetic::div_mod::lemma_fundamental_div_mod(n as int, columns as int);
        if n % columns != 0 {
            assert(columns != 1) by {
                if columns == 1 {
                    assert(n as int % 1int == 0) by (nonlinear_arith);
                }
            }
            assert(n / columns + 1 <= n) by (nonlinear_arith)
                requires
                    columns >= 2,
                    n >= 1,
                    n as int == columns as int * (n as int / columns as int) + n as int
                        % columns as int,
                    0 <= n as int % columns as int,
                    (n as int % columns as int) < (columns as int),
            ;
        }
    }
    let rows: usize = n / columns + if n % columns == 0 {
        0
    } else {
        1
    };
    proof {
        assert(rows as int == grid_rows_count(n as int, columns as int));
        vstd::arithmetic::div_mod::lemma_fundamental_div_mod(n as int, columns as int);
        assert(rows >= 1 && rows <= n && columns as int * rows as int >= n as int)
            by (nonlinear_arith)
            requires
                columns >= 1,
                n >= 1,
                n as int == columns as int * (n as int / columns as int) + n as int
                    % columns as int,
                0 <= n as int % columns as int,
                (n as int % columns as int) < (columns as int),
                rows as int == n as int / columns as int + if n as int % columns as int == 0int {
                    0int
                } else {
                    1int
                },
        ;
    }

    let ghost total = grid_output_from(
        strs,
        rows as int,
        columns as int,
        max_len as int,
        spacingz as int,
        new_line@,
        0,
    );
    let mut row: usize = 0;
    while row < rows
        invariant
            strs == strings.deep_view(),
            n == strs.len(),
            n >= 1,
            row <= rows,
            columns >= 1,
            1 <= rows <= n,
            columns as int * rows as int >= n as int,
            write.newline_bytes() == old(write).newline_bytes(),
            write.written() + grid_output_from(
                strs,
                rows as int,
                columns as int,
                max_len as int,
                spacingz as int,
                new_line@,
                row as int,
            ) == w0 + total,
            forall|k: int| 0 <= k < n ==> (#[trigger] strs[k]).len() <= max_len,
            spacingz <= 65535,
            columns >= 2 ==> max_len <= 65535,
        decreases rows - row,
    {
        let ghost row_total = grid_row(
            strs,
            rows as int,
            columns as int,
            max_len as int,
            spacingz as int,
            row as int,
            0,
        );
        let ghost w_row = write.written();
        let mut j: usize = 0;
        let mut pos: usize = row;
        while j < columns && pos < n
            invariant
                strs == strings.deep_view(),
                n == strs.len(),
                row < rows,
                columns >= 1,
                1 <= rows <= n,
                columns as int * rows as int >= n as int,
                j <= columns,
                pos as int == if j as int * rows as int + row as int <= n as int {
                    j as int * rows as int + row as int
                } else {
                    n as int
                },
                write.newline_bytes() == old(write).newline_bytes(),
                write.written() + grid_row(
                    strs,
                    rows as int,
                    columns as int,
                    max_len as int,
                    spacingz as int,
                    row as int,
                    j as int,
                ) == w_row + row_total,
                forall|k: int| 0 <= k < n ==> (#[trigger] strs[k]).len() <= max_len,
                spacingz <= 65535,
                columns >= 2 ==> max_len <= 65535,
            decreases columns - j,
        {
            proof {
                assert(strs[pos as int] == strings@[pos as int]@);
                assert(pos as int == j as int * rows as int + row as int);
            }
            write.print(strings[pos].as_slice());
            if j < columns - 1 {
                proof {
                    assert(strs[pos as int].len() <= max_len);
                }
                let pad = make_spaces(max_len - strings[pos].len() + spacingz);
                write.print(pad.as_slice());
            }
            proof {
                let jj = j as int;
                assert(write.written() + grid_row(
                    strs,
                    rows as int,
                    columns as int,
                    max_len as int,
                    spacingz as int,
                    row as int,
                    jj + 1,
                ) == w_row + row_total);
            }
            j += 1;
            proof {
                assert(j as int * rows as int == (j as int - 1) * rows as int + rows as int)
                    by (nonlinear_arith);
            }
            if rows < n - pos {
                pos = pos + rows;
            } else {
                pos = n;
            }
        }
        proof {
            if j < columns {
                assert(pos >= n);
                assert(j as int * rows as int + row as int >= n as int);
                lemma_grid_row_empty(
                    strs,
                    rows as int,
                    columns as int,
                    max_len as int,
                    spacingz as int,
                    row as int,
                    j as int,
                );
            } else {
                assert(grid_row(
                    strs,
                    rows as int,
                    columns as int,
                    max_len as int,
                    spacingz as int,
                    row as int,
                    j as int,
                ) =~= Seq::<u8>::empty());
            }
            assert(write.written() =~= w_row + row_total);
        }
        write.print(new_line);
        proof {
            assert(write.written() + grid_output_from(
                strs,
                rows as int,
                columns as int,
                max_len as int,
                spacingz as int,
                new_line@,
                row as int + 1,
            ) == w0 + total);
        }
        row += 1;
    }
    proof {
        assert(grid_output_from(
            strs,
            rows as int,
            columns as int,
            max_len as int,
            spacingz as int,
            new_line@,
            rows as int,
        ) =~= Seq::<u8>::empty());
        assert(write.written() =~= w0 + total);
        assert(total == columns_output(strs, width as int, spacing as int, new_line@));
    }
    Ok(())
}

} // verus!
