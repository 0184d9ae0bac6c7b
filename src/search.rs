//! The two fast search strategies, Boyer-Moore and Knuth-Morris-Pratt, with
//! the proofs that they find exactly the naive matches of a pattern without
//! wildcards.
use std::collections::HashMap;
use vstd::prelude::*;

use crate::pattern::{
    accepts, all_matches, is_first_match, is_match_in_bounds,
    lemma_offsets_members, lemma_offsets_stable, lists_all_matches, lists_matches_in_bounds, lists_true_matches,
    match_offsets, match_offsets_below, no_wildcards, occurs_at, Pattern, PatternMatch, PatternMatcher,
};

verus! {

/// The rightmost position below `k` that holds the exact byte `b`, or -1.
pub open spec fn last_known_index(p: Seq<Option<u8>>, b: u8, k: int) -> int
    decreases k,
{
    if k <= 0 {
        -1
    } else if p[k - 1] == Some(b) {
        k - 1
    } else {
        last_known_index(p, b, k - 1)
    }
}

proof fn lemma_last_known_index(p: Seq<Option<u8>>, b: u8, k: int)
    requires
        0 <= k <= p.len(),
    ensures
        -1 <= last_known_index(p, b, k) < k,
        last_known_index(p, b, k) >= 0 ==> p[last_known_index(p, b, k)] == Some(b),
        forall|q: int| last_known_index(p, b, k) < q < k ==> p[q] != Some(b),
    decreases k,
{
    if k > 0 {
        lemma_last_known_index(p, b, k - 1);
    }
}

/// The rightmost wildcard position below `k`, or -1.
pub open spec fn last_wildcard_index(p: Seq<Option<u8>>, k: int) -> int
    decreases k,
{
    if k <= 0 {
        -1
    } else if p[k - 1] is None {
        k - 1
    } else {
        last_wildcard_index(p, k - 1)
    }
}

proof fn lemma_last_wildcard_index(p: Seq<Option<u8>>, k: int)
    requires
        0 <= k <= p.len(),
    ensures
        -1 <= last_wildcard_index(p, k) < k,
        last_wildcard_index(p, k) >= 0 ==> p[last_wildcard_index(p, k)] is None,
        forall|q: int| last_wildcard_index(p, k) < q < k ==> p[q] is Some,
    decreases k,
{
    if k > 0 {
        lemma_last_wildcard_index(p, k - 1);
    }
}

/// No occurrence starts in `[i, i + s)`: the byte `c` at window end `i + m - 1`
/// is accepted by no pattern position that those starts would place over it.
proof fn lemma_shift_skips(p: Seq<Option<u8>>, d: Seq<u8>, i: int, s: int)
    requires
        p.len() > 0,
        0 <= i,
        i + p.len() <= d.len(),
        !occurs_at(p, d, i),
        1 <= s <= p.len(),
        forall|q: int| p.len() - s <= q < p.len() - 1 ==> !accepts(#[trigger] p[q], d[i + p.len() - 1]),
    ensures
        forall|o: int| i <= o < i + s ==> !occurs_at(p, d, o),
{
    let m = p.len() as int;
    assert forall|o: int| i <= o < i + s implies !occurs_at(p, d, o) by {
        if o > i && occurs_at(p, d, o) {
            let q = i + m - 1 - o;
            assert(accepts(p[q], d[o + q]));
        }
    }
}

/// The first `k` positions of `p` equal its `k` positions ending at `len`:
/// a proper border of the prefix of length `len`.
pub open spec fn is_border(p: Seq<Option<u8>>, len: int, k: int) -> bool {
    &&& 0 <= k < len <= p.len()
    &&& forall|x: int| 0 <= x < k ==> #[trigger] p[x] == p[len - k + x]
}

/// `k` is the longest proper border of the prefix of length `len`.
pub open spec fn is_longest_border(p: Seq<Option<u8>>, len: int, k: int) -> bool {
    &&& is_border(p, len, k)
    &&& forall|k2: int| k < k2 < len ==> !is_border(p, len, k2)
}

/// The first `k` positions of `p` equal the `k` data bytes that end at `i`.
pub open spec fn text_state(p: Seq<Option<u8>>, d: Seq<u8>, i: int, k: int) -> bool {
    &&& 0 <= k <= i <= d.len()
    &&& k <= p.len()
    &&& forall|x: int| 0 <= x < k ==> #[trigger] p[x] == Some(d[i - k + x])
}

/// `j` is the longest prefix of `p`, shorter than `p`, that ends the data at `i`.
pub open spec fn is_longest_state(p: Seq<Option<u8>>, d: Seq<u8>, i: int, j: int) -> bool {
    &&& j < p.len()
    &&& text_state(p, d, i, j)
    &&& forall|k: int| j < k < p.len() ==> !text_state(p, d, i, k)
}

proof fn lemma_state_narrow(p: Seq<Option<u8>>, d: Seq<u8>, i: int, j: int, k: int)
    requires
        text_state(p, d, i, j),
        text_state(p, d, i, k),
        k < j,
    ensures
        is_border(p, j, k),
{
    assert forall|x: int| 0 <= x < k implies #[trigger] p[x] == p[j - k + x] by {
        assert(p[x] == Some(d[i - k + x]));
        assert(p[j - k + x] == Some(d[i - j + (j - k + x)]));
    }
}

proof fn lemma_state_border(p: Seq<Option<u8>>, d: Seq<u8>, i: int, j: int, f: int)
    requires
        text_state(p, d, i, j),
        is_border(p, j, f),
    ensures
        text_state(p, d, i, f),
{
    assert forall|x: int| 0 <= x < f implies #[trigger] p[x] == Some(d[i - f + x]) by {
        assert(p[x] == p[j - f + x]);
        assert(p[j - f + x] == Some(d[i - j + (j - f + x)]));
    }
}

proof fn lemma_state_shrink(p: Seq<Option<u8>>, d: Seq<u8>, i: int, k: int)
    requires
        text_state(p, d, i + 1, k),
        k > 0,
    ensures
        text_state(p, d, i, k - 1),
        p[k - 1] == Some(d[i]),
{
    assert(p[k - 1] == Some(d[i + 1 - k + (k - 1)]));
    assert forall|x: int| 0 <= x < k - 1 implies #[trigger] p[x] == Some(d[i - (k - 1) + x]) by {
        assert(p[x] == Some(d[i + 1 - k + x]));
    }
}

proof fn lemma_state_grow(p: Seq<Option<u8>>, d: Seq<u8>, i: int, k: int)
    requires
        text_state(p, d, i, k),
        k < p.len(),
        i < d.len(),
        p[k] == Some(d[i]),
    ensures
        text_state(p, d, i + 1, k + 1),
{
    assert forall|x: int| 0 <= x < k + 1 implies #[trigger] p[x] == Some(d[i + 1 - (k + 1) + x]) by {
        if x < k {
            assert(p[x] == Some(d[i - k + x]));
        }
    }
}

proof fn lemma_border_narrow(p: Seq<Option<u8>>, i: int, j: int, k: int)
    requires
        is_border(p, i, j),
        is_border(p, i, k),
        k < j,
    ensures
        is_border(p, j, k),
{
    assert forall|x: int| 0 <= x < k implies #[trigger] p[x] == p[j - k + x] by {
        assert(p[x] == p[i - k + x]);
        assert(p[j - k + x] == p[i - j + (j - k + x)]);
    }
}

proof fn lemma_border_trans(p: Seq<Option<u8>>, i: int, j: int, f: int)
    requires
        is_border(p, i, j),
        is_border(p, j, f),
    ensures
        is_border(p, i, f),
{
    assert forall|x: int| 0 <= x < f implies #[trigger] p[x] == p[i - f + x] by {
        assert(p[x] == p[j - f + x]);
        assert(p[j - f + x] == p[i - j + (j - f + x)]);
    }
}

proof fn lemma_border_shrink(p: Seq<Option<u8>>, i: int, k: int)
    requires
        is_border(p, i + 1, k),
        k > 0,
    ensures
        is_border(p, i, k - 1),
        p[k - 1] == p[i],
{
    assert(p[k - 1] == p[i + 1 - k + (k - 1)]);
    assert forall|x: int| 0 <= x < k - 1 implies #[trigger] p[x] == p[i - (k - 1) + x] by {
        assert(p[x] == p[i + 1 - k + x]);
    }
}

proof fn lemma_border_grow(p: Seq<Option<u8>>, i: int, k: int)
    requires
        is_border(p, i, k),
        i < p.len(),
        p[k] == p[i],
    ensures
        is_border(p, i + 1, k + 1),
{
    assert forall|x: int| 0 <= x < k + 1 implies #[trigger] p[x] == p[i + 1 - (k + 1) + x] by {
        if x < k {
            assert(p[x] == p[i - k + x]);
        }
    }
}

/// Falling back along the failure table keeps every skipped border length
/// useless: none of them can be extended by position `i`.
proof fn lemma_failure_fallback(p: Seq<Option<u8>>, i: int, jj: int, f: int)
    requires
        is_border(p, i, jj),
        0 < jj,
        is_longest_border(p, jj, f),
        p[jj] != p[i],
        forall|k: int| jj < k < i && is_border(p, i, k) ==> p[k] != p[i],
    ensures
        is_border(p, i, f),
        forall|k: int| f < k < i && is_border(p, i, k) ==> p[k] != p[i],
{
    lemma_border_trans(p, i, jj, f);
    assert forall|k: int| f < k < i && is_border(p, i, k) implies p[k] != p[i] by {
        if k < jj {
            lemma_border_narrow(p, i, jj, k);
        }
    }
}

/// The first `k` entries of `f` are the longest proper borders of the
/// prefixes of length 1 to `k`.
#[verifier::opaque]
pub open spec fn is_failure_table(p: Seq<Option<u8>>, f: Seq<usize>, k: int) -> bool {
    forall|q: int| 0 <= q < k ==> is_longest_border(p, q + 1, #[trigger] f[q] as int)
}

proof fn lemma_failure_table_entry(p: Seq<Option<u8>>, f: Seq<usize>, k: int, q: int)
    requires
        is_failure_table(p, f, k),
        0 <= q < k,
    ensures
        is_longest_border(p, q + 1, f[q] as int),
{
    reveal(is_failure_table);
}

proof fn lemma_failure_table_extend(p: Seq<Option<u8>>, f: Seq<usize>, g: Seq<usize>, k: int)
    requires
        is_failure_table(p, f, k),
        f.len() == g.len(),
        0 <= k < g.len(),
        forall|q: int| 0 <= q < k ==> f[q] == g[q],
        is_longest_border(p, k + 1, g[k] as int),
    ensures
        is_failure_table(p, g, k + 1),
{
    reveal(is_failure_table);
    assert forall|q: int| 0 <= q < k + 1 implies is_longest_border(p, q + 1, #[trigger] g[q] as int) by {
        if q < k {
            assert(f[q] == g[q]);
        }
    }
}

/// One step of the failure-table construction: extending the prefix of
/// length `i` by position `i`.
proof fn lemma_failure_step(p: Seq<Option<u8>>, i: int, j0: int, jf: int, jn: int)
    requires
        1 <= i < p.len(),
        is_longest_border(p, i, j0),
        is_border(p, i, jf),
        jf <= j0,
        forall|k: int| jf < k < i && is_border(p, i, k) ==> p[k] != p[i],
        (jn == jf + 1 && p[jf] == p[i]) || (jn == 0 && jf == 0 && p[0] != p[i]),
    ensures
        is_longest_border(p, i + 1, jn),
{
    if jn == jf + 1 {
        lemma_border_grow(p, i, jf);
    } else {
        assert(is_border(p, i + 1, 0));
    }
    let ni = i + 1;
    assert forall|k2: int| jn < k2 < ni implies !is_border(p, ni, k2) by {
        if is_border(p, ni, k2) {
            lemma_border_shrink(p, i, k2);
        }
    }
}

/// Without wildcards, an occurrence at `o` is the whole pattern ending the
/// data at `o + m`.
proof fn lemma_occurs_state(p: Seq<Option<u8>>, d: Seq<u8>, o: int)
    requires
        no_wildcards(p),
        0 <= o,
        o + p.len() <= d.len(),
    ensures
        occurs_at(p, d, o) <==> text_state(p, d, o + p.len(), p.len() as int),
{
    let m = p.len() as int;
    if occurs_at(p, d, o) {
        assert forall|x: int| 0 <= x < m implies #[trigger] p[x] == Some(d[o + m - m + x]) by {
            assert(accepts(p[x], d[o + x]));
            assert(p[x] is Some);
        }
    }
    if text_state(p, d, o + m, m) {
        assert forall|k: int| 0 <= k < m implies #[trigger] accepts(p[k], d[o + k]) by {
            assert(p[k] == Some(d[o + m - m + k]));
        }
    }
}

/// Boyer-Moore search with the bad-character rule. Each window is compared
/// whole; after a mismatch the byte under the window's last position decides
/// the shift: `max(1, m - pos - 1)` when its rightmost exact position in the
/// pattern is `pos`, the full length `m` when it has none. Wildcards never
/// enter the table, since they accept every byte; so that a wildcard is never
/// stepped over, the shift is capped at `m - 1 - w` for the rightmost wildcard
/// position `w` (at least 1). Exact for every pattern.
pub struct BoyerMooreMatcher;

impl BoyerMooreMatcher {
    /// Maps each exact byte of the pattern to its rightmost position.
    /// Wildcards never enter the table.
    fn build_bad_char_table(pattern: &Pattern) -> (table: HashMap<u8, usize>)
        ensures
            forall|b: u8| #[trigger] table@.contains_key(b)
                <==> last_known_index(pattern@, b, pattern@.len() as int) >= 0,
            forall|b: u8| #[trigger] table@.contains_key(b)
                ==> table@[b] == last_known_index(pattern@, b, pattern@.len() as int),
    {
        broadcast use vstd::std_specs::hash::group_hash_axioms;

        let mut table: HashMap<u8, usize> = HashMap::new();
        let bytes = pattern.bytes();
        let mut i: usize = 0;
        while i < bytes.len()
            invariant
                bytes@ == pattern@,
                i <= bytes@.len(),
                forall|b: u8| #[trigger] table@.contains_key(b)
                    <==> last_known_index(pattern@, b, i as int) >= 0,
                forall|b: u8| #[trigger] table@.contains_key(b)
                    ==> table@[b] == last_known_index(pattern@, b, i as int),
            decreases bytes@.len() - i,
        {
            if let Some(byte) = bytes[i] {
                table.insert(byte, i);
            }
            proof {
                assert forall|b: u8| #[trigger] table@.contains_key(b)
                    <==> last_known_index(pattern@, b, i + 1) >= 0 by {
                    lemma_last_known_index(pattern@, b, i as int);
                }
            }
            i = i + 1;
        }
        table
    }

    /// The largest shift that steps over no wildcard: `m - 1 - w` for the
    /// rightmost wildcard position `w`, or `m` when there is none.
    fn wildcard_shift_limit(pattern: &Pattern) -> (limit: usize)
        ensures
            limit <= pattern@.len(),
            limit == if last_wildcard_index(pattern@, pattern@.len() as int) >= 0 {
                pattern@.len() - 1 - last_wildcard_index(pattern@, pattern@.len() as int)
            } else {
                pattern@.len() as int
            },
            forall|q: int| pattern@.len() - limit <= q < pattern@.len() ==> (#[trigger] pattern@[q]) is Some,
    {
        let bytes = pattern.bytes();
        let m = bytes.len();
        proof {
            lemma_last_wildcard_index(pattern@, m as int);
        }
        let mut k: usize = m;
        while k > 0
            invariant
                bytes@ == pattern@,
                m == bytes@.len(),
                k <= m,
                forall|q: int| k <= q < m ==> (#[trigger] bytes@[q]) is Some,
            decreases k,
        {
            if bytes[k - 1].is_none() {
                proof {
                    lemma_last_wildcard_index(pattern@, m as int);
                    let w = last_wildcard_index(pattern@, m as int);
                    assert(pattern@[k - 1] is None);
                    if w > k - 1 {
                        assert(bytes@[w] is Some);
                    }
                    assert(w == k - 1);
                }
                return m - k;
            }
            k = k - 1;
        }
        proof {
            if last_wildcard_index(pattern@, m as int) >= 0 {
                assert(pattern@[last_wildcard_index(pattern@, m as int)] is Some);
            }
        }
        m
    }

    /// How far to move the window after a mismatch, given the byte under the
    /// window's last position; `p` is the pattern the table was built from and
    /// `limit` its wildcard shift limit.
    fn shift_for(
        table: &HashMap<u8, usize>,
        m: usize,
        limit: usize,
        bad_char: u8,
        Ghost(p): Ghost<Seq<Option<u8>>>,
    ) -> (s: usize)
        requires
            m == p.len(),
            m > 0,
            limit <= m,
            forall|q: int| m - limit <= q < m ==> (#[trigger] p[q]) is Some,
            forall|b: u8| #[trigger] table@.contains_key(b)
                <==> last_known_index(p, b, p.len() as int) >= 0,
            forall|b: u8| #[trigger] table@.contains_key(b)
                ==> table@[b] == last_known_index(p, b, p.len() as int),
        ensures
            1 <= s <= m,
            forall|q: int| m - s <= q < m - 1 ==> !accepts(#[trigger] p[q], bad_char),
    {
        broadcast use vstd::std_specs::hash::group_hash_axioms;

        proof {
            lemma_last_known_index(p, bad_char, m as int);
        }
        let by_table = match table.get(&bad_char) {
            Some(pos) => {
                let pos = *pos;
                m - pos - 1
            },
            None => m,
        };
        let capped = if by_table < limit {
            by_table
        } else {
            limit
        };
        if capped > 1 {
            capped
        } else {
            1
        }
    }
}

impl PatternMatcher for BoyerMooreMatcher {
    open spec fn finds_all(&self, p: Seq<Option<u8>>, d: Seq<u8>, r: Seq<PatternMatch>) -> bool {
        lists_all_matches(p, d, r)
    }

    open spec fn finds_first(&self, p: Seq<Option<u8>>, d: Seq<u8>, r: Option<PatternMatch>) -> bool {
        is_first_match(p, d, r)
    }

    fn find_all(&self, pattern: &Pattern, data: &[u8]) -> (r: Vec<PatternMatch>) {
        let mut matches: Vec<PatternMatch> = Vec::new();
        let m = pattern.len();
        if m == 0 || data.len() < m {
            assert(match_offsets(matches@) =~= all_matches(pattern@, data@));
            return matches;
        }
        let table = Self::build_bad_char_table(pattern);
        let limit = Self::wildcard_shift_limit(pattern);
        let last = data.len() - m;
        let mut i: usize = 0;
        while i <= last
            invariant
                m == pattern@.len(),
                m > 0,
                last + m == data.len(),
                i <= last + m,
                forall|b: u8| #[trigger] table@.contains_key(b)
                    <==> last_known_index(pattern@, b, pattern@.len() as int) >= 0,
                forall|b: u8| #[trigger] table@.contains_key(b)
                    ==> table@[b] == last_known_index(pattern@, b, pattern@.len() as int),
                limit <= m,
                forall|q: int| m - limit <= q < m ==> (#[trigger] pattern@[q]) is Some,
                lists_true_matches(pattern@, data@, matches@),
                forall|k: int| 0 <= k < matches@.len() ==> (#[trigger] matches@[k]).offset < i,
                match_offsets(matches@) == match_offsets_below(pattern@, data@, i as int),
            decreases last + m - i,
        {
            if pattern.matches_at(data, i) {
                let ghost prev = matches@;
                matches.push(PatternMatch { offset: i, size: m });
                assert(match_offsets(matches@) =~= match_offsets(prev).push(i as int));
                i = i + 1;
            } else {
                let bad_char = data[i + m - 1];
                let s = Self::shift_for(&table, m, limit, bad_char, Ghost(pattern@));
                proof {
                    lemma_shift_skips(pattern@, data@, i as int, s as int);
                    lemma_offsets_stable(pattern@, data@, i as int, i + s);
                }
                i = i + s;
            }
        }
        proof {
            lemma_offsets_stable(pattern@, data@, last + 1, i as int);
        }
        matches
    }

    fn find_first(&self, pattern: &Pattern, data: &[u8]) -> (r: Option<PatternMatch>) {
        let m = pattern.len();
        if m == 0 || data.len() < m {
            return None;
        }
        let table = Self::build_bad_char_table(pattern);
        let limit = Self::wildcard_shift_limit(pattern);
        let last = data.len() - m;
        let mut i: usize = 0;
        while i <= last
            invariant
                m == pattern@.len(),
                m > 0,
                last + m == data.len(),
                i <= last + m,
                forall|b: u8| #[trigger] table@.contains_key(b)
                    <==> last_known_index(pattern@, b, pattern@.len() as int) >= 0,
                forall|b: u8| #[trigger] table@.contains_key(b)
                    ==> table@[b] == last_known_index(pattern@, b, pattern@.len() as int),
                limit <= m,
                forall|q: int| m - limit <= q < m ==> (#[trigger] pattern@[q]) is Some,
                forall|o: int| 0 <= o < i ==> !occurs_at(pattern@, data@, o),
            decreases last + m - i,
        {
            if pattern.matches_at(data, i) {
                return Some(PatternMatch { offset: i, size: m });
            }
            if i + m < data.len() {
                let bad_char = data[i + m - 1];
                let s = Self::shift_for(&table, m, limit, bad_char, Ghost(pattern@));
                proof {
                    lemma_shift_skips(pattern@, data@, i as int, s as int);
                }
                i = i + s;
            } else {
                i = i + 1;
            }
        }
        None
    }
}

/// Knuth-Morris-Pratt search. The failure table is built treating a wildcard
/// as equal to any position, which is classical KMP, and exact, for patterns
/// without wildcards; with wildcards it is a heuristic whose results stay in
/// bounds but may differ from the naive search.
pub struct KmpMatcher;

impl KmpMatcher {
    /// Two pattern positions are equal, or either is a wildcard.
    fn pattern_chars_equal(pattern: &Pattern, i: usize, j: usize) -> (r: bool)
        requires
            i < pattern@.len(),
            j < pattern@.len(),
        ensures
            no_wildcards(pattern@) ==> (r == (pattern@[i as int] == pattern@[j as int])),
    {
        let bytes = pattern.bytes();
        match (bytes[i], bytes[j]) {
            (Some(a), Some(b)) => a == b,
            _ => true,
        }
    }

    /// The pattern position accepts the data byte.
    fn pattern_matches_data(pattern: &Pattern, data: &[u8], pattern_idx: usize, data_idx: usize) -> (r: bool)
        requires
            pattern_idx < pattern@.len(),
            data_idx < data@.len(),
        ensures
            r == accepts(pattern@[pattern_idx as int], data@[data_idx as int]),
            no_wildcards(pattern@) ==> (r == (pattern@[pattern_idx as int] == Some(data@[data_idx as int]))),
    {
        let bytes = pattern.bytes();
        match bytes[pattern_idx] {
            Some(b) => data[data_idx] == b,
            None => true,
        }
    }

    /// Computes entry `i` of the failure table from the entries before it.
    #[verifier::spinoff_prover]
    fn extend_failure_function(pattern: &Pattern, failure: &mut Vec<usize>, i: usize)
        requires
            1 <= i < pattern@.len(),
            old(failure)@.len() == pattern@.len(),
            forall|q: int| 0 <= q < old(failure)@.len() ==> #[trigger] old(failure)@[q] <= q,
            no_wildcards(pattern@) ==> is_failure_table(pattern@, old(failure)@, i as int),
        ensures
            final(failure)@.len() == pattern@.len(),
            forall|q: int| 0 <= q < final(failure)@.len() ==> #[trigger] final(failure)@[q] <= q,
            no_wildcards(pattern@) ==> is_failure_table(pattern@, final(failure)@, i + 1),
    {
        let ghost p = pattern@;
        let m = pattern.len();
        let mut j: usize = failure[i - 1];
        let ghost j0 = j;
        proof {
            if no_wildcards(p) {
                lemma_failure_table_entry(p, failure@, i as int, i - 1);
            }
        }
        while j > 0 && !Self::pattern_chars_equal(pattern, i, j)
            invariant
                m == p.len(),
                p == pattern@,
                1 <= i < m,
                failure@.len() == m,
                j <= j0,
                j0 == failure@[i - 1],
                forall|q: int| 0 <= q < m ==> #[trigger] failure@[q] <= q,
                no_wildcards(p) ==> is_failure_table(p, failure@, i as int),
                no_wildcards(p) ==> is_border(p, i as int, j as int),
                no_wildcards(p) ==> forall|k: int| j < k < i && is_border(p, i as int, k)
                    ==> p[k] != p[i as int],
            decreases j,
        {
            let ghost jj = j;
            j = failure[j - 1];
            proof {
                if no_wildcards(p) {
                    lemma_failure_table_entry(p, failure@, i as int, jj - 1);
                    lemma_failure_fallback(p, i as int, jj as int, j as int);
                }
            }
        }
        let ghost jf = j;
        if Self::pattern_chars_equal(pattern, i, j) {
            j = j + 1;
        }
        proof {
            if no_wildcards(p) {
                lemma_failure_table_entry(p, failure@, i as int, i - 1);
                lemma_failure_step(p, i as int, j0 as int, jf as int, j as int);
            }
        }
        assert(j0 <= i - 1 && j <= i) by {
            assert(failure@[i - 1] <= i - 1);
        }
        let ghost before = failure@;
        failure.set(i, j);
        proof {
            assert forall|q: int| 0 <= q < m implies #[trigger] failure@[q] <= q by {
                if q != i {
                    assert(failure@[q] == before[q]);
                }
            }
            if no_wildcards(p) {
                lemma_failure_table_extend(p, before, failure@, i as int);
            }
        }
    }

    /// `failure[q]` is the length of the longest proper border of the first
    /// `q + 1` positions.
    #[verifier::spinoff_prover]
    fn build_failure_function(pattern: &Pattern) -> (failure: Vec<usize>)
        ensures
            failure@.len() == pattern@.len(),
            forall|q: int| 0 <= q < failure@.len() ==> #[trigger] failure@[q] <= q,
            no_wildcards(pattern@) ==> is_failure_table(pattern@, failure@, failure@.len() as int),
    {
        let m = pattern.len();
        let ghost p = pattern@;
        let mut failure: Vec<usize> = Vec::new();
        let mut z: usize = 0;
        while z < m
            invariant
                z <= m,
                failure@.len() == z,
                forall|q: int| 0 <= q < z ==> #[trigger] failure@[q] == 0,
            decreases m - z,
        {
            failure.push(0);
            z = z + 1;
        }
        if m == 0 {
            proof {
                reveal(is_failure_table);
            }
            return failure;
        }
        proof {
            if no_wildcards(p) {
                assert(is_border(p, 1, 0));
                reveal(is_failure_table);
                assert(is_failure_table(p, failure@, 1));
            }
        }
        let mut i: usize = 1;
        while i < m
            invariant
                m == p.len(),
                p == pattern@,
                1 <= i <= m,
                failure@.len() == m,
                forall|q: int| 0 <= q < m ==> #[trigger] failure@[q] <= q,
                no_wildcards(p) ==> is_failure_table(p, failure@, i as int),
            decreases m - i,
        {
            Self::extend_failure_function(pattern, &mut failure, i);
            i = i + 1;
        }
        failure
    }
}

impl PatternMatcher for KmpMatcher {
    open spec fn finds_all(&self, p: Seq<Option<u8>>, d: Seq<u8>, r: Seq<PatternMatch>) -> bool {
        &&& lists_matches_in_bounds(p, d, r)
        &&& no_wildcards(p) ==> lists_all_matches(p, d, r)
    }

    open spec fn finds_first(&self, p: Seq<Option<u8>>, d: Seq<u8>, r: Option<PatternMatch>) -> bool {
        &&& is_match_in_bounds(p, d, r)
        &&& no_wildcards(p) ==> is_first_match(p, d, r)
    }

    fn find_all(&self, pattern: &Pattern, data: &[u8]) -> (r: Vec<PatternMatch>) {
        let mut matches: Vec<PatternMatch> = Vec::new();
        let m = pattern.len();
        if m == 0 || data.len() < m {
            assert(match_offsets(matches@) =~= all_matches(pattern@, data@));
            return matches;
        }
        let ghost p = pattern@;
        let ghost d = data@;
        let failure = Self::build_failure_function(pattern);
        let n = data.len();
        let mut j: usize = 0;
        let mut i: usize = 0;
        proof {
            if no_wildcards(p) {
                assert(match_offsets(matches@) =~= match_offsets_below(p, d, 0 - m + 1));
            }
        }
        while i < n
            invariant
                p == pattern@,
                d == data@,
                m == p.len(),
                m > 0,
                n == d.len(),
                n >= m,
                i <= n,
                j < m,
                j <= i,
                failure@.len() == m,
                forall|q: int| 0 <= q < m ==> #[trigger] failure@[q] <= q,
                no_wildcards(p) ==> is_failure_table(p, failure@, m as int),
                lists_matches_in_bounds(p, d, matches@),
                forall|k: int| 0 <= k < matches@.len() ==> (#[trigger] matches@[k]).offset + m <= i,
                no_wildcards(p) ==> is_longest_state(p, d, i as int, j as int),
                no_wildcards(p) ==> match_offsets(matches@) == match_offsets_below(p, d, i - m + 1),
            decreases n - i,
        {
            let ghost j0 = j;
            while j > 0 && !Self::pattern_matches_data(pattern, data, j, i)
                invariant
                    p == pattern@,
                    d == data@,
                    m == p.len(),
                    i < n,
                    n == d.len(),
                    j <= j0,
                    j0 < m,
                    failure@.len() == m,
                    forall|q: int| 0 <= q < m ==> #[trigger] failure@[q] <= q,
                    no_wildcards(p) ==> is_failure_table(p, failure@, m as int),
                    no_wildcards(p) ==> text_state(p, d, i as int, j as int),
                    no_wildcards(p) ==> forall|k: int| j < k < m && text_state(p, d, i as int, k)
                        ==> p[k] != Some(d[i as int]),
                decreases j,
            {
                let ghost jj = j;
                j = failure[j - 1];
                proof {
                    if no_wildcards(p) {
                        lemma_failure_table_entry(p, failure@, m as int, jj - 1);
                        lemma_state_border(p, d, i as int, jj as int, j as int);
                        assert forall|k: int| j < k < m && text_state(p, d, i as int, k)
                            implies p[k] != Some(d[i as int]) by {
                            if k < jj {
                                lemma_state_narrow(p, d, i as int, jj as int, k);
                            }
                        }
                    }
                }
            }
            let ghost j1 = j;
            if Self::pattern_matches_data(pattern, data, j, i) {
                proof {
                    if no_wildcards(p) {
                        lemma_state_grow(p, d, i as int, j as int);
                    }
                }
                j = j + 1;
            }
            proof {
                if no_wildcards(p) {
                    assert(text_state(p, d, i + 1, j as int)) by {
                        if j == 0 {
                            assert(text_state(p, d, i + 1, 0));
                        }
                    }
                    let ni = i + 1;
                    assert forall|k: int| j < k <= m implies !text_state(p, d, ni, k) by {
                        if text_state(p, d, ni, k) {
                            lemma_state_shrink(p, d, i as int, k);
                        }
                    }
                    if i + 1 >= m {
                        lemma_occurs_state(p, d, i + 1 - m);
                    }
                }
            }
            if j == m {
                let ghost prev = matches@;
                matches.push(PatternMatch { offset: i + 1 - m, size: m });
                proof {
                    if no_wildcards(p) {
                        assert(match_offsets(matches@) =~= match_offsets(prev).push(i + 1 - m));
                    }
                }
                let ghost jm = j;
                j = failure[j - 1];
                proof {
                    if no_wildcards(p) {
                        lemma_failure_table_entry(p, failure@, m as int, m - 1);
                        lemma_state_border(p, d, i + 1, m as int, j as int);
                        let ni = i + 1;
                        assert forall|k: int| j < k < m implies !text_state(p, d, ni, k) by {
                            if text_state(p, d, ni, k) {
                                lemma_state_narrow(p, d, i + 1, m as int, k);
                            }
                        }
                    }
                }
            } else {
                proof {
                    if no_wildcards(p) && i + 1 >= m {
                        assert(!occurs_at(p, d, i + 1 - m));
                    }
                }
            }
            i = i + 1;
        }
        matches
    }

    fn find_first(&self, pattern: &Pattern, data: &[u8]) -> (r: Option<PatternMatch>) {
        let m = pattern.len();
        if m == 0 || data.len() < m {
            return None;
        }
        let ghost p = pattern@;
        let ghost d = data@;
        let failure = Self::build_failure_function(pattern);
        let n = data.len();
        let mut j: usize = 0;
        let mut i: usize = 0;
        while i < n
            invariant
                p == pattern@,
                d == data@,
                m == p.len(),
                m > 0,
                n == d.len(),
                n >= m,
                i <= n,
                j < m,
                j <= i,
                failure@.len() == m,
                forall|q: int| 0 <= q < m ==> #[trigger] failure@[q] <= q,
                no_wildcards(p) ==> is_failure_table(p, failure@, m as int),
                no_wildcards(p) ==> is_longest_state(p, d, i as int, j as int),
                no_wildcards(p) ==> match_offsets_below(p, d, i - m + 1).len() == 0,
            decreases n - i,
        {
            let ghost j0 = j;
            while j > 0 && !Self::pattern_matches_data(pattern, data, j, i)
                invariant
                    p == pattern@,
                    d == data@,
                    m == p.len(),
                    i < n,
                    n == d.len(),
                    j <= j0,
                    j0 < m,
                    failure@.len() == m,
                    forall|q: int| 0 <= q < m ==> #[trigger] failure@[q] <= q,
                    no_wildcards(p) ==> is_failure_table(p, failure@, m as int),
                    no_wildcards(p) ==> text_state(p, d, i as int, j as int),
                    no_wildcards(p) ==> forall|k: int| j < k < m && text_state(p, d, i as int, k)
                        ==> p[k] != Some(d[i as int]),
                decreases j,
            {
                let ghost jj = j;
                j = failure[j - 1];
                proof {
                    if no_wildcards(p) {
                        lemma_failure_table_entry(p, failure@, m as int, jj - 1);
                        lemma_state_border(p, d, i as int, jj as int, j as int);
                        assert forall|k: int| j < k < m && text_state(p, d, i as int, k)
                            implies p[k] != Some(d[i as int]) by {
                            if k < jj {
                                lemma_state_narrow(p, d, i as int, jj as int, k);
                            }
                        }
                    }
                }
            }
            if Self::pattern_matches_data(pattern, data, j, i) {
                proof {
                    if no_wildcards(p) {
                        lemma_state_grow(p, d, i as int, j as int);
                    }
                }
                j = j + 1;
            }
            proof {
                if no_wildcards(p) {
                    assert(text_state(p, d, i + 1, j as int)) by {
                        if j == 0 {
                            assert(text_state(p, d, i + 1, 0));
                        }
                    }
                    let ni = i + 1;
                    assert forall|k: int| j < k <= m implies !text_state(p, d, ni, k) by {
                        if text_state(p, d, ni, k) {
                            lemma_state_shrink(p, d, i as int, k);
                        }
                    }
                    if i + 1 >= m {
                        lemma_occurs_state(p, d, i + 1 - m);
                    }
                }
            }
            if j == m {
                proof {
                    if no_wildcards(p) {
                        lemma_offsets_members(p, d, i + 1 - m);
                    }
                }
                return Some(PatternMatch { offset: i + 1 - m, size: m });
            }
            i = i + 1;
        }
        proof {
            if no_wildcards(p) {
                lemma_offsets_members(p, d, n - m + 1);
            }
        }
        None
    }
}

} // verus!
