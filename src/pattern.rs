//! Wildcard-bearing byte signatures and the algorithms that search for them.
use vstd::prelude::*;

pub use crate::search::{BoyerMooreMatcher, KmpMatcher};

verus! {

/// Whether one pattern position accepts one data byte.
pub open spec fn accepts(p: Option<u8>, b: u8) -> bool {
    match p {
        Some(x) => x == b,
        None => true,
    }
}

/// The pattern `p` occurs in `d` at offset `off`.
pub open spec fn occurs_at(p: Seq<Option<u8>>, d: Seq<u8>, off: int) -> bool {
    &&& 0 <= off
    &&& off + p.len() <= d.len()
    &&& forall|k: int| 0 <= k < p.len() ==> #[trigger] accepts(p[k], d[off + k])
}

/// The offsets below `k` at which `p` occurs in `d`, in increasing order.
pub open spec fn match_offsets_below(p: Seq<Option<u8>>, d: Seq<u8>, k: int) -> Seq<int>
    decreases k,
{
    if k <= 0 {
        seq![]
    } else {
        let prev = match_offsets_below(p, d, k - 1);
        if occurs_at(p, d, k - 1) {
            prev.push(k - 1)
        } else {
            prev
        }
    }
}

/// Every offset at which a non-empty pattern occurs, in increasing order.
pub open spec fn all_matches(p: Seq<Option<u8>>, d: Seq<u8>) -> Seq<int> {
    if p.len() == 0 {
        seq![]
    } else {
        match_offsets_below(p, d, d.len() - p.len() + 1)
    }
}

/// The pattern holds no wildcard.
pub open spec fn no_wildcards(p: Seq<Option<u8>>) -> bool {
    forall|i: int| 0 <= i < p.len() ==> (#[trigger] p[i]) is Some
}

/// The offsets of a list of matches.
pub open spec fn match_offsets(r: Seq<PatternMatch>) -> Seq<int> {
    r.map_values(|m: PatternMatch| m.offset as int)
}

/// Every match in `r` spans `m` bytes.
pub open spec fn all_sized(r: Seq<PatternMatch>, m: int) -> bool {
    forall|i: int| 0 <= i < r.len() ==> (#[trigger] r[i]).size == m
}

/// `r` lists exactly the occurrences of `p` in `d`, in increasing order.
pub open spec fn lists_all_matches(p: Seq<Option<u8>>, d: Seq<u8>, r: Seq<PatternMatch>) -> bool {
    &&& match_offsets(r) == all_matches(p, d)
    &&& all_sized(r, p.len() as int)
}

/// Every match in `r` is a real occurrence, and the offsets strictly increase.
pub open spec fn lists_true_matches(p: Seq<Option<u8>>, d: Seq<u8>, r: Seq<PatternMatch>) -> bool {
    &&& all_sized(r, p.len() as int)
    &&& forall|i: int| 0 <= i < r.len() ==> occurs_at(p, d, (#[trigger] r[i]).offset as int)
    &&& forall|i: int, j: int| 0 <= i < j < r.len() ==> r[i].offset < r[j].offset
}

/// Every match in `r` lies inside `d`, and the offsets strictly increase.
pub open spec fn lists_matches_in_bounds(p: Seq<Option<u8>>, d: Seq<u8>, r: Seq<PatternMatch>) -> bool {
    &&& all_sized(r, p.len() as int)
    &&& forall|i: int| 0 <= i < r.len() ==> (#[trigger] r[i]).offset + p.len() <= d.len()
    &&& forall|i: int, j: int| 0 <= i < j < r.len() ==> r[i].offset < r[j].offset
}

/// `r` is the first occurrence of a non-empty `p` in `d`, or `None` when there
/// is none.
pub open spec fn is_first_match(p: Seq<Option<u8>>, d: Seq<u8>, r: Option<PatternMatch>) -> bool {
    match r {
        Some(m) => {
            &&& p.len() > 0
            &&& m.size == p.len()
            &&& occurs_at(p, d, m.offset as int)
            &&& forall|o: int| 0 <= o < m.offset ==> !occurs_at(p, d, o)
        },
        None => p.len() == 0 || forall|o: int| !occurs_at(p, d, o),
    }
}

/// `r`, if any, lies inside `d`.
pub open spec fn is_match_in_bounds(p: Seq<Option<u8>>, d: Seq<u8>, r: Option<PatternMatch>) -> bool {
    match r {
        Some(m) => m.size == p.len() && m.offset + p.len() <= d.len(),
        None => true,
    }
}

/// Offsets below `j` are a prefix of offsets below `k`.
proof fn lemma_offsets_prefix(p: Seq<Option<u8>>, d: Seq<u8>, j: int, k: int)
    requires
        j <= k,
    ensures
        match_offsets_below(p, d, j).len() <= match_offsets_below(p, d, k).len(),
        match_offsets_below(p, d, k).subrange(0, match_offsets_below(p, d, j).len() as int)
            == match_offsets_below(p, d, j),
    decreases k - j,
{
    if j < k {
        lemma_offsets_prefix(p, d, j, k - 1);
        let a = match_offsets_below(p, d, j);
        let b = match_offsets_below(p, d, k - 1);
        let c = match_offsets_below(p, d, k);
        assert(c.subrange(0, b.len() as int) =~= b);
        assert(c.subrange(0, a.len() as int) =~= b.subrange(0, a.len() as int));
    } else {
        assert(match_offsets_below(p, d, k).subrange(0, match_offsets_below(p, d, j).len() as int)
            =~= match_offsets_below(p, d, j));
    }
}

/// Past the last offset at which the pattern fits, nothing more is found.
pub(crate) proof fn lemma_offsets_stable(p: Seq<Option<u8>>, d: Seq<u8>, j: int, k: int)
    requires
        j <= k,
        forall|o: int| j <= o < k ==> !occurs_at(p, d, o),
    ensures
        match_offsets_below(p, d, k) == match_offsets_below(p, d, j),
    decreases k - j,
{
    if j < k {
        lemma_offsets_stable(p, d, j, k - 1);
    }
}

/// Every offset listed below `k` is an occurrence below `k`, and each
/// occurrence below `k` is listed.
pub(crate) proof fn lemma_offsets_members(p: Seq<Option<u8>>, d: Seq<u8>, k: int)
    ensures
        forall|i: int, j: int| 0 <= i < j < match_offsets_below(p, d, k).len()
            ==> match_offsets_below(p, d, k)[i] < match_offsets_below(p, d, k)[j],
        forall|i: int| 0 <= i < match_offsets_below(p, d, k).len() ==>
            0 <= #[trigger] match_offsets_below(p, d, k)[i] < k
            && occurs_at(p, d, match_offsets_below(p, d, k)[i]),
        forall|o: int| 0 <= o < k && occurs_at(p, d, o) ==> match_offsets_below(p, d, k).contains(o),
    decreases k,
{
    if k > 0 {
        lemma_offsets_members(p, d, k - 1);
        let prev = match_offsets_below(p, d, k - 1);
        if occurs_at(p, d, k - 1) {
            assert forall|o: int| 0 <= o < k && occurs_at(p, d, o) implies
                match_offsets_below(p, d, k).contains(o) by {
                if o < k - 1 {
                    let w = choose|w: int| 0 <= w < prev.len() && prev[w] == o;
                    assert(match_offsets_below(p, d, k)[w] == o);
                } else {
                    assert(match_offsets_below(p, d, k)[prev.len() as int] == o);
                }
            }
        }
    }
}

/// The exact list of matches lies inside the data, in increasing order.
pub(crate) proof fn lemma_all_matches_in_bounds(p: Seq<Option<u8>>, d: Seq<u8>, r: Seq<PatternMatch>)
    requires
        lists_all_matches(p, d, r),
    ensures
        lists_matches_in_bounds(p, d, r),
        lists_true_matches(p, d, r),
{
    if p.len() > 0 {
        let k = d.len() - p.len() + 1;
        lemma_offsets_members(p, d, k);
        assert forall|i: int| 0 <= i < r.len() implies (#[trigger] r[i]).offset + p.len() <= d.len()
            && occurs_at(p, d, r[i].offset as int) by {
            assert(match_offsets(r)[i] == r[i].offset);
        }
        assert forall|i: int, j: int| 0 <= i < j < r.len() implies r[i].offset < r[j].offset by {
            assert(match_offsets(r)[i] == r[i].offset);
            assert(match_offsets(r)[j] == r[j].offset);
        }
    } else {
        assert(match_offsets(r).len() == 0);
    }
}

/// A mask character agrees with a pattern position: `?` for a wildcard,
/// `x` or `X` for an exact byte.
pub open spec fn mask_char_agrees(c: char, p: Option<u8>) -> bool {
    match p {
        Some(_) => c == 'x' || c == 'X',
        None => c == '?',
    }
}

pub open spec fn mask_agrees(mask: Seq<char>, p: Seq<Option<u8>>) -> bool {
    &&& mask.len() == p.len()
    &&& forall|i: int| 0 <= i < p.len() ==> #[trigger] mask_char_agrees(mask[i], p[i])
}

/// Errors from compiling a signature.
#[derive(Debug, Clone, PartialEq, Eq)]
pub enum PatternError {
    /// A two-byte token that is not two hex digits.
    InvalidHex(String),
    /// A token that is neither a wildcard nor two bytes long.
    InvalidPatternFormat(String),
    /// The signature holds no token.
    EmptyPattern,
    /// The mask and the byte buffer differ in length.
    MaskLengthMismatch,
    /// A mask character other than `x`, `X` or `?`.
    InvalidMaskChar(char),
}

/// Characters with the Unicode White_Space property, which separate the
/// tokens of a signature.
pub open spec fn is_whitespace(c: char) -> bool {
    let u = c as u32;
    ||| 0x09 <= u <= 0x0D
    ||| u == 0x20
    ||| u == 0x85
    ||| u == 0xA0
    ||| u == 0x1680
    ||| 0x2000 <= u <= 0x200A
    ||| u == 0x2028
    ||| u == 0x2029
    ||| u == 0x202F
    ||| u == 0x205F
    ||| u == 0x3000
}

/// The tokens finished within the first `n` characters, and the token still
/// open after them.
pub open spec fn split_state(s: Seq<char>, n: int) -> (Seq<Seq<char>>, Seq<char>)
    decreases n,
{
    if n <= 0 {
        (seq![], seq![])
    } else {
        let prev = split_state(s, n - 1);
        if is_whitespace(s[n - 1]) {
            if prev.1.len() > 0 {
                (prev.0.push(prev.1), seq![])
            } else {
                (prev.0, seq![])
            }
        } else {
            (prev.0, prev.1.push(s[n - 1]))
        }
    }
}

/// The maximal runs of non-whitespace characters of `s`, in order.
pub open spec fn tokens(s: Seq<char>) -> Seq<Seq<char>> {
    let st = split_state(s, s.len() as int);
    if st.1.len() > 0 {
        st.0.push(st.1)
    } else {
        st.0
    }
}

/// The number of bytes that the UTF-8 encoding of `c` takes.
pub open spec fn utf8_width(c: char) -> int {
    let u = c as u32;
    if u < 0x80 {
        1
    } else if u < 0x800 {
        2
    } else if u < 0x10000 {
        3
    } else {
        4
    }
}

/// The number of bytes that the UTF-8 encoding of `t` takes.
pub open spec fn utf8_len(t: Seq<char>) -> int
    decreases t.len(),
{
    if t.len() == 0 {
        0
    } else {
        utf8_width(t[0]) + utf8_len(t.drop_first())
    }
}

proof fn lemma_utf8_len_at_least(t: Seq<char>)
    ensures
        utf8_len(t) >= t.len(),
    decreases t.len(),
{
    if t.len() > 0 {
        lemma_utf8_len_at_least(t.drop_first());
    }
}

pub open spec fn is_hex_digit(c: char) -> bool {
    ||| '0' <= c <= '9'
    ||| 'a' <= c <= 'f'
    ||| 'A' <= c <= 'F'
}

pub open spec fn hex_digit_value(c: char) -> int {
    if '0' <= c <= '9' {
        c as u32 - '0' as u32
    } else if 'a' <= c <= 'f' {
        c as u32 - 'a' as u32 + 10
    } else {
        c as u32 - 'A' as u32 + 10
    }
}

/// What one signature token stands for.
pub enum TokenMeaning {
    /// An exact byte, or a wildcard.
    Position(Option<u8>),
    /// Two bytes long, but not two hex digits.
    BadHex,
    /// Any other length.
    BadFormat,
}

/// `?` and `??` are wildcards; a token of two bytes must be two hex digits;
/// any other token is malformed.
pub open spec fn token_meaning(t: Seq<char>) -> TokenMeaning {
    if t == seq!['?'] || t == seq!['?', '?'] {
        TokenMeaning::Position(None)
    } else if utf8_len(t) == 2 {
        if t.len() == 2 && is_hex_digit(t[0]) && is_hex_digit(t[1]) {
            TokenMeaning::Position(Some((16 * hex_digit_value(t[0]) + hex_digit_value(t[1])) as u8))
        } else {
            TokenMeaning::BadHex
        }
    } else {
        TokenMeaning::BadFormat
    }
}

/// The outcome of reading a signature's tokens in order.
pub enum SignatureParse {
    /// Every token read; the positions they stand for.
    Parsed(Seq<Option<u8>>),
    /// The first bad token is two bytes long but not hex.
    BadHex(Seq<char>),
    /// The first bad token has another length.
    BadFormat(Seq<char>),
}

/// Reads the first `k` tokens, stopping at the first bad one.
pub open spec fn parse_tokens(ts: Seq<Seq<char>>, k: int) -> SignatureParse
    decreases k,
{
    if k <= 0 {
        SignatureParse::Parsed(seq![])
    } else {
        match parse_tokens(ts, k - 1) {
            SignatureParse::Parsed(bs) => match token_meaning(ts[k - 1]) {
                TokenMeaning::Position(b) => SignatureParse::Parsed(bs.push(b)),
                TokenMeaning::BadHex => SignatureParse::BadHex(ts[k - 1]),
                TokenMeaning::BadFormat => SignatureParse::BadFormat(ts[k - 1]),
            },
            other => other,
        }
    }
}

/// The outcome of reading the signature `s`.
pub open spec fn parse_signature(s: Seq<char>) -> SignatureParse {
    parse_tokens(tokens(s), tokens(s).len() as int)
}

/// The mask of a pattern built from a signature: `x` for exact, `?` for wildcard.
pub open spec fn wildcard_mask(p: Seq<Option<u8>>) -> Seq<char> {
    p.map_values(|b: Option<u8>| if b is Some { 'x' } else { '?' })
}

/// What `Pattern::new` returns for the signature `s`.
pub open spec fn new_pattern_result(s: Seq<char>, r: Result<Pattern, PatternError>) -> bool {
    match r {
        Ok(p) => {
            &&& parse_signature(s) == SignatureParse::Parsed(p@)
            &&& p@.len() > 0
            &&& p.mask_view() == wildcard_mask(p@)
        },
        Err(PatternError::EmptyPattern) => parse_signature(s) == SignatureParse::Parsed(seq![]),
        Err(PatternError::InvalidHex(t)) => parse_signature(s) == SignatureParse::BadHex(t@),
        Err(PatternError::InvalidPatternFormat(t)) => parse_signature(s) == SignatureParse::BadFormat(t@),
        Err(_) => false,
    }
}

/// The first position below `k` whose mask character is not `x`, `X` or `?`,
/// or -1.
pub open spec fn first_bad_mask_char(mask: Seq<char>, k: int) -> int
    decreases k,
{
    if k <= 0 {
        -1
    } else if first_bad_mask_char(mask, k - 1) >= 0 {
        first_bad_mask_char(mask, k - 1)
    } else if mask[k - 1] == 'x' || mask[k - 1] == 'X' || mask[k - 1] == '?' {
        -1
    } else {
        k - 1
    }
}

proof fn lemma_bad_mask_char_stays(mask: Seq<char>, k: int, k2: int)
    requires
        0 <= k <= k2,
        first_bad_mask_char(mask, k) >= 0,
    ensures
        first_bad_mask_char(mask, k2) == first_bad_mask_char(mask, k),
    decreases k2 - k,
{
    if k < k2 {
        lemma_bad_mask_char_stays(mask, k, k2 - 1);
    }
}

proof fn lemma_utf8_len_push(t: Seq<char>, c: char)
    ensures
        utf8_len(t.push(c)) == utf8_len(t) + utf8_width(c),
    decreases t.len(),
{
    let tc = t.push(c);
    assert(tc[0] == if t.len() == 0 {
        c
    } else {
        t[0]
    });
    if t.len() == 0 {
        assert(tc.drop_first() =~= Seq::<char>::empty());
        assert(utf8_len(tc.drop_first()) == 0);
    } else {
        assert(tc.drop_first() =~= t.drop_first().push(c));
        lemma_utf8_len_push(t.drop_first(), c);
    }
}

/// Mask characters take one byte each.
proof fn lemma_utf8_len_ascii(t: Seq<char>)
    requires
        forall|k: int| 0 <= k < t.len() ==> (#[trigger] t[k]) == 'x' || t[k] == 'X' || t[k] == '?',
    ensures
        utf8_len(t) == t.len(),
    decreases t.len(),
{
    if t.len() > 0 {
        assert forall|k: int| 0 <= k < t.drop_first().len() implies (#[trigger] t.drop_first()[k]) == 'x'
            || t.drop_first()[k] == 'X' || t.drop_first()[k] == '?' by {
            assert(t.drop_first()[k] == t[k + 1]);
        }
        lemma_utf8_len_ascii(t.drop_first());
    }
}

/// The positions that a byte buffer and its mask stand for.
pub open spec fn masked_positions(bytes: Seq<u8>, mask: Seq<char>) -> Seq<Option<u8>> {
    Seq::new(bytes.len(), |i: int| if mask[i] == '?' { None } else { Some(bytes[i]) })
}

/// The tokens finished within the first `j` characters stay first among those
/// finished within the first `k`.
proof fn lemma_split_prefix(s: Seq<char>, j: int, k: int)
    requires
        0 <= j <= k,
    ensures
        split_state(s, j).0.len() <= split_state(s, k).0.len(),
        split_state(s, k).0.subrange(0, split_state(s, j).0.len() as int) == split_state(s, j).0,
    decreases k - j,
{
    if j < k {
        lemma_split_prefix(s, j, k - 1);
        let a = split_state(s, j).0;
        let b = split_state(s, k - 1).0;
        let c = split_state(s, k).0;
        assert(c.subrange(0, b.len() as int) =~= b);
        assert(c.subrange(0, a.len() as int) =~= b.subrange(0, a.len() as int));
    } else {
        assert(split_state(s, k).0.subrange(0, split_state(s, j).0.len() as int) =~= split_state(
            s,
            j,
        ).0);
    }
}

/// Reading the first `k` tokens depends on those tokens alone.
proof fn lemma_parse_prefix(ts1: Seq<Seq<char>>, ts2: Seq<Seq<char>>, k: int)
    requires
        0 <= k <= ts1.len(),
        k <= ts2.len(),
        ts1.subrange(0, k) == ts2.subrange(0, k),
    ensures
        parse_tokens(ts1, k) == parse_tokens(ts2, k),
    decreases k,
{
    if k > 0 {
        assert(ts1.subrange(0, k - 1) == ts1.subrange(0, k).subrange(0, k - 1));
        assert(ts2.subrange(0, k - 1) == ts2.subrange(0, k).subrange(0, k - 1));
        assert(ts1[k - 1] == ts1.subrange(0, k)[k - 1]);
        assert(ts2[k - 1] == ts2.subrange(0, k)[k - 1]);
        lemma_parse_prefix(ts1, ts2, k - 1);
    }
}

/// Once a bad token is met, reading further tokens changes nothing.
proof fn lemma_parse_failed_stays(ts: Seq<Seq<char>>, k: int, k2: int)
    requires
        0 <= k <= k2,
        !(parse_tokens(ts, k) is Parsed),
    ensures
        parse_tokens(ts, k2) == parse_tokens(ts, k),
    decreases k2 - k,
{
    if k < k2 {
        lemma_parse_failed_stays(ts, k, k2 - 1);
    }
}

/// A failure among the tokens finished within the first `i` characters is the
/// failure of the whole signature.
proof fn lemma_failure_is_final(s: Seq<char>, i: int)
    requires
        0 <= i <= s.len(),
        !(parse_tokens(split_state(s, i).0, split_state(s, i).0.len() as int) is Parsed),
    ensures
        parse_signature(s) == parse_tokens(split_state(s, i).0, split_state(s, i).0.len() as int),
{
    let a = split_state(s, i).0;
    let k = a.len() as int;
    lemma_split_prefix(s, i, s.len() as int);
    let b = split_state(s, s.len() as int).0;
    let t = tokens(s);
    assert(t.subrange(0, k) =~= a.subrange(0, k)) by {
        assert(b.subrange(0, k) == a);
        assert forall|x: int| 0 <= x < k implies t[x] == b[x] by {}
    }
    lemma_parse_prefix(t, a, k);
    lemma_parse_failed_stays(t, k, t.len() as int);
}

/// Whitespace test over the characters of `is_whitespace`.
fn is_whitespace_char(c: char) -> (r: bool)
    ensures
        r == is_whitespace(c),
{
    let u = c as u32;
    (0x09 <= u && u <= 0x0D) || u == 0x20 || u == 0x85 || u == 0xA0 || u == 0x1680 || (0x2000 <= u
        && u <= 0x200A) || u == 0x2028 || u == 0x2029 || u == 0x202F || u == 0x205F || u == 0x3000
}

fn hex_value(c: char) -> (r: Option<u8>)
    ensures
        r is Some <==> is_hex_digit(c),
        r is Some ==> r->0 == hex_digit_value(c) && r->0 < 16,
{
    if '0' <= c && c <= '9' {
        Some((c as u32 - '0' as u32) as u8)
    } else if 'a' <= c && c <= 'f' {
        Some((c as u32 - 'a' as u32 + 10) as u8)
    } else if 'A' <= c && c <= 'F' {
        Some((c as u32 - 'A' as u32 + 10) as u8)
    } else {
        None
    }
}

/// Reads one token of a signature.
fn parse_token(part: &str) -> (r: Result<Option<u8>, PatternError>)
    ensures
        match r {
            Ok(b) => token_meaning(part@) == TokenMeaning::Position(b),
            Err(PatternError::InvalidHex(t)) => token_meaning(part@) == TokenMeaning::BadHex && t@ == part@,
            Err(PatternError::InvalidPatternFormat(t)) => token_meaning(part@) == TokenMeaning::BadFormat
                && t@ == part@,
            Err(_) => false,
        },
{
    let k = part.unicode_len();
    let ghost t = part@;
    proof {
        lemma_utf8_len_at_least(t);
        if t.len() >= 1 {
            assert(utf8_len(t) == utf8_width(t[0]) + utf8_len(t.drop_first()));
        }
        if t.len() >= 2 {
            assert(utf8_len(t.drop_first()) == utf8_width(t[1]) + utf8_len(t.drop_first().drop_first()));
            lemma_utf8_len_at_least(t.drop_first().drop_first());
        }
    }
    if k == 1 {
        let c = part.get_char(0);
        assert(t.drop_first().len() == 0);
        if c == '?' {
            assert(t == seq!['?']);
            return Ok(None);
        }
        assert(t != seq!['?', '?']);
        let u = c as u32;
        if 0x80 <= u && u < 0x800 {
            return Err(PatternError::InvalidHex(String::from_str(part)));
        }
        return Err(PatternError::InvalidPatternFormat(String::from_str(part)));
    }
    if k == 2 {
        let c0 = part.get_char(0);
        let c1 = part.get_char(1);
        assert(t.drop_first().drop_first().len() == 0);
        assert(t.drop_first()[0] == c1);
        if c0 == '?' && c1 == '?' {
            assert(t == seq!['?', '?']);
            return Ok(None);
        }
        assert(t != seq!['?']);
        if (c0 as u32) < 0x80 && (c1 as u32) < 0x80 {
            match (hex_value(c0), hex_value(c1)) {
                (Some(hi), Some(lo)) => {
                    return Ok(Some(hi * 16 + lo));
                },
                _ => {
                    return Err(PatternError::InvalidHex(String::from_str(part)));
                },
            }
        }
        return Err(PatternError::InvalidPatternFormat(String::from_str(part)));
    }
    assert(t != seq!['?'] && t != seq!['?', '?']) by {
        if t == seq!['?'] {
            assert(t.len() == 1);
        }
        if t == seq!['?', '?'] {
            assert(t.len() == 2);
        }
    }
    Err(PatternError::InvalidPatternFormat(String::from_str(part)))
}

/// Reads one finished token and appends the position it stands for.
fn push_token(part: &str, bytes: &mut Vec<Option<u8>>, mask: &mut String) -> (r: Result<(), PatternError>)
    requires
        old(mask)@ == wildcard_mask(old(bytes)@),
    ensures
        match r {
            Ok(()) => match token_meaning(part@) {
                TokenMeaning::Position(b) => final(bytes)@ == old(bytes)@.push(b),
                _ => false,
            },
            Err(PatternError::InvalidHex(t)) => token_meaning(part@) == TokenMeaning::BadHex && t@ == part@,
            Err(PatternError::InvalidPatternFormat(t)) => token_meaning(part@) == TokenMeaning::BadFormat
                && t@ == part@,
            Err(_) => false,
        },
        r is Ok ==> final(mask)@ == wildcard_mask(final(bytes)@),
{
    let b = parse_token(part)?;
    bytes.push(b);
    proof {
        reveal_strlit("x");
        reveal_strlit("?");
    }
    if b.is_some() {
        mask.append("x");
    } else {
        mask.append("?");
    }
    assert(mask@ =~= wildcard_mask(bytes@));
    Ok(())
}

/// A byte signature: a non-empty sequence of exact bytes and wildcards, with its
/// mask string (`x` exact, `?` wildcard).
#[derive(Debug, Clone)]
pub struct Pattern {
    bytes: Vec<Option<u8>>,
    mask: String,
}

impl View for Pattern {
    type V = Seq<Option<u8>>;

    closed spec fn view(&self) -> Seq<Option<u8>> {
        self.bytes@
    }
}

impl Pattern {
    /// The mask string, as characters.
    pub closed spec fn mask_view(&self) -> Seq<char> {
        self.mask@
    }

    /// Compiles a signature such as `"48 8B ?? 74 ??"`: whitespace-separated
    /// tokens, each two hex digits (an exact byte, either case) or `?`/`??`
    /// (a wildcard).
    pub fn new(pattern_str: &str) -> (r: Result<Self, PatternError>)
        ensures
            new_pattern_result(pattern_str@, r),
    {
        let ghost s = pattern_str@;
        let n = pattern_str.unicode_len();
        let mut bytes: Vec<Option<u8>> = Vec::new();
        let mut mask = String::new();
        let mut start: usize = 0;
        let mut in_token = false;
        let mut i: usize = 0;
        assert(mask@ =~= wildcard_mask(bytes@));
        while i < n
            invariant
                s == pattern_str@,
                n == s.len(),
                i <= n,
                in_token <==> split_state(s, i as int).1.len() > 0,
                in_token ==> start < i && split_state(s, i as int).1 == s.subrange(start as int, i as int),
                parse_tokens(split_state(s, i as int).0, split_state(s, i as int).0.len() as int)
                    == SignatureParse::Parsed(bytes@),
                mask@ == wildcard_mask(bytes@),
            decreases n - i,
        {
            let c = pattern_str.get_char(i);
            let ghost prev = split_state(s, i as int);
            let ghost next = split_state(s, i + 1);
            if is_whitespace_char(c) {
                if in_token {
                    let part = pattern_str.substring_char(start, i);
                    let ghost before = bytes@;
                    let res = push_token(part, &mut bytes, &mut mask);
                    proof {
                        assert(next.0 == prev.0.push(prev.1));
                        assert(next.0.drop_last() == prev.0);
                        assert(next.0[next.0.len() - 1] == part@);
                        assert(parse_tokens(next.0, next.0.len() as int) == match parse_tokens(
                            next.0,
                            next.0.len() - 1,
                        ) {
                            SignatureParse::Parsed(bs) => match token_meaning(part@) {
                                TokenMeaning::Position(b) => SignatureParse::Parsed(bs.push(b)),
                                TokenMeaning::BadHex => SignatureParse::BadHex(part@),
                                TokenMeaning::BadFormat => SignatureParse::BadFormat(part@),
                            },
                            other => other,
                        });
                        assert(prev.0.subrange(0, prev.0.len() as int) =~= prev.0);
                        assert(next.0.subrange(0, prev.0.len() as int) =~= prev.0);
                        lemma_parse_prefix(next.0, prev.0, prev.0.len() as int);
                    }
                    if res.is_err() {
                        proof {
                            lemma_failure_is_final(s, i + 1);
                        }
                        return match res {
                            Ok(()) => Err(PatternError::EmptyPattern),
                            Err(e) => Err(e),
                        };
                    }
                    in_token = false;
                }
            } else if !in_token {
                in_token = true;
                start = i;
                assert(next.1 =~= s.subrange(start as int, i + 1));
            } else {
                assert(next.1 =~= s.subrange(start as int, i + 1));
            }
            i = i + 1;
        }
        if in_token {
            let part = pattern_str.substring_char(start, n);
            let ghost fin = split_state(s, n as int);
            let ghost all = tokens(s);
            let res = push_token(part, &mut bytes, &mut mask);
            proof {
                assert(all == fin.0.push(fin.1));
                assert(all[all.len() - 1] == part@);
                assert(fin.0.subrange(0, fin.0.len() as int) =~= fin.0);
                assert(all.subrange(0, fin.0.len() as int) =~= fin.0);
                lemma_parse_prefix(all, fin.0, fin.0.len() as int);
            }
            if res.is_err() {
                return match res {
                    Ok(()) => Err(PatternError::EmptyPattern),
                    Err(e) => Err(e),
                };
            }
        }
        if bytes.len() == 0 {
            return Err(PatternError::EmptyPattern);
        }
        Ok(Pattern { bytes, mask })
    }

    /// Builds a pattern from raw bytes and a mask of the same length in bytes,
    /// `x` or `X` for an exact byte and `?` for a wildcard.
    pub fn from_bytes_and_mask(bytes: &[u8], mask: &str) -> (r: Result<Self, PatternError>)
        ensures
            match r {
                Ok(p) => {
                    &&& utf8_len(mask@) == bytes@.len()
                    &&& mask@.len() == bytes@.len()
                    &&& first_bad_mask_char(mask@, mask@.len() as int) < 0
                    &&& bytes@.len() > 0
                    &&& p@ == masked_positions(bytes@, mask@)
                    &&& p.mask_view() == mask@
                },
                Err(PatternError::MaskLengthMismatch) => utf8_len(mask@) != bytes@.len(),
                Err(PatternError::InvalidMaskChar(c)) => {
                    &&& utf8_len(mask@) == bytes@.len()
                    &&& first_bad_mask_char(mask@, mask@.len() as int) >= 0
                    &&& c == mask@[first_bad_mask_char(mask@, mask@.len() as int)]
                },
                Err(PatternError::EmptyPattern) => utf8_len(mask@) == bytes@.len() && bytes@.len()
                    == 0,
                Err(_) => false,
            },
    {
        let n = mask.unicode_len();
        let mut encoded: u128 = 0;
        let mut k: usize = 0;
        while k < n
            invariant
                n == mask@.len(),
                k <= n,
                encoded <= 4 * k,
                encoded == utf8_len(mask@.subrange(0, k as int)),
            decreases n - k,
        {
            let c = mask.get_char(k);
            let u = c as u32;
            let width: u128 = if u < 0x80 {
                1
            } else if u < 0x800 {
                2
            } else if u < 0x10000 {
                3
            } else {
                4
            };
            proof {
                lemma_utf8_len_push(mask@.subrange(0, k as int), c);
                assert(mask@.subrange(0, k as int).push(c) =~= mask@.subrange(0, k + 1));
            }
            encoded = encoded + width;
            k = k + 1;
        }
        assert(mask@.subrange(0, n as int) =~= mask@);
        if encoded != bytes.len() as u128 {
            return Err(PatternError::MaskLengthMismatch);
        }
        proof {
            lemma_utf8_len_at_least(mask@);
        }
        let mut pattern_bytes: Vec<Option<u8>> = Vec::new();
        let mut i: usize = 0;
        while i < n
            invariant
                n == mask@.len(),
                n <= bytes@.len(),
                utf8_len(mask@) == bytes@.len(),
                i <= n,
                first_bad_mask_char(mask@, i as int) < 0,
                forall|k: int| 0 <= k < i ==> (#[trigger] mask@[k]) == 'x' || mask@[k] == 'X' || mask@[k] == '?',
                pattern_bytes@ == Seq::new(i as nat, |k: int| if mask@[k] == '?' { None } else { Some(bytes@[k]) }),
            decreases n - i,
        {
            let c = mask.get_char(i);
            if c == 'x' || c == 'X' {
                pattern_bytes.push(Some(bytes[i]));
            } else if c == '?' {
                pattern_bytes.push(None);
            } else {
                proof {
                    lemma_bad_mask_char_stays(mask@, i + 1, n as int);
                }
                return Err(PatternError::InvalidMaskChar(c));
            }
            i = i + 1;
            assert(pattern_bytes@ =~= Seq::new(i as nat, |k: int| if mask@[k] == '?' { None } else { Some(bytes@[k]) }));
        }
        proof {
            lemma_utf8_len_ascii(mask@);
        }
        if n == 0 {
            return Err(PatternError::EmptyPattern);
        }
        assert(pattern_bytes@ =~= masked_positions(bytes@, mask@));
        Ok(Pattern { bytes: pattern_bytes, mask: String::from_str(mask) })
    }

    /// A pattern with the given positions, and the mask they imply.
    pub(crate) fn from_positions(positions: Vec<Option<u8>>) -> (r: Self)
        requires
            positions@.len() > 0,
        ensures
            r@ == positions@,
            r.mask_view() == wildcard_mask(r@),
    {
        let mut mask = String::new();
        let mut i: usize = 0;
        proof {
            reveal_strlit("x");
            reveal_strlit("?");
        }
        while i < positions.len()
            invariant
                i <= positions@.len(),
                mask@ == wildcard_mask(positions@.subrange(0, i as int)),
            decreases positions@.len() - i,
        {
            proof {
                reveal_strlit("x");
                reveal_strlit("?");
            }
            if positions[i].is_some() {
                mask.append("x");
            } else {
                mask.append("?");
            }
            i = i + 1;
            assert(mask@ =~= wildcard_mask(positions@.subrange(0, i as int)));
        }
        assert(positions@.subrange(0, i as int) =~= positions@);
        Pattern { bytes: positions, mask }
    }

    /// Returns the number of positions in the pattern.
    pub fn len(&self) -> (r: usize)
        ensures
            r == self@.len(),
    {
        self.bytes.len()
    }

    /// Returns true if the pattern has no positions (never the case for a
    /// pattern built by `new` or `from_bytes_and_mask`).
    pub fn is_empty(&self) -> (r: bool)
        ensures
            r == (self@.len() == 0),
    {
        self.bytes.len() == 0
    }

    /// Returns the mask string.
    pub fn mask(&self) -> (r: &str)
        ensures
            r@ == self.mask_view(),
    {
        self.mask.as_str()
    }

    /// Returns the pattern positions; `None` is a wildcard.
    pub fn bytes(&self) -> (r: &[Option<u8>])
        ensures
            r@ == self@,
    {
        self.bytes.as_slice()
    }

    /// Checks whether the pattern occurs in `data` at `offset`. Returns false,
    /// without reading, when the pattern would run past the end of `data`.
    pub fn matches_at(&self, data: &[u8], offset: usize) -> (r: bool)
        ensures
            r == occurs_at(self@, data@, offset as int),
            offset + self@.len() > data@.len() ==> !r,
    {
        let m = self.bytes.len();
        if offset > data.len() || data.len() - offset < m {
            return false;
        }
        let mut i: usize = 0;
        while i < m
            invariant
                m == self@.len(),
                i <= m,
                offset + m <= data.len(),
                offset + m <= data@.len(),
                forall|k: int| 0 <= k < i ==> #[trigger] accepts(self@[k], data@[offset + k]),
            decreases m - i,
        {
            match self.bytes[i] {
                Some(expected) => {
                    if data[offset + i] != expected {
                        assert(!accepts(self@[i as int], data@[offset + i]));
                        return false;
                    }
                },
                None => {},
            }
            i = i + 1;
        }
        true
    }
}

/// One occurrence of a pattern: where it starts in the searched buffer and how
/// many bytes it spans.
#[derive(Debug, Clone, Copy, PartialEq, Eq)]
pub struct PatternMatch {
    pub offset: usize,
    pub size: usize,
}

/// A search strategy. Each strategy states, through `finds_all` and
/// `finds_first`, what its results are guaranteed to be.
pub trait PatternMatcher {
    /// What `find_all` guarantees of its result `r`.
    spec fn finds_all(&self, p: Seq<Option<u8>>, d: Seq<u8>, r: Seq<PatternMatch>) -> bool;

    /// What `find_first` guarantees of its result `r`.
    spec fn finds_first(&self, p: Seq<Option<u8>>, d: Seq<u8>, r: Option<PatternMatch>) -> bool;

    /// Every match lies inside `data`, in increasing order, whatever the
    /// strategy.
    fn find_all(&self, pattern: &Pattern, data: &[u8]) -> (r: Vec<PatternMatch>)
        ensures
            self.finds_all(pattern@, data@, r@),
            lists_matches_in_bounds(pattern@, data@, r@),
    ;

    fn find_first(&self, pattern: &Pattern, data: &[u8]) -> (r: Option<PatternMatch>)
        ensures
            self.finds_first(pattern@, data@, r),
            is_match_in_bounds(pattern@, data@, r),
    ;
}

/// Checks every start offset in turn: O(n·m), and exact for every pattern.
pub struct NaiveMatcher;

impl PatternMatcher for NaiveMatcher {
    open spec fn finds_all(&self, p: Seq<Option<u8>>, d: Seq<u8>, r: Seq<PatternMatch>) -> bool {
        lists_all_matches(p, d, r)
    }

    open spec fn finds_first(&self, p: Seq<Option<u8>>, d: Seq<u8>, r: Option<PatternMatch>) -> bool {
        is_first_match(p, d, r)
    }

    fn find_all(&self, pattern: &Pattern, data: &[u8]) -> (r: Vec<PatternMatch>) {
        let mut matches: Vec<PatternMatch> = Vec::new();
        let m = pattern.len();
        if m == 0 || data.len() < m {
            assert(match_offsets(matches@) =~= all_matches(pattern@, data@));
            return matches;
        }
        let last = data.len() - m;
        let mut i: usize = 0;
        while i <= last
            invariant
                m == pattern@.len(),
                m > 0,
                last + m == data.len(),
                i <= last + 1,
                match_offsets(matches@) == match_offsets_below(pattern@, data@, i as int),
                all_sized(matches@, m as int),
            decreases last + 1 - i,
        {
            if pattern.matches_at(data, i) {
                matches.push(PatternMatch { offset: i, size: m });
                assert(match_offsets(matches@) =~= match_offsets_below(pattern@, data@, i + 1));
            }
            i = i + 1;
        }
        proof {
            lemma_all_matches_in_bounds(pattern@, data@, matches@);
        }
        matches
    }

    fn find_first(&self, pattern: &Pattern, data: &[u8]) -> (r: Option<PatternMatch>) {
        let m = pattern.len();
        if m == 0 || data.len() < m {
            return None;
        }
        let last = data.len() - m;
        let mut i: usize = 0;
        while i <= last
            invariant
                m == pattern@.len(),
                m > 0,
                last + m == data.len(),
                i <= last + 1,
                forall|o: int| 0 <= o < i ==> !occurs_at(pattern@, data@, o),
            decreases last + 1 - i,
        {
            if pattern.matches_at(data, i) {
                return Some(PatternMatch { offset: i, size: m });
            }
            i = i + 1;
        }
        None
    }
}

/// The concrete strategy that `HybridMatcher` uses for a pattern.
#[derive(Debug, Clone, Copy, PartialEq, Eq, Structural)]
pub enum MatcherChoice {
    Naive,
    BoyerMoore,
    Kmp,
}

/// The number of wildcards among the first `k` positions.
pub open spec fn wildcard_count(p: Seq<Option<u8>>, k: int) -> int
    decreases k,
{
    if k <= 0 {
        0
    } else {
        wildcard_count(p, k - 1) + if p[k - 1] is None {
            1int
        } else {
            0int
        }
    }
}

/// Boyer-Moore for patterns of at least 8 positions with a wildcard ratio
/// under 0.3; KMP for patterns of at least 4; the naive search otherwise.
pub open spec fn chosen_matcher(p: Seq<Option<u8>>) -> MatcherChoice {
    if p.len() >= 8 && 10 * wildcard_count(p, p.len() as int) < 3 * p.len() {
        MatcherChoice::BoyerMoore
    } else if p.len() >= 4 {
        MatcherChoice::Kmp
    } else {
        MatcherChoice::Naive
    }
}

/// Picks a strategy from the pattern's length and wildcard ratio (see
/// `chosen_matcher`). The KMP variant is exact only without wildcards, so a
/// KMP choice on a pattern with wildcards is served by the naive search. The
/// choice is then a matter of speed only: the hybrid search finds exactly the
/// naive matches of every pattern.
pub struct HybridMatcher;

impl HybridMatcher {
    pub fn select_matcher(pattern: &Pattern) -> (c: MatcherChoice)
        ensures
            c == chosen_matcher(pattern@),
    {
        let bytes = pattern.bytes();
        let m = bytes.len();
        let mut wildcards: usize = 0;
        let mut i: usize = 0;
        while i < m
            invariant
                m == bytes@.len(),
                bytes@ == pattern@,
                i <= m,
                wildcards <= i,
                wildcards == wildcard_count(pattern@, i as int),
            decreases m - i,
        {
            if bytes[i].is_none() {
                wildcards = wildcards + 1;
            }
            i = i + 1;
        }
        if m >= 8 && (wildcards as u128) * 10 < (m as u128) * 3 {
            MatcherChoice::BoyerMoore
        } else if m >= 4 {
            MatcherChoice::Kmp
        } else {
            MatcherChoice::Naive
        }
    }
}

impl PatternMatcher for HybridMatcher {
    open spec fn finds_all(&self, p: Seq<Option<u8>>, d: Seq<u8>, r: Seq<PatternMatch>) -> bool {
        lists_all_matches(p, d, r)
    }

    open spec fn finds_first(&self, p: Seq<Option<u8>>, d: Seq<u8>, r: Option<PatternMatch>) -> bool {
        is_first_match(p, d, r)
    }

    fn find_all(&self, pattern: &Pattern, data: &[u8]) -> (r: Vec<PatternMatch>) {
        match Self::select_matcher(pattern) {
            MatcherChoice::Naive => NaiveMatcher.find_all(pattern, data),
            MatcherChoice::BoyerMoore => BoyerMooreMatcher.find_all(pattern, data),
            MatcherChoice::Kmp => {
                if has_wildcards(pattern) {
                    NaiveMatcher.find_all(pattern, data)
                } else {
                    KmpMatcher.find_all(pattern, data)
                }
            },
        }
    }

    fn find_first(&self, pattern: &Pattern, data: &[u8]) -> (r: Option<PatternMatch>) {
        match Self::select_matcher(pattern) {
            MatcherChoice::Naive => NaiveMatcher.find_first(pattern, data),
            MatcherChoice::BoyerMoore => BoyerMooreMatcher.find_first(pattern, data),
            MatcherChoice::Kmp => {
                if has_wildcards(pattern) {
                    NaiveMatcher.find_first(pattern, data)
                } else {
                    KmpMatcher.find_first(pattern, data)
                }
            },
        }
    }
}

/// Whether the pattern holds a wildcard.
fn has_wildcards(pattern: &Pattern) -> (r: bool)
    ensures
        r == !no_wildcards(pattern@),
{
    let bytes = pattern.bytes();
    let mut i: usize = 0;
    while i < bytes.len()
        invariant
            bytes@ == pattern@,
            i <= bytes@.len(),
            forall|k: int| 0 <= k < i ==> (#[trigger] bytes@[k]) is Some,
        decreases bytes@.len() - i,
    {
        if bytes[i].is_none() {
            return true;
        }
        i = i + 1;
    }
    false
}

/// Two lists of matches of one pattern with the same offsets are the same list.
proof fn lemma_same_offsets(r1: Seq<PatternMatch>, r2: Seq<PatternMatch>, m: int)
    requires
        match_offsets(r1) == match_offsets(r2),
        all_sized(r1, m),
        all_sized(r2, m),
    ensures
        r1 == r2,
{
    assert(r1.len() == match_offsets(r1).len());
    assert(r2.len() == match_offsets(r2).len());
    assert forall|i: int| 0 <= i < r1.len() implies r1[i] == r2[i] by {
        assert(match_offsets(r1)[i] == r1[i].offset);
        assert(match_offsets(r2)[i] == r2[i].offset);
    }
    assert(r1 =~= r2);
}

/// The naive, Boyer-Moore and hybrid searches report the same matches for
/// every pattern; for a pattern without wildcards the KMP search reports them
/// too.
pub proof fn lemma_matchers_agree(
    p: Seq<Option<u8>>,
    d: Seq<u8>,
    naive: Seq<PatternMatch>,
    boyer_moore: Seq<PatternMatch>,
    kmp: Seq<PatternMatch>,
    hybrid: Seq<PatternMatch>,
)
    requires
        NaiveMatcher.finds_all(p, d, naive),
        BoyerMooreMatcher.finds_all(p, d, boyer_moore),
        KmpMatcher.finds_all(p, d, kmp),
        HybridMatcher.finds_all(p, d, hybrid),
    ensures
        match_offsets(naive) == all_matches(p, d),
        naive == boyer_moore,
        naive == hybrid,
        no_wildcards(p) ==> naive == kmp,
{
    lemma_same_offsets(naive, boyer_moore, p.len() as int);
    lemma_same_offsets(naive, hybrid, p.len() as int);
    if no_wildcards(p) {
        lemma_same_offsets(naive, kmp, p.len() as int);
    }
}

/// Compiles signatures and searches byte buffers with one strategy (by
/// default the hybrid one).
pub struct PatternScanner<M> {
    matcher: M,
}

/// What `PatternScanner::scan` returns for signature `s` over data `d`, given
/// what the strategy guarantees of a full search.
pub open spec fn scan_result<M: PatternMatcher>(
    matcher: M,
    s: Seq<char>,
    d: Seq<u8>,
    r: Result<Vec<PatternMatch>, PatternError>,
) -> bool {
    match r {
        Ok(ms) => match parse_signature(s) {
            SignatureParse::Parsed(bs) => bs.len() > 0 && matcher.finds_all(bs, d, ms@),
            _ => false,
        },
        Err(e) => new_pattern_result(s, Err(e)),
    }
}

impl PatternScanner<HybridMatcher> {
    /// A scanner with the hybrid strategy.
    pub fn new() -> (r: Self)
        ensures
            r.strategy() == HybridMatcher,
    {
        PatternScanner { matcher: HybridMatcher }
    }
}

impl Default for PatternScanner<HybridMatcher> {
    fn default() -> (r: Self)
        ensures
            r.strategy() == HybridMatcher,
    {
        Self::new()
    }
}

impl<M: PatternMatcher> PatternScanner<M> {
    /// The strategy this scanner searches with.
    pub closed spec fn strategy(&self) -> M {
        self.matcher
    }

    /// A scanner with the given strategy.
    pub fn with_matcher(matcher: M) -> (r: Self)
        ensures
            r.strategy() == matcher,
    {
        PatternScanner { matcher }
    }

    /// Compiles `pattern_str` and returns all its matches in `data`.
    pub fn scan(&self, pattern_str: &str, data: &[u8]) -> (r: Result<Vec<PatternMatch>, PatternError>)
        ensures
            scan_result(self.strategy(), pattern_str@, data@, r),
    {
        let pattern = Pattern::new(pattern_str)?;
        Ok(self.matcher.find_all(&pattern, data))
    }

    /// Compiles `pattern_str` and returns its first match in `data`.
    pub fn scan_first(&self, pattern_str: &str, data: &[u8]) -> (r: Result<Option<PatternMatch>, PatternError>)
        ensures
            match r {
                Ok(m) => match parse_signature(pattern_str@) {
                    SignatureParse::Parsed(bs) => bs.len() > 0 && self.strategy().finds_first(bs, data@, m),
                    _ => false,
                },
                Err(e) => new_pattern_result(pattern_str@, Err(e)),
            },
    {
        let pattern = Pattern::new(pattern_str)?;
        Ok(self.matcher.find_first(&pattern, data))
    }

    /// Returns all matches of a compiled pattern in `data`.
    pub fn scan_pattern(&self, pattern: &Pattern, data: &[u8]) -> (r: Vec<PatternMatch>)
        ensures
            self.strategy().finds_all(pattern@, data@, r@),
    {
        self.matcher.find_all(pattern, data)
    }

    /// Returns the first match of a compiled pattern in `data`.
    pub fn scan_pattern_first(&self, pattern: &Pattern, data: &[u8]) -> (r: Option<PatternMatch>)
        ensures
            self.strategy().finds_first(pattern@, data@, r),
    {
        self.matcher.find_first(pattern, data)
    }
}

} // verus!
