//! Byte-sequence helpers shared by the parser and schema modules.
//!
//! All textual values of the library are byte vectors; these are the
//! small verified operations on them: trimming, ASCII lowering,
//! substring search, suffix tests, and decimal integer conversion.

use vstd::prelude::*;

verus! {

/// ASCII whitespace as `str::trim` removes it from ASCII text.
pub open spec fn is_ascii_ws(b: u8) -> bool {
    b == 0x20 || b == 0x09 || b == 0x0a || b == 0x0b || b == 0x0c || b == 0x0d
}

/// `s` without its leading ASCII whitespace.
pub open spec fn spec_trim_start(s: Seq<u8>) -> Seq<u8>
    decreases s.len(),
{
    if s.len() == 0 || !is_ascii_ws(s[0]) {
        s
    } else {
        spec_trim_start(s.drop_first())
    }
}

/// `s` without its trailing ASCII whitespace.
pub open spec fn spec_trim_end(s: Seq<u8>) -> Seq<u8>
    decreases s.len(),
{
    if s.len() == 0 || !is_ascii_ws(s[s.len() - 1]) {
        s
    } else {
        spec_trim_end(s.drop_last())
    }
}

/// `s` without leading and trailing ASCII whitespace.
pub open spec fn spec_trim(s: Seq<u8>) -> Seq<u8> {
    spec_trim_end(spec_trim_start(s))
}

proof fn lemma_trim_start_skip(s: Seq<u8>, i: int)
    requires
        0 <= i <= s.len(),
        forall|j: int| 0 <= j < i ==> is_ascii_ws(#[trigger] s[j]),
        i < s.len() ==> !is_ascii_ws(s[i]),
    ensures
        spec_trim_start(s) =~= s.subrange(i, s.len() as int),
    decreases i,
{
    if i == 0 {
        if s.len() > 0 {
            assert(!is_ascii_ws(s[0]));
        }
    } else {
        assert(is_ascii_ws(s[0]));
        lemma_trim_start_skip(s.drop_first(), i - 1);
        assert(s.drop_first().subrange(i - 1, s.drop_first().len() as int) =~= s.subrange(
            i,
            s.len() as int,
        ));
    }
}

proof fn lemma_trim_end_take(s: Seq<u8>, i: int)
    requires
        0 <= i <= s.len(),
        forall|j: int| i <= j < s.len() ==> is_ascii_ws(#[trigger] s[j]),
        i > 0 ==> !is_ascii_ws(s[i - 1]),
    ensures
        spec_trim_end(s) =~= s.subrange(0, i),
    decreases s.len() - i,
{
    if i == s.len() {
        if s.len() > 0 {
            assert(!is_ascii_ws(s[s.len() - 1]));
        }
    } else {
        assert(is_ascii_ws(s[s.len() - 1]));
        lemma_trim_end_take(s.drop_last(), i);
    }
}

/// Copy of `v` with leading and trailing ASCII whitespace removed.
pub fn trim(v: &Vec<u8>) -> (r: Vec<u8>)
    ensures
        r@ == spec_trim(v@),
{
    let mut start: usize = 0;
    while start < v.len() && is_ws(v[start])
        invariant
            start <= v.len(),
            forall|j: int| 0 <= j < start ==> is_ascii_ws(#[trigger] v@[j]),
        decreases v.len() - start,
    {
        start = start + 1;
    }
    let mut end: usize = v.len();
    while end > start && is_ws(v[end - 1])
        invariant
            start <= end <= v.len(),
            forall|j: int| 0 <= j < start ==> is_ascii_ws(#[trigger] v@[j]),
            forall|j: int| end <= j < v.len() ==> is_ascii_ws(#[trigger] v@[j]),
        decreases end,
    {
        end = end - 1;
    }
    let mut r: Vec<u8> = Vec::new();
    let mut i: usize = start;
    while i < end
        invariant
            start <= i <= end <= v.len(),
            r@ =~= v@.subrange(start as int, i as int),
        decreases end - i,
    {
        r.push(v[i]);
        assert(r@ =~= v@.subrange(start as int, i + 1 as int));
        i = i + 1;
    }
    proof {
        lemma_trim_start_skip(v@, start as int);
        let t = v@.subrange(start as int, v@.len() as int);
        lemma_trim_end_take(t, end - start as int);
        assert(t.subrange(0, end - start as int) =~= v@.subrange(start as int, end as int));
    }
    r
}

/// Whether `b` is ASCII whitespace.
pub fn is_ws(b: u8) -> (r: bool)
    ensures
        r == is_ascii_ws(b),
{
    b == 0x20 || b == 0x09 || b == 0x0a || b == 0x0b || b == 0x0c || b == 0x0d
}

/// One byte lowered: ASCII `A`..`Z` becomes `a`..`z`.
pub open spec fn lower_byte(b: u8) -> u8 {
    if 0x41 <= b <= 0x5a {
        (b + 0x20) as u8
    } else {
        b
    }
}

/// `s` with every ASCII letter lowered.
pub open spec fn spec_lower(s: Seq<u8>) -> Seq<u8> {
    s.map_values(|b: u8| lower_byte(b))
}

/// Copy of `v` with every ASCII letter lowered.
pub fn to_ascii_lower(v: &Vec<u8>) -> (r: Vec<u8>)
    ensures
        r@ == spec_lower(v@),
{
    let mut r: Vec<u8> = Vec::new();
    let mut i: usize = 0;
    while i < v.len()
        invariant
            i <= v.len(),
            r@ =~= spec_lower(v@).subrange(0, i as int),
        decreases v.len() - i,
    {
        let b = v[i];
        if 0x41 <= b && b <= 0x5a {
            r.push(b + 0x20);
        } else {
            r.push(b);
        }
        assert(r@ =~= spec_lower(v@).subrange(0, i + 1 as int));
        i = i + 1;
    }
    assert(spec_lower(v@).subrange(0, v@.len() as int) =~= spec_lower(v@));
    r
}

/// Whether `needle` occurs in `hay` starting at offset `i`.
pub open spec fn matches_at(hay: Seq<u8>, needle: Seq<u8>, i: int) -> bool {
    0 <= i && i + needle.len() <= hay.len() && hay.subrange(i, i + needle.len()) =~= needle
}

/// Whether `needle` occurs anywhere in `hay`.
pub open spec fn spec_contains(hay: Seq<u8>, needle: Seq<u8>) -> bool {
    exists|i: int| matches_at(hay, needle, i)
}

/// Whether `hay` starting at `i` matches `needle` byte for byte.
fn matches_here(hay: &Vec<u8>, needle: &[u8], i: usize) -> (r: bool)
    requires
        i + needle@.len() <= hay@.len(),
        hay@.len() <= usize::MAX,
    ensures
        r == matches_at(hay@, needle@, i as int),
{
    let mut j: usize = 0;
    while j < needle.len()
        invariant
            j <= needle@.len(),
            i + needle@.len() <= hay@.len(),
            hay@.len() <= usize::MAX,
            forall|k: int| 0 <= k < j ==> hay@[i + k] == needle@[k],
        decreases needle.len() - j,
    {
        if hay[i + j] != needle[j] {
            assert(hay@.subrange(i as int, i + needle@.len())[j as int] != needle@[j as int]);
            return false;
        }
        j = j + 1;
    }
    assert(hay@.subrange(i as int, i + needle@.len()) =~= needle@);
    true
}

/// Whether `needle` occurs anywhere in `hay`.
pub fn contains_bytes(hay: &Vec<u8>, needle: &[u8]) -> (r: bool)
    ensures
        r == spec_contains(hay@, needle@),
{
    if needle.len() > hay.len() {
        assert(forall|i: int| !matches_at(hay@, needle@, i));
        return false;
    }
    if needle.len() == 0 {
        assert(matches_at(hay@, needle@, 0)) by {
            assert(hay@.subrange(0, 0) =~= needle@);
        }
        return true;
    }
    let bound = hay.len() - needle.len();
    let mut i: usize = 0;
    while i <= bound
        invariant
            1 <= needle@.len() <= hay@.len() <= usize::MAX,
            bound == hay@.len() - needle@.len(),
            i <= bound + 1,
            forall|k: int| 0 <= k < i ==> !matches_at(hay@, needle@, k),
        decreases bound + 1 - i,
    {
        if matches_here(hay, needle, i) {
            return true;
        }
        i = i + 1;
    }
    assert(forall|k: int| !matches_at(hay@, needle@, k));
    false
}

/// Whether `hay` ends in `suffix`.
pub open spec fn spec_ends_with(hay: Seq<u8>, suffix: Seq<u8>) -> bool {
    hay.len() >= suffix.len() && hay.subrange(
        hay.len() - suffix.len(),
        hay.len() as int,
    ) =~= suffix
}

/// Whether `hay` ends in `suffix`.
pub fn ends_with(hay: &Vec<u8>, suffix: &[u8]) -> (r: bool)
    ensures
        r == spec_ends_with(hay@, suffix@),
{
    if suffix.len() > hay.len() {
        return false;
    }
    matches_here(hay, suffix, hay.len() - suffix.len())
}

/// The decimal digits of `n`, most significant first.
pub open spec fn dec_digits(n: nat) -> Seq<u8>
    decreases n,
{
    if n < 10 {
        seq![(0x30 + n) as u8]
    } else {
        dec_digits(n / 10).push((0x30 + n % 10) as u8)
    }
}

/// `n` written in decimal.
pub fn u64_to_dec(n: u64) -> (r: Vec<u8>)
    ensures
        r@ == dec_digits(n as nat),
    decreases n,
{
    if n < 10 {
        let mut r: Vec<u8> = Vec::new();
        r.push(0x30 + n as u8);
        assert(r@ =~= dec_digits(n as nat));
        r
    } else {
        let mut r = u64_to_dec(n / 10);
        r.push(0x30 + (n % 10) as u8);
        assert(r@ =~= dec_digits(n as nat));
        r
    }
}

/// Whether every byte of `s` is an ASCII decimal digit.
pub open spec fn all_digits(s: Seq<u8>) -> bool {
    forall|i: int| 0 <= i < s.len() ==> 0x30 <= #[trigger] s[i] <= 0x39
}

/// The number the digit string `s` denotes, most significant first.
pub open spec fn digits_val(s: Seq<u8>) -> nat
    decreases s.len(),
{
    if s.len() == 0 {
        0
    } else {
        (digits_val(s.drop_last()) * 10 + (s.last() - 0x30)) as nat
    }
}

/// The digits of an integer text: everything after an optional sign.
pub open spec fn spec_parse_digits_of(s: Seq<u8>) -> Seq<u8> {
    if s.len() > 0 && (s[0] == 0x2b || s[0] == 0x2d) {
        s.drop_first()
    } else {
        s
    }
}

/// What `i64` parsing accepts: an optional sign, then one or more
/// decimal digits denoting a value in the type's range.
pub open spec fn spec_parse_i64(s: Seq<u8>) -> Option<i64> {
    let neg = s.len() > 0 && s[0] == 0x2d;
    let ds = spec_parse_digits_of(s);
    if ds.len() == 0 || !all_digits(ds) {
        None
    } else if neg {
        if digits_val(ds) <= 0x8000000000000000 {
            Some((0 - digits_val(ds)) as i64)
        } else {
            None
        }
    } else {
        if digits_val(ds) <= 0x7fffffffffffffff {
            Some(digits_val(ds) as i64)
        } else {
            None
        }
    }
}

proof fn lemma_digits_val_grows(s: Seq<u8>, i: int, limit: nat)
    requires
        0 <= i <= s.len(),
        all_digits(s),
        digits_val(s.subrange(0, i)) > limit,
    ensures
        digits_val(s) > limit,
    decreases s.len() - i,
{
    if i == s.len() {
        assert(s.subrange(0, i) =~= s);
    } else {
        let t = s.subrange(0, i + 1);
        assert(t.drop_last() =~= s.subrange(0, i));
        let p = digits_val(s.subrange(0, i));
        assert(digits_val(t) == p * 10 + (t.last() - 0x30));
        assert(p * 10 >= p) by (nonlinear_arith)
            requires
                p >= 0,
        ;
        lemma_digits_val_grows(s, i + 1, limit);
    }
}

/// `v` parsed as an `i64`, exactly where the optional sign and the
/// digits denote a value of the type's range.
pub fn parse_i64(v: &Vec<u8>) -> (r: Option<i64>)
    ensures
        r == spec_parse_i64(v@),
{
    let ghost s = v@;
    let mut start: usize = 0;
    let mut neg = false;
    if v.len() > 0 && (v[0] == 0x2b || v[0] == 0x2d) {
        neg = v[0] == 0x2d;
        start = 1;
    }
    let ghost ds = spec_parse_digits_of(s);
    assert(ds =~= s.subrange(start as int, s.len() as int));
    if start == v.len() {
        return None;
    }
    let limit: u64 = if neg {
        0x8000000000000000
    } else {
        0x7fffffffffffffff
    };
    let mut acc: u64 = 0;
    let mut i: usize = start;
    while i < v.len()
        invariant
            start <= i <= v@.len() <= usize::MAX,
            start <= 1,
            (start == 1) == (v@.len() > 0 && (v@[0] == 0x2b || v@[0] == 0x2d)),
            neg == (v@.len() > 0 && v@[0] == 0x2d),
            ds =~= v@.subrange(start as int, v@.len() as int),
            ds == spec_parse_digits_of(v@),
            limit == if neg {
                0x8000000000000000u64
            } else {
                0x7fffffffffffffffu64
            },
            all_digits(ds.subrange(0, i - start)),
            acc == digits_val(ds.subrange(0, i - start)),
            acc <= limit,
        decreases v.len() - i,
    {
        let b = v[i];
        if b < 0x30 || b > 0x39 {
            assert(ds[i - start] == v@[i as int]);
            assert(!(0x30 <= ds[i - start] <= 0x39));
            assert(!all_digits(ds));
            return None;
        }
        let d: u64 = (b - 0x30) as u64;
        let ghost pre = ds.subrange(0, i - start);
        let ghost cur = ds.subrange(0, i + 1 - start);
        assert(cur.drop_last() =~= pre);
        assert(cur.last() == b);
        if acc > limit / 10 || (acc == limit / 10 && d > limit % 10) {
            assert(acc * 10 + d > limit) by (nonlinear_arith)
                requires
                    acc > limit / 10 || (acc == limit / 10 && d > limit % 10),
                    limit == limit / 10 * 10 + limit % 10,
                    d <= 9,
            ;
            if all_digits_exec(v, i + 1) {
                assert(all_digits(ds)) by {
                    let rest = v@.subrange(i + 1, v@.len() as int);
                    assert forall|k: int| 0 <= k < ds.len() implies 0x30 <= #[trigger] ds[k]
                        <= 0x39 by {
                        if k < i - start {
                            assert(pre[k] == ds[k]);
                        } else if k == i - start {
                            assert(ds[k] == v@[i as int]);
                        } else {
                            assert(rest[k - (i + 1 - start)] == ds[k]);
                        }
                    }
                }
                proof {
                    lemma_digits_val_grows(ds, i + 1 - start, limit as nat);
                }
                return None;
            } else {
                assert(!all_digits(ds)) by {
                    let rest = v@.subrange(i + 1, v@.len() as int);
                    let bad = choose|k: int|
                        0 <= k < rest.len() && !(0x30 <= #[trigger] rest[k] <= 0x39);
                    assert(ds[bad + (i + 1 - start)] == rest[bad]);
                }
                return None;
            }
        }
        let ghost lim10 = limit / 10;
        let ghost limr = limit % 10;
        assert(acc * 10 + d <= limit) by (nonlinear_arith)
            requires
                acc <= lim10,
                acc < lim10 || d <= limr,
                limit == lim10 * 10 + limr,
                d <= 9,
                limr <= 9,
        ;
        acc = acc * 10 + d;
        i = i + 1;
    }
    assert(ds.subrange(0, ds.len() as int) =~= ds);
    if neg {
        if acc == 0x8000000000000000 {
            Some(i64::MIN)
        } else {
            Some(-(acc as i64))
        }
    } else {
        Some(acc as i64)
    }
}

/// Whether two byte vectors hold the same bytes.
pub fn eq_bytes(a: &Vec<u8>, b: &Vec<u8>) -> (r: bool)
    ensures
        r == (a@ == b@),
{
    if a.len() != b.len() {
        return false;
    }
    let mut i: usize = 0;
    while i < a.len()
        invariant
            i <= a@.len(),
            a@.len() == b@.len(),
            forall|k: int| 0 <= k < i ==> a@[k] == b@[k],
        decreases a.len() - i,
    {
        if a[i] != b[i] {
            return false;
        }
        i = i + 1;
    }
    assert(a@ =~= b@);
    true
}

/// The index of the first occurrence of `b` in `s`, or `s.len()` when
/// `b` does not occur.
pub open spec fn find_byte(s: Seq<u8>, b: u8) -> int
    decreases s.len(),
{
    if s.len() == 0 {
        0
    } else if s[0] == b {
        0
    } else {
        1 + find_byte(s.drop_first(), b)
    }
}

proof fn lemma_find_byte_at(s: Seq<u8>, b: u8, i: int)
    requires
        0 <= i <= s.len(),
        forall|j: int| 0 <= j < i ==> s[j] != b,
        i < s.len() ==> s[i] == b,
    ensures
        find_byte(s, b) == i,
    decreases i,
{
    if s.len() == 0 {
    } else if i == 0 {
    } else {
        assert(s[0] != b);
        assert(forall|j: int| 0 <= j < i - 1 ==> s.drop_first()[j] == s[j + 1]);
        lemma_find_byte_at(s.drop_first(), b, i - 1);
    }
}

/// The index of the first occurrence of `b` in `v`, or `v.len()`.
pub fn find_byte_in(v: &Vec<u8>, b: u8) -> (r: usize)
    ensures
        r as int == find_byte(v@, b),
        r <= v@.len(),
        r < v@.len() ==> v@[r as int] == b,
        forall|j: int| 0 <= j < r ==> v@[j] != b,
{
    let mut i: usize = 0;
    while i < v.len()
        invariant
            i <= v@.len(),
            forall|j: int| 0 <= j < i ==> v@[j] != b,
        decreases v.len() - i,
    {
        if v[i] == b {
            proof {
                lemma_find_byte_at(v@, b, i as int);
            }
            return i;
        }
        i = i + 1;
    }
    proof {
        lemma_find_byte_at(v@, b, v@.len() as int);
    }
    i
}

/// The bytes of `v` from `from` (inclusive) to `to` (exclusive).
pub fn subvec(v: &Vec<u8>, from: usize, to: usize) -> (r: Vec<u8>)
    requires
        from <= to <= v@.len(),
    ensures
        r@ == v@.subrange(from as int, to as int),
{
    let mut r: Vec<u8> = Vec::new();
    let mut i: usize = from;
    while i < to
        invariant
            from <= i <= to <= v@.len(),
            r@ =~= v@.subrange(from as int, i as int),
        decreases to - i,
    {
        r.push(v[i]);
        assert(r@ =~= v@.subrange(from as int, i + 1 as int));
        i = i + 1;
    }
    r
}

/// Whether every byte of `v` from `from` on is a decimal digit.
fn all_digits_exec(v: &Vec<u8>, from: usize) -> (r: bool)
    requires
        from <= v@.len(),
    ensures
        r == all_digits(v@.subrange(from as int, v@.len() as int)),
{
    let mut i: usize = from;
    while i < v.len()
        invariant
            from <= i <= v@.len(),
            forall|k: int| from <= k < i ==> 0x30 <= #[trigger] v@[k] <= 0x39,
        decreases v.len() - i,
    {
        if v[i] < 0x30 || v[i] > 0x39 {
            assert(v@.subrange(from as int, v@.len() as int)[i - from] == v@[i as int]);
            return false;
        }
        i = i + 1;
    }
    true
}

} // verus!
