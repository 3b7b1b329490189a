//! Byte-string helpers for the free-text side of the chat interface: ASCII
//! trimming and upper-casing of tickers, decimal parsing of admin-supplied
//! ids, splitting a direct-message payload, and digit grouping for display.
//! Inputs arrive as plain byte vectors; every function has an exact
//! specification over the corresponding `Seq<u8>`.

use vstd::prelude::*;

verus! {

/// The ASCII whitespace bytes that trimming strips: space, tab, LF, CR.
pub open spec fn is_space(b: u8) -> bool {
    b == 32 || b == 9 || b == 10 || b == 13
}

/// Number of leading whitespace bytes of `s`.
pub open spec fn leading_spaces(s: Seq<u8>) -> int
    decreases s.len(),
{
    if s.len() > 0 && is_space(s[0]) {
        1 + leading_spaces(s.drop_first())
    } else {
        0
    }
}

/// Number of trailing whitespace bytes of `s`.
pub open spec fn trailing_spaces(s: Seq<u8>) -> int
    decreases s.len(),
{
    if s.len() > 0 && is_space(s.last()) {
        1 + trailing_spaces(s.drop_last())
    } else {
        0
    }
}

/// `s` with leading and trailing ASCII whitespace removed.
pub open spec fn trim_spec(s: Seq<u8>) -> Seq<u8> {
    if leading_spaces(s) == s.len() {
        Seq::empty()
    } else {
        s.subrange(leading_spaces(s), s.len() - trailing_spaces(s))
    }
}

/// If `k` leading bytes are whitespace and the byte after them (if any) is
/// not, then `k` is exactly the leading-whitespace count.
proof fn lemma_leading_spaces_is(s: Seq<u8>, k: int)
    requires
        0 <= k <= s.len(),
        forall|i: int| 0 <= i < k ==> is_space(s[i]),
        k < s.len() ==> !is_space(s[k]),
    ensures
        leading_spaces(s) == k,
    decreases k,
{
    if k == 0 {
    } else {
        assert(is_space(s[0]));
        assert forall|i: int| 0 <= i < k - 1 implies is_space(s.drop_first()[i]) by {
            assert(s.drop_first()[i] == s[i + 1]);
        }
        if k - 1 < s.drop_first().len() {
            assert(s.drop_first()[k - 1] == s[k]);
        }
        lemma_leading_spaces_is(s.drop_first(), k - 1);
    }
}

/// The mirror image of `lemma_leading_spaces_is` for the trailing count.
proof fn lemma_trailing_spaces_is(s: Seq<u8>, k: int)
    requires
        0 <= k <= s.len(),
        forall|i: int| s.len() - k <= i < s.len() ==> is_space(s[i]),
        k < s.len() ==> !is_space(s[s.len() - k - 1]),
    ensures
        trailing_spaces(s) == k,
    decreases k,
{
    if k == 0 {
    } else {
        assert(is_space(s.last()));
        assert forall|i: int| s.drop_last().len() - (k - 1) <= i < s.drop_last().len() implies
            is_space(s.drop_last()[i]) by {
            assert(s.drop_last()[i] == s[i]);
        }
        if k - 1 < s.drop_last().len() {
            assert(s.drop_last()[s.drop_last().len() - (k - 1) - 1] == s[s.len() - k - 1]);
        }
        lemma_trailing_spaces_is(s.drop_last(), k - 1);
    }
}

/// Copy of `v` with leading and trailing ASCII whitespace removed.
pub fn trim(v: &Vec<u8>) -> (r: Vec<u8>)
    ensures
        r@ == trim_spec(v@),
{
    let n = v.len();
    let mut lo: usize = 0;
    while lo < n && (v[lo] == 32 || v[lo] == 9 || v[lo] == 10 || v[lo] == 13)
        invariant
            0 <= lo <= n,
            n == v@.len(),
            forall|i: int| 0 <= i < lo ==> is_space(v@[i]),
        decreases n - lo,
    {
        lo = lo + 1;
    }
    proof {
        lemma_leading_spaces_is(v@, lo as int);
    }
    if lo == n {
        let r: Vec<u8> = Vec::new();
        assert(r@ =~= trim_spec(v@));
        return r;
    }
    let mut hi: usize = n;
    while hi > lo && (v[hi - 1] == 32 || v[hi - 1] == 9 || v[hi - 1] == 10 || v[hi - 1] == 13)
        invariant
            lo <= hi <= n,
            n == v@.len(),
            lo < n,
            !is_space(v@[lo as int]),
            forall|i: int| hi <= i < n ==> is_space(v@[i]),
        decreases hi,
    {
        hi = hi - 1;
    }
    proof {
        lemma_trailing_spaces_is(v@, (n - hi) as int);
    }
    let mut r: Vec<u8> = Vec::new();
    let mut i: usize = lo;
    while i < hi
        invariant
            lo <= i <= hi <= n,
            n == v@.len(),
            r@ == v@.subrange(lo as int, i as int),
        decreases hi - i,
    {
        let b = v[i];
        r.push(b);
        proof {
            assert(r@ =~= v@.subrange(lo as int, i + 1 as int));
        }
        i = i + 1;
    }
    assert(r@ =~= trim_spec(v@));
    r
}

/// ASCII upper-casing of one byte; anything outside `a..=z` is unchanged.
pub open spec fn upper_byte(b: u8) -> u8 {
    if 97 <= b && b <= 122 {
        (b - 32) as u8
    } else {
        b
    }
}

/// `s` upper-cased byte for byte.
pub open spec fn upper_spec(s: Seq<u8>) -> Seq<u8> {
    s.map_values(|b: u8| upper_byte(b))
}

/// Copy of `v` with every ASCII lower-case letter upper-cased.
pub fn to_upper(v: &Vec<u8>) -> (r: Vec<u8>)
    ensures
        r@ == upper_spec(v@),
{
    let mut r: Vec<u8> = Vec::new();
    let mut i: usize = 0;
    while i < v.len()
        invariant
            0 <= i <= v@.len(),
            r@ == upper_spec(v@.subrange(0, i as int)),
        decreases v@.len() - i,
    {
        let b = v[i];
        if 97 <= b && b <= 122 {
            r.push(b - 32);
        } else {
            r.push(b);
        }
        proof {
            assert(v@.subrange(0, i + 1 as int).drop_last() =~= v@.subrange(0, i as int));
            assert(r@ =~= upper_spec(v@.subrange(0, i + 1 as int)));
        }
        i = i + 1;
    }
    proof {
        assert(v@.subrange(0, v@.len() as int) =~= v@);
    }
    r
}

/// Trim, then upper-case: the canonical form of a free-text ticker.
pub fn canonical_ticker(v: &Vec<u8>) -> (r: Vec<u8>)
    ensures
        r@ == upper_spec(trim_spec(v@)),
{
    let t = trim(v);
    to_upper(&t)
}

/// A decimal digit byte.
pub open spec fn is_digit(b: u8) -> bool {
    48 <= b && b <= 57
}

pub open spec fn all_digits(s: Seq<u8>) -> bool {
    forall|i: int| 0 <= i < s.len() ==> is_digit(s[i])
}

/// The number a string of decimal digits denotes, most significant first.
pub open spec fn digits_val(s: Seq<u8>) -> int
    decreases s.len(),
{
    if s.len() == 0 {
        0
    } else {
        digits_val(s.drop_last()) * 10 + (s.last() - 48)
    }
}

/// The string opens with an explicit `+` or `-` sign.
pub open spec fn has_sign(s: Seq<u8>) -> bool {
    s.len() > 0 && (s[0] == 43 || s[0] == 45)
}

/// The string opens with a `-` sign.
pub open spec fn sign_neg(s: Seq<u8>) -> bool {
    s.len() > 0 && s[0] == 45
}

/// The digit part of a signed decimal string: everything after the sign.
pub open spec fn int_body(s: Seq<u8>) -> Seq<u8> {
    if has_sign(s) {
        s.drop_first()
    } else {
        s
    }
}

/// What a signed decimal string denotes: an optional `+`/`-` sign followed by
/// at least one digit; anything else denotes nothing.
pub open spec fn parse_int_spec(s: Seq<u8>) -> Option<int> {
    if int_body(s).len() > 0 && all_digits(int_body(s)) {
        if sign_neg(s) {
            Some(-digits_val(int_body(s)))
        } else {
            Some(digits_val(int_body(s)))
        }
    } else {
        None
    }
}

proof fn lemma_digits_val_nonneg(s: Seq<u8>)
    requires
        all_digits(s),
    ensures
        digits_val(s) >= 0,
    decreases s.len(),
{
    if s.len() > 0 {
        assert(all_digits(s.drop_last()));
        lemma_digits_val_nonneg(s.drop_last());
    }
}

/// A digit string is at least as large as the number its prefix denotes:
/// every appended digit multiplies the prefix value by ten.
pub proof fn lemma_digits_val_prefix(s: Seq<u8>, k: int)
    requires
        all_digits(s),
        0 <= k <= s.len(),
    ensures
        digits_val(s) >= digits_val(s.subrange(0, k)),
    decreases s.len() - k,
{
    if k == s.len() {
        assert(s.subrange(0, k) =~= s);
    } else {
        lemma_digits_val_prefix(s, k + 1);
        let p1 = s.subrange(0, k + 1);
        assert(p1.drop_last() =~= s.subrange(0, k));
        assert(all_digits(s.subrange(0, k)));
        lemma_digits_val_nonneg(s.subrange(0, k));
        assert(digits_val(p1) == digits_val(s.subrange(0, k)) * 10 + (s[k] - 48));
        assert(digits_val(s.subrange(0, k)) * 10 >= digits_val(s.subrange(0, k)));
    }
}

/// Parse a (trimmed) signed decimal byte string as an `i64`.
///
/// Returns the denoted value exactly when the string is well formed and the
/// value fits; a malformed string or one outside the `i64` range gives `None`.
pub fn parse_i64(v: &Vec<u8>) -> (r: Option<i64>)
    ensures
        match r {
            Some(x) => parse_int_spec(v@) == Some(x as int),
            None => match parse_int_spec(v@) {
                Some(n) => n < i64::MIN || n > i64::MAX,
                None => true,
            },
        },
{
    let n = v.len();
    let mut start: usize = 0;
    let mut neg = false;
    if n > 0 && (v[0] == 43 || v[0] == 45) {
        neg = v[0] == 45;
        start = 1;
    }
    let ghost body = int_body(v@);
    proof {
        assert(neg == sign_neg(v@));
        assert(start == 1 ==> body == v@.drop_first());
        assert(start == 0 ==> body == v@);
        assert(body.len() == n - start);
    }
    if start >= n {
        return None;
    }
    // Magnitude limit: 2^63 for a negative number, 2^63 - 1 otherwise.
    let limit: u64 = if neg {
        9223372036854775808
    } else {
        9223372036854775807
    };
    let mut acc: u64 = 0;
    let mut i: usize = start;
    while i < n
        invariant
            start <= i <= n,
            n == v@.len(),
            start == 0 || start == 1,
            body == int_body(v@),
            neg == sign_neg(v@),
            start == 1 ==> body == v@.drop_first(),
            start == 0 ==> body == v@,
            body.len() == n - start,
            forall|j: int| 0 <= j < i - start ==> is_digit(body[j]),
            acc as int == digits_val(body.subrange(0, i - start)),
            acc <= limit,
            limit == if neg {
                9223372036854775808u64
            } else {
                9223372036854775807u64
            },
        decreases n - i,
    {
        let b = v[i];
        proof {
            assert(body[i - start] == v@[i as int]);
        }
        if !(48 <= b && b <= 57) {
            proof {
                assert(!is_digit(body[i - start]));
                assert(!all_digits(body));
            }
            return None;
        }
        let d = (b - 48) as u64;
        if acc > (limit - d) / 10 {
            // The magnitude already exceeds the i64 range; the remaining
            // digits can only enlarge it.
            proof {
                let pre = body.subrange(0, i - start + 1);
                assert(pre.drop_last() =~= body.subrange(0, i - start));
                assert(forall|j: int| 0 <= j < pre.len() ==> is_digit(pre[j]));
                assert(digits_val(pre) == acc as int * 10 + d);
                assert(acc as int * 10 + d > limit) by (nonlinear_arith)
                    requires
                        acc > (limit - d) / 10,
                        d <= 9,
                        limit >= 9,
                        acc as int >= 0,
                        (limit - d) / 10 >= 0,
                        limit - d <= ((limit - d) / 10) * 10 + 9,
                {
                }
                if all_digits(body) {
                    lemma_digits_val_prefix(body, i - start + 1);
                }
            }
            return None;
        }
        let new_acc = acc * 10 + d;
        proof {
            let pre = body.subrange(0, i - start + 1);
            assert(pre.drop_last() =~= body.subrange(0, i - start));
            assert(digits_val(pre) == acc as int * 10 + d);
            assert(acc * 10 + d <= limit) by (nonlinear_arith)
                requires
                    acc <= (limit - d) / 10,
                    d <= 9,
                    limit >= 9,
                    d <= limit,
                    limit - d >= ((limit - d) / 10) * 10,
            {
            }
        }
        acc = new_acc;
        i = i + 1;
    }
    proof {
        assert(body.subrange(0, (n - start) as int) =~= body);
    }
    if neg {
        if acc == 9223372036854775808 {
            Some(i64::MIN)
        } else {
            Some(-(acc as i64))
        }
    } else {
        Some(acc as i64)
    }
}

/// Index of the first occurrence of `b` in `v`, if any.
pub fn find_byte(v: &Vec<u8>, b: u8) -> (r: Option<usize>)
    ensures
        match r {
            Some(i) => i < v@.len() && v@[i as int] == b && forall|j: int|
                0 <= j < i ==> v@[j] != b,
            None => forall|j: int| 0 <= j < v@.len() ==> v@[j] != b,
        },
{
    let mut i: usize = 0;
    while i < v.len()
        invariant
            0 <= i <= v@.len(),
            forall|j: int| 0 <= j < i ==> v@[j] != b,
        decreases v@.len() - i,
    {
        if v[i] == b {
            return Some(i);
        }
        i = i + 1;
    }
    None
}

/// Split at the first occurrence of `sep`: the parts before and after it.
/// `None` when `sep` does not occur.
pub fn split_once(v: &Vec<u8>, sep: u8) -> (r: Option<(Vec<u8>, Vec<u8>)>)
    ensures
        match r {
            Some(parts) => exists|i: int|
                0 <= i < v@.len() && v@[i] == sep && (forall|j: int| 0 <= j < i ==> v@[j] != sep)
                    && parts.0@ == v@.subrange(0, i) && parts.1@ == v@.subrange(i + 1, v@.len() as int),
            None => forall|j: int| 0 <= j < v@.len() ==> v@[j] != sep,
        },
{
    let pos = find_byte(v, sep);
    match pos {
        Some(i) => {
            let vl = v.len();
            proof {
                assert(i < vl);
            }
            let mut left: Vec<u8> = Vec::new();
            let mut k: usize = 0;
            while k < i
                invariant
                    0 <= k <= i < v@.len(),
                    left@ == v@.subrange(0, k as int),
                decreases i - k,
            {
                let b = v[k];
                left.push(b);
                proof {
                    assert(left@ =~= v@.subrange(0, k + 1 as int));
                }
                k = k + 1;
            }
            let mut right: Vec<u8> = Vec::new();
            let mut m: usize = i + 1;
            while m < v.len()
                invariant
                    i + 1 <= m <= v@.len(),
                    right@ == v@.subrange(i + 1, m as int),
                decreases v@.len() - m,
            {
                let b = v[m];
                right.push(b);
                proof {
                    assert(right@ =~= v@.subrange(i + 1, m + 1 as int));
                }
                m = m + 1;
            }
            Some((left, right))
        },
        None => None,
    }
}

/// `v` grouped in threes from the least-significant end with `.` between
/// groups, as a display string for a non-negative number: the output at
/// position `i` of the input gains a separator exactly when `i > 0` and the
/// distance to the end is a multiple of three.
pub open spec fn grouped_tail(s: Seq<u8>, i: int) -> Seq<u8>
    decreases s.len() - i when 0 <= i <= s.len()
{
    if i >= s.len() {
        Seq::empty()
    } else {
        let cell = if i > 0 && (s.len() - i) % 3 == 0 {
            seq![46u8, s[i]]
        } else {
            seq![s[i]]
        };
        cell + grouped_tail(s, i + 1)
    }
}

pub open spec fn grouped_spec(s: Seq<u8>) -> Seq<u8> {
    grouped_tail(s, 0)
}

proof fn lemma_grouped_tail_unfold(s: Seq<u8>, i: int)
    requires
        0 <= i < s.len(),
    ensures
        grouped_tail(s, i) == (if i > 0 && (s.len() - i) % 3 == 0 {
            seq![46u8, s[i]]
        } else {
            seq![s[i]]
        }) + grouped_tail(s, i + 1),
{
}

/// Insert `.` separators into a digit string, in groups of three counted
/// from the least-significant end.
pub fn group_thousands(v: &Vec<u8>) -> (r: Vec<u8>)
    ensures
        r@ == grouped_spec(v@),
{
    let n = v.len();
    let mut r: Vec<u8> = Vec::new();
    let mut i: usize = 0;
    while i < n
        invariant
            0 <= i <= n,
            n == v@.len(),
            r@ + grouped_tail(v@, i as int) == grouped_spec(v@),
        decreases n - i,
    {
        proof {
            lemma_grouped_tail_unfold(v@, i as int);
        }
        let ghost r_before = r@;
        if i > 0 && (n - i) % 3 == 0 {
            r.push(46);
        }
        let b = v[i];
        r.push(b);
        proof {
            if i > 0 && (v@.len() - i) % 3 == 0 {
                assert(r@ =~= r_before + seq![46u8, v@[i as int]]);
            } else {
                assert(r@ =~= r_before + seq![v@[i as int]]);
            }
            assert(r@ + grouped_tail(v@, i + 1 as int) =~= grouped_spec(v@));
        }
        i = i + 1;
    }
    proof {
        assert(r@ + grouped_tail(v@, n as int) =~= r@);
    }
    r
}

/// An element-wise copy of a byte vector.
pub fn copy_bytes(v: &Vec<u8>) -> (r: Vec<u8>)
    ensures
        r@ == v@,
{
    let mut r: Vec<u8> = Vec::new();
    let mut i: usize = 0;
    while i < v.len()
        invariant
            0 <= i <= v@.len(),
            r@ == v@.subrange(0, i as int),
        decreases v@.len() - i,
    {
        let b = v[i];
        r.push(b);
        proof {
            assert(r@ =~= v@.subrange(0, i + 1 as int));
        }
        i = i + 1;
    }
    proof {
        assert(v@.subrange(0, v@.len() as int) =~= v@);
    }
    r
}

/// Element-wise equality of two byte vectors, as view equality.
pub fn bytes_eq(a: &Vec<u8>, b: &Vec<u8>) -> (r: bool)
    ensures
        r == (a@ == b@),
{
    if a.len() != b.len() {
        proof {
            assert(a@.len() != b@.len());
        }
        return false;
    }
    let mut i: usize = 0;
    while i < a.len()
        invariant
            0 <= i <= a@.len(),
            a@.len() == b@.len(),
            forall|j: int| 0 <= j < i ==> a@[j] == b@[j],
        decreases a@.len() - i,
    {
        if a[i] != b[i] {
            return false;
        }
        i = i + 1;
    }
    proof {
        assert(a@ =~= b@);
    }
    true
}

} // verus!
