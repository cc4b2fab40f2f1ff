//! Byte-level text primitives: decimal integers and amounts, field
//! splitting and trimming, as the CSV format needs them.

use vstd::prelude::*;
use crate::amount::{lemma_pow10_positive, pow10, pow10_i128, Amount, MAX_MANTISSA, MAX_SCALE};

verus! {

/// An ASCII decimal digit.
pub open spec fn is_digit(b: u8) -> bool {
    48 <= b <= 57
}

/// Every byte is an ASCII decimal digit.
pub open spec fn all_digits(s: Seq<u8>) -> bool {
    forall|i: int| 0 <= i < s.len() ==> is_digit(#[trigger] s[i])
}

/// The number the digit string `s` denotes, most significant digit first
/// (meaningful when `all_digits(s)`; the empty string denotes zero).
pub open spec fn digits_value(s: Seq<u8>) -> int
    decreases s.len(),
{
    if s.len() == 0 {
        0
    } else {
        10 * digits_value(s.drop_last()) + (s.last() - 48)
    }
}

/// A digit string denotes a number of at least zero.
pub proof fn lemma_digits_value_nonneg(s: Seq<u8>)
    requires
        all_digits(s),
    ensures
        digits_value(s) >= 0,
    decreases s.len(),
{
    if s.len() > 0 {
        assert(all_digits(s.drop_last()));
        lemma_digits_value_nonneg(s.drop_last());
    }
}

/// A digit string denotes at least what any of its prefixes denotes.
pub proof fn lemma_digits_value_prefix_le(s: Seq<u8>, i: int)
    requires
        all_digits(s),
        0 <= i <= s.len(),
    ensures
        digits_value(s.subrange(0, i)) <= digits_value(s),
    decreases s.len() - i,
{
    if i == s.len() {
        assert(s.subrange(0, i) =~= s);
    } else {
        lemma_digits_value_prefix_le(s, i + 1);
        let p = s.subrange(0, i);
        let q = s.subrange(0, i + 1);
        assert(q.drop_last() =~= p);
        assert(all_digits(p));
        lemma_digits_value_nonneg(p);
    }
}

/// `Some(n)` when `s` is a nonempty string of decimal digits denoting
/// `n <= u16::MAX`; `None` otherwise.
pub open spec fn parse_u16_spec(s: Seq<u8>) -> Option<u16> {
    if s.len() > 0 && all_digits(s) && digits_value(s) <= u16::MAX {
        Some(digits_value(s) as u16)
    } else {
        None
    }
}

/// `Some(n)` when `s` is a nonempty string of decimal digits denoting
/// `n <= u32::MAX`; `None` otherwise.
pub open spec fn parse_u32_spec(s: Seq<u8>) -> Option<u32> {
    if s.len() > 0 && all_digits(s) && digits_value(s) <= u32::MAX {
        Some(digits_value(s) as u32)
    } else {
        None
    }
}

/// Parses a 16-bit unsigned decimal integer.
pub fn parse_u16(s: &[u8]) -> (r: Option<u16>)
    ensures
        r == parse_u16_spec(s@),
{
    if s.len() == 0 {
        return None;
    }
    let mut acc: u32 = 0;
    let mut i: usize = 0;
    while i < s.len()
        invariant
            0 < s@.len(),
            0 <= i <= s@.len(),
            all_digits(s@.subrange(0, i as int)),
            acc == digits_value(s@.subrange(0, i as int)),
            acc <= u16::MAX,
        decreases s@.len() - i,
    {
        let b = s[i];
        if b < 48 || b > 57 {
            return None;
        }
        proof {
            assert(s@.subrange(0, i + 1).drop_last() =~= s@.subrange(0, i as int));
        }
        acc = acc * 10 + (b - 48) as u32;
        i = i + 1;
        if acc > u16::MAX as u32 {
            proof {
                if all_digits(s@) {
                    lemma_digits_value_prefix_le(s@, i as int);
                }
            }
            return None;
        }
    }
    proof {
        assert(s@.subrange(0, s@.len() as int) =~= s@);
    }
    Some(acc as u16)
}

/// Parses a 32-bit unsigned decimal integer.
pub fn parse_u32(s: &[u8]) -> (r: Option<u32>)
    ensures
        r == parse_u32_spec(s@),
{
    if s.len() == 0 {
        return None;
    }
    let mut acc: u64 = 0;
    let mut i: usize = 0;
    while i < s.len()
        invariant
            0 < s@.len(),
            0 <= i <= s@.len(),
            all_digits(s@.subrange(0, i as int)),
            acc == digits_value(s@.subrange(0, i as int)),
            acc <= u32::MAX,
        decreases s@.len() - i,
    {
        let b = s[i];
        if b < 48 || b > 57 {
            return None;
        }
        proof {
            assert(s@.subrange(0, i + 1).drop_last() =~= s@.subrange(0, i as int));
        }
        acc = acc * 10 + (b - 48) as u64;
        i = i + 1;
        if acc > u32::MAX as u64 {
            proof {
                if all_digits(s@) {
                    lemma_digits_value_prefix_le(s@, i as int);
                }
            }
            return None;
        }
    }
    proof {
        assert(s@.subrange(0, s@.len() as int) =~= s@);
    }
    Some(acc as u32)
}

/// Index of the first `.` in `s`, or `s.len()` when there is none.
pub open spec fn first_dot(s: Seq<u8>) -> int
    decreases s.len(),
{
    if s.len() == 0 {
        0
    } else if s[0] == 46 {
        0
    } else {
        1 + first_dot(s.drop_first())
    }
}

/// `first_dot` is the position of the first dot.
pub proof fn lemma_first_dot_is(s: Seq<u8>, k: int)
    requires
        0 <= k <= s.len(),
        forall|j: int| 0 <= j < k ==> s[j] != 46,
        k < s.len() ==> s[k] == 46,
    ensures
        first_dot(s) == k,
    decreases k,
{
    if s.len() == 0 {
    } else if k == 0 {
    } else {
        let t = s.drop_first();
        assert forall|j: int| 0 <= j < k - 1 implies t[j] != 46 by {
            assert(t[j] == s[j + 1]);
        }
        lemma_first_dot_is(t, k - 1);
    }
}

/// The first dot sits within the string (or just past it).
pub proof fn lemma_first_dot_le(s: Seq<u8>)
    ensures
        0 <= first_dot(s) <= s.len(),
    decreases s.len(),
{
    if s.len() > 0 && s[0] != 46 {
        lemma_first_dot_le(s.drop_first());
    }
}

/// A dot-free prefix pushes the first dot past it.
pub proof fn lemma_first_dot_ge(s: Seq<u8>, k: int)
    requires
        0 <= k <= s.len(),
        forall|j: int| 0 <= j < k ==> s[j] != 46,
    ensures
        first_dot(s) >= k,
    decreases k,
{
    if k > 0 {
        assert(s[0] != 46);
        let t = s.drop_first();
        assert forall|j: int| 0 <= j < k - 1 implies t[j] != 46 by {
            assert(t[j] == s[j + 1]);
        }
        lemma_first_dot_ge(t, k - 1);
    } else {
        lemma_first_dot_le(s);
    }
}

/// The digits of an unsigned decimal string: everything but the first dot.
pub open spec fn amount_digits(s: Seq<u8>) -> Seq<u8> {
    let d = first_dot(s);
    if d == s.len() {
        s
    } else {
        s.subrange(0, d) + s.subrange(d + 1, s.len() as int)
    }
}

/// The scale an unsigned decimal string denotes: the number of bytes after
/// the first dot.
pub open spec fn amount_scale(s: Seq<u8>) -> int {
    if first_dot(s) == s.len() {
        0
    } else {
        s.len() - first_dot(s) - 1
    }
}

/// `Some(a)` when `s` is an optionally signed decimal numeral with at most
/// one dot, at least one digit, at most [`MAX_SCALE`] fractional digits and a
/// coefficient of at most [`MAX_MANTISSA`]; `None` otherwise.
pub open spec fn parse_amount_spec(s: Seq<u8>) -> Option<Amount> {
    let neg = s.len() > 0 && s[0] == 45;
    let rest = if s.len() > 0 && (s[0] == 45 || s[0] == 43) {
        s.drop_first()
    } else {
        s
    };
    let ds = amount_digits(rest);
    let sc = amount_scale(rest);
    if ds.len() >= 1 && all_digits(ds) && sc <= MAX_SCALE && digits_value(ds) <= MAX_MANTISSA {
        Some(
            Amount {
                mantissa: (if neg {
                    -digits_value(ds)
                } else {
                    digits_value(ds)
                }) as i128,
                scale: sc as u32,
            },
        )
    } else {
        None
    }
}

/// Parses an optionally signed decimal amount such as `250`, `-3.01` or
/// `1.00005`.
#[verifier::rlimit(50)]
pub fn parse_amount(s: &[u8]) -> (r: Option<Amount>)
    ensures
        r == parse_amount_spec(s@),
        r matches Some(a) ==> a.wf(),
{
    let signed = s.len() > 0 && (s[0] == 45 || s[0] == 43);
    let start: usize = if signed {
        1
    } else {
        0
    };
    let neg = s.len() > 0 && s[0] == 45;
    let ghost rest = s@.subrange(start as int, s@.len() as int);
    proof {
        if signed {
            assert(rest =~= s@.drop_first());
        } else {
            assert(rest =~= s@);
        }
    }
    let mut acc: u128 = 0;
    let mut ndigits: usize = 0;
    let mut dot: Option<usize> = None;
    let mut i: usize = start;
    while i < s.len()
        invariant
            start <= i <= s@.len(),
            start <= 1,
            start <= s@.len(),
            signed == (s@.len() > 0 && (s@[0] == 45 || s@[0] == 43)),
            signed ==> start == 1,
            !signed ==> start == 0,
            neg == (s@.len() > 0 && s@[0] == 45),
            rest == s@.subrange(start as int, s@.len() as int),
            rest == (if signed {
                s@.drop_first()
            } else {
                s@
            }),
            acc <= MAX_MANTISSA,
            match dot {
                None => {
                    &&& forall|j: int| start <= j < i ==> s@[j] != 46
                    &&& ndigits == i - start
                    &&& all_digits(s@.subrange(start as int, i as int))
                    &&& acc == digits_value(s@.subrange(start as int, i as int))
                },
                Some(p) => {
                    &&& start <= p < i
                    &&& s@[p as int] == 46
                    &&& forall|j: int| start <= j < p ==> s@[j] != 46
                    &&& forall|j: int| p < j < i ==> s@[j] != 46
                    &&& ndigits == i - start - 1
                    &&& i - p - 1 <= MAX_SCALE
                    &&& all_digits(
                        s@.subrange(start as int, p as int) + s@.subrange(p + 1, i as int),
                    )
                    &&& acc == digits_value(
                        s@.subrange(start as int, p as int) + s@.subrange(p + 1, i as int),
                    )
                },
            },
        decreases s@.len() - i,
    {
        let b = s[i];
        if b == 46 {
            match dot {
                Some(p) => {
                    // a second dot: the digit string contains a dot, so the
                    // numeral is malformed
                    proof {
                        lemma_bad_byte_means_malformed(s@, rest, start as int, i as int, dot);
                    }
                    return None;
                },
                None => {
                    dot = Some(i);
                },
            }
        } else if 48 <= b && b <= 57 {
            proof {
                match dot {
                    None => {
                        assert(s@.subrange(start as int, i + 1).drop_last() =~= s@.subrange(
                            start as int,
                            i as int,
                        ));
                    },
                    Some(p) => {
                        assert((s@.subrange(start as int, p as int) + s@.subrange(
                            p + 1,
                            i + 1,
                        )).drop_last() =~= s@.subrange(start as int, p as int) + s@.subrange(
                            p + 1,
                            i as int,
                        ));
                    },
                }
            }
            acc = acc * 10 + (b - 48) as u128;
            ndigits = ndigits + 1;
            i = i + 1;
            proof {
                match dot {
                    None => {
                        let prev = s@.subrange(start as int, i - 1);
                        let cur = s@.subrange(start as int, i as int);
                        assert(cur.last() == b);
                        assert(acc == digits_value(cur));
                        assert forall|k: int| 0 <= k < cur.len() implies is_digit(
                            #[trigger] cur[k],
                        ) by {
                            if k < cur.len() - 1 {
                                assert(cur[k] == prev[k]);
                            }
                        }
                    },
                    Some(p) => {
                        let prev = s@.subrange(start as int, p as int) + s@.subrange(p + 1, i - 1);
                        let cur = s@.subrange(start as int, p as int) + s@.subrange(
                            p + 1,
                            i as int,
                        );
                        assert(cur.last() == b);
                        assert(acc == digits_value(cur));
                        assert forall|k: int| 0 <= k < cur.len() implies is_digit(
                            #[trigger] cur[k],
                        ) by {
                            if k < cur.len() - 1 {
                                assert(cur[k] == prev[k]);
                            }
                        }
                    },
                }
            }
            if acc > MAX_MANTISSA as u128 {
                // the coefficient left the representable range
                proof {
                    lemma_overflow_means_malformed(s@, rest, start as int, i as int, dot, acc);
                }
                return None;
            }
            if let Some(p) = dot {
                if i - p - 1 > MAX_SCALE as usize {
                    // more fractional digits than the representation holds
                    proof {
                        let d = p - start;
                        lemma_first_dot_is(rest, d);
                    }
                    return None;
                }
            }
            continue ;
        } else {
            // a byte that is neither a digit nor the first dot
            proof {
                lemma_bad_byte_means_malformed(s@, rest, start as int, i as int, dot);
            }
            return None;
        }
        i = i + 1;
    }
    if ndigits == 0 {
        proof {
            lemma_amount_end_shape(s@, rest, start as int, i as int, dot);
        }
        return None;
    }
    let mantissa: i128 = if neg {
        -(acc as i128)
    } else {
        acc as i128
    };
    let scale: u32 = match dot {
        Some(p) => (i - p - 1) as u32,
        None => 0,
    };
    proof {
        lemma_amount_end_shape(s@, rest, start as int, i as int, dot);
    }
    Some(Amount { mantissa, scale })
}

/// The fields of `s` split on the separator `sep`: one more field than there
/// are separators, in order, each without the separator. The empty string is
/// one empty field.
pub open spec fn split_on(s: Seq<u8>, sep: u8) -> Seq<Seq<u8>>
    decreases s.len(),
{
    if s.len() == 0 {
        seq![Seq::<u8>::empty()]
    } else if s[0] == sep {
        seq![Seq::<u8>::empty()] + split_on(s.drop_first(), sep)
    } else {
        let rest = split_on(s.drop_first(), sep);
        seq![seq![s[0]] + rest[0]] + rest.drop_first()
    }
}

/// A split has at least one field.
pub proof fn lemma_split_on_nonempty(s: Seq<u8>, sep: u8)
    ensures
        split_on(s, sep).len() >= 1,
    decreases s.len(),
{
    if s.len() > 0 && s[0] != sep {
        lemma_split_on_nonempty(s.drop_first(), sep);
    }
}

/// Splitting off the first field: up to the first separator at `j`, the rest
/// after it.
pub proof fn lemma_split_on_head(s: Seq<u8>, sep: u8, j: int)
    requires
        0 <= j <= s.len(),
        forall|k: int| 0 <= k < j ==> s[k] != sep,
        j < s.len() ==> s[j] == sep,
    ensures
        j == s.len() ==> split_on(s, sep) == seq![s],
        j < s.len() ==> split_on(s, sep) == seq![s.subrange(0, j)] + split_on(
            s.subrange(j + 1, s.len() as int),
            sep,
        ),
    decreases j,
{
    if j == 0 {
        if s.len() == 0 {
            assert(s =~= Seq::<u8>::empty());
            assert(split_on(s, sep) == seq![s]);
        } else {
            assert(s[0] == sep);
            assert(s.drop_first() =~= s.subrange(1, s.len() as int));
            assert(s.subrange(0, 0) =~= Seq::<u8>::empty());
            assert(split_on(s, sep) == seq![s.subrange(0, 0)] + split_on(
                s.subrange(1, s.len() as int),
                sep,
            ));
        }
    } else {
        assert(s[0] != sep);
        let t = s.drop_first();
        assert forall|k: int| 0 <= k < j - 1 implies t[k] != sep by {
            assert(t[k] == s[k + 1]);
        }
        lemma_split_on_head(t, sep, j - 1);
        lemma_split_on_nonempty(t, sep);
        let rest = split_on(t, sep);
        if j == s.len() {
            assert(rest == seq![t]);
            assert(seq![s[0]] + rest[0] =~= s);
            assert(split_on(s, sep) =~= seq![s]);
        } else {
            assert(t[j - 1] == s[j] == sep);
            assert(rest == seq![t.subrange(0, j - 1)] + split_on(
                t.subrange(j, t.len() as int),
                sep,
            ));
            assert(seq![s[0]] + rest[0] =~= s.subrange(0, j));
            assert(t.subrange(j, t.len() as int) =~= s.subrange(j + 1, s.len() as int));
            assert(rest.drop_first() =~= split_on(s.subrange(j + 1, s.len() as int), sep));
            assert(split_on(s, sep) =~= seq![s.subrange(0, j)] + split_on(
                s.subrange(j + 1, s.len() as int),
                sep,
            ));
        }
    }
}

/// Splits `s` on the separator `sep`.
pub fn split_bytes(s: &[u8], sep: u8) -> (r: Vec<Vec<u8>>)
    ensures
        r@.map_values(|f: Vec<u8>| f@) == split_on(s@, sep),
{
    let mut fields: Vec<Vec<u8>> = Vec::new();
    let mut pos: usize = 0;
    let mut done = false;
    proof {
        assert(s@.subrange(0, s@.len() as int) =~= s@);
        assert(fields@.map_values(|f: Vec<u8>| f@) + split_on(s@, sep) =~= split_on(s@, sep));
    }
    while !done
        invariant
            pos <= s@.len(),
            !done ==> split_on(s@, sep) == fields@.map_values(|f: Vec<u8>| f@) + split_on(
                s@.subrange(pos as int, s@.len() as int),
                sep,
            ),
            done ==> fields@.map_values(|f: Vec<u8>| f@) == split_on(s@, sep),
        decreases (if done {
            0int
        } else {
            s@.len() - pos + 1
        }),
    {
        let ghost suffix = s@.subrange(pos as int, s@.len() as int);
        let mut j = pos;
        let mut cur: Vec<u8> = Vec::new();
        while j < s.len() && s[j] != sep
            invariant
                pos <= j <= s@.len(),
                cur@ == s@.subrange(pos as int, j as int),
                forall|k: int| pos <= k < j ==> s@[k] != sep,
            decreases s@.len() - j,
        {
            cur.push(s[j]);
            proof {
                assert(s@.subrange(pos as int, j + 1).drop_last() =~= s@.subrange(
                    pos as int,
                    j as int,
                ));
                assert(cur@ =~= s@.subrange(pos as int, j + 1));
            }
            j = j + 1;
        }
        proof {
            assert forall|k: int| 0 <= k < j - pos implies suffix[k] != sep by {
                assert(suffix[k] == s@[pos + k]);
            }
            lemma_split_on_head(suffix, sep, j - pos);
            assert(suffix.subrange(0, j - pos) =~= s@.subrange(pos as int, j as int));
        }
        let ghost prev_fields = fields@;
        fields.push(cur);
        proof {
            assert(fields@.map_values(|f: Vec<u8>| f@) =~= prev_fields.map_values(
                |f: Vec<u8>| f@,
            ) + seq![cur@]);
        }
        if j < s.len() {
            proof {
                assert(suffix.subrange(j - pos + 1, suffix.len() as int) =~= s@.subrange(
                    j + 1,
                    s@.len() as int,
                ));
                assert(prev_fields.map_values(|f: Vec<u8>| f@) + (seq![cur@] + split_on(
                    s@.subrange(j + 1, s@.len() as int),
                    sep,
                )) =~= fields@.map_values(|f: Vec<u8>| f@) + split_on(
                    s@.subrange(j + 1, s@.len() as int),
                    sep,
                ));
            }
            pos = j + 1;
        } else {
            proof {
                assert(suffix =~= s@.subrange(pos as int, j as int));
                assert(prev_fields.map_values(|f: Vec<u8>| f@) + seq![suffix] =~= fields@.map_values(
                    |f: Vec<u8>| f@,
                ));
            }
            done = true;
        }
    }
    fields
}

/// An ASCII blank: a space or a tab.
pub open spec fn is_space(b: u8) -> bool {
    b == 32 || b == 9
}

/// `s` without its leading blanks.
pub open spec fn trim_start_spec(s: Seq<u8>) -> Seq<u8>
    decreases s.len(),
{
    if s.len() > 0 && is_space(s[0]) {
        trim_start_spec(s.drop_first())
    } else {
        s
    }
}

/// `s` without its trailing blanks.
pub open spec fn trim_end_spec(s: Seq<u8>) -> Seq<u8>
    decreases s.len(),
{
    if s.len() > 0 && is_space(s.last()) {
        trim_end_spec(s.drop_last())
    } else {
        s
    }
}

/// `s` without its leading and trailing blanks.
pub open spec fn trimmed(s: Seq<u8>) -> Seq<u8> {
    trim_end_spec(trim_start_spec(s))
}

/// Trimming takes the substring after the leading blanks.
proof fn lemma_trim_start(s: Seq<u8>, lo: int)
    requires
        0 <= lo <= s.len(),
        forall|k: int| 0 <= k < lo ==> is_space(s[k]),
        lo < s.len() ==> !is_space(s[lo]),
    ensures
        trim_start_spec(s) == s.subrange(lo, s.len() as int),
    decreases lo,
{
    if lo == 0 {
        assert(trim_start_spec(s) =~= s.subrange(0, s.len() as int));
    } else {
        assert(is_space(s[0]));
        let t = s.drop_first();
        assert forall|k: int| 0 <= k < lo - 1 implies is_space(t[k]) by {
            assert(t[k] == s[k + 1]);
        }
        lemma_trim_start(t, lo - 1);
        assert(t.subrange(lo - 1, t.len() as int) =~= s.subrange(lo, s.len() as int));
    }
}

/// Trimming takes the substring before the trailing blanks.
proof fn lemma_trim_end(s: Seq<u8>, hi: int)
    requires
        0 <= hi <= s.len(),
        forall|k: int| hi <= k < s.len() ==> is_space(s[k]),
        hi > 0 ==> !is_space(s[hi - 1]),
    ensures
        trim_end_spec(s) == s.subrange(0, hi),
    decreases s.len(),
{
    if hi == s.len() {
        if s.len() > 0 {
            assert(!is_space(s.last()));
        }
        assert(trim_end_spec(s) =~= s.subrange(0, hi));
    } else {
        assert(is_space(s.last()));
        let t = s.drop_last();
        assert forall|k: int| hi <= k < t.len() implies is_space(t[k]) by {
            assert(t[k] == s[k]);
        }
        lemma_trim_end(t, hi);
        assert(t.subrange(0, hi) =~= s.subrange(0, hi));
    }
}

/// Removes leading and trailing blanks.
pub fn trim(s: &[u8]) -> (r: Vec<u8>)
    ensures
        r@ == trimmed(s@),
{
    let mut lo: usize = 0;
    while lo < s.len() && (s[lo] == 32 || s[lo] == 9)
        invariant
            0 <= lo <= s@.len(),
            forall|k: int| 0 <= k < lo ==> is_space(s@[k]),
        decreases s@.len() - lo,
    {
        lo = lo + 1;
    }
    let mut hi: usize = s.len();
    while hi > lo && (s[hi - 1] == 32 || s[hi - 1] == 9)
        invariant
            lo <= hi <= s@.len(),
            forall|k: int| hi <= k < s@.len() ==> is_space(s@[k]),
        decreases hi,
    {
        hi = hi - 1;
    }
    proof {
        lemma_trim_start(s@, lo as int);
        let t = s@.subrange(lo as int, s@.len() as int);
        assert forall|k: int| hi - lo <= k < t.len() implies is_space(t[k]) by {
            assert(t[k] == s@[lo + k]);
        }
        if hi > lo {
            assert(t[hi - lo - 1] == s@[hi - 1]);
        }
        lemma_trim_end(t, hi - lo);
        assert(t.subrange(0, hi - lo) =~= s@.subrange(lo as int, hi as int));
    }
    let mut r: Vec<u8> = Vec::new();
    let mut k = lo;
    while k < hi
        invariant
            lo <= k <= hi <= s@.len(),
            r@ == s@.subrange(lo as int, k as int),
        decreases hi - k,
    {
        r.push(s[k]);
        proof {
            assert(s@.subrange(lo as int, k + 1).drop_last() =~= s@.subrange(lo as int, k as int));
            assert(r@ =~= s@.subrange(lo as int, k + 1));
        }
        k = k + 1;
    }
    r
}

/// At the end of a full scan, the digit string and scale of `rest` are
/// exactly what the scan accumulated.
proof fn lemma_amount_end_shape(s: Seq<u8>, rest: Seq<u8>, start: int, i: int, dot: Option<usize>)
    requires
        0 <= start <= i == s.len(),
        rest == s.subrange(start, s.len() as int),
        match dot {
            None => forall|j: int| start <= j < i ==> s[j] != 46,
            Some(p) => {
                &&& start <= p < i
                &&& s[p as int] == 46
                &&& forall|j: int| start <= j < p ==> s[j] != 46
                &&& forall|j: int| p < j < i ==> s[j] != 46
            },
        },
    ensures
        match dot {
            None => amount_digits(rest) == s.subrange(start, i) && amount_scale(rest) == 0,
            Some(p) => amount_digits(rest) == s.subrange(start, p as int) + s.subrange(p + 1, i)
                && amount_scale(rest) == i - p - 1,
        },
{
    match dot {
        None => {
            assert forall|j: int| 0 <= j < rest.len() implies rest[j] != 46 by {
                assert(rest[j] == s[start + j]);
            }
            lemma_first_dot_ge(rest, rest.len() as int);
            lemma_first_dot_le(rest);
            assert(amount_digits(rest) =~= s.subrange(start, i));
        },
        Some(p) => {
            let pp = p as int;
            assert forall|j: int| 0 <= j < pp - start implies rest[j] != 46 by {
                assert(rest[j] == s[start + j]);
            }
            assert(rest[pp - start] == 46);
            lemma_first_dot_is(rest, pp - start);
            let d = pp - start;
            assert(rest.subrange(0, d) =~= s.subrange(start, pp));
            assert(rest.subrange(d + 1, rest.len() as int) =~= s.subrange(pp + 1, i));
        },
    }
}

/// When the accumulated coefficient exceeds [`MAX_MANTISSA`], the whole
/// numeral is malformed or its coefficient exceeds [`MAX_MANTISSA`] too.
proof fn lemma_overflow_means_malformed(
    s: Seq<u8>,
    rest: Seq<u8>,
    start: int,
    i: int,
    dot: Option<usize>,
    acc: u128,
)
    requires
        0 <= start <= i <= s.len(),
        rest == s.subrange(start, s.len() as int),
        match dot {
            None => {
                &&& forall|j: int| start <= j < i ==> s[j] != 46
                &&& all_digits(s.subrange(start, i))
                &&& acc == digits_value(s.subrange(start, i))
            },
            Some(p) => {
                &&& start <= p < i
                &&& s[p as int] == 46
                &&& forall|j: int| start <= j < p ==> s[j] != 46
                &&& forall|j: int| p < j < i ==> s[j] != 46
                &&& all_digits(s.subrange(start, p as int) + s.subrange(p + 1, i))
                &&& acc == digits_value(s.subrange(start, p as int) + s.subrange(p + 1, i))
            },
        },
        acc > MAX_MANTISSA as u128,
    ensures
        !(all_digits(amount_digits(rest)) && digits_value(amount_digits(rest)) <= MAX_MANTISSA),
{
    let ds = amount_digits(rest);
    if all_digits(ds) && digits_value(ds) <= MAX_MANTISSA {
        let d = first_dot(rest);
        lemma_first_dot_le(rest);
        match dot {
            None => {
                let cur = s.subrange(start, i);
                assert forall|j: int| 0 <= j < i - start implies rest[j] != 46 by {
                    assert(rest[j] == s[start + j]);
                }
                lemma_first_dot_ge(rest, i - start);
                assert(cur =~= ds.subrange(0, i - start));
                lemma_digits_value_prefix_le(ds, i - start);
            },
            Some(p) => {
                let pp = p as int;
                assert forall|j: int| 0 <= j < pp - start implies rest[j] != 46 by {
                    assert(rest[j] == s[start + j]);
                }
                assert(rest[pp - start] == 46);
                lemma_first_dot_is(rest, pp - start);
                let cur = s.subrange(start, pp) + s.subrange(pp + 1, i);
                assert(cur =~= ds.subrange(0, i - start - 1));
                lemma_digits_value_prefix_le(ds, i - start - 1);
            },
        }
    }
}

/// A byte that is neither a digit nor the first dot makes the numeral
/// malformed.
proof fn lemma_bad_byte_means_malformed(
    s: Seq<u8>,
    rest: Seq<u8>,
    start: int,
    i: int,
    dot: Option<usize>,
)
    requires
        0 <= start <= i < s.len(),
        rest == s.subrange(start, s.len() as int),
        !is_digit(s[i]),
        match dot {
            None => s[i] != 46 && (forall|j: int| start <= j < i ==> s[j] != 46),
            Some(p) => {
                &&& start <= p < i
                &&& s[p as int] == 46
                &&& forall|j: int| start <= j < p ==> s[j] != 46
                &&& forall|j: int| p < j < i ==> s[j] != 46
            },
        },
    ensures
        !all_digits(amount_digits(rest)),
{
    let ds = amount_digits(rest);
    if all_digits(ds) {
        let d = first_dot(rest);
        lemma_first_dot_le(rest);
        match dot {
            None => {
                assert forall|j: int| 0 <= j < i + 1 - start implies rest[j] != 46 by {
                    assert(rest[j] == s[start + j]);
                }
                lemma_first_dot_ge(rest, i + 1 - start);
                assert(i - start < d);
                if d == rest.len() {
                    assert(ds[i - start] == rest[i - start]);
                } else {
                    assert(ds[i - start] == rest.subrange(0, d)[i - start]);
                    assert(rest.subrange(0, d)[i - start] == rest[i - start]);
                }
                assert(rest[i - start] == s[i]);
                assert(is_digit(ds[i - start]));
            },
            Some(p) => {
                let pp = p as int;
                assert forall|j: int| 0 <= j < pp - start implies rest[j] != 46 by {
                    assert(rest[j] == s[start + j]);
                }
                assert(rest[pp - start] == 46);
                lemma_first_dot_is(rest, pp - start);
                let k = (pp - start) + (i - pp - 1);
                assert(ds[k] == rest.subrange(d + 1, rest.len() as int)[i - pp - 1]);
                assert(rest.subrange(d + 1, rest.len() as int)[i - pp - 1] == rest[i - start]);
                assert(rest[i - start] == s[i]);
                assert(is_digit(ds[k]));
            },
        }
    }
}

/// The decimal digits of `n`, most significant first, without leading zeros
/// (`0` is the single digit `0`).
pub open spec fn dec_digits(n: nat) -> Seq<u8>
    decreases n,
{
    if n < 10 {
        seq![(48 + n) as u8]
    } else {
        dec_digits(n / 10) + seq![(48 + n % 10) as u8]
    }
}

/// `n` zero bytes.
pub open spec fn zeros(n: nat) -> Seq<u8>
    decreases n,
{
    if n == 0 {
        Seq::empty()
    } else {
        seq![48u8] + zeros((n - 1) as nat)
    }
}

/// `ds` left-padded with zeros to at least `width` bytes.
pub open spec fn zero_pad(ds: Seq<u8>, width: nat) -> Seq<u8> {
    if ds.len() >= width {
        ds
    } else {
        zeros((width - ds.len()) as nat) + ds
    }
}

/// The decimal rendering of a well-formed amount: an optional minus sign,
/// the integer digits, and, for a positive scale, a dot and exactly `scale`
/// fraction digits (trailing zeros kept).
pub open spec fn amount_bytes(a: Amount) -> Seq<u8> {
    let m = (if a.mantissa >= 0 {
        a.mantissa as int
    } else {
        -a.mantissa as int
    }) as nat;
    let sign: Seq<u8> = if a.mantissa < 0 {
        seq![45u8]
    } else {
        Seq::empty()
    };
    if a.scale == 0 {
        sign + dec_digits(m)
    } else {
        let p = pow10(a.scale as nat) as nat;
        sign + dec_digits(m / p) + seq![46u8] + zero_pad(dec_digits(m % p), a.scale as nat)
    }
}

/// A number below `10^k` has at most `k` digits.
proof fn lemma_dec_digits_len_le(n: nat, k: nat)
    requires
        k >= 1,
        n < pow10(k),
    ensures
        dec_digits(n).len() <= k,
    decreases k,
{
    if n < 10 {
    } else {
        lemma_pow10_positive((k - 1) as nat);
        assert(pow10(k) == 10 * pow10((k - 1) as nat));
        assert(n / 10 < pow10((k - 1) as nat)) by {
            vstd::arithmetic::div_mod::lemma_fundamental_div_mod(n as int, 10);
        }
        assert(k >= 2) by {
            if k == 1 {
                assert(pow10(1nat) == 10);
            }
        }
        lemma_dec_digits_len_le(n / 10, (k - 1) as nat);
    }
}

/// Appends the decimal digits of `n`.
pub fn push_dec_digits(n: u128, out: &mut Vec<u8>)
    ensures
        final(out)@ == old(out)@ + dec_digits(n as nat),
    decreases n,
{
    if n < 10 {
        out.push(48 + n as u8);
        proof {
            assert(final(out)@ =~= old(out)@ + dec_digits(n as nat));
        }
    } else {
        push_dec_digits(n / 10, out);
        out.push(48 + (n % 10) as u8);
        proof {
            assert(final(out)@ =~= old(out)@ + dec_digits(n as nat));
        }
    }
}

/// Appends the decimal rendering of `a` (see [`amount_bytes`]).
pub fn push_amount_bytes(a: &Amount, out: &mut Vec<u8>)
    requires
        a.wf(),
    ensures
        final(out)@ == old(out)@ + amount_bytes(*a),
{
    let ghost entry = out@;
    if a.mantissa < 0 {
        out.push(45);
    }
    let mag: u128 = if a.mantissa < 0 {
        (-a.mantissa) as u128
    } else {
        a.mantissa as u128
    };
    if a.scale == 0 {
        push_dec_digits(mag, out);
        proof {
            assert(out@ =~= entry + amount_bytes(*a));
        }
    } else {
        let p = pow10_i128(a.scale) as u128;
        push_dec_digits(mag / p, out);
        out.push(46);
        let ghost before_frac = out@;
        let mut frac: Vec<u8> = Vec::new();
        push_dec_digits(mag % p, &mut frac);
        proof {
            lemma_pow10_positive(a.scale as nat);
            lemma_dec_digits_len_le((mag % p) as nat, a.scale as nat);
        }
        let mut z = frac.len();
        while z < a.scale as usize
            invariant
                frac@.len() <= z <= a.scale,
                out@ == before_frac + zeros((z - frac@.len()) as nat),
                frac@ == dec_digits((mag % p) as nat),
            decreases a.scale - z,
        {
            out.push(48);
            proof {
                lemma_zeros_snoc((z + 1 - frac@.len()) as nat);
                assert(out@ =~= before_frac + zeros((z + 1 - frac@.len()) as nat));
            }
            z = z + 1;
        }
        let mut k: usize = 0;
        while k < frac.len()
            invariant
                0 <= k <= frac@.len(),
                out@ == before_frac + zeros((a.scale - frac@.len()) as nat) + frac@.subrange(
                    0,
                    k as int,
                ),
                frac@ == dec_digits((mag % p) as nat),
                frac@.len() <= a.scale,
            decreases frac@.len() - k,
        {
            out.push(frac[k]);
            proof {
                assert(frac@.subrange(0, k + 1).drop_last() =~= frac@.subrange(0, k as int));
                assert(out@ =~= before_frac + zeros((a.scale - frac@.len()) as nat)
                    + frac@.subrange(0, k + 1));
            }
            k = k + 1;
        }
        proof {
            assert(frac@.subrange(0, frac@.len() as int) =~= frac@);
            assert(out@ =~= entry + amount_bytes(*a));
        }
    }
}

/// Zeros grow at either end.
proof fn lemma_zeros_snoc(n: nat)
    requires
        n >= 1,
    ensures
        zeros(n) == zeros((n - 1) as nat) + seq![48u8],
    decreases n,
{
    if n == 1 {
        assert(zeros(1nat) =~= zeros(0nat) + seq![48u8]);
    } else {
        lemma_zeros_snoc((n - 1) as nat);
        assert(zeros(n) =~= zeros((n - 1) as nat) + seq![48u8]);
    }
}

} // verus!
