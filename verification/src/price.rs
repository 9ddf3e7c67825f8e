//! Fixed-point decimal prices and the parser that reads them from the quote
//! service's numeric strings.

use vstd::prelude::*;

verus! {

/// A price as a fixed-point decimal: `digits` holds every decimal digit of
/// the number with the point removed, `frac` says how many of those digits
/// follow the point.  `"5.10"` is `Price { digits: 510, frac: 2 }`; a record
/// that has never been updated carries `Price { digits: 0, frac: 0 }`.
#[derive(Clone, Copy, Debug, PartialEq, Eq, Structural)]
pub struct Price {
    pub digits: u64,
    pub frac: usize,
}

impl Price {
    /// The zero price a freshly created record carries.
    pub open spec fn spec_zero() -> Price {
        Price { digits: 0, frac: 0 }
    }

    pub fn zero() -> (r: Price)
        ensures
            r == Price::spec_zero(),
    {
        Price { digits: 0, frac: 0 }
    }
}

pub open spec fn is_digit(c: char) -> bool {
    48 <= c as int && c as int <= 57
}

pub open spec fn digit_val(c: char) -> nat {
    (c as int - 48) as nat
}

pub open spec fn all_digits(s: Seq<char>) -> bool {
    forall|i: int| 0 <= i < s.len() ==> is_digit(#[trigger] s[i])
}

/// The value of a run of decimal digits, most significant first.
pub open spec fn digits_val(s: Seq<char>) -> nat
    decreases s.len(),
{
    if s.len() == 0 {
        0
    } else {
        digits_val(s.drop_last()) * 10 + digit_val(s.last())
    }
}

/// A non-empty run of decimal digits.
pub open spec fn plain_digits(s: Seq<char>) -> bool {
    s.len() > 0 && all_digits(s)
}

/// `s` is an integer part, a point at position `i`, and a fraction part,
/// with both parts non-empty runs of digits.
pub open spec fn dotted_at(s: Seq<char>, i: int) -> bool {
    &&& 1 <= i
    &&& i + 1 < s.len()
    &&& s[i] == '.'
    &&& plain_digits(s.subrange(0, i))
    &&& plain_digits(s.subrange(i + 1, s.len() as int))
}

/// The decimal grammar a price string must match: digits, optionally
/// followed by a point and more digits.
pub open spec fn valid_decimal(s: Seq<char>) -> bool {
    plain_digits(s) || (exists|i: int| dotted_at(s, i))
}

/// The digits of `s` with the point (if any) removed.
pub open spec fn spec_mantissa(s: Seq<char>) -> Seq<char> {
    if plain_digits(s) {
        s
    } else {
        let i = choose|i: int| dotted_at(s, i);
        s.subrange(0, i) + s.subrange(i + 1, s.len() as int)
    }
}

/// How many digits of `s` follow the point; zero when there is none.
pub open spec fn spec_frac(s: Seq<char>) -> nat {
    if plain_digits(s) {
        0
    } else {
        let i = choose|i: int| dotted_at(s, i);
        (s.len() - 1 - i) as nat
    }
}

/// What parsing a price string yields: its mantissa and fraction length,
/// provided the string matches the decimal grammar and the mantissa fits
/// in a `u64`; `None` on any other string.
pub open spec fn spec_parse_price(s: Seq<char>) -> Option<Price> {
    if valid_decimal(s) && digits_val(spec_mantissa(s)) <= u64::MAX {
        Some(Price { digits: digits_val(spec_mantissa(s)) as u64, frac: spec_frac(s) as usize })
    } else {
        None
    }
}

/// A point can stand at only one position of a decimal string.
proof fn lemma_dot_unique(s: Seq<char>, i: int, j: int)
    requires
        dotted_at(s, i),
        0 <= j < s.len(),
        s[j] == '.',
    ensures
        i == j,
{
    if j < i {
        assert(s.subrange(0, i)[j] == s[j]);
        assert(is_digit(s.subrange(0, i)[j]));
    } else if j > i {
        assert(s.subrange(i + 1, s.len() as int)[j - i - 1] == s[j]);
        assert(is_digit(s.subrange(i + 1, s.len() as int)[j - i - 1]));
    }
}

/// Dropping trailing digits can only shrink the value of a digit run.
proof fn lemma_digits_val_prefix(s: Seq<char>, k: int)
    requires
        0 <= k <= s.len(),
    ensures
        digits_val(s.subrange(0, k)) <= digits_val(s),
    decreases s.len() - k,
{
    if k == s.len() {
        assert(s.subrange(0, k) =~= s);
    } else {
        lemma_digits_val_prefix(s, k + 1);
        let t = s.subrange(0, k + 1);
        assert(t.drop_last() =~= s.subrange(0, k));
        assert(digits_val(t) == digits_val(s.subrange(0, k)) * 10 + digit_val(s[k]));
    }
}

/// The digits seen by the parser's scan once it has passed position `j`,
/// with the point at `dot` (the string's length standing for "no point")
/// left out.
pub open spec fn stripped_upto(s: Seq<char>, dot: int, j: int) -> Seq<char> {
    if j <= dot {
        s.subrange(0, j)
    } else {
        s.subrange(0, dot) + s.subrange(dot + 1, j)
    }
}

/// Parse a decimal price string: a non-empty run of digits, optionally
/// followed by a point and another non-empty run.  Returns `None` when the
/// string does not match that grammar or its digits overflow a `u64`.
pub fn parse_price(s: &str) -> (r: Option<Price>)
    ensures
        r == spec_parse_price(s@),
{
    let n = s.unicode_len();
    let ghost sq = s@;

    // Find the first point, if any; `dot == n` means there is none.
    let mut dot: usize = n;
    let mut j: usize = 0;
    while j < n
        invariant
            j <= n,
            n == sq.len(),
            sq == s@,
            dot == n || (dot < j && sq[dot as int] == '.' && forall|k: int|
                0 <= k < dot ==> sq[k] != '.'),
            dot == n ==> forall|k: int| 0 <= k < j ==> sq[k] != '.',
        decreases n - j,
    {
        if dot == n && s.get_char(j) == '.' {
            dot = j;
        }
        j += 1;
    }

    if n == 0 {
        proof {
            assert forall|i: int| !dotted_at(sq, i) by {}
        }
        return None;
    }
    if dot == 0 {
        proof {
            assert(!is_digit(sq[0]));
            assert forall|i: int| !dotted_at(sq, i) by {
                if dotted_at(sq, i) {
                    lemma_dot_unique(sq, i, 0);
                }
            }
        }
        return None;
    }
    if dot < n && dot + 1 == n {
        proof {
            assert(!is_digit(sq[dot as int]));
            assert forall|i: int| !dotted_at(sq, i) by {
                if dotted_at(sq, i) {
                    lemma_dot_unique(sq, i, dot as int);
                }
            }
        }
        return None;
    }

    let ghost full = stripped_upto(sq, dot as int, n as int);
    let mut acc: u64 = 0;
    j = 0;
    while j < n
        invariant
            j <= n,
            n == sq.len(),
            sq == s@,
            n > 0,
            1 <= dot <= n,
            dot < n ==> sq[dot as int] == '.' && dot + 1 < n,
            dot < n ==> forall|k: int| 0 <= k < dot ==> sq[k] != '.',
            dot == n ==> forall|k: int| 0 <= k < n ==> sq[k] != '.',
            full == stripped_upto(sq, dot as int, n as int),
            all_digits(stripped_upto(sq, dot as int, j as int)),
            acc == digits_val(stripped_upto(sq, dot as int, j as int)),
        decreases n - j,
    {
        if j != dot {
            let c = s.get_char(j);
            let u = c as u32;
            if u < 48 || u > 57 {
                proof {
                    assert(!is_digit(sq[j as int]));
                    assert(!plain_digits(sq));
                    assert forall|i: int| !dotted_at(sq, i) by {
                        if dotted_at(sq, i) {
                            if dot < n {
                                lemma_dot_unique(sq, i, dot as int);
                                if j < dot {
                                    assert(sq.subrange(0, i)[j as int] == sq[j as int]);
                                } else {
                                    assert(sq.subrange(i + 1, sq.len() as int)[j - i - 1]
                                        == sq[j as int]);
                                }
                            } else {
                                assert(sq[i] == '.');
                            }
                        }
                    }
                }
                return None;
            }
            let d: u64 = (u - 48) as u64;
            let ghost pre = stripped_upto(sq, dot as int, j as int);
            proof {
                assert(stripped_upto(sq, dot as int, j as int + 1) =~= pre.push(sq[j as int]));
                assert(pre.push(sq[j as int]).drop_last() =~= pre);
                assert(digits_val(pre.push(sq[j as int])) == digits_val(pre) * 10 + d);
            }
            let q = (u64::MAX - d) / 10;
            if acc > q {
                proof {
                    let m = (u64::MAX - d) as int;
                    assert(m == 10 * (m / 10) + m % 10) by (nonlinear_arith);
                    assert(0 <= m % 10 < 10) by (nonlinear_arith);
                    assert(acc * 10 + d > u64::MAX);
                    let stripped_next = stripped_upto(sq, dot as int, j as int + 1);
                    let cut: int = if j < dot { j as int + 1 } else { j as int };
                    assert(stripped_next =~= full.subrange(0, cut));
                    lemma_digits_val_prefix(full, cut);
                    assert(digits_val(full) > u64::MAX);
                    if valid_decimal(sq) {
                        if plain_digits(sq) {
                            assert(dot == n);
                            assert(full =~= sq);
                        } else {
                            let i = choose|i: int| dotted_at(sq, i);
                            assert(dotted_at(sq, i));
                            lemma_dot_unique(sq, i, dot as int);
                            assert(spec_mantissa(sq) == full);
                        }
                        assert(digits_val(spec_mantissa(sq)) > u64::MAX);
                    }
                }
                return None;
            }
            proof {
                let m = (u64::MAX - d) as int;
                assert(m == 10 * (m / 10) + m % 10) by (nonlinear_arith);
                assert(0 <= m % 10 < 10) by (nonlinear_arith);
                assert(acc * 10 + d <= u64::MAX);
            }
            acc = acc * 10 + d;
        } else {
            proof {
                assert(stripped_upto(sq, dot as int, j as int + 1)
                    =~= stripped_upto(sq, dot as int, j as int));
            }
        }
        j += 1;
    }

    let frac: usize = if dot < n { n - 1 - dot } else { 0 };
    proof {
        if dot == n {
            assert(full =~= sq);
            assert(plain_digits(sq));
            assert(spec_mantissa(sq) == sq);
            assert(spec_frac(sq) == 0);
        } else {
            assert(full =~= sq.subrange(0, dot as int) + sq.subrange(dot as int + 1, n as int));
            assert forall|k: int| 0 <= k < dot implies is_digit(#[trigger] sq.subrange(
                0,
                dot as int,
            )[k]) by {
                assert(full[k] == sq.subrange(0, dot as int)[k]);
            }
            assert forall|k: int| 0 <= k < n - dot - 1 implies is_digit(#[trigger] sq.subrange(
                dot as int + 1,
                n as int,
            )[k]) by {
                assert(full[dot + k] == sq.subrange(dot as int + 1, n as int)[k]);
            }
            assert(dotted_at(sq, dot as int));
            assert(!plain_digits(sq));
            let i = choose|i: int| dotted_at(sq, i);
            assert(dotted_at(sq, i));
            lemma_dot_unique(sq, i, dot as int);
            assert(spec_mantissa(sq) == full);
            assert(spec_frac(sq) == n - 1 - dot);
        }
        assert(valid_decimal(sq));
        assert(digits_val(spec_mantissa(sq)) == acc);
    }
    Some(Price { digits: acc, frac })
}

} // verus!
