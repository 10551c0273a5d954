use vstd::prelude::*;
use vstd::string::StrSliceExecFns;

verus! {

// Decimal numerals: the canonical external representation of an integer, and
// the parse that recognises the numerals among the reader's tokens.  The
// parse follows the usual convention for signed decimal literals: an optional
// leading '+' or '-', then one or more ASCII digits, and the value must fit
// the signed 128-bit range.

/// The magnitude of `i128::MAX`.
pub const POS_LIMIT: u128 = 170141183460469231731687303715884105727;

/// The magnitude of `i128::MIN`.
pub const NEG_LIMIT: u128 = 170141183460469231731687303715884105728;

pub open spec fn is_digit_char(c: char) -> bool {
    48 <= c as int <= 57
}

pub open spec fn digit_char(d: int) -> char
    recommends
        0 <= d < 10,
{
    ((48 + d) as u8) as char
}

/// The decimal digits of a natural number, most significant first.
pub open spec fn dec_nat(n: nat) -> Seq<char>
    decreases n,
{
    if n < 10 {
        seq![digit_char(n as int)]
    } else {
        dec_nat(n / 10).push(digit_char((n % 10) as int))
    }
}

/// The decimal numeral of an integer: a leading '-' for negative values.
pub open spec fn dec_int(n: int) -> Seq<char> {
    if n < 0 {
        seq!['-'] + dec_nat((-n) as nat)
    } else {
        dec_nat(n as nat)
    }
}

pub open spec fn all_digits(s: Seq<char>) -> bool {
    forall|i: int| 0 <= i < s.len() ==> is_digit_char(s[i])
}

/// The value of a sequence of decimal digits.
pub open spec fn digits_val(s: Seq<char>) -> int
    decreases s.len(),
{
    if s.len() == 0 {
        0
    } else {
        digits_val(s.drop_last()) * 10 + (s.last() as int - 48)
    }
}

/// What a signed decimal token denotes: `None` when the token is not a
/// numeral at all, or when its value does not fit in an `i128`.
pub open spec fn spec_parse_int(s: Seq<char>) -> Option<i128> {
    let neg = s.len() > 0 && s[0] == '-';
    let signed = s.len() > 0 && (s[0] == '-' || s[0] == '+');
    let body = if signed {
        s.drop_first()
    } else {
        s
    };
    if body.len() == 0 || !all_digits(body) {
        None
    } else {
        let v = digits_val(body);
        if neg {
            if -v >= i128::MIN {
                Some((-v) as i128)
            } else {
                None
            }
        } else {
            if v <= i128::MAX {
                Some(v as i128)
            } else {
                None
            }
        }
    }
}

pub proof fn lemma_digits_val_nonneg(s: Seq<char>)
    requires
        all_digits(s),
    ensures
        digits_val(s) >= 0,
    decreases s.len(),
{
    if s.len() > 0 {
        assert(all_digits(s.drop_last()));
        lemma_digits_val_nonneg(s.drop_last());
    }
}

pub proof fn lemma_digits_val_prefix_le(s: Seq<char>, i: int)
    requires
        all_digits(s),
        0 <= i <= s.len(),
    ensures
        digits_val(s.take(i)) <= digits_val(s),
    decreases s.len() - i,
{
    if i < s.len() {
        let a = s.take(i);
        let b = s.take(i + 1);
        assert(b.drop_last() =~= a);
        assert(all_digits(a));
        lemma_digits_val_nonneg(a);
        assert(digits_val(b) == digits_val(a) * 10 + (s[i] as int - 48));
        lemma_digits_val_prefix_le(s, i + 1);
    } else {
        assert(s.take(i) =~= s);
    }
}

/// The digits of `dec_nat(n)` are digits, the numeral is never empty, and its
/// value is `n` again.
pub proof fn lemma_dec_nat(n: nat)
    ensures
        all_digits(dec_nat(n)),
        dec_nat(n).len() >= 1,
        digits_val(dec_nat(n)) == n,
    decreases n,
{
    if n < 10 {
        let s = dec_nat(n);
        assert(s =~= seq![digit_char(n as int)]);
        assert(s.drop_last() =~= Seq::<char>::empty());
        assert(digits_val(s.drop_last()) == 0);
        assert(s.last() == digit_char(n as int));
        assert(digit_char(n as int) as int == 48 + n);
        assert(digits_val(s) == n);
    } else {
        lemma_dec_nat(n / 10);
        let p = dec_nat(n / 10);
        let s = dec_nat(n);
        assert(s =~= p.push(digit_char((n % 10) as int)));
        assert(s.drop_last() =~= p);
        assert(digit_char((n % 10) as int) as int == 48 + n % 10);
        assert(digits_val(s) == digits_val(p) * 10 + (n % 10));
        assert(digits_val(s) == (n / 10) * 10 + (n % 10));
        assert(forall|i: int| 0 <= i < s.len() ==> is_digit_char(s[i]));
    }
}

/// Printing an integer and parsing the numeral back returns the integer.
pub proof fn lemma_parse_dec_int(n: int)
    requires
        i128::MIN <= n <= i128::MAX,
    ensures
        spec_parse_int(dec_int(n)) == Some(n as i128),
{
    if n < 0 {
        let m = (-n) as nat;
        lemma_dec_nat(m);
        let s = dec_int(n);
        assert(s[0] == '-');
        assert(s.drop_first() =~= dec_nat(m));
        assert(digits_val(s.drop_first()) == m);
        assert(-digits_val(s.drop_first()) == n);
    } else {
        let m = n as nat;
        lemma_dec_nat(m);
        let s = dec_int(n);
        assert(s =~= dec_nat(m));
        assert(is_digit_char(s[0]));
        assert(s[0] != '-' && s[0] != '+');
        assert(digits_val(s) == n);
    }
}

/// Every character of a decimal numeral is a digit or a leading '-'.
pub proof fn lemma_dec_int_chars(n: int)
    ensures
        forall|i: int|
            0 <= i < dec_int(n).len() ==> (is_digit_char(dec_int(n)[i]) || dec_int(n)[i] == '-'),
        dec_int(n).len() >= 1,
{
    if n < 0 {
        lemma_dec_nat((-n) as nat);
    } else {
        lemma_dec_nat(n as nat);
    }
}

fn digit_to_char(d: u8) -> (c: char)
    requires
        d < 10,
    ensures
        c == digit_char(d as int),
{
    (48 + d) as char
}

/// Appends the decimal digits of `n` to `out`.
fn push_dec_nat(out: &mut String, n: u128)
    ensures
        final(out)@ == old(out)@ + dec_nat(n as nat),
    decreases n,
{
    if n < 10 {
        crate::strutil::push_char(out, digit_to_char(n as u8));
        proof {
            assert(final(out)@ =~= old(out)@ + dec_nat(n as nat));
        }
    } else {
        push_dec_nat(out, n / 10);
        crate::strutil::push_char(out, digit_to_char((n % 10) as u8));
        proof {
            assert((n / 10) as nat == (n as nat) / 10);
            assert((n % 10) as nat == (n as nat) % 10);
            assert(final(out)@ =~= old(out)@ + dec_nat(n as nat));
        }
    }
}

/// The canonical decimal text of a signed 128-bit integer.
pub fn int_to_decimal(n: i128) -> (r: String)
    ensures
        r@ == dec_int(n as int),
{
    let mut s = String::new();
    if n >= 0 {
        push_dec_nat(&mut s, n as u128);
        proof {
            assert(s@ =~= dec_int(n as int));
        }
    } else {
        crate::strutil::push_char(&mut s, '-');
        let m: i128 = -(n + 1);
        let mag: u128 = (m as u128) + 1;
        assert(mag as int == -(n as int));
        push_dec_nat(&mut s, mag);
        proof {
            assert(s@ =~= dec_int(n as int));
        }
    }
    s
}

/// Parses a signed decimal numeral; `None` for any token that is not one or
/// whose value does not fit in an `i128`.
pub fn parse_decimal(t: &str) -> (r: Option<i128>)
    ensures
        r == spec_parse_int(t@),
{
    let n = t.unicode_len();
    if n == 0 {
        return None;
    }
    let c0 = t.get_char(0);
    let neg = c0 == '-';
    let signed = neg || c0 == '+';
    let start: usize = if signed {
        1
    } else {
        0
    };
    if start == n {
        return None;
    }
    let ghost body: Seq<char> = if signed {
        t@.drop_first()
    } else {
        t@
    };
    let limit: u128 = if neg {
        NEG_LIMIT
    } else {
        POS_LIMIT
    };
    let mut acc: u128 = 0;
    let mut i: usize = start;
    proof {
        assert(body.take(0) =~= Seq::<char>::empty());
    }
    while i < n
        invariant
            start <= i <= n,
            start == (if signed {
                1int
            } else {
                0int
            }),
            n == t@.len(),
            body == (if signed {
                t@.drop_first()
            } else {
                t@
            }),
            body.len() == n - start,
            neg == (t@.len() > 0 && t@[0] == '-'),
            signed == (t@.len() > 0 && (t@[0] == '-' || t@[0] == '+')),
            limit == (if neg {
                NEG_LIMIT
            } else {
                POS_LIMIT
            }),
            all_digits(body.take(i - start)),
            acc == digits_val(body.take(i - start)),
            acc <= limit,
        decreases n - i,
    {
        let c = t.get_char(i);
        let u = c as u32;
        proof {
            assert(body[i - start] == t@[i as int]);
        }
        if u < 48 || u > 57 {
            proof {
                assert(!is_digit_char(body[i - start]));
                assert(!all_digits(body));
            }
            return None;
        }
        let d = (u - 48) as u128;
        let ghost k = i - start;
        proof {
            assert(body.take(k + 1).drop_last() =~= body.take(k));
            assert(body.take(k + 1).last() == body[k]);
            assert(digits_val(body.take(k + 1)) == acc * 10 + d);
            assert(all_digits(body.take(k + 1)));
        }
        if acc > limit / 10 || (acc == limit / 10 && d > limit % 10) {
            proof {
                assert(acc * 10 + d > limit) by (nonlinear_arith)
                    requires
                        acc > limit / 10 && limit == limit / 10 * 10 + limit % 10 || (acc == limit
                            / 10 && d > limit % 10),
                        d >= 0,
                ;
                if all_digits(body) {
                    lemma_digits_val_prefix_le(body, k + 1);
                    assert(digits_val(body) > limit);
                }
            }
            return None;
        }
        acc = acc * 10 + d;
        i = i + 1;
    }
    proof {
        assert(body.take(n - start) =~= body);
        lemma_digits_val_nonneg(body);
    }
    if neg {
        if acc == NEG_LIMIT {
            Some(i128::MIN)
        } else {
            Some(-(acc as i128))
        }
    } else {
        Some(acc as i128)
    }
}

} // verus!
