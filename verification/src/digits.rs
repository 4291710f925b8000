//! Decimal numerals: parsing byte strings into `u64` and printing `u64`
//! back into strings, with the numeral's value pinned down exactly.

use vstd::prelude::*;
use vstd::string::StringExecFns;

verus! {

/// The byte is an ASCII decimal digit.
pub open spec fn is_digit(b: u8) -> bool {
    48 <= b <= 57
}

/// Every byte of `s` is an ASCII decimal digit.
pub open spec fn all_digits(s: Seq<u8>) -> bool {
    forall|i: int| 0 <= i < s.len() ==> is_digit(#[trigger] s[i])
}

/// The number denoted by a string of decimal digit bytes, most significant
/// digit first.
pub open spec fn digits_val(s: Seq<u8>) -> nat
    decreases s.len(),
{
    if s.len() == 0 {
        0
    } else {
        (digits_val(s.drop_last()) * 10 + (s.last() - 48)) as nat
    }
}

/// `s` is a well-formed numeral whose value fits in a `u64`.
pub open spec fn valid_num(s: Seq<u8>) -> bool {
    &&& s.len() > 0
    &&& all_digits(s)
    &&& digits_val(s) <= u64::MAX
}

/// A numeral's value only grows as digits are appended on the right.
proof fn lemma_digits_val_prefix_le(s: Seq<u8>, k: int)
    requires
        0 <= k <= s.len(),
        all_digits(s),
    ensures
        digits_val(s.subrange(0, k)) <= digits_val(s),
    decreases s.len(),
{
    if k == s.len() {
        assert(s.subrange(0, k) =~= s);
    } else {
        assert(s.drop_last() =~= s.subrange(0, s.len() - 1));
        assert(all_digits(s.drop_last()));
        lemma_digits_val_prefix_le(s.drop_last(), k);
        assert(s.drop_last().subrange(0, k) =~= s.subrange(0, k));
        assert(is_digit(s.last()));
        assert(digits_val(s) >= digits_val(s.drop_last()));
    }
}

/// Parse a byte string as an unsigned decimal number.
///
/// Returns `Some` exactly on well-formed numerals that fit in a `u64`,
/// and then returns the numeral's value.
pub fn parse_u64(s: &[u8]) -> (r: Option<u64>)
    ensures
        match r {
            Some(v) => valid_num(s@) && v == digits_val(s@),
            None => !valid_num(s@),
        },
{
    if s.len() == 0 {
        return None;
    }
    let mut res: u64 = 0;
    let mut i: usize = 0;
    while i < s.len()
        invariant
            0 <= i <= s@.len(),
            all_digits(s@.subrange(0, i as int)),
            res == digits_val(s@.subrange(0, i as int)),
        decreases s@.len() - i,
    {
        let b = s[i];
        if b < 48 || b > 57 {
            assert(!is_digit(s@[i as int]));
            return None;
        }
        let d: u64 = (b - 48) as u64;
        proof {
            assert(s@.subrange(0, i + 1).drop_last() =~= s@.subrange(0, i as int));
            assert(s@.subrange(0, i + 1).last() == s@[i as int]);
        }
        if res > 1844674407370955161 || (res == 1844674407370955161 && d > 5) {
            proof {
                if all_digits(s@) {
                    assert(digits_val(s@.subrange(0, i + 1)) > u64::MAX);
                    lemma_digits_val_prefix_le(s@, i + 1);
                }
            }
            return None;
        }
        res = res * 10 + d;
        i = i + 1;
    }
    proof {
        assert(s@.subrange(0, i as int) =~= s@);
    }
    Some(res)
}

/// The decimal numeral of `n`, as bytes, without leading zeros (a single
/// `'0'` for zero).
pub open spec fn dec_bytes(n: nat) -> Seq<u8>
    decreases n,
{
    if n < 10 {
        seq![(48 + n) as u8]
    } else {
        dec_bytes(n / 10).push((48 + n % 10) as u8)
    }
}

/// A numeral prints as digits and reads back as the number it prints.
pub proof fn lemma_dec_bytes(n: nat)
    ensures
        dec_bytes(n).len() >= 1,
        all_digits(dec_bytes(n)),
        digits_val(dec_bytes(n)) == n,
    decreases n,
{
    if n < 10 {
        let s = dec_bytes(n);
        assert(s.drop_last() =~= Seq::<u8>::empty());
        assert(digits_val(Seq::<u8>::empty()) == 0);
        assert(s.last() == (48 + n) as u8);
        assert((48 + n) as u8 - 48 == n);
        assert(digits_val(s) == n);
    } else {
        lemma_dec_bytes(n / 10);
        vstd::arithmetic::div_mod::lemma_fundamental_div_mod(n as int, 10);
        let s = dec_bytes(n);
        assert(s.drop_last() =~= dec_bytes(n / 10));
        assert(s.last() == (48 + n % 10) as u8);
        assert(0 <= n % 10 < 10);
        assert(s.last() - 48 == n % 10);
        assert(digits_val(s) == digits_val(s.drop_last()) * 10 + (n % 10));
        assert(digits_val(s.drop_last()) == n / 10);
        assert(10 * (n / 10) + n % 10 == n);
        assert(digits_val(s) == n);
        assert forall|i: int| 0 <= i < s.len() implies is_digit(#[trigger] s[i]) by {
            if i < s.len() - 1 {
                assert(s[i] == dec_bytes(n / 10)[i]);
            }
        }
    }
}

/// The decimal digit characters, least to greatest.
pub open spec fn digit_char(d: nat) -> char {
    if d == 0 {
        '0'
    } else if d == 1 {
        '1'
    } else if d == 2 {
        '2'
    } else if d == 3 {
        '3'
    } else if d == 4 {
        '4'
    } else if d == 5 {
        '5'
    } else if d == 6 {
        '6'
    } else if d == 7 {
        '7'
    } else if d == 8 {
        '8'
    } else {
        '9'
    }
}

/// The decimal numeral of `n`, as characters, without leading zeros
/// (a single `'0'` for zero).
pub open spec fn dec_chars(n: nat) -> Seq<char>
    decreases n,
{
    if n < 10 {
        seq![digit_char(n)]
    } else {
        dec_chars(n / 10).push(digit_char(n % 10))
    }
}

/// The single-character string for the digit `d`.
fn digit_str(d: u64) -> (s: &'static str)
    requires
        d < 10,
    ensures
        s@ =~= seq![digit_char(d as nat)],
{
    if d == 0 {
        proof { reveal_strlit("0"); }
        "0"
    } else if d == 1 {
        proof { reveal_strlit("1"); }
        "1"
    } else if d == 2 {
        proof { reveal_strlit("2"); }
        "2"
    } else if d == 3 {
        proof { reveal_strlit("3"); }
        "3"
    } else if d == 4 {
        proof { reveal_strlit("4"); }
        "4"
    } else if d == 5 {
        proof { reveal_strlit("5"); }
        "5"
    } else if d == 6 {
        proof { reveal_strlit("6"); }
        "6"
    } else if d == 7 {
        proof { reveal_strlit("7"); }
        "7"
    } else if d == 8 {
        proof { reveal_strlit("8"); }
        "8"
    } else {
        proof { reveal_strlit("9"); }
        "9"
    }
}

/// Print `n` as its decimal numeral.
pub fn u64_to_string(n: u64) -> (s: String)
    ensures
        s@ == dec_chars(n as nat),
    decreases n,
{
    if n < 10 {
        let s = String::from_str(digit_str(n));
        assert(s@ =~= dec_chars(n as nat));
        s
    } else {
        assert(n / 10 < n) by (nonlinear_arith)
            requires
                n >= 10,
        ;
        let mut s = u64_to_string(n / 10);
        s.append(digit_str(n % 10));
        assert(s@ =~= dec_chars(n as nat));
        s
    }
}

} // verus!
