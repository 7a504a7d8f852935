//! Formatting and parsing of integers in bases 2 through 36.
//!
//! Digits above nine are written as the uppercase letters `A` through `Z`;
//! parsing accepts both cases.

use vstd::prelude::*;
use vstd::arithmetic::div_mod::lemma_div_is_strictly_smaller;

verus! {

/// The character for the digit value `d`, with letters uppercase.
pub open spec fn digit_char(d: nat) -> char {
    if d == 0 {
        '0'
    } else if d == 1 {
        '1'
    } else if d == 2 {
        '2'
    } else if d == 3 {
        '3'
    } else if d == 4 {
        '4'
    } else if d == 5 {
        '5'
    } else if d == 6 {
        '6'
    } else if d == 7 {
        '7'
    } else if d == 8 {
        '8'
    } else if d == 9 {
        '9'
    } else if d == 10 {
        'A'
    } else if d == 11 {
        'B'
    } else if d == 12 {
        'C'
    } else if d == 13 {
        'D'
    } else if d == 14 {
        'E'
    } else if d == 15 {
        'F'
    } else if d == 16 {
        'G'
    } else if d == 17 {
        'H'
    } else if d == 18 {
        'I'
    } else if d == 19 {
        'J'
    } else if d == 20 {
        'K'
    } else if d == 21 {
        'L'
    } else if d == 22 {
        'M'
    } else if d == 23 {
        'N'
    } else if d == 24 {
        'O'
    } else if d == 25 {
        'P'
    } else if d == 26 {
        'Q'
    } else if d == 27 {
        'R'
    } else if d == 28 {
        'S'
    } else if d == 29 {
        'T'
    } else if d == 30 {
        'U'
    } else if d == 31 {
        'V'
    } else if d == 32 {
        'W'
    } else if d == 33 {
        'X'
    } else if d == 34 {
        'Y'
    } else {
        'Z'
    }
}

/// The value of a digit character, or `-1` if it is no digit. Both letter
/// cases are accepted.
pub open spec fn digit_val(c: char) -> int {
    let v = c as u32;
    if 48 <= v <= 57 {
        v - 48
    } else if 65 <= v <= 90 {
        v - 55
    } else if 97 <= v <= 122 {
        v - 87
    } else {
        -1
    }
}

/// The representation of `n` in the given base, most significant digit first,
/// with no sign and no leading zeros (except for `n == 0` itself).
pub open spec fn radix_rep(n: nat, radix: nat) -> Seq<char>
    recommends
        2 <= radix,
    decreases n,
    via radix_rep_decreases
{
    if radix < 2 {
        Seq::empty()
    } else if n < radix {
        seq![digit_char(n)]
    } else {
        radix_rep(n / radix, radix).push(digit_char(n % radix))
    }
}

#[via_fn]
proof fn radix_rep_decreases(n: nat, radix: nat) {
    if radix >= 2 && n >= radix {
        lemma_div_is_strictly_smaller(n as int, radix as int);
    }
}

/// The decimal representation of an unsigned number.
pub open spec fn dec_rep(n: nat) -> Seq<char> {
    radix_rep(n, 10)
}

/// The decimal representation of a signed number, with a leading `-` when it
/// is negative.
pub open spec fn int_dec_rep(i: int) -> Seq<char> {
    if i < 0 {
        seq!['-'] + dec_rep((-i) as nat)
    } else {
        dec_rep(i as nat)
    }
}

/// The digit character for `d`, with letters uppercase.
pub fn digit_char_exec(d: u64) -> (c: char)
    requires
        d < 36,
    ensures
        c == digit_char(d as nat),
{
    if d == 0 {
        '0'
    } else if d == 1 {
        '1'
    } else if d == 2 {
        '2'
    } else if d == 3 {
        '3'
    } else if d == 4 {
        '4'
    } else if d == 5 {
        '5'
    } else if d == 6 {
        '6'
    } else if d == 7 {
        '7'
    } else if d == 8 {
        '8'
    } else if d == 9 {
        '9'
    } else if d == 10 {
        'A'
    } else if d == 11 {
        'B'
    } else if d == 12 {
        'C'
    } else if d == 13 {
        'D'
    } else if d == 14 {
        'E'
    } else if d == 15 {
        'F'
    } else if d == 16 {
        'G'
    } else if d == 17 {
        'H'
    } else if d == 18 {
        'I'
    } else if d == 19 {
        'J'
    } else if d == 20 {
        'K'
    } else if d == 21 {
        'L'
    } else if d == 22 {
        'M'
    } else if d == 23 {
        'N'
    } else if d == 24 {
        'O'
    } else if d == 25 {
        'P'
    } else if d == 26 {
        'Q'
    } else if d == 27 {
        'R'
    } else if d == 28 {
        'S'
    } else if d == 29 {
        'T'
    } else if d == 30 {
        'U'
    } else if d == 31 {
        'V'
    } else if d == 32 {
        'W'
    } else if d == 33 {
        'X'
    } else if d == 34 {
        'Y'
    } else {
        'Z'
    }
}

/// Writes `n` in the given base, most significant digit first.
pub fn u64_to_radix(n: u64, radix: u64) -> (v: Vec<char>)
    requires
        2 <= radix <= 36,
    ensures
        v@ == radix_rep(n as nat, radix as nat),
    decreases n,
{
    if n < radix {
        let mut v: Vec<char> = Vec::new();
        v.push(digit_char_exec(n));
        proof {
            assert(v@ =~= radix_rep(n as nat, radix as nat));
        }
        v
    } else {
        proof {
            lemma_div_is_strictly_smaller(n as int, radix as int);
        }
        let mut v = u64_to_radix(n / radix, radix);
        v.push(digit_char_exec(n % radix));
        v
    }
}

/// Writes `n` in decimal.
pub fn u128_to_dec(n: u128) -> (v: Vec<char>)
    ensures
        v@ == dec_rep(n as nat),
    decreases n,
{
    if n < 10 {
        let mut v: Vec<char> = Vec::new();
        v.push(digit_char_exec(n as u64));
        proof {
            assert(v@ =~= dec_rep(n as nat));
        }
        v
    } else {
        proof {
            lemma_div_is_strictly_smaller(n as int, 10);
        }
        let mut v = u128_to_dec(n / 10);
        v.push(digit_char_exec((n % 10) as u64));
        v
    }
}

/// Writes `n` in decimal.
pub fn u64_to_dec(n: u64) -> (v: Vec<char>)
    ensures
        v@ == dec_rep(n as nat),
{
    u64_to_radix(n, 10)
}

/// Writes `n` in decimal.
pub fn usize_to_dec(n: usize) -> (v: Vec<char>)
    ensures
        v@ == dec_rep(n as nat),
{
    u64_to_radix(n as u64, 10)
}

/// Writes `i` in decimal, with a leading `-` when it is negative.
pub fn i64_to_dec(i: i64) -> (v: Vec<char>)
    ensures
        v@ == int_dec_rep(i as int),
{
    if i >= 0 {
        u64_to_dec(i as u64)
    } else {
        let mag: u64 = if i == i64::MIN {
            9223372036854775808u64
        } else {
            (-i) as u64
        };
        let mut v: Vec<char> = Vec::new();
        v.push('-');
        let digits = u64_to_dec(mag);
        crate::text::append_chars(&mut v, &digits);
        proof {
            assert(v@ =~= int_dec_rep(i as int));
        }
        v
    }
}

/// Whether every character of `s` is a digit of the given base.
pub open spec fn all_radix_digits(s: Seq<char>, radix: int) -> bool {
    forall|i: int| 0 <= i < s.len() ==> 0 <= #[trigger] digit_val(s[i]) < radix
}

/// The value of a sequence of digit characters in the given base.
pub open spec fn radix_val(s: Seq<char>, radix: int) -> int
    decreases s.len(),
{
    if s.len() == 0 {
        0
    } else {
        radix_val(s.drop_last(), radix) * radix + digit_val(s.last())
    }
}

/// A sequence of digits in a base of at least one has a nonnegative value.
pub proof fn lemma_radix_val_nonneg(s: Seq<char>, radix: int)
    requires
        1 <= radix,
        all_radix_digits(s, radix),
    ensures
        radix_val(s, radix) >= 0,
    decreases s.len(),
{
    if s.len() > 0 {
        assert(all_radix_digits(s.drop_last(), radix));
        lemma_radix_val_nonneg(s.drop_last(), radix);
        assert(radix_val(s.drop_last(), radix) * radix >= 0) by (nonlinear_arith)
            requires
                radix_val(s.drop_last(), radix) >= 0,
                radix >= 1,
        ;
    }
}

/// Extending a digit sequence on the right cannot decrease its value.
pub proof fn lemma_radix_val_prefix_le(s: Seq<char>, radix: int, i: int)
    requires
        1 <= radix,
        all_radix_digits(s, radix),
        0 <= i <= s.len(),
    ensures
        radix_val(s.subrange(0, i), radix) <= radix_val(s, radix),
    decreases s.len() - i,
{
    if i == s.len() {
        assert(s.subrange(0, i) =~= s);
    } else {
        lemma_radix_val_prefix_le(s, radix, i + 1);
        let shorter = s.subrange(0, i);
        let longer = s.subrange(0, i + 1);
        assert(longer.drop_last() =~= shorter);
        assert(all_radix_digits(shorter, radix));
        lemma_radix_val_nonneg(shorter, radix);
        assert(radix_val(shorter, radix) * radix >= radix_val(shorter, radix))
            by (nonlinear_arith)
            requires
                radix_val(shorter, radix) >= 0,
                radix >= 1,
        ;
        assert(radix_val(longer, radix) >= radix_val(shorter, radix));
    }
}

/// Reads the digits of `s` from `from` onward as a number in the given base.
/// Returns `None` if there are no digits, a non-digit occurs, or the value
/// does not fit in a `u64`.
pub fn parse_digits_u64(s: &Vec<char>, from: usize, radix: u64) -> (r: Option<u64>)
    requires
        2 <= radix <= 36,
        from <= s@.len(),
    ensures
        ({
            let body = s@.subrange(from as int, s@.len() as int);
            match r {
                Some(v) => body.len() > 0 && all_radix_digits(body, radix as int) && v
                    == radix_val(body, radix as int),
                None => body.len() == 0 || !all_radix_digits(body, radix as int) || radix_val(
                    body,
                    radix as int,
                ) > u64::MAX,
            }
        }),
{
    let ghost body = s@.subrange(from as int, s@.len() as int);
    let n = s.len();
    if from == n {
        return None;
    }
    let mut acc: u64 = 0;
    let mut i: usize = from;
    while i < n
        invariant
            2 <= radix <= 36,
            from <= i <= n,
            n == s@.len(),
            body == s@.subrange(from as int, s@.len() as int),
            all_radix_digits(s@.subrange(from as int, i as int), radix as int),
            acc == radix_val(s@.subrange(from as int, i as int), radix as int),
        decreases n - i,
    {
        let c = s[i];
        let code = c as u32;
        let d: u64 = if 48 <= code && code <= 57 {
            (code - 48) as u64
        } else if 65 <= code && code <= 90 {
            (code - 55) as u64
        } else if 97 <= code && code <= 122 {
            (code - 87) as u64
        } else {
            proof {
                assert(body[i - from] == s@[i as int]);
                assert(digit_val(body[i - from]) == -1);
                assert(!all_radix_digits(body, radix as int));
            }
            return None;
        };
        if d >= radix {
            proof {
                assert(body[i - from] == s@[i as int]);
                assert(digit_val(body[i - from]) == d);
                assert(!all_radix_digits(body, radix as int));
            }
            return None;
        }
        proof {
            assert(acc as int * radix as int + d as int <= u128::MAX) by (nonlinear_arith)
                requires
                    0 <= acc <= u64::MAX,
                    0 <= radix <= 36,
                    0 <= d < 36,
            ;
        }
        let wide: u128 = acc as u128 * radix as u128 + d as u128;
        proof {
            let prefix = s@.subrange(from as int, i as int);
            let extended = s@.subrange(from as int, i + 1);
            assert(extended.drop_last() =~= prefix);
            assert(extended.last() == s@[i as int]);
            assert(digit_val(s@[i as int]) == d);
            assert(all_radix_digits(extended, radix as int));
            assert(radix_val(extended, radix as int) == acc * radix + d);
        }
        if wide > u64::MAX as u128 {
            proof {
                let extended = s@.subrange(from as int, i + 1);
                assert(body.subrange(0, i + 1 - from) =~= extended);
                if all_radix_digits(body, radix as int) {
                    lemma_radix_val_prefix_le(body, radix as int, i + 1 - from);
                    assert(radix_val(body, radix as int) > u64::MAX);
                }
            }
            return None;
        }
        acc = (wide as u64);
        i = i + 1;
    }
    proof {
        assert(s@.subrange(from as int, i as int) =~= body);
    }
    Some(acc)
}

/// The digit characters of an unsigned decimal literal: a single leading `+`
/// is allowed and skipped.
pub open spec fn unsigned_digits(s: Seq<char>) -> Seq<char> {
    if s.len() > 0 && s[0] == '+' {
        s.drop_first()
    } else {
        s
    }
}

/// Whether `s` is a well-formed unsigned decimal literal.
pub open spec fn is_unsigned_dec(s: Seq<char>) -> bool {
    unsigned_digits(s).len() > 0 && all_radix_digits(unsigned_digits(s), 10)
}

/// The value of an unsigned decimal literal.
pub open spec fn unsigned_dec_val(s: Seq<char>) -> int {
    radix_val(unsigned_digits(s), 10)
}

/// The digit characters of a signed literal: a single leading `+` or `-` is
/// allowed and skipped.
pub open spec fn signed_digits(s: Seq<char>) -> Seq<char> {
    if s.len() > 0 && (s[0] == '+' || s[0] == '-') {
        s.drop_first()
    } else {
        s
    }
}

/// Whether `s` is a well-formed signed literal in the given base.
pub open spec fn is_signed_radix(s: Seq<char>, radix: int) -> bool {
    signed_digits(s).len() > 0 && all_radix_digits(signed_digits(s), radix)
}

/// The value of a signed literal in the given base.
pub open spec fn signed_radix_val(s: Seq<char>, radix: int) -> int {
    if s.len() > 0 && s[0] == '-' {
        -radix_val(signed_digits(s), radix)
    } else {
        radix_val(signed_digits(s), radix)
    }
}

/// Parses an unsigned decimal literal that fits in a `usize`.
pub fn parse_usize(s: &Vec<char>) -> (r: Option<usize>)
    ensures
        r is Some <==> is_unsigned_dec(s@) && unsigned_dec_val(s@) <= usize::MAX,
        r is Some ==> r->0 == unsigned_dec_val(s@),
{
    let from: usize = if s.len() > 0 && s[0] == '+' {
        1
    } else {
        0
    };
    proof {
        assert(s@.subrange(from as int, s@.len() as int) =~= unsigned_digits(s@));
    }
    match parse_digits_u64(s, from, 10) {
        Some(v) => {
            if v <= usize::MAX as u64 {
                Some(v as usize)
            } else {
                None
            }
        },
        None => {
            proof {
                if is_unsigned_dec(s@) {
                    assert(unsigned_dec_val(s@) > u64::MAX);
                }
            }
            None
        },
    }
}

/// Parses an unsigned decimal literal that fits in a `u32`.
pub fn parse_u32(s: &Vec<char>) -> (r: Option<u32>)
    ensures
        r is Some <==> is_unsigned_dec(s@) && unsigned_dec_val(s@) <= u32::MAX,
        r is Some ==> r->0 == unsigned_dec_val(s@),
{
    let from: usize = if s.len() > 0 && s[0] == '+' {
        1
    } else {
        0
    };
    proof {
        assert(s@.subrange(from as int, s@.len() as int) =~= unsigned_digits(s@));
    }
    match parse_digits_u64(s, from, 10) {
        Some(v) => {
            if v <= u32::MAX as u64 {
                Some(v as u32)
            } else {
                None
            }
        },
        None => {
            proof {
                if is_unsigned_dec(s@) {
                    assert(unsigned_dec_val(s@) > u64::MAX);
                }
            }
            None
        },
    }
}

/// Parses a signed literal in the given base into an `i64`.
pub fn parse_i64_radix(s: &Vec<char>, radix: u64) -> (r: Option<i64>)
    requires
        2 <= radix <= 36,
    ensures
        r is Some <==> is_signed_radix(s@, radix as int) && i64::MIN <= signed_radix_val(
            s@,
            radix as int,
        ) <= i64::MAX,
        r is Some ==> r->0 == signed_radix_val(s@, radix as int),
{
    let negative = s.len() > 0 && s[0] == '-';
    let from: usize = if s.len() > 0 && (s[0] == '+' || s[0] == '-') {
        1
    } else {
        0
    };
    proof {
        assert(s@.subrange(from as int, s@.len() as int) =~= signed_digits(s@));
    }
    match parse_digits_u64(s, from, radix) {
        Some(v) => {
            if negative {
                if v <= i64::MAX as u64 {
                    Some(-(v as i64))
                } else if v == 9223372036854775808u64 {
                    Some(i64::MIN)
                } else {
                    None
                }
            } else {
                if v <= i64::MAX as u64 {
                    Some(v as i64)
                } else {
                    None
                }
            }
        },
        None => {
            proof {
                if is_signed_radix(s@, radix as int) {
                    assert(radix_val(signed_digits(s@), radix as int) > u64::MAX);
                }
            }
            None
        },
    }
}

/// Parses a signed decimal literal into an `i64`.
pub fn parse_i64(s: &Vec<char>) -> (r: Option<i64>)
    ensures
        r is Some <==> is_signed_radix(s@, 10) && i64::MIN <= signed_radix_val(s@, 10)
            <= i64::MAX,
        r is Some ==> r->0 == signed_radix_val(s@, 10),
{
    parse_i64_radix(s, 10)
}

} // verus!
