//! Decimal text for the integral metrics: rendering a number as the usual
//! base-ten string, the value such a string denotes, and the proof that
//! rendering and reading back are inverse.

use vstd::prelude::*;
use vstd::string::StringExecFns;

verus! {

/// The character for one decimal digit.
pub open spec fn digit_char(d: nat) -> char
    recommends
        d < 10,
{
    if d == 0 {
        '0'
    } else if d == 1 {
        '1'
    } else if d == 2 {
        '2'
    } else if d == 3 {
        '3'
    } else if d == 4 {
        '4'
    } else if d == 5 {
        '5'
    } else if d == 6 {
        '6'
    } else if d == 7 {
        '7'
    } else if d == 8 {
        '8'
    } else {
        '9'
    }
}

/// The usual base-ten rendering of a natural number, most significant digit
/// first, with no leading zero except for zero itself.
pub open spec fn dec_digits(n: nat) -> Seq<char>
    decreases n,
{
    if n < 10 {
        seq![digit_char(n)]
    } else {
        dec_digits(n / 10).push(digit_char(n % 10))
    }
}

/// The base-ten rendering of an integer: a leading minus sign when negative.
pub open spec fn dec_int(n: int) -> Seq<char> {
    if n < 0 {
        seq!['-'] + dec_digits((-n) as nat)
    } else {
        dec_digits(n as nat)
    }
}

pub open spec fn is_digit(c: char) -> bool {
    c == '0' || c == '1' || c == '2' || c == '3' || c == '4' || c == '5' || c == '6' || c == '7'
        || c == '8' || c == '9'
}

/// The value of one digit character.
pub open spec fn digit_val(c: char) -> nat
    recommends
        is_digit(c),
{
    if c == '0' {
        0
    } else if c == '1' {
        1
    } else if c == '2' {
        2
    } else if c == '3' {
        3
    } else if c == '4' {
        4
    } else if c == '5' {
        5
    } else if c == '6' {
        6
    } else if c == '7' {
        7
    } else if c == '8' {
        8
    } else {
        9
    }
}

/// The natural number a digit string denotes.
pub open spec fn dec_val(s: Seq<char>) -> nat
    decreases s.len(),
{
    if s.len() == 0 {
        0
    } else {
        dec_val(s.drop_last()) * 10 + digit_val(s.last())
    }
}

pub open spec fn all_digits(s: Seq<char>) -> bool {
    forall|i: int| 0 <= i < s.len() ==> is_digit(#[trigger] s[i])
}

/// Reading a rendered natural number back gives the number: the decimal
/// text of `n` is nonempty, all digits, and denotes `n`.
pub proof fn lemma_dec_digits_val(n: nat)
    ensures
        dec_val(dec_digits(n)) == n,
        dec_digits(n).len() >= 1,
        all_digits(dec_digits(n)),
    decreases n,
{
    if n < 10 {
        assert(dec_digits(n) =~= seq![digit_char(n)]);
        assert(dec_digits(n).drop_last() =~= Seq::<char>::empty());
        assert(dec_val(Seq::<char>::empty()) == 0);
        assert(dec_digits(n).last() == digit_char(n));
        assert(dec_val(dec_digits(n)) == digit_val(digit_char(n)));
    } else {
        lemma_dec_digits_val(n / 10);
        let prefix = dec_digits(n / 10);
        let whole = dec_digits(n);
        assert(whole =~= prefix.push(digit_char(n % 10)));
        assert(whole.drop_last() =~= prefix);
        assert(whole.last() == digit_char(n % 10));
        assert(digit_val(digit_char(n % 10)) == n % 10);
        assert(dec_val(whole) == (n / 10) * 10 + n % 10);
        assert((n / 10) * 10 + n % 10 == n) by {
            vstd::arithmetic::div_mod::lemma_fundamental_div_mod(n as int, 10);
        }
        assert forall|i: int| 0 <= i < whole.len() implies is_digit(#[trigger] whole[i]) by {
            if i < prefix.len() {
                assert(whole[i] == prefix[i]);
            } else {
                assert(whole[i] == digit_char(n % 10));
            }
        }
    }
}

/// Reading a rendered integer back gives the integer.
pub proof fn lemma_dec_int_val(n: int)
    ensures
        n >= 0 ==> dec_val(dec_int(n)) == n,
        n < 0 ==> dec_int(n).len() >= 2 && dec_int(n)[0] == '-' && dec_val(dec_int(n).skip(1))
            == -n,
        is_signed_digits(dec_int(n)),
        signed_val(dec_int(n)) == n,
{
    if n >= 0 {
        lemma_dec_digits_val(n as nat);
        assert(is_digit(dec_int(n)[0]));
        assert(dec_int(n)[0] != '-');
    } else {
        lemma_dec_digits_val((-n) as nat);
        assert(dec_int(n).skip(1) =~= dec_digits((-n) as nat));
        assert(dec_int(n)[0] == '-');
    }
}

/// A well-formed signed decimal text: an optional leading minus sign, one
/// digit at least, digits throughout.
pub open spec fn is_signed_digits(s: Seq<char>) -> bool {
    if s.len() >= 1 && s[0] == '-' {
        s.len() >= 2 && all_digits(s.skip(1))
    } else {
        s.len() >= 1 && all_digits(s)
    }
}

/// The integer a signed decimal text denotes.
pub open spec fn signed_val(s: Seq<char>) -> int {
    if s.len() >= 1 && s[0] == '-' {
        -(dec_val(s.skip(1)) as int)
    } else {
        dec_val(s) as int
    }
}

/// A longer digit string never denotes less.
proof fn lemma_dec_val_prefix(s: Seq<char>, i: int)
    requires
        0 <= i <= s.len(),
    ensures
        dec_val(s.take(i)) <= dec_val(s),
    decreases s.len() - i,
{
    if i == s.len() {
        assert(s.take(i) =~= s);
    } else {
        lemma_dec_val_prefix(s, i + 1);
        assert(s.take(i + 1).drop_last() =~= s.take(i));
        assert(dec_val(s.take(i + 1)) == dec_val(s.take(i)) * 10 + digit_val(s.take(i + 1).last()));
    }
}

/// The value of one digit character, or nothing for any other character.
fn digit_of(c: char) -> (r: Option<u64>)
    ensures
        r is Some <==> is_digit(c),
        r matches Some(d) ==> d == digit_val(c) && d < 10,
{
    match c {
        '0' => Some(0),
        '1' => Some(1),
        '2' => Some(2),
        '3' => Some(3),
        '4' => Some(4),
        '5' => Some(5),
        '6' => Some(6),
        '7' => Some(7),
        '8' => Some(8),
        '9' => Some(9),
        _ => None,
    }
}

/// Reads a natural number from its base-ten text. Succeeds exactly on a
/// nonempty all-digit text whose value fits, and hands back that value.
pub fn parse_u64(s: &str) -> (r: Option<u64>)
    ensures
        r matches Some(v) ==> s@.len() >= 1 && all_digits(s@) && v == dec_val(s@),
        r is None ==> !(s@.len() >= 1 && all_digits(s@) && dec_val(s@) <= u64::MAX),
{
    let n = s.unicode_len();
    if n == 0 {
        return None;
    }
    let mut val: u64 = 0;
    let mut i: usize = 0;
    proof {
        assert(s@.take(0) =~= Seq::<char>::empty());
    }
    while i < n
        invariant
            i <= n,
            n == s@.len(),
            all_digits(s@.take(i as int)),
            val == dec_val(s@.take(i as int)),
        decreases n - i,
    {
        let c = s.get_char(i);
        let d = match digit_of(c) {
            Some(d) => d,
            None => {
                proof {
                    assert(!is_digit(s@[i as int]));
                    assert(!all_digits(s@));
                }
                return None;
            },
        };
        proof {
            assert(s@.take(i + 1).drop_last() =~= s@.take(i as int));
            assert(s@.take(i + 1).last() == s@[i as int]);
            assert(forall|j: int|
                0 <= j < i + 1 ==> is_digit(#[trigger] s@.take(i + 1)[j]));
        }
        let limit: u64 = (u64::MAX - d) / 10;
        if val > limit {
            proof {
                vstd::arithmetic::div_mod::lemma_fundamental_div_mod(
                    (u64::MAX - d) as int,
                    10,
                );
                vstd::arithmetic::mul::lemma_mul_inequality(
                    limit as int + 1,
                    val as int,
                    10,
                );
                assert(val * 10 + d > u64::MAX);
                assert(dec_val(s@.take(i + 1)) == val * 10 + d);
                lemma_dec_val_prefix(s@, i + 1);
                assert(dec_val(s@) > u64::MAX);
            }
            return None;
        }
        proof {
            vstd::arithmetic::div_mod::lemma_fundamental_div_mod((u64::MAX - d) as int, 10);
            vstd::arithmetic::mul::lemma_mul_inequality(val as int, limit as int, 10);
            assert(val * 10 + d <= u64::MAX);
        }
        val = val * 10 + d;
        i = i + 1;
    }
    proof {
        assert(s@.take(n as int) =~= s@);
    }
    Some(val)
}

/// Reads a signed integer from its base-ten text. Succeeds exactly on a
/// well-formed signed decimal text whose value fits, and hands back that
/// value.
pub fn parse_i64(s: &str) -> (r: Option<i64>)
    ensures
        r matches Some(v) ==> is_signed_digits(s@) && v as int == signed_val(s@),
        r is None ==> !(is_signed_digits(s@) && i64::MIN <= signed_val(s@) <= i64::MAX),
{
    let n = s.unicode_len();
    if n >= 1 && s.get_char(0) == '-' {
        let body = s.substring_char(1, n);
        proof {
            assert(body@ =~= s@.skip(1));
        }
        match parse_u64(body) {
            Some(magnitude) => {
                if magnitude <= 9_223_372_036_854_775_807 {
                    Some(-(magnitude as i64))
                } else if magnitude == 9_223_372_036_854_775_808 {
                    Some(i64::MIN)
                } else {
                    None
                }
            },
            None => None,
        }
    } else {
        match parse_u64(s) {
            Some(v) => {
                if v <= 9_223_372_036_854_775_807 {
                    Some(v as i64)
                } else {
                    None
                }
            },
            None => None,
        }
    }
}

/// The digit characters, as one-character string slices.
fn digit_str(d: u64) -> (r: &'static str)
    requires
        d < 10,
    ensures
        r@ =~= seq![digit_char(d as nat)],
{
    proof {
        reveal_strlit("0");
        reveal_strlit("1");
        reveal_strlit("2");
        reveal_strlit("3");
        reveal_strlit("4");
        reveal_strlit("5");
        reveal_strlit("6");
        reveal_strlit("7");
        reveal_strlit("8");
        reveal_strlit("9");
    }
    if d == 0 {
        "0"
    } else if d == 1 {
        "1"
    } else if d == 2 {
        "2"
    } else if d == 3 {
        "3"
    } else if d == 4 {
        "4"
    } else if d == 5 {
        "5"
    } else if d == 6 {
        "6"
    } else if d == 7 {
        "7"
    } else if d == 8 {
        "8"
    } else {
        "9"
    }
}

/// The low-order-first digits collected while dividing down, read back most
/// significant digit first.
spec fn rev_chars(ds: Seq<u64>) -> Seq<char>
    decreases ds.len(),
{
    if ds.len() == 0 {
        Seq::empty()
    } else {
        seq![digit_char(ds.last() as nat)] + rev_chars(ds.drop_last())
    }
}

/// Renders a natural number as its base-ten text.
pub fn format_u64(n: u64) -> (r: String)
    ensures
        r@ == dec_digits(n as nat),
{
    let mut digits: Vec<u64> = Vec::new();
    let mut m: u64 = n;
    while m >= 10
        invariant
            dec_digits(n as nat) =~= dec_digits(m as nat) + rev_chars(digits@),
            forall|i: int| 0 <= i < digits@.len() ==> #[trigger] digits@[i] < 10,
        decreases m,
    {
        let d: u64 = m % 10;
        let next: u64 = m / 10;
        proof {
            assert(next == m as nat / 10 && d == m as nat % 10);
            assert(dec_digits(m as nat) =~= dec_digits(next as nat).push(digit_char(d as nat)));
            assert(digits@.push(d).drop_last() =~= digits@);
            assert(digits@.push(d).last() == d);
            assert(rev_chars(digits@.push(d)) =~= seq![digit_char(d as nat)] + rev_chars(digits@));
            assert(dec_digits(next as nat) + rev_chars(digits@.push(d)) =~= dec_digits(m as nat)
                + rev_chars(digits@));
        }
        digits.push(d);
        m = next;
    }
    proof {
        assert(dec_digits(m as nat) =~= seq![digit_char(m as nat)]);
        assert(digits@.push(m).drop_last() =~= digits@);
        assert(digits@.push(m).last() == m);
        assert(rev_chars(digits@.push(m)) =~= seq![digit_char(m as nat)] + rev_chars(digits@));
    }
    digits.push(m);
    let ghost ds = digits@;
    let mut r = String::new();
    let mut j: usize = digits.len();
    assert(ds.take(j as int) =~= ds);
    while j > 0
        invariant
            j <= ds.len(),
            digits@ == ds,
            forall|i: int| 0 <= i < ds.len() ==> #[trigger] ds[i] < 10,
            r@ + rev_chars(ds.take(j as int)) =~= rev_chars(ds),
        decreases j,
    {
        let ghost old_r = r@;
        proof {
            assert(ds.take(j as int).last() == ds[j - 1]);
            assert(ds.take(j as int).drop_last() =~= ds.take(j - 1));
            assert(rev_chars(ds.take(j as int)) =~= seq![digit_char(ds[j - 1] as nat)] + rev_chars(
                ds.take(j - 1),
            ));
        }
        let piece = digit_str(digits[j - 1]);
        r.append(piece);
        j = j - 1;
        proof {
            assert(r@ + rev_chars(ds.take(j as int)) =~= old_r + rev_chars(ds.take(j + 1)));
        }
    }
    proof {
        assert(ds.take(0) =~= Seq::<u64>::empty());
        assert(r@ =~= rev_chars(ds));
        assert(dec_digits(n as nat) =~= dec_digits(m as nat) + rev_chars(ds.drop_last()));
        assert(ds.drop_last().push(m) =~= ds);
        assert(rev_chars(ds) =~= seq![digit_char(m as nat)] + rev_chars(ds.drop_last()));
    }
    r
}

/// Renders a signed integer as its base-ten text.
pub fn format_i64(n: i64) -> (r: String)
    ensures
        r@ == dec_int(n as int),
{
    if n >= 0 {
        format_u64(n as u64)
    } else {
        let magnitude: u64 = ((-(n + 1)) as u64) + 1;
        proof {
            assert(magnitude == -(n as int));
            reveal_strlit("-");
        }
        let mut r = String::new();
        r.append("-");
        let body = format_u64(magnitude);
        r.append(body.as_str());
        proof {
            assert(r@ =~= seq!['-'] + dec_digits((-(n as int)) as nat));
        }
        r
    }
}

} // verus!
