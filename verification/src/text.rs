//! Text of manifest fields: unsigned numbers, UTF-8 strings and the tokens of
//! a chunk identifier.

use vstd::prelude::*;
use vstd::utf8::*;

verus! {

/// The radix of a number field: sixteen after a `0x` prefix, ten otherwise.
pub open spec fn radix_of(hex: bool) -> nat {
    if hex {
        16
    } else {
        10
    }
}

/// The value of one ASCII digit, if `b` is a digit of the radix.
pub open spec fn digit_value(b: u8, hex: bool) -> Option<nat> {
    if 48 <= b <= 57 {
        Some((b - 48) as nat)
    } else if hex && 97 <= b <= 102 {
        Some((b - 87) as nat)
    } else if hex && 65 <= b <= 70 {
        Some((b - 55) as nat)
    } else {
        None
    }
}

/// Every byte of `s` is a digit of the radix.
pub open spec fn all_digits(s: Seq<u8>, hex: bool) -> bool {
    forall|i: int| 0 <= i < s.len() ==> (#[trigger] digit_value(s[i], hex)) is Some
}

/// The number that a run of digits denotes, most significant digit first.
pub open spec fn digits_value(s: Seq<u8>, hex: bool) -> nat
    decreases s.len(),
{
    if s.len() == 0 {
        0
    } else {
        digits_value(s.drop_last(), hex) * radix_of(hex) + match digit_value(s.last(), hex) {
            Some(d) => d,
            None => 0,
        }
    }
}

/// What a signless or `+`-signed run of digits denotes, when it is not empty
/// and does not exceed `max`.
pub open spec fn digits_of(s: Seq<u8>, hex: bool, max: nat) -> Option<nat> {
    let body = if s.len() > 0 && s[0] == 43 {
        s.skip(1)
    } else {
        s
    };
    if body.len() > 0 && all_digits(body, hex) && digits_value(body, hex) <= max {
        Some(digits_value(body, hex))
    } else {
        None
    }
}

/// The number written in a manifest field: decimal, or hexadecimal after
/// the prefix `0x`; either may carry a leading `+`. `None` where the field
/// is no such number or the number exceeds `max`.
pub open spec fn number_of(field: Seq<u8>, max: nat) -> Option<nat> {
    if field.len() >= 2 && field[0] == 48 && field[1] == 120 {
        digits_of(field.skip(2), true, max)
    } else {
        digits_of(field, false, max)
    }
}

/// The decimal digits of `n`, without sign or leading zeros.
pub open spec fn decimal(n: nat) -> Seq<u8>
    decreases n,
{
    if n < 10 {
        seq![(48 + n) as u8]
    } else {
        decimal(n / 10).push((48 + n % 10) as u8)
    }
}

/// A prefix of a run of digits never denotes more than the whole run.
pub proof fn lemma_digits_value_monotone(s: Seq<u8>, k: int, hex: bool)
    requires
        0 <= k <= s.len(),
    ensures
        digits_value(s.take(k), hex) <= digits_value(s, hex),
    decreases s.len(),
{
    if k == s.len() {
        assert(s.take(k) =~= s);
    } else {
        lemma_digits_value_monotone(s.drop_last(), k, hex);
        assert(s.drop_last().take(k) =~= s.take(k));
        assert(digits_value(s.drop_last(), hex) * radix_of(hex) >= digits_value(
            s.drop_last(),
            hex,
        )) by (nonlinear_arith)
            requires
                radix_of(hex) >= 1,
        ;
    }
}

/// The decimal digits of a number are digits, and denote that number.
pub proof fn lemma_decimal_digits(n: nat)
    ensures
        decimal(n).len() >= 1,
        all_digits(decimal(n), false),
        digits_value(decimal(n), false) == n,
        forall|i: int| 0 <= i < decimal(n).len() ==> 48 <= #[trigger] decimal(n)[i] <= 57,
    decreases n,
{
    if n < 10 {
        let s = decimal(n);
        assert(s.drop_last() =~= Seq::<u8>::empty());
        assert(digits_value(s.drop_last(), false) == 0);
        assert(digit_value(s.last(), false) == Some(n));
    } else {
        lemma_decimal_digits(n / 10);
        let s = decimal(n);
        let head = decimal(n / 10);
        assert(s.drop_last() =~= head);
        assert(digit_value(s.last(), false) == Some(n % 10));
        assert forall|i: int| 0 <= i < s.len() implies (#[trigger] digit_value(
            s[i],
            false,
        )) is Some by {
            if i < head.len() {
                assert(s[i] == head[i]);
                assert(digit_value(head[i], false) is Some);
            }
        }
        assert forall|i: int| 0 <= i < s.len() implies 48 <= #[trigger] s[i] <= 57 by {
            if i < head.len() {
                assert(s[i] == head[i]);
            }
        }
    }
}

/// Writing a number in decimal and reading the field back gives the number.
pub proof fn lemma_decimal_round_trip(n: nat, max: nat)
    requires
        n <= max,
    ensures
        number_of(decimal(n), max) == Some(n),
{
    lemma_decimal_digits(n);
    let s = decimal(n);
    assert(48 <= s[0] <= 57);
    if s.len() >= 2 {
        assert(48 <= s[1] <= 57);
    }
}

/// The value of the digit `b`, or `None` where it is no digit of the radix.
fn digit_of(b: u8, hex: bool) -> (r: Option<u8>)
    ensures
        match r {
            Some(d) => digit_value(b, hex) == Some(d as nat) && d < radix_of(hex),
            None => digit_value(b, hex) is None,
        },
{
    if 48 <= b && b <= 57 {
        Some(b - 48)
    } else if hex && 97 <= b && b <= 102 {
        Some(b - 87)
    } else if hex && 65 <= b && b <= 70 {
        Some(b - 55)
    } else {
        None
    }
}

/// Reads the digits of `field` from `start` on.
fn parse_digits(field: &[u8], start: usize, hex: bool, max: u64) -> (r: Option<u64>)
    requires
        start <= field.len(),
    ensures
        match r {
            Some(v) => digits_of(field@.skip(start as int), hex, max as nat) == Some(v as nat),
            None => digits_of(field@.skip(start as int), hex, max as nat) is None,
        },
{
    let ghost whole = field@.skip(start as int);
    let mut i: usize = start;
    if i < field.len() && field[i] == 43 {
        i += 1;
    }
    let first: usize = i;
    let ghost body = field@.skip(first as int);
    assert(body =~= if whole.len() > 0 && whole[0] == 43 {
        whole.skip(1)
    } else {
        whole
    });
    if i >= field.len() {
        return None;
    }
    let radix: u128 = if hex {
        16
    } else {
        10
    };
    let mut acc: u64 = 0;
    assert(body.take(0) =~= Seq::<u8>::empty());
    while i < field.len()
        invariant
            first <= i <= field.len(),
            start <= field.len(),
            whole == field@.skip(start as int),
            body == field@.skip(first as int),
            body == if whole.len() > 0 && whole[0] == 43 {
                whole.skip(1)
            } else {
                whole
            },
            all_digits(body.take(i - first), hex),
            acc == digits_value(body.take(i - first), hex),
            acc <= max,
            radix == radix_of(hex),
        decreases field.len() - i,
    {
        let ghost seen = body.take(i - first);
        let ghost next = body.take(i + 1 - first);
        assert(next.drop_last() =~= seen);
        assert(next.last() == field@[i as int]);
        let d: u8 = match digit_of(field[i], hex) {
            Some(d) => d,
            None => {
                assert(digit_value(body[i - first], hex) is None);
                return None;
            },
        };
        let wide: u128 = acc as u128 * radix + d as u128;
        assert(wide == digits_value(next, hex)) by {
            assert(acc as u128 * radix == digits_value(seen, hex) * radix_of(hex))
                by (nonlinear_arith)
                requires
                    acc == digits_value(seen, hex),
                    radix == radix_of(hex),
            ;
        }
        if wide > max as u128 {
            proof {
                lemma_digits_value_monotone(body, i + 1 - first, hex);
            }
            return None;
        }
        assert forall|j: int| 0 <= j < next.len() implies (#[trigger] digit_value(
            next[j],
            hex,
        )) is Some by {
            if j < seen.len() {
                assert(next[j] == seen[j]);
            }
        }
        acc = wide as u64;
        i += 1;
    }
    assert(body.take(i - first) =~= body);
    Some(acc)
}

/// Reads the unsigned number that a manifest field holds.
pub fn parse_number(field: &[u8], max: u64) -> (r: Option<u64>)
    ensures
        match r {
            Some(v) => number_of(field@, max as nat) == Some(v as nat),
            None => number_of(field@, max as nat) is None,
        },
{
    if field.len() >= 2 && field[0] == 48 && field[1] == 120 {
        parse_digits(field, 2, true, max)
    } else {
        assert(field@.skip(0) =~= field@);
        parse_digits(field, 0, false, max)
    }
}

/// Writes `n` in decimal.
pub fn format_decimal(n: u64) -> (r: Vec<u8>)
    ensures
        r@ == decimal(n as nat),
    decreases n,
{
    if n < 10 {
        let mut digits: Vec<u8> = Vec::new();
        digits.push(48 + n as u8);
        assert(digits@ =~= decimal(n as nat));
        digits
    } else {
        let mut digits = format_decimal(n / 10);
        digits.push(48 + (n % 10) as u8);
        digits
    }
}

/// Turns bytes into a string where they are valid UTF-8.
///
/// Trusted: wraps `String::from_utf8`, which accepts exactly the valid UTF-8
/// byte sequences and yields the string that those bytes encode.
#[verifier::external_body]
pub(crate) fn string_from_utf8(bytes: Vec<u8>) -> (r: Option<String>)
    ensures
        r is Some <==> valid_utf8(bytes@),
        r matches Some(s) ==> s@ == decode_utf8(bytes@),
{
    String::from_utf8(bytes).ok()
}

/// The characters of `s`, one by one.
pub fn chars_of(s: &str) -> (r: Vec<char>)
    ensures
        r@ == s@,
{
    let mut out: Vec<char> = Vec::new();
    for c in it: s.chars()
        invariant
            out@ == it.seq().take(it.index() as int),
            it.seq() == s@,
    {
        out.push(c);
    }
    out
}

/// Whether two strings hold the same characters.
pub fn same_text(a: &str, b: &str) -> (r: bool)
    ensures
        r == (a@ == b@),
{
    let x = chars_of(a);
    let y = chars_of(b);
    if x.len() != y.len() {
        return false;
    }
    let mut i: usize = 0;
    while i < x.len()
        invariant
            i <= x.len(),
            x.len() == y.len(),
            x@ == a@,
            y@ == b@,
            forall|j: int| 0 <= j < i ==> x@[j] == y@[j],
        decreases x.len() - i,
    {
        if x[i] != y[i] {
            return false;
        }
        i += 1;
    }
    assert(a@ =~= b@);
    true
}

/// The position of the last `sep` in `s`, or -1 where there is none.
pub open spec fn last_index_of(s: Seq<char>, sep: char) -> int
    decreases s.len(),
{
    if s.len() == 0 {
        -1
    } else if s.last() == sep {
        s.len() - 1
    } else {
        last_index_of(s.drop_last(), sep)
    }
}

/// What follows the last `sep` in `s`; all of `s` where it holds no `sep`.
pub open spec fn last_token(s: Seq<char>, sep: char) -> Seq<char> {
    s.skip(last_index_of(s, sep) + 1)
}

/// The part of `s` behind its last `sep`.
pub fn last_token_of(s: &str, sep: char) -> (r: String)
    ensures
        r@ == last_token(s@, sep),
{
    let chars = chars_of(s);
    let mut start: usize = chars.len();
    assert(chars@.take(chars.len() as int) =~= chars@);
    while start > 0 && chars[start - 1] != sep
        invariant
            start <= chars.len(),
            last_index_of(chars@, sep) == last_index_of(chars@.take(start as int), sep),
        decreases start,
    {
        assert(chars@.take(start as int).drop_last() =~= chars@.take(start - 1));
        start -= 1;
    }
    assert(last_index_of(chars@, sep) == start - 1) by {
        if start > 0 {
            assert(chars@.take(start as int).last() == sep);
        }
    }
    s.substring_char(start, chars.len()).to_owned()
}

} // verus!
