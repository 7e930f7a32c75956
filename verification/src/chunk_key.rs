//! The key under which a downloaded chunk waits for its turn to be written:
//! `"<id>,<sha>"`. With the position in it, two chunks of one file that
//! share an identifier still have different keys.

use crate::hash::hex_digit;
use vstd::prelude::*;

verus! {

/// The decimal digits of `n` as characters.
pub open spec fn decimal_text(n: nat) -> Seq<char>
    decreases n,
{
    if n < 10 {
        seq![hex_digit(n as int)]
    } else {
        decimal_text(n / 10).push(hex_digit((n % 10) as int))
    }
}

/// The key of the chunk at position `id` with identifier `sha`.
pub open spec fn chunk_key(id: u16, sha: Seq<char>) -> Seq<char> {
    decimal_text(id as nat) + seq![','] + sha
}

/// Decimal text holds digits only: one for a number below ten, more above.
pub proof fn lemma_decimal_text_shape(n: nat)
    ensures
        decimal_text(n).len() >= 1,
        n >= 10 ==> decimal_text(n).len() >= 2,
        forall|i: int| 0 <= i < decimal_text(n).len() ==> #[trigger] decimal_text(n)[i] != ',',
    decreases n,
{
    if n >= 10 {
        lemma_decimal_text_shape(n / 10);
        let head = decimal_text(n / 10);
        let s = decimal_text(n);
        assert forall|i: int| 0 <= i < s.len() implies #[trigger] s[i] != ',' by {
            if i < head.len() {
                assert(s[i] == head[i]);
            }
        }
    }
}

/// Different numbers have different decimal texts.
pub proof fn lemma_decimal_text_injective(n: nat, m: nat)
    requires
        decimal_text(n) == decimal_text(m),
    ensures
        n == m,
    decreases n,
{
    lemma_decimal_text_shape(n);
    lemma_decimal_text_shape(m);
    if n < 10 && m < 10 {
        assert(decimal_text(n)[0] == hex_digit(n as int));
        assert(decimal_text(m)[0] == hex_digit(m as int));
    } else if n >= 10 && m >= 10 {
        let a = decimal_text(n / 10);
        let b = decimal_text(m / 10);
        assert(decimal_text(n).drop_last() =~= a);
        assert(decimal_text(m).drop_last() =~= b);
        assert(decimal_text(n).last() == hex_digit((n % 10) as int));
        assert(decimal_text(m).last() == hex_digit((m % 10) as int));
        lemma_decimal_text_injective(n / 10, m / 10);
    }
}

/// A key determines the position and the identifier that it was made of.
pub proof fn lemma_chunk_key_injective(id1: u16, sha1: Seq<char>, id2: u16, sha2: Seq<char>)
    requires
        chunk_key(id1, sha1) == chunk_key(id2, sha2),
    ensures
        id1 == id2,
        sha1 == sha2,
{
    let a = decimal_text(id1 as nat);
    let b = decimal_text(id2 as nat);
    let k1 = chunk_key(id1, sha1);
    let k2 = chunk_key(id2, sha2);
    lemma_decimal_text_shape(id1 as nat);
    lemma_decimal_text_shape(id2 as nat);
    if a.len() < b.len() {
        assert(k1[a.len() as int] == ',');
        assert(k2[a.len() as int] == b[a.len() as int]);
    } else if b.len() < a.len() {
        assert(k2[b.len() as int] == ',');
        assert(k1[b.len() as int] == a[b.len() as int]);
    } else {
        assert(a =~= b) by {
            assert forall|i: int| 0 <= i < a.len() implies a[i] == b[i] by {
                assert(k1[i] == a[i]);
                assert(k2[i] == b[i]);
            }
        }
        lemma_decimal_text_injective(id1 as nat, id2 as nat);
        assert(sha1 =~= sha2) by {
            assert(sha1.len() == sha2.len()) by {
                assert(k1.len() == a.len() + 1 + sha1.len());
                assert(k2.len() == b.len() + 1 + sha2.len());
            }
            assert forall|i: int| 0 <= i < sha1.len() implies sha1[i] == sha2[i] by {
                assert(k1[a.len() + 1 + i] == sha1[i]);
                assert(k2[b.len() + 1 + i] == sha2[i]);
            }
        }
    }
}

/// The text of one decimal digit.
fn digit_text(d: u64) -> (r: &'static str)
    requires
        d < 10,
    ensures
        r@ == seq![hex_digit(d as int)],
{
    proof {
        reveal_strlit("0");
        reveal_strlit("1");
        reveal_strlit("2");
        reveal_strlit("3");
        reveal_strlit("4");
        reveal_strlit("5");
        reveal_strlit("6");
        reveal_strlit("7");
        reveal_strlit("8");
        reveal_strlit("9");
    }
    let text = if d == 0 {
        "0"
    } else if d == 1 {
        "1"
    } else if d == 2 {
        "2"
    } else if d == 3 {
        "3"
    } else if d == 4 {
        "4"
    } else if d == 5 {
        "5"
    } else if d == 6 {
        "6"
    } else if d == 7 {
        "7"
    } else if d == 8 {
        "8"
    } else {
        "9"
    };
    assert(text@ =~= seq![hex_digit(d as int)]);
    text
}

/// Writes `n` in decimal.
pub fn decimal_string(n: u64) -> (r: String)
    ensures
        r@ == decimal_text(n as nat),
    decreases n,
{
    if n < 10 {
        String::from_str(digit_text(n))
    } else {
        let mut text = decimal_string(n / 10);
        text.append(digit_text(n % 10));
        assert(text@ =~= decimal_text(n as nat));
        text
    }
}

/// The key of the chunk at position `id` with identifier `sha`.
pub fn chunk_key_of(id: u16, sha: &String) -> (r: String)
    ensures
        r@ == chunk_key(id, sha@),
{
    proof {
        reveal_strlit(",");
    }
    let mut key = decimal_string(id as u64);
    key.append(",");
    key.append(sha.as_str());
    assert(key@ =~= chunk_key(id, sha@));
    key
}

} // verus!
