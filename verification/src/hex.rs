//! Lowercase hexadecimal encoding of byte strings, and its injectivity.

use vstd::prelude::*;
use vstd::string::StringExecFns;

verus! {

/// The lowercase hexadecimal digit for a value below sixteen.
pub open spec fn hex_char(n: u8) -> char
    recommends
        n < 16,
{
    if n == 0 {
        '0'
    } else if n == 1 {
        '1'
    } else if n == 2 {
        '2'
    } else if n == 3 {
        '3'
    } else if n == 4 {
        '4'
    } else if n == 5 {
        '5'
    } else if n == 6 {
        '6'
    } else if n == 7 {
        '7'
    } else if n == 8 {
        '8'
    } else if n == 9 {
        '9'
    } else if n == 10 {
        'a'
    } else if n == 11 {
        'b'
    } else if n == 12 {
        'c'
    } else if n == 13 {
        'd'
    } else if n == 14 {
        'e'
    } else {
        'f'
    }
}

/// Two hexadecimal digits for one byte, high nibble first.
pub open spec fn hex_of_byte(b: u8) -> Seq<char> {
    seq![hex_char(b / 16), hex_char(b % 16)]
}

/// The hexadecimal encoding of a byte string.
pub open spec fn hex_of(bytes: Seq<u8>) -> Seq<char>
    decreases bytes.len(),
{
    if bytes.len() == 0 {
        Seq::empty()
    } else {
        hex_of(bytes.drop_last()) + hex_of_byte(bytes.last())
    }
}

fn hex_digit(n: u8) -> (r: &'static str)
    requires
        n < 16,
    ensures
        r@ == seq![hex_char(n)],
{
    proof {
        reveal_strlit("0");
        reveal_strlit("1");
        reveal_strlit("2");
        reveal_strlit("3");
        reveal_strlit("4");
        reveal_strlit("5");
        reveal_strlit("6");
        reveal_strlit("7");
        reveal_strlit("8");
        reveal_strlit("9");
        reveal_strlit("a");
        reveal_strlit("b");
        reveal_strlit("c");
        reveal_strlit("d");
        reveal_strlit("e");
        reveal_strlit("f");
    }
    let r: &'static str = if n == 0 {
        "0"
    } else if n == 1 {
        "1"
    } else if n == 2 {
        "2"
    } else if n == 3 {
        "3"
    } else if n == 4 {
        "4"
    } else if n == 5 {
        "5"
    } else if n == 6 {
        "6"
    } else if n == 7 {
        "7"
    } else if n == 8 {
        "8"
    } else if n == 9 {
        "9"
    } else if n == 10 {
        "a"
    } else if n == 11 {
        "b"
    } else if n == 12 {
        "c"
    } else if n == 13 {
        "d"
    } else if n == 14 {
        "e"
    } else {
        "f"
    };
    proof {
        assert(r@ =~= seq![hex_char(n)]);
    }
    r
}

/// Encodes a byte string as lowercase hexadecimal, two digits per byte.
pub fn encode(bytes: Vec<u8>) -> (s: String)
    ensures
        s@ == hex_of(bytes@),
{
    let mut s = String::new();
    let mut i: usize = 0;
    while i < bytes.len()
        invariant
            i <= bytes@.len(),
            s@ == hex_of(bytes@.take(i as int)),
        decreases bytes@.len() - i,
    {
        let b = bytes[i];
        s.append(hex_digit(b / 16));
        s.append(hex_digit(b % 16));
        proof {
            let pre = bytes@.take(i as int);
            let cur = bytes@.take(i + 1);
            assert(cur.drop_last() =~= pre);
            assert(cur.last() == bytes@[i as int]);
            assert(s@ =~= hex_of(pre) + hex_of_byte(bytes@[i as int]));
        }
        i += 1;
    }
    proof {
        assert(bytes@.take(bytes@.len() as int) =~= bytes@);
    }
    s
}

/// Distinct values below sixteen have distinct hexadecimal digits.
pub proof fn lemma_hex_char_injective(a: u8, b: u8)
    requires
        a < 16,
        b < 16,
        hex_char(a) == hex_char(b),
    ensures
        a == b,
{
}

/// The length of a hexadecimal encoding is twice the length of the input.
pub proof fn lemma_hex_of_len(bytes: Seq<u8>)
    ensures
        hex_of(bytes).len() == 2 * bytes.len(),
    decreases bytes.len(),
{
    if bytes.len() > 0 {
        lemma_hex_of_len(bytes.drop_last());
    }
}

/// Hexadecimal encoding is injective: distinct byte strings have distinct
/// encodings.
pub proof fn lemma_hex_of_injective(s1: Seq<u8>, s2: Seq<u8>)
    requires
        hex_of(s1) == hex_of(s2),
    ensures
        s1 == s2,
    decreases s1.len(),
{
    lemma_hex_of_len(s1);
    lemma_hex_of_len(s2);
    if s1.len() == 0 {
        assert(s1 =~= s2);
    } else {
        let h1 = hex_of(s1);
        let h2 = hex_of(s2);
        let p1 = hex_of(s1.drop_last());
        let p2 = hex_of(s2.drop_last());
        lemma_hex_of_len(s1.drop_last());
        lemma_hex_of_len(s2.drop_last());
        assert(h1[h1.len() - 2] == hex_char(s1.last() / 16));
        assert(h1[h1.len() - 1] == hex_char(s1.last() % 16));
        assert(h2[h2.len() - 2] == hex_char(s2.last() / 16));
        assert(h2[h2.len() - 1] == hex_char(s2.last() % 16));
        lemma_hex_char_injective(s1.last() / 16, s2.last() / 16);
        lemma_hex_char_injective(s1.last() % 16, s2.last() % 16);
        assert(s1.last() == s2.last()) by {
            assert(s1.last() == 16 * (s1.last() / 16) + s1.last() % 16);
            assert(s2.last() == 16 * (s2.last() / 16) + s2.last() % 16);
        }
        assert(p1 =~= p2) by {
            assert forall|k: int| 0 <= k < p1.len() implies p1[k] == p2[k] by {
                assert(p1[k] == h1[k]);
                assert(p2[k] == h2[k]);
            }
        }
        lemma_hex_of_injective(s1.drop_last(), s2.drop_last());
        assert forall|k: int| 0 <= k < s1.len() implies s1[k] == s2[k] by {
            if k < s1.len() - 1 {
                assert(s1[k] == s1.drop_last()[k]);
                assert(s2[k] == s2.drop_last()[k]);
            } else {
                assert(s1[k] == s1.last());
                assert(s2[k] == s2.last());
            }
        }
        assert(s1 =~= s2);
    }
}

} // verus!
