//! Hexadecimal encoding and decoding of byte strings.
//!
//! Session tokens and token hashes travel as hex strings: encoding produces
//! two lower-case digits per byte, decoding is strict (even length, hex
//! digits only, both cases accepted) and rejects everything else.

use vstd::prelude::*;
use vstd::string::StringExecFns;

verus! {

/// The lower-case hex digit for a nibble value; values 16 and above are
/// never used and map arbitrarily to '0'.
pub open spec fn nibble_char(n: u8) -> char {
    if n == 1 {
        '1'
    } else if n == 2 {
        '2'
    } else if n == 3 {
        '3'
    } else if n == 4 {
        '4'
    } else if n == 5 {
        '5'
    } else if n == 6 {
        '6'
    } else if n == 7 {
        '7'
    } else if n == 8 {
        '8'
    } else if n == 9 {
        '9'
    } else if n == 10 {
        'a'
    } else if n == 11 {
        'b'
    } else if n == 12 {
        'c'
    } else if n == 13 {
        'd'
    } else if n == 14 {
        'e'
    } else if n == 15 {
        'f'
    } else {
        '0'
    }
}

/// Hex encoding of a byte string: two lower-case digits per byte, high
/// nibble first.
pub open spec fn hex_of(bytes: Seq<u8>) -> Seq<char>
    decreases bytes.len(),
{
    if bytes.len() == 0 {
        Seq::empty()
    } else {
        seq![nibble_char(bytes[0] / 16), nibble_char(bytes[0] % 16)] + hex_of(bytes.drop_first())
    }
}

/// The value of a single hex digit; both cases decode, anything else is
/// rejected.
pub open spec fn hex_val(c: char) -> Option<u8> {
    if c == '0' {
        Some(0u8)
    } else if c == '1' {
        Some(1u8)
    } else if c == '2' {
        Some(2u8)
    } else if c == '3' {
        Some(3u8)
    } else if c == '4' {
        Some(4u8)
    } else if c == '5' {
        Some(5u8)
    } else if c == '6' {
        Some(6u8)
    } else if c == '7' {
        Some(7u8)
    } else if c == '8' {
        Some(8u8)
    } else if c == '9' {
        Some(9u8)
    } else if c == 'a' || c == 'A' {
        Some(10u8)
    } else if c == 'b' || c == 'B' {
        Some(11u8)
    } else if c == 'c' || c == 'C' {
        Some(12u8)
    } else if c == 'd' || c == 'D' {
        Some(13u8)
    } else if c == 'e' || c == 'E' {
        Some(14u8)
    } else if c == 'f' || c == 'F' {
        Some(15u8)
    } else {
        None
    }
}

/// Strict hex decoding: an odd length or a character that is no hex digit
/// yields `None`.
pub open spec fn hex_decode(s: Seq<char>) -> Option<Seq<u8>>
    decreases s.len(),
{
    if s.len() == 0 {
        Some(Seq::empty())
    } else if s.len() == 1 {
        None
    } else {
        let hi = hex_val(s[0]);
        let lo = hex_val(s[1]);
        if hi is Some && lo is Some {
            match hex_decode(s.skip(2)) {
                Some(rest) => Some(seq![(hi->Some_0 * 16 + lo->Some_0) as u8] + rest),
                None => None,
            }
        } else {
            None
        }
    }
}

/// Encoding distributes over concatenation.
pub proof fn lemma_hex_of_append(s1: Seq<u8>, s2: Seq<u8>)
    ensures
        hex_of(s1 + s2) == hex_of(s1) + hex_of(s2),
    decreases s1.len(),
{
    if s1.len() == 0 {
        assert(s1 + s2 =~= s2);
        assert(hex_of(s1) + hex_of(s2) =~= hex_of(s2));
    } else {
        assert((s1 + s2).drop_first() =~= s1.drop_first() + s2);
        lemma_hex_of_append(s1.drop_first(), s2);
        assert(hex_of(s1 + s2) =~= hex_of(s1) + hex_of(s2));
    }
}

/// The encoding is twice as long as the byte string.
pub proof fn lemma_hex_of_len(bytes: Seq<u8>)
    ensures
        hex_of(bytes).len() == 2 * bytes.len(),
    decreases bytes.len(),
{
    if bytes.len() > 0 {
        lemma_hex_of_len(bytes.drop_first());
    }
}

/// A nibble's digit decodes back to the nibble.
proof fn lemma_hex_val_nibble(n: u8)
    requires
        n < 16,
    ensures
        hex_val(nibble_char(n)) == Some(n),
{
}

/// Decoding inverts encoding: every encoded byte string decodes to itself.
pub proof fn lemma_hex_round_trip(bytes: Seq<u8>)
    ensures
        hex_decode(hex_of(bytes)) == Some(bytes),
    decreases bytes.len(),
{
    if bytes.len() == 0 {
    } else {
        let b = bytes[0];
        let s = hex_of(bytes);
        lemma_hex_of_len(bytes);
        lemma_hex_val_nibble(b / 16);
        lemma_hex_val_nibble(b % 16);
        assert(b / 16 * 16 + b % 16 == b) by {
            vstd::arithmetic::div_mod::lemma_fundamental_div_mod(b as int, 16);
        }
        lemma_hex_round_trip(bytes.drop_first());
        assert(s.skip(2) =~= hex_of(bytes.drop_first()));
        assert(seq![b] + bytes.drop_first() =~= bytes);
    }
}

/// A string of odd length never decodes.
pub proof fn lemma_hex_decode_odd(s: Seq<char>)
    requires
        s.len() % 2 == 1,
    ensures
        hex_decode(s) is None,
    decreases s.len(),
{
    if s.len() > 1 {
        lemma_hex_decode_odd(s.skip(2));
    }
}

/// Decoding a concatenation whose first part decodes splits into the two
/// parts' decodings.
pub proof fn lemma_hex_decode_append(s1: Seq<char>, s2: Seq<char>)
    requires
        s1.len() % 2 == 0,
        hex_decode(s1) is Some,
    ensures
        hex_decode(s1 + s2) == match hex_decode(s2) {
            Some(b2) => Some(hex_decode(s1)->Some_0 + b2),
            None => None::<Seq<u8>>,
        },
    decreases s1.len(),
{
    if s1.len() == 0 {
        assert(s1 + s2 =~= s2);
        if hex_decode(s2) is Some {
            assert(hex_decode(s1)->Some_0 + hex_decode(s2)->Some_0 =~= hex_decode(s2)->Some_0);
        }
    } else {
        let s = s1 + s2;
        assert(s[0] == s1[0] && s[1] == s1[1]);
        assert(s.skip(2) =~= s1.skip(2) + s2);
        lemma_hex_decode_append(s1.skip(2), s2);
        if hex_decode(s2) is Some {
            let v = (hex_val(s1[0])->Some_0 * 16 + hex_val(s1[1])->Some_0) as u8;
            assert(seq![v] + (hex_decode(s1.skip(2))->Some_0 + hex_decode(s2)->Some_0) =~= (seq![v]
                + hex_decode(s1.skip(2))->Some_0) + hex_decode(s2)->Some_0);
        }
    }
}

/// The digit string for one nibble value.
fn nibble_str(n: u8) -> (r: &'static str)
    requires
        n < 16,
    ensures
        r@ =~= seq![nibble_char(n)],
{
    proof {
        reveal_strlit("0");
        reveal_strlit("1");
        reveal_strlit("2");
        reveal_strlit("3");
        reveal_strlit("4");
        reveal_strlit("5");
        reveal_strlit("6");
        reveal_strlit("7");
        reveal_strlit("8");
        reveal_strlit("9");
        reveal_strlit("a");
        reveal_strlit("b");
        reveal_strlit("c");
        reveal_strlit("d");
        reveal_strlit("e");
        reveal_strlit("f");
    }
    if n == 0 {
        "0"
    } else if n == 1 {
        "1"
    } else if n == 2 {
        "2"
    } else if n == 3 {
        "3"
    } else if n == 4 {
        "4"
    } else if n == 5 {
        "5"
    } else if n == 6 {
        "6"
    } else if n == 7 {
        "7"
    } else if n == 8 {
        "8"
    } else if n == 9 {
        "9"
    } else if n == 10 {
        "a"
    } else if n == 11 {
        "b"
    } else if n == 12 {
        "c"
    } else if n == 13 {
        "d"
    } else if n == 14 {
        "e"
    } else {
        "f"
    }
}

/// Encode a byte string as lower-case hex.
pub fn bytes_to_hex(bytes: &Vec<u8>) -> (r: String)
    ensures
        r@ == hex_of(bytes@),
{
    let mut r = String::new();
    let mut i: usize = 0;
    while i < bytes.len()
        invariant
            i <= bytes.len(),
            r@ == hex_of(bytes@.take(i as int)),
        decreases bytes.len() - i,
    {
        let b = bytes[i];
        r.append(nibble_str(b / 16));
        r.append(nibble_str(b % 16));
        proof {
            let prefix = bytes@.take(i as int);
            let one = seq![bytes@[i as int]];
            lemma_hex_of_append(prefix, one);
            assert(prefix + one =~= bytes@.take(i + 1));
            assert(one.drop_first() =~= Seq::<u8>::empty());
            assert(hex_of(Seq::<u8>::empty()) == Seq::<char>::empty());
            assert(hex_of(one) =~= seq![
                nibble_char(bytes@[i as int] / 16),
                nibble_char(bytes@[i as int] % 16),
            ]);
        }
        i = i + 1;
    }
    proof {
        assert(bytes@.take(bytes@.len() as int) =~= bytes@);
    }
    r
}

/// The value of one hex digit character, if it is one.
fn hex_val_of(c: char) -> (r: Option<u8>)
    ensures
        r == hex_val(c),
{
    if c == '0' {
        Some(0u8)
    } else if c == '1' {
        Some(1u8)
    } else if c == '2' {
        Some(2u8)
    } else if c == '3' {
        Some(3u8)
    } else if c == '4' {
        Some(4u8)
    } else if c == '5' {
        Some(5u8)
    } else if c == '6' {
        Some(6u8)
    } else if c == '7' {
        Some(7u8)
    } else if c == '8' {
        Some(8u8)
    } else if c == '9' {
        Some(9u8)
    } else if c == 'a' || c == 'A' {
        Some(10u8)
    } else if c == 'b' || c == 'B' {
        Some(11u8)
    } else if c == 'c' || c == 'C' {
        Some(12u8)
    } else if c == 'd' || c == 'D' {
        Some(13u8)
    } else if c == 'e' || c == 'E' {
        Some(14u8)
    } else if c == 'f' || c == 'F' {
        Some(15u8)
    } else {
        None
    }
}

/// Decode a hex string; `None` on odd length or any non-hex character.
pub fn hex_to_bytes(s: &str) -> (r: Option<Vec<u8>>)
    ensures
        match hex_decode(s@) {
            Some(b) => r matches Some(v) && v@ == b,
            None => r is None,
        },
{
    let n = s.unicode_len();
    if n % 2 == 1 {
        proof {
            lemma_hex_decode_odd(s@);
        }
        return None;
    }
    let mut out: Vec<u8> = Vec::new();
    let mut i: usize = 0;
    while i < n
        invariant
            s@.len() == n,
            n % 2 == 0,
            i % 2 == 0,
            i <= n,
            hex_decode(s@.take(i as int)) == Some(out@),
        decreases n - i,
    {
        let hi = hex_val_of(s.get_char(i));
        let lo = hex_val_of(s.get_char(i + 1));
        proof {
            assert(s@.take(i as int) + s@.skip(i as int) =~= s@);
            lemma_hex_decode_append(s@.take(i as int), s@.skip(i as int));
            assert(s@.skip(i as int)[0] == s@[i as int]);
            assert(s@.skip(i as int)[1] == s@[i + 1]);
        }
        match (hi, lo) {
            (Some(h), Some(l)) => {
                out.push(h * 16 + l);
                proof {
                    let pair = seq![s@[i as int], s@[i + 1]];
                    assert(pair.skip(2) =~= Seq::<char>::empty());
                    assert(hex_decode(Seq::<char>::empty()) == Some(Seq::<u8>::empty()));
                    assert(seq![(h * 16 + l) as u8] + Seq::<u8>::empty() =~= seq![
                        (h * 16 + l) as u8,
                    ]);
                    assert(hex_decode(pair) == Some(seq![(h * 16 + l) as u8]));
                    lemma_hex_decode_append(s@.take(i as int), pair);
                    assert(s@.take(i as int) + pair =~= s@.take(i + 2));
                    assert(out@ =~= hex_decode(s@.take(i as int))->Some_0 + seq![(h * 16 + l) as u8]);
                }
                i = i + 2;
            },
            _ => {
                proof {
                    assert(hex_decode(s@.skip(i as int)) is None);
                }
                return None;
            },
        }
    }
    proof {
        assert(s@.take(n as int) =~= s@);
    }
    Some(out)
}

} // verus!
