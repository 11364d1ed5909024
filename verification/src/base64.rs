//! Base 64 as RFC 4648 section 4 writes it: the standard alphabet, padded.
use vstd::prelude::*;

use crate::text;

verus! {

/// The character that stands for `n`, which is below 64.
pub open spec fn symbol(n: nat) -> char {
    if n < 26 {
        ((65 + n) as u32) as char
    } else if n < 52 {
        ((71 + n) as u32) as char
    } else if n < 62 {
        ((n - 4) as u32) as char
    } else if n == 62 {
        '+'
    } else {
        '/'
    }
}

/// The four characters that stand for the 24 bits of `n`.
pub open spec fn quad(n: nat) -> Seq<char> {
    seq![
        symbol(n / 262144),
        symbol(n / 4096 % 64),
        symbol(n / 64 % 64),
        symbol(n % 64),
    ]
}

/// `bytes` in base 64: four characters for each three bytes, a last group of
/// two or of one padded with `=`.
pub open spec fn encoded(bytes: Seq<u8>) -> Seq<char>
    decreases bytes.len(),
{
    if bytes.len() == 0 {
        seq![]
    } else if bytes.len() == 1 {
        quad((bytes[0] * 65536) as nat).take(2) + seq!['=', '=']
    } else if bytes.len() == 2 {
        quad((bytes[0] * 65536 + bytes[1] * 256) as nat).take(3) + seq!['=']
    } else {
        quad((bytes[0] * 65536 + bytes[1] * 256 + bytes[2]) as nat) + encoded(bytes.skip(3))
    }
}

/// The bytes whose base 64 is `chars`, where there are any.
pub open spec fn decoded(chars: Seq<char>) -> Option<Seq<u8>> {
    if exists|bytes: Seq<u8>| encoded(bytes) == chars {
        Some(choose|bytes: Seq<u8>| encoded(bytes) == chars)
    } else {
        None
    }
}

/// What a character stands for.
#[verifier::opaque]
spec fn value(c: char) -> Option<nat> {
    if 'A' <= c <= 'Z' {
        Some((c as u32 - 65) as nat)
    } else if 'a' <= c <= 'z' {
        Some((c as u32 - 71) as nat)
    } else if '0' <= c <= '9' {
        Some((c as u32 + 4) as nat)
    } else if c == '+' {
        Some(62)
    } else if c == '/' {
        Some(63)
    } else {
        None
    }
}

/// The bytes that a group of four characters stands for: three, or fewer
/// where it is padded.
#[verifier::opaque]
spec fn group(c: Seq<char>) -> Option<Seq<u8>> {
    match (value(c[0]), value(c[1]), value(c[2]), value(c[3])) {
        (Some(p), Some(q), Some(r), Some(s)) => Some(
            triple(p * 262144 + q * 4096 + r * 64 + s),
        ),
        (Some(p), Some(q), Some(r), None) => {
            let n = p * 262144 + q * 4096 + r * 64;
            if c[3] == '=' && n % 256 == 0 {
                Some(triple(n).take(2))
            } else {
                None
            }
        },
        (Some(p), Some(q), None, None) => {
            let n = p * 262144 + q * 4096;
            if c[2] == '=' && c[3] == '=' && n % 65536 == 0 {
                Some(triple(n).take(1))
            } else {
                None
            }
        },
        _ => None,
    }
}

/// The three bytes of 24 bits.
spec fn triple(n: nat) -> Seq<u8> {
    seq![(n / 65536) as u8, (n / 256 % 256) as u8, (n % 256) as u8]
}

/// `chars` read group by group.
spec fn parsed(chars: Seq<char>) -> Option<Seq<u8>>
    decreases chars.len(),
{
    if chars.len() == 0 {
        Some(seq![])
    } else if chars.len() < 4 {
        None
    } else {
        match group(chars.take(4)) {
            Some(bytes) => if chars.len() == 4 {
                Some(bytes)
            } else if bytes.len() < 3 {
                None
            } else {
                match parsed(chars.skip(4)) {
                    Some(rest) => Some(bytes + rest),
                    None => None,
                }
            },
            None => None,
        }
    }
}

proof fn lemma_symbol(n: nat)
    requires
        n < 64,
    ensures
        value(symbol(n)) == Some(n),
        symbol(n) != '=',
{
    reveal(value);
}

proof fn lemma_value(c: char)
    ensures
        value(c) matches Some(n) ==> n < 64 && symbol(n) == c,
{
    reveal(value);
}

proof fn lemma_padding()
    ensures
        value('=') is None,
{
    reveal(value);
}

proof fn lemma_bits_of_bytes(a: u8, b: u8, c: u8, n: nat)
    requires
        n == a * 65536 + b * 256 + c,
    ensures
        n < 16777216,
        n / 65536 == a,
        n / 256 % 256 == b,
        n % 256 == c,
        n / 262144 < 64,
        n == (n / 262144) * 262144 + (n / 4096 % 64) * 4096 + (n / 64 % 64) * 64 + n % 64,
        c == 0 ==> n % 64 == 0,
        b == 0 && c == 0 ==> n / 64 % 64 == 0,
{
    let (x, y, z, m) = (a as u32, b as u32, c as u32, n as u32);
    assert(m < 16777216 && m / 65536 == x && m / 256 % 256 == y && m % 256 == z && m / 262144 < 64
        && m == (m / 262144) * 262144 + (m / 4096 % 64) * 4096 + (m / 64 % 64) * 64 + m % 64 && (z
        == 0 ==> m % 64 == 0) && (y == 0 && z == 0 ==> m / 64 % 64 == 0)) by (bit_vector)
        requires
            x < 256,
            y < 256,
            z < 256,
            m == x * 65536 + y * 256 + z,
    ;
}

proof fn lemma_bits_of_sextets(p: nat, q: nat, r: nat, s: nat, n: nat)
    requires
        p < 64,
        q < 64,
        r < 64,
        s < 64,
        n == p * 262144 + q * 4096 + r * 64 + s,
    ensures
        n < 16777216,
        n / 262144 == p,
        n / 4096 % 64 == q,
        n / 64 % 64 == r,
        n % 64 == s,
        n / 65536 < 256,
        n == (n / 65536) * 65536 + (n / 256 % 256) * 256 + n % 256,
        n % 65536 == 0 ==> n / 256 % 256 == 0 && n % 256 == 0,
{
    let (w, x, y, z, m) = (p as u32, q as u32, r as u32, s as u32, n as u32);
    assert(m < 16777216 && m / 262144 == w && m / 4096 % 64 == x && m / 64 % 64 == y && m % 64 == z
        && m / 65536 < 256 && m == (m / 65536) * 65536 + (m / 256 % 256) * 256 + m % 256 && (m
        % 65536 == 0 ==> m / 256 % 256 == 0 && m % 256 == 0)) by (bit_vector)
        requires
            w < 64,
            x < 64,
            y < 64,
            z < 64,
            m == w * 262144 + x * 4096 + y * 64 + z,
    ;
}

/// A group of up to three bytes reads back.
proof fn lemma_group_of_encoded(bytes: Seq<u8>)
    requires
        1 <= bytes.len() <= 3,
    ensures
        encoded(bytes).len() == 4,
        group(encoded(bytes)) == Some(bytes),
{
    reveal(group);
    lemma_padding();
    let a = bytes[0];
    let b = if bytes.len() > 1 {
        bytes[1]
    } else {
        0
    };
    let c = if bytes.len() > 2 {
        bytes[2]
    } else {
        0
    };
    let n = (a * 65536 + b * 256 + c) as nat;
    lemma_bits_of_bytes(a, b, c, n);
    lemma_symbol(n / 262144);
    lemma_symbol(n / 4096 % 64);
    lemma_symbol(n / 64 % 64);
    lemma_symbol(n % 64);
    if bytes.len() == 3 {
        assert(encoded(bytes.skip(3)) =~= seq![]);
        assert(encoded(bytes) =~= quad(n));
    }
    assert(triple(n).take(bytes.len() as int) =~= bytes);
    assert(triple(n).take(3) =~= triple(n));
}

/// A group that reads is the encoding of what was read.
proof fn lemma_encoded_of_group(c: Seq<char>)
    requires
        c.len() == 4,
    ensures
        group(c) matches Some(bytes) ==> 1 <= bytes.len() <= 3 && encoded(bytes) == c,
{
    reveal(group);
    lemma_value(c[0]);
    lemma_value(c[1]);
    lemma_value(c[2]);
    lemma_value(c[3]);
    if group(c) is Some {
        let bytes = group(c).unwrap();
        let p = value(c[0]).unwrap();
        let q = value(c[1]).unwrap();
        let r = if value(c[2]) is Some {
            value(c[2]).unwrap()
        } else {
            0
        };
        let s = if value(c[3]) is Some {
            value(c[3]).unwrap()
        } else {
            0
        };
        let n = p * 262144 + q * 4096 + r * 64 + s;
        lemma_bits_of_sextets(p, q, r, s, n);
        if bytes.len() == 3 {
            assert(encoded(bytes.skip(3)) =~= seq![]);
        }
        assert(encoded(bytes) =~= c);
    }
}

/// What was encoded reads back.
proof fn lemma_parsed_of_encoded(bytes: Seq<u8>)
    ensures
        parsed(encoded(bytes)) == Some(bytes),
    decreases bytes.len(),
{
    let chars = encoded(bytes);
    if bytes.len() == 0 {
        assert(bytes =~= seq![]);
    } else if bytes.len() <= 3 {
        lemma_group_of_encoded(bytes);
        assert(chars.take(4) =~= chars);
    } else {
        let first = bytes.take(3);
        let rest = bytes.skip(3);
        lemma_group_of_encoded(first);
        lemma_parsed_of_encoded(rest);
        assert(encoded(first.skip(3)) =~= seq![]);
        assert(chars =~= encoded(first) + encoded(rest));
        assert(chars.take(4) =~= encoded(first));
        assert(chars.skip(4) =~= encoded(rest));
        assert(first + rest =~= bytes);
        if encoded(rest).len() == 0 {
            lemma_group_of_encoded(rest.take(if rest.len() > 3 {
                3
            } else {
                rest.len() as int
            }));
            assert(false);
        }
    }
}

/// What reads is the encoding of what was read.
proof fn lemma_encoded_of_parsed(chars: Seq<char>)
    ensures
        parsed(chars) matches Some(bytes) ==> encoded(bytes) == chars,
    decreases chars.len(),
{
    if parsed(chars) is Some {
        let bytes = parsed(chars).unwrap();
        if chars.len() == 0 {
            assert(encoded(bytes) =~= chars);
        } else {
            lemma_encoded_of_group(chars.take(4));
            if chars.len() == 4 {
                assert(chars.take(4) =~= chars);
            } else {
                let first = group(chars.take(4)).unwrap();
                let rest = parsed(chars.skip(4)).unwrap();
                lemma_encoded_of_parsed(chars.skip(4));
                assert(bytes.skip(3) =~= rest);
                assert(encoded(first.skip(3)) =~= seq![]);
                assert(rest.len() > 0) by {
                    if rest.len() == 0 {
                        assert(encoded(rest) =~= seq![]);
                    }
                }
                assert(encoded(bytes) =~= encoded(first) + encoded(rest));
                assert(chars =~= chars.take(4) + chars.skip(4));
            }
        }
    }
}

proof fn lemma_parsed_is_decoded(chars: Seq<char>)
    ensures
        parsed(chars) == decoded(chars),
{
    lemma_encoded_of_parsed(chars);
    if exists|bytes: Seq<u8>| encoded(bytes) == chars {
        lemma_parsed_of_encoded(choose|bytes: Seq<u8>| encoded(bytes) == chars);
    }
}

/// Decoding undoes encoding, and only what encoding writes is decoded.
pub proof fn law_decoding_undoes_encoding(bytes: Seq<u8>, chars: Seq<char>)
    ensures
        decoded(encoded(bytes)) == Some(bytes),
        decoded(chars) == Some(bytes) <==> encoded(bytes) == chars,
{
    lemma_parsed_of_encoded(bytes);
    lemma_parsed_is_decoded(encoded(bytes));
    lemma_parsed_is_decoded(chars);
    lemma_encoded_of_parsed(chars);
}

/// The characters that stand for 24 bits are neither white space nor commas.
proof fn lemma_quad_symbols(n: nat)
    requires
        n < 16777216,
    ensures
        forall|i: int|
            0 <= i < 4 ==> !text::is_space(#[trigger] quad(n)[i]) && quad(n)[i] != ',',
{
}

/// An encoding holds neither white space nor a comma.
pub proof fn lemma_symbols(bytes: Seq<u8>)
    ensures
        forall|i: int|
            0 <= i < encoded(bytes).len() ==> !text::is_space(#[trigger] encoded(bytes)[i])
                && encoded(bytes)[i] != ',',
        !encoded(bytes).contains('\n'),
        !encoded(bytes).contains(','),
    decreases bytes.len(),
{
    let chars = encoded(bytes);
    if bytes.len() == 1 {
        lemma_quad_symbols((bytes[0] * 65536) as nat);
    } else if bytes.len() == 2 {
        lemma_quad_symbols((bytes[0] * 65536 + bytes[1] * 256) as nat);
    } else if bytes.len() > 2 {
        lemma_quad_symbols((bytes[0] * 65536 + bytes[1] * 256 + bytes[2]) as nat);
        lemma_symbols(bytes.skip(3));
        assert forall|i: int| 0 <= i < chars.len() implies !text::is_space(#[trigger] chars[i])
            && chars[i] != ',' by {
            if i >= 4 {
                assert(chars[i] == encoded(bytes.skip(3))[i - 4]);
            }
        }
    }
}

fn symbol_of(n: u32) -> (c: char)
    requires
        n < 64,
    ensures
        c == symbol(n as nat),
{
    if n < 26 {
        ((65 + n) as u8) as char
    } else if n < 52 {
        ((71 + n) as u8) as char
    } else if n < 62 {
        ((n - 4) as u8) as char
    } else if n == 62 {
        '+'
    } else {
        '/'
    }
}

fn value_of(c: char) -> (n: Option<u32>)
    ensures
        value(c) == (match n {
            Some(v) => Some(v as nat),
            None => None,
        }),
        n matches Some(v) ==> v < 64,
{
    proof {
        reveal(value);
    }
    if 'A' <= c && c <= 'Z' {
        Some(c as u32 - 65)
    } else if 'a' <= c && c <= 'z' {
        Some(c as u32 - 71)
    } else if '0' <= c && c <= '9' {
        Some(c as u32 + 4)
    } else if c == '+' {
        Some(62)
    } else if c == '/' {
        Some(63)
    } else {
        None
    }
}

/// `bytes` in base 64.
#[must_use]
pub fn encode(bytes: &[u8]) -> (chars: Vec<char>)
    ensures
        chars@ == encoded(bytes@),
{
    let mut chars: Vec<char> = Vec::new();
    let mut i: usize = 0;
    assert(bytes@.skip(0) =~= bytes@);
    while i < bytes.len()
        invariant
            i <= bytes@.len(),
            encoded(bytes@) =~= chars@ + encoded(bytes@.skip(i as int)),
        decreases bytes@.len() - i,
    {
        let ghost rest = bytes@.skip(i as int);
        let left: usize = bytes.len() - i;
        let first: u32 = bytes[i] as u32;
        let second: u32 = if left > 1 {
            bytes[i + 1] as u32
        } else {
            0
        };
        let third: u32 = if left > 2 {
            bytes[i + 2] as u32
        } else {
            0
        };
        let n: u32 = first * 65536 + second * 256 + third;
        chars.push(symbol_of(n / 262144));
        chars.push(symbol_of(n / 4096 % 64));
        chars.push(if left > 1 {
            symbol_of(n / 64 % 64)
        } else {
            '='
        });
        chars.push(if left > 2 {
            symbol_of(n % 64)
        } else {
            '='
        });
        if left > 3 {
            assert(rest.skip(3) =~= bytes@.skip(i + 3));
            i += 3;
        } else {
            assert(bytes@.skip(bytes@.len() as int) =~= seq![]);
            assert(left == 3 ==> rest.skip(3) =~= seq![]);
            i = bytes.len();
        }
    }
    assert(bytes@.skip(i as int) =~= seq![]);
    chars
}

/// The 24 bits of a group of four characters, and how many bytes it stands for.
fn read_group(c: &[char]) -> (bits: Option<(u32, usize)>)
    requires
        c@.len() == 4,
    ensures
        group(c@) == (match bits {
            Some((n, count)) => Some(triple(n as nat).take(count as int)),
            None => None,
        }),
        bits matches Some((n, count)) ==> 1 <= count <= 3 && n < 16777216,
{
    proof {
        reveal(group);
    }
    match (value_of(c[0]), value_of(c[1]), value_of(c[2]), value_of(c[3])) {
        (Some(p), Some(q), Some(r), Some(s)) => {
            let n: u32 = p * 262144 + q * 4096 + r * 64 + s;
            assert(triple(n as nat).take(3) =~= triple(n as nat));
            Some((n, 3))
        },
        (Some(p), Some(q), Some(r), None) => {
            let n: u32 = p * 262144 + q * 4096 + r * 64;
            if c[3] == '=' && n % 256 == 0 {
                Some((n, 2))
            } else {
                None
            }
        },
        (Some(p), Some(q), None, None) => {
            let n: u32 = p * 262144 + q * 4096;
            if c[2] == '=' && c[3] == '=' && n % 65536 == 0 {
                Some((n, 1))
            } else {
                None
            }
        },
        _ => None,
    }
}

/// The bytes whose base 64 is `chars`, or `None` where `chars` is not base 64.
#[must_use]
pub fn decode(chars: &[char]) -> (bytes: Option<Vec<u8>>)
    ensures
        decoded(chars@) == (match bytes {
            Some(b) => Some(b@),
            None => None,
        }),
{
    let mut bytes: Vec<u8> = Vec::new();
    let mut i: usize = 0;
    assert(chars@.skip(0) =~= chars@);
    proof {
        lemma_parsed_is_decoded(chars@);
    }
    while i < chars.len()
        invariant
            i <= chars@.len(),
            parsed(chars@) == decoded(chars@),
            match parsed(chars@.skip(i as int)) {
                Some(rest) => parsed(chars@) == Some(bytes@ + rest),
                None => parsed(chars@) is None,
            },
        decreases chars@.len() - i,
    {
        let ghost rest = chars@.skip(i as int);
        let ghost before = bytes@;
        let left: usize = chars.len() - i;
        if left < 4 {
            return None;
        }
        match read_group(&chars[i..i + 4]) {
            Some((n, count)) => {
                assert(rest.take(4) =~= chars@.subrange(i as int, i + 4));
                if left > 4 && count < 3 {
                    return None;
                }
                bytes.push((n / 65536) as u8);
                if count > 1 {
                    bytes.push((n / 256 % 256) as u8);
                }
                if count > 2 {
                    bytes.push((n % 256) as u8);
                }
                let ghost read = group(rest.take(4)).unwrap();
                assert(bytes@ =~= before + read);
                assert(rest.skip(4) =~= chars@.skip(i + 4));
                proof {
                    if left == 4 {
                        assert(chars@.skip(i + 4) =~= seq![]);
                        assert(bytes@ + Seq::<u8>::empty() =~= bytes@);
                    } else if parsed(rest.skip(4)) is Some {
                        let tail = parsed(rest.skip(4)).unwrap();
                        assert(before + (read + tail) =~= bytes@ + tail);
                    }
                }
                i += 4;
            },
            None => {
                assert(rest.take(4) =~= chars@.subrange(i as int, i + 4));
                return None;
            },
        }
    }
    assert(chars@.skip(i as int) =~= seq![]);
    assert(bytes@ + Seq::<u8>::empty() =~= bytes@);
    Some(bytes)
}

/// Each of the 64 characters stands for its place in the alphabet.
pub proof fn law_alphabet(n: nat)
    requires
        n < 64,
    ensures
        "ABCDEFGHIJKLMNOPQRSTUVWXYZabcdefghijklmnopqrstuvwxyz0123456789+/"@.len() == 64,
        symbol(n) == "ABCDEFGHIJKLMNOPQRSTUVWXYZabcdefghijklmnopqrstuvwxyz0123456789+/"@[n as int],
{
    reveal_strlit("ABCDEFGHIJKLMNOPQRSTUVWXYZabcdefghijklmnopqrstuvwxyz0123456789+/");
}

/// Three bytes are four characters: read as numbers, base 256 and base 64,
/// they are the same number. Two bytes and one are as if zeros followed, with
/// `=` for each character that would stand for zeros alone.
pub proof fn law_three_bytes_are_four_characters(
    a: u8,
    b: u8,
    c: u8,
    p: nat,
    q: nat,
    r: nat,
    s: nat,
)
    requires
        p < 64 && q < 64 && r < 64 && s < 64,
        ((p * 64 + q) * 64 + r) * 64 + s == (a * 256 + b) * 256 + c,
    ensures
        encoded(seq![a, b, c]) == seq![symbol(p), symbol(q), symbol(r), symbol(s)],
        c == 0 ==> encoded(seq![a, b]) == seq![symbol(p), symbol(q), symbol(r), '='],
        c == 0 && b == 0 ==> encoded(seq![a]) == seq![symbol(p), symbol(q), '=', '='],
{
    let n = (a * 65536 + b * 256 + c) as nat;
    lemma_digits(n, p, q, r, s);
    let four = seq![symbol(p), symbol(q), symbol(r), symbol(s)];
    assert(quad(n) =~= four);
    let none = Seq::<u8>::empty();
    assert(seq![a, b, c].skip(3) =~= none);
    assert(encoded(none) =~= Seq::<char>::empty());
    assert(encoded(seq![a, b, c]) =~= four + Seq::<char>::empty());
    if c == 0 {
        assert(encoded(seq![a, b]) =~= four.take(3) + seq!['=']);
        if b == 0 {
            assert(encoded(seq![a]) =~= four.take(2) + seq!['=', '=']);
        }
    }
}

/// The digits of a number in base 64.
proof fn lemma_digits(n: nat, p: nat, q: nat, r: nat, s: nat)
    requires
        p < 64 && q < 64 && r < 64 && s < 64,
        n == p * 262144 + q * 4096 + r * 64 + s,
    ensures
        n / 262144 == p,
        n / 4096 % 64 == q,
        n / 64 % 64 == r,
        n % 64 == s,
{
    assert(n / 262144 == p);
    assert(n / 4096 == p * 64 + q);
    assert(n / 64 == p * 4096 + q * 64 + r);
}

/// Bytes are encoded three by three, one group after another.
pub proof fn law_groups_are_encoded_in_turn(first: Seq<u8>, rest: Seq<u8>)
    requires
        first.len() == 3,
    ensures
        encoded(first + rest) == encoded(first) + encoded(rest),
        encoded(Seq::<u8>::empty()) == Seq::<char>::empty(),
{
    assert((first + rest).skip(3) =~= rest);
    assert(first.skip(3) =~= seq![]);
    assert(encoded(first.skip(3)) =~= seq![]);
    assert(encoded(first + rest) =~= encoded(first) + encoded(rest));
}

} // verus!
