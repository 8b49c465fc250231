//! Binary-to-text codec over the conventional 62-symbol alphabet
//! (`0`-`9`, then `A`-`Z`, then `a`-`z`).
//!
//! `encode` turns a fixed-width byte sequence, read as one big-endian numeral,
//! into its base-62 digit string; `decode` recovers the exact bytes and fails
//! with [`InvalidEncoding`] on characters outside the alphabet or on values
//! that exceed the fixed width.
use vstd::prelude::*;

verus! {

use vstd::arithmetic::div_mod::lemma_fundamental_div_mod;
use vstd::arithmetic::div_mod::lemma_fundamental_div_mod_converse;
use vstd::arithmetic::power::pow;

/// Width, in bytes, of every sequence the codec encodes and decodes.
pub const ID_BYTES: usize = 8;

/// Error returned by [`decode`] when the input string is not the base-62
/// encoding of any byte sequence of the fixed width.
#[derive(Clone, Copy, Debug, PartialEq, Eq, Structural)]
pub struct InvalidEncoding;

/// Value of `c` as a base-62 digit under the conventional digit ordering,
/// or `-1` when `c` lies outside the alphabet.
pub open spec fn digit_of(c: char) -> int {
    if '0' as u32 <= c as u32 && c as u32 <= '9' as u32 {
        c as u32 - '0' as u32
    } else if 'A' as u32 <= c as u32 && c as u32 <= 'Z' as u32 {
        10 + c as u32 - 'A' as u32
    } else if 'a' as u32 <= c as u32 && c as u32 <= 'z' as u32 {
        36 + c as u32 - 'a' as u32
    } else {
        -1
    }
}

/// The character standing for the base-62 digit `d`.
pub open spec fn char_of(d: int) -> char {
    if d < 10 {
        (('0' as u8) + d) as u8 as char
    } else if d < 36 {
        (('A' as u8) + (d - 10)) as u8 as char
    } else {
        (('a' as u8) + (d - 36)) as u8 as char
    }
}

/// The base-62 digit string of `n`, most significant digit first, with no
/// leading zero digits (`0` itself is the single digit `0`).
pub open spec fn spec_digits(n: nat) -> Seq<char>
    decreases n,
{
    if n < 62 {
        seq![char_of(n as int)]
    } else {
        spec_digits(n / 62).push(char_of((n % 62) as int))
    }
}

/// The value of the byte sequence `b` read as one big-endian numeral.
pub open spec fn be_val(b: Seq<u8>) -> nat
    decreases b.len(),
{
    if b.len() == 0 {
        0
    } else {
        (be_val(b.drop_last()) * 256 + b.last()) as nat
    }
}

/// The `len`-byte big-endian representation of `n % 256^len`.
pub open spec fn spec_be_bytes(n: nat, len: nat) -> Seq<u8>
    decreases len,
{
    if len == 0 {
        Seq::empty()
    } else {
        spec_be_bytes(n / 256, (len - 1) as nat).push((n % 256) as u8)
    }
}

/// What [`encode`] returns: the digit string of the bytes' big-endian value.
pub open spec fn spec_encode(b: Seq<u8>) -> Seq<char> {
    spec_digits(be_val(b))
}

/// Whether every character of `s` belongs to the 62-symbol alphabet.
pub open spec fn all_base62(s: Seq<char>) -> bool {
    forall|i: int| 0 <= i < s.len() ==> digit_of(#[trigger] s[i]) >= 0
}

/// The value of `s` read as a base-62 numeral, most significant digit first.
/// Meaningful only when `all_base62(s)` holds.
pub open spec fn spec_val62(s: Seq<char>) -> int
    decreases s.len(),
{
    if s.len() == 0 {
        0
    } else {
        spec_val62(s.drop_last()) * 62 + digit_of(s.last())
    }
}

/// Relies on `String::push`: it appends exactly the given character.
#[verifier::external_body]
pub(crate) fn push_char(s: &mut String, c: char)
    ensures
        final(s)@ == old(s)@.push(c),
{
    s.push(c);
}

/// The character standing for the base-62 digit `d`.
fn char_for_digit(d: u8) -> (c: char)
    requires
        d < 62,
    ensures
        c == char_of(d as int),
{
    if d < 10 {
        (('0' as u8) + d) as char
    } else if d < 36 {
        (('A' as u8) + (d - 10)) as char
    } else {
        (('a' as u8) + (d - 36)) as char
    }
}

/// The base-62 digit of `c`, or `None` when `c` is outside the alphabet.
fn digit_for_char(c: char) -> (d: Option<u8>)
    ensures
        match d {
            Some(v) => v < 62 && digit_of(c) == v as int,
            None => digit_of(c) == -1,
        },
{
    let u: u32 = c as u32;
    if '0' as u32 <= u && u <= '9' as u32 {
        Some((u - '0' as u32) as u8)
    } else if 'A' as u32 <= u && u <= 'Z' as u32 {
        Some((10 + u - 'A' as u32) as u8)
    } else if 'a' as u32 <= u && u <= 'z' as u32 {
        Some((36 + u - 'a' as u32) as u8)
    } else {
        None
    }
}

/// The base-62 digit string of `n`, most significant digit first.
fn encode_num(n: u64) -> (s: String)
    ensures
        s@ == spec_digits(n as nat),
    decreases n,
{
    if n < 62 {
        let mut s = String::new();
        push_char(&mut s, char_for_digit(n as u8));
        proof {
            assert(s@ =~= spec_digits(n as nat));
        }
        s
    } else {
        let mut s = encode_num(n / 62);
        push_char(&mut s, char_for_digit((n % 62) as u8));
        proof {
            assert(s@ =~= spec_digits(n as nat));
        }
        s
    }
}

/// The value of the fixed-width byte sequence `bytes`, read big-endian.
fn be_val_exec(bytes: &Vec<u8>) -> (v: u64)
    requires
        bytes@.len() == ID_BYTES,
    ensures
        v as nat == be_val(bytes@),
{
    proof {
        lemma_pow256_values();
    }
    let mut v: u64 = 0;
    let mut i: usize = 0;
    while i < ID_BYTES
        invariant
            i <= ID_BYTES,
            bytes@.len() == ID_BYTES,
            v as nat == be_val(bytes@.take(i as int)),
            v < pow(256, i as nat),
            pow(256, 8) == 0x1_0000_0000_0000_0000,
        decreases ID_BYTES - i,
    {
        proof {
            lemma_pow256_values();
            assert(bytes@.take(i + 1).drop_last() =~= bytes@.take(i as int));
            assert(bytes@.take(i + 1).last() == bytes@[i as int]);
        }
        v = v * 256 + (bytes[i] as u64);
        i = i + 1;
    }
    proof {
        assert(bytes@.take(ID_BYTES as int) =~= bytes@);
    }
    v
}

/// The values of the first powers of 256, up to the fixed byte width.
proof fn lemma_pow256_values()
    ensures
        pow(256, 0) == 1,
        pow(256, 1) == 0x100,
        pow(256, 2) == 0x1_0000,
        pow(256, 3) == 0x100_0000,
        pow(256, 4) == 0x1_0000_0000,
        pow(256, 5) == 0x100_0000_0000,
        pow(256, 6) == 0x1_0000_0000_0000,
        pow(256, 7) == 0x100_0000_0000_0000,
        pow(256, 8) == 0x1_0000_0000_0000_0000,
{
    reveal_with_fuel(pow, 9);
    assert(pow(256, 0) == 1);
    assert(pow(256, 1) == 256 * pow(256, 0));
    assert(pow(256, 2) == 256 * pow(256, 1));
    assert(pow(256, 3) == 256 * pow(256, 2));
    assert(pow(256, 4) == 256 * pow(256, 3));
    assert(pow(256, 5) == 256 * pow(256, 4));
    assert(pow(256, 6) == 256 * pow(256, 5));
    assert(pow(256, 7) == 256 * pow(256, 6));
    assert(pow(256, 8) == 256 * pow(256, 7));
}

/// Encode the fixed-width byte sequence `bytes`, read as one big-endian
/// numeral, into its base-62 digit string.
pub fn encode(bytes: &Vec<u8>) -> (r: String)
    requires
        bytes@.len() == ID_BYTES,
    ensures
        r@ == spec_encode(bytes@),
{
    let val = be_val_exec(bytes);
    encode_num(val)
}

/// The little-endian bytes of `n`, to a width of `len`: least significant
/// byte first.
pub open spec fn spec_le_bytes_n(n: nat, len: nat) -> Seq<u8>
    decreases len,
{
    if len == 0 {
        Seq::empty()
    } else {
        seq![(n % 256) as u8] + spec_le_bytes_n(n / 256, (len - 1) as nat)
    }
}

/// The fixed-width little-endian byte representation of `v`.
pub open spec fn spec_le_bytes(v: u64) -> Seq<u8> {
    spec_le_bytes_n(v as nat, ID_BYTES as nat)
}

/// The fixed-width little-endian bytes of `v`, least significant first.
pub fn le_bytes_of(v: u64) -> (r: Vec<u8>)
    ensures
        r@ == spec_le_bytes(v),
        r@.len() == ID_BYTES,
{
    let mut out: Vec<u8> = Vec::new();
    let mut cur: u64 = v;
    let mut i: usize = 0;
    proof {
        assert(Seq::<u8>::empty() + spec_le_bytes_n(v as nat, ID_BYTES as nat) =~= spec_le_bytes(
            v,
        ));
    }
    while i < ID_BYTES
        invariant
            i <= ID_BYTES,
            out@.len() == i,
            spec_le_bytes(v) == out@ + spec_le_bytes_n(cur as nat, (ID_BYTES - i) as nat),
        decreases ID_BYTES - i,
    {
        proof {
            assert(spec_le_bytes_n(cur as nat, (ID_BYTES - i) as nat) == seq![
                (cur as nat % 256) as u8,
            ] + spec_le_bytes_n(cur as nat / 256, (ID_BYTES - i - 1) as nat));
            assert(out@ + (seq![(cur as nat % 256) as u8] + spec_le_bytes_n(
                cur as nat / 256,
                (ID_BYTES - i - 1) as nat,
            )) =~= out@.push((cur as nat % 256) as u8) + spec_le_bytes_n(
                cur as nat / 256,
                (ID_BYTES - i - 1) as nat,
            ));
        }
        out.push((cur % 256) as u8);
        cur = cur / 256;
        i = i + 1;
    }
    proof {
        assert(out@ + spec_le_bytes_n(cur as nat, 0) =~= out@);
    }
    out
}

/// A base-62 numeral is never negative.
proof fn lemma_val62_nonneg(s: Seq<char>)
    requires
        all_base62(s),
    ensures
        spec_val62(s) >= 0,
    decreases s.len(),
{
    if s.len() > 0 {
        assert(all_base62(s.drop_last())) by {
            assert(forall|i: int|
                0 <= i < s.len() - 1 ==> digit_of(#[trigger] s.drop_last()[i]) == digit_of(s[i]));
        }
        lemma_val62_nonneg(s.drop_last());
    }
}

/// Reading one more digit multiplies the prefix value by the base and adds
/// that digit.
proof fn lemma_val62_take_succ(s: Seq<char>, i: int)
    requires
        0 <= i < s.len(),
    ensures
        spec_val62(s.take(i + 1)) == spec_val62(s.take(i)) * 62 + digit_of(s[i]),
{
    assert(s.take(i + 1).drop_last() =~= s.take(i));
    assert(s.take(i + 1).last() == s[i]);
}

/// When every digit is valid, the value of the whole numeral is at least the
/// value of any prefix.
proof fn lemma_val62_prefix_le(s: Seq<char>, i: int)
    requires
        0 <= i <= s.len(),
        all_base62(s),
    ensures
        spec_val62(s) >= spec_val62(s.take(i)),
    decreases s.len() - i,
{
    if i == s.len() {
        assert(s.take(i) =~= s);
    } else {
        assert(all_base62(s.take(i))) by {
            assert(forall|j: int|
                0 <= j < i ==> digit_of(#[trigger] s.take(i)[j]) == digit_of(s[j]));
        }
        lemma_val62_nonneg(s.take(i));
        lemma_val62_take_succ(s, i);
        lemma_val62_prefix_le(s, i + 1);
    }
}

/// The `len`-byte big-endian representation of `n`, least significant byte
/// written last.
fn be_bytes_rec(n: u64, len: usize) -> (r: Vec<u8>)
    ensures
        r@ == spec_be_bytes(n as nat, len as nat),
        r@.len() == len,
    decreases len,
{
    if len == 0 {
        let v: Vec<u8> = Vec::new();
        proof {
            assert(v@ =~= spec_be_bytes(n as nat, 0));
        }
        v
    } else {
        let mut v = be_bytes_rec(n / 256, len - 1);
        v.push((n % 256) as u8);
        proof {
            assert(v@ =~= spec_be_bytes(n as nat, len as nat));
        }
        v
    }
}

/// Decode a base-62 string back into the fixed-width byte sequence it
/// encodes. Fails with [`InvalidEncoding`] exactly when the string holds a
/// character outside the alphabet or its value exceeds the fixed width.
pub fn decode(s: &str) -> (r: Result<Vec<u8>, InvalidEncoding>)
    ensures
        match r {
            Ok(b) => {
                &&& all_base62(s@)
                &&& spec_val62(s@) < pow(256, ID_BYTES as nat)
                &&& b@.len() == ID_BYTES
                &&& b@ == spec_be_bytes(spec_val62(s@) as nat, ID_BYTES as nat)
                &&& be_val(b@) == spec_val62(s@)
            },
            Err(e) => {
                &&& !all_base62(s@) || spec_val62(s@) >= pow(256, ID_BYTES as nat)
                &&& e == (InvalidEncoding {})
            },
        },
{
    proof {
        lemma_pow256_values();
    }
    let len = s.unicode_len();
    let mut i: usize = 0;
    let mut val: u64 = 0;
    while i < len
        invariant
            i <= len,
            len == s@.len(),
            all_base62(s@.take(i as int)),
            val as int == spec_val62(s@.take(i as int)),
        decreases len - i,
    {
        let c = s.get_char(i);
        match digit_for_char(c) {
            None => {
                proof {
                    assert(digit_of(s@[i as int]) == -1);
                    assert(!all_base62(s@));
                }
                return Err(InvalidEncoding {});
            },
            Some(d) => {
                if val > (u64::MAX - (d as u64)) / 62 {
                    proof {
                        lemma_pow256_values();
                        lemma_fundamental_div_mod((u64::MAX - (d as u64)) as int, 62);
                        lemma_val62_take_succ(s@, i as int);
                        assert(spec_val62(s@.take(i + 1)) >= 0x1_0000_0000_0000_0000);
                        if all_base62(s@) {
                            lemma_val62_prefix_le(s@, i + 1);
                        }
                    }
                    return Err(InvalidEncoding {});
                }
                proof {
                    lemma_fundamental_div_mod((u64::MAX - (d as u64)) as int, 62);
                    lemma_val62_take_succ(s@, i as int);
                }
                val = val * 62 + (d as u64);
            },
        }
        i = i + 1;
    }
    proof {
        assert(s@.take(len as int) =~= s@);
        lemma_pow256_values();
    }
    let b = be_bytes_rec(val, ID_BYTES);
    proof {
        lemma_be_bytes_val(val as nat, ID_BYTES as nat);
        lemma_pow256_values();
    }
    Ok(b)
}

/// The digit characters map back to the digits they stand for.
proof fn lemma_char_digit_roundtrip(d: int)
    requires
        0 <= d < 62,
    ensures
        digit_of(char_of(d)) == d,
{
}

/// Every character of a digit string is in the alphabet, and the string reads
/// back to the number it was made from.
proof fn lemma_digits_valid(n: nat)
    ensures
        all_base62(spec_digits(n)),
        spec_val62(spec_digits(n)) == n,
    decreases n,
{
    if n < 62 {
        lemma_char_digit_roundtrip(n as int);
        let s = spec_digits(n);
        assert(s.drop_last() =~= Seq::<char>::empty());
        assert(s.last() == char_of(n as int));
        assert(spec_val62(s) == spec_val62(s.drop_last()) * 62 + digit_of(s.last()));
    } else {
        lemma_digits_valid(n / 62);
        lemma_char_digit_roundtrip((n % 62) as int);
        let s = spec_digits(n);
        assert(s.drop_last() =~= spec_digits(n / 62));
        assert(forall|i: int| 0 <= i < s.len() ==> digit_of(#[trigger] s[i]) >= 0) by {
            assert(forall|i: int|
                0 <= i < s.len() - 1 ==> #[trigger] s[i] == spec_digits(n / 62)[i]);
        }
        assert(spec_val62(s) == spec_val62(s.drop_last()) * 62 + digit_of(s.last()));
        assert(digit_of(s.last()) == n % 62);
        assert(spec_val62(s.drop_last()) == n / 62);
        lemma_fundamental_div_mod(n as int, 62);
        assert(spec_val62(s) == (n / 62) * 62 + (n % 62));
    }
}

/// A byte sequence's big-endian value stays below the range of its width.
proof fn lemma_be_val_bound(b: Seq<u8>)
    ensures
        be_val(b) < pow(256, b.len()),
    decreases b.len(),
{
    if b.len() == 0 {
        reveal_with_fuel(pow, 1);
    } else {
        lemma_be_val_bound(b.drop_last());
        assert(pow(256, b.len()) == 256 * pow(256, (b.len() - 1) as nat)) by {
            reveal_with_fuel(pow, 2);
        }
    }
}

/// The big-endian bytes of a byte sequence's own value are that sequence.
proof fn lemma_be_bytes_of_val(b: Seq<u8>)
    ensures
        spec_be_bytes(be_val(b), b.len()) == b,
    decreases b.len(),
{
    if b.len() == 0 {
        assert(spec_be_bytes(be_val(b), 0) =~= b);
    } else {
        let n = be_val(b);
        lemma_fundamental_div_mod_converse(
            n as int,
            256,
            be_val(b.drop_last()) as int,
            b.last() as int,
        );
        lemma_be_bytes_of_val(b.drop_last());
        assert(spec_be_bytes(n, b.len()) =~= b);
    }
}

/// Round trip: the encoding of any fixed-width byte sequence is made of
/// alphabet characters only, reads back to the bytes' own big-endian value,
/// and that value lies within the fixed width, so decoding it yields exactly
/// the original bytes.
pub proof fn lemma_encode_decode_roundtrip(b: Seq<u8>)
    requires
        b.len() == ID_BYTES,
    ensures
        all_base62(spec_encode(b)),
        spec_val62(spec_encode(b)) == be_val(b),
        be_val(b) < pow(256, ID_BYTES as nat),
        spec_be_bytes(spec_val62(spec_encode(b)) as nat, ID_BYTES as nat) == b,
{
    lemma_digits_valid(be_val(b));
    lemma_be_val_bound(b);
    lemma_be_bytes_of_val(b);
}

/// A little-endian representation has exactly the width it was asked for.
proof fn lemma_le_bytes_n_len(n: nat, len: nat)
    ensures
        spec_le_bytes_n(n, len).len() == len,
    decreases len,
{
    if len > 0 {
        lemma_le_bytes_n_len(n / 256, (len - 1) as nat);
    }
}

/// Round trip for a 64-bit value: the encoding of its little-endian bytes is
/// made of alphabet characters only and decodes back to exactly those bytes.
pub proof fn lemma_value_roundtrip(v: u64)
    ensures
        spec_le_bytes(v).len() == ID_BYTES,
        all_base62(spec_encode(spec_le_bytes(v))),
        spec_val62(spec_encode(spec_le_bytes(v))) < pow(256, ID_BYTES as nat),
        spec_be_bytes(spec_val62(spec_encode(spec_le_bytes(v))) as nat, ID_BYTES as nat)
            == spec_le_bytes(v),
{
    lemma_le_bytes_n_len(v as nat, ID_BYTES as nat);
    lemma_encode_decode_roundtrip(spec_le_bytes(v));
}

/// The big-endian bytes of a value below the width's range hold exactly that
/// value.
proof fn lemma_be_bytes_val(n: nat, len: nat)
    requires
        n < pow(256, len),
    ensures
        be_val(spec_be_bytes(n, len)) == n,
    decreases len,
{
    if len == 0 {
        reveal_with_fuel(pow, 1);
    } else {
        assert(pow(256, len) == 256 * pow(256, (len - 1) as nat)) by {
            reveal_with_fuel(pow, 2);
        }
        vstd::arithmetic::div_mod::lemma_div_pos_is_pos(n as int, 256);
        vstd::arithmetic::div_mod::lemma_multiply_divide_lt(n as int, 256, pow(
            256,
            (len - 1) as nat,
        ));
        lemma_be_bytes_val(n / 256, (len - 1) as nat);
        let b = spec_be_bytes(n, len);
        assert(b.drop_last() =~= spec_be_bytes(n / 256, (len - 1) as nat));
        lemma_fundamental_div_mod(n as int, 256);
    }
}

} // verus!
