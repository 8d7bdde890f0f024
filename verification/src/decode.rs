//! Reading values back from their wire encoding.
//!
//! A decoder reads one value from the head of its input and says how many bytes stand
//! for it. It finds the value whenever the input begins with the encoding of one, and
//! since no encoding continues another, it finds the only such value.

use crate::codec::compact_encoding;
use crate::codec::le_bytes;
use crate::codec::lemma_le_bytes_len;
use crate::codec::Encode;
use vstd::arithmetic::div_mod::lemma_breakdown;
use vstd::prelude::*;
use vstd::slice::slice_subrange;

verus! {

/// Whether `input` begins with the bytes `head`.
pub open spec fn begins_with(input: Seq<u8>, head: Seq<u8>) -> bool {
    head.len() <= input.len() && input.subrange(0, head.len() as int) == head
}

/// The number that the bytes `bytes` stand for, least significant byte first.
pub open spec fn le_value(bytes: Seq<u8>) -> nat
    decreases bytes.len(),
{
    if bytes.len() == 0 {
        0
    } else {
        bytes[0] as nat + 256 * le_value(bytes.drop_first())
    }
}

/// The number of values that `width` bytes can tell apart: 256 to the power of `width`.
pub open spec fn le_bound(width: nat) -> nat
    decreases width,
{
    if width == 0 {
        1
    } else {
        256 * le_bound((width - 1) as nat)
    }
}

/// A value with a deterministic byte encoding that can be read back from it.
pub trait Decode: Encode + Sized {
    /// Reads a value from the head of `input`. Returns the value and the number of
    /// the bytes that stand for it, or `None` if the input does not begin with the
    /// encoding of any value.
    fn decode(input: &[u8]) -> (result: Option<(Self, usize)>)
        ensures
            match result {
                Some((value, consumed)) => consumed == value.encoding().len() && begins_with(
                    input@,
                    value.encoding(),
                ),
                None => forall|value: Self| !begins_with(input@, #[trigger] value.encoding()),
            },
    ;

    /// No encoding of a value continues the encoding of another value, and no two
    /// values share an encoding.
    proof fn lemma_encoding_is_prefix_free(first: Self, second: Self)
        requires
            begins_with(first.encoding(), second.encoding()),
        ensures
            first == second,
    ;
}

/// An input begins with the encoding of one value at the most.
pub proof fn lemma_decoded_value_is_unique<T: Decode>(input: Seq<u8>, first: T, second: T)
    requires
        begins_with(input, first.encoding()),
        begins_with(input, second.encoding()),
    ensures
        first == second,
{
    let a = first.encoding();
    let b = second.encoding();
    if a.len() <= b.len() {
        assert(b.subrange(0, a.len() as int) =~= input.subrange(0, a.len() as int));
        T::lemma_encoding_is_prefix_free(second, first);
    } else {
        assert(a.subrange(0, b.len() as int) =~= input.subrange(0, b.len() as int));
        T::lemma_encoding_is_prefix_free(first, second);
    }
}

/// Decoding inverts encoding: whatever a decoder returns for an input that begins
/// with the encoding of `value` is that value and the length of its encoding.
pub proof fn lemma_decode_inverts_encode<T: Decode>(
    value: T,
    input: Seq<u8>,
    decoded: Option<(T, usize)>,
)
    requires
        begins_with(input, value.encoding()),
        match decoded {
            Some((found, consumed)) => consumed == found.encoding().len() && begins_with(
                input,
                found.encoding(),
            ),
            None => forall|any: T| !begins_with(input, #[trigger] any.encoding()),
        },
    ensures
        decoded matches Some((found, consumed)) && found == value && consumed
            == value.encoding().len(),
{
    match decoded {
        Some((found, consumed)) => {
            lemma_decoded_value_is_unique(input, found, value);
        },
        None => {},
    }
}

/// The bytes of a number stand for that number again, as far as they reach: for its
/// remainder by the number of values that so many bytes can tell apart.
pub proof fn lemma_le_value_of_le_bytes(value: nat, width: nat)
    ensures
        le_value(le_bytes(value, width)) == value % le_bound(width),
        le_bound(width) > 0,
    decreases width,
{
    if width > 0 {
        let rest = le_bytes(value / 256, (width - 1) as nat);
        lemma_le_value_of_le_bytes(value / 256, (width - 1) as nat);
        assert(le_bytes(value, width).drop_first() =~= rest);
        assert(le_bytes(value, width)[0] == (value % 256) as u8);
        let bound = le_bound((width - 1) as nat);
        lemma_breakdown(value as int, 256, bound as int);
        assert(256 * bound == le_bound(width));
    }
}

/// Two numbers below the bound of `width` bytes that have the same bytes are the same.
pub proof fn lemma_le_bytes_is_injective(first: nat, second: nat, width: nat)
    requires
        first < le_bound(width),
        second < le_bound(width),
        le_bytes(first, width) == le_bytes(second, width),
    ensures
        first == second,
{
    lemma_le_value_of_le_bytes(first, width);
    lemma_le_value_of_le_bytes(second, width);
    vstd::arithmetic::div_mod::lemma_small_mod(first, le_bound(width));
    vstd::arithmetic::div_mod::lemma_small_mod(second, le_bound(width));
}

/// The bounds of one, two, four and eight bytes.
pub proof fn lemma_le_bounds()
    ensures
        le_bound(1) == 0x100,
        le_bound(2) == 0x1_0000,
        le_bound(4) == 0x1_0000_0000,
        le_bound(8) == 0x1_0000_0000_0000_0000,
{
    reveal_with_fuel(le_bound, 9);
}

/// Calls `Decode::decode` of `parity-scale-codec` for `u64` on a slice of bytes, which
/// fails on less than eight bytes and else returns the number whose
/// `to_le_bytes()` are the first eight bytes of the slice.
#[verifier::external_body]
pub(crate) fn decode_u64(input: &[u8]) -> (result: Option<u64>)
    ensures
        result is Some <==> input@.len() >= 8,
        result matches Some(value) ==> le_bytes(value as nat, 8) == input@.subrange(0, 8),
{
    let mut rest = input;
    <u64 as parity_scale_codec::Decode>::decode(&mut rest).ok()
}

/// Calls `Decode::decode` of `parity-scale-codec` for `Compact<u32>` on a slice of
/// bytes, which returns the number whose compact form the slice begins with, and
/// fails if it begins with none: on too few bytes, and on a form that is longer than
/// its number needs.
#[verifier::external_body]
pub(crate) fn decode_compact_u32(input: &[u8]) -> (result: Option<u32>)
    ensures
        match result {
            Some(value) => begins_with(input@, compact_encoding(value)),
            None => forall|value: u32| !begins_with(input@, #[trigger] compact_encoding(value)),
        },
{
    let mut rest = input;
    <parity_scale_codec::Compact<u32> as parity_scale_codec::Decode>::decode(&mut rest)
        .ok()
        .map(|compact| compact.0)
}

/// Calls `Decode::decode` of `parity-scale-codec` for an array of bytes on a slice of
/// bytes, which fails on less bytes than the array holds and else returns the first
/// bytes of the slice.
#[verifier::external_body]
pub(crate) fn decode_byte_array<const N: usize>(input: &[u8]) -> (result: Option<[u8; N]>)
    ensures
        result is Some <==> input@.len() >= N,
        result matches Some(bytes) ==> bytes@ == input@.subrange(0, N as int),
{
    let mut rest = input;
    <[u8; N] as parity_scale_codec::Decode>::decode(&mut rest).ok()
}

impl Decode for u64 {
    fn decode(input: &[u8]) -> (result: Option<(Self, usize)>) {
        proof {
            assert forall|value: u64| input@.len() < 8 implies !begins_with(
                input@,
                #[trigger] value.encoding(),
            ) by {
                lemma_le_bytes_len(value as nat, 8);
            }
        }
        match decode_u64(input) {
            Some(value) => {
                proof {
                    lemma_le_bytes_len(value as nat, 8);
                }
                Some((value, 8))
            },
            None => None,
        }
    }

    proof fn lemma_encoding_is_prefix_free(first: Self, second: Self) {
        lemma_le_bytes_len(first as nat, 8);
        lemma_le_bytes_len(second as nat, 8);
        lemma_le_bounds();
        assert(first.encoding().subrange(0, 8) =~= first.encoding());
        lemma_le_bytes_is_injective(first as nat, second as nat, 8);
    }
}

impl Decode for u8 {
    fn decode(input: &[u8]) -> (result: Option<(Self, usize)>) {
        if input.len() == 0 {
            None
        } else {
            let value: u8 = input[0];
            assert(input@.subrange(0, 1) =~= seq![value]);
            Some((value, 1))
        }
    }

    proof fn lemma_encoding_is_prefix_free(first: Self, second: Self) {
        assert(first.encoding().subrange(0, 1)[0] == first);
        assert(second.encoding()[0] == second);
    }
}

impl Decode for () {
    fn decode(input: &[u8]) -> (result: Option<(Self, usize)>) {
        assert(input@.subrange(0, 0) =~= Seq::<u8>::empty());
        Some(((), 0))
    }

    proof fn lemma_encoding_is_prefix_free(first: Self, second: Self) {
    }
}

impl<const N: usize> Decode for [u8; N] {
    fn decode(input: &[u8]) -> (result: Option<(Self, usize)>) {
        match decode_byte_array::<N>(input) {
            Some(bytes) => Some((bytes, N)),
            None => None,
        }
    }

    proof fn lemma_encoding_is_prefix_free(first: Self, second: Self) {
        assert(first@.subrange(0, N as int) =~= first@);
        assert(first@ =~= second@);
        assert(first =~= second);
    }
}

/// Reads a value from `input`, all of which must stand for it. Returns the value whose
/// encoding `input` is, or `None` if it is the encoding of no value.
pub fn decode_all<T: Decode>(input: &[u8]) -> (result: Option<T>)
    ensures
        match result {
            Some(value) => input@ == value.encoding(),
            None => forall|value: T| input@ != #[trigger] value.encoding(),
        },
{
    match T::decode(input) {
        Some((value, consumed)) => {
            if consumed == input.len() {
                assert(input@.subrange(0, consumed as int) =~= input@);
                Some(value)
            } else {
                proof {
                    assert forall|other: T| input@ != #[trigger] other.encoding() by {
                        if input@ == other.encoding() {
                            assert(input@.subrange(0, input@.len() as int) =~= input@);
                            lemma_decoded_value_is_unique(input@, value, other);
                        }
                    }
                }
                None
            }
        },
        None => {
            proof {
                assert forall|other: T| input@ != #[trigger] other.encoding() by {
                    if input@ == other.encoding() {
                        assert(input@.subrange(0, input@.len() as int) =~= input@);
                    }
                }
            }
            None
        },
    }
}

/// The input without its first `count` bytes.
pub fn skip_bytes(input: &[u8], count: usize) -> (rest: &[u8])
    requires
        count <= input@.len(),
    ensures
        rest@ == input@.skip(count as int),
{
    let rest = slice_subrange(input, count, input.len());
    assert(rest@ =~= input@.skip(count as int));
    rest
}

/// An input begins with two runs of bytes, one after the other, exactly if it begins
/// with the first and goes on with the second.
pub proof fn lemma_begins_with_both(input: Seq<u8>, first: Seq<u8>, second: Seq<u8>)
    ensures
        begins_with(input, first + second) <==> begins_with(input, first) && begins_with(
            input.skip(first.len() as int),
            second,
        ),
{
    let both = first + second;
    if begins_with(input, both) {
        assert(input.subrange(0, first.len() as int) =~= both.subrange(0, first.len() as int));
        assert(both.subrange(0, first.len() as int) =~= first);
        assert(input.skip(first.len() as int).subrange(0, second.len() as int) =~= both.subrange(
            first.len() as int,
            both.len() as int,
        ));
        assert(both.subrange(first.len() as int, both.len() as int) =~= second);
    }
    if begins_with(input, first) && begins_with(input.skip(first.len() as int), second) {
        assert(input.subrange(0, both.len() as int) =~= input.subrange(0, first.len() as int)
            + input.skip(first.len() as int).subrange(0, second.len() as int));
    }
}

impl<First: Decode, Second: Decode> Decode for (First, Second) {
    fn decode(input: &[u8]) -> (result: Option<(Self, usize)>) {
        let input_len: usize = input.len();
        match First::decode(input) {
            Some((first, first_len)) => {
                let rest = skip_bytes(input, first_len);
                match Second::decode(rest) {
                    Some((second, second_len)) => {
                        proof {
                            lemma_begins_with_both(input@, first.encoding(), second.encoding());
                            assert(rest@.len() == input_len - first_len);
                        }
                        Some(((first, second), first_len + second_len))
                    },
                    None => {
                        proof {
                            assert forall|value: Self| !begins_with(
                                input@,
                                #[trigger] value.encoding(),
                            ) by {
                                lemma_begins_with_both(
                                    input@,
                                    value.0.encoding(),
                                    value.1.encoding(),
                                );
                                if begins_with(input@, value.0.encoding()) {
                                    lemma_decoded_value_is_unique(input@, first, value.0);
                                }
                            }
                        }
                        None
                    },
                }
            },
            None => {
                proof {
                    assert forall|value: Self| !begins_with(input@, #[trigger] value.encoding()) by {
                        lemma_begins_with_both(input@, value.0.encoding(), value.1.encoding());
                    }
                }
                None
            },
        }
    }

    proof fn lemma_encoding_is_prefix_free(first: Self, second: Self) {
        lemma_begins_with_both(first.encoding(), second.0.encoding(), second.1.encoding());
        lemma_begins_with_both(first.encoding(), first.0.encoding(), first.1.encoding());
        assert(first.encoding().subrange(0, first.encoding().len() as int) =~= first.encoding());
        lemma_decoded_value_is_unique(first.encoding(), first.0, second.0);
        lemma_decoded_value_is_unique(
            first.encoding().skip(first.0.encoding().len() as int),
            first.1,
            second.1,
        );
    }
}

/// No compact encoding of a number continues the compact encoding of another number,
/// and no two numbers share a compact encoding.
pub proof fn lemma_compact_encoding_is_prefix_free(first: u32, second: u32)
    requires
        begins_with(compact_encoding(first), compact_encoding(second)),
    ensures
        first == second,
{
    let a = compact_encoding(first);
    let b = compact_encoding(second);
    crate::codec::lemma_compact_encoding_len(first);
    crate::codec::lemma_compact_encoding_len(second);
    reveal_with_fuel(le_bytes, 2);
    assert(a[0] == a.subrange(0, b.len() as int)[0]);
    assert(a[0] == b[0]);
    assert(a[0] % 4 == b[0] % 4);
    assert(a.len() == b.len());
    assert(a.subrange(0, b.len() as int) =~= a);
    lemma_le_bounds();
    if first < 0x40 {
        lemma_le_bytes_is_injective((first * 4) as nat, (second * 4) as nat, 1);
    } else if first < 0x4000 {
        lemma_le_bytes_is_injective((first * 4 + 1) as nat, (second * 4 + 1) as nat, 2);
    } else if first < 0x4000_0000 {
        lemma_le_bytes_is_injective((first * 4 + 2) as nat, (second * 4 + 2) as nat, 4);
    } else {
        assert(a.drop_first() =~= le_bytes(first as nat, 4));
        assert(b.drop_first() =~= le_bytes(second as nat, 4));
        lemma_le_bytes_is_injective(first as nat, second as nat, 4);
    }
}

/// An input begins with the compact encoding of one number at the most.
pub proof fn lemma_decoded_len_prefix_is_unique(
    input: Seq<u8>,
    first: u32,
    second: u32,
)
    requires
        begins_with(input, compact_encoding(first)),
        begins_with(input, compact_encoding(second)),
    ensures
        first == second,
{
    let a = compact_encoding(first);
    let b = compact_encoding(second);
    if a.len() <= b.len() {
        assert(b.subrange(0, a.len() as int) =~= input.subrange(0, a.len() as int));
        lemma_compact_encoding_is_prefix_free(second, first);
    } else {
        assert(a.subrange(0, b.len() as int) =~= input.subrange(0, b.len() as int));
        lemma_compact_encoding_is_prefix_free(first, second);
    }
}

/// Reads the compact length prefix of a sequence from the head of `input`. Returns
/// the length and the number of the bytes that stand for it, or `None` if the input
/// does not begin with the compact encoding of any length.
pub fn decode_len_prefix(input: &[u8]) -> (result: Option<(u32, usize)>)
    ensures
        match result {
            Some((len, consumed)) => consumed == compact_encoding(len).len() && begins_with(
                input@,
                compact_encoding(len),
            ),
            None => forall|len: u32| !begins_with(input@, #[trigger] compact_encoding(len)),
        },
{
    match decode_compact_u32(input) {
        Some(len) => Some((len, crate::codec::compact_encoded_len(len))),
        None => None,
    }
}

} // verus!
