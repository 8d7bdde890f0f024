//! The wire encoding shared by both ends of a lane.
//!
//! Both chains of a bridge must produce the same bytes for the same value. The byte
//! layout of every primitive is stated here; the bytes themselves are produced by
//! `parity-scale-codec`.

use vstd::prelude::*;

verus! {

/// The `width` lowest bytes of `value`, least significant byte first.
pub open spec fn le_bytes(value: nat, width: nat) -> Seq<u8>
    decreases width,
{
    if width == 0 {
        Seq::empty()
    } else {
        seq![(value % 256) as u8] + le_bytes(value / 256, (width - 1) as nat)
    }
}

/// Compact encoding of a 32-bit integer: the two lowest bits of the first byte select
/// between a one-, two-, four- and five-byte form.
pub open spec fn compact_encoding(value: u32) -> Seq<u8> {
    if value < 0x40 {
        le_bytes((value * 4) as nat, 1)
    } else if value < 0x4000 {
        le_bytes((value * 4 + 1) as nat, 2)
    } else if value < 0x4000_0000 {
        le_bytes((value * 4 + 2) as nat, 4)
    } else {
        seq![3u8] + le_bytes(value as nat, 4)
    }
}

/// Number of bytes that `compact_encoding` takes.
pub open spec fn compact_len(value: u32) -> nat {
    if value < 0x40 {
        1
    } else if value < 0x4000 {
        2
    } else if value < 0x4000_0000 {
        4
    } else {
        5
    }
}

/// A little-endian encoding has exactly as many bytes as were asked for.
pub proof fn lemma_le_bytes_len(value: nat, width: nat)
    ensures
        le_bytes(value, width).len() == width,
    decreases width,
{
    if width > 0 {
        lemma_le_bytes_len(value / 256, (width - 1) as nat);
    }
}

/// The compact encoding of a value is between one and five bytes long.
pub proof fn lemma_compact_encoding_len(value: u32)
    ensures
        compact_encoding(value).len() == compact_len(value),
        1 <= compact_len(value) <= 5,
{
    lemma_le_bytes_len((value * 4) as nat, 1);
    lemma_le_bytes_len((value * 4 + 1) as nat, 2);
    lemma_le_bytes_len((value * 4 + 2) as nat, 4);
    lemma_le_bytes_len(value as nat, 4);
}

/// A value with a deterministic byte encoding.
pub trait Encode {
    /// The bytes that stand for this value on the wire.
    spec fn encoding(&self) -> Seq<u8>;

    /// Appends the encoding of this value to `dest`.
    fn encode_to(&self, dest: &mut Vec<u8>)
        ensures
            final(dest)@ == old(dest)@ + self.encoding(),
    ;

    /// Returns the encoding of this value.
    fn encode(&self) -> (bytes: Vec<u8>)
        ensures
            bytes@ == self.encoding(),
    {
        let mut bytes: Vec<u8> = Vec::new();
        self.encode_to(&mut bytes);
        assert(Seq::<u8>::empty() + self.encoding() =~= self.encoding());
        bytes
    }
}

/// A value whose encoding has a length bound that is known without the value.
pub trait MaxEncodedLen: Encode {
    /// Upper bound of the length of the encoding of any value of this type.
    spec fn max_encoding_len() -> nat;

    /// Upper bound, in bytes, of the encoded size of a value of this type.
    fn max_encoded_len() -> (len: usize)
        ensures
            len == Self::max_encoding_len(),
    ;

    /// No value encodes to more bytes than the bound.
    proof fn lemma_encoding_fits(&self)
        ensures
            self.encoding().len() <= Self::max_encoding_len(),
    ;
}

/// Calls `Encode::encode_to` of `parity-scale-codec` on a `u64`, which appends the
/// eight bytes of `value.to_le_bytes()` to the output.
#[verifier::external_body]
pub(crate) fn encode_u64_to(value: u64, dest: &mut Vec<u8>)
    ensures
        final(dest)@ == old(dest)@ + le_bytes(value as nat, 8),
{
    parity_scale_codec::Encode::encode_to(&value, dest)
}

/// Calls `Encode::encode_to` of `parity-scale-codec` on `Compact<u32>`, which appends
/// the compact form of `value`: `value << 2` in one byte below 2^6, `value << 2 | 1`
/// as a little-endian `u16` below 2^14, `value << 2 | 2` as a little-endian `u32`
/// below 2^30, and otherwise the byte 3 followed by `value` as a little-endian `u32`.
#[verifier::external_body]
pub(crate) fn encode_compact_u32_to(value: u32, dest: &mut Vec<u8>)
    ensures
        final(dest)@ == old(dest)@ + compact_encoding(value),
{
    parity_scale_codec::Encode::encode_to(&parity_scale_codec::Compact(value), dest)
}

/// Calls `Encode::encode_to` of `parity-scale-codec` on an array of bytes, which
/// appends the bytes of the array, without a length prefix, to the output.
#[verifier::external_body]
pub(crate) fn encode_byte_array_to<const N: usize>(bytes: &[u8; N], dest: &mut Vec<u8>)
    ensures
        final(dest)@ == old(dest)@ + bytes@,
{
    parity_scale_codec::Encode::encode_to(bytes, dest)
}

/// Calls `MaxEncodedLen::max_encoded_len` of `parity-scale-codec` for `u64`, which
/// returns the size of a `u64` in memory: eight bytes.
#[verifier::external_body]
pub(crate) fn u64_max_encoded_len() -> (len: usize)
    ensures
        len == 8,
{
    <u64 as parity_scale_codec::MaxEncodedLen>::max_encoded_len()
}

impl Encode for u64 {
    open spec fn encoding(&self) -> Seq<u8> {
        le_bytes(*self as nat, 8)
    }

    fn encode_to(&self, dest: &mut Vec<u8>) {
        encode_u64_to(*self, dest)
    }
}

impl MaxEncodedLen for u64 {
    open spec fn max_encoding_len() -> nat {
        8
    }

    fn max_encoded_len() -> (len: usize) {
        u64_max_encoded_len()
    }

    proof fn lemma_encoding_fits(&self) {
        lemma_le_bytes_len(*self as nat, 8);
    }
}

/// A byte stands for itself on the wire.
impl Encode for u8 {
    open spec fn encoding(&self) -> Seq<u8> {
        seq![*self]
    }

    fn encode_to(&self, dest: &mut Vec<u8>) {
        dest.push(*self);
        assert(old(dest)@.push(*self) =~= old(dest)@ + seq![*self]);
    }
}

impl MaxEncodedLen for u8 {
    open spec fn max_encoding_len() -> nat {
        1
    }

    fn max_encoded_len() -> (len: usize) {
        1
    }

    proof fn lemma_encoding_fits(&self) {
    }
}

/// An array of bytes stands for itself on the wire.
impl<const N: usize> Encode for [u8; N] {
    open spec fn encoding(&self) -> Seq<u8> {
        self@
    }

    fn encode_to(&self, dest: &mut Vec<u8>) {
        encode_byte_array_to(self, dest)
    }
}

impl<const N: usize> MaxEncodedLen for [u8; N] {
    open spec fn max_encoding_len() -> nat {
        N as nat
    }

    fn max_encoded_len() -> (len: usize) {
        N
    }

    proof fn lemma_encoding_fits(&self) {
    }
}

/// A pair is encoded as its first part followed by its second part.
impl<First: Encode, Second: Encode> Encode for (First, Second) {
    open spec fn encoding(&self) -> Seq<u8> {
        self.0.encoding() + self.1.encoding()
    }

    fn encode_to(&self, dest: &mut Vec<u8>) {
        self.0.encode_to(dest);
        self.1.encode_to(dest);
        assert(final(dest)@ =~= old(dest)@ + self.encoding());
    }
}

/// The unit value takes no bytes on the wire.
impl Encode for () {
    open spec fn encoding(&self) -> Seq<u8> {
        Seq::empty()
    }

    fn encode_to(&self, dest: &mut Vec<u8>) {
        assert(old(dest)@ + Seq::<u8>::empty() =~= old(dest)@);
    }
}

impl MaxEncodedLen for () {
    open spec fn max_encoding_len() -> nat {
        0
    }

    fn max_encoded_len() -> (len: usize) {
        0
    }

    proof fn lemma_encoding_fits(&self) {
    }
}

/// Returns the number of bytes that the compact encoding of `value` takes.
pub fn compact_encoded_len(value: u32) -> (len: usize)
    ensures
        len == compact_len(value),
        len == compact_encoding(value).len(),
{
    proof {
        lemma_compact_encoding_len(value);
    }
    if value < 0x40 {
        1
    } else if value < 0x4000 {
        2
    } else if value < 0x4000_0000 {
        4
    } else {
        5
    }
}

/// Appends the compact length prefix of a sequence of `len` items to `dest`.
pub fn encode_len_prefix_to(len: u32, dest: &mut Vec<u8>)
    ensures
        final(dest)@ == old(dest)@ + compact_encoding(len),
        final(dest)@.len() == old(dest)@.len() + compact_len(len),
{
    proof {
        lemma_compact_encoding_len(len);
    }
    encode_compact_u32_to(len, dest);
}

} // verus!
