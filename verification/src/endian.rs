//! Fixed-width unsigned integers that carry their byte order in their type.

use core::marker::PhantomData;
use vstd::prelude::*;

verus! {

/// 256 to the power `n`: the number of values that `n` bytes can hold.
pub open spec fn pow256(n: nat) -> nat
    decreases n,
{
    if n == 0 {
        1
    } else {
        256 * pow256((n - 1) as nat)
    }
}

/// The number that `bytes` denotes when the first byte is the least significant.
pub open spec fn le_value(bytes: Seq<u8>) -> nat
    decreases bytes.len(),
{
    if bytes.len() == 0 {
        0
    } else {
        bytes[0] as nat + 256 * le_value(bytes.drop_first())
    }
}

/// The number that `bytes` denotes when the last byte is the least significant.
pub open spec fn be_value(bytes: Seq<u8>) -> nat
    decreases bytes.len(),
{
    if bytes.len() == 0 {
        0
    } else {
        256 * be_value(bytes.drop_last()) + bytes.last() as nat
    }
}

/// The `width` low base-256 digits of `value`, least significant first.
pub open spec fn le_bytes(value: nat, width: nat) -> Seq<u8>
    decreases width,
{
    if width == 0 {
        Seq::empty()
    } else {
        seq![(value % 256) as u8] + le_bytes(value / 256, (width - 1) as nat)
    }
}

/// The `width` low base-256 digits of `value`, most significant first.
pub open spec fn be_bytes(value: nat, width: nat) -> Seq<u8>
    decreases width,
{
    if width == 0 {
        Seq::empty()
    } else {
        be_bytes(value / 256, (width - 1) as nat).push((value % 256) as u8)
    }
}

/// `pow256` grows with its argument.
pub proof fn lemma_pow256_monotonic(a: nat, b: nat)
    requires
        a <= b,
    ensures
        0 < pow256(a) <= pow256(b),
    decreases b,
{
    if b == 0 {
    } else if a == b {
        lemma_pow256_monotonic((a - 1) as nat, (b - 1) as nat);
    } else {
        lemma_pow256_monotonic(a, (b - 1) as nat);
    }
}

/// The values of `pow256` at the widths of the native unsigned integers.
pub proof fn lemma_pow256_native()
    ensures
        pow256(0) == 1,
        pow256(1) == 0x100,
        pow256(2) == 0x1_0000,
        pow256(4) == 0x1_0000_0000,
        pow256(8) == 0x1_0000_0000_0000_0000,
        pow256(16) == 0x1_0000_0000_0000_0000_0000_0000_0000_0000,
{
    reveal_with_fuel(pow256, 17);
}

/// A byte order, carried in the type of an integer.
///
/// A byte order says which number a byte sequence denotes and which bytes a
/// number is written as, and the two are inverse to each other.
pub trait Endianess {
    /// The number that `bytes` denotes in this byte order.
    spec fn decode(bytes: Seq<u8>) -> nat;

    /// The `width` bytes that `value` is written as in this byte order.
    spec fn encode(value: nat, width: nat) -> Seq<u8>;

    /// Encoding yields exactly `width` bytes.
    proof fn lemma_encode_len(value: nat, width: nat)
        ensures
            Self::encode(value, width).len() == width,
    ;

    /// A sequence of `n` bytes denotes a number below `256^n`.
    proof fn lemma_decode_bound(bytes: Seq<u8>)
        ensures
            Self::decode(bytes) < pow256(bytes.len()),
    ;

    /// Decoding the encoding of a number that fits in `width` bytes gives the
    /// number back.
    proof fn lemma_decode_encode(value: nat, width: nat)
        requires
            value < pow256(width),
        ensures
            Self::decode(Self::encode(value, width)) == value,
    ;

    /// Encoding the number that a byte sequence denotes, at the sequence's
    /// own width, gives the sequence back.
    proof fn lemma_encode_decode(bytes: Seq<u8>)
        ensures
            Self::encode(Self::decode(bytes), bytes.len()) == bytes,
    ;
}

/// Most significant byte first.
#[derive(Debug, Clone, Copy, PartialEq, Eq)]
pub struct BigEndian {}

/// Least significant byte first.
#[derive(Debug, Clone, Copy, PartialEq, Eq)]
pub struct LittleEndian {}

impl Endianess for BigEndian {
    open spec fn decode(bytes: Seq<u8>) -> nat {
        be_value(bytes)
    }

    open spec fn encode(value: nat, width: nat) -> Seq<u8> {
        be_bytes(value, width)
    }

    proof fn lemma_encode_len(value: nat, width: nat)
        decreases width,
    {
        if width > 0 {
            Self::lemma_encode_len(value / 256, (width - 1) as nat);
        }
    }

    proof fn lemma_decode_bound(bytes: Seq<u8>)
        decreases bytes.len(),
    {
        if bytes.len() > 0 {
            Self::lemma_decode_bound(bytes.drop_last());
        }
    }

    proof fn lemma_decode_encode(value: nat, width: nat)
        decreases width,
    {
        if width > 0 {
            let rest = be_bytes(value / 256, (width - 1) as nat);
            Self::lemma_decode_encode(value / 256, (width - 1) as nat);
            assert(rest.push((value % 256) as u8).drop_last() =~= rest);
        }
    }

    proof fn lemma_encode_decode(bytes: Seq<u8>)
        decreases bytes.len(),
    {
        if bytes.len() > 0 {
            Self::lemma_encode_decode(bytes.drop_last());
            assert(bytes.drop_last().push(bytes.last()) =~= bytes);
        }
    }
}

impl Endianess for LittleEndian {
    open spec fn decode(bytes: Seq<u8>) -> nat {
        le_value(bytes)
    }

    open spec fn encode(value: nat, width: nat) -> Seq<u8> {
        le_bytes(value, width)
    }

    proof fn lemma_encode_len(value: nat, width: nat)
        decreases width,
    {
        if width > 0 {
            Self::lemma_encode_len(value / 256, (width - 1) as nat);
        }
    }

    proof fn lemma_decode_bound(bytes: Seq<u8>)
        decreases bytes.len(),
    {
        if bytes.len() > 0 {
            Self::lemma_decode_bound(bytes.drop_first());
        }
    }

    proof fn lemma_decode_encode(value: nat, width: nat)
        decreases width,
    {
        if width > 0 {
            let rest = le_bytes(value / 256, (width - 1) as nat);
            Self::lemma_decode_encode(value / 256, (width - 1) as nat);
            assert((seq![(value % 256) as u8] + rest).drop_first() =~= rest);
        }
    }

    proof fn lemma_encode_decode(bytes: Seq<u8>)
        decreases bytes.len(),
    {
        if bytes.len() > 0 {
            Self::lemma_encode_decode(bytes.drop_first());
            assert(seq![bytes[0]] + bytes.drop_first() =~= bytes);
        }
    }
}

/// Writes the `N` low base-256 digits of `value`, least significant first.
fn encode_le<const N: usize>(value: u128) -> (bytes: [u8; N])
    ensures
        bytes@ == le_bytes(value as nat, N as nat),
{
    let mut out: [u8; N] = [0u8; N];
    let mut rest: u128 = value;
    let mut i: usize = 0;
    while i < N
        invariant
            i <= N,
            le_bytes(value as nat, N as nat) == out@.subrange(0, i as int) + le_bytes(
                rest as nat,
                (N - i) as nat,
            ),
        decreases N - i,
    {
        let ghost before = out@;
        let digit: u8 = (rest % 256) as u8;
        out[i] = digit;
        proof {
            let tail = le_bytes((rest / 256) as nat, (N - i - 1) as nat);
            assert(out@.subrange(0, i + 1) + tail =~= before.subrange(0, i as int) + (seq![digit]
                + tail));
        }
        rest = rest / 256;
        i += 1;
    }
    proof {
        assert(out@.subrange(0, N as int) + Seq::<u8>::empty() =~= out@);
    }
    out
}

/// Writes the `N` low base-256 digits of `value`, most significant first.
fn encode_be<const N: usize>(value: u128) -> (bytes: [u8; N])
    ensures
        bytes@ == be_bytes(value as nat, N as nat),
{
    let mut out: [u8; N] = [0u8; N];
    let mut rest: u128 = value;
    let mut i: usize = N;
    while i > 0
        invariant
            i <= N,
            be_bytes(value as nat, N as nat) == be_bytes(rest as nat, i as nat) + out@.subrange(
                i as int,
                N as int,
            ),
        decreases i,
    {
        let ghost before = out@;
        let digit: u8 = (rest % 256) as u8;
        i -= 1;
        out[i] = digit;
        proof {
            let head = be_bytes((rest / 256) as nat, i as nat);
            assert(head + out@.subrange(i as int, N as int) =~= head.push(digit) + before.subrange(
                i + 1,
                N as int,
            ));
        }
        rest = rest / 256;
    }
    proof {
        assert(Seq::<u8>::empty() + out@.subrange(0, N as int) =~= out@);
    }
    out
}

/// Reads `bytes` as a number whose first byte is the least significant.
fn decode_le<const N: usize>(bytes: &[u8; N]) -> (value: u128)
    requires
        N <= 16,
    ensures
        value == le_value(bytes@),
{
    let mut acc: u128 = 0;
    let mut i: usize = N;
    while i > 0
        invariant
            i <= N <= 16,
            acc == le_value(bytes@.subrange(i as int, N as int)),
        decreases i,
    {
        proof {
            let done = bytes@.subrange(i as int, N as int);
            LittleEndian::lemma_decode_bound(done);
            lemma_pow256_monotonic(done.len(), 15);
            lemma_pow256_native();
            assert(bytes@.subrange(i - 1, N as int).drop_first() =~= done);
        }
        i -= 1;
        acc = acc * 256 + bytes[i] as u128;
    }
    proof {
        assert(bytes@.subrange(0, N as int) =~= bytes@);
    }
    acc
}

/// Reads `bytes` as a number whose last byte is the least significant.
fn decode_be<const N: usize>(bytes: &[u8; N]) -> (value: u128)
    requires
        N <= 16,
    ensures
        value == be_value(bytes@),
{
    let mut acc: u128 = 0;
    let mut i: usize = 0;
    while i < N
        invariant
            i <= N <= 16,
            acc == be_value(bytes@.subrange(0, i as int)),
        decreases N - i,
    {
        proof {
            let done = bytes@.subrange(0, i as int);
            BigEndian::lemma_decode_bound(done);
            lemma_pow256_monotonic(done.len(), 15);
            lemma_pow256_native();
            assert(bytes@.subrange(0, i + 1).drop_last() =~= done);
        }
        acc = acc * 256 + bytes[i] as u128;
        i += 1;
    }
    proof {
        assert(bytes@.subrange(0, N as int) =~= bytes@);
    }
    acc
}

/// An unsigned integer of `N` bytes, held as the bytes that go on the wire in
/// the byte order `E`.
#[derive(Debug, PartialEq, Eq)]
pub struct UInt<E: Endianess, const N: usize>([u8; N], PhantomData<E>);

impl<E: Endianess, const N: usize> Clone for UInt<E, N> {
    fn clone(&self) -> (r: Self)
        ensures
            r == *self,
    {
        Self(self.0, PhantomData)
    }
}

impl<E: Endianess, const N: usize> Copy for UInt<E, N> {

}

impl<E: Endianess, const N: usize> UInt<E, N> {
    /// The bytes of this integer, in wire order.
    pub closed spec fn bytes(&self) -> Seq<u8> {
        self.0@
    }

    /// The number that this integer holds.
    pub open spec fn value(&self) -> nat {
        E::decode(self.bytes())
    }

    /// An integer of `N` bytes has `N` bytes and holds a number below `256^N`.
    pub proof fn lemma_width(&self)
        ensures
            self.bytes().len() == N,
            self.value() < pow256(N as nat),
            E::encode(self.value(), N as nat) == self.bytes(),
    {
        E::lemma_decode_bound(self.bytes());
        E::lemma_encode_decode(self.bytes());
    }

    /// The bytes of this integer, in wire order.
    pub fn to_bytes(&self) -> (bytes: [u8; N])
        ensures
            bytes@ == self.bytes(),
    {
        self.0
    }
}

impl UInt<BigEndian, 2> {
    /// The big-endian integer that holds `value`.
    pub fn new(value: u16) -> (r: Self)
        ensures
            r.value() == value,
            r.bytes() == be_bytes(value as nat, 2),
    {
        proof {
            lemma_pow256_native();
            BigEndian::lemma_decode_encode(value as nat, 2);
        }
        Self(encode_be::<2>(value as u128), PhantomData)
    }

    /// The integer whose wire bytes are `value`.
    pub fn from_be_bytes(value: [u8; 2]) -> (r: Self)
        ensures
            r.bytes() == value@,
    {
        Self(value, PhantomData)
    }

    /// The number that this integer holds.
    pub fn to_native(&self) -> (value: u16)
        ensures
            value == self.value(),
    {
        proof {
            lemma_pow256_native();
            BigEndian::lemma_decode_bound(self.bytes());
        }
        decode_be::<2>(&self.0) as u16
    }
}

impl UInt<LittleEndian, 4> {
    /// The little-endian integer that holds `value`.
    pub fn new(value: u32) -> (r: Self)
        ensures
            r.value() == value,
            r.bytes() == le_bytes(value as nat, 4),
    {
        proof {
            lemma_pow256_native();
            LittleEndian::lemma_decode_encode(value as nat, 4);
        }
        Self(encode_le::<4>(value as u128), PhantomData)
    }

    /// The integer whose wire bytes are `value`.
    pub fn from_le_bytes(value: [u8; 4]) -> (r: Self)
        ensures
            r.bytes() == value@,
    {
        Self(value, PhantomData)
    }

    /// The number that this integer holds.
    pub fn to_native(&self) -> (value: u32)
        ensures
            value == self.value(),
    {
        proof {
            lemma_pow256_native();
            LittleEndian::lemma_decode_bound(self.bytes());
        }
        decode_le::<4>(&self.0) as u32
    }
}

impl UInt<BigEndian, 4> {
    /// The big-endian integer that holds `value`.
    pub fn new(value: u32) -> (r: Self)
        ensures
            r.value() == value,
            r.bytes() == be_bytes(value as nat, 4),
    {
        proof {
            lemma_pow256_native();
            BigEndian::lemma_decode_encode(value as nat, 4);
        }
        Self(encode_be::<4>(value as u128), PhantomData)
    }

    /// The integer whose wire bytes are `value`.
    pub fn from_be_bytes(value: [u8; 4]) -> (r: Self)
        ensures
            r.bytes() == value@,
    {
        Self(value, PhantomData)
    }

    /// The number that this integer holds.
    pub fn to_native(&self) -> (value: u32)
        ensures
            value == self.value(),
    {
        proof {
            lemma_pow256_native();
            BigEndian::lemma_decode_bound(self.bytes());
        }
        decode_be::<4>(&self.0) as u32
    }
}

impl UInt<LittleEndian, 8> {
    /// The little-endian integer that holds `value`.
    pub fn new(value: u64) -> (r: Self)
        ensures
            r.value() == value,
            r.bytes() == le_bytes(value as nat, 8),
    {
        proof {
            lemma_pow256_native();
            LittleEndian::lemma_decode_encode(value as nat, 8);
        }
        Self(encode_le::<8>(value as u128), PhantomData)
    }

    /// The integer whose wire bytes are `value`.
    pub fn from_le_bytes(value: [u8; 8]) -> (r: Self)
        ensures
            r.bytes() == value@,
    {
        Self(value, PhantomData)
    }

    /// The number that this integer holds.
    pub fn to_native(&self) -> (value: u64)
        ensures
            value == self.value(),
    {
        proof {
            lemma_pow256_native();
            LittleEndian::lemma_decode_bound(self.bytes());
        }
        decode_le::<8>(&self.0) as u64
    }
}

impl UInt<BigEndian, 16> {
    /// The big-endian integer that holds `value`.
    pub fn new(value: u128) -> (r: Self)
        ensures
            r.value() == value,
            r.bytes() == be_bytes(value as nat, 16),
    {
        proof {
            lemma_pow256_native();
            BigEndian::lemma_decode_encode(value as nat, 16);
        }
        Self(encode_be::<16>(value as u128), PhantomData)
    }

    /// The integer whose wire bytes are `value`.
    pub fn from_be_bytes(value: [u8; 16]) -> (r: Self)
        ensures
            r.bytes() == value@,
    {
        Self(value, PhantomData)
    }

    /// The number that this integer holds.
    pub fn to_native(&self) -> (value: u128)
        ensures
            value == self.value(),
    {
        proof {
            lemma_pow256_native();
            BigEndian::lemma_decode_bound(self.bytes());
        }
        decode_be::<16>(&self.0) as u128
    }
}

} // verus!
