//! Reading from bytes that are already in memory.
//!
//! A [`ByteReader`] walks over a slice from front to back. Its view is what is still unread, so
//! every operation is described by what it takes off the front of that sequence.

use vstd::prelude::*;
use vstd::slice::{slice_subrange, slice_to_vec};

verus! {

/// Why a read or a write did not succeed.
#[derive(Clone, Copy, Debug, PartialEq, Eq, Structural)]
pub enum IoError {
    /// The input ended before the value was complete.
    UnexpectedEof,
    /// The bytes that were read cannot be the value that was asked for.
    InvalidData,
}

/// `256^n`.
pub open spec fn pow256(n: nat) -> nat
    decreases n,
{
    if n == 0 {
        1
    } else {
        256 * pow256((n - 1) as nat)
    }
}

/// The number that `bytes` spell in big-endian order; `0` for no bytes.
pub open spec fn be_value(bytes: Seq<u8>) -> nat
    decreases bytes.len(),
{
    if bytes.len() == 0 {
        0
    } else {
        256 * be_value(bytes.drop_last()) + bytes.last() as nat
    }
}

/// The `n` bytes that spell `value` in big-endian order (its low `8 * n` bits).
pub open spec fn be_bytes(value: nat, n: nat) -> Seq<u8>
    decreases n,
{
    if n == 0 {
        Seq::empty()
    } else {
        be_bytes(value / 256, (n - 1) as nat).push((value % 256) as u8)
    }
}

/// `256^n` grows with `n`.
pub proof fn lemma_pow256_monotonic(a: nat, b: nat)
    requires
        a <= b,
    ensures
        pow256(a) <= pow256(b),
        pow256(a) >= 1,
    decreases b,
{
    if a < b {
        lemma_pow256_monotonic(a, (b - 1) as nat);
    } else if a > 0 {
        lemma_pow256_monotonic((a - 1) as nat, (a - 1) as nat);
    }
}

/// `be_bytes` gives as many bytes as were asked for.
pub proof fn lemma_be_length(value: nat, n: nat)
    ensures
        be_bytes(value, n).len() == n,
    decreases n,
{
    if n > 0 {
        lemma_be_length(value / 256, (n - 1) as nat);
    }
}

/// Reading back what `be_bytes` wrote gives the value, when it fits in `n` bytes.
pub proof fn lemma_be_roundtrip(value: nat, n: nat)
    requires
        value < pow256(n),
    ensures
        be_bytes(value, n).len() == n,
        be_value(be_bytes(value, n)) == value,
    decreases n,
{
    if n > 0 {
        lemma_be_roundtrip(value / 256, (n - 1) as nat);
        assert(be_bytes(value, n).drop_last() =~= be_bytes(value / 256, (n - 1) as nat));
    }
}

/// `256^16` is `2^128`, one more than the largest `u128`.
pub proof fn lemma_pow256_16()
    ensures
        pow256(16) == 0x1_0000_0000_0000_0000_0000_0000_0000_0000,
        pow256(2) == 0x1_0000,
{
    reveal_with_fuel(pow256, 17);
}

/// The byte at the front of `input`.
pub open spec fn parse_u8(input: Seq<u8>) -> Result<(u8, nat), IoError> {
    if input.len() < 1 {
        Err(IoError::UnexpectedEof)
    } else {
        Ok((input[0], 1))
    }
}

/// The big-endian `u16` at the front of `input`.
pub open spec fn parse_u16(input: Seq<u8>) -> Result<(u16, nat), IoError> {
    if input.len() < 2 {
        Err(IoError::UnexpectedEof)
    } else {
        Ok((be_value(input.take(2)) as u16, 2))
    }
}

/// A byte or a `u16` that is read is read as the same when more bytes follow the input.
pub proof fn lemma_fixed_stable(input: Seq<u8>, more: Seq<u8>)
    ensures
        parse_u8(input) is Ok ==> parse_u8(input + more) == parse_u8(input),
        parse_u16(input) is Ok ==> parse_u16(input + more) == parse_u16(input),
{
    if input.len() >= 2 {
        assert((input + more).take(2) =~= input.take(2));
    }
}

/// A cursor over bytes in memory.
pub struct ByteReader<'a> {
    data: &'a [u8],
    pos: usize,
}

impl<'a> View for ByteReader<'a> {
    type V = Seq<u8>;

    /// The bytes that have not been read yet.
    closed spec fn view(&self) -> Seq<u8> {
        self.data@.skip(self.pos as int)
    }
}

impl<'a> ByteReader<'a> {
    #[verifier::type_invariant]
    spec fn inv(self) -> bool {
        self.pos <= self.data@.len()
    }

    /// A reader that has all of `data` before it.
    pub fn new(data: &'a [u8]) -> (reader: Self)
        ensures
            reader@ == data@,
    {
        ByteReader { data, pos: 0 }
    }

    /// How many bytes are still unread.
    pub fn remaining(&self) -> (n: usize)
        ensures
            n == self@.len(),
    {
        proof {
            use_type_invariant(self);
        }
        self.data.len() - self.pos
    }

    /// Takes one byte off the front; at the end of the input nothing is read.
    pub fn read_u8(&mut self) -> (r: Result<u8, IoError>)
        ensures
            old(self)@.len() > 0 ==> r == Ok::<u8, IoError>(old(self)@[0])
                && final(self)@ == old(self)@.skip(1),
            old(self)@.len() == 0 ==> r == Err::<u8, IoError>(IoError::UnexpectedEof)
                && final(self)@ == old(self)@,
    {
        proof {
            use_type_invariant(&*self);
        }
        if self.pos < self.data.len() {
            let byte = self.data[self.pos];
            self.pos = self.pos + 1;
            assert(final(self)@ =~= old(self)@.skip(1));
            Ok(byte)
        } else {
            Err(IoError::UnexpectedEof)
        }
    }

    /// Takes `n` bytes off the front; when fewer are left nothing is read.
    pub fn read_exact(&mut self, n: usize) -> (r: Result<Vec<u8>, IoError>)
        ensures
            old(self)@.len() >= n ==> r is Ok && r.unwrap()@ == old(self)@.take(n as int)
                && final(self)@ == old(self)@.skip(n as int),
            old(self)@.len() < n ==> r == Err::<Vec<u8>, IoError>(IoError::UnexpectedEof)
                && final(self)@ == old(self)@,
    {
        proof {
            use_type_invariant(&*self);
        }
        if n <= self.data.len() - self.pos {
            let bytes = slice_to_vec(slice_subrange(self.data, self.pos, self.pos + n));
            self.pos = self.pos + n;
            assert(final(self)@ =~= old(self)@.skip(n as int));
            assert(bytes@ =~= old(self)@.take(n as int));
            Ok(bytes)
        } else {
            Err(IoError::UnexpectedEof)
        }
    }

    /// Takes `n` bytes off the front and reads them as one big-endian number.
    fn read_be(&mut self, n: usize) -> (r: Result<u128, IoError>)
        requires
            n <= 16,
        ensures
            old(self)@.len() >= n ==> r == Ok::<u128, IoError>(
                be_value(old(self)@.take(n as int)) as u128,
            ) && final(self)@ == old(self)@.skip(n as int),
            old(self)@.len() >= n ==> be_value(old(self)@.take(n as int)) < pow256(n as nat),
            old(self)@.len() < n ==> r == Err::<u128, IoError>(IoError::UnexpectedEof)
                && final(self)@ == old(self)@,
    {
        proof {
            use_type_invariant(&*self);
        }
        if n > self.data.len() - self.pos {
            return Err(IoError::UnexpectedEof);
        }
        let ghost input = self@;
        let mut acc: u128 = 0;
        let mut i: usize = 0;
        while i < n
            invariant
                i <= n <= 16,
                self.pos + n <= self.data@.len() <= usize::MAX,
                input == self.data@.skip(self.pos as int),
                acc == be_value(input.take(i as int)),
                acc < pow256(i as nat),
            decreases n - i,
        {
            let byte = self.data[self.pos + i];
            proof {
                lemma_pow256_monotonic((i + 1) as nat, 16);
                lemma_pow256_16();
                assert(input.take(i + 1).drop_last() =~= input.take(i as int));
            }
            acc = acc * 256 + byte as u128;
            i = i + 1;
        }
        self.pos = self.pos + n;
        assert(final(self)@ =~= input.skip(n as int));
        Ok(acc)
    }

    /// Takes two bytes off the front and reads them as a big-endian `u16`.
    pub fn read_u16(&mut self) -> (r: Result<u16, IoError>)
        ensures
            old(self)@.len() >= 2 ==> r == Ok::<u16, IoError>(be_value(old(self)@.take(2)) as u16)
                && final(self)@ == old(self)@.skip(2),
            old(self)@.len() >= 2 ==> be_value(old(self)@.take(2)) <= u16::MAX,
            old(self)@.len() < 2 ==> r == Err::<u16, IoError>(IoError::UnexpectedEof)
                && final(self)@ == old(self)@,
    {
        proof {
            lemma_pow256_16();
        }
        match self.read_be(2) {
            Ok(value) => Ok(value as u16),
            Err(e) => Err(e),
        }
    }

    /// Takes sixteen bytes off the front and reads them as a big-endian `u128`.
    pub fn read_u128(&mut self) -> (r: Result<u128, IoError>)
        ensures
            old(self)@.len() >= 16 ==> r == Ok::<u128, IoError>(
                be_value(old(self)@.take(16)) as u128,
            ) && final(self)@ == old(self)@.skip(16),
            old(self)@.len() >= 16 ==> be_value(old(self)@.take(16)) <= u128::MAX,
            old(self)@.len() < 16 ==> r == Err::<u128, IoError>(IoError::UnexpectedEof)
                && final(self)@ == old(self)@,
    {
        proof {
            lemma_pow256_16();
        }
        self.read_be(16)
    }
}

/// Appends `bytes` to `writer`.
pub fn append_bytes(writer: &mut Vec<u8>, bytes: &[u8])
    ensures
        final(writer)@ == old(writer)@ + bytes@,
{
    writer.extend_from_slice(bytes);
    assert(writer@ =~= old(writer)@ + bytes@);
}

/// Appends the `n` bytes that spell `value` in big-endian order.
pub fn append_be(writer: &mut Vec<u8>, value: u128, n: usize)
    ensures
        final(writer)@ == old(writer)@ + be_bytes(value as nat, n as nat),
    decreases n,
{
    if n > 0 {
        append_be(writer, value / 256, n - 1);
        writer.push((value % 256) as u8);
        assert(writer@ =~= old(writer)@ + be_bytes(value as nat, n as nat));
    }
}

} // verus!
