//! The primitive values of the protocol and their byte forms.

use crate::io::{
    append_be, append_bytes, be_bytes, be_value, lemma_be_roundtrip, lemma_pow256_16, ByteReader,
    IoError,
};
use vstd::prelude::*;
use vstd::utf8::{decode_utf8, encode_utf8, valid_utf8};

verus! {

/// A value that has a byte form: it can be read from bytes and written as bytes.
///
/// Each type says in the contracts of its own methods what its byte form is.
pub trait MCData: Sized {
    /// Reads one value off the front of `reader`.
    fn read(reader: &mut ByteReader) -> Result<Self, IoError>;

    /// Appends the bytes of the value to `writer`. Writing to memory does not fail.
    fn write(&self, writer: &mut Vec<u8>) -> Result<(), IoError>;

    /// The number of bytes that `write` appends.
    fn byte_size(&self) -> usize;
}

/// The 32 bits of `v` read as an unsigned number.
pub open spec fn to_unsigned(v: i32) -> nat {
    if v < 0 {
        (v + 0x1_0000_0000) as nat
    } else {
        v as nat
    }
}

/// The number below `2^32` read as 32 bits in two's complement.
pub open spec fn to_signed(u: nat) -> i32 {
    if u >= 0x8000_0000 {
        (u - 0x1_0000_0000) as i32
    } else {
        u as i32
    }
}

/// The groups of seven bits that spell `u`, lowest first, each but the last with its top bit set.
pub open spec fn encode_groups(u: nat) -> Seq<u8>
    decreases u,
{
    if u < 128 {
        seq![u as u8]
    } else {
        seq![(u % 128 + 128) as u8] + encode_groups(u / 128)
    }
}

/// What the groups at the front of `input` spell, and how many bytes they are, when `read`
/// bytes of the number were taken before them. A number ends with the first byte whose top bit
/// is clear; a sixth byte is an error.
pub open spec fn decode_groups(input: Seq<u8>, read: nat) -> Result<(nat, nat), IoError>
    decreases input.len(),
{
    if input.len() == 0 {
        Err(IoError::UnexpectedEof)
    } else if read >= 5 {
        Err(IoError::InvalidData)
    } else if input[0] < 128 {
        Ok((input[0] as nat, 1))
    } else {
        match decode_groups(input.skip(1), read + 1) {
            Ok((rest, n)) => Ok(((input[0] - 128) as nat + 128 * rest, n + 1)),
            Err(e) => Err(e),
        }
    }
}

/// The bytes that stand for the VarInt `v`: between one and five.
pub open spec fn varint_bytes(v: i32) -> Seq<u8> {
    encode_groups(to_unsigned(v))
}

/// The number of bytes that stand for the VarInt `v`, from its value alone.
pub open spec fn varint_size(v: i32) -> nat {
    let u = to_unsigned(v);
    if u < 0x80 {
        1
    } else if u < 0x4000 {
        2
    } else if u < 0x20_0000 {
        3
    } else if u < 0x1000_0000 {
        4
    } else {
        5
    }
}

/// The VarInt at the front of `input` with the number of bytes it takes. Bits beyond the 32nd
/// are dropped.
pub open spec fn parse_varint(input: Seq<u8>) -> Result<(i32, nat), IoError> {
    match decode_groups(input, 0) {
        Ok((u, n)) => Ok((to_signed(u % 0x1_0000_0000), n)),
        Err(e) => Err(e),
    }
}

/// `128^n`.
spec fn pow128(n: nat) -> nat
    decreases n,
{
    if n == 0 {
        1
    } else {
        128 * pow128((n - 1) as nat)
    }
}

/// The byte form of a VarInt has as many bytes as `varint_size` says, and never more than five.
pub proof fn lemma_varint_size(v: i32)
    ensures
        varint_bytes(v).len() == varint_size(v),
        1 <= varint_size(v) <= 5,
{
    reveal_with_fuel(encode_groups, 6);
}

/// Groups that were written are read back as the same number, whatever follows them, as long as
/// the number ends within five bytes.
proof fn lemma_groups_roundtrip(u: nat, read: nat, rest: Seq<u8>)
    requires
        read + encode_groups(u).len() <= 5,
    ensures
        decode_groups(encode_groups(u) + rest, read) == Ok::<(nat, nat), IoError>(
            (u, encode_groups(u).len()),
        ),
    decreases u,
{
    let input = encode_groups(u) + rest;
    if u < 128 {
        assert(input[0] == u as u8);
    } else {
        assert(input[0] == (u % 128 + 128) as u8);
        assert(input.skip(1) =~= encode_groups(u / 128) + rest);
        lemma_groups_roundtrip(u / 128, read + 1, rest);
    }
}

/// Every VarInt that was written is read back as the same value and takes as many bytes as its
/// size says, whatever follows it.
pub proof fn lemma_varint_roundtrip(v: i32, rest: Seq<u8>)
    ensures
        parse_varint(varint_bytes(v) + rest) == Ok::<(i32, nat), IoError>((v, varint_size(v))),
{
    lemma_varint_size(v);
    lemma_groups_roundtrip(to_unsigned(v), 0, rest);
}

/// A VarInt that is read takes between one and five of the bytes that are there.
pub proof fn lemma_varint_takes_bytes(input: Seq<u8>)
    ensures
        parse_varint(input) matches Ok((v, n)) ==> 1 <= n <= 5 && n <= input.len(),
{
    lemma_groups_take_bytes(input, 0);
}

/// Groups that are read take at least one byte, stay within the input, and end with the fifth
/// byte of the number at the latest.
proof fn lemma_groups_take_bytes(input: Seq<u8>, read: nat)
    ensures
        decode_groups(input, read) matches Ok((u, n)) ==> 1 <= n && n <= input.len() && read + n
            <= 5,
    decreases input.len(),
{
    if input.len() > 0 && read < 5 && input[0] >= 128 {
        lemma_groups_take_bytes(input.skip(1), read + 1);
    }
}

/// Groups that are read, or refused as invalid, are read or refused in the same way when more
/// bytes follow the input.
proof fn lemma_groups_stable(input: Seq<u8>, more: Seq<u8>, read: nat)
    requires
        decode_groups(input, read) != Err::<(nat, nat), IoError>(IoError::UnexpectedEof),
    ensures
        decode_groups(input + more, read) == decode_groups(input, read),
    decreases input.len(),
{
    if input.len() > 0 && read < 5 && input[0] >= 128 {
        assert((input + more).skip(1) =~= input.skip(1) + more);
        lemma_groups_stable(input.skip(1), more, read + 1);
    }
}

/// A VarInt that is read, or refused as invalid, is read or refused in the same way when more
/// bytes follow the input.
pub proof fn lemma_varint_stable(input: Seq<u8>, more: Seq<u8>)
    requires
        parse_varint(input) != Err::<(i32, nat), IoError>(IoError::UnexpectedEof),
    ensures
        parse_varint(input + more) == parse_varint(input),
{
    lemma_groups_stable(input, more, 0);
}

/// Five bytes with the top bit set cannot start a VarInt: with a sixth byte after them reading
/// fails as invalid data.
pub proof fn lemma_varint_too_long(input: Seq<u8>)
    requires
        input.len() >= 6,
        forall|i: int| 0 <= i < 5 ==> input[i] >= 128,
    ensures
        parse_varint(input) == Err::<(i32, nat), IoError>(IoError::InvalidData),
{
    reveal_with_fuel(decode_groups, 7);
    assert(input.skip(1).skip(1).skip(1).skip(1).skip(1).len() > 0);
    assert(input.skip(1)[0] == input[1]);
    assert(input.skip(1).skip(1)[0] == input[2]);
    assert(input.skip(1).skip(1).skip(1)[0] == input[3]);
    assert(input.skip(1).skip(1).skip(1).skip(1)[0] == input[4]);
}

/// What the whole number is when `first`, of weight one, came before the groups in `later`,
/// which weigh `weight` times as much and follow `read` bytes.
spec fn join_groups(
    later: Result<(nat, nat), IoError>,
    first: nat,
    weight: nat,
    read: nat,
) -> Result<(nat, nat), IoError> {
    match later {
        Ok((rest, n)) => Ok((first + weight * rest, n + read)),
        Err(e) => Err(e),
    }
}

/// The 32 bits of `v` as an unsigned number.
fn unsigned_of(v: i32) -> (u: u32)
    ensures
        u == to_unsigned(v),
{
    if v < 0 {
        ((v - i32::MIN) as u32) + 0x8000_0000u32
    } else {
        v as u32
    }
}

/// The low 32 bits of `u` in two's complement.
fn signed_of(u: u64) -> (v: i32)
    ensures
        v == to_signed((u % 0x1_0000_0000) as nat),
{
    let low: u64 = u % 0x1_0000_0000u64;
    if low >= 0x8000_0000u64 {
        (low as i64 - 0x1_0000_0000i64) as i32
    } else {
        low as i32
    }
}

/// A signed 32-bit number that travels as one to five bytes.
#[derive(Clone, Copy, Debug, PartialEq, Eq, Structural)]
pub struct VarInt {
    value: i32,
}

impl View for VarInt {
    type V = i32;

    open spec fn view(&self) -> i32 {
        self.value()
    }
}

impl VarInt {
    /// The number itself.
    pub closed spec fn value(&self) -> i32 {
        self.value
    }

    /// Wraps `value`. Every `i32` fits in five bytes, so this never fails.
    pub fn new(value: i32) -> (r: Result<Self, &'static str>)
        ensures
            r is Ok,
            r.unwrap()@ == value,
    {
        Self::try_from(value)
    }

    /// The number itself.
    #[verifier::when_used_as_spec(value)]
    pub fn get(&self) -> (value: i32)
        ensures
            value == self@,
    {
        self.value
    }
}

impl TryFrom<i32> for VarInt {
    type Error = &'static str;

    /// Wraps `value`. Every `i32` fits in five bytes, so this never fails.
    fn try_from(value: i32) -> (r: Result<Self, Self::Error>)
        ensures
            r is Ok,
            r.unwrap()@ == value,
    {
        Ok(VarInt { value })
    }
}

impl vstd::std_specs::convert::TryFromSpecImpl<i32> for VarInt {
    open spec fn obeys_try_from_spec() -> bool {
        true
    }

    closed spec fn try_from_spec(value: i32) -> Result<Self, Self::Error> {
        Ok(VarInt { value })
    }
}

impl core::ops::Deref for VarInt {
    type Target = i32;

    /// The number itself.
    fn deref(&self) -> (value: &i32)
        ensures
            *value == self@,
    {
        &self.value
    }
}

impl MCData for VarInt {
    /// Reads the VarInt at the front of `reader`.
    fn read(reader: &mut ByteReader) -> (r: Result<Self, IoError>)
        ensures
            match parse_varint(old(reader)@) {
                Ok((v, n)) => {
                    &&& r is Ok
                    &&& r.unwrap()@ == v
                    &&& n <= old(reader)@.len()
                    &&& final(reader)@ == old(reader)@.skip(n as int)
                },
                Err(e) => r matches Err(x) && x == e,
            },
    {
        let ghost input = reader@;
        let mut num_read: u8 = 0;
        let mut result: u64 = 0;
        let mut weight: u64 = 1;
        loop
            invariant
                input == old(reader)@,
                num_read <= 5,
                weight == pow128(num_read as nat),
                result < weight,
                num_read <= input.len(),
                reader@ == input.skip(num_read as int),
                decode_groups(input, 0) == join_groups(
                    decode_groups(reader@, num_read as nat),
                    result as nat,
                    weight as nat,
                    num_read as nat,
                ),
            decreases 6 - num_read,
        {
            let byte = match reader.read_u8() {
                Ok(byte) => byte,
                Err(e) => {
                    return Err(e);
                },
            };
            if num_read >= 5 {
                return Err(IoError::InvalidData);
            }
            proof {
                reveal_with_fuel(pow128, 6);
                assert(weight <= 0x1000_0000);
                assert(reader@ =~= input.skip(num_read + 1));
            }
            if byte < 128 {
                assert(byte as u64 * weight <= 0x7f * 0x1000_0000) by (nonlinear_arith)
                    requires
                        byte < 128,
                        weight <= 0x1000_0000,
                ;
                let total = result + byte as u64 * weight;
                proof {
                    assert(weight as nat * byte as nat == byte as u64 * weight) by (nonlinear_arith)
                    ;
                    assert(num_read + 1 <= input.len());
                }
                return Ok(VarInt { value: signed_of(total) });
            }
            assert((byte - 128) as u64 * weight <= 0x7f * 0x1000_0000 && (byte - 128) as u64
                * weight <= 128 * weight - weight) by (nonlinear_arith)
                requires
                    128 <= byte < 256,
                    0 < weight <= 0x1000_0000,
            ;
            proof {
                if let Ok((rest, n)) = decode_groups(reader@, (num_read + 1) as nat) {
                    let first = (byte - 128) as nat;
                    assert(result + weight * (first + 128 * rest) == (result + (byte - 128) as u64
                        * weight) + (weight * 128) * rest) by (nonlinear_arith)
                        requires
                            first == byte - 128,
                    ;
                }
            }
            result = result + (byte - 128) as u64 * weight;
            weight = weight * 128;
            num_read = num_read + 1;
        }
    }

    /// Appends the one to five bytes of the VarInt.
    fn write(&self, writer: &mut Vec<u8>) -> (r: Result<(), IoError>)
        ensures
            r is Ok,
            final(writer)@ == old(writer)@ + varint_bytes(self@),
    {
        let ghost before = writer@;
        let mut u: u32 = unsigned_of(self.value);
        loop
            invariant
                before == old(writer)@,
                before + varint_bytes(self@) == writer@ + encode_groups(u as nat),
            decreases u,
        {
            if u < 128 {
                writer.push(u as u8);
                assert(writer@ =~= before + varint_bytes(self@));
                return Ok(());
            }
            let ghost so_far = writer@;
            writer.push((u % 128 + 128) as u8);
            assert(writer@ + encode_groups((u / 128) as nat) =~= so_far + encode_groups(u as nat));
            u = u / 128;
        }
    }

    /// The number of bytes of the VarInt, found from its value.
    fn byte_size(&self) -> (n: usize)
        ensures
            n == varint_size(self@),
            n == varint_bytes(self@).len(),
            1 <= n <= 5,
    {
        proof {
            lemma_varint_size(self@);
        }
        let u = unsigned_of(self.value);
        if u < 0x80 {
            1
        } else if u < 0x4000 {
            2
        } else if u < 0x20_0000 {
            3
        } else if u < 0x1000_0000 {
            4
        } else {
            5
        }
    }
}

/// The UTF-8 form of two texts in a row is the two forms in a row.
pub proof fn lemma_encode_utf8_concat(a: Seq<char>, b: Seq<char>)
    ensures
        encode_utf8(a + b) == encode_utf8(a) + encode_utf8(b),
    decreases a.len(),
{
    if a.len() == 0 {
        assert(a + b =~= b);
        assert(encode_utf8(a) + encode_utf8(b) =~= encode_utf8(b));
    } else {
        lemma_encode_utf8_concat(a.drop_first(), b);
        assert((a + b).drop_first() =~= a.drop_first() + b);
        assert(encode_utf8(a + b) =~= encode_utf8(a) + encode_utf8(b));
    }
}

/// The text that `String::from_utf8_lossy` makes of bytes that are not UTF-8.
pub uninterp spec fn utf8_lossy(bytes: Seq<u8>) -> Seq<char>;

/// The text that bytes are read as: their decoding where they are UTF-8, and otherwise what the
/// lossy conversion makes of them.
pub open spec fn decode_text(bytes: Seq<u8>) -> Seq<char> {
    if valid_utf8(bytes) {
        decode_utf8(bytes)
    } else {
        utf8_lossy(bytes)
    }
}

/// Calls `String::from_utf8_lossy`. Bytes that are UTF-8 become the text that they encode; of
/// other bytes only the name of the result is known.
#[verifier::external_body]
fn from_utf8_lossy(bytes: &[u8]) -> (text: String)
    ensures
        valid_utf8(bytes@) ==> text@ == decode_utf8(bytes@),
        !valid_utf8(bytes@) ==> text@ == utf8_lossy(bytes@),
{
    String::from_utf8_lossy(bytes).into_owned()
}

/// Whether a text of `len` bytes may stand in a string that is limited to `max` bytes. The
/// length must also fit the VarInt that goes before the text.
pub open spec fn fits(len: nat, max: nat) -> bool {
    len <= max && len <= 0x7fff_ffff
}

/// The bytes that stand for `text`: the length of its UTF-8 form as a VarInt, then that form.
pub open spec fn string_bytes(text: Seq<char>) -> Seq<u8> {
    let utf8 = encode_utf8(text);
    varint_bytes(utf8.len() as i32) + utf8
}

/// The string at the front of `input`, limited to `max` bytes, with the number of bytes it
/// takes. The announced bytes are taken before the limit is held against them.
pub open spec fn parse_string(input: Seq<u8>, max: nat) -> Result<(Seq<char>, nat), IoError> {
    match parse_varint(input) {
        Err(e) => Err(e),
        Ok((len, n)) => {
            if len < 0 {
                Err(IoError::InvalidData)
            } else if input.len() < n + len {
                Err(IoError::UnexpectedEof)
            } else if len > max {
                Err(IoError::InvalidData)
            } else {
                let text = decode_text(input.subrange(n as int, n + len));
                if fits(encode_utf8(text).len(), max) {
                    Ok((text, (n + len) as nat))
                } else {
                    Err(IoError::InvalidData)
                }
            }
        },
    }
}

/// Every text within the limit that was written is read back as the same text, whatever follows
/// it.
pub proof fn lemma_string_roundtrip(text: Seq<char>, max: nat, rest: Seq<u8>)
    requires
        fits(encode_utf8(text).len(), max),
    ensures
        parse_string(string_bytes(text) + rest, max) == Ok::<(Seq<char>, nat), IoError>(
            (text, string_bytes(text).len()),
        ),
{
    let utf8 = encode_utf8(text);
    let len = utf8.len() as i32;
    let input = string_bytes(text) + rest;
    lemma_varint_size(len);
    lemma_varint_roundtrip(len, utf8 + rest);
    assert(input =~= varint_bytes(len) + (utf8 + rest));
    let n = varint_size(len);
    assert(input.subrange(n as int, n + len) =~= utf8);
    vstd::utf8::encode_utf8_valid_utf8(text);
    vstd::utf8::encode_utf8_decode_utf8(text);
}

/// A string that is read takes at least one byte and lies within the input. A string that is
/// read, or refused as invalid, is read or refused in the same way when more bytes follow the
/// input.
pub proof fn lemma_string_stable(input: Seq<u8>, more: Seq<u8>, max: nat)
    ensures
        parse_string(input, max) matches Ok((text, n)) ==> 1 <= n <= input.len(),
        parse_string(input, max) != Err::<(Seq<char>, nat), IoError>(IoError::UnexpectedEof)
            ==> parse_string(input + more, max) == parse_string(input, max),
{
    lemma_varint_takes_bytes(input);
    if parse_varint(input) != Err::<(i32, nat), IoError>(IoError::UnexpectedEof) {
        lemma_varint_stable(input, more);
        if let Ok((len, n)) = parse_varint(input) {
            if 0 <= len && n + len <= input.len() {
                assert((input + more).subrange(n as int, n + len) =~= input.subrange(
                    n as int,
                    n + len,
                ));
            }
        }
    }
}

/// A text whose UTF-8 form has at most `MAX` bytes.
#[derive(Debug)]
pub struct MCString<const MAX: usize> {
    value: String,
}

impl<const MAX: usize> View for MCString<MAX> {
    type V = Seq<char>;

    closed spec fn view(&self) -> Seq<char> {
        self.value@
    }
}

impl<const MAX: usize> MCString<MAX> {
    /// The text fits the limit.
    #[verifier::type_invariant]
    pub open spec fn inv(self) -> bool {
        fits(encode_utf8(self@).len(), MAX as nat)
    }

    /// Wraps `value`, which is refused when its UTF-8 form is too long.
    pub fn new(value: String) -> (r: Result<Self, &'static str>)
        ensures
            r is Ok <==> fits(encode_utf8(value@).len(), MAX as nat),
            r is Ok ==> r.unwrap()@ == value@,
            r is Err ==> r->Err_0@ == "String is too long"@,
    {
        let len = value.as_str().as_bytes().len();
        if len > MAX || len > 0x7fff_ffff {
            return Err("String is too long");
        }
        Ok(MCString { value })
    }

    /// The text.
    pub fn as_str(&self) -> (text: &str)
        ensures
            text@ == self@,
            fits(encode_utf8(text@).len(), MAX as nat),
    {
        proof {
            use_type_invariant(self);
        }
        self.value.as_str()
    }
}

impl<const MAX: usize> Clone for MCString<MAX> {
    fn clone(&self) -> (copy: Self)
        ensures
            copy@ == self@,
    {
        proof {
            use_type_invariant(self);
        }
        MCString { value: self.value.clone() }
    }
}

impl<const MAX: usize> MCData for MCString<MAX> {
    /// Reads the string at the front of `reader`.
    fn read(reader: &mut ByteReader) -> (r: Result<Self, IoError>)
        ensures
            match parse_string(old(reader)@, MAX as nat) {
                Ok((v, n)) => {
                    &&& r is Ok
                    &&& r.unwrap()@ == v
                    &&& n <= old(reader)@.len()
                    &&& final(reader)@ == old(reader)@.skip(n as int)
                },
                Err(e) => r matches Err(x) && x == e,
            },
    {
        let length = match VarInt::read(reader) {
            Ok(length) => length.get(),
            Err(e) => {
                return Err(e);
            },
        };
        if length < 0 {
            return Err(IoError::InvalidData);
        }
        let ghost after_length = reader@;
        let bytes = match reader.read_exact(length as usize) {
            Ok(bytes) => bytes,
            Err(e) => {
                return Err(e);
            },
        };
        if length as usize > MAX {
            return Err(IoError::InvalidData);
        }
        proof {
            let n = parse_varint(old(reader)@).unwrap().1;
            assert(after_length.take(length as int) =~= old(reader)@.subrange(
                n as int,
                n + length,
            ));
            assert(reader@ =~= old(reader)@.skip(n + length));
        }
        match MCString::new(from_utf8_lossy(bytes.as_slice())) {
            Ok(text) => Ok(text),
            Err(_) => Err(IoError::InvalidData),
        }
    }

    /// Appends the length of the text in bytes, as a VarInt, and the text in UTF-8.
    fn write(&self, writer: &mut Vec<u8>) -> (r: Result<(), IoError>)
        ensures
            r is Ok,
            final(writer)@ == old(writer)@ + string_bytes(self@),
    {
        let bytes = self.as_str().as_bytes();
        let length = VarInt { value: bytes.len() as i32 };
        length.write(writer)?;
        append_bytes(writer, bytes);
        assert(writer@ =~= old(writer)@ + string_bytes(self@));
        Ok(())
    }

    /// The number of bytes of the string with its length.
    fn byte_size(&self) -> (n: usize)
        ensures
            n == string_bytes(self@).len(),
            n == varint_size(encode_utf8(self@).len() as i32) + encode_utf8(self@).len(),
            fits(encode_utf8(self@).len(), MAX as nat),
    {
        let len = self.as_str().as_bytes().len();
        let length = VarInt { value: len as i32 };
        proof {
            lemma_varint_size(len as i32);
        }
        length.byte_size() + len
    }
}

/// A 128-bit identifier that travels as sixteen bytes, highest first.
#[derive(Clone, Copy, Debug, PartialEq, Eq, Structural)]
pub struct Uuid(pub u128);

impl View for Uuid {
    type V = u128;

    open spec fn view(&self) -> u128 {
        self.0
    }
}

impl core::ops::Deref for Uuid {
    type Target = u128;

    /// The identifier as a number.
    fn deref(&self) -> (value: &u128)
        ensures
            *value == self@,
    {
        &self.0
    }
}

/// The identifier at the front of `input`: its first sixteen bytes.
pub open spec fn parse_uuid(input: Seq<u8>) -> Result<(u128, nat), IoError> {
    if input.len() < 16 {
        Err(IoError::UnexpectedEof)
    } else {
        Ok((be_value(input.take(16)) as u128, 16))
    }
}

/// An identifier that is read is read as the same when more bytes follow the input.
pub proof fn lemma_uuid_stable(input: Seq<u8>, more: Seq<u8>)
    requires
        parse_uuid(input) is Ok,
    ensures
        parse_uuid(input + more) == parse_uuid(input),
{
    assert((input + more).take(16) =~= input.take(16));
}

/// Every identifier that was written is read back as the same value, whatever follows it.
pub proof fn lemma_uuid_roundtrip(id: u128, rest: Seq<u8>)
    ensures
        parse_uuid(be_bytes(id as nat, 16) + rest) == Ok::<(u128, nat), IoError>((id, 16)),
{
    lemma_pow256_16();
    lemma_be_roundtrip(id as nat, 16);
    assert((be_bytes(id as nat, 16) + rest).take(16) =~= be_bytes(id as nat, 16));
}

impl MCData for Uuid {
    /// Reads the identifier at the front of `reader`.
    fn read(reader: &mut ByteReader) -> (r: Result<Self, IoError>)
        ensures
            match parse_uuid(old(reader)@) {
                Ok((v, n)) => {
                    &&& r is Ok
                    &&& r.unwrap()@ == v
                    &&& n <= old(reader)@.len()
                    &&& final(reader)@ == old(reader)@.skip(n as int)
                },
                Err(e) => r matches Err(x) && x == e,
            },
    {
        match reader.read_u128() {
            Ok(id) => Ok(Uuid(id)),
            Err(e) => Err(e),
        }
    }

    /// Appends the sixteen bytes of the identifier, highest first.
    fn write(&self, writer: &mut Vec<u8>) -> (r: Result<(), IoError>)
        ensures
            r is Ok,
            final(writer)@ == old(writer)@ + be_bytes(self@ as nat, 16),
    {
        append_be(writer, self.0, 16);
        Ok(())
    }

    /// Sixteen.
    fn byte_size(&self) -> (n: usize)
        ensures
            n == be_bytes(self@ as nat, 16).len(),
            n == 16,
    {
        proof {
            lemma_pow256_16();
            lemma_be_roundtrip(self.0 as nat, 16);
        }
        16
    }
}

/// What a client asks for in its handshake.
#[derive(Clone, Copy, Debug, PartialEq, Eq, Structural)]
pub enum NextState {
    Status,
    Login,
    Transfer,
}

impl NextState {
    /// The state that the number in a handshake names: 1 status, 2 login, 3 transfer.
    pub open spec fn spec_from_id(id: i32) -> Option<NextState> {
        if id == 1 {
            Some(NextState::Status)
        } else if id == 2 {
            Some(NextState::Login)
        } else if id == 3 {
            Some(NextState::Transfer)
        } else {
            None
        }
    }

    /// The state that the number in a handshake names, if it names one.
    pub fn from_id(id: i32) -> (state: Option<Self>)
        ensures
            state == Self::spec_from_id(id),
    {
        if id == 1 {
            Some(NextState::Status)
        } else if id == 2 {
            Some(NextState::Login)
        } else if id == 3 {
            Some(NextState::Transfer)
        } else {
            None
        }
    }
}

} // verus!
