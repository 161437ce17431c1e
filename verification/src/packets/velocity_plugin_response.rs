//! The plugin response in which the upstream proxy hands over the player's identity, signed
//! with the forwarding secret.

use crate::io::{lemma_fixed_stable, parse_u8, ByteReader, IoError};
use crate::packets::id::Managed;
use crate::packets::packet_read::ReadPacket;
use crate::packets::{Packet, PacketBody};
use crate::types::{
    lemma_varint_size, lemma_varint_stable, lemma_varint_takes_bytes, parse_string, parse_uuid,
    parse_varint, string_bytes, varint_bytes, varint_size, MCData, MCString, Uuid, VarInt,
};
use hmac::{Hmac, Mac};
use sha2::Sha256;
use vstd::prelude::*;

verus! {

/// One property of a player's profile.
#[derive(Debug)]
pub struct Property {
    pub name: MCString<32767>,
    pub value: MCString<32767>,
    pub signature: Option<MCString<32767>>,
}

/// What a `Property` holds.
pub struct PropertyView {
    pub name: Seq<char>,
    pub value: Seq<char>,
    pub signature: Option<Seq<char>>,
}

impl View for Property {
    type V = PropertyView;

    open spec fn view(&self) -> PropertyView {
        PropertyView {
            name: self.name@,
            value: self.value@,
            signature: match self.signature {
                Some(signature) => Some(signature@),
                None => None,
            },
        }
    }
}

/// What each of `properties` holds.
pub open spec fn property_views(properties: Seq<Property>) -> Seq<PropertyView> {
    properties.map_values(|p: Property| p@)
}

/// The bytes that stand for a property: name, value, a byte that says whether a signature
/// follows, and the signature where it does.
pub open spec fn property_bytes(v: PropertyView) -> Seq<u8> {
    string_bytes(v.name) + string_bytes(v.value) + match v.signature {
        Some(signature) => seq![0x01u8] + string_bytes(signature),
        None => seq![0x00u8],
    }
}

/// The property at the front of `input` with the number of bytes it takes. A signature follows
/// where the byte after the value is `0x01`, and only there.
pub open spec fn parse_property(input: Seq<u8>) -> Result<(PropertyView, nat), IoError> {
    match parse_string(input, 32767) {
        Err(e) => Err(e),
        Ok((name, n1)) => match parse_string(input.skip(n1 as int), 32767) {
            Err(e) => Err(e),
            Ok((value, n2)) => match parse_u8(input.skip(n1 as int).skip(n2 as int)) {
                Err(e) => Err(e),
                Ok((has_signature, n3)) => if has_signature == 0x01 {
                    match parse_string(
                        input.skip(n1 as int).skip(n2 as int).skip(n3 as int),
                        32767,
                    ) {
                        Err(e) => Err(e),
                        Ok((signature, n4)) => Ok(
                            (
                                PropertyView { name, value, signature: Some(signature) },
                                n1 + n2 + n3 + n4,
                            ),
                        ),
                    }
                } else {
                    Ok((PropertyView { name, value, signature: None }, n1 + n2 + n3))
                },
            },
        },
    }
}

/// The `count` properties at the front of `input`, in their order, with the number of bytes
/// they take.
pub open spec fn parse_properties(input: Seq<u8>, count: nat) -> Result<
    (Seq<PropertyView>, nat),
    IoError,
>
    decreases count,
{
    if count == 0 {
        Ok((Seq::empty(), 0))
    } else {
        match parse_property(input) {
            Err(e) => Err(e),
            Ok((first, n)) => match parse_properties(input.skip(n as int), (count - 1) as nat) {
                Err(e) => Err(e),
                Ok((rest, m)) => Ok((seq![first] + rest, n + m)),
            },
        }
    }
}

/// What follows when `done` was read in `taken` bytes and `later` comes of reading on.
spec fn after_properties(
    done: Seq<PropertyView>,
    taken: nat,
    later: Result<(Seq<PropertyView>, nat), IoError>,
) -> Result<(Seq<PropertyView>, nat), IoError> {
    match later {
        Ok((rest, m)) => Ok((done + rest, taken + m)),
        Err(e) => Err(e),
    }
}

impl Property {
    /// The number of bytes that stand for the property.
    pub fn byte_size(&self) -> (n: usize)
        ensures
            n == property_bytes(self@).len(),
    {
        let signature_size = match &self.signature {
            None => 0,
            Some(signature) => signature.byte_size(),
        };
        let name_size = self.name.byte_size();
        let value_size = self.value.byte_size();
        name_size + value_size + 1 + signature_size
    }

    /// Reads one property off the front of `reader`.
    pub fn read(reader: &mut ByteReader) -> (r: Result<Self, IoError>)
        ensures
            match parse_property(old(reader)@) {
                Ok((v, n)) => {
                    &&& r is Ok
                    &&& r.unwrap()@ == v
                    &&& n <= old(reader)@.len()
                    &&& final(reader)@ == old(reader)@.skip(n as int)
                },
                Err(e) => r matches Err(x) && x == e,
            },
    {
        let name = MCString::<32767>::read(reader)?;
        let value = MCString::<32767>::read(reader)?;
        let signature = if reader.read_u8()? == 0x01 {
            Some(MCString::<32767>::read(reader)?)
        } else {
            None
        };
        proof {
            let (_, n) = parse_property(old(reader)@)->Ok_0;
            assert(reader@ =~= old(reader)@.skip(n as int));
        }
        Ok(Property { name, value, signature })
    }
}

/// Reads `count` properties off the front of `reader`.
#[verifier::rlimit(30)]
fn read_properties(reader: &mut ByteReader, count: i32) -> (r: Result<Vec<Property>, IoError>)
    requires
        count >= 0,
    ensures
        match parse_properties(old(reader)@, count as nat) {
            Ok((v, n)) => {
                &&& r is Ok
                &&& property_views(r.unwrap()@) == v
                &&& n <= old(reader)@.len()
                &&& final(reader)@ == old(reader)@.skip(n as int)
            },
            Err(e) => r matches Err(x) && x == e,
        },
{
    let ghost start = reader@;
    let ghost mut taken: nat = 0;
    let mut properties: Vec<Property> = Vec::new();
    let mut i: i32 = 0;
    proof {
        assert(start.skip(0) =~= start);
        assert(property_views(properties@) =~= Seq::<PropertyView>::empty());
        if let Ok((rest, m)) = parse_properties(start, count as nat) {
            assert(Seq::<PropertyView>::empty() + rest =~= rest);
        }
    }
    while i < count
        invariant
            start == old(reader)@,
            0 <= i <= count,
            taken <= start.len(),
            reader@ == start.skip(taken as int),
            parse_properties(start, count as nat) == after_properties(
                property_views(properties@),
                taken,
                parse_properties(reader@, (count - i) as nat),
            ),
        decreases count - i,
    {
        let ghost current = reader@;
        let ghost done = property_views(properties@);
        let property = match Property::read(reader) {
            Ok(property) => property,
            Err(e) => {
                return Err(e);
            },
        };
        proof {
            let (first, n) = parse_property(current)->Ok_0;
            assert(reader@ =~= start.skip((taken + n) as int));
            assert(property_views(properties@.push(property)) =~= done.push(first));
            if let Ok((rest, m)) = parse_properties(reader@, (count - i - 1) as nat) {
                assert(done + (seq![first] + rest) =~= done.push(first) + rest);
            }
            taken = taken + n;
        }
        properties.push(property);
        i = i + 1;
    }
    proof {
        assert(property_views(properties@) + Seq::<PropertyView>::empty() =~= property_views(
            properties@,
        ));
    }
    Ok(properties)
}

/// What the signed payload of a response spells.
pub struct PayloadView {
    pub version: i32,
    pub client_address: Seq<char>,
    pub player_uuid: u128,
    pub username: Seq<char>,
    pub properties_length: i32,
    pub properties: Seq<PropertyView>,
}

/// The fields that the payload `raw` spells, with the number of bytes they take: the version of
/// the forwarding scheme, the client's address, the player's identifier and name, and the
/// properties behind their number. A negative number of properties is invalid data.
pub open spec fn parse_payload(raw: Seq<u8>) -> Result<(PayloadView, nat), IoError> {
    match parse_varint(raw) {
        Err(e) => Err(e),
        Ok((version, n1)) => match parse_string(raw.skip(n1 as int), 32767) {
            Err(e) => Err(e),
            Ok((client_address, n2)) => match parse_uuid(raw.skip(n1 as int).skip(n2 as int)) {
                Err(e) => Err(e),
                Ok((player_uuid, n3)) => match parse_string(
                    raw.skip(n1 as int).skip(n2 as int).skip(n3 as int),
                    16,
                ) {
                    Err(e) => Err(e),
                    Ok((username, n4)) => match parse_varint(
                        raw.skip(n1 as int).skip(n2 as int).skip(n3 as int).skip(n4 as int),
                    ) {
                        Err(e) => Err(e),
                        Ok((properties_length, n5)) => if properties_length < 0 {
                            Err(IoError::InvalidData)
                        } else {
                            match parse_properties(
                                raw.skip(n1 as int).skip(n2 as int).skip(n3 as int).skip(
                                    n4 as int,
                                ).skip(n5 as int),
                                properties_length as nat,
                            ) {
                                Err(e) => Err(e),
                                Ok((properties, n6)) => Ok(
                                    (
                                        PayloadView {
                                            version,
                                            client_address,
                                            player_uuid,
                                            username,
                                            properties_length,
                                            properties,
                                        },
                                        n1 + n2 + n3 + n4 + n5 + n6,
                                    ),
                                ),
                            }
                        },
                    },
                },
            },
        },
    }
}

/// The tag that HMAC-SHA256 gives to `message` under `key`.
pub uninterp spec fn hmac_sha256(key: Seq<u8>, message: Seq<u8>) -> Seq<u8>;

/// Makes an `Hmac<Sha256>` from `key` with `new_from_slice`, feeds it `message` with `update`
/// and holds `tag` against the result with `verify`, which compares in constant time. Says
/// whether `tag` is the HMAC-SHA256 of `message` under `key`.
#[verifier::external_body]
fn hmac_sha256_verify(key: &[u8], message: &[u8], tag: &[u8; 32]) -> (valid: bool)
    ensures
        valid == (tag@ == hmac_sha256(key@, message@)),
{
    match Hmac::<Sha256>::new_from_slice(key) {
        Ok(mut mac) => {
            mac.update(message);
            mac.verify(tag.into()).is_ok()
        },
        Err(_) => false,
    }
}

/// The answer to the plugin request. The fields are what the signed bytes spell, so they are
/// read through the methods and cannot be changed.
#[derive(Debug)]
pub struct VelocityLoginPluginResponse {
    connection_id: VarInt,
    version: VarInt,
    signature: [u8; 32],
    raw_remaining_data: Vec<u8>,
    client_address: MCString<32767>,
    player_uuid: Uuid,
    username: MCString<16>,
    properties_length: VarInt,
    properties: Vec<Property>,
}

/// What a `VelocityLoginPluginResponse` holds.
pub struct ResponseView {
    /// The message ID of the request that is answered.
    pub connection_id: i32,
    /// The 32 bytes of the signature.
    pub signature: Seq<u8>,
    /// The signed bytes, as they came.
    pub raw_payload: Seq<u8>,
    /// What the signed bytes spell.
    pub payload: PayloadView,
}

impl View for VelocityLoginPluginResponse {
    type V = ResponseView;

    closed spec fn view(&self) -> ResponseView {
        ResponseView {
            connection_id: self.connection_id@,
            signature: self.signature@,
            raw_payload: self.raw_remaining_data@,
            payload: PayloadView {
                version: self.version@,
                client_address: self.client_address@,
                player_uuid: self.player_uuid@,
                username: self.username@,
                properties_length: self.properties_length@,
                properties: property_views(self.properties@),
            },
        }
    }
}

/// Whether `v` can be the view of a response: the signature has 32 bytes, the signed bytes fit
/// a frame, and the fields are what the signed bytes spell.
pub open spec fn response_wf(v: ResponseView) -> bool {
    &&& v.signature.len() == 32
    &&& v.raw_payload.len() <= 0x7fff_ffff
    &&& parse_payload(v.raw_payload) matches Ok((payload, _)) && payload == v.payload
}

impl VelocityLoginPluginResponse {
    #[verifier::type_invariant]
    spec fn inv(self) -> bool {
        response_wf(self@)
    }

    /// The message ID of the request that is answered.
    pub fn connection_id(&self) -> (id: VarInt)
        ensures
            id@ == self@.connection_id,
    {
        self.connection_id
    }

    /// The version of the forwarding scheme.
    pub fn version(&self) -> (version: VarInt)
        ensures
            version@ == self@.payload.version,
    {
        self.version
    }

    /// The signature over the payload.
    pub fn signature(&self) -> (signature: &[u8; 32])
        ensures
            signature@ == self@.signature,
    {
        &self.signature
    }

    /// The signed bytes, as they came.
    pub fn raw_payload(&self) -> (raw: &[u8])
        ensures
            raw@ == self@.raw_payload,
            response_wf(self@),
    {
        proof {
            use_type_invariant(self);
        }
        self.raw_remaining_data.as_slice()
    }

    /// The address from which the player reached the upstream proxy.
    pub fn client_address(&self) -> (address: &MCString<32767>)
        ensures
            address@ == self@.payload.client_address,
    {
        &self.client_address
    }

    /// The player's identifier.
    pub fn player_uuid(&self) -> (id: Uuid)
        ensures
            id@ == self@.payload.player_uuid,
    {
        self.player_uuid
    }

    /// The player's name as the upstream proxy knows it.
    pub fn username(&self) -> (name: &MCString<16>)
        ensures
            name@ == self@.payload.username,
    {
        &self.username
    }

    /// The number of properties that the payload announces.
    pub fn properties_length(&self) -> (count: VarInt)
        ensures
            count@ == self@.payload.properties_length,
    {
        self.properties_length
    }

    /// The properties of the player's profile.
    pub fn properties(&self) -> (properties: &Vec<Property>)
        ensures
            property_views(properties@) == self@.payload.properties,
    {
        &self.properties
    }

    /// Whether the signature is the HMAC-SHA256 of the signed bytes, as they came, under the
    /// UTF-8 bytes of `secret`.
    pub fn validate(&self, secret: &str) -> (valid: bool)
        ensures
            valid == signature_valid(secret@, self@),
    {
        hmac_sha256_verify(secret.as_bytes(), self.raw_remaining_data.as_slice(), &self.signature)
    }
}

/// Whether the signature of `v` is the HMAC-SHA256 of its signed bytes under the UTF-8 bytes of
/// `secret`.
pub open spec fn signature_valid(secret: Seq<char>, v: ResponseView) -> bool {
    v.signature == hmac_sha256(vstd::utf8::encode_utf8(secret), v.raw_payload)
}

impl PacketBody for VelocityLoginPluginResponse {
    /// The message ID, the byte `0x01`, the signature, and the signed bytes.
    open spec fn body(v: ResponseView) -> Seq<u8> {
        varint_bytes(v.connection_id) + seq![0x01u8] + v.signature + v.raw_payload
    }
}

impl Packet<Managed> for VelocityLoginPluginResponse {
    open spec fn spec_packet_id() -> u8 {
        0x02
    }

    fn packet_id() -> (id: Managed) {
        Managed(0x02)
    }

    fn byte_size(&self) -> (n: usize) {
        proof {
            use_type_invariant(self);
            lemma_varint_size(self.connection_id@);
        }
        self.connection_id.byte_size() + 1 + 32 + self.raw_remaining_data.len()
    }
}

/// The fields of a payload, as they were read.
struct Payload {
    version: VarInt,
    client_address: MCString<32767>,
    player_uuid: Uuid,
    username: MCString<16>,
    properties_length: VarInt,
    properties: Vec<Property>,
}

impl View for Payload {
    type V = PayloadView;

    closed spec fn view(&self) -> PayloadView {
        PayloadView {
            version: self.version@,
            client_address: self.client_address@,
            player_uuid: self.player_uuid@,
            username: self.username@,
            properties_length: self.properties_length@,
            properties: property_views(self.properties@),
        }
    }
}

/// Reads the fields of a payload off the front of `reader`.
#[verifier::rlimit(30)]
fn read_payload(reader: &mut ByteReader) -> (r: Result<Payload, IoError>)
    ensures
        match parse_payload(old(reader)@) {
            Ok((v, n)) => r is Ok && r.unwrap()@ == v,
            Err(e) => r matches Err(x) && x == e,
        },
{
    let version = VarInt::read(reader)?;
    let client_address = MCString::<32767>::read(reader)?;
    let player_uuid = Uuid::read(reader)?;
    let username = MCString::<16>::read(reader)?;
    let properties_length = VarInt::read(reader)?;
    if properties_length.get() < 0 {
        return Err(IoError::InvalidData);
    }
    let properties = read_properties(reader, properties_length.get())?;
    Ok(Payload { version, client_address, player_uuid, username, properties_length, properties })
}

/// Copies 32 bytes into an array.
fn signature_of(bytes: &Vec<u8>) -> (signature: [u8; 32])
    requires
        bytes@.len() == 32,
    ensures
        signature@ == bytes@,
{
    let mut signature = [0u8; 32];
    let mut i: usize = 0;
    while i < 32
        invariant
            i <= 32,
            bytes@.len() == 32,
            forall|j: int| 0 <= j < i ==> signature@[j] == bytes@[j],
        decreases 32 - i,
    {
        signature[i] = bytes[i];
        i = i + 1;
    }
    assert(signature@ =~= bytes@);
    signature
}

impl ReadPacket for VelocityLoginPluginResponse {
    /// The message ID, a byte that must be `0x01`, the 32 bytes of the signature, and then as
    /// signed bytes all that the announced length has beyond these. The signed bytes are kept
    /// as they came and must spell the fields of a payload; what follows the fields in them is
    /// not looked at. Signed bytes that do not spell a payload, or end before it does, are
    /// invalid data, and so is an announced length too small for what goes before them.
    open spec fn spec_read(input: Seq<u8>, expected_length: i32) -> Result<
        (ResponseView, nat),
        IoError,
    > {
        match parse_varint(input) {
            Err(e) => Err(e),
            Ok((connection_id, n1)) => match parse_u8(input.skip(n1 as int)) {
                Err(e) => Err(e),
                Ok((has_payload, n2)) => {
                    let rest = input.skip(n1 as int).skip(n2 as int);
                    let remaining = expected_length - (varint_size(connection_id) + 1 + 32);
                    if has_payload != 0x01 {
                        Err(IoError::InvalidData)
                    } else if rest.len() < 32 {
                        Err(IoError::UnexpectedEof)
                    } else if remaining < 0 {
                        Err(IoError::InvalidData)
                    } else if rest.len() < 32 + remaining {
                        Err(IoError::UnexpectedEof)
                    } else {
                        let raw_payload = rest.skip(32).take(remaining);
                        match parse_payload(raw_payload) {
                            Err(_) => Err(IoError::InvalidData),
                            Ok((payload, _)) => Ok(
                                (
                                    ResponseView {
                                        connection_id,
                                        signature: rest.take(32),
                                        raw_payload,
                                        payload,
                                    },
                                    (n1 + n2 + 32 + remaining) as nat,
                                ),
                            ),
                        }
                    }
                },
            },
        }
    }

    #[verifier::rlimit(30)]
    proof fn lemma_read_is_stable(input: Seq<u8>, more: Seq<u8>, expected_length: i32) {
        lemma_varint_takes_bytes(input);
        if let Ok((connection_id, n1)) = parse_varint(input) {
            lemma_varint_stable(input, more);
            let after_id = input.skip(n1 as int);
            assert((input + more).skip(n1 as int) =~= after_id + more);
            lemma_fixed_stable(after_id, more);
            if let Ok((has_payload, n2)) = parse_u8(after_id) {
                let rest = after_id.skip(n2 as int);
                let remaining = expected_length - (varint_size(connection_id) + 1 + 32);
                assert((after_id + more).skip(n2 as int) =~= rest + more);
                if rest.len() >= 32 {
                    assert((rest + more).take(32) =~= rest.take(32));
                    if 0 <= remaining && rest.len() >= 32 + remaining {
                        assert((rest + more).skip(32).take(remaining) =~= rest.skip(32).take(
                            remaining,
                        ));
                    }
                }
            }
        } else if parse_varint(input) != Err::<(i32, nat), IoError>(IoError::UnexpectedEof) {
            lemma_varint_stable(input, more);
        }
    }

    #[verifier::rlimit(30)]
    fn read(reader: &mut ByteReader, expected_length: VarInt) -> (r: Result<Self, IoError>) {
        let connection_id = VarInt::read(reader)?;
        if reader.read_u8()? != 0x01 {
            return Err(IoError::InvalidData);
        }
        let signature = signature_of(&reader.read_exact(32)?);
        proof {
            lemma_varint_size(connection_id@);
        }
        let bytes_read_so_far = connection_id.byte_size() + 1 + 32;
        if (expected_length.get() as i64) < bytes_read_so_far as i64 {
            return Err(IoError::InvalidData);
        }
        let remaining_bytes = expected_length.get() as usize - bytes_read_so_far;
        let raw_remaining_data = reader.read_exact(remaining_bytes)?;
        let mut inner = ByteReader::new(raw_remaining_data.as_slice());
        let payload = match read_payload(&mut inner) {
            Ok(payload) => payload,
            Err(_) => {
                return Err(IoError::InvalidData);
            },
        };
        proof {
            let (_, n) = Self::spec_read(old(reader)@, expected_length@)->Ok_0;
            assert(reader@ =~= old(reader)@.skip(n as int));
        }
        Ok(
            VelocityLoginPluginResponse {
                connection_id,
                version: payload.version,
                signature,
                raw_remaining_data,
                client_address: payload.client_address,
                player_uuid: payload.player_uuid,
                username: payload.username,
                properties_length: payload.properties_length,
                properties: payload.properties,
            },
        )
    }
}

} // verus!
