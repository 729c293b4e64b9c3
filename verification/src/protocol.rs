//! Tipt protocols.
use vstd::prelude::*;
use vstd::slice::slice_subrange;

use crate::compat;
use crate::handshake;
use crate::msgpack;

verus! {

/// The client-node packet type.
#[derive(Debug, Clone, Copy, PartialEq, Eq, Structural)]
pub enum CNPacketType {
    /// Indicates a request and demands a response.
    Request,
    /// Indicates a response to a request.
    Response,
    /// Sent when one party has information for the other party which is not sent as part of a
    /// response. No response is needed.
    Event,
}

/// The request type for requests sent *to* a node.
#[derive(Debug, Clone, Copy, PartialEq, Eq, Structural)]
pub enum CNNodeRequestType {
    /// The client wants to ensure that it is compatible with the client-node protocol version the
    /// server is running.
    Handshake,
    /// The user wants register on the node.
    Register,
    /// The user wants to sign in.
    SignIn,
    /// Obtains information about the node.
    GetInfo,
    /// The client requests that a message be forwarded to another node.
    Forward,
}

impl CNPacketType {
    /// The number that stands for the packet type on the wire.
    pub open spec fn raw(self) -> u8 {
        match self {
            CNPacketType::Request => 0x00,
            CNPacketType::Response => 0x01,
            CNPacketType::Event => 0x02,
        }
    }

    /// The packet type that a number stands for.
    pub open spec fn of_raw(value: u8) -> Option<CNPacketType> {
        match value {
            0x00u8 => Some(CNPacketType::Request),
            0x01u8 => Some(CNPacketType::Response),
            0x02u8 => Some(CNPacketType::Event),
            _ => None,
        }
    }

    /// Returns the packet type that a number stands for.
    pub fn from_raw(value: u8) -> (r: Option<CNPacketType>)
        ensures
            r == Self::of_raw(value),
    {
        match value {
            0x00 => Some(CNPacketType::Request),
            0x01 => Some(CNPacketType::Response),
            0x02 => Some(CNPacketType::Event),
            _ => None,
        }
    }
}

impl From<CNPacketType> for u8 {
    fn from(packet_type: CNPacketType) -> (r: u8) {
        match packet_type {
            CNPacketType::Request => 0x00,
            CNPacketType::Response => 0x01,
            CNPacketType::Event => 0x02,
        }
    }
}

impl vstd::std_specs::convert::FromSpecImpl<CNPacketType> for u8 {
    open spec fn obeys_from_spec() -> bool {
        true
    }

    open spec fn from_spec(packet_type: CNPacketType) -> u8 {
        packet_type.raw()
    }
}

impl CNNodeRequestType {
    /// The number that stands for the request type on the wire.
    pub open spec fn raw(self) -> u8 {
        match self {
            CNNodeRequestType::Handshake => 0x00,
            CNNodeRequestType::Register => 0x01,
            CNNodeRequestType::SignIn => 0x02,
            CNNodeRequestType::GetInfo => 0x03,
            CNNodeRequestType::Forward => 0x20,
        }
    }

    /// The request type that a number stands for.
    pub open spec fn of_raw(value: u8) -> Option<CNNodeRequestType> {
        match value {
            0x00u8 => Some(CNNodeRequestType::Handshake),
            0x01u8 => Some(CNNodeRequestType::Register),
            0x02u8 => Some(CNNodeRequestType::SignIn),
            0x03u8 => Some(CNNodeRequestType::GetInfo),
            0x20u8 => Some(CNNodeRequestType::Forward),
            _ => None,
        }
    }

    /// Returns the request type that a number stands for.
    pub fn from_raw(value: u8) -> (r: Option<CNNodeRequestType>)
        ensures
            r == Self::of_raw(value),
    {
        match value {
            0x00 => Some(CNNodeRequestType::Handshake),
            0x01 => Some(CNNodeRequestType::Register),
            0x02 => Some(CNNodeRequestType::SignIn),
            0x03 => Some(CNNodeRequestType::GetInfo),
            0x20 => Some(CNNodeRequestType::Forward),
            _ => None,
        }
    }

    /// If true, requires the client to be signed out.
    pub open spec fn needs_signed_out(self) -> bool {
        self is Register || self is SignIn
    }

    /// If true, requires the client to be signed in.
    pub open spec fn needs_signed_in(self) -> bool {
        self is Forward
    }

    /// If true, requires the client to be signed out.
    pub fn requires_signed_out(self) -> (r: bool)
        ensures
            r == self.needs_signed_out(),
    {
        match self {
            CNNodeRequestType::Register | CNNodeRequestType::SignIn => true,
            _ => false,
        }
    }

    /// If true, requires the client to be signed in.
    pub fn requires_signed_in(self) -> (r: bool)
        ensures
            r == self.needs_signed_in(),
    {
        match self {
            CNNodeRequestType::Forward => true,
            _ => false,
        }
    }
}

impl From<CNNodeRequestType> for u8 {
    fn from(request_type: CNNodeRequestType) -> (r: u8) {
        match request_type {
            CNNodeRequestType::Handshake => 0x00,
            CNNodeRequestType::Register => 0x01,
            CNNodeRequestType::SignIn => 0x02,
            CNNodeRequestType::GetInfo => 0x03,
            CNNodeRequestType::Forward => 0x20,
        }
    }
}

impl vstd::std_specs::convert::FromSpecImpl<CNNodeRequestType> for u8 {
    open spec fn obeys_from_spec() -> bool {
        true
    }

    open spec fn from_spec(request_type: CNNodeRequestType) -> u8 {
        request_type.raw()
    }
}

/// A packet type and the number that stands for it determine each other.
pub proof fn law_packet_type_raw(packet_type: CNPacketType, value: u8)
    ensures
        CNPacketType::of_raw(value) == Some(packet_type) <==> packet_type.raw() == value,
{
}

/// A request type and the number that stands for it determine each other.
pub proof fn law_request_type_raw(request_type: CNNodeRequestType, value: u8)
    ensures
        CNNodeRequestType::of_raw(value) == Some(request_type) <==> request_type.raw() == value,
{
}

/// No request demands a client that is signed in and signed out at once.
pub proof fn law_sign_in_demands_exclude(request_type: CNNodeRequestType)
    ensures
        !(request_type.needs_signed_in() && request_type.needs_signed_out()),
{
}

/// A packet from a client.
#[derive(Debug)]
pub enum ClientPacket {
    Request(NodeRequest),
}

/// A request from a client.
#[derive(Debug)]
pub enum NodeRequest {
    /// A handshake request.
    Handshake {
        /// The packet ID.
        id: u8,
        /// The client's protocol version.
        version: semver::Version,
    },
}

/// A request as a mathematical value.
pub enum NodeRequestSpec {
    Handshake { id: u8, version: compat::VersionSpec },
}

/// A packet as a mathematical value.
pub enum ClientPacketSpec {
    Request(NodeRequestSpec),
}

impl View for NodeRequest {
    type V = NodeRequestSpec;

    open spec fn view(&self) -> NodeRequestSpec {
        match *self {
            NodeRequest::Handshake { id, version } => NodeRequestSpec::Handshake {
                id,
                version: compat::version_view(version),
            },
        }
    }
}

impl View for ClientPacket {
    type V = ClientPacketSpec;

    open spec fn view(&self) -> ClientPacketSpec {
        match *self {
            ClientPacket::Request(request) => ClientPacketSpec::Request(request@),
        }
    }
}

/// A packet to a client.
#[derive(Debug)]
pub enum NodePacket {
    /// A response to the request with this ID.
    Response(u8, Result<NodeResponse, NodeError>),
}

/// What the node answers to a request that it grants.
#[derive(Debug)]
pub enum NodeResponse {
    /// The response to a handshake request.
    Handshake {
        /// The node's protocol version.
        version: semver::Version,
        /// Whether the client's protocol version is compatible with it.
        compatible: bool,
    },
}

/// What the node answers to a request that it does not grant.
#[derive(Debug)]
pub struct NodeError;

/// A packet to a client as a mathematical value.
pub enum NodePacketSpec {
    Response(u8, Result<NodeResponseSpec, NodeError>),
}

/// A response as a mathematical value.
pub enum NodeResponseSpec {
    Handshake { version: compat::VersionSpec, compatible: bool },
}

impl View for NodeResponse {
    type V = NodeResponseSpec;

    open spec fn view(&self) -> NodeResponseSpec {
        match *self {
            NodeResponse::Handshake { version, compatible } => NodeResponseSpec::Handshake {
                version: compat::version_view(version),
                compatible,
            },
        }
    }
}

impl View for NodePacket {
    type V = NodePacketSpec;

    open spec fn view(&self) -> NodePacketSpec {
        match *self {
            NodePacket::Response(id, Ok(response)) => NodePacketSpec::Response(
                id,
                Ok(response@),
            ),
            NodePacket::Response(id, Err(e)) => NodePacketSpec::Response(id, Err(e)),
        }
    }
}

/// The fields of a packet.
#[derive(Debug, Clone, Copy, PartialEq, Eq, Structural)]
pub enum Field {
    /// `id`, the packet ID.
    Id,
    /// `pakt`, the packet type.
    PacketType,
    /// `reqt`, the request type.
    RequestType,
    /// `body`, the body of a request.
    Body,
}

/// Why a packet cannot be deserialized.
#[derive(Debug, Clone, Copy, PartialEq, Eq, Structural)]
pub enum DecodeError {
    /// The packet does not start with the head of a map.
    InvalidMap,
    /// The packet has this many fields, which are more than there can be.
    TooManyFields(u32),
    /// The key of a field is no complete string in UTF-8, or is longer than four bytes.
    InvalidKey,
    /// No field has this key, padded with spaces to four bytes.
    UnknownField(u8, u8, u8, u8),
    /// The packet ID is no integer from 0 to 255.
    InvalidId,
    /// The packet type is no integer from 0 to 255.
    InvalidPacketType,
    /// No packet type has this number.
    UnknownPacketType(u8),
    /// The size of the value of a field cannot be told.
    InvalidValue(msgpack::SizeError),
    /// The packet ends inside the value of a field.
    TruncatedValue,
    /// The packet lacks a field.
    MissingField(Field),
    /// The request type is no integer from 0 to 255.
    InvalidRequestType,
    /// No request type has this number.
    UnknownRequestType(u8),
    /// The body does not hold what the request needs.
    InvalidBody,
}

/// The outcome of reading a packet.
pub enum Reading<T> {
    /// The packet was read.
    Done(T),
    /// The packet is malformed.
    Failed(DecodeError),
    /// The packet is of a kind that is not implemented.
    Unsupported,
}

/// What was read of the fields of a packet. The request type, the body and the error of a packet
/// are kept as they stand in the data, because their meaning depends on the packet type.
pub struct Fields {
    pub id: Option<u8>,
    pub packet_type: Option<CNPacketType>,
    pub req_type: Option<Seq<u8>>,
    pub body: Option<Seq<u8>>,
    pub err: Option<Seq<u8>>,
}

/// The fields before any was read.
pub open spec fn no_fields() -> Fields {
    Fields { id: None, packet_type: None, req_type: None, body: None, err: None }
}

/// The largest number of fields that a packet can have.
pub const MAX_FIELDS: u32 = 5;

/// The number of bytes of the longest key.
pub const KEY_SIZE: usize = 4;

/// A key, padded with spaces to four bytes.
pub open spec fn padded_key(key: Seq<u8>) -> Seq<u8> {
    key + Seq::new((KEY_SIZE - key.len()) as nat, |i: int| 0x20u8)
}

/// The padded key of the field `id`, the packet ID.
pub open spec fn id_key() -> Seq<u8> {
    seq![0x69u8, 0x64, 0x20, 0x20]
}

/// The padded key of the field `pakt`, the packet type.
pub open spec fn pakt_key() -> Seq<u8> {
    seq![0x70u8, 0x61, 0x6b, 0x74]
}

/// The padded key of the field `reqt`, the request type.
pub open spec fn reqt_key() -> Seq<u8> {
    seq![0x72u8, 0x65, 0x71, 0x74]
}

/// The padded key of the field `body`.
pub open spec fn body_key() -> Seq<u8> {
    seq![0x62u8, 0x6f, 0x64, 0x79]
}

/// The padded key of the field `err`.
pub open spec fn err_key() -> Seq<u8> {
    seq![0x65u8, 0x72, 0x72, 0x20]
}

/// The value at the start of the data, as it stands there.
pub open spec fn raw_value(data: Seq<u8>) -> Result<Seq<u8>, DecodeError> {
    match msgpack::value_size(data) {
        Ok(n) => if n <= data.len() {
            Ok(data.take(n as int))
        } else {
            Err(DecodeError::TruncatedValue)
        },
        Err(e) => Err(DecodeError::InvalidValue(e)),
    }
}

/// Reads the value of the field with the given padded key: the fields by then, and the size of
/// the value.
pub open spec fn field_value(key: Seq<u8>, data: Seq<u8>, fields: Fields) -> Result<
    (Fields, nat),
    DecodeError,
> {
    if key == id_key() {
        match msgpack::u8_of(data) {
            Some((id, n)) => Ok((Fields { id: Some(id), ..fields }, n)),
            None => Err(DecodeError::InvalidId),
        }
    } else if key == pakt_key() {
        match msgpack::u8_of(data) {
            Some((value, n)) => match CNPacketType::of_raw(value) {
                Some(packet_type) => Ok(
                    (Fields { packet_type: Some(packet_type), ..fields }, n),
                ),
                None => Err(DecodeError::UnknownPacketType(value)),
            },
            None => Err(DecodeError::InvalidPacketType),
        }
    } else if key == reqt_key() {
        match raw_value(data) {
            Ok(raw) => Ok(
                (Fields { req_type: Some(raw), ..fields }, raw.len()),
            ),
            Err(e) => Err(e),
        }
    } else if key == body_key() {
        match raw_value(data) {
            Ok(raw) => Ok((Fields { body: Some(raw), ..fields }, raw.len())),
            Err(e) => Err(e),
        }
    } else if key == err_key() {
        match raw_value(data) {
            Ok(raw) => Ok((Fields { err: Some(raw), ..fields }, raw.len())),
            Err(e) => Err(e),
        }
    } else {
        Err(DecodeError::UnknownField(key[0], key[1], key[2], key[3]))
    }
}

/// Reads the field at the start of the data: the fields by then, and the size of the field.
#[verifier::opaque]
pub open spec fn field_of(data: Seq<u8>, fields: Fields) -> Result<(Fields, nat), DecodeError> {
    match msgpack::str_of(data) {
        Some((key, n)) => if key.len() <= KEY_SIZE {
            match field_value(padded_key(key), data.skip(n as int), fields) {
                Ok((fields, m)) => Ok((fields, n + m)),
                Err(e) => Err(e),
            }
        } else {
            Err(DecodeError::InvalidKey)
        },
        None => Err(DecodeError::InvalidKey),
    }
}

/// Reads the next `left` fields. Where a field occurs twice, the later one counts.
pub open spec fn fields_of(data: Seq<u8>, left: nat, fields: Fields) -> Result<Fields, DecodeError>
    decreases left,
{
    if left == 0 {
        Ok(fields)
    } else {
        match field_of(data, fields) {
            Ok((fields, n)) => fields_of(data.skip(n as int), (left - 1) as nat, fields),
            Err(e) => Err(e),
        }
    }
}

/// What the fields of a packet make of it: the ID and the body of a handshake request.
pub open spec fn handshake_of(fields: Fields) -> Reading<(u8, Seq<u8>)> {
    match (fields.id, fields.packet_type, fields.req_type) {
        (None, _, _) => Reading::Failed(DecodeError::MissingField(Field::Id)),
        (_, None, _) => Reading::Failed(DecodeError::MissingField(Field::PacketType)),
        (_, _, None) => Reading::Failed(DecodeError::MissingField(Field::RequestType)),
        (Some(id), Some(CNPacketType::Request), Some(req_type)) => match fields.body {
            Some(body) => match msgpack::u8_of(req_type) {
                Some((value, _)) => match CNNodeRequestType::of_raw(value) {
                    Some(CNNodeRequestType::Handshake) => Reading::Done((id, body)),
                    Some(_) => Reading::Unsupported,
                    None => Reading::Failed(DecodeError::UnknownRequestType(value)),
                },
                None => Reading::Failed(DecodeError::InvalidRequestType),
            },
            None => Reading::Failed(DecodeError::MissingField(Field::Body)),
        },
        _ => Reading::Unsupported,
    }
}

/// The frame of a packet: the ID and the body of the handshake request that it is.
pub open spec fn frame_of(data: Seq<u8>) -> Reading<(u8, Seq<u8>)> {
    match msgpack::map_head(data) {
        Some((count, head)) => if count > MAX_FIELDS {
            Reading::Failed(DecodeError::TooManyFields(count as u32))
        } else {
            match fields_of(data.skip(head as int), count, no_fields()) {
                Ok(fields) => handshake_of(fields),
                Err(e) => Reading::Failed(e),
            }
        },
        None => Reading::Failed(DecodeError::InvalidMap),
    }
}

/// Whether the packet can be handled: it is malformed, or of a kind that is implemented.
pub open spec fn supported(data: Seq<u8>) -> bool {
    !(frame_of(data) is Unsupported)
}

/// The request that a handshake with this ID and body is, given the version in the body.
pub open spec fn handshake_packet(id: u8, version: Option<compat::VersionSpec>) -> Result<
    ClientPacketSpec,
    DecodeError,
> {
    match version {
        Some(version) => Ok(ClientPacketSpec::Request(NodeRequestSpec::Handshake { id, version })),
        None => Err(DecodeError::InvalidBody),
    }
}

/// What a packet that can be handled deserializes to.
pub open spec fn packet_of(data: Seq<u8>) -> Result<ClientPacketSpec, DecodeError> {
    match frame_of(data) {
        Reading::Done((id, body)) => handshake_packet(id, handshake::body_version(body)),
        Reading::Failed(e) => Err(e),
        Reading::Unsupported => arbitrary(),
    }
}

/// The value of the result of deserializing a packet.
pub open spec fn result_view(result: Result<ClientPacket, DecodeError>) -> Result<
    ClientPacketSpec,
    DecodeError,
> {
    match result {
        Ok(packet) => Ok(packet@),
        Err(e) => Err(e),
    }
}

/// The fields of a packet that have been read so far.
struct RawFields<'a> {
    id: Option<u8>,
    packet_type: Option<CNPacketType>,
    req_type: Option<&'a [u8]>,
    body: Option<&'a [u8]>,
    err: Option<&'a [u8]>,
}

/// The bytes of an optional slice.
spec fn bytes_view(bytes: Option<&[u8]>) -> Option<Seq<u8>> {
    match bytes {
        Some(bytes) => Some(bytes@),
        None => None,
    }
}

impl<'a> View for RawFields<'a> {
    type V = Fields;

    closed spec fn view(&self) -> Fields {
        Fields {
            id: self.id,
            packet_type: self.packet_type,
            req_type: bytes_view(self.req_type),
            body: bytes_view(self.body),
            err: bytes_view(self.err),
        }
    }
}

/// Whether what was read of a field agrees with `expected`, and lies within `len` bytes.
spec fn same_field(
    got: Result<(RawFields<'_>, usize), DecodeError>,
    expected: Result<(Fields, nat), DecodeError>,
    len: nat,
) -> bool {
    match got {
        Ok((fields, n)) => n <= len && expected == Ok::<(Fields, nat), DecodeError>(
            (fields@, n as nat),
        ),
        Err(e) => expected == Err::<(Fields, nat), DecodeError>(e),
    }
}

/// Whether a key is the given four bytes.
fn is_key(key: &[u8; 4], a: u8, b: u8, c: u8, d: u8) -> (r: bool)
    ensures
        r == (key@ == seq![a, b, c, d]),
{
    let r = key[0] == a && key[1] == b && key[2] == c && key[3] == d;
    assert(r ==> key@ == seq![a, b, c, d]);
    r
}

/// Takes the value at the start of the data as it stands there.
fn take_raw_value<'a>(data: &'a [u8]) -> (r: Result<&'a [u8], DecodeError>)
    ensures
        match r {
            Ok(raw) => raw@.len() <= data@.len() && raw_value(data@) == Ok::<
                Seq<u8>,
                DecodeError,
            >(raw@),
            Err(e) => raw_value(data@) == Err::<Seq<u8>, DecodeError>(e),
        },
{
    match msgpack::msgpack_value_size(data) {
        Ok(n) => if n <= data.len() as u128 {
            let raw = slice_subrange(data, 0, n as usize);
            assert(raw@ == data@.take(n as int));
            Ok(raw)
        } else {
            Err(DecodeError::TruncatedValue)
        },
        Err(e) => Err(DecodeError::InvalidValue(e)),
    }
}

/// Reads the value of the field with the given padded key.
fn read_field_value<'a>(key: &[u8; 4], data: &'a [u8], fields: RawFields<'a>) -> (r: Result<
    (RawFields<'a>, usize),
    DecodeError,
>)
    ensures
        same_field(r, field_value(key@, data@, fields@), data@.len()),
{
    if is_key(key, 0x69, 0x64, 0x20, 0x20) {
        match msgpack::decode_u8(data) {
            Ok((id, n)) => Ok((RawFields { id: Some(id), ..fields }, n as usize)),
            Err(_) => Err(DecodeError::InvalidId),
        }
    } else if is_key(key, 0x70, 0x61, 0x6b, 0x74) {
        match msgpack::decode_u8(data) {
            Ok((value, n)) => match CNPacketType::from_raw(value) {
                Some(packet_type) => Ok(
                    (RawFields { packet_type: Some(packet_type), ..fields }, n as usize),
                ),
                None => Err(DecodeError::UnknownPacketType(value)),
            },
            Err(_) => Err(DecodeError::InvalidPacketType),
        }
    } else if is_key(key, 0x72, 0x65, 0x71, 0x74) {
        match take_raw_value(data) {
            Ok(raw) => Ok(
                (RawFields { req_type: Some(raw), ..fields }, raw.len()),
            ),
            Err(e) => Err(e),
        }
    } else if is_key(key, 0x62, 0x6f, 0x64, 0x79) {
        match take_raw_value(data) {
            Ok(raw) => Ok(
                (RawFields { body: Some(raw), ..fields }, raw.len()),
            ),
            Err(e) => Err(e),
        }
    } else if is_key(key, 0x65, 0x72, 0x72, 0x20) {
        match take_raw_value(data) {
            Ok(raw) => Ok(
                (RawFields { err: Some(raw), ..fields }, raw.len()),
            ),
            Err(e) => Err(e),
        }
    } else {
        Err(DecodeError::UnknownField(key[0], key[1], key[2], key[3]))
    }
}

/// Reads the field at the start of the data.
fn read_field<'a>(data: &'a [u8], fields: RawFields<'a>) -> (r: Result<
    (RawFields<'a>, usize),
    DecodeError,
>)
    ensures
        same_field(r, field_of(data@, fields@), data@.len()),
{
    reveal(field_of);
    // A shorter key is padded with spaces, so trailing spaces in a key do not count.
    let mut key: [u8; 4] = [0x20; 4];
    let n: usize = match msgpack::read_str(data, &mut key) {
        Ok(n) => n as usize,
        Err(_) => return Err(DecodeError::InvalidKey),
    };
    let value = slice_subrange(data, n, data.len());
    proof {
        let name = msgpack::str_of(data@).unwrap().0;
        assert(key@ == padded_key(name));
        assert(value@ == data@.skip(n as int));
    }
    match read_field_value(&key, value, fields) {
        Ok((fields, m)) => Ok((fields, n + m)),
        Err(e) => Err(e),
    }
}

/// Reads the fields of a packet whose head takes `head` bytes and announces `count` fields.
fn read_fields<'a>(data: &'a [u8], head: usize, count: u32) -> (r: Result<
    RawFields<'a>,
    DecodeError,
>)
    requires
        head <= data@.len(),
    ensures
        match r {
            Ok(fields) => fields_of(data@.skip(head as int), count as nat, no_fields())
                == Ok::<Fields, DecodeError>(fields@),
            Err(e) => fields_of(data@.skip(head as int), count as nat, no_fields())
                == Err::<Fields, DecodeError>(e),
        },
{
    let mut pos: usize = head;
    let mut left: u32 = count;
    let mut fields = RawFields {
        id: None,
        packet_type: None,
        req_type: None,
        body: None,
        err: None,
    };
    while left > 0
        invariant
            head <= pos <= data@.len(),
            fields_of(data@.skip(head as int), count as nat, no_fields()) == fields_of(
                data@.skip(pos as int),
                left as nat,
                fields@,
            ),
        decreases left,
    {
        let rest = slice_subrange(data, pos, data.len());
        assert(rest@ == data@.skip(pos as int));
        match read_field(rest, fields) {
            Ok((now, n)) => {
                assert(rest@.skip(n as int) == data@.skip(pos + n));
                fields = now;
                pos = pos + n;
            },
            Err(e) => return Err(e),
        }
        left = left - 1;
    }
    Ok(fields)
}

/// Whether what was read of a packet agrees with `expected`.
spec fn same_frame(got: Reading<(u8, &[u8])>, expected: Reading<(u8, Seq<u8>)>) -> bool {
    match got {
        Reading::Done((id, body)) => expected == Reading::Done((id, body@)),
        Reading::Failed(e) => expected == Reading::<(u8, Seq<u8>)>::Failed(e),
        Reading::Unsupported => expected is Unsupported,
    }
}

/// Tells from its fields what a packet is.
fn read_handshake<'a>(fields: RawFields<'a>) -> (r: Reading<(u8, &'a [u8])>)
    ensures
        same_frame(r, handshake_of(fields@)),
{
    let id: u8 = match fields.id {
        Some(id) => id,
        None => return Reading::Failed(DecodeError::MissingField(Field::Id)),
    };
    let packet_type = match fields.packet_type {
        Some(packet_type) => packet_type,
        None => return Reading::Failed(DecodeError::MissingField(Field::PacketType)),
    };
    let req_type = match fields.req_type {
        Some(req_type) => req_type,
        None => return Reading::Failed(DecodeError::MissingField(Field::RequestType)),
    };
    match packet_type {
        CNPacketType::Request => {
            // requests must have a body
            let body = match fields.body {
                Some(body) => body,
                None => return Reading::Failed(DecodeError::MissingField(Field::Body)),
            };
            match msgpack::decode_u8(req_type) {
                Ok((value, _)) => match CNNodeRequestType::from_raw(value) {
                    Some(CNNodeRequestType::Handshake) => Reading::Done((id, body)),
                    Some(_) => Reading::Unsupported,
                    None => Reading::Failed(DecodeError::UnknownRequestType(value)),
                },
                Err(_) => Reading::Failed(DecodeError::InvalidRequestType),
            }
        },
        CNPacketType::Response => Reading::Unsupported,
        CNPacketType::Event => Reading::Unsupported,
    }
}

/// Reads the frame of a packet.
fn read_frame<'a>(data: &'a [u8]) -> (r: Reading<(u8, &'a [u8])>)
    ensures
        same_frame(r, frame_of(data@)),
{
    match msgpack::read_map_len(data) {
        Ok((count, head)) => {
            if count > MAX_FIELDS {
                return Reading::Failed(DecodeError::TooManyFields(count));
            }
            match read_fields(data, head as usize, count) {
                Ok(fields) => read_handshake(fields),
                Err(e) => Reading::Failed(e),
            }
        },
        Err(_) => Reading::Failed(DecodeError::InvalidMap),
    }
}

impl ClientPacket {
    /// Returns whether a packet can be handed to `deserialize`: it is malformed, or of a kind that
    /// is implemented.
    pub fn is_supported(data: &[u8]) -> (r: bool)
        ensures
            r == supported(data@),
    {
        match read_frame(data) {
            Reading::Unsupported => false,
            _ => true,
        }
    }

    /// Makes the packet of a handshake request out of its ID and the version in its body.
    pub fn from_handshake(id: u8, version: Option<semver::Version>) -> (r: Result<
        ClientPacket,
        DecodeError,
    >)
        ensures
            result_view(r) == handshake_packet(id, compat::found_view(version)),
    {
        match version {
            Some(version) => Ok(ClientPacket::Request(NodeRequest::Handshake { id, version })),
            None => Err(DecodeError::InvalidBody),
        }
    }

    /// Deserializes a msgpack packet from a client.
    pub fn deserialize(data: &[u8]) -> (r: Result<ClientPacket, DecodeError>)
        requires
            supported(data@),
        ensures
            result_view(r) == packet_of(data@),
            match r {
                Ok(packet) => packet_of(data@) == Ok::<ClientPacketSpec, DecodeError>(packet@),
                Err(e) => packet_of(data@) == Err::<ClientPacketSpec, DecodeError>(e),
            },
    {
        match read_frame(data) {
            Reading::Done((id, body)) => ClientPacket::from_handshake(
                id,
                handshake::handshake_version(body),
            ),
            Reading::Failed(e) => Err(e),
            Reading::Unsupported => vstd::pervasive::unreached(),
        }
    }
}

/// The value of a request from a client is its ID and the value of its version.
pub proof fn law_request_view(id: u8, version: semver::Version)
    ensures
        ClientPacket::Request(NodeRequest::Handshake { id, version })@ == ClientPacketSpec::Request(
            NodeRequestSpec::Handshake { id, version: compat::version_view(version) },
        ),
{
}

/// The value of a response to a client is its ID, the value of its version and whether the client
/// is compatible.
pub proof fn law_response_view(id: u8, version: semver::Version, compatible: bool)
    ensures
        NodePacket::Response(id, Ok(NodeResponse::Handshake { version, compatible }))@
            == NodePacketSpec::Response(
            id,
            Ok(
                NodeResponseSpec::Handshake {
                    version: compat::version_view(version),
                    compatible,
                },
            ),
        ),
{
}

} // verus!
