//! How packets are laid out, and what that means for reading them.
use vstd::prelude::*;

use crate::compat;
use crate::handshake;
use crate::msgpack;
use crate::protocol;

verus! {

/// A field as it stands in a packet: the head of its key, which any string may have, the bytes of
/// its key, and its encoded value.
pub struct Entry {
    pub head: Seq<u8>,
    pub key: Seq<u8>,
    pub value: Seq<u8>,
}

impl Entry {
    /// The key, padded to full length, which tells the fields apart.
    pub open spec fn name(self) -> Seq<u8> {
        protocol::padded_key(self.key)
    }

    /// Whether the entry is a known key with a complete value that suits it.
    pub open spec fn readable(self) -> bool {
        &&& msgpack::str_head(self.head) == Some((self.key.len(), self.head.len()))
        &&& self.key.len() <= protocol::KEY_SIZE
        &&& vstd::utf8::valid_utf8(self.key)
        &&& suits(self.name(), self.value)
    }

    /// The bytes of the entry: the key, then the value.
    pub open spec fn bytes(self) -> Seq<u8> {
        self.head + self.key + self.value
    }

    /// The fields after this entry has been read.
    pub open spec fn put(self, fields: protocol::Fields) -> protocol::Fields {
        let name = self.name();
        if name == protocol::id_key() {
            protocol::Fields { id: Some(msgpack::u8_of(self.value).unwrap().0), ..fields }
        } else if name == protocol::pakt_key() {
            protocol::Fields {
                packet_type: protocol::CNPacketType::of_raw(
                    msgpack::u8_of(self.value).unwrap().0,
                ),
                ..fields
            }
        } else if name == protocol::reqt_key() {
            protocol::Fields { req_type: Some(self.value), ..fields }
        } else if name == protocol::body_key() {
            protocol::Fields { body: Some(self.value), ..fields }
        } else {
            protocol::Fields { err: Some(self.value), ..fields }
        }
    }
}

/// Whether a value is one that the field with the given padded key can have. The packet ID is any
/// integer from 0 to 255 and the packet type one from 0 to 2, in whatever format; the request type,
/// the body and the error are any values.
pub open spec fn suits(name: Seq<u8>, value: Seq<u8>) -> bool {
    if name == seq![0x69u8, 0x64, 0x20, 0x20] {
        msgpack::u8_of(value) matches Some((_, n)) && n == value.len()
    } else if name == seq![0x70u8, 0x61, 0x6b, 0x74] {
        msgpack::u8_of(value) matches Some((raw, n)) && n == value.len() && raw <= 2
    } else {
        &&& name == seq![0x72u8, 0x65, 0x71, 0x74] || name == seq![0x62u8, 0x6f, 0x64, 0x79]
            || name == seq![0x65u8, 0x72, 0x72, 0x20]
        &&& msgpack::value_size(value) == Ok::<nat, msgpack::SizeError>(value.len())
    }
}

/// The bytes of entries, one after the other.
pub open spec fn entries_bytes(entries: Seq<Entry>) -> Seq<u8>
    decreases entries.len(),
{
    if entries.len() == 0 {
        Seq::empty()
    } else {
        entries[0].bytes() + entries_bytes(entries.skip(1))
    }
}

/// A packet with these fields, which start with the head of a map.
pub open spec fn packet_bytes(head: Seq<u8>, entries: Seq<Entry>) -> Seq<u8> {
    head + entries_bytes(entries)
}

/// Whether this is the head of a map with as many entries.
pub open spec fn is_map_head(head: Seq<u8>, entries: nat) -> bool {
    msgpack::map_head(head) == Some((entries, head.len()))
}

/// What counts of the entries of a packet: their names and values.
pub open spec fn named_values(entries: Seq<Entry>) -> Seq<(Seq<u8>, Seq<u8>)> {
    entries.map_values(|entry: Entry| (entry.name(), entry.value))
}

/// The fields after these entries have been read.
pub open spec fn put_all(fields: protocol::Fields, entries: Seq<Entry>) -> protocol::Fields
    decreases entries.len(),
{
    if entries.len() == 0 {
        fields
    } else {
        put_all(entries[0].put(fields), entries.skip(1))
    }
}

/// Whether the entries are readable, no two have the same name, and there are not too many.
pub open spec fn well_formed(entries: Seq<Entry>) -> bool {
    &&& entries.len() <= protocol::MAX_FIELDS
    &&& forall|i: int| 0 <= i < entries.len() ==> (#[trigger] entries[i]).readable()
    &&& forall|i: int, j: int|
        0 <= i < j < entries.len() ==> (#[trigger] entries[i]).name() != (
        #[trigger] entries[j]).name()
}

proof fn lemma_u8_is_local(value: Seq<u8>, rest: Seq<u8>)
    requires
        msgpack::u8_of(value) matches Some((_, n)) && n == value.len(),
    ensures
        msgpack::u8_of(value + rest) == msgpack::u8_of(value),
{
    let data = value + rest;
    assert(data[0] == value[0]);
    assert forall|w: int| 1 <= w && 1 + w <= value.len() implies #[trigger] data.subrange(1, 1 + w)
        == value.subrange(1, 1 + w) by {}
}

proof fn lemma_raw_value_is_local(value: Seq<u8>, rest: Seq<u8>)
    requires
        msgpack::value_size(value) == Ok::<nat, msgpack::SizeError>(value.len()),
    ensures
        protocol::raw_value(value + rest) == Ok::<Seq<u8>, protocol::DecodeError>(value),
{
    let data = value + rest;
    assert(data.take(value.len() as int) == value);
    assert(value.take(value.len() as int) == value);
    msgpack::law_size_is_local(value, data, value.len());
}

/// A complete head of a string is one whatever follows it.
proof fn lemma_str_head_is_local(head: Seq<u8>, n: nat, rest: Seq<u8>)
    requires
        msgpack::str_head(head) == Some((n, head.len())),
    ensures
        msgpack::str_head(head + rest) == Some((n, head.len())),
{
    let data = head + rest;
    assert(data[0] == head[0]);
    assert forall|w: int| 1 <= w && 1 + w <= head.len() implies #[trigger] data.subrange(1, 1 + w)
        == head.subrange(1, 1 + w) by {}
}

/// A complete head of a map is one whatever follows it.
proof fn lemma_map_head_is_local(head: Seq<u8>, n: nat, rest: Seq<u8>)
    requires
        is_map_head(head, n),
    ensures
        msgpack::map_head(head + rest) == Some((n, head.len())),
{
    let data = head + rest;
    assert(data[0] == head[0]);
    assert forall|w: int| 1 <= w && 1 + w <= head.len() implies #[trigger] data.subrange(1, 1 + w)
        == head.subrange(1, 1 + w) by {}
}

/// The string that a head and its bytes are, whatever follows it.
proof fn lemma_str_of(head: Seq<u8>, text: Seq<u8>, rest: Seq<u8>)
    requires
        msgpack::str_head(head) == Some((text.len(), head.len())),
    ensures
        msgpack::str_of(head + text + rest) == if vstd::utf8::valid_utf8(text) {
            Some((text, head.len() + text.len()))
        } else {
            None
        },
{
    let data = head + text + rest;
    assert(data =~= head + (text + rest));
    assert(data.subrange(head.len() as int, (head.len() + text.len()) as int) =~= text);
    lemma_str_head_is_local(head, text.len(), text + rest);
}

/// The value of a readable entry is read whatever follows it.
proof fn lemma_field_value(entry: Entry, rest: Seq<u8>, fields: protocol::Fields)
    requires
        entry.readable(),
    ensures
        protocol::field_value(entry.name(), entry.value + rest, fields) == Ok::<
            (protocol::Fields, nat),
            protocol::DecodeError,
        >(
            (entry.put(fields), entry.value.len()),
        ),
{
    let name = entry.name();
    if name == protocol::id_key() || name == protocol::pakt_key() {
        lemma_u8_is_local(entry.value, rest);
    } else {
        assert(entry.value.take(entry.value.len() as int) == entry.value);
        lemma_raw_value_is_local(entry.value, rest);
    }
}

/// A readable entry is read whatever follows it.
proof fn lemma_field(entry: Entry, rest: Seq<u8>, fields: protocol::Fields)
    requires
        entry.readable(),
    ensures
        protocol::field_of(entry.bytes() + rest, fields) == Ok::<
            (protocol::Fields, nat),
            protocol::DecodeError,
        >(
            (entry.put(fields), entry.bytes().len()),
        ),
{
    reveal(protocol::field_of);
    let data = entry.bytes() + rest;
    let n = (entry.head.len() + entry.key.len()) as int;
    assert(data =~= entry.head + entry.key + (entry.value + rest));
    lemma_str_of(entry.head, entry.key, entry.value + rest);
    assert(data.skip(n) =~= entry.value + rest);
    lemma_field_value(entry, rest, fields);
}

/// The entries are read one by one, and then what follows them.
proof fn lemma_fields(entries: Seq<Entry>, tail: Seq<u8>, left: nat, fields: protocol::Fields)
    requires
        forall|i: int| 0 <= i < entries.len() ==> (#[trigger] entries[i]).readable(),
        entries.len() <= left,
    ensures
        protocol::fields_of(entries_bytes(entries) + tail, left, fields) == protocol::fields_of(
            tail,
            (left - entries.len()) as nat,
            put_all(fields, entries),
        ),
    decreases entries.len(),
{
    let data = entries_bytes(entries) + tail;
    if entries.len() == 0 {
        assert(data =~= tail);
    } else {
        let first = entries[0];
        let others = entries.skip(1);
        let rest = entries_bytes(others) + tail;
        assert(data =~= first.bytes() + rest);
        assert(data.skip(first.bytes().len() as int) =~= rest);
        lemma_field(first, rest, fields);
        assert forall|i: int| 0 <= i < others.len() implies (#[trigger] others[i]).readable() by {
            assert(others[i] == entries[i + 1]);
        }
        lemma_fields(others, tail, (left - 1) as nat, first.put(fields));
    }
}

/// Whether no entry has the given name.
pub open spec fn absent(entries: Seq<Entry>, name: Seq<u8>) -> bool {
    forall|i: int| 0 <= i < entries.len() ==> (#[trigger] entries[i]).name() != name
}

/// A field whose name no entry has stays as it was.
proof fn lemma_absent(fields: protocol::Fields, entries: Seq<Entry>)
    requires
        forall|i: int| 0 <= i < entries.len() ==> (#[trigger] entries[i]).readable(),
    ensures
        absent(entries, protocol::id_key()) ==> put_all(fields, entries).id == fields.id,
        absent(entries, protocol::pakt_key()) ==> put_all(fields, entries).packet_type
            == fields.packet_type,
        absent(entries, protocol::reqt_key()) ==> put_all(fields, entries).req_type
            == fields.req_type,
        absent(entries, protocol::body_key()) ==> put_all(fields, entries).body == fields.body,
        absent(entries, protocol::err_key()) ==> put_all(fields, entries).err == fields.err,
    decreases entries.len(),
{
    if entries.len() > 0 {
        let others = entries.skip(1);
        assert forall|i: int| 0 <= i < others.len() implies (#[trigger] others[i]).readable() by {
            assert(others[i] == entries[i + 1]);
        }
        assert forall|name: Seq<u8>| absent(entries, name) implies absent(others, name)
            && entries[0].name() != name by {
            assert forall|i: int| 0 <= i < others.len() implies (#[trigger] others[i]).name()
                != name by {
                assert(others[i] == entries[i + 1]);
            }
        }
        lemma_absent(entries[0].put(fields), others);
    }
}

/// A field is what the entry with its name says.
proof fn lemma_present(fields: protocol::Fields, entries: Seq<Entry>, k: int)
    requires
        well_formed(entries),
        0 <= k < entries.len(),
    ensures
        entries[k].name() == protocol::id_key() ==> put_all(fields, entries).id
            == entries[k].put(fields).id,
        entries[k].name() == protocol::pakt_key() ==> put_all(fields, entries).packet_type
            == entries[k].put(fields).packet_type,
        entries[k].name() == protocol::reqt_key() ==> put_all(fields, entries).req_type
            == entries[k].put(fields).req_type,
        entries[k].name() == protocol::body_key() ==> put_all(fields, entries).body
            == entries[k].put(fields).body,
        entries[k].name() == protocol::err_key() ==> put_all(fields, entries).err
            == entries[k].put(fields).err,
    decreases entries.len(),
{
    let others = entries.skip(1);
    let next = entries[0].put(fields);
    assert forall|i: int| 0 <= i < others.len() implies (#[trigger] others[i]).readable() by {
        assert(others[i] == entries[i + 1]);
    }
    assert forall|i: int, j: int| 0 <= i < j < others.len() implies (#[trigger] others[i]).name()
        != (#[trigger] others[j]).name() by {
        assert(others[i] == entries[i + 1] && others[j] == entries[j + 1]);
    }
    if k == 0 {
        assert forall|i: int| 0 <= i < others.len() implies (#[trigger] others[i]).name()
            != entries[0].name() by {
            assert(others[i] == entries[i + 1]);
        }
        assert(absent(others, entries[0].name()));
        lemma_absent(next, others);
    } else {
        assert(others[k - 1] == entries[k]);
        lemma_present(next, others, k - 1);
    }
}

proof fn lemma_keys_differ()
    ensures
        protocol::id_key()[0] == 0x69,
        protocol::pakt_key()[0] == 0x70,
        protocol::reqt_key()[0] == 0x72,
        protocol::body_key()[0] == 0x62,
        protocol::err_key()[0] == 0x65,
{
}

/// What each kind of entry says about its field.
proof fn lemma_slot(entries: Seq<Entry>, entry: Entry)
    requires
        well_formed(entries),
        entries.contains(entry),
    ensures
        entry.name() == protocol::id_key() ==> put_all(protocol::no_fields(), entries).id == Some(
            msgpack::u8_of(entry.value).unwrap().0,
        ),
        entry.name() == protocol::pakt_key() ==> put_all(
            protocol::no_fields(),
            entries,
        ).packet_type == protocol::CNPacketType::of_raw(msgpack::u8_of(entry.value).unwrap().0),
        entry.name() == protocol::reqt_key() ==> put_all(protocol::no_fields(), entries).req_type
            == Some(entry.value),
        entry.name() == protocol::body_key() ==> put_all(protocol::no_fields(), entries).body
            == Some(entry.value),
{
    lemma_keys_differ();
    let k = choose|k: int| 0 <= k < entries.len() && entries[k] == entry;
    lemma_present(protocol::no_fields(), entries, k);
}

proof fn lemma_handshake_of(fields: protocol::Fields)
    requires
        fields.id is Some,
        fields.packet_type == Some(protocol::CNPacketType::Request),
        fields.req_type is Some,
        msgpack::u8_of(fields.req_type.unwrap()) matches Some((n, _)) && n == 0,
        fields.body is Some,
    ensures
        protocol::handshake_of(fields) == protocol::Reading::Done(
            (fields.id.unwrap(), fields.body.unwrap()),
        ),
{
}

/// The fields of a packet may come in any order, and all that counts of each are its name and its
/// value.
pub proof fn law_field_order_is_free(
    head: Seq<u8>,
    entries: Seq<Entry>,
    other_head: Seq<u8>,
    other: Seq<Entry>,
    tail: Seq<u8>,
)
    requires
        is_map_head(head, entries.len()) && well_formed(entries),
        is_map_head(other_head, other.len()) && well_formed(other),
        named_values(entries).to_multiset() == named_values(other).to_multiset(),
    ensures
        protocol::frame_of(packet_bytes(head, entries) + tail) == protocol::frame_of(
            packet_bytes(other_head, other) + tail,
        ),
        protocol::packet_of(packet_bytes(head, entries) + tail) == protocol::packet_of(
            packet_bytes(other_head, other) + tail,
        ),
{
    lemma_packet(head, entries, tail);
    lemma_packet(other_head, other, tail);
    lemma_same_fields(entries, other);
}

/// Whether each entry has a counterpart with the same name and value.
spec fn covered(entries: Seq<Entry>, other: Seq<Entry>) -> bool {
    forall|i: int|
        0 <= i < entries.len() ==> named_values(other).contains(
            ((#[trigger] entries[i]).name(), entries[i].value),
        )
}

proof fn lemma_covered(entries: Seq<Entry>, other: Seq<Entry>)
    requires
        named_values(entries).to_multiset() == named_values(other).to_multiset(),
    ensures
        covered(entries, other),
{
    broadcast use vstd::seq_lib::group_to_multiset_ensures;

    assert forall|i: int| 0 <= i < entries.len() implies named_values(other).contains(
        ((#[trigger] entries[i]).name(), entries[i].value),
    ) by {
        assert(named_values(entries)[i] == (entries[i].name(), entries[i].value));
        assert(named_values(entries).to_multiset().count(named_values(entries)[i]) > 0);
    }
}

/// Entries that are the same up to their order give the same fields.
proof fn lemma_same_fields(entries: Seq<Entry>, other: Seq<Entry>)
    requires
        well_formed(entries),
        well_formed(other),
        named_values(entries).to_multiset() == named_values(other).to_multiset(),
    ensures
        put_all(protocol::no_fields(), entries) == put_all(protocol::no_fields(), other),
{
    lemma_covered(entries, other);
    lemma_covered(other, entries);
    lemma_same_slot(entries, other, protocol::id_key());
    lemma_same_slot(entries, other, protocol::pakt_key());
    lemma_same_slot(entries, other, protocol::reqt_key());
    lemma_same_slot(entries, other, protocol::body_key());
    lemma_same_slot(entries, other, protocol::err_key());
}

proof fn lemma_same_slot(entries: Seq<Entry>, other: Seq<Entry>, name: Seq<u8>)
    requires
        well_formed(entries),
        well_formed(other),
        covered(entries, other),
        covered(other, entries),
    ensures
        name == protocol::id_key() ==> put_all(protocol::no_fields(), entries).id == put_all(
            protocol::no_fields(),
            other,
        ).id,
        name == protocol::pakt_key() ==> put_all(protocol::no_fields(), entries).packet_type
            == put_all(protocol::no_fields(), other).packet_type,
        name == protocol::reqt_key() ==> put_all(protocol::no_fields(), entries).req_type
            == put_all(protocol::no_fields(), other).req_type,
        name == protocol::body_key() ==> put_all(protocol::no_fields(), entries).body == put_all(
            protocol::no_fields(),
            other,
        ).body,
        name == protocol::err_key() ==> put_all(protocol::no_fields(), entries).err == put_all(
            protocol::no_fields(),
            other,
        ).err,
{
    let none = protocol::no_fields();
    if absent(entries, name) {
        assert(absent(other, name)) by {
            assert forall|k: int| 0 <= k < other.len() implies (#[trigger] other[k]).name()
                != name by {
                let j = choose|j: int|
                    0 <= j < entries.len() && #[trigger] named_values(entries)[j] == (
                        other[k].name(),
                        other[k].value,
                    );
                assert(named_values(entries)[j] == (entries[j].name(), entries[j].value));
            }
        }
        lemma_absent(none, entries);
        lemma_absent(none, other);
    } else {
        let i = choose|i: int|
            0 <= i < entries.len() && (#[trigger] entries[i]).name() == name;
        let j = choose|j: int|
            0 <= j < other.len() && #[trigger] named_values(other)[j] == (
                entries[i].name(),
                entries[i].value,
            );
        assert(named_values(other)[j] == (other[j].name(), other[j].value));
        lemma_present(none, entries, i);
        lemma_present(none, other, j);
    }
}

/// The frame of a packet that announces `count` fields, given what is read of them.
spec fn framed(
    count: nat,
    fields: Result<protocol::Fields, protocol::DecodeError>,
) -> protocol::Reading<(u8, Seq<u8>)> {
    if count > protocol::MAX_FIELDS {
        protocol::Reading::Failed(protocol::DecodeError::TooManyFields(count as u32))
    } else {
        match fields {
            Ok(fields) => protocol::handshake_of(fields),
            Err(e) => protocol::Reading::Failed(e),
        }
    }
}

/// The frame of a packet that starts with these entries is what they and the fields behind them
/// make of it.
proof fn lemma_frame(head: Seq<u8>, count: nat, entries: Seq<Entry>, tail: Seq<u8>)
    requires
        is_map_head(head, count) && entries.len() <= count,
        forall|i: int| 0 <= i < entries.len() ==> (#[trigger] entries[i]).readable(),
    ensures
        protocol::frame_of(packet_bytes(head, entries) + tail) == framed(
            count,
            protocol::fields_of(
                tail,
                (count - entries.len()) as nat,
                put_all(protocol::no_fields(), entries),
            ),
        ),
{
    let data = packet_bytes(head, entries) + tail;
    let rest = entries_bytes(entries) + tail;
    assert(data =~= head + rest);
    assert(data.skip(head.len() as int) =~= rest);
    lemma_map_head_is_local(head, count, rest);
    lemma_fields(entries, tail, count, protocol::no_fields());
}

/// The frame of a packet is what its fields make of it, whatever follows the packet.
proof fn lemma_packet(head: Seq<u8>, entries: Seq<Entry>, tail: Seq<u8>)
    requires
        is_map_head(head, entries.len()) && well_formed(entries),
    ensures
        protocol::frame_of(packet_bytes(head, entries) + tail) == protocol::handshake_of(
            put_all(protocol::no_fields(), entries),
        ),
{
    lemma_frame(head, entries.len(), entries, tail);
}

/// A packet that holds, in any order and perhaps beside an error, an ID, the request packet type,
/// the handshake request type and a body is read as the handshake with that ID and that body,
/// whatever follows the packet.
pub proof fn law_handshake_is_read(
    head: Seq<u8>,
    entries: Seq<Entry>,
    id: Entry,
    packet_type: Entry,
    req_type: Entry,
    body: Entry,
    tail: Seq<u8>,
)
    requires
        is_map_head(head, entries.len()) && well_formed(entries),
        entries.contains(id) && id.name() == protocol::id_key(),
        entries.contains(packet_type) && packet_type.name() == protocol::pakt_key(),
        entries.contains(req_type) && req_type.name() == protocol::reqt_key(),
        entries.contains(body) && body.name() == protocol::body_key(),
        msgpack::u8_of(packet_type.value) matches Some((n, _)) && n == 0,
        msgpack::u8_of(req_type.value) matches Some((n, _)) && n == 0,
    ensures
        protocol::supported(packet_bytes(head, entries) + tail),
        ({
            let id = msgpack::u8_of(id.value).unwrap().0;
            let found = handshake::body_version(body.value);
            protocol::packet_of(packet_bytes(head, entries) + tail) == match found {
                Some(version) => Ok::<protocol::ClientPacketSpec, protocol::DecodeError>(
                    protocol::ClientPacketSpec::Request(
                        protocol::NodeRequestSpec::Handshake { id, version },
                    ),
                ),
                None => Err(protocol::DecodeError::InvalidBody),
            }
        }),
{
    let none = protocol::no_fields();
    let fields = put_all(none, entries);
    lemma_packet(head, entries, tail);
    lemma_slot(entries, id);
    lemma_slot(entries, packet_type);
    lemma_slot(entries, req_type);
    lemma_slot(entries, body);
    lemma_handshake_of(fields);
}

/// A readable packet type stands for a packet type.
proof fn lemma_packet_type(entries: Seq<Entry>)
    requires
        well_formed(entries),
        !absent(entries, protocol::pakt_key()),
    ensures
        put_all(protocol::no_fields(), entries).packet_type is Some,
{
    lemma_keys_differ();
    let k = choose|k: int|
        0 <= k < entries.len() && (#[trigger] entries[k]).name() == protocol::pakt_key();
    assert(entries.contains(entries[k]));
    assert(entries[k].readable());
    lemma_slot(entries, entries[k]);
}

/// A packet that lacks an ID, a packet type, a request type or, if it is a request, a body is
/// refused for the first of these that it lacks.
pub proof fn law_missing_field(head: Seq<u8>, entries: Seq<Entry>, tail: Seq<u8>)
    requires
        is_map_head(head, entries.len()) && well_formed(entries),
    ensures
        ({
            let data = packet_bytes(head, entries) + tail;
            let refused = |field: protocol::Field|
                protocol::supported(data) && protocol::packet_of(data) == Err::<
                    protocol::ClientPacketSpec,
                    protocol::DecodeError,
                >(protocol::DecodeError::MissingField(field));
            if absent(entries, protocol::id_key()) {
                refused(protocol::Field::Id)
            } else if absent(entries, protocol::pakt_key()) {
                refused(protocol::Field::PacketType)
            } else if absent(entries, protocol::reqt_key()) {
                refused(protocol::Field::RequestType)
            } else {
                put_all(protocol::no_fields(), entries).packet_type == Some(
                    protocol::CNPacketType::Request,
                ) && absent(entries, protocol::body_key()) ==> refused(protocol::Field::Body)
            }
        }),
{
    let none = protocol::no_fields();
    lemma_packet(head, entries, tail);
    lemma_absent(none, entries);
    if !absent(entries, protocol::id_key()) {
        let k = choose|k: int|
            0 <= k < entries.len() && (#[trigger] entries[k]).name() == protocol::id_key();
        assert(entries.contains(entries[k]));
        lemma_slot(entries, entries[k]);
    }
    if !absent(entries, protocol::pakt_key()) {
        lemma_packet_type(entries);
    }
    if !absent(entries, protocol::reqt_key()) {
        let k = choose|k: int|
            0 <= k < entries.len() && (#[trigger] entries[k]).name() == protocol::reqt_key();
        assert(entries.contains(entries[k]));
        lemma_slot(entries, entries[k]);
    }
}

/// A number of spaces.
pub open spec fn spaces(count: nat) -> Seq<u8> {
    Seq::new(count, |i: int| 0x20u8)
}

proof fn lemma_spaces_are_utf8(count: nat)
    ensures
        vstd::utf8::valid_utf8(spaces(count)),
    decreases count,
{
    let bytes = spaces(count);
    if count > 0 {
        lemma_spaces_are_utf8((count - 1) as nat);
        assert(vstd::utf8::is_leading_byte_width_1(0x20u8)) by (bit_vector);
        assert(bytes[0] == 0x20u8);
        assert(vstd::utf8::codepoint_width_1(0x20u8) == 0x20u32) by (bit_vector);
        assert(vstd::utf8::valid_first_scalar(bytes));
        assert(vstd::utf8::pop_first_scalar(bytes) =~= spaces((count - 1) as nat));
    }
}

/// Spaces at the end of bytes do not change whether they are UTF-8.
proof fn lemma_spaces_keep_utf8(bytes: Seq<u8>, count: nat)
    ensures
        vstd::utf8::valid_utf8(bytes + spaces(count)) == vstd::utf8::valid_utf8(bytes),
{
    let spaced = bytes + spaces(count);
    let n = bytes.len() as int;
    lemma_spaces_are_utf8(count);
    if vstd::utf8::valid_utf8(bytes) {
        vstd::utf8::valid_utf8_concat(bytes, spaces(count));
    }
    if vstd::utf8::valid_utf8(spaced) {
        if count == 0 {
            assert(spaced =~= bytes);
        } else {
            assert(spaced[n] == 0x20u8);
            assert(!vstd::utf8::is_continuation_byte(0x20u8)) by (bit_vector);
            vstd::utf8::is_char_boundary_iff_not_is_continuation_byte(spaced, n);
            vstd::utf8::valid_utf8_split(spaced, n);
            assert(spaced.subrange(0, n) =~= bytes);
        }
    }
}

/// A value that is read lies within the data.
proof fn lemma_field_value_bound(name: Seq<u8>, data: Seq<u8>, fields: protocol::Fields)
    ensures
        protocol::field_value(name, data, fields) matches Ok((_, n)) ==> n <= data.len(),
{
}

/// The fields after a field with the given padded key and those behind it have been read.
#[verifier::opaque]
spec fn named_fields(
    name: Seq<u8>,
    rest: Seq<u8>,
    left: nat,
    fields: protocol::Fields,
) -> Result<protocol::Fields, protocol::DecodeError> {
    match protocol::field_value(name, rest, fields) {
        Ok((fields, n)) => protocol::fields_of(rest.skip(n as int), (left - 1) as nat, fields),
        Err(e) => Err(e),
    }
}

/// What is read of fields depends on the padded key of the first, not on its head.
proof fn lemma_named_fields(
    key_head: Seq<u8>,
    key: Seq<u8>,
    rest: Seq<u8>,
    left: nat,
    fields: protocol::Fields,
)
    requires
        left > 0,
        msgpack::str_head(key_head) == Some((key.len(), key_head.len())),
        key.len() <= protocol::KEY_SIZE,
    ensures
        protocol::fields_of(key_head + key + rest, left, fields) == if vstd::utf8::valid_utf8(
            key,
        ) {
            named_fields(protocol::padded_key(key), rest, left, fields)
        } else {
            Err(protocol::DecodeError::InvalidKey)
        },
{
    reveal(named_fields);
    reveal(protocol::field_of);
    let data = key_head + key + rest;
    let n = key_head.len() + key.len();
    let name = protocol::padded_key(key);
    lemma_str_of(key_head, key, rest);
    assert(data.skip(n as int) =~= rest);
    lemma_field_value_bound(name, rest, fields);
    if let Ok((_, k)) = protocol::field_value(name, rest, fields) {
        assert(data.skip((n + k) as int) =~= rest.skip(k as int));
    }
}

/// Spaces at the end of the first key do not change how fields are read.
proof fn lemma_spaced_fields(
    key_head: Seq<u8>,
    key: Seq<u8>,
    spaced_head: Seq<u8>,
    count: nat,
    rest: Seq<u8>,
    left: nat,
    fields: protocol::Fields,
)
    requires
        left > 0,
        msgpack::str_head(key_head) == Some((key.len(), key_head.len())),
        msgpack::str_head(spaced_head) == Some((key.len() + count, spaced_head.len())),
        key.len() + count <= protocol::KEY_SIZE,
    ensures
        protocol::fields_of(key_head + key + rest, left, fields) == protocol::fields_of(
            spaced_head + (key + spaces(count)) + rest,
            left,
            fields,
        ),
{
    lemma_named_fields(key_head, key, rest, left, fields);
    lemma_named_fields(spaced_head, key + spaces(count), rest, left, fields);
    lemma_spaces_keep_utf8(key, count);
    assert(protocol::padded_key(key + spaces(count)) =~= protocol::padded_key(key));
}

/// Spaces at the end of a key do not count: two packets that differ only in how many there are
/// behind one key are read alike, whatever follows that key.
pub proof fn law_trailing_spaces(
    head: Seq<u8>,
    fields: nat,
    entries: Seq<Entry>,
    key_head: Seq<u8>,
    key: Seq<u8>,
    spaced_head: Seq<u8>,
    count: nat,
    rest: Seq<u8>,
)
    requires
        is_map_head(head, fields) && entries.len() < fields,
        forall|i: int| 0 <= i < entries.len() ==> (#[trigger] entries[i]).readable(),
        msgpack::str_head(key_head) == Some((key.len(), key_head.len())),
        msgpack::str_head(spaced_head) == Some((key.len() + count, spaced_head.len())),
        key.len() + count <= protocol::KEY_SIZE,
    ensures
        ({
            let data = packet_bytes(head, entries) + (key_head + key + rest);
            let other = packet_bytes(head, entries) + (spaced_head + (key + spaces(count)) + rest);
            &&& protocol::frame_of(data) == protocol::frame_of(other)
            &&& protocol::supported(data) == protocol::supported(other)
            &&& protocol::packet_of(data) == protocol::packet_of(other)
        }),
{
    lemma_frame(head, fields, entries, key_head + key + rest);
    lemma_frame(head, fields, entries, spaced_head + (key + spaces(count)) + rest);
    lemma_spaced_fields(
        key_head,
        key,
        spaced_head,
        count,
        rest,
        (fields - entries.len()) as nat,
        put_all(protocol::no_fields(), entries),
    );
}

/// The body of a handshake that gives a version: a map with one entry. The map, its key `ver` and
/// the version may have any heads.
pub open spec fn version_body(
    map_head: Seq<u8>,
    key_head: Seq<u8>,
    text_head: Seq<u8>,
    text: Seq<u8>,
) -> Seq<u8> {
    map_head + (key_head + seq![0x76u8, 0x65, 0x72] + (text_head + text))
}

/// The name of the version is its key under any head.
proof fn lemma_version_key(key_head: Seq<u8>)
    requires
        msgpack::str_head(key_head) == Some((3nat, key_head.len())),
    ensures
        handshake::is_version_key(key_head + seq![0x76u8, 0x65, 0x72]),
{
    msgpack::law_heads(key_head);
    let b = key_head[0];
    assert(b == 0xa3 ==> key_head =~= seq![0xa3u8]);
    assert(b == 0xd9 ==> key_head =~= seq![0xd9u8, 3]);
    assert(b == 0xda ==> key_head =~= seq![0xdau8, 0, 3]);
    assert(b == 0xdb ==> key_head =~= seq![0xdbu8, 0, 0, 0, 3]);
}

/// The version that a client writes into the body of a handshake is the version that is read
/// from it.
pub proof fn law_version_is_read(
    map_head: Seq<u8>,
    key_head: Seq<u8>,
    text_head: Seq<u8>,
    text: Seq<u8>,
)
    requires
        is_map_head(map_head, 1),
        msgpack::str_head(key_head) == Some((3nat, key_head.len())),
        msgpack::str_head(text_head) == Some((text.len(), text_head.len())),
        vstd::utf8::valid_utf8(text),
    ensures
        handshake::body_version(version_body(map_head, key_head, text_head, text))
            == compat::parsed_version(vstd::utf8::decode_utf8(text)),
{
    let body = version_body(map_head, key_head, text_head, text);
    let key = key_head + seq![0x76u8, 0x65, 0x72];
    let value = text_head + text;
    let entry = key + value;
    lemma_map_head_is_local(map_head, 1, entry);
    assert(body.skip(map_head.len() as int) =~= entry);
    lemma_version_key(key_head);
    assert(value =~= text_head + text + Seq::empty());
    lemma_str_of(text_head, text, Seq::empty());
    handshake::law_body_forms(body);
    handshake::law_version_entry(key, value, 0, None);
    let rest = value.skip((text_head.len() + text.len()) as int);
    if let Some(version) = compat::parsed_version(vstd::utf8::decode_utf8(text)) {
        handshake::law_no_entries(rest, Some(version));
    }
}

/// Data that does not start with the head of a map is refused, and so is a packet that announces
/// more than five fields, whatever they are.
pub proof fn law_refused_heads(data: Seq<u8>, head: Seq<u8>, count: nat, tail: Seq<u8>)
    ensures
        msgpack::map_head(data) is None ==> refused(data, protocol::DecodeError::InvalidMap),
        is_map_head(head, count) && 5 < count <= u32::MAX ==> refused(
            head + tail,
            protocol::DecodeError::TooManyFields(count as u32),
        ),
{
    if is_map_head(head, count) {
        lemma_map_head_is_local(head, count, tail);
    }
}

/// Whether a packet is refused with the given error.
pub open spec fn refused(data: Seq<u8>, error: protocol::DecodeError) -> bool {
    &&& protocol::supported(data)
    &&& protocol::packet_of(data) == Err::<protocol::ClientPacketSpec, protocol::DecodeError>(
        error,
    )
}

proof fn lemma_bad_field(
    head: Seq<u8>,
    count: nat,
    entries: Seq<Entry>,
    tail: Seq<u8>,
    error: protocol::DecodeError,
)
    requires
        is_map_head(head, count) && entries.len() < count <= 5,
        forall|i: int| 0 <= i < entries.len() ==> (#[trigger] entries[i]).readable(),
        protocol::field_of(tail, put_all(protocol::no_fields(), entries)) == Err::<
            (protocol::Fields, nat),
            protocol::DecodeError,
        >(error),
    ensures
        refused(packet_bytes(head, entries) + tail, error),
{
    lemma_frame(head, count, entries, tail);
}

/// Behind readable fields, a key that is no string in UTF-8 of up to four bytes is refused, and so
/// is one that is none of `id`, `pakt`, `reqt`, `body` and `err` when it is padded with spaces.
pub proof fn law_refused_keys(
    head: Seq<u8>,
    count: nat,
    entries: Seq<Entry>,
    tail: Seq<u8>,
)
    requires
        is_map_head(head, count) && entries.len() < count <= 5,
        forall|i: int| 0 <= i < entries.len() ==> (#[trigger] entries[i]).readable(),
    ensures
        ({
            let data = packet_bytes(head, entries) + tail;
            match msgpack::str_of(tail) {
                None => refused(data, protocol::DecodeError::InvalidKey),
                Some((key, _)) => {
                    let name = protocol::padded_key(key);
                    &&& key.len() > 4 ==> refused(data, protocol::DecodeError::InvalidKey)
                    &&& key.len() <= 4 && name != seq![0x69u8, 0x64, 0x20, 0x20] && name != seq![
                        0x70u8,
                        0x61,
                        0x6b,
                        0x74,
                    ] && name != seq![0x72u8, 0x65, 0x71, 0x74] && name != seq![
                        0x62u8,
                        0x6f,
                        0x64,
                        0x79,
                    ] && name != seq![0x65u8, 0x72, 0x72, 0x20] ==> refused(
                        data,
                        protocol::DecodeError::UnknownField(name[0], name[1], name[2], name[3]),
                    )
                },
            }
        }),
{
    reveal(protocol::field_of);
    let fields = put_all(protocol::no_fields(), entries);
    if let Err(error) = protocol::field_of(tail, fields) {
        lemma_bad_field(head, count, entries, tail, error);
    }
}

/// Why the field with the given padded key cannot have a value: a packet ID or type is no integer
/// from 0 to 255, a packet type is above 2, or any other value has no size or is cut off.
pub open spec fn unsuitable(name: Seq<u8>, value: Seq<u8>) -> Option<protocol::DecodeError> {
    if name == seq![0x69u8, 0x64, 0x20, 0x20] {
        if msgpack::u8_of(value) is None {
            Some(protocol::DecodeError::InvalidId)
        } else {
            None
        }
    } else if name == seq![0x70u8, 0x61, 0x6b, 0x74] {
        match msgpack::u8_of(value) {
            None => Some(protocol::DecodeError::InvalidPacketType),
            Some((raw, _)) => if raw > 2 {
                Some(protocol::DecodeError::UnknownPacketType(raw))
            } else {
                None
            },
        }
    } else if name == seq![0x72u8, 0x65, 0x71, 0x74] || name == seq![0x62u8, 0x6f, 0x64, 0x79]
        || name == seq![0x65u8, 0x72, 0x72, 0x20] {
        match msgpack::value_size(value) {
            Err(e) => Some(protocol::DecodeError::InvalidValue(e)),
            Ok(n) => if n > value.len() {
                Some(protocol::DecodeError::TruncatedValue)
            } else {
                None
            },
        }
    } else {
        None
    }
}

proof fn lemma_unsuitable(name: Seq<u8>, value: Seq<u8>, fields: protocol::Fields)
    ensures
        unsuitable(name, value) matches Some(error) ==> protocol::field_value(name, value, fields)
            == Err::<(protocol::Fields, nat), protocol::DecodeError>(error),
{
}

proof fn lemma_field_error(
    key_head: Seq<u8>,
    key: Seq<u8>,
    value: Seq<u8>,
    fields: protocol::Fields,
    error: protocol::DecodeError,
)
    requires
        msgpack::str_head(key_head) == Some((key.len(), key_head.len())),
        key.len() <= 4 && vstd::utf8::valid_utf8(key),
        protocol::field_value(protocol::padded_key(key), value, fields) == Err::<
            (protocol::Fields, nat),
            protocol::DecodeError,
        >(error),
    ensures
        protocol::field_of(key_head + key + value, fields) == Err::<
            (protocol::Fields, nat),
            protocol::DecodeError,
        >(error),
{
    reveal(protocol::field_of);
    lemma_str_of(key_head, key, value);
    assert((key_head + key + value).skip((key_head.len() + key.len()) as int) =~= value);
}

/// Behind readable fields, a value that its key cannot have is refused.
pub proof fn law_refused_values(
    head: Seq<u8>,
    count: nat,
    entries: Seq<Entry>,
    key_head: Seq<u8>,
    key: Seq<u8>,
    value: Seq<u8>,
)
    requires
        is_map_head(head, count) && entries.len() < count <= 5,
        forall|i: int| 0 <= i < entries.len() ==> (#[trigger] entries[i]).readable(),
        msgpack::str_head(key_head) == Some((key.len(), key_head.len())),
        key.len() <= 4 && vstd::utf8::valid_utf8(key),
    ensures
        unsuitable(protocol::padded_key(key), value) matches Some(error) ==> refused(
            packet_bytes(head, entries) + (key_head + key + value),
            error,
        ),
{
    let fields = put_all(protocol::no_fields(), entries);
    let name = protocol::padded_key(key);
    if let Some(error) = unsuitable(name, value) {
        lemma_unsuitable(name, value, fields);
        lemma_field_error(key_head, key, value, fields, error);
        lemma_bad_field(head, count, entries, key_head + key + value, error);
    }
}

/// A packet with an ID, a packet type, a request type and a body is handled according to its types.
/// A response and an event are not implemented, and of the requests only the handshake is; a
/// request type that is no integer from 0 to 255, or is none of the known ones, is refused.
pub proof fn law_types(
    head: Seq<u8>,
    entries: Seq<Entry>,
    id: Entry,
    packet_type: Entry,
    req_type: Entry,
    body: Entry,
    tail: Seq<u8>,
)
    requires
        is_map_head(head, entries.len()) && well_formed(entries),
        entries.contains(id) && id.name() == protocol::id_key(),
        entries.contains(packet_type) && packet_type.name() == protocol::pakt_key(),
        entries.contains(req_type) && req_type.name() == protocol::reqt_key(),
        entries.contains(body) && body.name() == protocol::body_key(),
    ensures
        ({
            let data = packet_bytes(head, entries) + tail;
            if msgpack::u8_of(packet_type.value).unwrap().0 != 0 {
                !protocol::supported(data)
            } else {
                match msgpack::u8_of(req_type.value) {
                    None => refused(data, protocol::DecodeError::InvalidRequestType),
                    Some((raw, _)) => if raw == 0 {
                        protocol::supported(data)
                    } else if raw == 1 || raw == 2 || raw == 3 || raw == 0x20 {
                        !protocol::supported(data)
                    } else {
                        refused(data, protocol::DecodeError::UnknownRequestType(raw))
                    },
                }
            }
        }),
{
    lemma_packet(head, entries, tail);
    lemma_slot(entries, id);
    lemma_slot(entries, packet_type);
    lemma_slot(entries, req_type);
    lemma_slot(entries, body);
    lemma_readable_type(entries, packet_type);
    lemma_types_of(put_all(protocol::no_fields(), entries));
}

proof fn lemma_readable_type(entries: Seq<Entry>, packet_type: Entry)
    requires
        well_formed(entries),
        entries.contains(packet_type) && packet_type.name() == protocol::pakt_key(),
    ensures
        msgpack::u8_of(packet_type.value) matches Some((raw, _)) && raw <= 2,
{
    let k = choose|k: int| 0 <= k < entries.len() && entries[k] == packet_type;
    assert(entries[k].readable());
}

proof fn lemma_types_of(fields: protocol::Fields)
    requires
        fields.id is Some,
        fields.packet_type is Some,
        fields.req_type is Some,
        fields.body is Some,
    ensures
        fields.packet_type != Some(protocol::CNPacketType::Request) ==> protocol::handshake_of(
            fields,
        ) is Unsupported,
        fields.packet_type == Some(protocol::CNPacketType::Request) ==> match msgpack::u8_of(
            fields.req_type.unwrap(),
        ) {
            None => protocol::handshake_of(fields) == protocol::Reading::<(u8, Seq<u8>)>::Failed(
                protocol::DecodeError::InvalidRequestType,
            ),
            Some((raw, _)) => if raw == 0 {
                protocol::handshake_of(fields) is Done
            } else if raw == 1 || raw == 2 || raw == 3 || raw == 0x20 {
                protocol::handshake_of(fields) is Unsupported
            } else {
                protocol::handshake_of(fields) == protocol::Reading::<(u8, Seq<u8>)>::Failed(
                    protocol::DecodeError::UnknownRequestType(raw),
                )
            },
        },
{
}

proof fn lemma_put_all_split(fields: protocol::Fields, entries: Seq<Entry>, i: int)
    requires
        0 <= i <= entries.len(),
    ensures
        put_all(fields, entries) == put_all(put_all(fields, entries.take(i)), entries.skip(i)),
    decreases i,
{
    if i == 0 {
        assert(entries.take(0) =~= Seq::empty());
        assert(entries.skip(0) =~= entries);
    } else {
        lemma_put_all_split(entries[0].put(fields), entries.skip(1), i - 1);
        assert(entries.take(i).skip(1) =~= entries.skip(1).take(i - 1));
        assert(entries.skip(1).skip(i - 1) =~= entries.skip(i));
    }
}

/// An entry leaves no trace where a later one has its name.
proof fn lemma_overwritten(fields: protocol::Fields, first: Entry, rest: Seq<Entry>, j: int)
    requires
        0 <= j < rest.len(),
        rest[j].name() == first.name(),
        first.readable(),
        forall|i: int| 0 <= i < rest.len() ==> (#[trigger] rest[i]).readable(),
    ensures
        put_all(first.put(fields), rest) == put_all(fields, rest),
    decreases rest.len(),
{
    lemma_keys_differ();
    let next = rest[0];
    let others = rest.skip(1);
    assert(next.readable());
    if next.name() == first.name() {
        assert(next.put(first.put(fields)) == next.put(fields));
    } else {
        assert(others[j - 1] == rest[j]);
        assert forall|i: int| 0 <= i < others.len() implies (#[trigger] others[i]).readable() by {
            assert(others[i] == rest[i + 1]);
        }
        assert(next.put(first.put(fields)) == first.put(next.put(fields)));
        lemma_overwritten(next.put(fields), first, others, j - 1);
    }
}

/// The fields are the same without an entry whose name a later one has.
proof fn lemma_removed(entries: Seq<Entry>, i: int, j: int)
    requires
        forall|k: int| 0 <= k < entries.len() ==> (#[trigger] entries[k]).readable(),
        0 <= i < j < entries.len() && entries[i].name() == entries[j].name(),
    ensures
        put_all(protocol::no_fields(), entries) == put_all(
            protocol::no_fields(),
            entries.remove(i),
        ),
{
    let none = protocol::no_fields();
    let shorter = entries.remove(i);
    let rest = entries.skip(i + 1);
    assert forall|k: int| 0 <= k < rest.len() implies (#[trigger] rest[k]).readable() by {
        assert(rest[k] == entries[k + i + 1]);
    }
    lemma_put_all_split(none, entries, i);
    lemma_put_all_split(none, shorter, i);
    assert(shorter.take(i) =~= entries.take(i));
    assert(shorter.skip(i) =~= rest);
    assert(entries.skip(i).skip(1) =~= rest);
    assert(rest[j - i - 1] == entries[j]);
    assert(entries.skip(i)[0] == entries[i]);
    lemma_overwritten(put_all(none, entries.take(i)), entries[i], rest, j - i - 1);
}

/// Where a field occurs twice, the later one counts: the packet is read as if the earlier one were
/// not there.
pub proof fn law_later_field_counts(
    head: Seq<u8>,
    entries: Seq<Entry>,
    i: int,
    j: int,
    shorter_head: Seq<u8>,
    tail: Seq<u8>,
)
    requires
        is_map_head(head, entries.len()) && entries.len() <= 5,
        is_map_head(shorter_head, (entries.len() - 1) as nat),
        forall|k: int| 0 <= k < entries.len() ==> (#[trigger] entries[k]).readable(),
        0 <= i < j < entries.len() && entries[i].name() == entries[j].name(),
    ensures
        protocol::frame_of(packet_bytes(head, entries) + tail) == protocol::frame_of(
            packet_bytes(shorter_head, entries.remove(i)) + tail,
        ),
{
    let shorter = entries.remove(i);
    assert forall|k: int| 0 <= k < shorter.len() implies (#[trigger] shorter[k]).readable() by {
        assert(shorter[k] == entries[if k < i {
            k
        } else {
            k + 1
        }]);
    }
    lemma_frame(head, entries.len(), entries, tail);
    lemma_frame(shorter_head, shorter.len(), shorter, tail);
    lemma_removed(entries, i, j);
}

} // verus!
