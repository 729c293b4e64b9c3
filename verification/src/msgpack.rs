//! The MessagePack wire format, as far as the node reads it.
use byteorder::{BE, ReadBytesExt};
use rmp::Marker;
use serde::Deserialize;
use vstd::prelude::*;
use vstd::slice::slice_subrange;

verus! {

/// The format markers of `rmp`, whose variants verified code tells apart.
#[verifier::external_type_specification]
pub struct ExMarker(rmp::Marker);

/// Why the size of a value cannot be told.
#[derive(Debug, Clone, Copy, PartialEq, Eq, Structural)]
pub enum SizeError {
    /// The data ends where a marker should stand.
    MissingMarker,
    /// The data ends inside a length field.
    MissingLength,
    /// The marker is the one that MessagePack never uses.
    Reserved,
}

/// The number that big-endian bytes stand for.
pub open spec fn be_uint(bytes: Seq<u8>) -> nat
    decreases bytes.len(),
{
    if bytes.len() == 0 {
        0
    } else {
        be_uint(bytes.drop_last()) * 256 + bytes.last() as nat
    }
}

/// The marker that a byte encodes.
pub open spec fn marker_of(byte: u8) -> Marker {
    if byte <= 0x7f {
        Marker::FixPos(byte)
    } else if byte <= 0x8f {
        Marker::FixMap((byte - 0x80) as u8)
    } else if byte <= 0x9f {
        Marker::FixArray((byte - 0x90) as u8)
    } else if byte <= 0xbf {
        Marker::FixStr((byte - 0xa0) as u8)
    } else if byte >= 0xe0 {
        Marker::FixNeg((byte - 0x100) as i8)
    } else {
        match byte {
            0xc0u8 => Marker::Null,
            0xc2u8 => Marker::False,
            0xc3u8 => Marker::True,
            0xc4u8 => Marker::Bin8,
            0xc5u8 => Marker::Bin16,
            0xc6u8 => Marker::Bin32,
            0xc7u8 => Marker::Ext8,
            0xc8u8 => Marker::Ext16,
            0xc9u8 => Marker::Ext32,
            0xcau8 => Marker::F32,
            0xcbu8 => Marker::F64,
            0xccu8 => Marker::U8,
            0xcdu8 => Marker::U16,
            0xceu8 => Marker::U32,
            0xcfu8 => Marker::U64,
            0xd0u8 => Marker::I8,
            0xd1u8 => Marker::I16,
            0xd2u8 => Marker::I32,
            0xd3u8 => Marker::I64,
            0xd4u8 => Marker::FixExt1,
            0xd5u8 => Marker::FixExt2,
            0xd6u8 => Marker::FixExt4,
            0xd7u8 => Marker::FixExt8,
            0xd8u8 => Marker::FixExt16,
            0xd9u8 => Marker::Str8,
            0xdau8 => Marker::Str16,
            0xdbu8 => Marker::Str32,
            0xdcu8 => Marker::Array16,
            0xddu8 => Marker::Array32,
            0xdeu8 => Marker::Map16,
            0xdfu8 => Marker::Map32,
            _ => Marker::Reserved,
        }
    }
}

/// What the head of a value says about the bytes that follow.
pub enum Shape {
    /// The value takes this many bytes in all.
    Leaf(nat),
    /// The value is a head of `head` bytes, then `items` values.
    Node { head: nat, items: nat },
}

/// The `width` bytes of length behind the marker, if the data holds them.
pub open spec fn length_field(data: Seq<u8>, width: nat) -> Result<nat, SizeError> {
    if data.len() < 1 + width {
        Err(SizeError::MissingLength)
    } else {
        Ok(be_uint(data.subrange(1, 1 + width as int)))
    }
}

/// A value of `extra` bytes more than its marker, its `width` bytes of length and that length.
pub open spec fn sized_leaf(data: Seq<u8>, width: nat, extra: nat) -> Result<Shape, SizeError> {
    match length_field(data, width) {
        Ok(n) => Ok(Shape::Leaf(1 + width + extra + n)),
        Err(e) => Err(e),
    }
}

/// A collection whose length takes `width` bytes and counts groups of `group` values.
pub open spec fn sized_node(data: Seq<u8>, width: nat, group: nat) -> Result<Shape, SizeError> {
    match length_field(data, width) {
        Ok(n) => Ok(Shape::Node { head: 1 + width, items: n * group }),
        Err(e) => Err(e),
    }
}

/// The shape of the value at the start of the data.
pub open spec fn shape_of(data: Seq<u8>) -> Result<Shape, SizeError> {
    if data.len() == 0 {
        Err(SizeError::MissingMarker)
    } else {
        match marker_of(data[0]) {
            Marker::FixPos(_) | Marker::FixNeg(_) | Marker::Null | Marker::True
            | Marker::False => Ok(Shape::Leaf(1)),
            Marker::U8 | Marker::I8 => Ok(Shape::Leaf(2)),
            Marker::U16 | Marker::I16 | Marker::FixExt1 => Ok(Shape::Leaf(3)),
            Marker::FixExt2 => Ok(Shape::Leaf(4)),
            Marker::U32 | Marker::I32 | Marker::F32 => Ok(Shape::Leaf(5)),
            Marker::FixExt4 => Ok(Shape::Leaf(6)),
            Marker::U64 | Marker::I64 | Marker::F64 => Ok(Shape::Leaf(9)),
            Marker::FixExt8 => Ok(Shape::Leaf(10)),
            Marker::FixExt16 => Ok(Shape::Leaf(18)),
            Marker::FixStr(n) => Ok(Shape::Leaf(1 + n as nat)),
            Marker::Str8 | Marker::Bin8 => sized_leaf(data, 1, 0),
            Marker::Str16 | Marker::Bin16 => sized_leaf(data, 2, 0),
            Marker::Str32 | Marker::Bin32 => sized_leaf(data, 4, 0),
            Marker::Ext8 => sized_leaf(data, 1, 1),
            Marker::Ext16 => sized_leaf(data, 2, 1),
            Marker::Ext32 => sized_leaf(data, 4, 1),
            Marker::FixArray(n) => Ok(Shape::Node { head: 1, items: n as nat }),
            Marker::Array16 => sized_node(data, 2, 1),
            Marker::Array32 => sized_node(data, 4, 1),
            Marker::FixMap(n) => Ok(Shape::Node { head: 1, items: n as nat * 2 }),
            Marker::Map16 => sized_node(data, 2, 2),
            Marker::Map32 => sized_node(data, 4, 2),
            Marker::Reserved => Err(SizeError::Reserved),
        }
    }
}

/// The data behind its first `n` bytes; nothing where there are not so many.
pub open spec fn after(data: Seq<u8>, n: nat) -> Seq<u8> {
    if n <= data.len() {
        data.skip(n as int)
    } else {
        Seq::empty()
    }
}

/// The size in bytes of the value at the start of the data, as its heads declare it. Where the
/// last leaf is cut short, the size exceeds the length of the data.
pub open spec fn value_size(data: Seq<u8>) -> Result<nat, SizeError>
    decreases data.len(), 0nat, 0nat,
{
    match shape_of(data) {
        Ok(Shape::Leaf(n)) => Ok(n),
        Ok(Shape::Node { head, items }) => match values_size(data.skip(head as int), items) {
            Ok(n) => Ok(head + n),
            Err(e) => Err(e),
        },
        Err(e) => Err(e),
    }
}

/// The size in bytes of the first `count` values of the data.
pub open spec fn values_size(data: Seq<u8>, count: nat) -> Result<nat, SizeError>
    decreases data.len(), 1nat, count,
{
    if count == 0 {
        Ok(0)
    } else {
        match value_size(data) {
            Ok(n) => match values_size(after(data, n), (count - 1) as nat) {
                Ok(m) => Ok(n + m),
                Err(e) => Err(e),
            },
            Err(e) => Err(e),
        }
    }
}

/// `rmp::decode::read_marker` on a slice: the marker that the first byte encodes, `None` where
/// there is no byte.
#[verifier::external_body]
pub(crate) fn read_marker(data: &[u8]) -> (r: Option<Marker>)
    ensures
        r == (if data@.len() == 0 {
            None
        } else {
            Some(marker_of(data@[0]))
        }),
{
    rmp::decode::read_marker(&mut std::io::Cursor::new(data)).ok()
}

/// `byteorder::ReadBytesExt::read_u8` on a slice: its first byte, `None` where there is none.
#[verifier::external_body]
fn read_u8(data: &[u8]) -> (r: Option<u8>)
    ensures
        r == (if data@.len() < 1 {
            None
        } else {
            Some(data@[0])
        }),
{
    std::io::Cursor::new(data).read_u8().ok()
}

/// `byteorder::ReadBytesExt::read_u16` on a slice: the big-endian number in its first two bytes,
/// `None` where there are fewer.
#[verifier::external_body]
fn read_u16(data: &[u8]) -> (r: Option<u16>)
    ensures
        match r {
            Some(n) => data@.len() >= 2 && n == be_uint(data@.take(2)),
            None => data@.len() < 2,
        },
{
    std::io::Cursor::new(data).read_u16::<BE>().ok()
}

/// `byteorder::ReadBytesExt::read_u32` on a slice: the big-endian number in its first four bytes,
/// `None` where there are fewer.
#[verifier::external_body]
fn read_u32(data: &[u8]) -> (r: Option<u32>)
    ensures
        match r {
            Some(n) => data@.len() >= 4 && n == be_uint(data@.take(4)),
            None => data@.len() < 4,
        },
{
    std::io::Cursor::new(data).read_u32::<BE>().ok()
}

/// A size as the mathematical number that it is.
pub open spec fn size_view(size: Result<u128, SizeError>) -> Result<nat, SizeError> {
    match size {
        Ok(n) => Ok(n as nat),
        Err(e) => Err(e),
    }
}

/// A size with `n` bytes in front.
spec fn offset_size(n: nat, size: Result<nat, SizeError>) -> Result<nat, SizeError> {
    match size {
        Ok(m) => Ok(n + m),
        Err(e) => Err(e),
    }
}

/// The largest number of bytes by which a size can exceed the length of the data.
pub open spec fn max_overrun() -> nat {
    0x1_0000_0010
}

proof fn lemma_be_uint_bound(bytes: Seq<u8>)
    ensures
        bytes.len() == 1 ==> be_uint(bytes) < 0x100,
        bytes.len() == 2 ==> be_uint(bytes) < 0x1_0000,
        bytes.len() == 4 ==> be_uint(bytes) < 0x1_0000_0000,
{
    reveal_with_fuel(be_uint, 6);
}

proof fn lemma_values_size_empty(count: nat)
    ensures
        values_size(Seq::empty(), count) == (if count == 0 {
            Ok::<nat, SizeError>(0)
        } else {
            Err(SizeError::MissingMarker)
        }),
{
    assert(value_size(Seq::empty()) == Err::<nat, SizeError>(SizeError::MissingMarker));
}

/// A value takes at least one byte, and only the bytes that its last leaf declares can lie past
/// the end of the data.
pub proof fn lemma_value_size_bound(data: Seq<u8>)
    ensures
        value_size(data) matches Ok(n) ==> 1 <= n <= data.len() + max_overrun(),
    decreases data.len(), 0nat, 0nat,
{
    if data.len() >= 2 {
        lemma_be_uint_bound(data.subrange(1, 2));
    }
    if data.len() >= 3 {
        lemma_be_uint_bound(data.subrange(1, 3));
    }
    if data.len() >= 5 {
        lemma_be_uint_bound(data.subrange(1, 5));
    }
    if let Ok(Shape::Node { head, items }) = shape_of(data) {
        lemma_values_size_bound(data.skip(head as int), items);
    }
}

proof fn lemma_values_size_bound(data: Seq<u8>, count: nat)
    ensures
        values_size(data, count) matches Ok(n) ==> n <= data.len() + max_overrun(),
    decreases data.len(), 1nat, count,
{
    if count > 0 {
        lemma_value_size_bound(data);
        if let Ok(n) = value_size(data) {
            lemma_values_size_empty((count - 1) as nat);
            lemma_values_size_bound(after(data, n), (count - 1) as nat);
        }
    }
}

proof fn lemma_shape_is_local(data: Seq<u8>, other: Seq<u8>, n: nat)
    requires
        value_size(data) == Ok::<nat, SizeError>(n),
        n <= data.len(),
        n <= other.len(),
        data.take(n as int) == other.take(n as int),
    ensures
        shape_of(other) == shape_of(data),
        shape_of(data) matches Ok(Shape::Node { head, items }) ==> 1 <= head <= n,
{
    lemma_value_size_bound(data);
    assert(data[0] == data.take(n as int)[0] == other[0]);
    if let Ok(Shape::Node { head, items }) = shape_of(data) {
        assert(head <= n);
    }
    assert forall|w: int| 1 <= w <= 4 && 1 + w <= n implies #[trigger] data.subrange(1, 1 + w)
        == other.subrange(1, 1 + w) by {
        assert(data.subrange(1, 1 + w) == data.take(n as int).subrange(1, 1 + w));
        assert(other.subrange(1, 1 + w) == other.take(n as int).subrange(1, 1 + w));
    }
}

/// The size of a value depends on the bytes of the value alone: whatever follows them, or
/// nothing, the size is the same.
pub proof fn law_size_is_local(data: Seq<u8>, other: Seq<u8>, n: nat)
    requires
        value_size(data) == Ok::<nat, SizeError>(n),
        n <= data.len(),
        n <= other.len(),
        data.take(n as int) == other.take(n as int),
    ensures
        value_size(other) == Ok::<nat, SizeError>(n),
    decreases data.len(), 0nat, 0nat,
{
    lemma_shape_is_local(data, other, n);
    if let Ok(Shape::Node { head, items }) = shape_of(data) {
        let tail = data.skip(head as int);
        let other_tail = other.skip(head as int);
        let m = (n - head) as nat;
        assert(tail.take(m as int) == data.take(n as int).skip(head as int));
        assert(other_tail.take(m as int) == other.take(n as int).skip(head as int));
        lemma_values_size_is_local(tail, other_tail, items, m);
    }
}

proof fn lemma_values_size_is_local(data: Seq<u8>, other: Seq<u8>, count: nat, n: nat)
    requires
        values_size(data, count) == Ok::<nat, SizeError>(n),
        n <= data.len(),
        n <= other.len(),
        data.take(n as int) == other.take(n as int),
    ensures
        values_size(other, count) == Ok::<nat, SizeError>(n),
    decreases data.len(), 1nat, count,
{
    if count > 0 {
        let k = value_size(data).unwrap();
        let m = (n - k) as nat;
        assert(data.take(k as int) == data.take(n as int).take(k as int));
        assert(other.take(k as int) == other.take(n as int).take(k as int));
        law_size_is_local(data, other, k);
        assert(data.skip(k as int).take(m as int) == data.take(n as int).skip(k as int));
        assert(other.skip(k as int).take(m as int) == other.take(n as int).skip(k as int));
        lemma_values_size_is_local(
            data.skip(k as int),
            other.skip(k as int),
            (count - 1) as nat,
            m,
        );
    }
}

/// What follows a value does not change its size, even where the data ends inside its last leaf.
pub proof fn law_size_ignores_what_follows(data: Seq<u8>, tail: Seq<u8>)
    requires
        value_size(data) is Ok,
    ensures
        value_size(data + tail) == value_size(data),
    decreases data.len(), 0nat, 0nat,
{
    let whole = data + tail;
    assert(whole[0] == data[0]);
    assert forall|w: int| 1 <= w && 1 + w <= data.len() implies #[trigger] whole.subrange(1, 1 + w)
        == data.subrange(1, 1 + w) by {}
    assert(shape_of(whole) == shape_of(data));
    if let Ok(Shape::Node { head, items }) = shape_of(data) {
        assert(whole.skip(head as int) =~= data.skip(head as int) + tail);
        lemma_values_size_ignores_what_follows(data.skip(head as int), tail, items);
    }
}

proof fn lemma_values_size_ignores_what_follows(data: Seq<u8>, tail: Seq<u8>, count: nat)
    requires
        values_size(data, count) is Ok,
    ensures
        values_size(data + tail, count) == values_size(data, count),
    decreases data.len(), 1nat, count,
{
    if count > 0 {
        law_size_ignores_what_follows(data, tail);
        lemma_value_size_bound(data);
        let n = value_size(data).unwrap();
        if n <= data.len() {
            assert(after(data + tail, n) =~= after(data, n) + tail);
            lemma_values_size_ignores_what_follows(after(data, n), tail, (count - 1) as nat);
        } else {
            lemma_values_size_empty((count - 1) as nat);
            assert(values_size(after(data + tail, n), 0) == Ok::<nat, SizeError>(0));
        }
    }
}

/// Values, one after the other.
pub open spec fn joined(values: Seq<Seq<u8>>) -> Seq<u8>
    decreases values.len(),
{
    if values.len() == 0 {
        Seq::empty()
    } else {
        values[0] + joined(values.skip(1))
    }
}

proof fn lemma_values_size_joined(values: Seq<Seq<u8>>, tail: Seq<u8>)
    requires
        forall|i: int|
            0 <= i < values.len() ==> value_size(#[trigger] values[i]) == Ok::<nat, SizeError>(
                values[i].len(),
            ),
    ensures
        values_size(joined(values) + tail, values.len()) == Ok::<nat, SizeError>(
            joined(values).len(),
        ),
    decreases values.len(),
{
    if values.len() > 0 {
        let rest = values.skip(1);
        let data = joined(values) + tail;
        let n = values[0].len();
        assert forall|i: int| 0 <= i < rest.len() implies value_size(#[trigger] rest[i]) == Ok::<
            nat,
            SizeError,
        >(rest[i].len()) by {
            assert(rest[i] == values[i + 1]);
        }
        assert(data.take(n as int) =~= values[0].take(n as int));
        law_size_is_local(values[0], data, n);
        assert(after(data, n) =~= joined(rest) + tail);
        lemma_values_size_joined(rest, tail);
    }
}

/// The size of a collection is that of its head and those of its values together, whatever follows
/// it.
pub proof fn law_collection_size(
    data: Seq<u8>,
    head: nat,
    values: Seq<Seq<u8>>,
    tail: Seq<u8>,
)
    requires
        shape_of(data) == Ok::<Shape, SizeError>(Shape::Node { head, items: values.len() }),
        data.skip(head as int) == joined(values) + tail,
        forall|i: int|
            0 <= i < values.len() ==> value_size(#[trigger] values[i]) == Ok::<nat, SizeError>(
                values[i].len(),
            ),
    ensures
        value_size(data) == Ok::<nat, SizeError>(head + joined(values).len()),
{
    lemma_values_size_joined(values, tail);
}

/// Returns the size of the given MessagePack value in bytes. The size is what the heads of the
/// value declare: where the last leaf is cut short, it exceeds the length of the data.
pub fn msgpack_value_size(data: &[u8]) -> (r: Result<u128, SizeError>)
    ensures
        size_view(r) == value_size(data@),
        match r {
            Ok(n) => value_size(data@) == Ok::<nat, SizeError>(n as nat),
            Err(e) => value_size(data@) == Err::<nat, SizeError>(e),
        },
    decreases data@.len(), 0nat,
{
    let marker = match read_marker(data) {
        Some(marker) => marker,
        None => return Err(SizeError::MissingMarker),
    };
    let rest = slice_subrange(data, 1, data.len());
    assert(forall|width: int|
        0 <= width <= rest@.len() ==> #[trigger] rest@.take(width) == data@.subrange(1, 1 + width));
    match marker {
        Marker::FixPos(_) | Marker::FixNeg(_) | Marker::Null | Marker::True
        | Marker::False => Ok(1),
        Marker::U8 | Marker::I8 => Ok(2),
        Marker::U16 | Marker::I16 | Marker::FixExt1 => Ok(3),
        Marker::FixExt2 => Ok(4),
        Marker::U32 | Marker::I32 | Marker::F32 => Ok(5),
        Marker::FixExt4 => Ok(6),
        Marker::U64 | Marker::I64 | Marker::F64 => Ok(9),
        Marker::FixExt8 => Ok(10),
        Marker::FixExt16 => Ok(18),
        Marker::FixStr(n) => Ok(1 + n as u128),
        Marker::Str8 | Marker::Bin8 => match read_length(rest, 1) {
            Some(n) => Ok(2 + n as u128),
            None => Err(SizeError::MissingLength),
        },
        Marker::Str16 | Marker::Bin16 => match read_length(rest, 2) {
            Some(n) => Ok(3 + n as u128),
            None => Err(SizeError::MissingLength),
        },
        Marker::Str32 | Marker::Bin32 => match read_length(rest, 4) {
            Some(n) => Ok(5 + n as u128),
            None => Err(SizeError::MissingLength),
        },
        Marker::Ext8 => match read_length(rest, 1) {
            Some(n) => Ok(3 + n as u128),
            None => Err(SizeError::MissingLength),
        },
        Marker::Ext16 => match read_length(rest, 2) {
            Some(n) => Ok(4 + n as u128),
            None => Err(SizeError::MissingLength),
        },
        Marker::Ext32 => match read_length(rest, 4) {
            Some(n) => Ok(6 + n as u128),
            None => Err(SizeError::MissingLength),
        },
        Marker::FixArray(n) => collection_size(data, 1, n as u64),
        Marker::Array16 => match read_length(rest, 2) {
            Some(n) => collection_size(data, 3, n as u64),
            None => Err(SizeError::MissingLength),
        },
        Marker::Array32 => match read_length(rest, 4) {
            Some(n) => collection_size(data, 5, n as u64),
            None => Err(SizeError::MissingLength),
        },
        Marker::FixMap(n) => collection_size(data, 1, n as u64 * 2),
        Marker::Map16 => match read_length(rest, 2) {
            Some(n) => collection_size(data, 3, n as u64 * 2),
            None => Err(SizeError::MissingLength),
        },
        Marker::Map32 => match read_length(rest, 4) {
            Some(n) => collection_size(data, 5, n as u64 * 2),
            None => Err(SizeError::MissingLength),
        },
        Marker::Reserved => Err(SizeError::Reserved),
    }
}

/// The size of the value at the start of the data, if the data holds all of it.
pub open spec fn complete_size(data: Seq<u8>) -> Option<nat> {
    match value_size(data) {
        Ok(n) => if n <= data.len() {
            Some(n)
        } else {
            None
        },
        Err(_) => None,
    }
}

/// A complete value, taken out of the data, is a complete value with nothing behind it.
pub proof fn law_complete_value(data: Seq<u8>)
    ensures
        complete_size(data) matches Some(n) ==> n <= data.len() && value_size(data.take(n as int))
            == Ok::<nat, SizeError>(n),
{
    if let Some(n) = complete_size(data) {
        let value = data.take(n as int);
        assert(value.take(n as int) == value);
        law_size_is_local(data, value, n);
    }
}

/// Returns the size of the value at the start of the data, if the data holds all of it.
pub fn complete_value_size(data: &[u8]) -> (r: Option<usize>)
    ensures
        match r {
            Some(n) => complete_size(data@) == Some(n as nat),
            None => complete_size(data@) is None,
        },
{
    match msgpack_value_size(data) {
        Ok(n) => if n <= data.len() as u128 {
            Some(n as usize)
        } else {
            None
        },
        Err(_) => None,
    }
}

/// Reads the head of an array: the number of its elements and the bytes of the head.
pub(crate) fn read_array_head(data: &[u8]) -> (r: Option<(u32, usize)>)
    ensures
        match r {
            Some((count, head)) => array_head(data@) == Some((count as nat, head as nat)),
            None => array_head(data@) is None,
        },
{
    let marker = match read_marker(data) {
        Some(marker) => marker,
        None => return None,
    };
    let rest = slice_subrange(data, 1, data.len());
    assert(forall|width: int|
        0 <= width <= rest@.len() ==> #[trigger] rest@.take(width) == data@.subrange(1, 1 + width));
    match marker {
        Marker::FixArray(n) => Some((n as u32, 1)),
        Marker::Array16 => match read_length(rest, 2) {
            Some(n) => Some((n, 3)),
            None => None,
        },
        Marker::Array32 => match read_length(rest, 4) {
            Some(n) => Some((n, 5)),
            None => None,
        },
        _ => None,
    }
}

/// Reads a length field of 1, 2 or 4 bytes.
fn read_length(rest: &[u8], width: usize) -> (r: Option<u32>)
    requires
        width == 1 || width == 2 || width == 4,
    ensures
        match r {
            Some(n) => rest@.len() >= width && n == be_uint(rest@.take(width as int)),
            None => rest@.len() < width,
        },
{
    if width == 1 {
        proof {
            reveal_with_fuel(be_uint, 2);
        }
        match read_u8(rest) {
            Some(n) => Some(n as u32),
            None => None,
        }
    } else if width == 2 {
        match read_u16(rest) {
            Some(n) => Some(n as u32),
            None => None,
        }
    } else {
        read_u32(rest)
    }
}

/// The size of a collection: a head of `head` bytes, then `count` values.
fn collection_size(data: &[u8], head: usize, count: u64) -> (r: Result<u128, SizeError>)
    requires
        0 < head <= data@.len(),
    ensures
        size_view(r) == offset_size(
            head as nat,
            values_size(data@.skip(head as int), count as nat),
        ),
    decreases data@.len() - head, 1nat,
{
    let ghost items = data@.skip(head as int);
    let mut pos: usize = head;
    let mut left: u64 = count;
    while left > 0
        invariant
            0 < head <= pos <= data@.len(),
            items == data@.skip(head as int),
            offset_size(head as nat, values_size(items, count as nat)) == offset_size(
                pos as nat,
                values_size(data@.skip(pos as int), left as nat),
            ),
        decreases left,
    {
        let rest = slice_subrange(data, pos, data.len());
        assert(rest@ == data@.skip(pos as int));
        proof {
            lemma_value_size_bound(rest@);
            lemma_values_size_empty((left - 1) as nat);
        }
        match msgpack_value_size(rest) {
            Ok(n) => {
                left = left - 1;
                if n > rest.len() as u128 {
                    return if left == 0 {
                        Ok(pos as u128 + n)
                    } else {
                        Err(SizeError::MissingMarker)
                    };
                }
                assert(data@.skip(pos as int).skip(n as int) == data@.skip(pos + n));
                pos = pos + n as usize;
            },
            Err(e) => return Err(e),
        }
    }
    Ok(pos as u128)
}

/// The number of entries of the map at the start of the data, and the bytes of its head.
pub open spec fn map_head(data: Seq<u8>) -> Option<(nat, nat)> {
    if data.len() == 0 {
        None
    } else {
        match marker_of(data[0]) {
            Marker::FixMap(n) => Some((n as nat, 1)),
            Marker::Map16 => match length_field(data, 2) {
                Ok(n) => Some((n, 3)),
                Err(_) => None,
            },
            Marker::Map32 => match length_field(data, 4) {
                Ok(n) => Some((n, 5)),
                Err(_) => None,
            },
            _ => None,
        }
    }
}

/// The number of elements of the array at the start of the data, and the bytes of its head.
pub open spec fn array_head(data: Seq<u8>) -> Option<(nat, nat)> {
    if data.len() == 0 {
        None
    } else {
        match marker_of(data[0]) {
            Marker::FixArray(n) => Some((n as nat, 1)),
            Marker::Array16 => match length_field(data, 2) {
                Ok(n) => Some((n, 3)),
                Err(_) => None,
            },
            Marker::Array32 => match length_field(data, 4) {
                Ok(n) => Some((n, 5)),
                Err(_) => None,
            },
            _ => None,
        }
    }
}

/// The number of bytes of the string at the start of the data, and the bytes of its head.
pub open spec fn str_head(data: Seq<u8>) -> Option<(nat, nat)> {
    if data.len() == 0 {
        None
    } else {
        match marker_of(data[0]) {
            Marker::FixStr(n) => Some((n as nat, 1)),
            Marker::Str8 => match length_field(data, 1) {
                Ok(n) => Some((n, 2)),
                Err(_) => None,
            },
            Marker::Str16 => match length_field(data, 2) {
                Ok(n) => Some((n, 3)),
                Err(_) => None,
            },
            Marker::Str32 => match length_field(data, 4) {
                Ok(n) => Some((n, 5)),
                Err(_) => None,
            },
            _ => None,
        }
    }
}

/// The bytes of the string at the start of the data, and the size of the value. There is none
/// where the data holds another kind of value, ends too early, or is no UTF-8.
pub open spec fn str_of(data: Seq<u8>) -> Option<(Seq<u8>, nat)> {
    match str_head(data) {
        Some((len, head)) => if head + len <= data.len() && vstd::utf8::valid_utf8(
            data.subrange(head as int, (head + len) as int),
        ) {
            Some((data.subrange(head as int, (head + len) as int), head + len))
        } else {
            None
        },
        None => None,
    }
}

/// The number of at most `limit` in the `width` bytes behind the marker, and the size of the
/// value.
pub open spec fn small_uint(data: Seq<u8>, width: nat, limit: nat) -> Option<(u8, nat)> {
    match length_field(data, width) {
        Ok(n) => if n <= limit {
            Some((n as u8, 1 + width))
        } else {
            None
        },
        Err(_) => None,
    }
}

/// The integer from 0 to 255 at the start of the data, and the size of the value. Any integer
/// format may hold it.
pub open spec fn u8_of(data: Seq<u8>) -> Option<(u8, nat)> {
    if data.len() == 0 {
        None
    } else {
        match marker_of(data[0]) {
            Marker::FixPos(n) => Some((n, 1)),
            Marker::U8 => small_uint(data, 1, 0xff),
            Marker::I8 => small_uint(data, 1, 0x7f),
            Marker::U16 | Marker::I16 => small_uint(data, 2, 0xff),
            Marker::U32 | Marker::I32 => small_uint(data, 4, 0xff),
            Marker::U64 | Marker::I64 => small_uint(data, 8, 0xff),
            _ => None,
        }
    }
}

/// Why `rmp` could not read a value. Opaque: callers only see that reading failed.
#[verifier::external_type_specification]
#[verifier::external_body]
pub struct ExValueReadError(rmp::decode::ValueReadError);

/// Why `rmp_serde` could not decode a value. Opaque: callers only see that decoding failed.
#[verifier::external_type_specification]
#[verifier::external_body]
pub struct ExDecodeError(rmp_serde::decode::Error);

/// `rmp::decode::read_map_len` on a slice: the number of entries of the map and the bytes read;
/// fails on anything but the complete head of a map.
#[verifier::external_body]
pub(crate) fn read_map_len(data: &[u8]) -> (r: Result<(u32, u64), rmp::decode::ValueReadError>)
    ensures
        match r {
            Ok((count, head)) => map_head(data@) == Some((count as nat, head as nat)),
            Err(_) => map_head(data@) is None,
        },
{
    let mut cursor = std::io::Cursor::new(data);
    let count = rmp::decode::read_map_len(&mut cursor)?;
    Ok((count, cursor.position()))
}

/// `rmp::decode::read_str` on a slice: copies the string to the front of the buffer, leaves the
/// rest of the buffer alone and returns the bytes read. Fails where there is no complete string
/// in UTF-8, or where it does not fit the buffer; the buffer then holds nothing in particular.
#[verifier::external_body]
pub(crate) fn read_str(data: &[u8], buf: &mut [u8]) -> (r: Result<u64, rmp_serde::decode::Error>)
    ensures
        final(buf)@.len() == old(buf)@.len(),
        match r {
            Ok(n) => str_of(data@) matches Some((text, size)) && size == n && text.len()
                <= old(buf)@.len() && final(buf)@ == text + old(buf)@.skip(text.len() as int),
            Err(_) => str_of(data@) matches Some((text, _)) ==> text.len() > old(buf)@.len(),
        },
{
    let mut cursor = std::io::Cursor::new(data);
    rmp::decode::read_str(&mut cursor, buf)?;
    Ok(cursor.position())
}

/// `u8::deserialize` on an `rmp_serde::Deserializer` over a slice: the integer and the bytes
/// read; fails on anything but a complete integer from 0 to 255.
#[verifier::external_body]
pub(crate) fn decode_u8(data: &[u8]) -> (r: Result<(u8, u64), rmp_serde::decode::Error>)
    ensures
        match r {
            Ok((n, size)) => u8_of(data@) == Some((n, size as nat)),
            Err(_) => u8_of(data@) is None,
        },
{
    let mut cursor = std::io::Cursor::new(data);
    let n = u8::deserialize(&mut rmp_serde::Deserializer::new(&mut cursor))?;
    Ok((n, cursor.position()))
}

/// The big-endian number in the two bytes at `i`.
pub open spec fn two_bytes(data: Seq<u8>, i: int) -> int {
    data[i] * 0x100 + data[i + 1]
}

/// The big-endian number in the four bytes at `i`.
pub open spec fn four_bytes(data: Seq<u8>, i: int) -> int {
    data[i] * 0x100_0000 + data[i + 1] * 0x1_0000 + data[i + 2] * 0x100 + data[i + 3]
}

/// The bytes of a length are a big-endian number.
proof fn lemma_length_fields(data: Seq<u8>)
    ensures
        data.len() >= 2 ==> length_field(data, 1) == Ok::<nat, SizeError>(data[1] as nat),
        data.len() >= 3 ==> length_field(data, 2) == Ok::<nat, SizeError>(
            two_bytes(data, 1) as nat,
        ),
        data.len() >= 5 ==> length_field(data, 4) == Ok::<nat, SizeError>(
            four_bytes(data, 1) as nat,
        ),
        data.len() >= 9 && data[1] == 0 && data[2] == 0 && data[3] == 0 && data[4] == 0
            ==> length_field(data, 8) == Ok::<nat, SizeError>(four_bytes(data, 5) as nat),
{
    lemma_be_bytes(data, 1);
    lemma_be_bytes(data, 2);
    lemma_be_bytes(data, 4);
    lemma_be_bytes(data, 8);
}

proof fn lemma_be_bytes(data: Seq<u8>, width: nat)
    requires
        width == 1 || width == 2 || width == 4 || width == 8,
    ensures
        data.len() >= 1 + width ==> {
            let n = be_uint(data.subrange(1, 1 + width as int));
            &&& width == 1 ==> n == data[1]
            &&& width == 2 ==> n == two_bytes(data, 1)
            &&& width == 4 ==> n == four_bytes(data, 1)
            &&& width == 8 ==> n == four_bytes(data, 1) * 0x1_0000_0000 + four_bytes(data, 5)
        },
{
    if data.len() >= 1 + width {
        let bytes = data.subrange(1, 1 + width as int);
        assert(bytes.len() == width);
        lemma_be_step(bytes);
        if width >= 2 {
            lemma_be_step(bytes.take(width - 1));
            assert(bytes.drop_last() =~= bytes.take(width - 1));
            assert(bytes.take(width - 1).drop_last() =~= bytes.take(width - 2));
        }
        if width >= 4 {
            lemma_be_step(bytes.take(width - 2));
            lemma_be_step(bytes.take(width - 3));
            assert(bytes.take(width - 2).drop_last() =~= bytes.take(width - 3));
            assert(bytes.take(width - 3).drop_last() =~= bytes.take(width - 4));
        }
        if width == 8 {
            lemma_be_step(bytes.take(4));
            lemma_be_step(bytes.take(3));
            lemma_be_step(bytes.take(2));
            lemma_be_step(bytes.take(1));
            assert(bytes.take(4).drop_last() =~= bytes.take(3));
            assert(bytes.take(3).drop_last() =~= bytes.take(2));
            assert(bytes.take(2).drop_last() =~= bytes.take(1));
            assert(bytes.take(1).drop_last() =~= Seq::empty());
        } else {
            assert(bytes.take(0) =~= Seq::empty());
        }
    }
}

proof fn lemma_be_step(bytes: Seq<u8>)
    ensures
        bytes.len() > 0 ==> be_uint(bytes) == be_uint(bytes.drop_last()) * 256 + bytes.last(),
        be_uint(Seq::empty()) == 0,
{
}

/// The values of a fixed size, and the strings with their length in the marker, by their first
/// byte.
pub proof fn law_fixed_sizes(data: Seq<u8>)
    requires
        data.len() > 0,
    ensures
        ({
            let b = data[0];
            let size = value_size(data);
            let is = |n: nat| size == Ok::<nat, SizeError>(n);
            &&& b <= 0x7f || b >= 0xe0 || b == 0xc0 || b == 0xc2 || b == 0xc3 ==> is(1)
            &&& b == 0xcc || b == 0xd0 ==> is(2)
            &&& b == 0xcd || b == 0xd1 || b == 0xd4 ==> is(3)
            &&& b == 0xd5 ==> is(4)
            &&& b == 0xce || b == 0xd2 || b == 0xca ==> is(5)
            &&& b == 0xd6 ==> is(6)
            &&& b == 0xcf || b == 0xd3 || b == 0xcb ==> is(9)
            &&& b == 0xd7 ==> is(10)
            &&& b == 0xd8 ==> is(18)
            &&& 0xa0 <= b <= 0xbf ==> is((b - 0x9f) as nat)
            &&& b == 0xc1 ==> size == Err::<nat, SizeError>(SizeError::Reserved)
        }),
{
}

/// Strings, binary data and extensions are as long as the big-endian length behind their marker
/// says, with the marker, the length and the type of an extension counted in. Where the length is
/// cut off, or there is no marker, there is no size.
pub proof fn law_announced_sizes(data: Seq<u8>)
    ensures
        ({
            let b = data[0];
            let size = value_size(data);
            let is = |n: int| size == Ok::<nat, SizeError>(n as nat);
            let missing = size == Err::<nat, SizeError>(SizeError::MissingLength);
            &&& data.len() == 0 ==> size == Err::<nat, SizeError>(SizeError::MissingMarker)
            &&& data.len() >= 2 && (b == 0xd9 || b == 0xc4) ==> is(2 + data[1])
            &&& data.len() >= 3 && (b == 0xda || b == 0xc5) ==> is(3 + two_bytes(data, 1))
            &&& data.len() >= 5 && (b == 0xdb || b == 0xc6) ==> is(5 + four_bytes(data, 1))
            &&& data.len() >= 2 && b == 0xc7 ==> is(3 + data[1])
            &&& data.len() >= 3 && b == 0xc8 ==> is(4 + two_bytes(data, 1))
            &&& data.len() >= 5 && b == 0xc9 ==> is(6 + four_bytes(data, 1))
            &&& data.len() == 1 && (b == 0xd9 || b == 0xc4 || b == 0xc7) ==> missing
            &&& 0 < data.len() < 3 && (b == 0xda || b == 0xc5 || b == 0xc8) ==> missing
            &&& 0 < data.len() < 5 && (b == 0xdb || b == 0xc6 || b == 0xc9) ==> missing
        }),
{
    lemma_length_fields(data);
}

/// The number of bytes of the head of an array or a map, and the number of values that follow it,
/// two for each entry of a map; `None` where the data does not start with the head of one.
pub open spec fn collection(data: Seq<u8>) -> Option<(nat, nat)> {
    let b = data[0];
    if data.len() == 0 {
        None
    } else if 0x90 <= b <= 0x9f {
        Some((1, (b - 0x90) as nat))
    } else if 0x80 <= b <= 0x8f {
        Some((1, (2 * (b - 0x80)) as nat))
    } else if b == 0xdc && data.len() >= 3 {
        Some((3, two_bytes(data, 1) as nat))
    } else if b == 0xdd && data.len() >= 5 {
        Some((5, four_bytes(data, 1) as nat))
    } else if b == 0xde && data.len() >= 3 {
        Some((3, (2 * two_bytes(data, 1)) as nat))
    } else if b == 0xdf && data.len() >= 5 {
        Some((5, (2 * four_bytes(data, 1)) as nat))
    } else {
        None
    }
}

proof fn lemma_collection(data: Seq<u8>)
    ensures
        collection(data) matches Some((head, items)) ==> {
            &&& 0 < head <= data.len()
            &&& shape_of(data) == Ok::<Shape, SizeError>(Shape::Node { head, items })
        },
        ({
            let b = data[0];
            (0 < data.len() < 3 && (b == 0xdc || b == 0xde)) || (0 < data.len() < 5 && (b == 0xdd
                || b == 0xdf)) ==> shape_of(data) == Err::<Shape, SizeError>(
                SizeError::MissingLength,
            )
        }),
{
    lemma_length_fields(data);
}

/// What follows the complete values of a collection decides its size. Where they are all there
/// are, the size is that of the head and theirs. Where the next value cannot be measured, neither
/// can the collection. Where the data ends inside the next value, that has to be the last.
pub proof fn law_collection_by_values(
    data: Seq<u8>,
    head: nat,
    items: nat,
    values: Seq<Seq<u8>>,
    tail: Seq<u8>,
)
    requires
        collection(data) == Some((head, items)),
        data.skip(head as int) == joined(values) + tail,
        values.len() <= items,
        forall|i: int|
            0 <= i < values.len() ==> value_size(#[trigger] values[i]) == Ok::<nat, SizeError>(
                values[i].len(),
            ),
    ensures
        ({
            let size = value_size(data);
            let so_far = head + joined(values).len();
            &&& values.len() == items ==> size == Ok::<nat, SizeError>(so_far)
            &&& values.len() < items ==> match value_size(tail) {
                Err(e) => size == Err::<nat, SizeError>(e),
                Ok(n) => n > tail.len() ==> size == (if values.len() + 1 == items {
                    Ok::<nat, SizeError>(so_far + n)
                } else {
                    Err(SizeError::MissingMarker)
                }),
            }
        }),
{
    lemma_collection(data);
    lemma_values_size_prefix(values, tail, items);
    if values.len() < items {
        if let Ok(n) = value_size(tail) {
            if n > tail.len() {
                lemma_values_size_empty((items - values.len() - 1) as nat);
            }
        }
    }
}

proof fn lemma_values_size_prefix(values: Seq<Seq<u8>>, tail: Seq<u8>, count: nat)
    requires
        values.len() <= count,
        forall|i: int|
            0 <= i < values.len() ==> value_size(#[trigger] values[i]) == Ok::<nat, SizeError>(
                values[i].len(),
            ),
    ensures
        values_size(joined(values) + tail, count) == offset_size(
            joined(values).len(),
            values_size(tail, (count - values.len()) as nat),
        ),
    decreases values.len(),
{
    let data = joined(values) + tail;
    if values.len() == 0 {
        assert(data =~= tail);
    } else {
        let rest = values.skip(1);
        let n = values[0].len();
        assert forall|i: int| 0 <= i < rest.len() implies value_size(#[trigger] rest[i]) == Ok::<
            nat,
            SizeError,
        >(rest[i].len()) by {
            assert(rest[i] == values[i + 1]);
        }
        assert(data.take(n as int) =~= values[0].take(n as int));
        law_size_is_local(values[0], data, n);
        assert(after(data, n) =~= joined(rest) + tail);
        lemma_values_size_prefix(rest, tail, (count - 1) as nat);
    }
}

/// A collection without the bytes of its length has no size.
pub proof fn law_cut_off_collection(data: Seq<u8>)
    requires
        ({
            let b = data[0];
            (0 < data.len() < 3 && (b == 0xdc || b == 0xde)) || (0 < data.len() < 5 && (b == 0xdd
                || b == 0xdf))
        }),
    ensures
        value_size(data) == Err::<nat, SizeError>(SizeError::MissingLength),
{
    lemma_collection(data);
}

/// A value is complete if and only if its size can be told and lies within the data.
pub proof fn law_completeness(data: Seq<u8>, n: nat)
    ensures
        complete_size(data) == Some(n) <==> value_size(data) == Ok::<nat, SizeError>(n) && n
            <= data.len(),
        complete_size(data) is None <==> (value_size(data) matches Ok(m) ==> m > data.len()),
{
}

/// The heads of arrays, maps and strings by their bytes. No other data starts with one.
pub proof fn law_heads(data: Seq<u8>)
    requires
        data.len() > 0,
    ensures
        ({
            let b = data[0];
            &&& array_head(data) == (if 0x90 <= b <= 0x9f {
                Some(((b - 0x90) as nat, 1nat))
            } else if b == 0xdc && data.len() >= 3 {
                Some((two_bytes(data, 1) as nat, 3nat))
            } else if b == 0xdd && data.len() >= 5 {
                Some((four_bytes(data, 1) as nat, 5nat))
            } else {
                None
            })
            &&& map_head(data) == (if 0x80 <= b <= 0x8f {
                Some(((b - 0x80) as nat, 1nat))
            } else if b == 0xde && data.len() >= 3 {
                Some((two_bytes(data, 1) as nat, 3nat))
            } else if b == 0xdf && data.len() >= 5 {
                Some((four_bytes(data, 1) as nat, 5nat))
            } else {
                None
            })
            &&& str_head(data) == (if 0xa0 <= b <= 0xbf {
                Some(((b - 0xa0) as nat, 1nat))
            } else if b == 0xd9 && data.len() >= 2 {
                Some((data[1] as nat, 2nat))
            } else if b == 0xda && data.len() >= 3 {
                Some((two_bytes(data, 1) as nat, 3nat))
            } else if b == 0xdb && data.len() >= 5 {
                Some((four_bytes(data, 1) as nat, 5nat))
            } else {
                None
            })
        }),
{
    lemma_length_fields(data);
}

/// Every integer from 0 to 255 is read as itself, in whichever integer format it is written and
/// whatever follows it.
pub proof fn law_integers_are_read(n: u8, rest: Seq<u8>)
    ensures
        n <= 0x7f ==> u8_of(seq![n] + rest) == Some((n, 1nat)),
        u8_of(seq![0xccu8, n] + rest) == Some((n, 2nat)),
        n <= 0x7f ==> u8_of(seq![0xd0u8, n] + rest) == Some((n, 2nat)),
        u8_of(seq![0xcdu8, 0, n] + rest) == Some((n, 3nat)),
        u8_of(seq![0xd1u8, 0, n] + rest) == Some((n, 3nat)),
        u8_of(seq![0xceu8, 0, 0, 0, n] + rest) == Some((n, 5nat)),
        u8_of(seq![0xd2u8, 0, 0, 0, n] + rest) == Some((n, 5nat)),
        u8_of(seq![0xcfu8, 0, 0, 0, 0, 0, 0, 0, n] + rest) == Some((n, 9nat)),
        u8_of(seq![0xd3u8, 0, 0, 0, 0, 0, 0, 0, n] + rest) == Some((n, 9nat)),
{
    lemma_length_fields(seq![0xccu8, n] + rest);
    lemma_length_fields(seq![0xd0u8, n] + rest);
    lemma_length_fields(seq![0xcdu8, 0, n] + rest);
    lemma_length_fields(seq![0xd1u8, 0, n] + rest);
    lemma_length_fields(seq![0xceu8, 0, 0, 0, n] + rest);
    lemma_length_fields(seq![0xd2u8, 0, 0, 0, n] + rest);
    lemma_length_fields(seq![0xcfu8, 0, 0, 0, 0, 0, 0, 0, n] + rest);
    lemma_length_fields(seq![0xd3u8, 0, 0, 0, 0, 0, 0, 0, n] + rest);
}

} // verus!
