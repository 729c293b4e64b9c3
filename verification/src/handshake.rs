//! The body of a handshake request.
//!
//! The body is a map with the protocol version of the client under the key `ver`, or an array that
//! starts with that version. In a map the key may be a string, binary data or the number 0 of the
//! field; other fields are skipped.
use rmp::Marker;
use vstd::prelude::*;
use vstd::slice::slice_subrange;

use crate::compat;
use crate::msgpack;

verus! {

/// What the key of an entry of the body stands for.
#[derive(Debug, Clone, Copy, PartialEq, Eq, Structural)]
pub enum BodyKey {
    /// The entry holds the version.
    Version,
    /// The entry holds something else, which is skipped.
    Other,
    /// No key is of this kind.
    Invalid,
}

/// The bytes of a field name, which follow a head of `head` bytes.
pub open spec fn named_key(key: Seq<u8>, head: int) -> BodyKey {
    if key.skip(head) == seq![0x76u8, 0x65, 0x72] {
        BodyKey::Version
    } else {
        BodyKey::Other
    }
}

/// The kind of a key. A number is the index of a field, a text or binary data its name.
pub open spec fn body_key(key: Seq<u8>) -> BodyKey {
    match msgpack::marker_of(key[0]) {
        Marker::FixPos(n) => if n == 0 {
            BodyKey::Version
        } else {
            BodyKey::Other
        },
        Marker::U8 | Marker::U16 | Marker::U32 | Marker::U64 => if msgpack::be_uint(key.skip(1))
            == 0 {
            BodyKey::Version
        } else {
            BodyKey::Other
        },
        Marker::FixStr(_) => named_key(key, 1),
        Marker::Str8 | Marker::Bin8 => named_key(key, 2),
        Marker::Str16 | Marker::Bin16 => named_key(key, 3),
        Marker::Str32 | Marker::Bin32 => named_key(key, 5),
        _ => BodyKey::Invalid,
    }
}

/// Reads the entry at the start of the data, where `found` is the version that the entries before
/// gave: the version found by then and the size of the entry. `None` where the entry is malformed
/// or gives a second version.
#[verifier::opaque]
pub open spec fn entry_of(data: Seq<u8>, found: Option<compat::VersionSpec>) -> Option<
    (Option<compat::VersionSpec>, nat),
> {
    match msgpack::complete_size(data) {
        Some(n) => {
            let rest = data.skip(n as int);
            match body_key(data.take(n as int)) {
                BodyKey::Version => match compat::version_of(rest) {
                    Some((version, m)) => if found is None {
                        Some((Some(version), n + m))
                    } else {
                        None
                    },
                    None => None,
                },
                BodyKey::Other => match msgpack::complete_size(rest) {
                    Some(m) => Some((found, n + m)),
                    None => None,
                },
                BodyKey::Invalid => None,
            }
        },
        None => None,
    }
}

/// The version that the next `left` entries of the body give, where `found` is the one that the
/// entries before gave.
pub open spec fn entries_version(
    data: Seq<u8>,
    left: nat,
    found: Option<compat::VersionSpec>,
) -> Option<compat::VersionSpec>
    decreases left,
{
    if left == 0 {
        found
    } else {
        match entry_of(data, found) {
            Some((found, n)) => entries_version(data.skip(n as int), (left - 1) as nat, found),
            None => None,
        }
    }
}

/// The version that the body of a handshake request gives.
pub open spec fn body_version(body: Seq<u8>) -> Option<compat::VersionSpec> {
    match msgpack::map_head(body) {
        Some((count, head)) => entries_version(body.skip(head as int), count, None),
        None => match msgpack::array_head(body) {
            Some((count, head)) => if count > 0 {
                match compat::version_of(body.skip(head as int)) {
                    Some((version, _)) => Some(version),
                    None => None,
                }
            } else {
                None
            },
            None => None,
        },
    }
}

proof fn lemma_be_uint_zero(bytes: Seq<u8>)
    ensures
        msgpack::be_uint(bytes) == 0 <==> forall|i: int| 0 <= i < bytes.len() ==> bytes[i] == 0,
    decreases bytes.len(),
{
    if bytes.len() > 0 {
        lemma_be_uint_zero(bytes.drop_last());
        if msgpack::be_uint(bytes) == 0 {
            assert forall|i: int| 0 <= i < bytes.len() implies bytes[i] == 0 by {
                if i < bytes.len() - 1 {
                    assert(bytes.drop_last()[i] == 0);
                }
            }
        }
    }
}

/// Whether a key is the number 0.
fn is_index_zero(key: &[u8]) -> (r: bool)
    requires
        key@.len() > 0,
    ensures
        r == (msgpack::be_uint(key@.skip(1)) == 0),
{
    proof {
        lemma_be_uint_zero(key@.skip(1));
    }
    let mut i: usize = 1;
    while i < key.len()
        invariant
            1 <= i <= key@.len(),
            forall|j: int| 1 <= j < i ==> key@[j] == 0,
        decreases key@.len() - i,
    {
        if key[i] != 0 {
            proof {
                lemma_be_uint_zero(key@.skip(1));
                assert(key@.skip(1)[i - 1] == key@[i as int]);
            }
            return false;
        }
        i = i + 1;
    }
    true
}

/// Tells by its name, which follows a head of `head` bytes, what a key stands for.
fn read_named_key(key: &[u8], head: usize) -> (r: BodyKey)
    requires
        head <= key@.len(),
    ensures
        r == named_key(key@, head as int),
{
    let name = slice_subrange(key, head, key.len());
    assert(name@ == key@.skip(head as int));
    if name.len() == 3 && name[0] == 0x76 && name[1] == 0x65 && name[2] == 0x72 {
        assert(name@ == seq![0x76u8, 0x65, 0x72]);
        BodyKey::Version
    } else {
        BodyKey::Other
    }
}

/// Tells what a key stands for.
fn read_body_key(key: &[u8]) -> (r: BodyKey)
    requires
        msgpack::value_size(key@) == Ok::<nat, msgpack::SizeError>(key@.len()),
    ensures
        r == body_key(key@),
{
    let marker = match msgpack::read_marker(key) {
        Some(marker) => marker,
        None => return BodyKey::Invalid,
    };
    match marker {
        Marker::FixPos(n) => if n == 0 {
            BodyKey::Version
        } else {
            BodyKey::Other
        },
        Marker::U8 | Marker::U16 | Marker::U32 | Marker::U64 => if is_index_zero(key) {
            BodyKey::Version
        } else {
            BodyKey::Other
        },
        Marker::FixStr(_) => read_named_key(key, 1),
        Marker::Str8 | Marker::Bin8 => read_named_key(key, 2),
        Marker::Str16 | Marker::Bin16 => read_named_key(key, 3),
        Marker::Str32 | Marker::Bin32 => read_named_key(key, 5),
        _ => BodyKey::Invalid,
    }
}

/// Reads the entry at the start of the data: the version found by then and the size of the entry.
fn read_entry(data: &[u8], found: Option<semver::Version>) -> (r: Option<
    (Option<semver::Version>, usize),
>)
    ensures
        match r {
            Some((now, n)) => n <= data@.len() && entry_of(data@, compat::found_view(found))
                == Some((compat::found_view(now), n as nat)),
            None => entry_of(data@, compat::found_view(found)) is None,
        },
{
    reveal(entry_of);
    let n: usize = match msgpack::complete_value_size(data) {
        Some(n) => n,
        None => return None,
    };
    let key = slice_subrange(data, 0, n);
    let rest = slice_subrange(data, n, data.len());
    proof {
        assert(key@ == data@.take(n as int));
        assert(rest@ == data@.skip(n as int));
        msgpack::law_complete_value(data@);
    }
    match read_body_key(key) {
        BodyKey::Version => {
            if found.is_some() {
                return None;
            }
            match compat::decode_version(rest) {
                Ok((version, size)) => Some((Some(version), n + size as usize)),
                Err(_) => None,
            }
        },
        BodyKey::Other => match msgpack::complete_value_size(rest) {
            Some(size) => Some((found, n + size)),
            None => None,
        },
        BodyKey::Invalid => None,
    }
}

/// Reads the version in the `count` entries of a body that is a map with a head of `head` bytes.
fn read_entries_version(body: &[u8], head: usize, count: u32) -> (r: Option<semver::Version>)
    requires
        head <= body@.len(),
    ensures
        compat::found_view(r) == entries_version(body@.skip(head as int), count as nat, None),
{
    let mut pos: usize = head;
    let mut left: u32 = count;
    let mut found: Option<semver::Version> = None;
    while left > 0
        invariant
            head <= pos <= body@.len(),
            entries_version(body@.skip(head as int), count as nat, None) == entries_version(
                body@.skip(pos as int),
                left as nat,
                compat::found_view(found),
            ),
        decreases left,
    {
        let data = slice_subrange(body, pos, body.len());
        assert(data@ == body@.skip(pos as int));
        match read_entry(data, found) {
            Some((now, n)) => {
                assert(data@.skip(n as int) == body@.skip(pos + n));
                found = now;
                pos = pos + n;
            },
            None => return None,
        }
        left = left - 1;
    }
    found
}

/// Reads the version of a client from the body of its handshake request.
pub fn handshake_version(body: &[u8]) -> (r: Option<semver::Version>)
    ensures
        compat::found_view(r) == body_version(body@),
        match r {
            Some(version) => body_version(body@) == Some(compat::version_view(version)),
            None => body_version(body@) is None,
        },
{
    match msgpack::read_map_len(body) {
        Ok((count, head)) => read_entries_version(body, head as usize, count),
        Err(_) => match msgpack::read_array_head(body) {
            Some((count, head)) => if count > 0 {
                let first = slice_subrange(body, head, body.len());
                assert(first@ == body@.skip(head as int));
                match compat::decode_version(first) {
                    Ok((version, _)) => Some(version),
                    Err(_) => None,
                }
            } else {
                None
            },
            None => None,
        },
    }
}

/// The name `ver` in every format of strings and binary data, and the number 0 in every format of
/// unsigned integers.
pub open spec fn is_version_key(key: Seq<u8>) -> bool {
    let name = seq![0x76u8, 0x65, 0x72];
    ||| key == seq![0xa3u8] + name
    ||| key == seq![0xd9u8, 3] + name
    ||| key == seq![0xdau8, 0, 3] + name
    ||| key == seq![0xdbu8, 0, 0, 0, 3] + name
    ||| key == seq![0xc4u8, 3] + name
    ||| key == seq![0xc5u8, 0, 3] + name
    ||| key == seq![0xc6u8, 0, 0, 0, 3] + name
    ||| key == seq![0u8]
    ||| key == seq![0xccu8, 0]
    ||| key == seq![0xcdu8, 0, 0]
    ||| key == seq![0xceu8, 0, 0, 0, 0]
    ||| key == seq![0xcfu8, 0, 0, 0, 0, 0, 0, 0, 0]
}

/// Whether a value is a string, binary data or an unsigned integer, by its first byte.
pub open spec fn may_be_key(key: Seq<u8>) -> bool {
    let b = key[0];
    b <= 0x7f || 0xa0 <= b <= 0xbf || 0xc4 <= b <= 0xc6 || 0xcc <= b <= 0xcf || 0xd9 <= b <= 0xdb
}

proof fn lemma_named_key(key: Seq<u8>, head: Seq<u8>)
    requires
        key.len() >= head.len(),
        key.take(head.len() as int) == head,
    ensures
        key.skip(head.len() as int) == seq![0x76u8, 0x65, 0x72] <==> key == head + seq![
            0x76u8,
            0x65,
            0x72,
        ],
{
    let name = seq![0x76u8, 0x65, 0x72];
    assert(key =~= head + key.skip(head.len() as int));
    assert((head + name).skip(head.len() as int) =~= name);
}

/// A key with a head of `n` bytes that announces as many bytes as follow it.
proof fn lemma_head_of_name(key: Seq<u8>, n: int)
    requires
        key.len() > 0,
        msgpack::value_size(key) == Ok::<nat, msgpack::SizeError>(key.len()),
        ({
            let b = key[0];
            (n == 1 && 0xa0 <= b <= 0xbf) || (n == 2 && (b == 0xd9 || b == 0xc4)) || (n == 3 && (b
                == 0xda || b == 0xc5)) || (n == 5 && (b == 0xdb || b == 0xc6))
        }),
    ensures
        n <= key.len(),
        key.skip(n) == seq![0x76u8, 0x65, 0x72] ==> {
            let head = key.take(n);
            &&& n == 1 ==> head == seq![0xa3u8]
            &&& n == 2 ==> head == seq![key[0], 3u8]
            &&& n == 3 ==> head == seq![key[0], 0u8, 3u8]
            &&& n == 5 ==> head == seq![key[0], 0u8, 0u8, 0u8, 3u8]
        },
{
    msgpack::law_fixed_sizes(key);
    msgpack::law_announced_sizes(key);
    if key.skip(n) == seq![0x76u8, 0x65, 0x72] {
        assert(key.len() == n + 3) by {
            assert(key.skip(n).len() == 3);
        }
    }
}

/// What a key stands for: the version under its name or its number, something else under any other
/// name or number, and nothing where it is no string, no binary data and no unsigned integer.
pub proof fn law_body_keys(key: Seq<u8>)
    requires
        key.len() > 0,
        msgpack::value_size(key) == Ok::<nat, msgpack::SizeError>(key.len()),
    ensures
        body_key(key) is Version <==> is_version_key(key),
        body_key(key) is Other <==> may_be_key(key) && !is_version_key(key),
        body_key(key) is Invalid <==> !may_be_key(key),
{
    let b = key[0];
    let name = seq![0x76u8, 0x65, 0x72];
    msgpack::law_fixed_sizes(key);
    if 0xa0 <= b <= 0xbf {
        lemma_head_of_name(key, 1);
        lemma_named_key(key, key.take(1));
        assert(body_key(key) == named_key(key, 1));
        assert(is_version_key(key) ==> key == seq![0xa3u8] + name);
        if key == seq![0xa3u8] + name {
            assert(key.skip(1) =~= name);
        }
    } else if b == 0xd9 || b == 0xc4 {
        lemma_head_of_name(key, 2);
        lemma_named_key(key, key.take(2));
        assert(body_key(key) == named_key(key, 2));
        assert(is_version_key(key) ==> key == seq![b, 3u8] + name);
        if key == seq![b, 3u8] + name {
            assert(key.skip(2) =~= name);
        }
    } else if b == 0xda || b == 0xc5 {
        lemma_head_of_name(key, 3);
        lemma_named_key(key, key.take(3));
        assert(body_key(key) == named_key(key, 3));
        assert(is_version_key(key) ==> key == seq![b, 0u8, 3u8] + name);
        if key == seq![b, 0u8, 3u8] + name {
            assert(key.skip(3) =~= name);
        }
    } else if b == 0xdb || b == 0xc6 {
        lemma_head_of_name(key, 5);
        lemma_named_key(key, key.take(5));
        assert(body_key(key) == named_key(key, 5));
        assert(is_version_key(key) ==> key == seq![b, 0u8, 0u8, 0u8, 3u8] + name);
        if key == seq![b, 0u8, 0u8, 0u8, 3u8] + name {
            assert(key.skip(5) =~= name);
        }
    } else if b <= 0x7f {
        assert(is_version_key(key) ==> key[0] == 0);
        if b == 0 {
            assert(key =~= seq![0u8]);
        }
    } else if 0xcc <= b <= 0xcf {
        lemma_be_uint_zero(key.skip(1));
        assert(forall|i: int| 0 <= i < key.len() - 1 ==> #[trigger] key.skip(1)[i] == key[i + 1]);
        if msgpack::be_uint(key.skip(1)) == 0 {
            assert forall|i: int| 1 <= i < key.len() implies key[i] == 0 by {
                assert(key.skip(1)[i - 1] == 0);
            }
            assert(b == 0xcc ==> key =~= seq![0xccu8, 0]);
            assert(b == 0xcd ==> key =~= seq![0xcdu8, 0, 0]);
            assert(b == 0xce ==> key =~= seq![0xceu8, 0, 0, 0, 0]);
            assert(b == 0xcf ==> key =~= seq![0xcfu8, 0, 0, 0, 0, 0, 0, 0, 0]);
        }
    }
}

/// Where there is no entry left, the version is the one that was found.
pub proof fn law_no_entries(data: Seq<u8>, found: Option<compat::VersionSpec>)
    ensures
        entries_version(data, 0, found) == found,
{
}

proof fn lemma_key_of_entry(key: Seq<u8>, rest: Seq<u8>)
    requires
        msgpack::value_size(key) == Ok::<nat, msgpack::SizeError>(key.len()),
    ensures
        msgpack::complete_size(key + rest) == Some(key.len()),
        (key + rest).take(key.len() as int) == key,
        (key + rest).skip(key.len() as int) == rest,
{
    let data = key + rest;
    assert(data.take(key.len() as int) =~= key);
    assert(key.take(key.len() as int) =~= key);
    assert(data.skip(key.len() as int) =~= rest);
    msgpack::law_size_is_local(key, data, key.len());
}

/// An entry under any other key does not count, whatever its value: the entries behind it give the
/// same version as without it.
pub proof fn law_other_entries_do_not_count(
    key: Seq<u8>,
    value: Seq<u8>,
    rest: Seq<u8>,
    left: nat,
    found: Option<compat::VersionSpec>,
)
    requires
        key.len() > 0 && msgpack::value_size(key) == Ok::<nat, msgpack::SizeError>(key.len()),
        may_be_key(key) && !is_version_key(key),
        msgpack::value_size(value) == Ok::<nat, msgpack::SizeError>(value.len()),
    ensures
        entries_version(key + (value + rest), left + 1, found) == entries_version(
            rest,
            left,
            found,
        ),
{
    let data = key + (value + rest);
    law_body_keys(key);
    lemma_key_of_entry(key, value + rest);
    lemma_key_of_entry(value, rest);
    assert(data.skip((key.len() + value.len()) as int) =~= rest);
    reveal(entry_of);
    assert(entry_of(data, found) == Some((found, key.len() + value.len())));
}

/// An entry under the key of the version gives the version in its text, if that is one and none was
/// given before. Otherwise the body gives none.
pub proof fn law_version_entry(
    key: Seq<u8>,
    rest: Seq<u8>,
    left: nat,
    found: Option<compat::VersionSpec>,
)
    requires
        is_version_key(key),
    ensures
        ({
            let after = |n: nat| rest.skip(n as int);
            entries_version(key + rest, left + 1, found) == match msgpack::str_of(rest) {
                Some((text, n)) => match compat::parsed_version(vstd::utf8::decode_utf8(text)) {
                    Some(version) => if found is None {
                        entries_version(after(n), left, Some(version))
                    } else {
                        None
                    },
                    None => None,
                },
                None => None,
            }
        }),
{
    let data = key + rest;
    msgpack::law_fixed_sizes(key);
    msgpack::law_announced_sizes(key);
    law_body_keys(key);
    lemma_key_of_entry(key, rest);
    if let Some((text, n)) = msgpack::str_of(rest) {
        assert(data.skip((key.len() + n) as int) =~= rest.skip(n as int));
    }
    reveal(entry_of);
}

/// A body gives no version where an entry is malformed: its key is cut off or no key, or its value
/// is cut off.
pub proof fn law_malformed_entry(
    data: Seq<u8>,
    key: Seq<u8>,
    rest: Seq<u8>,
    left: nat,
    found: Option<compat::VersionSpec>,
)
    ensures
        msgpack::complete_size(data) is None ==> entries_version(data, left + 1, found) is None,
        key.len() > 0 && msgpack::value_size(key) == Ok::<nat, msgpack::SizeError>(key.len()) ==> {
            &&& !may_be_key(key) ==> entries_version(key + rest, left + 1, found) is None
            &&& msgpack::complete_size(rest) is None ==> entries_version(
                key + rest,
                left + 1,
                found,
            ) is None
        },
{
    reveal(entry_of);
    if key.len() > 0 && msgpack::value_size(key) == Ok::<nat, msgpack::SizeError>(key.len()) {
        law_body_keys(key);
        lemma_key_of_entry(key, rest);
        if let Some((text, n)) = msgpack::str_of(rest) {
            lemma_string_is_complete(rest);
        }
    }
}

/// A string that can be read is complete.
proof fn lemma_string_is_complete(data: Seq<u8>)
    requires
        msgpack::str_of(data) is Some,
    ensures
        msgpack::complete_size(data) is Some,
{
    msgpack::law_heads(data);
    msgpack::law_fixed_sizes(data);
    msgpack::law_announced_sizes(data);
}

/// The body is a map, whose entries give the version, or an array, whose first element is the
/// version. Nothing else gives one.
pub proof fn law_body_forms(body: Seq<u8>)
    ensures
        match (msgpack::map_head(body), msgpack::array_head(body)) {
            (Some((count, head)), _) => body_version(body) == entries_version(
                body.skip(head as int),
                count,
                None,
            ),
            (None, Some((count, head))) => {
                let first = body.skip(head as int);
                body_version(body) == match msgpack::str_of(first) {
                    Some((text, _)) => if count == 0 {
                        None
                    } else {
                        compat::parsed_version(vstd::utf8::decode_utf8(text))
                    },
                    None => None,
                }
            },
            (None, None) => body_version(body) is None,
        },
{
}

} // verus!
