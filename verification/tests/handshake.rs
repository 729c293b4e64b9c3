use std::fmt;

use semver::Version;
use serde::de::{Deserialize, Deserializer, Error, IgnoredAny, MapAccess, SeqAccess, Visitor};
use tipt_node::compat::{is_compatible, server_version};
use tipt_node::handshake::handshake_version;

/// The body as serde reads it.
struct Body {
    ver: Version,
}

enum Key {
    Ver,
    Other,
}

struct KeyVisitor;

impl<'de> Visitor<'de> for KeyVisitor {
    type Value = Key;

    fn expecting(&self, f: &mut fmt::Formatter) -> fmt::Result {
        f.write_str("field identifier")
    }

    fn visit_u64<E: Error>(self, n: u64) -> Result<Key, E> {
        Ok(if n == 0 { Key::Ver } else { Key::Other })
    }

    fn visit_str<E: Error>(self, s: &str) -> Result<Key, E> {
        Ok(if s == "ver" { Key::Ver } else { Key::Other })
    }

    fn visit_bytes<E: Error>(self, b: &[u8]) -> Result<Key, E> {
        Ok(if b == b"ver" { Key::Ver } else { Key::Other })
    }
}

impl<'de> Deserialize<'de> for Key {
    fn deserialize<D: Deserializer<'de>>(deserializer: D) -> Result<Key, D::Error> {
        deserializer.deserialize_identifier(KeyVisitor)
    }
}

struct BodyVisitor;

impl<'de> Visitor<'de> for BodyVisitor {
    type Value = Body;

    fn expecting(&self, f: &mut fmt::Formatter) -> fmt::Result {
        f.write_str("struct Body")
    }

    fn visit_seq<A: SeqAccess<'de>>(self, mut seq: A) -> Result<Body, A::Error> {
        match seq.next_element()? {
            Some(ver) => Ok(Body { ver }),
            None => Err(Error::invalid_length(0, &"struct Body with 1 element")),
        }
    }

    fn visit_map<A: MapAccess<'de>>(self, mut map: A) -> Result<Body, A::Error> {
        let mut ver: Option<Version> = None;
        while let Some(key) = map.next_key::<Key>()? {
            match key {
                Key::Ver => {
                    if ver.is_some() {
                        return Err(Error::duplicate_field("ver"));
                    }
                    ver = Some(map.next_value()?);
                }
                Key::Other => {
                    map.next_value::<IgnoredAny>()?;
                }
            }
        }
        match ver {
            Some(ver) => Ok(Body { ver }),
            None => Err(Error::missing_field("ver")),
        }
    }
}

impl<'de> Deserialize<'de> for Body {
    fn deserialize<D: Deserializer<'de>>(deserializer: D) -> Result<Body, D::Error> {
        deserializer.deserialize_struct("Body", &["ver"], BodyVisitor)
    }
}

fn expected(data: &[u8]) -> Option<Version> {
    Body::deserialize(&mut rmp_serde::Deserializer::new(data))
        .ok()
        .map(|body| body.ver)
}

fn string(text: &str) -> Vec<u8> {
    let mut bytes = vec![0xa0 + text.len() as u8];
    bytes.extend(text.as_bytes());
    bytes
}

fn join(parts: &[Vec<u8>]) -> Vec<u8> {
    parts.iter().flat_map(|p| p.clone()).collect()
}

fn parse(text: &str) -> Option<Version> {
    Some(Version::parse(text).unwrap())
}

#[test]
fn body_as_a_map() {
    let data = join(&[vec![0x81], string("ver"), string("1.2.3")]);
    assert_eq!(handshake_version(&data), parse("1.2.3"));
    let data = join(&[vec![0x81, 0xc4, 3], b"ver".to_vec(), string(" 1.2.3 ")]);
    assert_eq!(handshake_version(&data), parse("1.2.3"));
    let data = join(&[vec![0x81, 0], string("0.0.1")]);
    assert_eq!(handshake_version(&data), parse("0.0.1"));
}

#[test]
fn body_with_a_long_version() {
    let short = format!("1.2.3+{}", "a".repeat(25));
    let data = join(&[vec![0x81], string("ver"), string(&short)]);
    assert_eq!(handshake_version(&data), parse(&short));
    let medium = format!("1.2.3+{}", "a".repeat(26));
    let data = join(&[vec![0x81], string("ver"), vec![0xd9, 32], medium.as_bytes().to_vec()]);
    assert_eq!(handshake_version(&data), parse(&medium));
    let long = format!("1.2.3+{}", "a".repeat(600));
    let data = join(&[vec![0x81], string("ver"), vec![0xda, 2, 94], long.as_bytes().to_vec()]);
    assert_eq!(handshake_version(&data), parse(&long));
    let huge = format!("1.2.3+{}", "a".repeat(0x1_0000));
    let head = vec![0xdb, 0, 1, 0, 6];
    let data = join(&[vec![0x81], string("ver"), head, huge.as_bytes().to_vec()]);
    assert_eq!(handshake_version(&data), parse(&huge));
}

#[test]
fn body_as_an_array() {
    let data = join(&[vec![0x91], string("1.2.3")]);
    assert_eq!(handshake_version(&data), parse("1.2.3"));
    assert_eq!(handshake_version(&[0x90]), None);
}

#[test]
fn body_with_other_entries() {
    let data = join(&[
        vec![0xde, 0, 3],
        string("x"),
        vec![0x92, 0xc0, 0x81, 1, 2],
        string("ver"),
        vec![0xd9],
        vec![5],
        b"3.1.4".to_vec(),
        vec![5],
        vec![0xcb, 0, 0, 0, 0, 0, 0, 0, 0],
    ]);
    assert_eq!(handshake_version(&data), parse("3.1.4"));
}

#[test]
fn body_without_a_version() {
    assert_eq!(handshake_version(&[]), None);
    assert_eq!(handshake_version(&[0x80]), None);
    assert_eq!(handshake_version(&string("1.2.3")), None);
    let twice = join(&[
        vec![0x82],
        string("ver"),
        string("1.2.3"),
        string("ver"),
        string("1.2.3"),
    ]);
    assert_eq!(handshake_version(&twice), None);
    let number = join(&[vec![0x81], string("ver"), vec![1]]);
    assert_eq!(handshake_version(&number), None);
    let no_version = join(&[vec![0x81], string("ver"), string("1.2")]);
    assert_eq!(handshake_version(&no_version), None);
    let cut_off = join(&[vec![0x82], string("ver"), string("1.2.3")]);
    assert_eq!(handshake_version(&cut_off), None);
}

/// A small generator of numbers.
struct Numbers(u64);

impl Numbers {
    fn next(&mut self, bound: u64) -> u64 {
        self.0 ^= self.0 << 13;
        self.0 ^= self.0 >> 7;
        self.0 ^= self.0 << 17;
        (self.0 >> 8) % bound
    }
}

/// Bytes that look like MessagePack more often than not.
fn value(numbers: &mut Numbers, depth: u64, out: &mut Vec<u8>) {
    match numbers.next(if depth > 2 { 14 } else { 17 }) {
        0 => out.extend(string("ver")),
        1 => out.extend(string("1.2.3")),
        2 => out.extend(string("10.0.0-a.1+b")),
        3 => out.push(numbers.next(3) as u8),
        4 => out.extend([0xcc, numbers.next(2) as u8]),
        5 => out.extend([0xcd, 0, numbers.next(2) as u8]),
        6 => out.extend([0xcf, 0, 0, 0, 0, 0, 0, 0, 0]),
        7 => out.extend([0xd0, numbers.next(2) as u8 * 255]),
        8 => {
            out.extend([0xc4, 3]);
            out.extend(b"ver");
        }
        9 => out.extend([0xd9, 3, b'v', b'e', if numbers.next(2) == 0 { b'r' } else { 0xff }]),
        10 => out.push([0xc0, 0xc2, 0xc3, 0xff][numbers.next(4) as usize]),
        11 => out.extend([0xa2, 0xff, 0xfe]),
        12 => out.extend([0xca, 0, 0, 0, 0]),
        13 => out.extend([0xda, 0, 3, b'v', b'e', b'r']),
        14 => {
            let n = numbers.next(3);
            out.push(0x90 + n as u8);
            for _ in 0..n {
                value(numbers, depth + 1, out);
            }
        }
        _ => {
            let n = numbers.next(3);
            out.push(0x80 + n as u8);
            for _ in 0..2 * n {
                value(numbers, depth + 1, out);
            }
        }
    }
}

#[test]
fn bodies_are_read_as_serde_reads_them() {
    let mut numbers = Numbers(0x9e37_79b9_7f4a_7c15);
    let mut found = 0;
    for round in 0..100_000 {
        let mut data = Vec::new();
        if round % 4 == 0 {
            value(&mut numbers, 0, &mut data);
        } else {
            let n = 1 + numbers.next(3);
            data.push(0x80 + n as u8);
            for _ in 0..n {
                match numbers.next(4) {
                    0 => data.extend(string("ver")),
                    1 => data.extend(string("x")),
                    _ => value(&mut numbers, 1, &mut data),
                }
                match numbers.next(3) {
                    0 => data.extend(string("1.2.3")),
                    _ => value(&mut numbers, 1, &mut data),
                }
            }
        }
        if numbers.next(10) == 0 && data.len() > 0 {
            let n = numbers.next(data.len() as u64) as usize;
            data.truncate(n);
        }
        if numbers.next(10) == 0 && data.len() > 0 {
            let i = numbers.next(data.len() as u64) as usize;
            let byte = numbers.next(256) as u8;
            // serde would allocate the lengths of up to 4 GiB that these announce
            if !matches!(byte, 0xc6 | 0xc9 | 0xdb) {
                data[i] = byte;
            }
        }
        let version = handshake_version(&data);
        assert_eq!(version, expected(&data), "{:02x?}", data);
        if version.is_some() {
            found += 1;
        }
    }
    assert!(found > 5_000);
}

#[test]
fn compatible_versions() {
    for text in ["1.0.0", "1.0.1", "1.9.0", "1.0.0+build", "1.2.3+4"] {
        assert!(is_compatible(&Version::parse(text).unwrap()), "{}", text);
    }
    for text in ["0.9.9", "2.0.0", "1.0.0-rc.1", "1.2.0-alpha", "2.0.0-alpha", "0.1.0"] {
        assert!(!is_compatible(&Version::parse(text).unwrap()), "{}", text);
    }
}

#[test]
fn the_version_of_the_node() {
    assert_eq!(server_version(), Version::parse("1.0.0").unwrap());
    assert!(is_compatible(&server_version()));
}
