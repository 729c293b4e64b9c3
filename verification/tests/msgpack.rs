use tipt_node::msgpack::{complete_value_size, msgpack_value_size, SizeError};

/// A value of every kind, with its encoding.
fn samples() -> Vec<Vec<u8>> {
    let mut all: Vec<Vec<u8>> = vec![
        vec![0x00],
        vec![0x7f],
        vec![0xe0],
        vec![0xff],
        vec![0xc0],
        vec![0xc2],
        vec![0xc3],
        vec![0xcc, 1],
        vec![0xd0, 1],
        vec![0xcd, 1, 2],
        vec![0xd1, 1, 2],
        vec![0xce, 1, 2, 3, 4],
        vec![0xd2, 1, 2, 3, 4],
        vec![0xca, 1, 2, 3, 4],
        vec![0xcf, 1, 2, 3, 4, 5, 6, 7, 8],
        vec![0xd3, 1, 2, 3, 4, 5, 6, 7, 8],
        vec![0xcb, 1, 2, 3, 4, 5, 6, 7, 8],
        vec![0xd4, 9, 1],
        vec![0xd5, 9, 1, 2],
        vec![0xd6, 9, 1, 2, 3, 4],
        vec![0xa0],
        vec![0xa3, b'a', b'b', b'c'],
        vec![0xd9, 2, b'a', b'b'],
        vec![0xda, 0, 2, b'a', b'b'],
        vec![0xdb, 0, 0, 0, 2, b'a', b'b'],
        vec![0xc4, 3, 1, 2, 3],
        vec![0xc5, 0, 3, 1, 2, 3],
        vec![0xc6, 0, 0, 0, 3, 1, 2, 3],
        vec![0xc7, 2, 9, 1, 2],
        vec![0xc8, 0, 2, 9, 1, 2],
        vec![0xc9, 0, 0, 0, 2, 9, 1, 2],
        vec![0x90],
        vec![0x80],
    ];
    let mut ext8 = vec![0xd7, 9];
    ext8.extend(vec![0; 8]);
    all.push(ext8);
    let mut ext16 = vec![0xd8, 9];
    ext16.extend(vec![0; 16]);
    all.push(ext16);
    all
}

#[test]
fn sizes_of_leaves() {
    for value in samples() {
        assert_eq!(msgpack_value_size(&value), Ok(value.len() as u128));
        assert_eq!(complete_value_size(&value), Some(value.len()));
    }
}

#[test]
fn sizes_do_not_depend_on_what_follows() {
    for value in samples() {
        let mut data = value.clone();
        data.extend(vec![0xc1, 0xff, 0x93]);
        assert_eq!(msgpack_value_size(&data), Ok(value.len() as u128));
    }
}

#[test]
fn sizes_of_collections_add_up() {
    let values = samples();
    let mut joined = Vec::new();
    for value in &values {
        joined.extend(value.clone());
    }
    let count = values.len() as u8;

    let mut array16 = vec![0xdc, 0, count];
    array16.extend(joined.clone());
    assert_eq!(msgpack_value_size(&array16), Ok(3 + joined.len() as u128));

    let mut array32 = vec![0xdd, 0, 0, 0, count];
    array32.extend(joined.clone());
    assert_eq!(msgpack_value_size(&array32), Ok(5 + joined.len() as u128));

    let mut map16 = vec![0xde, 0, count];
    map16.extend(joined.clone());
    map16.extend(joined.clone());
    assert_eq!(msgpack_value_size(&map16), Ok(3 + 2 * joined.len() as u128));

    let mut map32 = vec![0xdf, 0, 0, 0, count];
    map32.extend(joined.clone());
    map32.extend(joined.clone());
    assert_eq!(msgpack_value_size(&map32), Ok(5 + 2 * joined.len() as u128));

    // elements of different sizes, and a collection inside another
    let nested = vec![0x92, 0x81, 0xa1, b'k', 0xcd, 1, 2, 0x93, 1, 0xa2, b'x', b'y', 0xc0];
    assert_eq!(msgpack_value_size(&nested), Ok(nested.len() as u128));
    assert_eq!(complete_value_size(&nested), Some(nested.len()));
}

#[test]
fn sizes_of_cut_off_values() {
    // the size is the declared one
    assert_eq!(msgpack_value_size(&[0xcd]), Ok(3));
    assert_eq!(msgpack_value_size(&[0xda, 1, 0, b'a']), Ok(259));
    assert_eq!(msgpack_value_size(&[0xdb, 0xff, 0xff, 0xff, 0xff]), Ok(5 + 0xffff_ffff));
    assert_eq!(msgpack_value_size(&[0x91, 0xda, 1, 0, b'a']), Ok(260));
    assert_eq!(msgpack_value_size(&[0x91, 0xda, 1, 0, b'a', 0xc1, 0xc1]), Ok(260));
    assert_eq!(complete_value_size(&[0xcd]), None);
    assert_eq!(complete_value_size(&[0xda, 1, 0, b'a']), None);
}

#[test]
fn sizes_that_cannot_be_told() {
    assert_eq!(msgpack_value_size(&[]), Err(SizeError::MissingMarker));
    assert_eq!(msgpack_value_size(&[0xd9]), Err(SizeError::MissingLength));
    assert_eq!(msgpack_value_size(&[0xda, 0]), Err(SizeError::MissingLength));
    assert_eq!(msgpack_value_size(&[0xdf, 0, 0, 0]), Err(SizeError::MissingLength));
    assert_eq!(msgpack_value_size(&[0xc1]), Err(SizeError::Reserved));
    assert_eq!(msgpack_value_size(&[0x92, 1]), Err(SizeError::MissingMarker));
    assert_eq!(msgpack_value_size(&[0x92, 1, 0xc1]), Err(SizeError::Reserved));
    assert_eq!(msgpack_value_size(&[0x82, 1, 2, 3]), Err(SizeError::MissingMarker));
    assert_eq!(msgpack_value_size(&[0xdf, 0xff, 0xff, 0xff, 0xff]), Err(SizeError::MissingMarker));
    assert_eq!(complete_value_size(&[0xc1]), None);
}
