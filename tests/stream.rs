use dmap::{DmapValue, Error, ItemName, MapDeserializer, Parser, Serializer};

fn rec(tag: &[u8; 4], body: &[u8]) -> Vec<u8> {
    let mut v = tag.to_vec();
    v.extend_from_slice(&(body.len() as u32).to_be_bytes());
    v.extend_from_slice(body);
    v
}

fn entry(tag: &[u8; 4], name: &str, kind: u16) -> Vec<u8> {
    let body = [
        rec(b"mcnm", tag),
        rec(b"mcna", name.as_bytes()),
        rec(b"mcty", &kind.to_be_bytes()),
    ]
    .concat();
    rec(b"mdcl", &body)
}

fn parser() -> Parser {
    let mut body = rec(b"mstt", &200u32.to_be_bytes());
    let entries = [
        entry(b"mdcl", "dmap.dictionary", 12),
        entry(b"mstt", "dmap.status", 5),
        entry(b"mcnm", "dmap.contentcodesnumber", 6),
        entry(b"meds", "dmap.editcommandssupported", 5),
        entry(b"msas", "dmap.authenticationschemes", 5),
        entry(b"aePI", "com.apple.itunes.itms-playlistid", 5),
        entry(b"aeRP", "com.apple.itunes.rental-pb-start", 5),
        entry(b"mrdp", "dmap.itemdateplayed", 10),
    ];
    for e in entries.iter() {
        body.extend_from_slice(e);
    }
    Parser::new(&rec(b"mccr", &body)).unwrap()
}

fn group(n: u32) -> Vec<u8> {
    rec(b"mdcl", &rec(b"mcnm", &n.to_be_bytes()))
}

#[test]
fn sequence_adjacency() {
    let p = parser();
    let b = rec(b"mstt", &200u32.to_be_bytes());
    let data = [group(1), group(2), group(3), b, group(4)].concat();
    let mut de = MapDeserializer::new(&p, &data);

    assert_eq!(de.next_key(), Ok(Some(ItemName::Name("dmap.dictionary".to_string()))));
    let mut first = Vec::new();
    while let Some(mut sub) = de.next_seq_element(b"mdcl").unwrap() {
        assert_eq!(sub.next_key(), Ok(Some(ItemName::Name("dmap.contentcodesnumber".to_string()))));
        first.push(sub.next_value().unwrap());
        assert_eq!(sub.next_key(), Ok(None));
        assert_eq!(sub.end(), Ok(()));
    }
    assert_eq!(first, vec![DmapValue::U32(1), DmapValue::U32(2), DmapValue::U32(3)]);

    assert_eq!(de.next_key(), Ok(Some(ItemName::Name("dmap.status".to_string()))));
    assert_eq!(de.next_value(), Ok(DmapValue::I32(200)));

    assert_eq!(de.next_key(), Ok(Some(ItemName::Name("dmap.dictionary".to_string()))));
    let mut second = 0;
    while let Some(_) = de.next_seq_element(b"mdcl").unwrap() {
        second += 1;
    }
    assert_eq!(second, 1);
    assert_eq!(de.next_key(), Ok(None));
    assert_eq!(de.end(), Ok(()));
}

#[test]
fn pending_record_is_trailing_data() {
    let p = parser();
    let data = rec(b"mstt", &1u32.to_be_bytes());
    let mut de = MapDeserializer::new(&p, &data);
    assert_eq!(de.end(), Err(Error::TrailingData));
    assert_eq!(de.next_key(), Ok(Some(ItemName::Name("dmap.status".to_string()))));
    assert_eq!(de.end(), Err(Error::TrailingData));
    assert_eq!(de.next_value(), Ok(DmapValue::I32(1)));
    assert_eq!(de.end(), Ok(()));
}

#[test]
fn raw_message_parts() {
    let p = parser();
    let data = [rec(b"xyzw", &[1, 2]), vec![0, 0]].concat();
    let mut de = MapDeserializer::new(&p, &data);
    let m = de.next_message().unwrap().unwrap();
    assert_eq!(m.code(), *b"xyzw");
    assert_eq!(m.body(), &[1u8, 2][..]);
    assert_eq!(de.next_message().err(), Some(Error::TruncatedInput));
}

#[test]
fn unknown_record_value_is_raw_bytes() {
    let p = parser();
    let data = rec(b"xyzw", &[3, 4, 5]);
    let mut de = MapDeserializer::new(&p, &data);
    assert_eq!(de.next_key(), Ok(Some(ItemName::Code(*b"xyzw"))));
    assert_eq!(de.next_value(), Ok(DmapValue::Unknown(vec![3, 4, 5])));
}

#[test]
fn serializer_backpatches_and_repeats() {
    let p = parser();
    let mut ser = Serializer::new(&p);
    let root = ser.serialize_map();
    root.serialize_key(&mut ser, &ItemName::Name("dmap.dictionary".to_string())).unwrap();
    let seq = ser.serialize_seq();
    for n in [1u32, 2].iter() {
        seq.serialize_element(&mut ser, &DmapValue::Container(vec![dmap::DmapItem {
            name: ItemName::Name("dmap.contentcodesnumber".to_string()),
            value: DmapValue::U32(*n),
        }]))
        .unwrap();
    }
    seq.end();
    root.serialize_key(&mut ser, &ItemName::Name("dmap.status".to_string())).unwrap();
    ser.serialize_none();
    root.serialize_key(&mut ser, &ItemName::Code(*b"xyzw")).unwrap();
    let inner = ser.serialize_map();
    inner.serialize_key(&mut ser, &ItemName::Name("dmap.status".to_string())).unwrap();
    inner.serialize_value(&mut ser, &DmapValue::I32(200)).unwrap();
    inner.end(&mut ser);
    root.end(&mut ser);
    let expected = [group(1), group(2), rec(b"xyzw", &rec(b"mstt", &200u32.to_be_bytes()))].concat();
    assert_eq!(ser.into_output(), expected);
}

#[test]
fn serializer_unknown_key() {
    let p = parser();
    let mut ser = Serializer::new(&p);
    let root = ser.serialize_map();
    assert_eq!(root.serialize_key(&mut ser, &ItemName::Name("dmap.nothing".to_string())), Err(Error::UnknownField));
}

#[test]
fn serializer_scalars() {
    let p = parser();
    let mut ser = Serializer::new(&p);
    ser.serialize_i16(-2);
    ser.serialize_u32(0x0102_0304);
    ser.serialize_i64(1);
    ser.serialize_str("ab");
    ser.serialize_bytes(&[9]);
    let expected: Vec<u8> = vec![
        0, 0, 0, 2, 0xff, 0xfe, 0, 0, 0, 4, 1, 2, 3, 4, 0, 0, 0, 8, 0, 0, 0, 0, 0, 0, 0, 1, 0, 0, 0, 2,
        b'a', b'b', 0, 0, 0, 1, 9,
    ];
    assert_eq!(ser.into_output(), expected);
}
