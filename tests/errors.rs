use dmap::{decode, decode_item, encode, DmapItem, DmapValue, Error, ItemName, Parser};

fn rec(tag: &[u8; 4], body: &[u8]) -> Vec<u8> {
    let mut v = tag.to_vec();
    v.extend_from_slice(&(body.len() as u32).to_be_bytes());
    v.extend_from_slice(body);
    v
}

fn entry(tag: &[u8; 4], name: &str, kind: u16) -> Vec<u8> {
    let body = [
        rec(b"mcnm", tag),
        rec(b"mcna", name.as_bytes()),
        rec(b"mcty", &kind.to_be_bytes()),
    ]
    .concat();
    rec(b"mdcl", &body)
}

fn small_parser() -> Parser {
    let mut body = rec(b"mstt", &200u32.to_be_bytes());
    let entries = [
        entry(b"mlog", "dmap.loginresponse", 12),
        entry(b"mstt", "dmap.status", 5),
        entry(b"minm", "dmap.itemname", 9),
        entry(b"mshc", "dmap.sortingheaderchar", 4),
        entry(b"meds", "dmap.editcommandssupported", 5),
        entry(b"msas", "dmap.authenticationschemes", 5),
        entry(b"aePI", "com.apple.itunes.itms-playlistid", 5),
        entry(b"aeRP", "com.apple.itunes.rental-pb-start", 5),
        entry(b"mrdp", "dmap.itemdateplayed", 10),
    ];
    for e in entries.iter() {
        body.extend_from_slice(e);
    }
    Parser::new(&rec(b"mccr", &body)).unwrap()
}

fn item(n: &str, value: DmapValue) -> DmapItem {
    DmapItem { name: ItemName::Name(n.to_string()), value }
}

#[test]
fn short_header_is_truncated() {
    let p = small_parser();
    assert_eq!(decode(&p, &[0x6d, 0x73, 0x74]), Err(Error::TruncatedInput));
    assert_eq!(decode(&p, b"mstt\0\0\0"), Err(Error::TruncatedInput));
}

#[test]
fn declared_length_past_end_is_truncated() {
    let p = small_parser();
    let mut msg = rec(b"mstt", &200u32.to_be_bytes());
    msg[7] = 5;
    assert_eq!(decode(&p, &msg), Err(Error::TruncatedInput));
}

#[test]
fn scalar_body_shorter_than_its_width_is_truncated() {
    let p = small_parser();
    assert_eq!(decode(&p, &rec(b"mstt", &[0, 200])), Err(Error::TruncatedInput));
    assert_eq!(decode(&p, &rec(b"mshc", &[1])), Err(Error::TruncatedInput));
    assert_eq!(decode(&p, &rec(b"msas", &[])), Err(Error::TruncatedInput));
}

#[test]
fn scalar_reads_its_leading_bytes() {
    let p = small_parser();
    let tree = decode(&p, &rec(b"mshc", &[1, 2, 3])).unwrap();
    assert_eq!(tree, DmapValue::Container(vec![item("dmap.sortingheaderchar", DmapValue::U16(0x0102))]));
}

#[test]
fn invalid_utf8() {
    let p = small_parser();
    assert_eq!(decode(&p, &rec(b"minm", &[0x61, 0xff])), Err(Error::InvalidUtf8));
    assert_eq!(decode(&p, &rec(b"minm", &[0xed, 0xa0, 0x80])), Err(Error::InvalidUtf8));
}

#[test]
fn first_error_wins() {
    let p = small_parser();
    let msg = [rec(b"minm", &[0xff]), vec![1, 2]].concat();
    assert_eq!(decode(&p, &msg), Err(Error::InvalidUtf8));
}

#[test]
fn trailing_data() {
    let p = small_parser();
    let msg = [rec(b"mstt", &1u32.to_be_bytes()), rec(b"mstt", &2u32.to_be_bytes())].concat();
    assert_eq!(decode_item(&p, &msg).err(), Some(Error::TrailingData));
    assert_eq!(decode_item(&p, &msg[..12]).unwrap(), item("dmap.status", DmapValue::I32(1)));
}

#[test]
fn unknown_field_on_encode() {
    let p = small_parser();
    let tree = DmapValue::Container(vec![item("dmap.nosuchfield", DmapValue::U8(1))]);
    assert_eq!(encode(&p, &tree), Err(Error::UnknownField));
    let nested = DmapValue::Container(vec![item(
        "dmap.loginresponse",
        DmapValue::Container(vec![item("dmap.status", DmapValue::I32(200)), item("nope", DmapValue::I8(0))]),
    )]);
    assert_eq!(encode(&p, &nested), Err(Error::UnknownField));
}

#[test]
fn encode_scalars_exactly() {
    let p = small_parser();
    let tree = DmapValue::Container(vec![
        item("dmap.status", DmapValue::I8(-1)),
        item("dmap.status", DmapValue::U8(7)),
        item("dmap.status", DmapValue::I16(-2)),
        item("dmap.status", DmapValue::U16(0x0102)),
        item("dmap.status", DmapValue::I32(-3)),
        item("dmap.status", DmapValue::U32(0x0102_0304)),
        item("dmap.status", DmapValue::I64(-4)),
        item("dmap.status", DmapValue::U64(0x0102_0304_0506_0708)),
        item("dmap.itemname", DmapValue::String("é".to_string())),
        DmapItem { name: ItemName::Code(*b"abcd"), value: DmapValue::Unknown(vec![5, 6]) },
    ]);
    let expected = [
        rec(b"mstt", &[0xff]),
        rec(b"mstt", &[7]),
        rec(b"mstt", &[0xff, 0xfe]),
        rec(b"mstt", &[1, 2]),
        rec(b"mstt", &[0xff, 0xff, 0xff, 0xfd]),
        rec(b"mstt", &[1, 2, 3, 4]),
        rec(b"mstt", &[0xff, 0xff, 0xff, 0xff, 0xff, 0xff, 0xff, 0xfc]),
        rec(b"mstt", &[1, 2, 3, 4, 5, 6, 7, 8]),
        rec(b"minm", &[0xc3, 0xa9]),
        rec(b"abcd", &[5, 6]),
    ]
    .concat();
    assert_eq!(encode(&p, &tree).unwrap(), expected);
}

#[test]
fn encode_nested_container_lengths() {
    let p = small_parser();
    let tree = DmapValue::Container(vec![item(
        "dmap.loginresponse",
        DmapValue::Container(vec![
            item("dmap.status", DmapValue::I32(200)),
            item("dmap.loginresponse", DmapValue::Container(vec![])),
        ]),
    )]);
    let inner = [rec(b"mstt", &200u32.to_be_bytes()), rec(b"mlog", &[])].concat();
    assert_eq!(encode(&p, &tree).unwrap(), rec(b"mlog", &inner));
}

#[test]
fn encode_scalar_at_root_keeps_its_length() {
    let p = small_parser();
    assert_eq!(encode(&p, &DmapValue::U16(0x0a0b)).unwrap(), vec![0, 0, 0, 2, 0x0a, 0x0b]);
    assert_eq!(encode(&p, &DmapValue::Container(vec![])).unwrap(), Vec::<u8>::new());
}
