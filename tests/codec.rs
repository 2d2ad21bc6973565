use dmap::{decode, decode_item, encode, DmapItem, DmapValue, Error, ItemName, Parser, TypeKind};

fn rec(tag: &[u8; 4], body: &[u8]) -> Vec<u8> {
    let mut v = tag.to_vec();
    v.extend_from_slice(&(body.len() as u32).to_be_bytes());
    v.extend_from_slice(body);
    v
}

fn entry(tag: &[u8; 4], name: &str, kind: u16) -> Vec<u8> {
    let body = [
        rec(b"mcnm", tag),
        rec(b"mcna", name.as_bytes()),
        rec(b"mcty", &kind.to_be_bytes()),
    ]
    .concat();
    rec(b"mdcl", &body)
}

fn content_codes_with(status: u32, extra: &[Vec<u8>]) -> Vec<u8> {
    let mut body = rec(b"mstt", &status.to_be_bytes());
    let entries = [
        entry(b"mccr", "dmap.contentcodesresponse", 12),
        entry(b"mstt", "dmap.status", 5),
        entry(b"mdcl", "dmap.dictionary", 12),
        entry(b"mcnm", "dmap.contentcodesnumber", 6),
        entry(b"mcna", "dmap.contentcodesname", 9),
        entry(b"mcty", "dmap.contentcodestype", 3),
        entry(b"mlog", "dmap.loginresponse", 12),
        entry(b"mlid", "dmap.sessionid", 5),
        entry(b"msrv", "dmap.serverinforesponse", 12),
        entry(b"minm", "dmap.itemname", 9),
        entry(b"mpro", "dmap.protocolversion", 11),
        entry(b"mstm", "dmap.timeoutinterval", 6),
        entry(b"meds", "dmap.editcommandssupported", 5),
        entry(b"msas", "dmap.authenticationschemes", 5),
        entry(b"aePI", "com.apple.itunes.itms-playlistid", 5),
        entry(b"aeRP", "com.apple.itunes.rental-pb-start", 5),
        entry(b"mrdp", "dmap.itemdateplayed", 10),
        entry(b"mper", "dmap.persistentid", 8),
        entry(b"aeSV", "com.apple.itunes.music-sharing-version", 7),
    ];
    for e in entries.iter() {
        body.extend_from_slice(e);
    }
    for e in extra.iter() {
        body.extend_from_slice(e);
    }
    rec(b"mccr", &body)
}

fn content_codes_message() -> Vec<u8> {
    content_codes_with(200, &[])
}

fn server_info() -> Vec<u8> {
    let body = [
        rec(b"mstt", &200u32.to_be_bytes()),
        rec(b"mpro", &0x0002_0006u32.to_be_bytes()),
        rec(b"minm", "Bibliothèque".as_bytes()),
        rec(b"mstm", &1800u32.to_be_bytes()),
        rec(b"meds", &3u16.to_be_bytes()),
        rec(b"msas", &[2]),
        rec(b"mper", &0x0102_0304_0506_0708u64.to_be_bytes()),
        rec(b"aeSV", &(-5i64).to_be_bytes()),
    ]
    .concat();
    rec(b"msrv", &body)
}

fn login_message() -> Vec<u8> {
    let body = [rec(b"mstt", &200u32.to_be_bytes()), rec(b"mlid", &0x0a0b_0c0du32.to_be_bytes())].concat();
    rec(b"mlog", &body)
}

fn name(s: &str) -> ItemName {
    ItemName::Name(s.to_string())
}

fn verify_parse(parser: &Parser, data: &[u8]) -> DmapItem {
    let val1 = decode(parser, data).unwrap();
    let data2 = encode(parser, &val1).unwrap();
    assert_eq!(data.len(), data2.len());
    assert_eq!(data, data2.as_slice());
    let val3 = decode(parser, data2.as_slice()).unwrap();
    assert_eq!(val1, val3);
    let val2 = decode_item(parser, data).unwrap();
    let items = match val1 {
        DmapValue::Container(v) => v,
        _ => unreachable!(),
    };
    assert_eq!(items.len(), 1);
    assert_eq!(items[0], val2);
    items.into_iter().next().unwrap()
}

#[test]
fn content_codes() {
    let ccs = content_codes_message();
    let parser = Parser::new(&ccs).unwrap();
    verify_parse(&parser, &ccs);
}

#[test]
fn serverinfo() {
    let parser = Parser::new(&content_codes_message()).unwrap();
    let item = verify_parse(&parser, &server_info());
    assert_eq!(item.name, name("dmap.serverinforesponse"));
    match item.value {
        DmapValue::Container(c) => {
            assert_eq!(c[0].value, DmapValue::I32(200));
            assert_eq!(c[1].value, DmapValue::U32(0x0002_0006));
            assert_eq!(c[2].value, DmapValue::String("Bibliothèque".to_string()));
            assert_eq!(c[3].value, DmapValue::U32(1800));
            assert_eq!(c[4].name, name("dmap.editcommandssupported"));
            assert_eq!(c[4].value, DmapValue::I16(3));
            assert_eq!(c[5].value, DmapValue::I8(2));
            assert_eq!(c[6].value, DmapValue::U64(0x0102_0304_0506_0708));
            assert_eq!(c[7].value, DmapValue::I64(-5));
        }
        _ => unreachable!(),
    }
}

#[test]
fn login() {
    let parser = Parser::new(&content_codes_message()).unwrap();
    let login = verify_parse(&parser, &login_message());
    assert_eq!(login.name, name("dmap.loginresponse"));
    match login.value {
        DmapValue::Container(c) => {
            assert_eq!(c[0].name, name("dmap.status"));
            assert_eq!(c[0].value, DmapValue::I32(200));
            assert_eq!(c[1].name, name("dmap.sessionid"));
            assert_eq!(c[1].value, DmapValue::I32(0x0a0b_0c0d));
        }
        _ => unreachable!(),
    }
}

#[test]
fn bootstrap_correctness() {
    let ccs = content_codes_message();
    let parser = Parser::new(&ccs).unwrap();
    assert_eq!(parser.len(), 19);
    let i = parser.find_name("dmap.editcommandssupported").unwrap();
    assert_eq!(parser.entry(i).kind, TypeKind::I16);
    assert_eq!(parser.entry(i).code, *b"meds");
    let checks = [
        ("dmap.authenticationschemes", TypeKind::I8),
        ("com.apple.itunes.itms-playlistid", TypeKind::I64),
        ("com.apple.itunes.rental-pb-start", TypeKind::String),
        ("dmap.itemdateplayed", TypeKind::I32),
        ("dmap.protocolversion", TypeKind::Version),
        ("dmap.persistentid", TypeKind::U64),
    ];
    for (n, k) in checks.iter() {
        let j = parser.find_name(n).unwrap();
        assert_eq!(parser.entry(j).kind, *k);
    }
    assert_eq!(parser.find_code(b"mlog"), parser.find_name("dmap.loginresponse"));
    assert_eq!(parser.find_name("dmap.nosuchfield"), None);
    let top = decode_item(&parser, &ccs).unwrap();
    assert_eq!(top.name, name("dmap.contentcodesresponse"));
    match top.value {
        DmapValue::Container(c) => {
            assert_eq!(c[0].name, name("dmap.status"));
            assert_eq!(c[0].value, DmapValue::I32(200));
        }
        _ => unreachable!(),
    }
}

#[test]
fn bootstrap_status_500_fails() {
    assert_eq!(Parser::new(&content_codes_with(500, &[])).err(), Some(Error::BootstrapFailure));
}

#[test]
fn bootstrap_missing_override_target_fails() {
    let mut body = rec(b"mstt", &200u32.to_be_bytes());
    body.extend_from_slice(&entry(b"mstt", "dmap.status", 5));
    assert_eq!(Parser::new(&rec(b"mccr", &body)).err(), Some(Error::BootstrapFailure));
}

#[test]
fn bootstrap_unknown_type_kind() {
    let bad = content_codes_with(200, &[entry(b"abcd", "dmap.odd", 13)]);
    assert_eq!(Parser::new(&bad).err(), Some(Error::UnknownTypeKind));
    let zero = content_codes_with(200, &[entry(b"abcd", "dmap.odd", 0)]);
    assert_eq!(Parser::new(&zero).err(), Some(Error::UnknownTypeKind));
}

#[test]
fn bootstrap_without_response_fails() {
    assert_eq!(Parser::new(&rec(b"mstt", &200u32.to_be_bytes())).err(), Some(Error::BootstrapFailure));
    assert_eq!(Parser::new(&[]).err(), Some(Error::BootstrapFailure));
}

#[test]
fn bootstrap_truncated_input() {
    let mut ccs = content_codes_message();
    ccs.pop();
    assert_eq!(Parser::new(&ccs).err(), Some(Error::TruncatedInput));
}

#[test]
fn truncation_at_every_offset() {
    let parser = Parser::new(&content_codes_message()).unwrap();
    for msg in [login_message(), server_info()].iter() {
        for k in 1..msg.len() {
            assert_eq!(decode(&parser, &msg[..k]), Err(Error::TruncatedInput));
            assert_eq!(decode_item(&parser, &msg[..k]).err(), Some(Error::TruncatedInput));
        }
    }
}

#[test]
fn truncation_between_records_still_decodes() {
    let parser = Parser::new(&content_codes_message()).unwrap();
    let first = login_message();
    let msg = [first.clone(), rec(b"mstm", &7u32.to_be_bytes())].concat();
    for k in 1..msg.len() {
        let r = decode(&parser, &msg[..k]);
        if k == first.len() {
            assert!(r.is_ok());
        } else {
            assert_eq!(r, Err(Error::TruncatedInput));
        }
    }
}

#[test]
fn tree_round_trip_with_long_scalar_body() {
    let parser = Parser::new(&content_codes_message()).unwrap();
    let msg = rec(b"mlog", &rec(b"mstt", &[0, 0, 0, 200, 99, 98]));
    let tree = decode(&parser, &msg).unwrap();
    let bytes = encode(&parser, &tree).unwrap();
    assert_eq!(bytes, rec(b"mlog", &rec(b"mstt", &[0, 0, 0, 200])));
    assert!(bytes.len() < msg.len());
    assert_eq!(decode(&parser, &bytes).unwrap(), tree);
}

#[test]
fn unknown_tag_tolerated() {
    let parser = Parser::new(&content_codes_message()).unwrap();
    let body = [
        rec(b"zzzz", &[9, 8, 7]),
        rec(b"mstt", &200u32.to_be_bytes()),
    ]
    .concat();
    let msg = rec(b"mlog", &body);
    let tree = decode(&parser, &msg).unwrap();
    let items = match &tree {
        DmapValue::Container(v) => v,
        _ => unreachable!(),
    };
    match &items[0].value {
        DmapValue::Container(c) => {
            assert_eq!(c[0].name, ItemName::Code(*b"zzzz"));
            assert_eq!(c[0].value, DmapValue::Unknown(vec![9, 8, 7]));
            assert_eq!(c[1].name, name("dmap.status"));
            assert_eq!(c[1].value, DmapValue::I32(200));
        }
        _ => unreachable!(),
    }
    assert_eq!(encode(&parser, &tree).unwrap(), msg);
}

#[test]
fn decode_several_top_level_items() {
    let parser = Parser::new(&content_codes_message()).unwrap();
    let msg = [login_message(), rec(b"mstm", &7u32.to_be_bytes())].concat();
    let tree = decode(&parser, &msg).unwrap();
    match &tree {
        DmapValue::Container(v) => {
            assert_eq!(v.len(), 2);
            assert_eq!(v[1].value, DmapValue::U32(7));
        }
        _ => unreachable!(),
    }
    assert_eq!(decode(&parser, &[]), Ok(DmapValue::Container(vec![])));
    assert_eq!(encode(&parser, &tree).unwrap(), msg);
}
