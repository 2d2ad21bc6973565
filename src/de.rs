//! The decoder: records pulled one at a time from a buffer, with one
//! record of lookahead, and whole value trees built from them.

use crate::bytes::{read_u16_be, read_u32_be, read_u64_be};
use crate::dict::{lookup_code, same_code, CodeModel, Parser, TypeKind};
use crate::error::Error;
use crate::format::{body_of, items_of, record_name, record_of, single_of, split_record};
use crate::value::{items_view, DmapItem, DmapValue, ItemModel, ItemName, ValueModel};
use vstd::prelude::*;
use vstd::utf8::{encode_utf8, valid_utf8};

verus! {

/// The model of a decoding result.
pub open spec fn value_result(r: Result<DmapValue, Error>) -> Result<ValueModel, Error> {
    match r {
        Ok(v) => Ok(v@),
        Err(e) => Err(e),
    }
}

/// The model of a decoding result.
pub open spec fn item_result(r: Result<DmapItem, Error>) -> Result<ItemModel, Error> {
    match r {
        Ok(v) => Ok(v@),
        Err(e) => Err(e),
    }
}

/// The model of a decoding result.
pub open spec fn items_result(r: Result<Vec<DmapItem>, Error>) -> Result<Seq<ItemModel>, Error> {
    match r {
        Ok(v) => Ok(items_view(v@)),
        Err(e) => Err(e),
    }
}

/// `prefix` in front of what `r` decoded, or the error of `r`.
pub open spec fn prepend(prefix: Seq<ItemModel>, r: Result<Seq<ItemModel>, Error>) -> Result<
    Seq<ItemModel>,
    Error,
> {
    match r {
        Ok(s) => Ok(prefix + s),
        Err(e) => Err(e),
    }
}

/// Relies on std's `str::from_utf8`: it accepts exactly the valid UTF-8
/// byte sequences, and the text it gives back is made of those bytes.
#[verifier::external_body]
fn utf8_text(b: &[u8]) -> (r: Option<String>)
    ensures
        r is Some <==> valid_utf8(b@),
        r matches Some(s) ==> encode_utf8(s@) == b@,
{
    match std::str::from_utf8(b) {
        Ok(s) => Some(s.to_string()),
        Err(_) => None,
    }
}

/// The tag, body and remainder of the record at the start of `data`.
fn read_record(data: &[u8]) -> (r: Result<([u8; 4], &[u8], &[u8]), Error>)
    ensures
        r matches Ok((tag, body, rest)) ==> split_record(data@) == Some((tag@, body@, rest@)),
        r matches Err(e) ==> e == Error::TruncatedInput && split_record(data@) is None,
        r is Ok <==> split_record(data@) is Some,
{
    if data.len() < 8 {
        return Err(Error::TruncatedInput);
    }
    let size = read_u32_be(&data[4..8]);
    assert(data@.subrange(4, 8).take(4) =~= data@.subrange(4, 8));
    if data.len() - 8 < size as usize {
        return Err(Error::TruncatedInput);
    }
    let end = 8 + size as usize;
    let tag = [data[0], data[1], data[2], data[3]];
    assert(tag@ =~= data@.subrange(0, 4));
    Ok((tag, &data[8..end], &data[end..data.len()]))
}

/// The value that `body` holds as kind `kind`.
fn decode_body(parser: &Parser, kind: TypeKind, body: &[u8]) -> (r: Result<DmapValue, Error>)
    ensures
        value_result(r) == body_of(kind, body@, parser@),
    decreases body@.len(), 1nat,
{
    match kind {
        TypeKind::String => match utf8_text(body) {
            Some(s) => {
                proof {
                    vstd::utf8::encode_utf8_decode_utf8(s@);
                }
                Ok(DmapValue::String(s))
            },
            None => Err(Error::InvalidUtf8),
        },
        TypeKind::Container => match decode_items(parser, body) {
            Ok(items) => Ok(DmapValue::Container(items)),
            Err(e) => Err(e),
        },
        TypeKind::I8 => if body.len() < 1 {
            Err(Error::TruncatedInput)
        } else {
            Ok(DmapValue::I8(body[0] as i8))
        },
        TypeKind::U8 => if body.len() < 1 {
            Err(Error::TruncatedInput)
        } else {
            Ok(DmapValue::U8(body[0]))
        },
        TypeKind::I16 => if body.len() < 2 {
            Err(Error::TruncatedInput)
        } else {
            Ok(DmapValue::I16(read_u16_be(body) as i16))
        },
        TypeKind::U16 => if body.len() < 2 {
            Err(Error::TruncatedInput)
        } else {
            Ok(DmapValue::U16(read_u16_be(body)))
        },
        TypeKind::I32 => if body.len() < 4 {
            Err(Error::TruncatedInput)
        } else {
            Ok(DmapValue::I32(read_u32_be(body) as i32))
        },
        TypeKind::U32 | TypeKind::Timestamp | TypeKind::Version => if body.len() < 4 {
            Err(Error::TruncatedInput)
        } else {
            Ok(DmapValue::U32(read_u32_be(body)))
        },
        TypeKind::I64 => if body.len() < 8 {
            Err(Error::TruncatedInput)
        } else {
            Ok(DmapValue::I64(read_u64_be(body) as i64))
        },
        TypeKind::U64 => if body.len() < 8 {
            Err(Error::TruncatedInput)
        } else {
            Ok(DmapValue::U64(read_u64_be(body)))
        },
    }
}

/// The item that a record with tag `tag` and body `body` holds.
fn decode_record(parser: &Parser, tag: &[u8; 4], body: &[u8]) -> (r: Result<DmapItem, Error>)
    ensures
        item_result(r) == record_of(tag@, body@, parser@),
    decreases body@.len(), 2nat,
{
    match parser.find_code(tag) {
        None => Ok(
            DmapItem {
                name: ItemName::Code(*tag),
                value: DmapValue::Unknown(vstd::slice::slice_to_vec(body)),
            },
        ),
        Some(i) => {
            let c = parser.entry(i);
            match decode_body(parser, c.kind, body) {
                Ok(v) => Ok(DmapItem { name: ItemName::Name(c.name.clone()), value: v }),
                Err(e) => Err(e),
            }
        },
    }
}

/// The items that the run of records `data` holds, in order.
pub fn decode_items(parser: &Parser, data: &[u8]) -> (r: Result<Vec<DmapItem>, Error>)
    ensures
        items_result(r) == items_of(data@, parser@),
    decreases data@.len(), 0nat,
{
    let mut items: Vec<DmapItem> = Vec::new();
    let mut rest = data;
    while rest.len() > 0
        invariant
            items_of(data@, parser@) == prepend(items_view(items@), items_of(rest@, parser@)),
            rest@.len() <= data@.len(),
        decreases rest@.len(),
    {
        let (tag, body, tail) = match read_record(rest) {
            Ok(t) => t,
            Err(e) => return Err(e),
        };
        let item = match decode_record(parser, &tag, body) {
            Ok(it) => it,
            Err(e) => return Err(e),
        };
        let ghost before = items@;
        items.push(item);
        proof {
            assert(items@.drop_last() =~= before);
            let sa = items_view(before);
            match items_of(tail@, parser@) {
                Ok(s) => {
                    assert(sa.push(item@) + s =~= sa + (seq![item@] + s));
                },
                Err(_) => {},
            }
        }
        rest = tail;
    }
    assert(items_view(items@) + Seq::<ItemModel>::empty() =~= items_view(items@));
    Ok(items)
}

/// The whole buffer as a value tree: a container of its top-level items.
pub fn decode(parser: &Parser, data: &[u8]) -> (r: Result<DmapValue, Error>)
    ensures
        value_result(r) == match items_of(data@, parser@) {
            Ok(items) => Ok(ValueModel::Container(items)),
            Err(e) => Err(e),
        },
{
    match decode_items(parser, data) {
        Ok(items) => Ok(DmapValue::Container(items)),
        Err(e) => Err(e),
    }
}

/// The one item that the buffer holds; bytes after it are an error.
pub fn decode_item(parser: &Parser, data: &[u8]) -> (r: Result<DmapItem, Error>)
    ensures
        item_result(r) == single_of(data@, parser@),
{
    let (tag, body, rest) = match read_record(data) {
        Ok(t) => t,
        Err(e) => return Err(e),
    };
    let item = match decode_record(parser, &tag, body) {
        Ok(it) => it,
        Err(e) => return Err(e),
    };
    if rest.len() > 0 {
        Err(Error::TrailingData)
    } else {
        Ok(item)
    }
}

/// A record read from the stream and not yet consumed: its tag, the
/// position of its dictionary entry if the tag has one, and its body.
pub struct RawMessage<'de> {
    code: [u8; 4],
    entry: Option<usize>,
    body: &'de [u8],
}

impl<'de> RawMessage<'de> {
    /// The record's tag and body.
    pub closed spec fn parts(&self) -> (Seq<u8>, Seq<u8>) {
        (self.code@, self.body@)
    }

    /// `entry` is where `d` holds the tag.
    pub closed spec fn resolved_in(&self, d: Seq<CodeModel>) -> bool {
        match self.entry {
            Some(i) => lookup_code(d, self.code@) == Some(i as int),
            None => lookup_code(d, self.code@) is None,
        }
    }

    /// The record's tag.
    pub fn code(&self) -> (r: [u8; 4])
        ensures
            r@ == self.parts().0,
    {
        self.code
    }

    /// The record's body.
    pub fn body(&self) -> (r: &'de [u8])
        ensures
            r@ == self.parts().1,
    {
        self.body
    }
}

/// A pull decoder over a run of records. It hands out each record's name
/// and then, on request, its value; a record read ahead and not taken is
/// kept pending and handed out again by the next read.
pub struct MapDeserializer<'a, 'de> {
    parser: &'a Parser,
    current: Option<RawMessage<'de>>,
    tail: &'de [u8],
}

impl<'a, 'de> MapDeserializer<'a, 'de> {
    /// The dictionary that names are resolved in.
    pub closed spec fn dict(&self) -> Seq<CodeModel> {
        self.parser@
    }

    /// The tag and body of the pending record, if one was read ahead.
    pub closed spec fn pending(&self) -> Option<(Seq<u8>, Seq<u8>)> {
        match self.current {
            Some(m) => Some(m.parts()),
            None => None,
        }
    }

    /// The bytes after the pending record.
    pub closed spec fn rest(&self) -> Seq<u8> {
        self.tail@
    }

    /// The pending record was resolved in the dictionary.
    pub closed spec fn wf(&self) -> bool {
        self.current matches Some(m) ==> m.resolved_in(self.parser@)
    }

    /// The next record (tag, body, and the bytes after it): the pending one
    /// if any, else the one at the front of the rest; `Ok(None)` at the end.
    pub open spec fn peek(&self) -> Result<Option<(Seq<u8>, Seq<u8>, Seq<u8>)>, Error> {
        match self.pending() {
            Some((tag, body)) => Ok(Some((tag, body, self.rest()))),
            None => if self.rest().len() == 0 {
                Ok(None)
            } else {
                match split_record(self.rest()) {
                    None => Err(Error::TruncatedInput),
                    Some(t) => Ok(Some(t)),
                }
            },
        }
    }

    /// A decoder over `input`, with nothing read yet.
    pub fn new(parser: &'a Parser, input: &'de [u8]) -> (r: MapDeserializer<'a, 'de>)
        ensures
            r.wf(),
            r.dict() == parser@,
            r.pending() is None,
            r.rest() == input@,
    {
        MapDeserializer { parser, current: None, tail: input }
    }

    /// Takes the next record: the pending one, else a fresh one.
    pub fn next_message(&mut self) -> (r: Result<Option<RawMessage<'de>>, Error>)
        requires
            old(self).wf(),
        ensures
            final(self).wf(),
            final(self).dict() == old(self).dict(),
            match old(self).peek() {
                Err(e) => r == Err::<Option<RawMessage<'de>>, Error>(e),
                Ok(None) => {
                    &&& r matches Ok(None)
                    &&& final(self).pending() is None
                    &&& final(self).rest() == old(self).rest()
                },
                Ok(Some((tag, body, rest))) => {
                    &&& r matches Ok(Some(m)) && m.parts() == (tag, body) && m.resolved_in(
                        old(self).dict(),
                    )
                    &&& final(self).pending() is None
                    &&& final(self).rest() == rest
                },
            },
    {
        match self.current.take() {
            Some(m) => Ok(Some(m)),
            None => {
                if self.tail.len() == 0 {
                    return Ok(None);
                }
                let (code, body, rest) = match read_record(self.tail) {
                    Ok(t) => t,
                    Err(e) => return Err(e),
                };
                self.tail = rest;
                let entry = self.parser.find_code(&code);
                Ok(Some(RawMessage { code, entry, body }))
            },
        }
    }

    /// The name of the next record, which stays pending for `next_value`.
    pub fn next_key(&mut self) -> (r: Result<Option<ItemName>, Error>)
        requires
            old(self).wf(),
        ensures
            final(self).wf(),
            final(self).dict() == old(self).dict(),
            match old(self).peek() {
                Err(e) => r == Err::<Option<ItemName>, Error>(e),
                Ok(None) => {
                    &&& r matches Ok(None)
                    &&& final(self).pending() is None
                    &&& final(self).rest() == old(self).rest()
                },
                Ok(Some((tag, body, rest))) => {
                    &&& r matches Ok(Some(n)) && n@ == record_name(tag, old(self).dict())
                    &&& final(self).pending() == Some((tag, body))
                    &&& final(self).rest() == rest
                },
            },
    {
        let m = match self.next_message() {
            Ok(Some(m)) => m,
            Ok(None) => return Ok(None),
            Err(e) => return Err(e),
        };
        let name = match m.entry {
            Some(i) => ItemName::Name(self.parser.entry(i).name.clone()),
            None => ItemName::Code(m.code),
        };
        self.current = Some(m);
        Ok(Some(name))
    }

    /// The value of the pending record, which is consumed.
    pub fn next_value(&mut self) -> (r: Result<DmapValue, Error>)
        requires
            old(self).wf(),
            old(self).pending() is Some,
        ensures
            final(self).wf(),
            final(self).dict() == old(self).dict(),
            final(self).pending() is None,
            final(self).rest() == old(self).rest(),
            ({
                let (tag, body) = old(self).pending()->0;
                value_result(r) == match record_of(tag, body, old(self).dict()) {
                    Ok(item) => Ok(item.value),
                    Err(e) => Err(e),
                }
            }),
    {
        let m = self.current.take().unwrap();
        match m.entry {
            Some(i) => decode_body(self.parser, self.parser.entry(i).kind, m.body),
            None => Ok(DmapValue::Unknown(vstd::slice::slice_to_vec(m.body))),
        }
    }

    /// The next element of a repeated field with tag `code`: the next
    /// record if it carries that tag, as a decoder over its body. A record
    /// with another tag ends the run and stays pending, so the next read
    /// hands it out again.
    pub fn next_seq_element(&mut self, code: &[u8; 4]) -> (r: Result<
        Option<MapDeserializer<'a, 'de>>,
        Error,
    >)
        requires
            old(self).wf(),
        ensures
            final(self).wf(),
            final(self).dict() == old(self).dict(),
            match old(self).peek() {
                Err(e) => r matches Err(x) && x == e,
                Ok(None) => {
                    &&& r matches Ok(None)
                    &&& final(self).pending() is None
                    &&& final(self).rest() == old(self).rest()
                },
                Ok(Some((tag, body, rest))) => if tag == code@ {
                    &&& r matches Ok(Some(sub)) && sub.wf() && sub.dict() == old(self).dict()
                        && sub.pending() is None && sub.rest() == body
                    &&& final(self).pending() is None
                    &&& final(self).rest() == rest
                } else {
                    &&& r matches Ok(None)
                    &&& final(self).pending() == Some((tag, body))
                    &&& final(self).rest() == rest
                },
            },
    {
        let m = match self.next_message() {
            Ok(Some(m)) => m,
            Ok(None) => return Ok(None),
            Err(e) => return Err(e),
        };
        if same_code(&m.code, code) {
            Ok(Some(MapDeserializer::new(self.parser, m.body)))
        } else {
            self.current = Some(m);
            Ok(None)
        }
    }

    /// The tag of the pending record, if one was read ahead.
    pub fn pending_code(&self) -> (r: Option<[u8; 4]>)
        ensures
            r is Some <==> self.pending() is Some,
            r matches Some(c) ==> self.pending() matches Some((t, _)) && c@ == t,
    {
        match &self.current {
            Some(m) => Some(m.code),
            None => None,
        }
    }

    /// The dictionary kind of the pending record; `None` where nothing is
    /// pending or the dictionary lacks its tag.
    pub fn pending_kind(&self) -> (r: Option<TypeKind>)
        requires
            self.wf(),
        ensures
            match self.pending() {
                Some((tag, _)) => match lookup_code(self.dict(), tag) {
                    Some(i) => r == Some(self.dict()[i].kind),
                    None => r is None,
                },
                None => r is None,
            },
    {
        match &self.current {
            Some(m) => match m.entry {
                Some(i) => Some(self.parser.entry(i).kind),
                None => None,
            },
            None => None,
        }
    }

    /// Succeeds when every record was consumed.
    pub fn end(&self) -> (r: Result<(), Error>)
        ensures
            r is Ok <==> self.pending() is None && self.rest().len() == 0,
            r matches Err(e) ==> e == Error::TrailingData,
    {
        if self.current.is_some() || self.tail.len() > 0 {
            Err(Error::TrailingData)
        } else {
            Ok(())
        }
    }
}

} // verus!
