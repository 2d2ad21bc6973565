//! The encoder: records written into a growing buffer, with the length of
//! each container filled in once its contents are written.

use crate::bytes::{
    be_bytes, lemma_be_bytes_len, lemma_be_bytes_unique, u16_be, u32_be, u64_be,
};
use crate::dict::{CodeModel, Parser};
use crate::error::Error;
use crate::format::{
    framed, item_bytes, items_bytes, items_size, lemma_items_bytes_prefix, lemma_items_size_prefix,
    name_tag, root_bytes, root_size, value_bytes,
    value_size,
};
use crate::value::{
    items_view, lemma_items_view, DmapItem, DmapValue, ItemModel, ItemName, ValueModel,
};
use vstd::prelude::*;
use vstd::utf8::encode_utf8;

verus! {

/// The encoder's state: the dictionary and the bytes written so far.
pub struct Serializer<'a> {
    parser: &'a Parser,
    output: Vec<u8>,
}

/// An open container: where its length goes, or `0` for the bare root.
pub struct MapSerializer {
    length_offset: usize,
}

/// An open repeated field: the tag that each element is written under.
pub struct SeqSerializer {
    code: [u8; 4],
}

/// What writing `v` appends: at the very start of the output, a container
/// is the bare root; anywhere else every value keeps its length.
pub open spec fn written_for(v: ValueModel, at_root: bool, d: Seq<CodeModel>) -> Option<
    Seq<u8>,
> {
    if at_root {
        root_bytes(v, d)
    } else {
        value_bytes(v, d)
    }
}

/// How many bytes writing `v` appends.
pub open spec fn size_for(v: ValueModel, at_root: bool) -> nat {
    if at_root {
        root_size(v)
    } else {
        value_size(v)
    }
}

impl<'a> Serializer<'a> {
    /// The dictionary that names are looked up in.
    pub closed spec fn dict(&self) -> Seq<CodeModel> {
        self.parser@
    }

    /// The bytes written so far.
    pub closed spec fn written(&self) -> Seq<u8> {
        self.output@
    }

    /// An encoder that has written nothing.
    pub fn new(parser: &'a Parser) -> (r: Serializer<'a>)
        ensures
            r.dict() == parser@,
            r.written() == Seq::<u8>::empty(),
    {
        Serializer { output: Vec::new(), parser }
    }

    /// The number of bytes written so far.
    pub fn len(&self) -> (r: usize)
        ensures
            r == self.written().len(),
    {
        self.output.len()
    }

    /// The bytes written.
    pub fn into_output(self) -> (r: Vec<u8>)
        ensures
            r@ == self.written(),
    {
        self.output
    }

    fn append(&mut self, b: &[u8])
        ensures
            final(self).dict() == old(self).dict(),
            final(self).written() == old(self).written() + b@,
    {
        let ghost start = self.output@;
        let mut i: usize = 0;
        while i < b.len()
            invariant
                self.parser == old(self).parser,
                start == old(self).output@,
                i <= b@.len(),
                self.output@ == start + b@.take(i as int),
            decreases b@.len() - i,
        {
            self.output.push(b[i]);
            i = i + 1;
            assert(self.output@ =~= start + b@.take(i as int));
        }
        assert(b@.take(i as int) =~= b@);
    }

    fn write_len(&mut self, n: u32)
        ensures
            final(self).dict() == old(self).dict(),
            final(self).written() == old(self).written() + be_bytes(n as nat, 4),
    {
        let b = u32_be(n);
        proof {
            lemma_be_bytes_unique(b@, n as nat, 4);
        }
        self.append(&b);
    }

    /// Writes `v` as a raw body behind its length.
    pub fn serialize_bytes(&mut self, v: &[u8])
        requires
            v@.len() <= u32::MAX,
        ensures
            final(self).dict() == old(self).dict(),
            final(self).written() == old(self).written() + framed(v@),
    {
        self.write_len(v.len() as u32);
        self.append(v);
        assert(old(self).written() + be_bytes(v@.len(), 4) + v@ =~= old(self).written() + framed(
            v@,
        ));
    }

    /// Writes `v` as UTF-8 behind its length.
    pub fn serialize_str(&mut self, v: &str)
        requires
            encode_utf8(v@).len() <= u32::MAX,
        ensures
            final(self).dict() == old(self).dict(),
            final(self).written() == old(self).written() + framed(encode_utf8(v@)),
    {
        self.serialize_bytes(v.as_bytes());
    }

    /// Writes a one-byte signed value.
    pub fn serialize_i8(&mut self, v: i8)
        ensures
            final(self).dict() == old(self).dict(),
            final(self).written() == old(self).written() + framed(seq![v as u8]),
    {
        let b = [v as u8];
        assert(b@ =~= seq![v as u8]);
        self.serialize_bytes(&b);
    }

    /// Writes a one-byte unsigned value.
    pub fn serialize_u8(&mut self, v: u8)
        ensures
            final(self).dict() == old(self).dict(),
            final(self).written() == old(self).written() + framed(seq![v]),
    {
        let b = [v];
        assert(b@ =~= seq![v]);
        self.serialize_bytes(&b);
    }

    /// Writes a two-byte unsigned value.
    pub fn serialize_u16(&mut self, v: u16)
        ensures
            final(self).dict() == old(self).dict(),
            final(self).written() == old(self).written() + framed(be_bytes(v as nat, 2)),
    {
        let b = u16_be(v);
        proof {
            lemma_be_bytes_unique(b@, v as nat, 2);
        }
        self.serialize_bytes(&b);
    }

    /// Writes a two-byte signed value.
    pub fn serialize_i16(&mut self, v: i16)
        ensures
            final(self).dict() == old(self).dict(),
            final(self).written() == old(self).written() + framed(be_bytes((v as u16) as nat, 2)),
    {
        self.serialize_u16(v as u16);
    }

    /// Writes a four-byte unsigned value.
    pub fn serialize_u32(&mut self, v: u32)
        ensures
            final(self).dict() == old(self).dict(),
            final(self).written() == old(self).written() + framed(be_bytes(v as nat, 4)),
    {
        let b = u32_be(v);
        proof {
            lemma_be_bytes_unique(b@, v as nat, 4);
        }
        self.serialize_bytes(&b);
    }

    /// Writes a four-byte signed value.
    pub fn serialize_i32(&mut self, v: i32)
        ensures
            final(self).dict() == old(self).dict(),
            final(self).written() == old(self).written() + framed(be_bytes((v as u32) as nat, 4)),
    {
        self.serialize_u32(v as u32);
    }

    /// Writes an eight-byte unsigned value.
    pub fn serialize_u64(&mut self, v: u64)
        ensures
            final(self).dict() == old(self).dict(),
            final(self).written() == old(self).written() + framed(be_bytes(v as nat, 8)),
    {
        let b = u64_be(v);
        proof {
            lemma_be_bytes_unique(b@, v as nat, 8);
        }
        self.serialize_bytes(&b);
    }

    /// Writes an eight-byte signed value.
    pub fn serialize_i64(&mut self, v: i64)
        ensures
            final(self).dict() == old(self).dict(),
            final(self).written() == old(self).written() + framed(be_bytes((v as u64) as nat, 8)),
    {
        self.serialize_u64(v as u64);
    }

    /// Takes back the tag just written for a value that turned out to be
    /// absent, since the format has no mark for "nothing".
    pub fn serialize_none(&mut self)
        requires
            old(self).written().len() >= 4,
        ensures
            final(self).dict() == old(self).dict(),
            final(self).written() == old(self).written().take(old(self).written().len() - 4),
    {
        let len = self.output.len() - 4;
        self.output.truncate(len);
    }

    /// Opens a container. Anywhere but at the very start of the output, a
    /// zero length is written for `MapSerializer::end` to fill in.
    pub fn serialize_map(&mut self) -> (r: MapSerializer)
        requires
            old(self).written().len() + 4 <= usize::MAX,
        ensures
            final(self).dict() == old(self).dict(),
            old(self).written().len() == 0 ==> final(self).written() == old(self).written()
                && r.offset() == 0,
            old(self).written().len() > 0 ==> final(self).written() == old(self).written()
                + be_bytes(0, 4) && r.offset() == final(self).written().len(),
    {
        if self.output.len() > 0 {
            self.write_len(0);
            proof {
                lemma_be_bytes_len(0, 4);
            }
        }
        MapSerializer { length_offset: self.output.len() }
    }

    /// Opens a repeated field under the tag just written: the tag is taken
    /// back, and each element writes it again in front of itself.
    pub fn serialize_seq(&mut self) -> (r: SeqSerializer)
        requires
            old(self).written().len() >= 4,
        ensures
            final(self).dict() == old(self).dict(),
            final(self).written() == old(self).written().take(old(self).written().len() - 4),
            r.tag() == old(self).written().skip(old(self).written().len() - 4),
    {
        let offset = self.output.len() - 4;
        let code = [
            self.output[offset],
            self.output[offset + 1],
            self.output[offset + 2],
            self.output[offset + 3],
        ];
        assert(code@ =~= self.output@.skip(offset as int));
        self.output.truncate(offset);
        SeqSerializer { code }
    }

    fn patch_len(&mut self, at: usize, n: u32)
        requires
            at + 4 <= old(self).written().len(),
        ensures
            final(self).dict() == old(self).dict(),
            final(self).written() == old(self).written().take(at as int) + be_bytes(n as nat, 4)
                + old(self).written().skip(at + 4),
    {
        let b = u32_be(n);
        proof {
            lemma_be_bytes_unique(b@, n as nat, 4);
        }
        let _len = self.output.len();
        self.output[at] = b[0];
        self.output[at + 1] = b[1];
        self.output[at + 2] = b[2];
        self.output[at + 3] = b[3];
        assert(self.output@ =~= old(self).output@.take(at as int) + b@ + old(self).output@.skip(
            at + 4,
        ));
    }

    /// Writes the tag that `key` is written under.
    fn write_key(&mut self, key: &ItemName) -> (r: Result<(), Error>)
        ensures
            final(self).dict() == old(self).dict(),
            r is Ok <==> name_tag(key@, old(self).dict()) is Some,
            r matches Err(e) ==> e == Error::UnknownField,
            r is Ok ==> final(self).written() == old(self).written() + name_tag(
                key@,
                old(self).dict(),
            )->0 && name_tag(key@, old(self).dict())->0.len() == 4,
    {
        match key {
            ItemName::Code(c) => {
                self.append(c);
                Ok(())
            },
            ItemName::Name(n) => match self.parser.find_name(n.as_str()) {
                Some(i) => {
                    let code = self.parser.entry(i).code;
                    self.append(&code);
                    Ok(())
                },
                None => Err(Error::UnknownField),
            },
        }
    }

    /// Writes a value tree: a container at the very start of the output is
    /// the bare root, anything else keeps its length.
    pub fn serialize_value(&mut self, v: &DmapValue) -> (r: Result<(), Error>)
        requires
            old(self).written().len() + size_for(v@, old(self).written().len() == 0) <= u32::MAX,
        ensures
            final(self).dict() == old(self).dict(),
            ({
                let w = written_for(v@, old(self).written().len() == 0, old(self).dict());
                &&& r is Ok <==> w is Some
                &&& r matches Err(e) ==> e == Error::UnknownField
                &&& r is Ok ==> final(self).written() == old(self).written() + w->0
                &&& r is Ok ==> w->0.len() == size_for(v@, old(self).written().len() == 0)
            }),
        decreases v,
    {
        proof {
            lemma_be_bytes_len(1, 4);
            lemma_be_bytes_len(2, 4);
            lemma_be_bytes_len(4, 4);
            lemma_be_bytes_len(8, 4);
        }
        match v {
            DmapValue::I8(x) => {
                self.serialize_i8(*x);
                Ok(())
            },
            DmapValue::U8(x) => {
                self.serialize_u8(*x);
                Ok(())
            },
            DmapValue::I16(x) => {
                proof {
                    lemma_be_bytes_len((*x as u16) as nat, 2);
                }
                self.serialize_i16(*x);
                Ok(())
            },
            DmapValue::U16(x) => {
                proof {
                    lemma_be_bytes_len(*x as nat, 2);
                }
                self.serialize_u16(*x);
                Ok(())
            },
            DmapValue::I32(x) => {
                proof {
                    lemma_be_bytes_len((*x as u32) as nat, 4);
                }
                self.serialize_i32(*x);
                Ok(())
            },
            DmapValue::U32(x) => {
                proof {
                    lemma_be_bytes_len(*x as nat, 4);
                }
                self.serialize_u32(*x);
                Ok(())
            },
            DmapValue::I64(x) => {
                proof {
                    lemma_be_bytes_len((*x as u64) as nat, 8);
                }
                self.serialize_i64(*x);
                Ok(())
            },
            DmapValue::U64(x) => {
                proof {
                    lemma_be_bytes_len(*x as nat, 8);
                }
                self.serialize_u64(*x);
                Ok(())
            },
            DmapValue::String(s) => {
                proof {
                    lemma_be_bytes_len(encode_utf8(s@).len(), 4);
                }
                self.serialize_str(s.as_str());
                Ok(())
            },
            DmapValue::Unknown(b) => {
                proof {
                    lemma_be_bytes_len(b@.len(), 4);
                }
                self.serialize_bytes(b.as_slice());
                Ok(())
            },
            DmapValue::Container(items) => self.serialize_container(items),
        }
    }

    /// Writes a container: its items in order, behind a length filled in
    /// at the end, or bare at the very start of the output.
    fn serialize_container(&mut self, items: &Vec<DmapItem>) -> (r: Result<(), Error>)
        requires
            old(self).written().len() + size_for(
                ValueModel::Container(items_view(items@)),
                old(self).written().len() == 0,
            ) <= u32::MAX,
        ensures
            final(self).dict() == old(self).dict(),
            ({
                let v = ValueModel::Container(items_view(items@));
                let w = written_for(v, old(self).written().len() == 0, old(self).dict());
                &&& r is Ok <==> w is Some
                &&& r matches Err(e) ==> e == Error::UnknownField
                &&& r is Ok ==> final(self).written() == old(self).written() + w->0
                &&& r is Ok ==> w->0.len() == size_for(v, old(self).written().len() == 0)
            }),
        decreases items,
    {
        let ghost iv = items_view(items@);
        let ghost d = self.dict();
        let ghost start = self.written();
        proof {
            lemma_items_view(items@);
            lemma_be_bytes_len(0, 4);
        }
        let map = self.serialize_map();
        let ghost prefix = self.written();
        let mut i: usize = 0;
        assert(iv.take(0) =~= Seq::<ItemModel>::empty());
        assert(prefix + Seq::<u8>::empty() =~= prefix);
        while i < items.len()
            invariant
                self.dict() == d,
                d == old(self).dict(),
                i <= items@.len(),
                iv == items_view(items@),
                iv.len() == items@.len(),
                forall|k: int| 0 <= k < items@.len() ==> #[trigger] iv[k] == items@[k]@,
                items_bytes(iv.take(i as int), d) is Some,
                self.written() == prefix + items_bytes(iv.take(i as int), d)->0,
                items_bytes(iv.take(i as int), d)->0.len() == items_size(iv.take(i as int)),
                prefix.len() + items_size(iv) <= u32::MAX,
                prefix.len() > 0 || start.len() == 0,
            decreases items@.len() - i,
        {
            let item = &items[i];
            let ghost t = iv.take(i + 1);
            proof {
                assert(t.drop_last() =~= iv.take(i as int));
                assert(t.last() == item@);
                lemma_items_size_prefix(iv, i + 1);
            }
            match self.write_key(&item.name) {
                Ok(()) => {},
                Err(e) => {
                    proof {
                        if items_bytes(iv, d) is Some {
                            lemma_items_bytes_prefix(iv, i + 1, d);
                        }
                    }
                    return Err(e);
                },
            }
            match self.serialize_value(&item.value) {
                Ok(()) => {},
                Err(e) => {
                    proof {
                        if items_bytes(iv, d) is Some {
                            lemma_items_bytes_prefix(iv, i + 1, d);
                        }
                    }
                    return Err(e);
                },
            }
            proof {
                let a = items_bytes(iv.take(i as int), d)->0;
                let tag = name_tag(item@.name, d)->0;
                let vb = value_bytes(item@.value, d)->0;
                assert(item_bytes(item@, d) == Some(tag + vb));
                assert(items_bytes(t, d) == Some(a + (tag + vb)));
                assert(prefix + a + tag + vb =~= prefix + (a + (tag + vb)));
            }
            i = i + 1;
        }
        proof {
            assert(iv.take(i as int) =~= iv);
        }
        map.end(self);
        proof {
            let body = items_bytes(iv, d)->0;
            if start.len() > 0 {
                assert(start + be_bytes(body.len(), 4) + body =~= start + framed(body));
                lemma_be_bytes_len(body.len(), 4);
            }
        }
        Ok(())
    }
}

impl MapSerializer {
    /// Where the container's length goes (its body starts there), or `0`
    /// for the bare root.
    pub closed spec fn offset(&self) -> nat {
        self.length_offset as nat
    }

    /// Writes the tag of the next item.
    pub fn serialize_key(&self, ser: &mut Serializer, key: &ItemName) -> (r: Result<(), Error>)
        ensures
            final(ser).dict() == old(ser).dict(),
            r is Ok <==> name_tag(key@, old(ser).dict()) is Some,
            r matches Err(e) ==> e == Error::UnknownField,
            r is Ok ==> final(ser).written() == old(ser).written() + name_tag(
                key@,
                old(ser).dict(),
            )->0,
    {
        ser.write_key(key)
    }

    /// Writes the value of the item whose tag was just written.
    pub fn serialize_value(&self, ser: &mut Serializer, value: &DmapValue) -> (r: Result<
        (),
        Error,
    >)
        requires
            old(ser).written().len() > 0,
            old(ser).written().len() + value_size(value@) <= u32::MAX,
        ensures
            final(ser).dict() == old(ser).dict(),
            r is Ok <==> value_bytes(value@, old(ser).dict()) is Some,
            r matches Err(e) ==> e == Error::UnknownField,
            r is Ok ==> final(ser).written() == old(ser).written() + value_bytes(
                value@,
                old(ser).dict(),
            )->0,
    {
        ser.serialize_value(value)
    }

    /// Closes the container: its length becomes the number of bytes written
    /// since it was opened.
    pub fn end(self, ser: &mut Serializer)
        requires
            self.offset() <= old(ser).written().len(),
            self.offset() == 0 || self.offset() >= 4,
            old(ser).written().len() - self.offset() <= u32::MAX,
        ensures
            final(ser).dict() == old(ser).dict(),
            self.offset() == 0 ==> final(ser).written() == old(ser).written(),
            self.offset() > 0 ==> final(ser).written() == old(ser).written().take(
                self.offset() - 4,
            ) + be_bytes((old(ser).written().len() - self.offset()) as nat, 4) + old(
                ser,
            ).written().skip(self.offset() as int),
    {
        if self.length_offset > 0 {
            let len = (ser.output.len() - self.length_offset) as u32;
            ser.patch_len(self.length_offset - 4, len);
        }
    }
}

impl SeqSerializer {
    /// The tag of the repeated field.
    pub closed spec fn tag(&self) -> Seq<u8> {
        self.code@
    }

    /// Starts one element: writes the field's tag, for its value to follow.
    pub fn begin_element(&self, ser: &mut Serializer)
        ensures
            final(ser).dict() == old(ser).dict(),
            final(ser).written() == old(ser).written() + self.tag(),
    {
        ser.append(&self.code);
    }

    /// Writes one element: the field's tag, then the value.
    pub fn serialize_element(&self, ser: &mut Serializer, value: &DmapValue) -> (r: Result<
        (),
        Error,
    >)
        requires
            old(ser).written().len() + 4 + value_size(value@) <= u32::MAX,
        ensures
            final(ser).dict() == old(ser).dict(),
            r is Ok <==> value_bytes(value@, old(ser).dict()) is Some,
            r matches Err(e) ==> e == Error::UnknownField,
            r is Ok ==> final(ser).written() == old(ser).written() + self.tag() + value_bytes(
                value@,
                old(ser).dict(),
            )->0,
    {
        self.begin_element(ser);
        let r = ser.serialize_value(value);
        proof {
            if r is Ok {
                assert(old(ser).written() + self.tag() + value_bytes(value@, old(ser).dict())->0
                    =~= old(ser).written() + (self.tag() + value_bytes(
                    value@,
                    old(ser).dict(),
                )->0));
            }
        }
        r
    }

    /// Closes the repeated field; nothing follows its last element.
    pub fn end(self) {
    }
}

/// The bytes that a value tree is written as.
pub fn encode(parser: &Parser, v: &DmapValue) -> (r: Result<Vec<u8>, Error>)
    requires
        root_size(v@) <= u32::MAX,
    ensures
        r is Ok <==> root_bytes(v@, parser@) is Some,
        r matches Ok(b) ==> b@ == root_bytes(v@, parser@)->0,
        r matches Err(e) ==> e == Error::UnknownField,
{
    let mut ser = Serializer::new(parser);
    match ser.serialize_value(v) {
        Ok(()) => {
            assert(Seq::<u8>::empty() + root_bytes(v@, parser@)->0 =~= root_bytes(v@, parser@)->0);
            Ok(ser.into_output())
        },
        Err(e) => Err(e),
    }
}

} // verus!
