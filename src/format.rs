//! The wire format as mathematics: what a buffer decodes to under a
//! dictionary, and which bytes a value tree encodes to.
//!
//! A record is a four-byte tag, a four-byte big-endian length `n` and `n`
//! bytes of body. A container's body is a run of whole records.

use crate::bytes::{be_bytes, be_value};
use crate::dict::{lookup_code, lookup_name, CodeModel, TypeKind};
use crate::error::Error;
use crate::value::{ItemModel, NameModel, ValueModel};
use vstd::prelude::*;
use vstd::utf8::{decode_utf8, encode_utf8, valid_utf8};

verus! {

/// The tag, body and remainder of the record at the start of `b`, or
/// `None` where `b` ends before the record does.
pub open spec fn split_record(b: Seq<u8>) -> Option<(Seq<u8>, Seq<u8>, Seq<u8>)> {
    if b.len() < 8 {
        None
    } else {
        let n = be_value(b.subrange(4, 8)) as int;
        if b.len() < 8 + n {
            None
        } else {
            Some((b.subrange(0, 4), b.subrange(8, 8 + n), b.subrange(8 + n, b.len() as int)))
        }
    }
}

/// The number of body bytes that a value of kind `k` occupies (zero for
/// strings and containers, whose length is the record's).
pub open spec fn kind_width(k: TypeKind) -> nat {
    match k {
        TypeKind::I8 | TypeKind::U8 => 1,
        TypeKind::I16 | TypeKind::U16 => 2,
        TypeKind::I32 | TypeKind::U32 | TypeKind::Timestamp | TypeKind::Version => 4,
        TypeKind::I64 | TypeKind::U64 => 8,
        TypeKind::String | TypeKind::Container => 0,
    }
}

/// The number that a body of a scalar kind `k` holds, read from its first
/// bytes.
pub open spec fn scalar_of(k: TypeKind, body: Seq<u8>) -> ValueModel {
    match k {
        TypeKind::I8 => ValueModel::I8(body[0] as i8),
        TypeKind::U8 => ValueModel::U8(body[0]),
        TypeKind::I16 => ValueModel::I16((be_value(body.take(2)) as u16) as i16),
        TypeKind::U16 => ValueModel::U16(be_value(body.take(2)) as u16),
        TypeKind::I32 => ValueModel::I32((be_value(body.take(4)) as u32) as i32),
        TypeKind::I64 => ValueModel::I64((be_value(body.take(8)) as u64) as i64),
        TypeKind::U64 => ValueModel::U64(be_value(body.take(8)) as u64),
        _ => ValueModel::U32(be_value(body.take(4)) as u32),
    }
}

/// The value that `body` decodes to as kind `k`.
pub open spec fn body_of(k: TypeKind, body: Seq<u8>, d: Seq<CodeModel>) -> Result<
    ValueModel,
    Error,
>
    decreases body.len(), 1nat,
{
    match k {
        TypeKind::String => if valid_utf8(body) {
            Ok(ValueModel::Str(decode_utf8(body)))
        } else {
            Err(Error::InvalidUtf8)
        },
        TypeKind::Container => match items_of(body, d) {
            Ok(items) => Ok(ValueModel::Container(items)),
            Err(e) => Err(e),
        },
        _ => if body.len() < kind_width(k) {
            Err(Error::TruncatedInput)
        } else {
            Ok(scalar_of(k, body))
        },
    }
}

/// The item that a record with tag `tag` and body `body` decodes to.
pub open spec fn record_of(tag: Seq<u8>, body: Seq<u8>, d: Seq<CodeModel>) -> Result<
    ItemModel,
    Error,
>
    decreases body.len(), 2nat,
{
    match lookup_code(d, tag) {
        None => Ok(ItemModel { name: NameModel::Code(tag), value: ValueModel::Unknown(body) }),
        Some(i) => if 0 <= i < d.len() {
            match body_of(d[i].kind, body, d) {
                Ok(v) => Ok(ItemModel { name: NameModel::Name(d[i].name), value: v }),
                Err(e) => Err(e),
            }
        } else {
            Err(Error::TruncatedInput)
        },
    }
}

/// The items that the run of records `b` decodes to, or the first error met
/// reading it from the front.
pub open spec fn items_of(b: Seq<u8>, d: Seq<CodeModel>) -> Result<Seq<ItemModel>, Error>
    decreases b.len(), 0nat,
{
    if b.len() == 0 {
        Ok(Seq::empty())
    } else {
        match split_record(b) {
            None => Err(Error::TruncatedInput),
            Some((tag, body, rest)) => match record_of(tag, body, d) {
                Err(e) => Err(e),
                Ok(item) => match items_of(rest, d) {
                    Err(e) => Err(e),
                    Ok(items) => Ok(seq![item] + items),
                },
            },
        }
    }
}

/// The name that a record with tag `tag` decodes under.
pub open spec fn record_name(tag: Seq<u8>, d: Seq<CodeModel>) -> NameModel {
    match lookup_code(d, tag) {
        Some(i) => NameModel::Name(d[i].name),
        None => NameModel::Code(tag),
    }
}

/// The one item that `b` holds: an error where `b` does not start with a
/// whole record that decodes, or where bytes follow that record.
pub open spec fn single_of(b: Seq<u8>, d: Seq<CodeModel>) -> Result<ItemModel, Error> {
    match split_record(b) {
        None => Err(Error::TruncatedInput),
        Some((tag, body, rest)) => match record_of(tag, body, d) {
            Err(e) => Err(e),
            Ok(item) => if rest.len() > 0 {
                Err(Error::TrailingData)
            } else {
                Ok(item)
            },
        },
    }
}

/// A body behind its four-byte length.
pub open spec fn framed(body: Seq<u8>) -> Seq<u8> {
    be_bytes(body.len(), 4) + body
}

/// The tag that an item name is written with.
pub open spec fn name_tag(n: NameModel, d: Seq<CodeModel>) -> Option<Seq<u8>> {
    match n {
        NameModel::Code(c) => Some(c),
        NameModel::Name(s) => match lookup_name(d, s) {
            Some(i) => if 0 <= i < d.len() {
                Some(d[i].code)
            } else {
                None
            },
            None => None,
        },
    }
}

/// The body that a value is written as (without its length), or `None`
/// where a name inside it is missing from the dictionary.
pub open spec fn body_bytes(v: ValueModel, d: Seq<CodeModel>) -> Option<Seq<u8>>
    decreases v,
{
    match v {
        ValueModel::I8(x) => Some(seq![x as u8]),
        ValueModel::U8(x) => Some(seq![x]),
        ValueModel::I16(x) => Some(be_bytes((x as u16) as nat, 2)),
        ValueModel::U16(x) => Some(be_bytes(x as nat, 2)),
        ValueModel::I32(x) => Some(be_bytes((x as u32) as nat, 4)),
        ValueModel::U32(x) => Some(be_bytes(x as nat, 4)),
        ValueModel::I64(x) => Some(be_bytes((x as u64) as nat, 8)),
        ValueModel::U64(x) => Some(be_bytes(x as nat, 8)),
        ValueModel::Str(s) => Some(encode_utf8(s)),
        ValueModel::Unknown(b) => Some(b),
        ValueModel::Container(items) => items_bytes(items, d),
    }
}

/// The length and body that a value is written as.
pub open spec fn value_bytes(v: ValueModel, d: Seq<CodeModel>) -> Option<Seq<u8>> {
    match body_bytes(v, d) {
        Some(x) => Some(framed(x)),
        None => None,
    }
}

/// The record that an item is written as.
pub open spec fn item_bytes(it: ItemModel, d: Seq<CodeModel>) -> Option<Seq<u8>>
    decreases it,
{
    match (name_tag(it.name, d), body_bytes(it.value, d)) {
        (Some(t), Some(x)) => Some(t + framed(x)),
        _ => None,
    }
}

/// The run of records that a sequence of items is written as.
pub open spec fn items_bytes(items: Seq<ItemModel>, d: Seq<CodeModel>) -> Option<Seq<u8>>
    decreases items,
{
    if items.len() == 0 {
        Some(Seq::empty())
    } else {
        match (items_bytes(items.drop_last(), d), item_bytes(items.last(), d)) {
            (Some(a), Some(b)) => Some(a + b),
            _ => None,
        }
    }
}

/// What a whole message is written as: a container at the root is its
/// bare run of records; any other value keeps its length.
pub open spec fn root_bytes(v: ValueModel, d: Seq<CodeModel>) -> Option<Seq<u8>> {
    match v {
        ValueModel::Container(items) => items_bytes(items, d),
        _ => value_bytes(v, d),
    }
}

/// The number of bytes a value is written as, its length included.
pub open spec fn value_size(v: ValueModel) -> nat
    decreases v,
{
    match v {
        ValueModel::I8(_) | ValueModel::U8(_) => 5,
        ValueModel::I16(_) | ValueModel::U16(_) => 6,
        ValueModel::I32(_) | ValueModel::U32(_) => 8,
        ValueModel::I64(_) | ValueModel::U64(_) => 12,
        ValueModel::Str(s) => 4 + encode_utf8(s).len(),
        ValueModel::Unknown(b) => 4 + b.len(),
        ValueModel::Container(items) => 4 + items_size(items),
    }
}

/// The number of bytes a sequence of items is written as.
pub open spec fn items_size(items: Seq<ItemModel>) -> nat
    decreases items,
{
    if items.len() == 0 {
        0
    } else {
        items_size(items.drop_last()) + 4 + value_size(items.last().value)
    }
}

/// The number of bytes a whole message is written as.
pub open spec fn root_size(v: ValueModel) -> nat {
    match v {
        ValueModel::Container(items) => items_size(items),
        _ => value_size(v),
    }
}

/// A prefix of a sequence of items is written in no more bytes than the
/// whole.
pub proof fn lemma_items_size_prefix(s: Seq<ItemModel>, j: int)
    requires
        0 <= j <= s.len(),
    ensures
        items_size(s.take(j)) <= items_size(s),
    decreases s.len(),
{
    if j < s.len() {
        lemma_items_size_prefix(s.drop_last(), j);
        assert(s.drop_last().take(j) =~= s.take(j));
    } else {
        assert(s.take(j) =~= s);
    }
}

/// Where a sequence of items can be written, so can each prefix.
pub proof fn lemma_items_bytes_prefix(s: Seq<ItemModel>, j: int, d: Seq<CodeModel>)
    requires
        0 <= j <= s.len(),
        items_bytes(s, d) is Some,
    ensures
        items_bytes(s.take(j), d) is Some,
    decreases s.len(),
{
    if j < s.len() {
        lemma_items_bytes_prefix(s.drop_last(), j, d);
        assert(s.drop_last().take(j) =~= s.take(j));
    } else {
        assert(s.take(j) =~= s);
    }
}

} // verus!
