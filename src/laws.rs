//! What holds of decoding and encoding together: round trips, truncation
//! and unknown tags.

use crate::bytes::{
    be_bytes, be_value, lemma_be_bytes_len, lemma_be_bytes_unique, lemma_be_bytes_value,
    lemma_be_value_bound, pow256,
};
use crate::de::prepend;
use crate::dict::{first_with_name, lookup_code, unique_entries, CodeModel, TypeKind};
use crate::error::Error;
use crate::format::{
    body_bytes, body_of, framed, item_bytes, items_bytes, items_of, kind_width, name_tag,
    record_of, root_bytes, split_record,
};
use crate::value::{ItemModel, NameModel, ValueModel};
use vstd::prelude::*;

verus! {

/// Each scalar body of `body`, read as kind `k`, has exactly its kind's
/// width.
pub open spec fn exact_body(k: TypeKind, body: Seq<u8>, d: Seq<CodeModel>) -> bool
    decreases body.len(), 1nat,
{
    match k {
        TypeKind::String => true,
        TypeKind::Container => exact_items(body, d),
        _ => body.len() == kind_width(k),
    }
}

/// The record's scalar bodies have exactly their kinds' widths.
pub open spec fn exact_record(tag: Seq<u8>, body: Seq<u8>, d: Seq<CodeModel>) -> bool
    decreases body.len(), 2nat,
{
    match lookup_code(d, tag) {
        Some(i) => 0 <= i < d.len() && exact_body(d[i].kind, body, d),
        None => true,
    }
}

/// Every record of the run `b`, at every depth, has scalar bodies of
/// exactly their kinds' widths.
pub open spec fn exact_items(b: Seq<u8>, d: Seq<CodeModel>) -> bool
    decreases b.len(), 0nat,
{
    if b.len() == 0 {
        true
    } else {
        match split_record(b) {
            None => false,
            Some((tag, body, rest)) => exact_record(tag, body, d) && exact_items(rest, d),
        }
    }
}

/// `b` decodes under `d`, and each scalar it holds has exactly its width.
pub open spec fn well_formed(b: Seq<u8>, d: Seq<CodeModel>) -> bool {
    items_of(b, d) is Ok && exact_items(b, d)
}

proof fn lemma_pow256()
    ensures
        pow256(2) == 0x1_0000,
        pow256(4) == 0x1_0000_0000,
        pow256(8) == 0x1_0000_0000_0000_0000,
{
    assert(pow256(0) == 1);
    assert(pow256(1) == 0x100);
    assert(pow256(2) == 0x1_0000);
    assert(pow256(3) == 0x100_0000);
    assert(pow256(4) == 0x1_0000_0000);
    assert(pow256(5) == 0x100_0000_0000);
    assert(pow256(6) == 0x1_0000_0000_0000);
    assert(pow256(7) == 0x100_0000_0000_0000);
    assert(pow256(8) == 0x1_0000_0000_0000_0000);
}

/// A record split off `b` is its tag, length and body in a row.
proof fn lemma_split_parts(b: Seq<u8>)
    requires
        split_record(b) is Some,
    ensures
        ({
            let (tag, body, rest) = split_record(b)->0;
            &&& tag.len() == 4
            &&& body.len() <= u32::MAX
            &&& b == tag + framed(body) + rest
        }),
{
    let (tag, body, rest) = split_record(b)->0;
    let l = b.subrange(4, 8);
    lemma_be_value_bound(l);
    lemma_pow256();
    lemma_be_bytes_unique(l, body.len(), 4);
    assert(b =~= tag + framed(body) + rest);
}

/// A tag, a length and a body in a row split back into the three.
proof fn lemma_split_framed(tag: Seq<u8>, x: Seq<u8>, rest: Seq<u8>)
    requires
        tag.len() == 4,
        x.len() <= u32::MAX,
    ensures
        split_record(tag + framed(x) + rest) == Some((tag, x, rest)),
{
    let b = tag + framed(x) + rest;
    lemma_pow256();
    lemma_be_bytes_len(x.len(), 4);
    lemma_be_bytes_value(x.len(), 4);
    assert(b.subrange(4, 8) =~= be_bytes(x.len(), 4));
    assert(b.subrange(0, 4) =~= tag);
    assert(b.subrange(8, 8 + x.len() as int) =~= x);
    assert(b.subrange(8 + x.len() as int, b.len() as int) =~= rest);
}

/// Writing an item in front of a sequence writes its record in front.
proof fn lemma_items_bytes_cons(x: ItemModel, s: Seq<ItemModel>, d: Seq<CodeModel>)
    ensures
        items_bytes(seq![x] + s, d) == match (item_bytes(x, d), items_bytes(s, d)) {
            (Some(a), Some(b)) => Some(a + b),
            _ => None,
        },
    decreases s.len(),
{
    let t = seq![x] + s;
    if s.len() == 0 {
        assert(t.drop_last() =~= Seq::<ItemModel>::empty());
        assert(t.last() == x);
        assert(items_bytes(Seq::<ItemModel>::empty(), d) == Some(Seq::<u8>::empty()));
        match item_bytes(x, d) {
            Some(a) => {
                assert(Seq::<u8>::empty() + a =~= a + Seq::<u8>::empty());
            },
            None => {},
        }
    } else {
        assert(t.drop_last() =~= seq![x] + s.drop_last());
        assert(t.last() == s.last());
        lemma_items_bytes_cons(x, s.drop_last(), d);
        match (item_bytes(x, d), items_bytes(s.drop_last(), d), item_bytes(s.last(), d)) {
            (Some(a), Some(b), Some(c)) => {
                assert(a + b + c =~= a + (b + c));
            },
            _ => {},
        }
    }
}

/// A scalar body of width `w` reads as a number that writes back in `w`
/// bytes and reads again as itself; at exactly width `w` those bytes are
/// the body.
proof fn lemma_be_reread(body: Seq<u8>, w: nat)
    requires
        body.len() >= w,
    ensures
        be_value(body.take(w as int)) < pow256(w),
        be_bytes(be_value(body.take(w as int)), w).len() == w,
        be_value(be_bytes(be_value(body.take(w as int)), w).take(w as int)) == be_value(
            body.take(w as int),
        ),
        body.len() == w ==> be_bytes(be_value(body.take(w as int)), w) == body,
{
    let n = be_value(body.take(w as int));
    lemma_be_value_bound(body.take(w as int));
    lemma_be_bytes_len(n, w);
    lemma_be_bytes_value(n, w);
    assert(be_bytes(n, w).take(w as int) =~= be_bytes(n, w));
    if body.len() == w {
        assert(body.take(w as int) =~= body);
        lemma_be_bytes_unique(body, n, w);
    }
}

/// What a body decodes to is written back as a body no longer than it,
/// which decodes to the same value, and which is the body itself where
/// its scalars have exactly their widths.
proof fn lemma_body_reencode(k: TypeKind, body: Seq<u8>, d: Seq<CodeModel>)
    requires
        body_of(k, body, d) is Ok,
        unique_entries(d),
    ensures
        ({
            let v = body_of(k, body, d)->Ok_0;
            &&& body_bytes(v, d) is Some
            &&& body_bytes(v, d)->0.len() <= body.len()
            &&& body_of(k, body_bytes(v, d)->0, d) == Ok::<ValueModel, Error>(v)
            &&& exact_body(k, body, d) ==> body_bytes(v, d)->0 == body
        }),
    decreases body.len(), 1nat,
{
    lemma_pow256();
    match k {
        TypeKind::String => {
            vstd::utf8::decode_utf8_encode_utf8(body);
            vstd::utf8::encode_utf8_valid_utf8(vstd::utf8::decode_utf8(body));
        },
        TypeKind::Container => {
            lemma_items_reencode(body, d);
        },
        TypeKind::I8 => {
            let x = body[0];
            assert((x as i8) as u8 == x) by (bit_vector);
            assert(seq![(x as i8) as u8] =~= seq![x]);
            if body.len() == 1 {
                assert(body =~= seq![x]);
            }
        },
        TypeKind::U8 => {
            if body.len() == 1 {
                assert(body =~= seq![body[0]]);
            }
        },
        TypeKind::I16 => {
            lemma_be_reread(body, 2);
            let m = be_value(body.take(2)) as u16;
            assert((m as i16) as u16 == m) by (bit_vector);
        },
        TypeKind::U16 => {
            lemma_be_reread(body, 2);
        },
        TypeKind::I32 => {
            lemma_be_reread(body, 4);
            let m = be_value(body.take(4)) as u32;
            assert((m as i32) as u32 == m) by (bit_vector);
        },
        TypeKind::I64 => {
            lemma_be_reread(body, 8);
            let m = be_value(body.take(8)) as u64;
            assert((m as i64) as u64 == m) by (bit_vector);
        },
        TypeKind::U64 => {
            lemma_be_reread(body, 8);
        },
        _ => {
            lemma_be_reread(body, 4);
        },
    }
}

/// What a record decodes to is written back under the same tag, with a
/// body no longer than its own that decodes to the same item, and which is
/// its own where its scalars have exactly their widths.
proof fn lemma_record_reencode(tag: Seq<u8>, body: Seq<u8>, d: Seq<CodeModel>)
    requires
        record_of(tag, body, d) is Ok,
        unique_entries(d),
    ensures
        ({
            let it = record_of(tag, body, d)->Ok_0;
            let x = body_bytes(it.value, d);
            &&& x is Some
            &&& name_tag(it.name, d) == Some(tag)
            &&& item_bytes(it, d) == Some(tag + framed(x->0))
            &&& x->0.len() <= body.len()
            &&& record_of(tag, x->0, d) == Ok::<ItemModel, Error>(it)
            &&& exact_record(tag, body, d) ==> x->0 == body
        }),
    decreases body.len(), 2nat,
{
    match lookup_code(d, tag) {
        None => {},
        Some(i) => {
            lemma_body_reencode(d[i].kind, body, d);
            assert(first_with_name(d, d[i].name, i));
        },
    }
}

/// What a run of records decodes to is written back as a run no longer
/// than it that decodes to the same items, and which is the run itself
/// where its scalars have exactly their widths.
proof fn lemma_items_reencode(b: Seq<u8>, d: Seq<CodeModel>)
    requires
        items_of(b, d) is Ok,
        unique_entries(d),
    ensures
        ({
            let items = items_of(b, d)->Ok_0;
            let y = items_bytes(items, d);
            &&& y is Some
            &&& y->0.len() <= b.len()
            &&& items_of(y->0, d) == Ok::<Seq<ItemModel>, Error>(items)
            &&& exact_items(b, d) ==> y->0 == b
        }),
    decreases b.len(), 0nat,
{
    if b.len() > 0 {
        let (tag, body, rest) = split_record(b)->0;
        lemma_split_parts(b);
        lemma_record_reencode(tag, body, d);
        lemma_items_reencode(rest, d);
        let item = record_of(tag, body, d)->Ok_0;
        let r_items = items_of(rest, d)->Ok_0;
        lemma_items_bytes_cons(item, r_items, d);
        let x = body_bytes(item.value, d)->0;
        let yr = items_bytes(r_items, d)->0;
        lemma_split_framed(tag, x, yr);
        let y = tag + framed(x) + yr;
        assert(items_bytes(items_of(b, d)->Ok_0, d) == Some(y)) by {
            assert(tag + framed(x) + yr =~= (tag + framed(x)) + yr);
        }
        lemma_be_bytes_len(x.len(), 4);
        assert(y.len() > 0);
    } else {
        assert(items_of(b, d)->Ok_0 =~= Seq::<ItemModel>::empty());
    }
}

/// Decoding a well-formed buffer and encoding the tree again gives back
/// the same bytes.
pub proof fn lemma_round_trip_bytes(b: Seq<u8>, d: Seq<CodeModel>)
    requires
        unique_entries(d),
        well_formed(b, d),
    ensures
        root_bytes(ValueModel::Container(items_of(b, d)->Ok_0), d) == Some(b),
{
    lemma_items_reencode(b, d);
}

/// Decoding a buffer, encoding the tree and decoding the bytes again gives
/// the tree that the first decoding gave.
pub proof fn lemma_round_trip_tree(b: Seq<u8>, d: Seq<CodeModel>)
    requires
        unique_entries(d),
        items_of(b, d) is Ok,
    ensures
        ({
            let t = ValueModel::Container(items_of(b, d)->Ok_0);
            &&& root_bytes(t, d) is Some
            &&& root_bytes(t, d)->0.len() <= b.len()
            &&& items_of(root_bytes(t, d)->0, d) == items_of(b, d)
        }),
{
    lemma_items_reencode(b, d);
}

/// `k` bytes into the run `b` is where one of its top-level records ends
/// (or `k` is zero).
pub open spec fn record_boundary(b: Seq<u8>, k: int) -> bool
    decreases b.len(),
{
    k == 0 || match split_record(b) {
        None => false,
        Some((_, _, rest)) => {
            let n = b.len() - rest.len();
            if 0 < n && n <= k {
                record_boundary(rest, k - n)
            } else {
                false
            }
        },
    }
}

/// Cutting a buffer that decodes short at any byte that is not the end of
/// one of its top-level records makes decoding fail with `TruncatedInput`.
pub proof fn lemma_truncation_detected(b: Seq<u8>, d: Seq<CodeModel>, k: int)
    requires
        items_of(b, d) is Ok,
        0 < k < b.len(),
        !record_boundary(b, k),
    ensures
        items_of(b.take(k), d) == Err::<Seq<ItemModel>, Error>(Error::TruncatedInput),
    decreases b.len(),
{
    let (tag, body, rest) = split_record(b)->0;
    let n = b.len() - rest.len();
    let c = b.take(k);
    assert(c.len() > 0);
    if k < n {
        if k >= 8 {
            assert(c.subrange(4, 8) =~= b.subrange(4, 8));
        }
        assert(split_record(c) is None);
    } else {
        let m = k - n;
        assert(record_boundary(rest, 0));
        assert(0 < m < rest.len());
        assert(c.subrange(4, 8) =~= b.subrange(4, 8));
        assert(c.subrange(0, 4) =~= tag);
        assert(c.subrange(8, n) =~= body);
        assert(c.subrange(n, c.len() as int) =~= rest.take(m));
        lemma_truncation_detected(rest, d, m);
        assert(split_record(c) == Some((tag, body, rest.take(m))));
    }
}

/// A record whose tag the dictionary lacks decodes to its raw tag and
/// body, the records after it decode as they would alone, and it is
/// written back as the same bytes.
pub proof fn lemma_unknown_tag(tag: Seq<u8>, body: Seq<u8>, rest: Seq<u8>, d: Seq<CodeModel>)
    requires
        tag.len() == 4,
        body.len() <= u32::MAX,
        lookup_code(d, tag) is None,
    ensures
        ({
            let item = ItemModel { name: NameModel::Code(tag), value: ValueModel::Unknown(body) };
            &&& record_of(tag, body, d) == Ok::<ItemModel, Error>(item)
            &&& items_of(tag + framed(body) + rest, d) == prepend(seq![item], items_of(rest, d))
            &&& item_bytes(item, d) == Some(tag + framed(body))
        }),
{
    lemma_split_framed(tag, body, rest);
    lemma_be_bytes_len(body.len(), 4);
    assert((tag + framed(body) + rest).len() > 0);
}

} // verus!
