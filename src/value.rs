//! The value tree: a decoded message as ordered items, each with a name and
//! a value, and the mathematical view that contracts speak of.

use vstd::prelude::*;

verus! {

/// The name of an item: a dictionary name, or the raw tag of a record
/// whose tag the dictionary does not hold.
#[derive(Debug, Clone, PartialEq, Eq)]
pub enum ItemName {
    Name(String),
    Code([u8; 4]),
}

/// A decoded value.
#[derive(Debug, PartialEq, Eq)]
pub enum DmapValue {
    I8(i8),
    U8(u8),
    I16(i16),
    U16(u16),
    I32(i32),
    U32(u32),
    I64(i64),
    U64(u64),
    String(String),
    Container(Vec<DmapItem>),
    Unknown(Vec<u8>),
}

/// One named item of a container.
#[derive(Debug, PartialEq, Eq)]
pub struct DmapItem {
    pub name: ItemName,
    pub value: DmapValue,
}

/// What an item name is: its characters, or its four tag bytes.
pub enum NameModel {
    Name(Seq<char>),
    Code(Seq<u8>),
}

/// What a value is, with strings as characters and containers as
/// sequences of item models.
pub enum ValueModel {
    I8(i8),
    U8(u8),
    I16(i16),
    U16(u16),
    I32(i32),
    U32(u32),
    I64(i64),
    U64(u64),
    Str(Seq<char>),
    Container(Seq<ItemModel>),
    Unknown(Seq<u8>),
}

/// What an item is.
pub struct ItemModel {
    pub name: NameModel,
    pub value: ValueModel,
}

impl View for ItemName {
    type V = NameModel;

    open spec fn view(&self) -> NameModel {
        match self {
            ItemName::Name(s) => NameModel::Name(s@),
            ItemName::Code(c) => NameModel::Code(c@),
        }
    }
}

impl View for DmapValue {
    type V = ValueModel;

    open spec fn view(&self) -> ValueModel
        decreases self,
    {
        match self {
            DmapValue::I8(x) => ValueModel::I8(*x),
            DmapValue::U8(x) => ValueModel::U8(*x),
            DmapValue::I16(x) => ValueModel::I16(*x),
            DmapValue::U16(x) => ValueModel::U16(*x),
            DmapValue::I32(x) => ValueModel::I32(*x),
            DmapValue::U32(x) => ValueModel::U32(*x),
            DmapValue::I64(x) => ValueModel::I64(*x),
            DmapValue::U64(x) => ValueModel::U64(*x),
            DmapValue::String(s) => ValueModel::Str(s@),
            DmapValue::Container(items) => ValueModel::Container(items_view(items@)),
            DmapValue::Unknown(b) => ValueModel::Unknown(b@),
        }
    }
}

/// The models of a sequence of items, in order.
pub open spec fn items_view(items: Seq<DmapItem>) -> Seq<ItemModel>
    decreases items,
{
    if items.len() == 0 {
        Seq::empty()
    } else {
        items_view(items.drop_last()).push(
            ItemModel { name: items.last().name@, value: items.last().value@ },
        )
    }
}

/// `items_view` keeps the length and takes the model of each item.
pub proof fn lemma_items_view(s: Seq<DmapItem>)
    ensures
        items_view(s).len() == s.len(),
        forall|k: int| 0 <= k < s.len() ==> #[trigger] items_view(s)[k] == s[k]@,
    decreases s.len(),
{
    if s.len() > 0 {
        lemma_items_view(s.drop_last());
        assert(items_view(s) == items_view(s.drop_last()).push(
            ItemModel { name: s.last().name@, value: s.last().value@ },
        ));
        assert forall|k: int| 0 <= k < s.len() implies #[trigger] items_view(s)[k] == s[k]@ by {
            if k < s.len() - 1 {
                assert(s.drop_last()[k] == s[k]);
            }
        }
    }
}

impl View for DmapItem {
    type V = ItemModel;

    open spec fn view(&self) -> ItemModel {
        ItemModel { name: self.name@, value: self.value@ }
    }
}

} // verus!
