//! The content-code dictionary: which tag carries which name and kind.

use crate::bytes::{be_bytes, lemma_be_bytes_unique, u32_be};
use crate::de::decode_items;
use crate::error::Error;
use crate::format::items_of;
use crate::value::{
    items_view, lemma_items_view, DmapItem, DmapValue, ItemModel, ItemName, NameModel, ValueModel,
};
use vstd::prelude::*;
use vstd::string::StringExecFns;

verus! {

/// The primitive or container kind of a field.
#[derive(Debug, Clone, Copy, PartialEq, Eq, Structural)]
pub enum TypeKind {
    I8,
    U8,
    I16,
    U16,
    I32,
    U32,
    I64,
    U64,
    String,
    Timestamp,
    Version,
    Container,
}

/// The kind that the wire number `n` stands for, if any.
pub open spec fn kind_of_number(n: int) -> Option<TypeKind> {
    if n == 1 {
        Some(TypeKind::I8)
    } else if n == 2 {
        Some(TypeKind::U8)
    } else if n == 3 {
        Some(TypeKind::I16)
    } else if n == 4 {
        Some(TypeKind::U16)
    } else if n == 5 {
        Some(TypeKind::I32)
    } else if n == 6 {
        Some(TypeKind::U32)
    } else if n == 7 {
        Some(TypeKind::I64)
    } else if n == 8 {
        Some(TypeKind::U64)
    } else if n == 9 {
        Some(TypeKind::String)
    } else if n == 10 {
        Some(TypeKind::Timestamp)
    } else if n == 11 {
        Some(TypeKind::Version)
    } else if n == 12 {
        Some(TypeKind::Container)
    } else {
        None
    }
}

impl TypeKind {
    /// The kind with wire number `n`.
    pub fn from_number(n: u16) -> (r: Option<TypeKind>)
        ensures
            r == kind_of_number(n as int),
    {
        match n {
            1 => Some(TypeKind::I8),
            2 => Some(TypeKind::U8),
            3 => Some(TypeKind::I16),
            4 => Some(TypeKind::U16),
            5 => Some(TypeKind::I32),
            6 => Some(TypeKind::U32),
            7 => Some(TypeKind::I64),
            8 => Some(TypeKind::U64),
            9 => Some(TypeKind::String),
            10 => Some(TypeKind::Timestamp),
            11 => Some(TypeKind::Version),
            12 => Some(TypeKind::Container),
            _ => None,
        }
    }
}

/// One dictionary entry.
#[derive(Debug, Clone)]
pub struct ContentCode {
    pub code: [u8; 4],
    pub name: String,
    pub kind: TypeKind,
}

/// What an entry is.
pub struct CodeModel {
    pub code: Seq<u8>,
    pub name: Seq<char>,
    pub kind: TypeKind,
}

impl View for ContentCode {
    type V = CodeModel;

    open spec fn view(&self) -> CodeModel {
        CodeModel { code: self.code@, name: self.name@, kind: self.kind }
    }
}

/// The dictionary, entries in order.
pub struct Parser {
    pub(crate) types: Vec<ContentCode>,
}

/// The models of a sequence of entries.
pub open spec fn codes_view(s: Seq<ContentCode>) -> Seq<CodeModel> {
    s.map_values(|c: ContentCode| c@)
}

impl View for Parser {
    type V = Seq<CodeModel>;

    closed spec fn view(&self) -> Seq<CodeModel> {
        codes_view(self.types@)
    }
}

/// `i` is the first entry of `d` with tag `code`.
pub open spec fn first_with_code(d: Seq<CodeModel>, code: Seq<u8>, i: int) -> bool {
    &&& 0 <= i < d.len()
    &&& d[i].code == code
    &&& forall|j: int| 0 <= j < i ==> d[j].code != code
}

/// The position of the first entry of `d` with tag `code`.
pub open spec fn lookup_code(d: Seq<CodeModel>, code: Seq<u8>) -> Option<int> {
    if exists|i: int| first_with_code(d, code, i) {
        Some(choose|i: int| first_with_code(d, code, i))
    } else {
        None
    }
}

/// `i` is the first entry of `d` named `name`.
pub open spec fn first_with_name(d: Seq<CodeModel>, name: Seq<char>, i: int) -> bool {
    &&& 0 <= i < d.len()
    &&& d[i].name == name
    &&& forall|j: int| 0 <= j < i ==> d[j].name != name
}

/// The position of the first entry of `d` named `name`.
pub open spec fn lookup_name(d: Seq<CodeModel>, name: Seq<char>) -> Option<int> {
    if exists|i: int| first_with_name(d, name, i) {
        Some(choose|i: int| first_with_name(d, name, i))
    } else {
        None
    }
}

/// No two entries share a tag, and no two share a name.
pub open spec fn unique_entries(d: Seq<CodeModel>) -> bool {
    forall|i: int, j: int|
        0 <= i < d.len() && 0 <= j < d.len() && i != j ==> d[i].code != d[j].code && d[i].name
            != d[j].name
}

/// Whether two tags are the same four bytes.
pub fn same_code(a: &[u8; 4], b: &[u8; 4]) -> (r: bool)
    ensures
        r == (a@ == b@),
{
    let r = a[0] == b[0] && a[1] == b[1] && a[2] == b[2] && a[3] == b[3];
    proof {
        if r {
            assert(a@ =~= b@);
        }
    }
    r
}

impl Parser {
    /// The number of entries.
    pub fn len(&self) -> (r: usize)
        ensures
            r == self@.len(),
    {
        self.types.len()
    }

    /// The entry at `i`.
    pub fn entry(&self, i: usize) -> (r: &ContentCode)
        requires
            i < self@.len(),
        ensures
            r@ == self@[i as int],
    {
        &self.types[i]
    }

    /// The position of the first entry with tag `code`.
    pub fn find_code(&self, code: &[u8; 4]) -> (r: Option<usize>)
        ensures
            r matches Some(i) ==> lookup_code(self@, code@) == Some(i as int),
            r is None ==> lookup_code(self@, code@) is None,
    {
        let n = self.types.len();
        let mut i: usize = 0;
        while i < n
            invariant
                n == self@.len(),
                i <= n,
                forall|j: int| 0 <= j < i ==> self@[j].code != code@,
            decreases n - i,
        {
            if same_code(&self.types[i].code, code) {
                assert(first_with_code(self@, code@, i as int));
                return Some(i);
            }
            i = i + 1;
        }
        None
    }

    /// The position of the first entry named `name`.
    pub fn find_name(&self, name: &str) -> (r: Option<usize>)
        ensures
            r matches Some(i) ==> lookup_name(self@, name@) == Some(i as int),
            r is None ==> lookup_name(self@, name@) is None,
    {
        let n = self.types.len();
        let mut i: usize = 0;
        while i < n
            invariant
                n == self@.len(),
                i <= n,
                forall|j: int| 0 <= j < i ==> self@[j].name != name@,
            decreases n - i,
        {
            if same_text(self.types[i].name.as_str(), name) {
                assert(first_with_name(self@, name@, i as int));
                return Some(i);
            }
            i = i + 1;
        }
        None
    }
}

/// Whether two strings hold the same characters.
pub fn same_text(a: &str, b: &str) -> (r: bool)
    ensures
        r == (a@ == b@),
{
    let x = a.as_bytes();
    let y = b.as_bytes();
    proof {
        vstd::utf8::encode_utf8_decode_utf8(a@);
        vstd::utf8::encode_utf8_decode_utf8(b@);
    }
    if x.len() != y.len() {
        return false;
    }
    let mut i: usize = 0;
    while i < x.len()
        invariant
            x@ == vstd::utf8::encode_utf8(a@),
            y@ == vstd::utf8::encode_utf8(b@),
            x@.len() == y@.len(),
            i <= x@.len(),
            forall|j: int| 0 <= j < i ==> x@[j] == y@[j],
        decreases x@.len() - i,
    {
        if x[i] != y[i] {
            return false;
        }
        i = i + 1;
    }
    assert(x@ =~= y@);
    true
}

/// Name of the content-codes response.
pub const CONTENT_CODES_RESPONSE: &'static str = "dmap.contentcodesresponse";

/// Name of the status field.
pub const STATUS: &'static str = "dmap.status";

/// Name of one dictionary entry (a repeated field).
pub const DICTIONARY: &'static str = "dmap.dictionary";

/// Name of an entry's tag, as a number.
pub const CONTENT_CODE_NUMBER: &'static str = "dmap.contentcodesnumber";

/// Name of an entry's name.
pub const CONTENT_CODE_NAME: &'static str = "dmap.contentcodesname";

/// Name of an entry's kind, as a number.
pub const CONTENT_CODE_TYPE: &'static str = "dmap.contentcodestype";

/// Entries whose declared kind is wrong in the published dictionary.
pub const EDIT_COMMANDS_SUPPORTED: &'static str = "dmap.editcommandssupported";

/// See `EDIT_COMMANDS_SUPPORTED`.
pub const AUTHENTICATION_SCHEMES: &'static str = "dmap.authenticationschemes";

/// See `EDIT_COMMANDS_SUPPORTED`.
pub const ITMS_PLAYLIST_ID: &'static str = "com.apple.itunes.itms-playlistid";

/// See `EDIT_COMMANDS_SUPPORTED`.
pub const RENTAL_PB_START: &'static str = "com.apple.itunes.rental-pb-start";

/// See `EDIT_COMMANDS_SUPPORTED`.
pub const ITEM_DATE_PLAYED: &'static str = "dmap.itemdateplayed";

/// Four bytes as a tag.
pub open spec fn tag4(a: u8, b: u8, c: u8, d: u8) -> Seq<u8> {
    seq![a, b, c, d]
}

/// The dictionary that reads the message describing the full one.
pub open spec fn seed_codes() -> Seq<CodeModel> {
    seq![
        CodeModel {
            code: tag4(0x6d, 0x63, 0x63, 0x72),
            name: CONTENT_CODES_RESPONSE@,
            kind: TypeKind::Container,
        },
        CodeModel {
            code: tag4(0x6d, 0x73, 0x74, 0x74),
            name: STATUS@,
            kind: TypeKind::U32,
        },
        CodeModel {
            code: tag4(0x6d, 0x64, 0x63, 0x6c),
            name: DICTIONARY@,
            kind: TypeKind::Container,
        },
        CodeModel {
            code: tag4(0x6d, 0x63, 0x6e, 0x6d),
            name: CONTENT_CODE_NUMBER@,
            kind: TypeKind::U32,
        },
        CodeModel {
            code: tag4(0x6d, 0x63, 0x6e, 0x61),
            name: CONTENT_CODE_NAME@,
            kind: TypeKind::String,
        },
        CodeModel {
            code: tag4(0x6d, 0x63, 0x74, 0x79),
            name: CONTENT_CODE_TYPE@,
            kind: TypeKind::U16,
        },
    ]
}

/// `i` is the first of `items` named `name`.
pub open spec fn first_named(items: Seq<ItemModel>, name: Seq<char>, i: int) -> bool {
    &&& 0 <= i < items.len()
    &&& items[i].name == NameModel::Name(name)
    &&& forall|j: int| 0 <= j < i ==> items[j].name != NameModel::Name(name)
}

/// The value of the first of `items` named `name`.
pub open spec fn field(items: Seq<ItemModel>, name: Seq<char>) -> Option<ValueModel> {
    if exists|i: int| first_named(items, name, i) {
        Some(items[choose|i: int| first_named(items, name, i)].value)
    } else {
        None
    }
}

/// The entry that one `dmap.dictionary` container describes.
pub open spec fn entry_of(v: ValueModel) -> Result<CodeModel, Error> {
    match v {
        ValueModel::Container(fields) => match (
            field(fields, CONTENT_CODE_NUMBER@),
            field(fields, CONTENT_CODE_NAME@),
            field(fields, CONTENT_CODE_TYPE@),
        ) {
            (Some(ValueModel::U32(n)), Some(ValueModel::Str(s)), Some(ValueModel::U16(t))) => {
                match kind_of_number(t as int) {
                    Some(k) => Ok(CodeModel { code: be_bytes(n as nat, 4), name: s, kind: k }),
                    None => Err(Error::UnknownTypeKind),
                }
            },
            _ => Err(Error::BootstrapFailure),
        },
        _ => Err(Error::BootstrapFailure),
    }
}

/// The entries that the `dmap.dictionary` items among `items` describe,
/// in order, or the error of the first that describes none.
pub open spec fn entries_of(items: Seq<ItemModel>) -> Result<Seq<CodeModel>, Error>
    decreases items.len(),
{
    if items.len() == 0 {
        Ok(Seq::empty())
    } else {
        match entries_of(items.drop_last()) {
            Err(e) => Err(e),
            Ok(prev) => if items.last().name == NameModel::Name(DICTIONARY@) {
                match entry_of(items.last().value) {
                    Ok(c) => Ok(prev.push(c)),
                    Err(e) => Err(e),
                }
            } else {
                Ok(prev)
            },
        }
    }
}

/// `codes` with the first entry named `name` set to kind `k`; it must exist.
pub open spec fn with_kind(codes: Seq<CodeModel>, name: Seq<char>, k: TypeKind) -> Result<
    Seq<CodeModel>,
    Error,
> {
    match lookup_name(codes, name) {
        Some(i) => Ok(
            codes.update(i, CodeModel { code: codes[i].code, name: codes[i].name, kind: k }),
        ),
        None => Err(Error::BootstrapFailure),
    }
}

/// `with_kind` after a step that may have failed.
pub open spec fn then_kind(
    r: Result<Seq<CodeModel>, Error>,
    name: Seq<char>,
    k: TypeKind,
) -> Result<Seq<CodeModel>, Error> {
    match r {
        Ok(codes) => with_kind(codes, name, k),
        Err(e) => Err(e),
    }
}

/// The published dictionary with the kinds it declares wrongly put right.
pub open spec fn corrected(codes: Seq<CodeModel>) -> Result<Seq<CodeModel>, Error> {
    then_kind(
        then_kind(
            then_kind(
                then_kind(
                    with_kind(codes, EDIT_COMMANDS_SUPPORTED@, TypeKind::I16),
                    AUTHENTICATION_SCHEMES@,
                    TypeKind::I8,
                ),
                ITMS_PLAYLIST_ID@,
                TypeKind::I64,
            ),
            RENTAL_PB_START@,
            TypeKind::String,
        ),
        ITEM_DATE_PLAYED@,
        TypeKind::I32,
    )
}

/// The dictionary that a content-codes message describes: the entries of
/// its response, whose status must be 200, corrected.
pub open spec fn bootstrap_of(b: Seq<u8>) -> Result<Seq<CodeModel>, Error> {
    match items_of(b, seed_codes()) {
        Err(e) => Err(e),
        Ok(top) => match field(top, CONTENT_CODES_RESPONSE@) {
            Some(ValueModel::Container(inner)) => match entries_of(inner) {
                Err(e) => Err(e),
                Ok(codes) => if field(inner, STATUS@) == Some(ValueModel::U32(200)) {
                    corrected(codes)
                } else {
                    Err(Error::BootstrapFailure)
                },
            },
            _ => Err(Error::BootstrapFailure),
        },
    }
}

/// An error met in a prefix of `s` is the error of the whole.
proof fn lemma_entries_prefix_err(s: Seq<ItemModel>, j: int)
    requires
        0 <= j <= s.len(),
        entries_of(s.take(j)) is Err,
    ensures
        entries_of(s) == entries_of(s.take(j)),
    decreases s.len(),
{
    if j < s.len() {
        assert(s.drop_last().take(j) =~= s.take(j));
        lemma_entries_prefix_err(s.drop_last(), j);
    } else {
        assert(s.take(j) =~= s);
    }
}

/// Whether `n` is the name `name`.
fn is_named(n: &ItemName, name: &str) -> (r: bool)
    ensures
        r == (n@ == NameModel::Name(name@)),
{
    match n {
        ItemName::Name(s) => same_text(s.as_str(), name),
        ItemName::Code(_) => false,
    }
}

/// The position of the first of `items` named `name`.
fn find_field(items: &Vec<DmapItem>, name: &str) -> (r: Option<usize>)
    ensures
        r matches Some(i) ==> i < items@.len(),
        r matches Some(i) ==> first_named(items_view(items@), name@, i as int) && field(
            items_view(items@),
            name@,
        ) == Some(items@[i as int].value@),
        r is None ==> field(items_view(items@), name@) is None,
{
    proof {
        lemma_items_view(items@);
    }
    let ghost iv = items_view(items@);
    let mut i: usize = 0;
    while i < items.len()
        invariant
            iv == items_view(items@),
            iv.len() == items@.len(),
            forall|k: int| 0 <= k < items@.len() ==> #[trigger] iv[k] == items@[k]@,
            i <= items@.len(),
            forall|j: int| 0 <= j < i ==> iv[j].name != NameModel::Name(name@),
        decreases items@.len() - i,
    {
        if is_named(&items[i].name, name) {
            assert(first_named(iv, name@, i as int));
            return Some(i);
        }
        i = i + 1;
    }
    None
}

/// The entry that one `dmap.dictionary` value describes.
fn entry_from(v: &DmapValue) -> (r: Result<ContentCode, Error>)
    ensures
        match entry_of(v@) {
            Ok(c) => r matches Ok(x) && x@ == c,
            Err(e) => r matches Err(x) && x == e,
        },
{
    match v {
        DmapValue::Container(fields) => {
            let number = match find_field(fields, CONTENT_CODE_NUMBER) {
                Some(i) => match &fields[i].value {
                    DmapValue::U32(n) => *n,
                    _ => return Err(Error::BootstrapFailure),
                },
                None => return Err(Error::BootstrapFailure),
            };
            let name = match find_field(fields, CONTENT_CODE_NAME) {
                Some(i) => match &fields[i].value {
                    DmapValue::String(s) => s.clone(),
                    _ => return Err(Error::BootstrapFailure),
                },
                None => return Err(Error::BootstrapFailure),
            };
            let number_of_kind = match find_field(fields, CONTENT_CODE_TYPE) {
                Some(i) => match &fields[i].value {
                    DmapValue::U16(t) => *t,
                    _ => return Err(Error::BootstrapFailure),
                },
                None => return Err(Error::BootstrapFailure),
            };
            let kind = match TypeKind::from_number(number_of_kind) {
                Some(k) => k,
                None => return Err(Error::UnknownTypeKind),
            };
            let code = u32_be(number);
            proof {
                lemma_be_bytes_unique(code@, number as nat, 4);
            }
            Ok(ContentCode { code, name, kind })
        },
        _ => Err(Error::BootstrapFailure),
    }
}

impl Parser {
    /// The dictionary that reads the message describing the full one.
    fn seed() -> (r: Parser)
        ensures
            r@ == seed_codes(),
    {
        let mut types: Vec<ContentCode> = Vec::new();
        types.push(
            ContentCode {
                code: [0x6d, 0x63, 0x63, 0x72],
                name: String::from_str(CONTENT_CODES_RESPONSE),
                kind: TypeKind::Container,
            },
        );
        types.push(
            ContentCode {
                code: [0x6d, 0x73, 0x74, 0x74],
                name: String::from_str(STATUS),
                kind: TypeKind::U32,
            },
        );
        types.push(
            ContentCode {
                code: [0x6d, 0x64, 0x63, 0x6c],
                name: String::from_str(DICTIONARY),
                kind: TypeKind::Container,
            },
        );
        types.push(
            ContentCode {
                code: [0x6d, 0x63, 0x6e, 0x6d],
                name: String::from_str(CONTENT_CODE_NUMBER),
                kind: TypeKind::U32,
            },
        );
        types.push(
            ContentCode {
                code: [0x6d, 0x63, 0x6e, 0x61],
                name: String::from_str(CONTENT_CODE_NAME),
                kind: TypeKind::String,
            },
        );
        types.push(
            ContentCode {
                code: [0x6d, 0x63, 0x74, 0x79],
                name: String::from_str(CONTENT_CODE_TYPE),
                kind: TypeKind::U16,
            },
        );
        let r = Parser { types };
        assert(r@ =~= seed_codes());
        r
    }

    /// Sets the kind of the first entry named `name`, which must exist.
    fn override_kind(&mut self, name: &str, k: TypeKind) -> (r: Result<(), Error>)
        ensures
            match with_kind(old(self)@, name@, k) {
                Ok(c) => r is Ok && final(self)@ == c,
                Err(e) => r matches Err(x) && x == e && final(self)@ == old(self)@,
            },
    {
        match self.find_name(name) {
            Some(i) => {
                self.types[i].kind = k;
                assert(self@ =~= old(self)@.update(
                    i as int,
                    CodeModel {
                        code: old(self)@[i as int].code,
                        name: old(self)@[i as int].name,
                        kind: k,
                    },
                ));
                Ok(())
            },
            None => Err(Error::BootstrapFailure),
        }
    }

    /// Builds the dictionary from a content-codes message: reads it with
    /// the seed dictionary, takes each `dmap.dictionary` entry of the
    /// response (whose status must be 200) and corrects the kinds that the
    /// published dictionary declares wrongly. Nothing is returned on
    /// failure.
    pub fn new(content_codes: &[u8]) -> (r: Result<Parser, Error>)
        ensures
            match bootstrap_of(content_codes@) {
                Ok(d) => r matches Ok(p) && p@ == d,
                Err(e) => r matches Err(x) && x == e,
            },
    {
        let seed = Parser::seed();
        let top = match decode_items(&seed, content_codes) {
            Ok(t) => t,
            Err(e) => return Err(e),
        };
        let inner = match find_field(&top, CONTENT_CODES_RESPONSE) {
            Some(i) => match &top[i].value {
                DmapValue::Container(inner) => inner,
                _ => return Err(Error::BootstrapFailure),
            },
            None => return Err(Error::BootstrapFailure),
        };
        proof {
            lemma_items_view(inner@);
        }
        let ghost iv = items_view(inner@);
        assert(field(items_view(top@), CONTENT_CODES_RESPONSE@) == Some(ValueModel::Container(iv)));
        let mut types: Vec<ContentCode> = Vec::new();
        let mut i: usize = 0;
        assert(iv.take(0) =~= Seq::<ItemModel>::empty());
        assert(codes_view(types@) =~= Seq::<CodeModel>::empty());
        while i < inner.len()
            invariant
                items_of(content_codes@, seed_codes()) == Ok::<Seq<ItemModel>, Error>(
                    items_view(top@),
                ),
                field(items_view(top@), CONTENT_CODES_RESPONSE@) == Some(ValueModel::Container(iv)),
                iv == items_view(inner@),
                iv.len() == inner@.len(),
                forall|k: int| 0 <= k < inner@.len() ==> #[trigger] iv[k] == inner@[k]@,
                i <= inner@.len(),
                entries_of(iv.take(i as int)) == Ok::<Seq<CodeModel>, Error>(codes_view(types@)),
            decreases inner@.len() - i,
        {
            let ghost t = iv.take(i + 1);
            assert(t.drop_last() =~= iv.take(i as int));
            if is_named(&inner[i].name, DICTIONARY) {
                match entry_from(&inner[i].value) {
                    Ok(c) => {
                        let ghost before = types@;
                        types.push(c);
                        assert(codes_view(types@) =~= codes_view(before).push(c@));
                    },
                    Err(e) => {
                        proof {
                            assert(t.last() == inner@[i as int]@);
                            assert(entries_of(t) == Err::<Seq<CodeModel>, Error>(e));
                            lemma_entries_prefix_err(iv, i as int + 1);
                        }
                        return Err(e);
                    },
                }
            }
            i = i + 1;
        }
        assert(iv.take(i as int) =~= iv);
        match find_field(inner, STATUS) {
            Some(j) => match &inner[j].value {
                DmapValue::U32(x) => if *x != 200 {
                    return Err(Error::BootstrapFailure);
                },
                _ => return Err(Error::BootstrapFailure),
            },
            None => return Err(Error::BootstrapFailure),
        }
        let mut parser = Parser { types };
        match parser.override_kind(EDIT_COMMANDS_SUPPORTED, TypeKind::I16) {
            Ok(()) => {},
            Err(e) => return Err(e),
        }
        match parser.override_kind(AUTHENTICATION_SCHEMES, TypeKind::I8) {
            Ok(()) => {},
            Err(e) => return Err(e),
        }
        match parser.override_kind(ITMS_PLAYLIST_ID, TypeKind::I64) {
            Ok(()) => {},
            Err(e) => return Err(e),
        }
        match parser.override_kind(RENTAL_PB_START, TypeKind::String) {
            Ok(()) => {},
            Err(e) => return Err(e),
        }
        match parser.override_kind(ITEM_DATE_PLAYED, TypeKind::I32) {
            Ok(()) => {},
            Err(e) => return Err(e),
        }
        Ok(parser)
    }
}

} // verus!
