//! A record of the store: one key with its typed value, and where in the
//! image it was found.

use crate::text::{debug_string, debug_text, decimal, decimal_string};
use vstd::prelude::*;

verus! {

/// A value of a record, as plain mathematical values.
pub enum ValueModel {
    U8(u8),
    I8(i8),
    U16(u16),
    I16(i16),
    U32(u32),
    I32(i32),
    U64(u64),
    I64(i64),
    String(Seq<char>),
    Blob(Seq<u8>),
    BlobData(Seq<u8>),
    BlobIndex,
    Any,
    Raw { tag: u8, bytes: Seq<u8> },
}

/// The typed values that a record can hold.
#[derive(Debug)]
pub enum EntryType {
    U8(u8),
    I8(i8),
    U16(u16),
    I16(i16),
    U32(u32),
    I32(i32),
    U64(u64),
    I64(i64),
    String(String),
    /// A blob in the legacy layout, with its data.
    Blob(Vec<u8>),
    BlobData(Vec<u8>),
    BlobIndex,
    /// The type tag `0xff`, which stands for any type.
    Any,
    /// A record of a type whose payload is not interpreted: its tag, and all
    /// of its bytes after the key.
    Raw { tag: u8, bytes: Vec<u8> },
}

impl View for EntryType {
    type V = ValueModel;

    open spec fn view(&self) -> ValueModel {
        match *self {
            EntryType::U8(v) => ValueModel::U8(v),
            EntryType::I8(v) => ValueModel::I8(v),
            EntryType::U16(v) => ValueModel::U16(v),
            EntryType::I16(v) => ValueModel::I16(v),
            EntryType::U32(v) => ValueModel::U32(v),
            EntryType::I32(v) => ValueModel::I32(v),
            EntryType::U64(v) => ValueModel::U64(v),
            EntryType::I64(v) => ValueModel::I64(v),
            EntryType::String(v) => ValueModel::String(v@),
            EntryType::Blob(v) => ValueModel::Blob(v@),
            EntryType::BlobData(v) => ValueModel::BlobData(v@),
            EntryType::BlobIndex => ValueModel::BlobIndex,
            EntryType::Any => ValueModel::Any,
            EntryType::Raw { tag, bytes } => ValueModel::Raw { tag, bytes: bytes@ },
        }
    }
}

impl Clone for EntryType {
    fn clone(&self) -> (r: Self)
        ensures
            r@ == self@,
    {
        match self {
            Self::U8(v) => Self::U8(*v),
            Self::I8(v) => Self::I8(*v),
            Self::U16(v) => Self::U16(*v),
            Self::I16(v) => Self::I16(*v),
            Self::U32(v) => Self::U32(*v),
            Self::I32(v) => Self::I32(*v),
            Self::U64(v) => Self::U64(*v),
            Self::I64(v) => Self::I64(*v),
            Self::String(v) => Self::String(v.clone()),
            Self::Blob(v) => {
                let bytes = v.clone();
                assert(bytes@ =~= v@);
                Self::Blob(bytes)
            },
            Self::BlobData(v) => {
                let bytes = v.clone();
                assert(bytes@ =~= v@);
                Self::BlobData(bytes)
            },
            Self::BlobIndex => Self::BlobIndex,
            Self::Any => Self::Any,
            Self::Raw { tag, bytes } => {
                let copy = bytes.clone();
                assert(copy@ =~= bytes@);
                Self::Raw { tag: *tag, bytes: copy }
            },
        }
    }
}

/// The text that stands for a value: a number in decimal, a string as it
/// is, and the bytes of a blob or of a raw record as a list.
pub open spec fn value_text(v: ValueModel) -> Seq<char> {
    match v {
        ValueModel::U8(n) => decimal(n as int),
        ValueModel::I8(n) => decimal(n as int),
        ValueModel::U16(n) => decimal(n as int),
        ValueModel::I16(n) => decimal(n as int),
        ValueModel::U32(n) => decimal(n as int),
        ValueModel::I32(n) => decimal(n as int),
        ValueModel::U64(n) => decimal(n as int),
        ValueModel::I64(n) => decimal(n as int),
        ValueModel::String(text) => text,
        ValueModel::Blob(bytes) => debug_text(bytes),
        ValueModel::Raw { bytes, .. } => debug_text(bytes),
        _ => Seq::empty(),
    }
}

impl EntryType {
    /// The value as text. Blob chunks, blob indices and the value of any
    /// type have no text.
    pub fn to_string(&self) -> (r: String)
        requires
            !(self is BlobData),
            !(self is BlobIndex),
            !(self is Any),
        ensures
            r@ == value_text(self@),
    {
        match self {
            Self::U8(val) => decimal_string(*val as i128),
            Self::I8(val) => decimal_string(*val as i128),
            Self::U16(val) => decimal_string(*val as i128),
            Self::I16(val) => decimal_string(*val as i128),
            Self::U32(val) => decimal_string(*val as i128),
            Self::I32(val) => decimal_string(*val as i128),
            Self::U64(val) => decimal_string(*val as i128),
            Self::I64(val) => decimal_string(*val as i128),
            Self::String(val) => val.clone(),
            Self::Blob(val) => debug_string(val.as_slice()),
            Self::Raw { bytes, .. } => debug_string(bytes.as_slice()),
            _ => String::new(),
        }
    }
}

/// What a record holds, as plain mathematical values.
pub struct EntryModel {
    pub ns: u8,
    pub span: u8,
    pub chunk_index: u8,
    pub crc32: u32,
    pub key: Seq<char>,
    pub data: ValueModel,
    pub page: u8,
    pub start: u8,
    pub end: u8,
}

/// A whole record of the store, as opposed to one 32-byte slot of a page: it
/// names the page and the slots `start..end` that back it.
#[derive(Debug)]
pub struct Entry {
    ns: u8,
    span: u8,
    chunk_index: u8,
    crc32: u32,
    key: String,
    data: EntryType,
    page: u8,
    start: u8,
    end: u8,
}

impl View for Entry {
    type V = EntryModel;

    closed spec fn view(&self) -> EntryModel {
        EntryModel {
            ns: self.ns,
            span: self.span,
            chunk_index: self.chunk_index,
            crc32: self.crc32,
            key: self.key@,
            data: self.data@,
            page: self.page,
            start: self.start,
            end: self.end,
        }
    }
}

impl Clone for Entry {
    fn clone(&self) -> (r: Self)
        ensures
            r@ == self@,
    {
        Entry {
            ns: self.ns,
            span: self.span,
            chunk_index: self.chunk_index,
            crc32: self.crc32,
            key: self.key.clone(),
            data: self.data.clone(),
            page: self.page,
            start: self.start,
            end: self.end,
        }
    }
}

impl Entry {
    /// Puts a record together from its fields.
    pub fn new(
        ns: u8,
        span: u8,
        chunk_index: u8,
        crc32: u32,
        key: String,
        data: EntryType,
        page: u8,
        start: u8,
        end: u8,
    ) -> (e: Entry)
        ensures
            e@ == (EntryModel {
                ns,
                span,
                chunk_index,
                crc32,
                key: key@,
                data: data@,
                page,
                start,
                end,
            }),
    {
        Entry { ns, span, chunk_index, crc32, key, data, page, start, end }
    }

    /// The id of the namespace that the record belongs to; 0 for a record
    /// that declares a namespace.
    pub fn ns(&self) -> (r: u8)
        ensures
            r == self@.ns,
    {
        self.ns
    }

    /// The number of slots that the record occupies.
    pub fn span(&self) -> (r: u8)
        ensures
            r == self@.span,
    {
        self.span
    }

    /// The record's position within a blob of several chunks; `0xff` for a
    /// record that is not a chunk.
    pub fn chunk_index(&self) -> (r: u8)
        ensures
            r == self@.chunk_index,
    {
        self.chunk_index
    }

    /// The checksum stored with the record. It is not verified.
    pub fn crc32(&self) -> (r: u32)
        ensures
            r == self@.crc32,
    {
        self.crc32
    }

    /// The record's key.
    pub fn key(&self) -> (r: &str)
        ensures
            r@ == self@.key,
    {
        self.key.as_str()
    }

    /// Whether two records have the same key.
    pub fn same_key(&self, other: &Entry) -> (r: bool)
        ensures
            r == (self@.key == other@.key),
    {
        self.key == other.key
    }

    /// The record's value.
    pub fn data(&self) -> (r: &EntryType)
        ensures
            r@ == self@.data,
    {
        &self.data
    }

    /// The index of the page that holds the record.
    pub fn page(&self) -> (r: u8)
        ensures
            r == self@.page,
    {
        self.page
    }

    /// The first slot of the record.
    pub fn start(&self) -> (r: u8)
        ensures
            r == self@.start,
    {
        self.start
    }

    /// The slot after the record's last one.
    pub fn end(&self) -> (r: u8)
        ensures
            r == self@.end,
    {
        self.end
    }
}

} // verus!
