//! The partition table: up to 95 records of 32 bytes, each describing one
//! region of the flash, followed by a hash of 32 bytes.

use crate::error::DecodeError;
use crate::primitives::{
    first_nul, le_u32, le_u32_value, le_u8, string_from_utf8_lossy, take_bytes, utf8_lossy,
};
use crate::text::{hex_digits, hex_string};
use vstd::prelude::*;
use vstd::slice::slice_subrange;
use vstd::utf8::{decode_utf8, valid_utf8};

verus! {

/// Size of a partition record, and of the hash, in bytes.
pub const RECORD_SIZE: usize = 32;

/// The most partition records that a table holds.
pub const MAX_PARTITIONS: usize = 95;

/// What a partition is used for.
#[derive(Debug, Clone, Copy, PartialEq, Eq, Structural)]
pub enum PartitionType {
    App,
    Data,
    Any,
    /// A type outside the core ones, in the range 64 to 254.
    Custom(u8),
    /// A value in the reserved range that names no type.
    Invalid(u8),
}

/// The partition type that the value `value` stands for.
pub open spec fn partition_type_spec(value: u8) -> PartitionType {
    if value == 0 {
        PartitionType::App
    } else if value == 1 {
        PartitionType::Data
    } else if 64 <= value <= 254 {
        PartitionType::Custom(value)
    } else if value == 255 {
        PartitionType::Any
    } else {
        PartitionType::Invalid(value)
    }
}

impl From<u8> for PartitionType {
    fn from(value: u8) -> (r: Self) {
        match value {
            0 => Self::App,
            1 => Self::Data,
            64..=254 => Self::Custom(value),
            255 => Self::Any,
            _ => Self::Invalid(value),
        }
    }
}

impl vstd::std_specs::convert::FromSpecImpl<u8> for PartitionType {
    open spec fn obeys_from_spec() -> bool {
        true
    }

    open spec fn from_spec(value: u8) -> Self {
        partition_type_spec(value)
    }
}

/// What a partition of a given type holds.
#[derive(Debug, Clone, Copy, PartialEq, Eq, Structural)]
pub enum Subtype {
    AppFactory,
    AppOta0,
    AppOta1,
    AppOta2,
    AppOta3,
    AppOta4,
    AppOta5,
    AppOta6,
    AppOta7,
    AppOta8,
    AppOta9,
    AppOta10,
    AppOta11,
    AppOta12,
    AppOta13,
    AppOta14,
    AppOta15,
    AppTest,
    DataOta,
    DataPhy,
    DataNvs,
    DataCoreDump,
    DataNvsKeys,
    DataEfuse,
    DataEspHttpd,
    DataFat,
    DataSpiffs,
    Any,
    Invalid(u8),
    Custom(u8),
}

/// The subtype of an app partition that holds OTA slot `slot`, for slots 0
/// to 15.
pub open spec fn app_ota(slot: int) -> Subtype {
    if slot == 0 {
        Subtype::AppOta0
    } else if slot == 1 {
        Subtype::AppOta1
    } else if slot == 2 {
        Subtype::AppOta2
    } else if slot == 3 {
        Subtype::AppOta3
    } else if slot == 4 {
        Subtype::AppOta4
    } else if slot == 5 {
        Subtype::AppOta5
    } else if slot == 6 {
        Subtype::AppOta6
    } else if slot == 7 {
        Subtype::AppOta7
    } else if slot == 8 {
        Subtype::AppOta8
    } else if slot == 9 {
        Subtype::AppOta9
    } else if slot == 10 {
        Subtype::AppOta10
    } else if slot == 11 {
        Subtype::AppOta11
    } else if slot == 12 {
        Subtype::AppOta12
    } else if slot == 13 {
        Subtype::AppOta13
    } else if slot == 14 {
        Subtype::AppOta14
    } else {
        Subtype::AppOta15
    }
}

/// The subtype that the value `v` stands for in a partition of type `t`.
pub open spec fn subtype_spec(t: PartitionType, v: u8) -> Subtype {
    match t {
        PartitionType::App => if v == 0 {
            Subtype::AppFactory
        } else if 16 <= v <= 31 {
            app_ota(v - 16)
        } else if v == 32 {
            Subtype::AppTest
        } else {
            Subtype::Invalid(v)
        },
        PartitionType::Data => if v == 0 {
            Subtype::DataOta
        } else if v == 1 {
            Subtype::DataPhy
        } else if v == 2 {
            Subtype::DataNvs
        } else if v == 3 {
            Subtype::DataCoreDump
        } else if v == 4 {
            Subtype::DataNvsKeys
        } else if v == 5 {
            Subtype::DataEfuse
        } else if v == 128 {
            Subtype::DataEspHttpd
        } else if v == 129 {
            Subtype::DataFat
        } else if v == 130 {
            Subtype::DataSpiffs
        } else {
            Subtype::Invalid(v)
        },
        PartitionType::Custom(_) => if v == 255 {
            Subtype::Any
        } else {
            Subtype::Custom(v)
        },
        PartitionType::Invalid(_) => Subtype::Invalid(v),
        PartitionType::Any => Subtype::Any,
    }
}

impl Subtype {
    /// The subtype that `subtype_value` stands for in a partition of type
    /// `partition_type`.
    pub fn new(partition_type: &PartitionType, subtype_value: u8) -> (r: Subtype)
        ensures
            r == subtype_spec(*partition_type, subtype_value),
    {
        match partition_type {
            PartitionType::App => match subtype_value {
                0 => Subtype::AppFactory,
                16 => Subtype::AppOta0,
                17 => Subtype::AppOta1,
                18 => Subtype::AppOta2,
                19 => Subtype::AppOta3,
                20 => Subtype::AppOta4,
                21 => Subtype::AppOta5,
                22 => Subtype::AppOta6,
                23 => Subtype::AppOta7,
                24 => Subtype::AppOta8,
                25 => Subtype::AppOta9,
                26 => Subtype::AppOta10,
                27 => Subtype::AppOta11,
                28 => Subtype::AppOta12,
                29 => Subtype::AppOta13,
                30 => Subtype::AppOta14,
                31 => Subtype::AppOta15,
                32 => Subtype::AppTest,
                _ => Subtype::Invalid(subtype_value),
            },
            PartitionType::Data => match subtype_value {
                0 => Subtype::DataOta,
                1 => Subtype::DataPhy,
                2 => Subtype::DataNvs,
                3 => Subtype::DataCoreDump,
                4 => Subtype::DataNvsKeys,
                5 => Subtype::DataEfuse,
                128 => Subtype::DataEspHttpd,
                129 => Subtype::DataFat,
                130 => Subtype::DataSpiffs,
                _ => Subtype::Invalid(subtype_value),
            },
            PartitionType::Custom(_) => match subtype_value {
                0..=254 => Subtype::Custom(subtype_value),
                255 => Subtype::Any,
            },
            PartitionType::Invalid(_) => Subtype::Invalid(subtype_value),
            PartitionType::Any => Subtype::Any,
        }
    }
}

/// The text that stands for a partition type: the name of a core type, and
/// the value in hexadecimal of any other.
pub open spec fn partition_type_text(t: PartitionType) -> Seq<char> {
    match t {
        PartitionType::App => "app"@,
        PartitionType::Data => "data"@,
        PartitionType::Any => hex_digits(255),
        PartitionType::Custom(v) => hex_digits(v as nat),
        PartitionType::Invalid(v) => hex_digits(v as nat),
    }
}

impl PartitionType {
    /// The partition type as text.
    pub fn to_string(&self) -> (r: String)
        ensures
            r@ == partition_type_text(*self),
    {
        match self {
            Self::App => "app".to_owned(),
            Self::Data => "data".to_owned(),
            Self::Any => hex_string(255),
            Self::Custom(i) => hex_string(*i),
            Self::Invalid(i) => hex_string(*i),
        }
    }
}

/// The text that stands for a subtype: its name, and for a value without a
/// name the value in hexadecimal.
pub open spec fn subtype_text(t: Subtype) -> Seq<char> {
    match t {
        Subtype::AppFactory => "factory"@,
        Subtype::AppOta0 => "ota_0"@,
        Subtype::AppOta1 => "ota_1"@,
        Subtype::AppOta2 => "ota_2"@,
        Subtype::AppOta3 => "ota_3"@,
        Subtype::AppOta4 => "ota_4"@,
        Subtype::AppOta5 => "ota_5"@,
        Subtype::AppOta6 => "ota_6"@,
        Subtype::AppOta7 => "ota_7"@,
        Subtype::AppOta8 => "ota_8"@,
        Subtype::AppOta9 => "ota_9"@,
        Subtype::AppOta10 => "ota_10"@,
        Subtype::AppOta11 => "ota_11"@,
        Subtype::AppOta12 => "ota_12"@,
        Subtype::AppOta13 => "ota_13"@,
        Subtype::AppOta14 => "ota_14"@,
        Subtype::AppOta15 => "ota_15"@,
        Subtype::AppTest => "test"@,
        Subtype::DataOta => "ota"@,
        Subtype::DataPhy => "phy"@,
        Subtype::DataNvs => "nvs"@,
        Subtype::DataCoreDump => "coredump"@,
        Subtype::DataNvsKeys => "nvs_keys"@,
        Subtype::DataEfuse => "efuse"@,
        Subtype::DataEspHttpd => "esphttpd"@,
        Subtype::DataFat => "fat"@,
        Subtype::DataSpiffs => "spiffs"@,
        Subtype::Any => "0xff"@,
        Subtype::Invalid(v) => hex_digits(v as nat),
        Subtype::Custom(v) => hex_digits(v as nat),
    }
}

impl Subtype {
    /// The subtype as text.
    pub fn to_string(&self) -> (r: String)
        ensures
            r@ == subtype_text(*self),
    {
        match self {
            Self::AppFactory => "factory".to_owned(),
            Self::AppOta0 => "ota_0".to_owned(),
            Self::AppOta1 => "ota_1".to_owned(),
            Self::AppOta2 => "ota_2".to_owned(),
            Self::AppOta3 => "ota_3".to_owned(),
            Self::AppOta4 => "ota_4".to_owned(),
            Self::AppOta5 => "ota_5".to_owned(),
            Self::AppOta6 => "ota_6".to_owned(),
            Self::AppOta7 => "ota_7".to_owned(),
            Self::AppOta8 => "ota_8".to_owned(),
            Self::AppOta9 => "ota_9".to_owned(),
            Self::AppOta10 => "ota_10".to_owned(),
            Self::AppOta11 => "ota_11".to_owned(),
            Self::AppOta12 => "ota_12".to_owned(),
            Self::AppOta13 => "ota_13".to_owned(),
            Self::AppOta14 => "ota_14".to_owned(),
            Self::AppOta15 => "ota_15".to_owned(),
            Self::AppTest => "test".to_owned(),
            Self::DataOta => "ota".to_owned(),
            Self::DataPhy => "phy".to_owned(),
            Self::DataNvs => "nvs".to_owned(),
            Self::DataCoreDump => "coredump".to_owned(),
            Self::DataNvsKeys => "nvs_keys".to_owned(),
            Self::DataEfuse => "efuse".to_owned(),
            Self::DataEspHttpd => "esphttpd".to_owned(),
            Self::DataFat => "fat".to_owned(),
            Self::DataSpiffs => "spiffs".to_owned(),
            Self::Any => "0xff".to_owned(),
            Self::Invalid(i) => hex_string(*i),
            Self::Custom(i) => hex_string(*i),
        }
    }
}

/// What a partition record holds, as plain mathematical values.
pub struct PartitionModel {
    pub name: Seq<char>,
    pub partition_type: PartitionType,
    pub subtype: Subtype,
    pub offset: u32,
    pub size: u32,
    pub flags: u32,
}

/// One region of the flash, as the partition table describes it.
#[derive(Debug)]
pub struct Partition {
    name: String,
    partition_type: PartitionType,
    subtype: Subtype,
    offset: u32,
    size: u32,
    flags: u32,
}

impl View for Partition {
    type V = PartitionModel;

    closed spec fn view(&self) -> PartitionModel {
        PartitionModel {
            name: self.name@,
            partition_type: self.partition_type,
            subtype: self.subtype,
            offset: self.offset,
            size: self.size,
            flags: self.flags,
        }
    }
}

impl Clone for Partition {
    fn clone(&self) -> (r: Self)
        ensures
            r@ == self@,
    {
        Partition {
            name: self.name.clone(),
            partition_type: self.partition_type,
            subtype: self.subtype,
            offset: self.offset,
            size: self.size,
            flags: self.flags,
        }
    }
}

impl Partition {
    /// Puts a partition together from its fields.
    pub fn new(
        name: String,
        partition_type: PartitionType,
        subtype: Subtype,
        offset: u32,
        size: u32,
        flags: u32,
    ) -> (p: Partition)
        ensures
            p@ == (PartitionModel { name: name@, partition_type, subtype, offset, size, flags }),
    {
        Partition { name, partition_type, subtype, offset, size, flags }
    }

    /// The partition's name.
    pub fn name(&self) -> (r: &str)
        ensures
            r@ == self@.name,
    {
        self.name.as_str()
    }

    /// The partition's type.
    pub fn partition_type(&self) -> (r: PartitionType)
        ensures
            r == self@.partition_type,
    {
        self.partition_type
    }

    /// The partition's subtype.
    pub fn subtype(&self) -> (r: Subtype)
        ensures
            r == self@.subtype,
    {
        self.subtype
    }

    /// Where in the flash the partition starts.
    pub fn offset(&self) -> (r: u32)
        ensures
            r == self@.offset,
    {
        self.offset
    }

    /// The partition's size in bytes.
    pub fn size(&self) -> (r: u32)
        ensures
            r == self@.size,
    {
        self.size
    }

    /// The partition's flags.
    pub fn flags(&self) -> (r: u32)
        ensures
            r == self@.flags,
    {
        self.flags
    }
}

/// A partition record starts `s`: the two magic bytes, and 32 bytes in all.
pub open spec fn record_at(s: Seq<u8>) -> bool {
    s.len() >= RECORD_SIZE && s[0] == 0xaa && s[1] == 0x50
}

/// The text that bytes stand for: the text that they encode when they are
/// UTF-8, and else what the standard library's lossy conversion makes of
/// them.
pub open spec fn text_spec(bytes: Seq<u8>) -> Seq<char> {
    if valid_utf8(bytes) {
        decode_utf8(bytes)
    } else {
        utf8_lossy(bytes)
    }
}

/// The name that a name field holds: its bytes up to the first NUL as text,
/// and nothing when the field has no NUL.
pub open spec fn name_spec(field: Seq<u8>) -> Seq<char> {
    match field.index_of_first(0u8) {
        Some(n) => text_spec(field.take(n)),
        None => Seq::empty(),
    }
}

/// The partition that the record at the start of `s` describes.
pub open spec fn partition_spec(s: Seq<u8>) -> PartitionModel {
    let partition_type = partition_type_spec(s[2]);
    PartitionModel {
        name: name_spec(s.subrange(12, 28)),
        partition_type,
        subtype: subtype_spec(partition_type, s[3]),
        offset: le_u32_value(s.skip(4)) as u32,
        size: le_u32_value(s.skip(8)) as u32,
        flags: le_u32_value(s.skip(28)) as u32,
    }
}

/// Decodes a name field.
fn parse_name(field: &[u8]) -> (r: String)
    ensures
        r@ == name_spec(field@),
{
    match first_nul(field) {
        Some(end) => {
            proof {
                field@.index_of_first_ensures(0u8);
            }
            let text = slice_subrange(field, 0, end);
            assert(text@ =~= field@.take(end as int));
            string_from_utf8_lossy(text)
        },
        None => String::new(),
    }
}

/// Decodes the partition record at the start of `input`, if there is one,
/// and yields it with the input that follows it.
pub fn parse_partition(input: &[u8]) -> (r: Option<(&[u8], Partition)>)
    ensures
        match r {
            Some((rest, p)) => record_at(input@) && p@ == partition_spec(input@) && rest@
                == input@.skip(RECORD_SIZE as int),
            None => !record_at(input@),
        },
{
    if input.len() < RECORD_SIZE {
        return None;
    }
    let (cur, magic0) = match le_u8(input) {
        Some(x) => x,
        None => {
            return None;
        },
    };
    let (cur, magic1) = match le_u8(cur) {
        Some(x) => x,
        None => {
            return None;
        },
    };
    if magic0 != 0xaa || magic1 != 0x50 {
        return None;
    }
    let (cur, type_value) = match le_u8(cur) {
        Some(x) => x,
        None => {
            return None;
        },
    };
    let partition_type = PartitionType::from(type_value);
    let (cur, subtype_value) = match le_u8(cur) {
        Some(x) => x,
        None => {
            return None;
        },
    };
    let subtype = Subtype::new(&partition_type, subtype_value);
    assert(cur@ =~= input@.skip(4));
    let (cur, offset) = match le_u32(cur) {
        Some(x) => x,
        None => {
            return None;
        },
    };
    assert(cur@ =~= input@.skip(8));
    let (cur, size) = match le_u32(cur) {
        Some(x) => x,
        None => {
            return None;
        },
    };
    assert(cur@ =~= input@.skip(12));
    let (cur, name_raw) = match take_bytes(cur, 16) {
        Some(x) => x,
        None => {
            return None;
        },
    };
    assert(name_raw@ =~= input@.subrange(12, 28));
    let name = parse_name(name_raw.as_slice());
    assert(cur@ =~= input@.skip(28));
    let (cur, flags) = match le_u32(cur) {
        Some(x) => x,
        None => {
            return None;
        },
    };
    assert(cur@ =~= input@.skip(RECORD_SIZE as int));
    Some((cur, Partition::new(name, partition_type, subtype, offset, size, flags)))
}

/// Splits the 32 bytes of a hash off the front of `input`, if it has that
/// many.
pub fn parse_hash(input: &[u8]) -> (r: Option<(&[u8], Vec<u8>)>)
    ensures
        match r {
            Some((rest, hash)) => input@.len() >= RECORD_SIZE && hash@ == input@.take(
                RECORD_SIZE as int,
            ) && rest@ == input@.skip(RECORD_SIZE as int),
            None => input@.len() < RECORD_SIZE,
        },
{
    take_bytes(input, RECORD_SIZE)
}

/// The number of partition records that `s` starts with, counting no
/// more than `limit` of them.
pub open spec fn record_count(s: Seq<u8>, limit: nat) -> nat
    decreases limit,
{
    if limit == 0 || !record_at(s) {
        0
    } else {
        1 + record_count(s.skip(RECORD_SIZE as int), (limit - 1) as nat)
    }
}

/// What a partition table holds, as plain mathematical values.
pub struct PartitionTableModel {
    pub partitions: Seq<PartitionModel>,
    pub hash: Seq<u8>,
}

/// The partition table that `s` holds, or the reason why it holds none: the
/// partition records that `s` starts with, up to 95 of them, and the 32 bytes
/// after the last of them.
pub open spec fn table_spec(s: Seq<u8>) -> Result<PartitionTableModel, DecodeError> {
    let n = record_count(s, MAX_PARTITIONS as nat);
    if s.len() < RECORD_SIZE * n + RECORD_SIZE {
        Err(DecodeError::ShortInput)
    } else {
        Ok(
            PartitionTableModel {
                partitions: Seq::new(n, |i: int| partition_spec(s.skip(RECORD_SIZE * i))),
                hash: s.subrange(RECORD_SIZE * n, RECORD_SIZE * n + RECORD_SIZE),
            },
        )
    }
}

/// The models of a sequence of partitions.
pub open spec fn partition_models(partitions: Seq<Partition>) -> Seq<PartitionModel> {
    Seq::new(partitions.len(), |i: int| partitions[i]@)
}

/// A decoded partition table.
#[derive(Debug)]
pub struct PartitionTable {
    partitions: Vec<Partition>,
    hash: Vec<u8>,
}

impl View for PartitionTable {
    type V = PartitionTableModel;

    closed spec fn view(&self) -> PartitionTableModel {
        PartitionTableModel { partitions: partition_models(self.partitions@), hash: self.hash@ }
    }
}

impl Clone for PartitionTable {
    fn clone(&self) -> (r: Self)
        ensures
            r@ == self@,
    {
        proof {
            use_type_invariant(self);
        }
        let mut partitions: Vec<Partition> = Vec::new();
        let mut i: usize = 0;
        while i < self.partitions.len()
            invariant
                i <= self.partitions@.len(),
                partitions@.len() == i,
                forall|j: int| 0 <= j < i ==> (#[trigger] partitions@[j])@ == self.partitions@[j]@,
            decreases self.partitions@.len() - i,
        {
            partitions.push(self.partitions[i].clone());
            i += 1;
        }
        let hash = self.hash.clone();
        assert(hash@ =~= self.hash@);
        assert(partition_models(partitions@) =~= partition_models(self.partitions@));
        PartitionTable { partitions, hash }
    }
}

impl PartitionTable {
    #[verifier::type_invariant]
    spec fn sized(&self) -> bool {
        self.partitions@.len() <= MAX_PARTITIONS && self.hash@.len() == RECORD_SIZE
    }

    /// Decodes the partition table at the start of `input`.
    ///
    /// The table holds the partition records that `input` starts with, which
    /// may be none. Fails with `ShortInput` when fewer than 32 bytes follow
    /// the last record.
    pub fn new(input: &[u8]) -> (r: Result<PartitionTable, DecodeError>)
        ensures
            match r {
                Ok(table) => table_spec(input@) == Ok::<PartitionTableModel, DecodeError>(table@),
                Err(e) => table_spec(input@) == Err::<PartitionTableModel, DecodeError>(e),
            },
    {
        let mut partitions: Vec<Partition> = Vec::new();
        let mut cur = input;
        while partitions.len() < MAX_PARTITIONS
            invariant
                partitions@.len() <= MAX_PARTITIONS,
                RECORD_SIZE * partitions@.len() <= input@.len(),
                cur@ == input@.skip(RECORD_SIZE * partitions@.len()),
                record_count(input@, MAX_PARTITIONS as nat) == partitions@.len() + record_count(
                    cur@,
                    (MAX_PARTITIONS - partitions@.len()) as nat,
                ),
                forall|i: int|
                    0 <= i < partitions@.len() ==> (#[trigger] partitions@[i])@ == partition_spec(
                        input@.skip(RECORD_SIZE * i),
                    ),
            ensures
                record_count(input@, MAX_PARTITIONS as nat) == partitions@.len(),
            decreases MAX_PARTITIONS - partitions@.len(),
        {
            match parse_partition(cur) {
                Some((rest, p)) => {
                    assert(rest@ =~= input@.skip(RECORD_SIZE * (partitions@.len() + 1)));
                    partitions.push(p);
                    cur = rest;
                },
                None => {
                    break ;
                },
            }
        }
        let hash = match parse_hash(cur) {
            Some((_, hash)) => hash,
            None => {
                return Err(DecodeError::ShortInput);
            },
        };
        let ghost n = partitions@.len() as int;
        assert(hash@ =~= input@.subrange(RECORD_SIZE * n, RECORD_SIZE * n + RECORD_SIZE));
        assert(partition_models(partitions@) =~= Seq::new(
            n as nat,
            |i: int| partition_spec(input@.skip(RECORD_SIZE * i)),
        ));
        Ok(PartitionTable { partitions, hash })
    }

    /// The partitions, in the order of the table: at most 95.
    pub fn partitions(&self) -> (r: &[Partition])
        ensures
            partition_models(r@) == self@.partitions,
            r@.len() <= MAX_PARTITIONS,
    {
        proof {
            use_type_invariant(self);
        }
        self.partitions.as_slice()
    }

    /// The 32 bytes that follow the last partition. They are not verified.
    pub fn hash(&self) -> (r: &[u8])
        ensures
            r@ == self@.hash,
            r@.len() == RECORD_SIZE,
    {
        proof {
            use_type_invariant(self);
        }
        self.hash.as_slice()
    }
}

} // verus!
