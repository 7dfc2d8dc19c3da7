//! One 4096-byte page of an NVS image, as decoded.

use crate::error::DecodeError;
use vstd::prelude::*;

verus! {

/// Number of slot states that a page's bitmap holds.
pub const BITMAP_SLOTS: usize = 128;

/// Number of 32-byte slots that a page's payload holds.
pub const PAGE_SLOTS: usize = 126;

/// Size of one slot in bytes.
pub const SLOT_SIZE: usize = 32;

/// Size of a page's payload in bytes.
pub const PAYLOAD_SIZE: usize = 4032;

/// Size of a whole page in bytes.
pub const PAGE_SIZE: usize = 4096;

/// Number of reserved bytes in a page header.
pub const RESERVED_SIZE: usize = 19;

/// The life cycle state of a page.
#[derive(Debug, Clone, Copy, PartialEq, Eq, Structural)]
pub enum State {
    Empty,
    Active,
    Full,
    Erasing,
    Corrupted,
}

/// The state that a page's leading word denotes, if any.
pub open spec fn state_of_magic(val: u32) -> Option<State> {
    if val == 0xffff_ffff {
        Some(State::Empty)
    } else if val == 0xffff_fffe {
        Some(State::Active)
    } else if val == 0xffff_fffc {
        Some(State::Full)
    } else if val == 0xffff_fff8 {
        Some(State::Erasing)
    } else if val == 0xffff_fff0 {
        Some(State::Corrupted)
    } else {
        None
    }
}

impl TryFrom<u32> for State {
    type Error = DecodeError;

    fn try_from(val: u32) -> (r: Result<Self, DecodeError>) {
        match val {
            0xfffffff0 => Ok(Self::Corrupted),
            0xfffffff8 => Ok(Self::Erasing),
            0xfffffffc => Ok(Self::Full),
            0xfffffffe => Ok(Self::Active),
            0xffffffff => Ok(Self::Empty),
            _ => Err(DecodeError::UnknownPageState(val)),
        }
    }
}

impl vstd::std_specs::convert::TryFromSpecImpl<u32> for State {
    open spec fn obeys_try_from_spec() -> bool {
        true
    }

    open spec fn try_from_spec(val: u32) -> Result<Self, DecodeError> {
        match state_of_magic(val) {
            Some(s) => Ok(s),
            None => Err(DecodeError::UnknownPageState(val)),
        }
    }
}

/// The allocation state of one slot, as its two bits in the bitmap give it.
#[derive(Debug, Clone, Copy, PartialEq, Eq, Structural)]
pub enum EntryStateBitmap {
    Empty,
    Written,
    Erased,
}

/// The two bits that stand for a slot state.
pub open spec fn bits_of_slot_state(s: EntryStateBitmap) -> u8 {
    match s {
        EntryStateBitmap::Empty => 3,
        EntryStateBitmap::Written => 2,
        EntryStateBitmap::Erased => 0,
    }
}

/// The slot state that a two-bit value stands for, if any.
pub open spec fn slot_state_of_bits(val: u8) -> Option<EntryStateBitmap> {
    if val == 0 {
        Some(EntryStateBitmap::Erased)
    } else if val == 2 {
        Some(EntryStateBitmap::Written)
    } else if val == 3 {
        Some(EntryStateBitmap::Empty)
    } else {
        None
    }
}

/// The bitmap byte that holds the four slot states from position `4 * b` on:
/// two bits for each, the first in the least significant bits.
pub open spec fn bitmap_byte(states: Seq<EntryStateBitmap>, b: int) -> u8 {
    bits_of_slot_state(states[4 * b]) | bits_of_slot_state(states[4 * b + 1]) << 2
        | bits_of_slot_state(states[4 * b + 2]) << 4 | bits_of_slot_state(states[4 * b + 3]) << 6
}

/// The 32 bytes of the bitmap that holds the given 128 slot states.
pub open spec fn bitmap_bytes(states: Seq<EntryStateBitmap>) -> Seq<u8> {
    Seq::new((BITMAP_SLOTS / 4) as nat, |b: int| bitmap_byte(states, b))
}

/// A two-bit value that stands for no slot state.
#[derive(Debug, Clone, Copy, PartialEq, Eq, Structural)]
pub struct InvalidBitmapError {
    pub value: u8,
}

impl EntryStateBitmap {
    /// The two bits that stand for the state in a bitmap.
    pub fn bits(&self) -> (r: u8)
        ensures
            r == bits_of_slot_state(*self),
    {
        match self {
            EntryStateBitmap::Empty => 3,
            EntryStateBitmap::Written => 2,
            EntryStateBitmap::Erased => 0,
        }
    }
}

impl TryFrom<u8> for EntryStateBitmap {
    type Error = InvalidBitmapError;

    fn try_from(val: u8) -> (r: Result<Self, InvalidBitmapError>) {
        match val {
            0 => Ok(Self::Erased),
            2 => Ok(Self::Written),
            3 => Ok(Self::Empty),
            _ => Err(InvalidBitmapError { value: val }),
        }
    }
}

impl vstd::std_specs::convert::TryFromSpecImpl<u8> for EntryStateBitmap {
    open spec fn obeys_try_from_spec() -> bool {
        true
    }

    open spec fn try_from_spec(val: u8) -> Result<Self, InvalidBitmapError> {
        match slot_state_of_bits(val) {
            Some(s) => Ok(s),
            None => Err(InvalidBitmapError { value: val }),
        }
    }
}

/// What a page holds, as plain mathematical values.
pub struct PageModel {
    pub state: State,
    pub seq_no: u32,
    pub version: u8,
    pub unused: Seq<u8>,
    pub crc32: u32,
    pub entry_state_bitmap: Seq<EntryStateBitmap>,
    pub data: Seq<u8>,
}

impl PageModel {
    /// The sizes that every page has: 19 reserved bytes, 128 slot states and
    /// a payload of 126 slots of 32 bytes.
    pub open spec fn well_formed(self) -> bool {
        &&& self.unused.len() == RESERVED_SIZE
        &&& self.entry_state_bitmap.len() == BITMAP_SLOTS
        &&& self.data.len() == PAYLOAD_SIZE
    }
}

/// One decoded page of an NVS image.
#[derive(Debug)]
pub struct Page {
    state: State,
    seq_no: u32,
    version: u8,
    unused: Vec<u8>,
    crc32: u32,
    entry_state_bitmap: Vec<EntryStateBitmap>,
    data: Vec<u8>,
}

impl View for Page {
    type V = PageModel;

    closed spec fn view(&self) -> PageModel {
        PageModel {
            state: self.state,
            seq_no: self.seq_no,
            version: self.version,
            unused: self.unused@,
            crc32: self.crc32,
            entry_state_bitmap: self.entry_state_bitmap@,
            data: self.data@,
        }
    }
}

impl Clone for Page {
    fn clone(&self) -> (r: Self)
        ensures
            r@ == self@,
    {
        proof {
            use_type_invariant(self);
        }
        let unused = self.unused.clone();
        let entry_state_bitmap = self.entry_state_bitmap.clone();
        let data = self.data.clone();
        assert(unused@ =~= self.unused@);
        assert(entry_state_bitmap@ =~= self.entry_state_bitmap@);
        assert(data@ =~= self.data@);
        Page {
            state: self.state,
            seq_no: self.seq_no,
            version: self.version,
            unused,
            crc32: self.crc32,
            entry_state_bitmap,
            data,
        }
    }
}

impl Page {
    #[verifier::type_invariant]
    spec fn sized(&self) -> bool {
        self@.well_formed()
    }

    /// Puts a page together from its decoded fields.
    pub fn new(
        state: State,
        seq_no: u32,
        version: u8,
        unused: Vec<u8>,
        crc32: u32,
        entry_state_bitmap: Vec<EntryStateBitmap>,
        data: Vec<u8>,
    ) -> (p: Page)
        requires
            unused@.len() == RESERVED_SIZE,
            entry_state_bitmap@.len() == BITMAP_SLOTS,
            data@.len() == PAYLOAD_SIZE,
        ensures
            p@ == (PageModel {
                state,
                seq_no,
                version,
                unused: unused@,
                crc32,
                entry_state_bitmap: entry_state_bitmap@,
                data: data@,
            }),
    {
        Page { state, seq_no, version, unused, crc32, entry_state_bitmap, data }
    }

    /// The page's life cycle state.
    pub fn state(&self) -> (r: &State)
        ensures
            *r == self@.state,
    {
        &self.state
    }

    /// The page's sequence number.
    pub fn seq_no(&self) -> (r: u32)
        ensures
            r == self@.seq_no,
    {
        self.seq_no
    }

    /// The format version that the page was written with.
    pub fn version(&self) -> (r: u8)
        ensures
            r == self@.version,
    {
        self.version
    }

    /// The 19 reserved bytes of the header.
    pub fn unused(&self) -> (r: &[u8])
        ensures
            r@ == self@.unused,
            r@.len() == RESERVED_SIZE,
    {
        proof {
            use_type_invariant(self);
        }
        self.unused.as_slice()
    }

    /// The checksum stored in the header. It is not verified.
    pub fn crc32(&self) -> (r: u32)
        ensures
            r == self@.crc32,
    {
        self.crc32
    }

    /// The state of each of the 128 bitmap positions. Only the first 126
    /// stand for slots of the payload.
    pub fn entry_state_bitmap(&self) -> (r: &[EntryStateBitmap])
        ensures
            r@ == self@.entry_state_bitmap,
            r@.len() == BITMAP_SLOTS,
    {
        proof {
            use_type_invariant(self);
        }
        self.entry_state_bitmap.as_slice()
    }

    /// The 32 bytes of the slot-state bitmap, encoded anew from the decoded
    /// slot states.
    pub fn bitmap(&self) -> (r: Vec<u8>)
        ensures
            r@ == bitmap_bytes(self@.entry_state_bitmap),
    {
        proof {
            use_type_invariant(self);
        }
        let mut bytes: Vec<u8> = Vec::new();
        let mut b: usize = 0;
        while b < BITMAP_SLOTS / 4
            invariant
                b <= BITMAP_SLOTS / 4,
                self.entry_state_bitmap@.len() == BITMAP_SLOTS,
                bytes@.len() == b,
                forall|i: int|
                    0 <= i < b ==> bytes@[i] == bitmap_byte(self.entry_state_bitmap@, i),
            decreases BITMAP_SLOTS / 4 - b,
        {
            let first = self.entry_state_bitmap[4 * b].bits();
            let second = self.entry_state_bitmap[4 * b + 1].bits();
            let third = self.entry_state_bitmap[4 * b + 2].bits();
            let fourth = self.entry_state_bitmap[4 * b + 3].bits();
            bytes.push(first | second << 2 | third << 4 | fourth << 6);
            b += 1;
        }
        assert(bytes@ =~= bitmap_bytes(self.entry_state_bitmap@));
        bytes
    }

    /// The payload: 126 slots of 32 bytes each.
    pub fn data(&self) -> (r: &[u8])
        ensures
            r@ == self@.data,
            r@.len() == PAYLOAD_SIZE,
    {
        proof {
            use_type_invariant(self);
        }
        self.data.as_slice()
    }
}

} // verus!
