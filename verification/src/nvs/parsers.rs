//! The byte layout of pages and records, and the decoders for both.

use crate::error::DecodeError;
use crate::nvs::event::{Entry, EntryModel, EntryType, ValueModel};
use crate::nvs::page::{
    bitmap_byte, bitmap_bytes, bits_of_slot_state, slot_state_of_bits, state_of_magic,
    EntryStateBitmap, Page, PageModel, State, BITMAP_SLOTS, PAGE_SIZE, PAGE_SLOTS, PAYLOAD_SIZE,
    RESERVED_SIZE, SLOT_SIZE,
};
use crate::primitives::{
    first_nul, le_i16, le_i32, le_i64, le_i8, le_u16, le_u16_value, le_u32, le_u32_value, le_u64,
    le_u64_value, le_u8, lemma_le_values, string_from_utf8, take_bytes, twos_complement,
};
use vstd::prelude::*;
use vstd::slice::{slice_subrange, slice_to_vec};
use vstd::utf8::{decode_utf8, valid_utf8};

verus! {

/// Offset of the slot-state bitmap within a page.
pub const BITMAP_OFFSET: usize = 32;

/// Offset of the payload within a page.
pub const PAYLOAD_OFFSET: usize = 64;

/// The `j`-th 32-bit word of a bitmap, read little-endian.
pub open spec fn bitmap_word(bitmap: Seq<u8>, j: int) -> u32 {
    le_u32_value(bitmap.skip(4 * j)) as u32
}

/// The two bits that a bitmap holds for position `k`: bitmap words in
/// order, and within a word the positions from the least significant bits
/// up.
pub open spec fn slot_bits(bitmap: Seq<u8>, k: int) -> u8 {
    ((bitmap_word(bitmap, k / 16) >> ((2 * (k % 16)) as u32)) & 3) as u8
}

/// No position of the bitmap holds the undefined pattern `0b01`.
pub open spec fn bitmap_valid(bitmap: Seq<u8>) -> bool {
    forall|k: int|
        0 <= k < BITMAP_SLOTS ==> slot_state_of_bits(#[trigger] slot_bits(bitmap, k)) is Some
}

/// The 128 slot states that a valid bitmap denotes.
pub open spec fn bitmap_states(bitmap: Seq<u8>) -> Seq<EntryStateBitmap> {
    Seq::new(BITMAP_SLOTS as nat, |k: int| slot_state_of_bits(slot_bits(bitmap, k))->0)
}

/// The page that the first 4096 bytes of `s` denote, or the reason why they
/// denote none.
pub open spec fn page_spec(s: Seq<u8>) -> Result<PageModel, DecodeError> {
    let magic = le_u32_value(s) as u32;
    let bitmap = s.subrange(BITMAP_OFFSET as int, PAYLOAD_OFFSET as int);
    if s.len() < PAGE_SIZE {
        Err(DecodeError::ShortInput)
    } else if state_of_magic(magic) is None {
        Err(DecodeError::UnknownPageState(magic))
    } else if !bitmap_valid(bitmap) {
        Err(DecodeError::MalformedBitmap(1))
    } else {
        Ok(
            PageModel {
                state: state_of_magic(magic)->0,
                seq_no: le_u32_value(s.skip(4)) as u32,
                version: s[8],
                unused: s.subrange(9, 28),
                crc32: le_u32_value(s.skip(28)) as u32,
                entry_state_bitmap: bitmap_states(bitmap),
                data: s.subrange(PAYLOAD_OFFSET as int, PAGE_SIZE as int),
            },
        )
    }
}

/// The two bits at each position of a bitmap word are two bits of one of
/// the four bytes that the word is read from.
proof fn lemma_word_bits(b0: u8, b1: u8, b2: u8, b3: u8, w: u32)
    by (bit_vector)
    requires
        w == b0 as u32 + 0x100u32 * (b1 as u32) + 0x1_0000u32 * (b2 as u32) + 0x100_0000u32 * (
        b3 as u32),
    ensures
        ((w >> 0u32) & 3) as u8 == (b0 >> 0u8) & 3,
        ((w >> 2u32) & 3) as u8 == (b0 >> 2u8) & 3,
        ((w >> 4u32) & 3) as u8 == (b0 >> 4u8) & 3,
        ((w >> 6u32) & 3) as u8 == (b0 >> 6u8) & 3,
        ((w >> 8u32) & 3) as u8 == (b1 >> 0u8) & 3,
        ((w >> 10u32) & 3) as u8 == (b1 >> 2u8) & 3,
        ((w >> 12u32) & 3) as u8 == (b1 >> 4u8) & 3,
        ((w >> 14u32) & 3) as u8 == (b1 >> 6u8) & 3,
        ((w >> 16u32) & 3) as u8 == (b2 >> 0u8) & 3,
        ((w >> 18u32) & 3) as u8 == (b2 >> 2u8) & 3,
        ((w >> 20u32) & 3) as u8 == (b2 >> 4u8) & 3,
        ((w >> 22u32) & 3) as u8 == (b2 >> 6u8) & 3,
        ((w >> 24u32) & 3) as u8 == (b3 >> 0u8) & 3,
        ((w >> 26u32) & 3) as u8 == (b3 >> 2u8) & 3,
        ((w >> 28u32) & 3) as u8 == (b3 >> 4u8) & 3,
        ((w >> 30u32) & 3) as u8 == (b3 >> 6u8) & 3,
{
}

/// A byte is made of its four pairs of bits.
proof fn lemma_byte_of_pairs(b: u8)
    by (bit_vector)
    ensures
        b == ((b >> 0u8) & 3) | ((b >> 2u8) & 3) << 2 | ((b >> 4u8) & 3) << 4 | ((b >> 6u8) & 3)
            << 6,
        (b >> 0u8) & 3 <= 3,
        (b >> 2u8) & 3 <= 3,
        (b >> 4u8) & 3 <= 3,
        (b >> 6u8) & 3 <= 3,
{
}

/// The four slots that byte `b` of a bitmap holds are its four pairs of
/// bits.
proof fn lemma_slots_of_byte(bitmap: Seq<u8>, b: int)
    requires
        bitmap.len() == 32,
        0 <= b < 32,
    ensures
        slot_bits(bitmap, 4 * b) == (bitmap[b] >> 0u8) & 3,
        slot_bits(bitmap, 4 * b + 1) == (bitmap[b] >> 2u8) & 3,
        slot_bits(bitmap, 4 * b + 2) == (bitmap[b] >> 4u8) & 3,
        slot_bits(bitmap, 4 * b + 3) == (bitmap[b] >> 6u8) & 3,
{
    let j = b / 4;
    let t = b % 4;
    let word = bitmap.skip(4 * j);
    lemma_le_values(word);
    let w = bitmap_word(bitmap, j);
    lemma_word_bits(word[0], word[1], word[2], word[3], w);
    assert((4 * b) / 16 == j && (4 * b) % 16 == 4 * t);
    assert((4 * b + 1) / 16 == j && (4 * b + 1) % 16 == 4 * t + 1);
    assert((4 * b + 2) / 16 == j && (4 * b + 2) % 16 == 4 * t + 2);
    assert((4 * b + 3) / 16 == j && (4 * b + 3) % 16 == 4 * t + 3);
    assert(bitmap[b] == word[t]);
    // One case for each byte of the word.
    if t == 0 {
    } else if t == 1 {
    } else if t == 2 {
    } else {
    }
}

/// Encoding the slot states that a valid bitmap denotes gives the bitmap
/// back.
pub proof fn lemma_bitmap_round_trip(bitmap: Seq<u8>)
    requires
        bitmap.len() == 32,
        bitmap_valid(bitmap),
    ensures
        bitmap_bytes(bitmap_states(bitmap)) == bitmap,
{
    let states = bitmap_states(bitmap);
    assert forall|b: int| 0 <= b < 32 implies bitmap_byte(states, b) == bitmap[b] by {
        lemma_slots_of_byte(bitmap, b);
        lemma_byte_of_pairs(bitmap[b]);
        assert(slot_state_of_bits(slot_bits(bitmap, 4 * b)) is Some);
        assert(slot_state_of_bits(slot_bits(bitmap, 4 * b + 1)) is Some);
        assert(slot_state_of_bits(slot_bits(bitmap, 4 * b + 2)) is Some);
        assert(slot_state_of_bits(slot_bits(bitmap, 4 * b + 3)) is Some);
        assert(bits_of_slot_state(states[4 * b]) == slot_bits(bitmap, 4 * b));
        assert(bits_of_slot_state(states[4 * b + 1]) == slot_bits(bitmap, 4 * b + 1));
        assert(bits_of_slot_state(states[4 * b + 2]) == slot_bits(bitmap, 4 * b + 2));
        assert(bits_of_slot_state(states[4 * b + 3]) == slot_bits(bitmap, 4 * b + 3));
    }
    assert(bitmap_bytes(states) =~= bitmap);
}

/// Encoding the slot states of a decoded page gives back the 32 bytes of
/// the bitmap that the page was decoded from.
pub proof fn lemma_page_bitmap_round_trip(s: Seq<u8>)
    ensures
        page_spec(s) matches Ok(p) ==> bitmap_bytes(p.entry_state_bitmap) == s.subrange(
            BITMAP_OFFSET as int,
            PAYLOAD_OFFSET as int,
        ),
{
    if page_spec(s) is Ok {
        lemma_bitmap_round_trip(s.subrange(BITMAP_OFFSET as int, PAYLOAD_OFFSET as int));
    }
}

/// Reads the 8 words of a slot-state bitmap off the front of `input`.
fn bitmap_words(input: &[u8]) -> (r: Option<(&[u8], Vec<u32>)>)
    ensures
        match r {
            Some((rest, words)) => {
                &&& input@.len() >= 32
                &&& rest@ == input@.skip(32)
                &&& words@.len() == 8
                &&& forall|j: int| 0 <= j < 8 ==> words@[j] == bitmap_word(input@.take(32), j)
            },
            None => input@.len() < 32,
        },
{
    if input.len() < 32 {
        return None;
    }
    let mut words: Vec<u32> = Vec::new();
    let mut cur = input;
    let mut j: usize = 0;
    while j < 8
        invariant
            j <= 8,
            input@.len() >= 32,
            cur@ == input@.skip(4 * j),
            words@.len() == j,
            forall|m: int| 0 <= m < j ==> words@[m] == bitmap_word(input@.take(32), m),
        decreases 8 - j,
    {
        match le_u32(cur) {
            Some((rest, w)) => {
                proof {
                    lemma_le_values(cur@);
                    lemma_le_values(input@.take(32).skip(4 * j));
                    assert(rest@ =~= input@.skip(4 * (j + 1)));
                }
                words.push(w);
                cur = rest;
            },
            None => {
                return None;
            },
        }
        j += 1;
    }
    Some((cur, words))
}

/// Slot states 16 at a time: appends to `states` what one bitmap word
/// denotes, or fails on the first position that holds `0b01`.
fn push_word_states(
    states: &mut Vec<EntryStateBitmap>,
    word: u32,
    Ghost(bitmap): Ghost<Seq<u8>>,
) -> (r: Result<(), DecodeError>)
    requires
        old(states)@.len() % 16 == 0,
        old(states)@.len() < BITMAP_SLOTS,
        word == bitmap_word(bitmap, old(states)@.len() as int / 16),
        forall|k: int|
            0 <= k < old(states)@.len() ==> slot_state_of_bits(slot_bits(bitmap, k)) == Some(
                old(states)@[k],
            ),
    ensures
        match r {
            Ok(()) => {
                &&& final(states)@.len() == old(states)@.len() + 16
                &&& forall|k: int|
                    0 <= k < final(states)@.len() ==> slot_state_of_bits(slot_bits(bitmap, k))
                        == Some(final(states)@[k])
            },
            Err(e) => e == DecodeError::MalformedBitmap(1) && !bitmap_valid(bitmap),
        },
{
    let ghost base = states@.len() as int;
    let mut i: u32 = 0;
    while i < 16
        invariant
            i <= 16,
            base % 16 == 0,
            0 <= base < BITMAP_SLOTS,
            word == bitmap_word(bitmap, base / 16),
            states@.len() == base + i,
            forall|k: int|
                0 <= k < states@.len() ==> slot_state_of_bits(slot_bits(bitmap, k)) == Some(
                    states@[k],
                ),
        decreases 16 - i,
    {
        let val = ((word >> (i * 2)) & 0x3) as u8;
        proof {
            let k = base + i;
            assert(k / 16 == base / 16 && k % 16 == i);
            assert(slot_bits(bitmap, k) == val);
            let shift = (i * 2) as u32;
            assert((word >> shift) & 3 <= 3) by (bit_vector);
        }
        match EntryStateBitmap::try_from(val) {
            Ok(state) => {
                states.push(state);
            },
            Err(e) => {
                return Err(DecodeError::MalformedBitmap(e.value));
            },
        }
        i += 1;
    }
    Ok(())
}

/// Decodes one page off the front of `input` and yields it with the input
/// that follows the page.
///
/// Fails with `ShortInput` on fewer than 4096 bytes, else with
/// `UnknownPageState` on a state word that is none of the five known ones,
/// else with `MalformedBitmap` when a bitmap position holds `0b01`.
pub fn page(input: &[u8]) -> (r: Result<(&[u8], Page), DecodeError>)
    ensures
        match r {
            Ok((rest, p)) => {
                &&& page_spec(input@) == Ok::<PageModel, DecodeError>(p@)
                &&& rest@ == input@.skip(PAGE_SIZE as int)
                &&& p@.well_formed()
            },
            Err(e) => page_spec(input@) == Err::<PageModel, DecodeError>(e),
        },
{
    if input.len() < PAGE_SIZE {
        return Err(DecodeError::ShortInput);
    }
    let (cur, magic) = match le_u32(input) {
        Some(x) => x,
        None => {
            return Err(DecodeError::ShortInput);
        },
    };
    let state = match State::try_from(magic) {
        Ok(s) => s,
        Err(e) => {
            return Err(e);
        },
    };
    let (cur, seq_no) = match le_u32(cur) {
        Some(x) => x,
        None => {
            return Err(DecodeError::ShortInput);
        },
    };
    let (cur, version) = match le_u8(cur) {
        Some(x) => x,
        None => {
            return Err(DecodeError::ShortInput);
        },
    };
    assert(cur@ =~= input@.skip(9));
    let (cur, unused) = match take_bytes(cur, RESERVED_SIZE) {
        Some(x) => x,
        None => {
            return Err(DecodeError::ShortInput);
        },
    };
    assert(cur@ =~= input@.skip(28));
    assert(unused@ =~= input@.subrange(9, 28));
    let (cur, crc32) = match le_u32(cur) {
        Some(x) => x,
        None => {
            return Err(DecodeError::ShortInput);
        },
    };
    assert(cur@ =~= input@.skip(32));
    let ghost bitmap = input@.subrange(BITMAP_OFFSET as int, PAYLOAD_OFFSET as int);
    assert(cur@.take(32) =~= bitmap);
    let (cur, bitmaps_raw) = match bitmap_words(cur) {
        Some(x) => x,
        None => {
            return Err(DecodeError::ShortInput);
        },
    };
    assert(cur@ =~= input@.skip(64));
    let mut entry_state_bitmap: Vec<EntryStateBitmap> = Vec::new();
    let mut j: usize = 0;
    while j < 8
        invariant
            j <= 8,
            input@.len() >= PAGE_SIZE,
            state_of_magic(le_u32_value(input@) as u32) is Some,
            bitmap == input@.subrange(BITMAP_OFFSET as int, PAYLOAD_OFFSET as int),
            bitmaps_raw@.len() == 8,
            forall|m: int| 0 <= m < 8 ==> bitmaps_raw@[m] == bitmap_word(bitmap, m),
            entry_state_bitmap@.len() == 16 * j,
            forall|k: int|
                0 <= k < entry_state_bitmap@.len() ==> slot_state_of_bits(slot_bits(bitmap, k))
                    == Some(entry_state_bitmap@[k]),
        decreases 8 - j,
    {
        match push_word_states(&mut entry_state_bitmap, bitmaps_raw[j], Ghost(bitmap)) {
            Ok(()) => {},
            Err(e) => {
                return Err(e);
            },
        }
        j += 1;
    }
    assert(bitmap_valid(bitmap));
    assert(entry_state_bitmap@ =~= bitmap_states(bitmap));
    let (cur, data) = match take_bytes(cur, PAYLOAD_SIZE) {
        Some(x) => x,
        None => {
            return Err(DecodeError::ShortInput);
        },
    };
    assert(cur@ =~= input@.skip(PAGE_SIZE as int));
    assert(data@ =~= input@.subrange(PAYLOAD_OFFSET as int, PAGE_SIZE as int));
    Ok((cur, Page::new(state, seq_no, version, unused, crc32, entry_state_bitmap, data)))
}

/// Size of a record's header: namespace, type tag, span, chunk index and
/// checksum.
pub const HEADER_SIZE: usize = 8;

/// Size of a record's key field.
pub const KEY_SIZE: usize = 16;

/// Offset within a record of what follows the key: the last 8 bytes of the
/// first slot, and the slots after it.
pub const BODY_OFFSET: usize = 24;

/// The key that a key field holds: its bytes up to the first NUL, read as
/// UTF-8. There is none when the field has no NUL or those bytes are not
/// UTF-8.
pub open spec fn key_spec(field: Seq<u8>) -> Option<Seq<char>> {
    match field.index_of_first(0u8) {
        Some(n) => if valid_utf8(field.take(n)) {
            Some(decode_utf8(field.take(n)))
        } else {
            None
        },
        None => None,
    }
}

/// The type tags of the values of fixed width.
pub open spec fn is_scalar_tag(tag: u8) -> bool {
    tag == 0x01 || tag == 0x02 || tag == 0x04 || tag == 0x08 || tag == 0x11 || tag == 0x12 || tag
        == 0x14 || tag == 0x18
}

/// The type tags of the records that are kept as raw bytes: strings, blob
/// chunks and blob indices.
pub open spec fn is_raw_tag(tag: u8) -> bool {
    tag == 0x21 || tag == 0x42 || tag == 0x48
}

/// The value of fixed width that `body` starts with, for a scalar tag.
pub open spec fn scalar_spec(tag: u8, body: Seq<u8>) -> ValueModel {
    if tag == 0x01 {
        ValueModel::U8(body[0])
    } else if tag == 0x02 {
        ValueModel::U16(le_u16_value(body) as u16)
    } else if tag == 0x04 {
        ValueModel::U32(le_u32_value(body) as u32)
    } else if tag == 0x08 {
        ValueModel::U64(le_u64_value(body) as u64)
    } else if tag == 0x11 {
        ValueModel::I8(twos_complement(body[0] as int, 0x100) as i8)
    } else if tag == 0x12 {
        ValueModel::I16(twos_complement(le_u16_value(body), 0x1_0000) as i16)
    } else if tag == 0x14 {
        ValueModel::I32(twos_complement(le_u32_value(body), 0x1_0000_0000) as i32)
    } else {
        ValueModel::I64(twos_complement(le_u64_value(body), 0x1_0000_0000_0000_0000) as i64)
    }
}

/// The number of slots that a legacy blob of `size` bytes occupies: the
/// slot with header, key and size, and the data rounded up to whole slots.
pub open spec fn blob_slots(size: int) -> int {
    1 + (size + 31) / 32
}

/// The number of bytes that a record of `span` slots has after its key.
pub open spec fn body_len(span: u8) -> int {
    SLOT_SIZE * span - BODY_OFFSET
}

/// The value of a record with type tag `tag` and span `span`, where `body`
/// is the input from the end of the record's key on.
pub open spec fn value_spec(tag: u8, span: u8, body: Seq<u8>) -> Result<ValueModel, DecodeError> {
    if is_scalar_tag(tag) {
        if span != 1 {
            Err(DecodeError::InvalidSpan(span))
        } else {
            Ok(scalar_spec(tag, body))
        }
    } else if tag == 0x41 {
        let size = le_u16_value(body);
        if span != blob_slots(size) {
            Err(DecodeError::InvalidSpan(span))
        } else if body.len() < body_len(span) {
            Err(DecodeError::ShortInput)
        } else {
            Ok(ValueModel::Blob(body.subrange(8, 8 + size)))
        }
    } else if is_raw_tag(tag) || tag == 0xff {
        if span == 0 {
            Err(DecodeError::InvalidSpan(span))
        } else if body.len() < body_len(span) {
            Err(DecodeError::ShortInput)
        } else if tag == 0xff {
            Ok(ValueModel::Any)
        } else {
            Ok(ValueModel::Raw { tag, bytes: body.take(body_len(span)) })
        }
    } else {
        Err(DecodeError::UnknownValueType(tag))
    }
}

/// The record that starts `s`, found on page `page` at slot `start`, or the
/// reason why there is none.
pub open spec fn entry_spec(s: Seq<u8>, page: u8, start: u8) -> Result<EntryModel, DecodeError> {
    let span = s[2];
    if s.len() < SLOT_SIZE {
        Err(DecodeError::ShortInput)
    } else {
        match key_spec(s.subrange(HEADER_SIZE as int, BODY_OFFSET as int)) {
            None => Err(DecodeError::MalformedKey),
            Some(key) => match value_spec(s[1], span, s.skip(BODY_OFFSET as int)) {
                Err(e) => Err(e),
                Ok(data) => if start + span > PAGE_SLOTS {
                    Err(DecodeError::ShortInput)
                } else {
                    Ok(
                        EntryModel {
                            ns: s[0],
                            span,
                            chunk_index: s[3],
                            crc32: le_u32_value(s.skip(4)) as u32,
                            key,
                            data,
                            page,
                            start,
                            end: (start + span) as u8,
                        },
                    )
                },
            },
        }
    }
}

/// Decodes a key field.
pub fn key(field: &[u8]) -> (r: Option<String>)
    ensures
        match r {
            Some(k) => key_spec(field@) == Some(k@),
            None => key_spec(field@) is None,
        },
{
    let first_null = match first_nul(field) {
        Some(n) => n,
        None => {
            return None;
        },
    };
    proof {
        field@.index_of_first_ensures(0u8);
    }
    let str_bytes = slice_to_vec(slice_subrange(field, 0, first_null));
    assert(str_bytes@ =~= field@.take(first_null as int));
    string_from_utf8(str_bytes)
}

/// Decodes the value of a record with type tag `tag` and span `span`, where
/// `body` is the input from the end of the record's key on.
fn value(tag: u8, span: u8, body: &[u8]) -> (r: Result<EntryType, DecodeError>)
    requires
        body@.len() >= 8,
    ensures
        match r {
            Ok(v) => value_spec(tag, span, body@) == Ok::<ValueModel, DecodeError>(v@),
            Err(e) => value_spec(tag, span, body@) == Err::<ValueModel, DecodeError>(e),
        },
{
    proof {
        lemma_le_values(body@);
    }
    match tag {
        0x01 => match le_u8(body) {
            Some((_, data)) => {
                if span != 1 {
                    return Err(DecodeError::InvalidSpan(span));
                }
                Ok(EntryType::U8(data))
            },
            None => Err(DecodeError::ShortInput),
        },
        0x02 => match le_u16(body) {
            Some((_, data)) => {
                if span != 1 {
                    return Err(DecodeError::InvalidSpan(span));
                }
                Ok(EntryType::U16(data))
            },
            None => Err(DecodeError::ShortInput),
        },
        0x04 => match le_u32(body) {
            Some((_, data)) => {
                if span != 1 {
                    return Err(DecodeError::InvalidSpan(span));
                }
                Ok(EntryType::U32(data))
            },
            None => Err(DecodeError::ShortInput),
        },
        0x08 => match le_u64(body) {
            Some((_, data)) => {
                if span != 1 {
                    return Err(DecodeError::InvalidSpan(span));
                }
                Ok(EntryType::U64(data))
            },
            None => Err(DecodeError::ShortInput),
        },
        0x11 => match le_i8(body) {
            Some((_, data)) => {
                if span != 1 {
                    return Err(DecodeError::InvalidSpan(span));
                }
                Ok(EntryType::I8(data))
            },
            None => Err(DecodeError::ShortInput),
        },
        0x12 => match le_i16(body) {
            Some((_, data)) => {
                if span != 1 {
                    return Err(DecodeError::InvalidSpan(span));
                }
                Ok(EntryType::I16(data))
            },
            None => Err(DecodeError::ShortInput),
        },
        0x14 => match le_i32(body) {
            Some((_, data)) => {
                if span != 1 {
                    return Err(DecodeError::InvalidSpan(span));
                }
                Ok(EntryType::I32(data))
            },
            None => Err(DecodeError::ShortInput),
        },
        0x18 => match le_i64(body) {
            Some((_, data)) => {
                if span != 1 {
                    return Err(DecodeError::InvalidSpan(span));
                }
                Ok(EntryType::I64(data))
            },
            None => Err(DecodeError::ShortInput),
        },
        0x41 => {
            // A blob in the legacy layout: its size, 2 reserved bytes and a
            // checksum, then the data in the slots that follow.
            let (rest, size) = match le_u16(body) {
                Some(x) => x,
                None => {
                    return Err(DecodeError::ShortInput);
                },
            };
            let (rest, _) = match le_u16(rest) {
                Some(x) => x,
                None => {
                    return Err(DecodeError::ShortInput);
                },
            };
            let (rest, _) = match le_u32(rest) {
                Some(x) => x,
                None => {
                    return Err(DecodeError::ShortInput);
                },
            };
            assert(rest@ =~= body@.skip(8));
            let rounded_size: usize = (size as usize + 31) / 32 * 32;
            if span as usize * SLOT_SIZE != SLOT_SIZE + rounded_size {
                return Err(DecodeError::InvalidSpan(span));
            }
            if body.len() < span as usize * SLOT_SIZE - BODY_OFFSET {
                return Err(DecodeError::ShortInput);
            }
            match take_bytes(rest, size as usize) {
                Some((_, data)) => {
                    assert(data@ =~= body@.subrange(8, 8 + size));
                    Ok(EntryType::Blob(data))
                },
                None => Err(DecodeError::ShortInput),
            }
        },
        0x21 | 0x42 | 0x48 | 0xff => {
            if span == 0 {
                return Err(DecodeError::InvalidSpan(span));
            }
            match take_bytes(body, span as usize * SLOT_SIZE - BODY_OFFSET) {
                Some((_, bytes)) => {
                    if tag == 0xff {
                        Ok(EntryType::Any)
                    } else {
                        Ok(EntryType::Raw { tag, bytes })
                    }
                },
                None => Err(DecodeError::ShortInput),
            }
        },
        _ => Err(DecodeError::UnknownValueType(tag)),
    }
}

/// Decodes the record that starts `input`, found on page `page` at slot
/// `start`, and yields it with the input that follows the record's slots.
///
/// Fails with `ShortInput` on fewer than 32 bytes, else with `MalformedKey`,
/// else with `UnknownValueType`, else with `InvalidSpan` when the span is not
/// what the type and size call for, else with `ShortInput` when the record's
/// slots go beyond the input or beyond slot 126 of the page.
pub fn entry(input: &[u8], page: u8, start: u8) -> (r: Result<(&[u8], Entry), DecodeError>)
    ensures
        match r {
            Ok((rest, e)) => {
                &&& entry_spec(input@, page, start) == Ok::<EntryModel, DecodeError>(e@)
                &&& rest@ == input@.skip(SLOT_SIZE * e@.span)
                &&& e@.end == e@.start + e@.span
                &&& 1 <= e@.span <= PAGE_SLOTS - e@.start
            },
            Err(e) => entry_spec(input@, page, start) == Err::<EntryModel, DecodeError>(e),
        },
{
    if input.len() < SLOT_SIZE {
        return Err(DecodeError::ShortInput);
    }
    let (cur, ns) = match le_u8(input) {
        Some(x) => x,
        None => {
            return Err(DecodeError::ShortInput);
        },
    };
    let (cur, entry_type) = match le_u8(cur) {
        Some(x) => x,
        None => {
            return Err(DecodeError::ShortInput);
        },
    };
    let (cur, span) = match le_u8(cur) {
        Some(x) => x,
        None => {
            return Err(DecodeError::ShortInput);
        },
    };
    let (cur, chunk_index) = match le_u8(cur) {
        Some(x) => x,
        None => {
            return Err(DecodeError::ShortInput);
        },
    };
    assert(cur@ =~= input@.skip(4));
    let (cur, crc32) = match le_u32(cur) {
        Some(x) => x,
        None => {
            return Err(DecodeError::ShortInput);
        },
    };
    assert(cur@ =~= input@.skip(HEADER_SIZE as int));
    let (cur, key_raw) = match take_bytes(cur, KEY_SIZE) {
        Some(x) => x,
        None => {
            return Err(DecodeError::ShortInput);
        },
    };
    assert(cur@ =~= input@.skip(BODY_OFFSET as int));
    assert(key_raw@ =~= input@.subrange(HEADER_SIZE as int, BODY_OFFSET as int));
    let key = match key(key_raw.as_slice()) {
        Some(k) => k,
        None => {
            return Err(DecodeError::MalformedKey);
        },
    };
    let data = match value(entry_type, span, cur) {
        Ok(v) => v,
        Err(e) => {
            return Err(e);
        },
    };
    if start as usize + span as usize > PAGE_SLOTS {
        return Err(DecodeError::ShortInput);
    }
    let rest = slice_subrange(input, span as usize * SLOT_SIZE, input.len());
    Ok((rest, Entry::new(ns, span, chunk_index, crc32, key, data, page, start, start + span)))
}

} // verus!
