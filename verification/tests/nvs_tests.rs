use esp32::error::DecodeError;
use esp32::nvs::event::{Entry, EntryType};
use esp32::nvs::nvs::Nvs;
use esp32::nvs::page::{EntryStateBitmap, Page, State};
use esp32::nvs::parsers::{entry, key, page};
use esp32::primitives::take_bytes;

const EMPTY: u8 = 0b11;
const WRITTEN: u8 = 0b10;
const ERASED: u8 = 0b00;

/// A page with the given state word and sequence number, whose first slots
/// have the given states and contents. All other slots are empty.
fn build_page(magic: u32, seq_no: u32, slots: &[(u8, [u8; 32])]) -> Vec<u8> {
    let mut image = vec![0xffu8; 4096];
    image[0..4].copy_from_slice(&magic.to_le_bytes());
    image[4..8].copy_from_slice(&seq_no.to_le_bytes());
    image[8] = 0xfe;
    for (i, (state, bytes)) in slots.iter().enumerate() {
        let shift = 2 * (i % 4);
        let at = 32 + i / 4;
        image[at] = (image[at] & !(0b11 << shift)) | (state << shift);
        image[64 + 32 * i..64 + 32 * (i + 1)].copy_from_slice(bytes);
    }
    image
}

/// The first slot of a record: header, key and the 8 bytes after the key.
fn slot(ns: u8, tag: u8, span: u8, name: &[u8], tail: [u8; 8]) -> [u8; 32] {
    let mut bytes = [0u8; 32];
    bytes[0] = ns;
    bytes[1] = tag;
    bytes[2] = span;
    bytes[3] = 0xff;
    bytes[8..8 + name.len()].copy_from_slice(name);
    bytes[24..32].copy_from_slice(&tail);
    bytes
}

fn u32_tail(v: u32) -> [u8; 8] {
    let mut tail = [0u8; 8];
    tail[0..4].copy_from_slice(&v.to_le_bytes());
    tail
}

fn wifi_chan() -> [u8; 32] {
    slot(1, 0x04, 1, b"wifi_chan", u32_tail(11))
}

fn storage_namespace() -> [u8; 32] {
    slot(0, 0x01, 1, b"storage", [1, 0xff, 0xff, 0xff, 0xff, 0xff, 0xff, 0xff])
}

const ACTIVE: u32 = 0xffff_fffe;

#[test]
fn empty_page() {
    let image = vec![0xffu8; 4096];
    let nvs = Nvs::new(&image, false).unwrap();
    assert_eq!(nvs.pages().len(), 1);
    let page = &nvs.pages()[0];
    assert_eq!(*page.state(), State::Empty);
    assert_eq!(page.entry_state_bitmap().len(), 128);
    assert!(page.entry_state_bitmap().iter().all(|s| *s == EntryStateBitmap::Empty));
    assert_eq!(page.data().len(), 4032);
    assert!(nvs.entries().is_empty());
    assert!(nvs.namespaces().is_empty());
    assert!(nvs.dangling().is_empty());
}

#[test]
fn single_u32_record() {
    let image = build_page(ACTIVE, 1, &[(WRITTEN, wifi_chan())]);
    let nvs = Nvs::new(&image, false).unwrap();
    let page = &nvs.pages()[0];
    assert_eq!(*page.state(), State::Active);
    assert_eq!(page.seq_no(), 1);
    assert_eq!(page.version(), 0xfe);
    assert_eq!(page.entry_state_bitmap()[0], EntryStateBitmap::Written);
    assert!(page.entry_state_bitmap()[1..].iter().all(|s| *s == EntryStateBitmap::Empty));
    assert_eq!(nvs.entries().len(), 1);
    let e = &nvs.entries()[0];
    assert_eq!(e.ns(), 1);
    assert_eq!(e.key(), "wifi_chan");
    assert!(matches!(e.data(), EntryType::U32(11)));
    assert_eq!(e.span(), 1);
    assert_eq!(e.chunk_index(), 0xff);
    assert_eq!(e.crc32(), 0);
    assert_eq!((e.page(), e.start(), e.end()), (0, 0, 1));
}

#[test]
fn namespace_declaration() {
    let image =
        build_page(ACTIVE, 1, &[(WRITTEN, storage_namespace()), (WRITTEN, wifi_chan())]);
    let nvs = Nvs::new(&image, false).unwrap();
    assert_eq!(nvs.namespaces(), vec!["storage"]);
    let storage = nvs.namespace("storage").unwrap();
    assert_eq!(storage.len(), 1);
    assert_eq!(storage[0].key(), "wifi_chan");
    assert!(matches!(storage[0].data(), EntryType::U32(11)));
    assert_eq!(nvs.entries().len(), 1);
    assert_eq!((nvs.entries()[0].start(), nvs.entries()[0].end()), (1, 2));
    assert!(nvs.dangling().is_empty());
    assert!(nvs.namespace("other").is_none());
}

#[test]
fn legacy_blob_across_two_slots() {
    let mut tail = [0u8; 8];
    tail[0..2].copy_from_slice(&20u16.to_le_bytes());
    tail[4..8].copy_from_slice(&0xdead_beefu32.to_le_bytes());
    let first = slot(1, 0x41, 2, b"blob", tail);
    let mut second = [0u8; 32];
    for i in 0..20 {
        second[i] = 100 + i as u8;
    }
    let mut input = Vec::new();
    input.extend_from_slice(&first);
    input.extend_from_slice(&second);
    input.extend_from_slice(&[0xff; 32]);
    let (rest, e) = entry(&input, 3, 7).unwrap();
    assert_eq!(rest.len(), 32);
    match e.data() {
        EntryType::Blob(bytes) => {
            assert_eq!(bytes.len(), 20);
            assert_eq!(bytes[..], second[..20]);
        },
        other => panic!("not a blob: {:?}", other),
    }
    assert_eq!(e.span(), 2);
    assert_eq!(e.start(), 7);
    assert_eq!(e.end(), e.start() + 2);
    assert_eq!(e.page(), 3);

    let image = build_page(ACTIVE, 1, &[(WRITTEN, first), (WRITTEN, second)]);
    let nvs = Nvs::new(&image, false).unwrap();
    assert_eq!(nvs.entries().len(), 1);
    assert_eq!(nvs.entries()[0].end(), 2);
}

#[test]
fn erased_record_hidden_by_default() {
    let image = build_page(ACTIVE, 1, &[(ERASED, wifi_chan())]);
    let hidden = Nvs::new(&image, false).unwrap();
    assert!(hidden.entries().is_empty());
    assert_eq!(hidden.pages()[0].entry_state_bitmap()[0], EntryStateBitmap::Erased);
    let shown = Nvs::new(&image, true).unwrap();
    assert_eq!(shown.entries().len(), 1);
    assert_eq!(shown.entries()[0].key(), "wifi_chan");
    assert!(matches!(shown.entries()[0].data(), EntryType::U32(11)));
}

#[test]
fn unknown_page_magic() {
    let image = build_page(0x1234_5678, 1, &[]);
    assert_eq!(image[0..4], [0x78, 0x56, 0x34, 0x12]);
    assert_eq!(Nvs::new(&image, false).unwrap_err(), DecodeError::UnknownPageState(0x1234_5678));
    assert_eq!(page(&image).unwrap_err(), DecodeError::UnknownPageState(0x1234_5678));
}

#[test]
fn page_count_is_length_over_page_size() {
    let mut image = Vec::new();
    for seq in 0..3 {
        image.extend_from_slice(&build_page(ACTIVE, seq, &[(WRITTEN, wifi_chan())]));
    }
    let nvs = Nvs::new(&image, false).unwrap();
    assert_eq!(nvs.pages().len(), image.len() / 4096);
    assert_eq!(nvs.pages().len(), 3);
    assert_eq!(nvs.pages()[2].seq_no(), 2);
    let found: Vec<(u8, u8)> = nvs.entries().iter().map(|e| (e.page(), e.start())).collect();
    assert_eq!(found, vec![(0, 0), (1, 0), (2, 0)]);
    assert_eq!(Nvs::new(&[], false).unwrap().pages().len(), 0);
}

#[test]
fn page_sizes() {
    let image = build_page(0xffff_fffc, 9, &[(WRITTEN, wifi_chan())]);
    let (rest, p) = page(&image).unwrap();
    assert!(rest.is_empty());
    assert_eq!(*p.state(), State::Full);
    assert_eq!(p.entry_state_bitmap().len(), 128);
    assert_eq!(p.data().len(), 4032);
    assert_eq!(p.unused().len(), 19);
    assert_eq!(p.data()[..32], wifi_chan());
    assert_eq!(p.crc32(), 0xffff_ffff);
    let copy: Page = p.clone();
    assert_eq!(copy.data(), p.data());
}

#[test]
fn page_states() {
    let states = [
        (0xffff_ffffu32, State::Empty),
        (0xffff_fffe, State::Active),
        (0xffff_fffc, State::Full),
        (0xffff_fff8, State::Erasing),
        (0xffff_fff0, State::Corrupted),
    ];
    for (magic, state) in states {
        assert_eq!(State::try_from(magic), Ok(state));
        let image = build_page(magic, 0, &[]);
        assert_eq!(*page(&image).unwrap().1.state(), state);
    }
    assert_eq!(State::try_from(0xffff_fff1), Err(DecodeError::UnknownPageState(0xffff_fff1)));
}

#[test]
fn slot_state_bits() {
    assert_eq!(EntryStateBitmap::try_from(0), Ok(EntryStateBitmap::Erased));
    assert_eq!(EntryStateBitmap::try_from(2), Ok(EntryStateBitmap::Written));
    assert_eq!(EntryStateBitmap::try_from(3), Ok(EntryStateBitmap::Empty));
    assert_eq!(EntryStateBitmap::try_from(1).unwrap_err().value, 1);
    assert_eq!(EntryStateBitmap::Empty.bits(), 3);
    assert_eq!(EntryStateBitmap::Written.bits(), 2);
    assert_eq!(EntryStateBitmap::Erased.bits(), 0);
}

#[test]
fn bitmap_positions_follow_words_then_bits() {
    let mut image = vec![0xffu8; 4096];
    // Slot 17 is position 1 of word 1: bits 2 and 3 of byte 36.
    image[36] = 0b1111_1011;
    // Slot 127 is position 15 of word 7: the top bits of byte 63.
    image[63] = 0b0011_1111;
    image[64 + 17 * 32..64 + 18 * 32].copy_from_slice(&wifi_chan());
    let (_, p) = page(&image).unwrap();
    for (i, s) in p.entry_state_bitmap().iter().enumerate() {
        let expected = match i {
            17 => EntryStateBitmap::Written,
            127 => EntryStateBitmap::Erased,
            _ => EntryStateBitmap::Empty,
        };
        assert_eq!(*s, expected, "slot {}", i);
    }
    let nvs = Nvs::new(&image, true).unwrap();
    assert_eq!(nvs.entries().len(), 1);
    assert_eq!((nvs.entries()[0].start(), nvs.entries()[0].end()), (17, 18));
}

#[test]
fn bitmap_round_trip() {
    let mut image = build_page(
        ACTIVE,
        1,
        &[(WRITTEN, storage_namespace()), (ERASED, wifi_chan()), (WRITTEN, wifi_chan())],
    );
    image[40] = 0b0010_1100;
    image[63] = 0b1000_0011;
    let (_, p) = page(&image).unwrap();
    assert_eq!(p.bitmap(), image[32..64].to_vec());
    let blank = vec![0xffu8; 4096];
    assert_eq!(page(&blank).unwrap().1.bitmap(), vec![0xffu8; 32]);
}

#[test]
fn malformed_bitmap() {
    let mut image = build_page(ACTIVE, 1, &[]);
    image[50] = 0b1101_1111;
    assert_eq!(page(&image).unwrap_err(), DecodeError::MalformedBitmap(1));
    assert_eq!(Nvs::new(&image, false).unwrap_err(), DecodeError::MalformedBitmap(1));
}

#[test]
fn short_input() {
    let image = build_page(ACTIVE, 1, &[]);
    assert_eq!(page(&image[..4095]).unwrap_err(), DecodeError::ShortInput);
    assert_eq!(page(&[]).unwrap_err(), DecodeError::ShortInput);
    let mut long = image.clone();
    long.extend_from_slice(&image[..100]);
    assert_eq!(Nvs::new(&long, false).unwrap_err(), DecodeError::ShortInput);
    assert_eq!(entry(&wifi_chan()[..31], 0, 0).unwrap_err(), DecodeError::ShortInput);
}

#[test]
fn record_beyond_the_page() {
    // A blob of two slots that starts in the last slot of a page.
    let mut tail = [0u8; 8];
    tail[0] = 20;
    let first = slot(1, 0x41, 2, b"blob", tail);
    let mut image = build_page(ACTIVE, 1, &[]);
    image[63] = 0b1111_1011;
    image[64 + 125 * 32..].copy_from_slice(&first);
    assert_eq!(Nvs::new(&image, false).unwrap_err(), DecodeError::ShortInput);
    let mut input = first.to_vec();
    input.extend_from_slice(&[0; 32]);
    assert_eq!(entry(&input, 0, 125).unwrap_err(), DecodeError::ShortInput);
    assert_eq!(entry(&input[..40], 0, 0).unwrap_err(), DecodeError::ShortInput);
    assert!(entry(&input, 0, 124).is_ok());
}

#[test]
fn unknown_value_type() {
    let bytes = slot(1, 0x99, 1, b"odd", [0; 8]);
    assert_eq!(entry(&bytes, 0, 0).unwrap_err(), DecodeError::UnknownValueType(0x99));
    let image = build_page(ACTIVE, 1, &[(WRITTEN, bytes)]);
    assert_eq!(Nvs::new(&image, false).unwrap_err(), DecodeError::UnknownValueType(0x99));
}

#[test]
fn malformed_key() {
    let unterminated = slot(1, 0x04, 1, b"0123456789abcdef", u32_tail(1));
    assert_eq!(entry(&unterminated, 0, 0).unwrap_err(), DecodeError::MalformedKey);
    let not_utf8 = slot(1, 0x04, 1, &[b'a', 0xff, b'b'], u32_tail(1));
    assert_eq!(entry(&not_utf8, 0, 0).unwrap_err(), DecodeError::MalformedKey);
    let blank = [0xffu8; 32];
    assert_eq!(entry(&blank, 0, 0).unwrap_err(), DecodeError::MalformedKey);
    let image = build_page(ACTIVE, 1, &[(WRITTEN, blank)]);
    assert_eq!(Nvs::new(&image, false).unwrap_err(), DecodeError::MalformedKey);
}

#[test]
fn keys() {
    assert_eq!(key(b"abc\0def\0"), Some("abc".to_string()));
    assert_eq!(key(b"\0abc"), Some(String::new()));
    assert_eq!(key(b"abc"), None);
    assert_eq!(key(&[]), None);
    assert_eq!(key("caf\u{e9}\0".as_bytes()), Some("caf\u{e9}".to_string()));
    assert_eq!(key(&[0xc3, 0x00]), None);
    let fifteen = slot(1, 0x01, 1, b"0123456789abcde", [0; 8]);
    assert_eq!(entry(&fifteen, 0, 0).unwrap().1.key(), "0123456789abcde");
}

#[test]
fn invalid_span() {
    let wide = slot(1, 0x04, 2, b"k", u32_tail(1));
    let mut input = wide.to_vec();
    input.extend_from_slice(&[0; 32]);
    assert_eq!(entry(&input, 0, 0).unwrap_err(), DecodeError::InvalidSpan(2));
    let none = slot(1, 0x04, 0, b"k", u32_tail(1));
    assert_eq!(entry(&none, 0, 0).unwrap_err(), DecodeError::InvalidSpan(0));
    // A blob of 33 bytes takes three slots, not two.
    let mut tail = [0u8; 8];
    tail[0] = 33;
    let mut blob = slot(1, 0x41, 2, b"k", tail).to_vec();
    blob.extend_from_slice(&[0; 64]);
    assert_eq!(entry(&blob, 0, 0).unwrap_err(), DecodeError::InvalidSpan(2));
    blob[2] = 3;
    assert_eq!(entry(&blob, 0, 0).unwrap().1.end(), 3);
    let raw = slot(1, 0x21, 0, b"k", [0; 8]);
    assert_eq!(entry(&raw, 0, 0).unwrap_err(), DecodeError::InvalidSpan(0));
}

#[test]
fn blob_sizes() {
    for (size, span) in [(0u16, 1u8), (1, 2), (32, 2), (33, 3), (64, 3), (4000, 126)] {
        let mut tail = [0u8; 8];
        tail[0..2].copy_from_slice(&size.to_le_bytes());
        let mut input = slot(1, 0x41, span, b"k", tail).to_vec();
        input.extend((0..32 * (span as usize - 1)).map(|i| i as u8));
        let (rest, e) = entry(&input, 0, 0).unwrap();
        assert!(rest.is_empty());
        match e.data() {
            EntryType::Blob(bytes) => assert_eq!(bytes[..], input[32..32 + size as usize]),
            other => panic!("not a blob: {:?}", other),
        }
        assert_eq!(e.end(), span);
    }
}

#[test]
fn scalar_values() {
    let cases: Vec<(u8, [u8; 8])> = vec![
        (0x01, [0xfe, 1, 2, 3, 4, 5, 6, 7]),
        (0x11, [0xfe, 1, 2, 3, 4, 5, 6, 7]),
        (0x02, [0x34, 0x12, 9, 9, 9, 9, 9, 9]),
        (0x12, [0x00, 0x80, 9, 9, 9, 9, 9, 9]),
        (0x04, [0x78, 0x56, 0x34, 0x12, 9, 9, 9, 9]),
        (0x14, [0xff, 0xff, 0xff, 0xff, 9, 9, 9, 9]),
        (0x08, [0xef, 0xcd, 0xab, 0x89, 0x67, 0x45, 0x23, 0x01]),
        (0x18, [0x00, 0x00, 0x00, 0x00, 0x00, 0x00, 0x00, 0x80]),
    ];
    let mut seen = Vec::new();
    for (tag, tail) in cases {
        let bytes = slot(1, tag, 1, b"k", tail);
        let (rest, e) = entry(&bytes, 0, 0).unwrap();
        assert!(rest.is_empty());
        seen.push(format!("{:?}", e.data()));
    }
    assert_eq!(
        seen,
        vec![
            "U8(254)",
            "I8(-2)",
            "U16(4660)",
            "I16(-32768)",
            "U32(305419896)",
            "I32(-1)",
            "U64(81985529216486895)",
            "I64(-9223372036854775808)",
        ]
    );
}

#[test]
fn header_fields() {
    let mut bytes = slot(7, 0x02, 1, b"k", [1, 0, 0, 0, 0, 0, 0, 0]);
    bytes[3] = 5;
    bytes[4..8].copy_from_slice(&0x0403_0201u32.to_le_bytes());
    let (_, e) = entry(&bytes, 200, 100).unwrap();
    assert_eq!(e.ns(), 7);
    assert_eq!(e.span(), 1);
    assert_eq!(e.chunk_index(), 5);
    assert_eq!(e.crc32(), 0x0403_0201);
    assert_eq!((e.page(), e.start(), e.end()), (200, 100, 101));
}

#[test]
fn raw_records() {
    for tag in [0x21u8, 0x42, 0x48] {
        let mut input = slot(1, tag, 2, b"k", [1, 2, 3, 4, 5, 6, 7, 8]).to_vec();
        input.extend_from_slice(&[9; 32]);
        input.extend_from_slice(&[0; 5]);
        let (rest, e) = entry(&input, 0, 0).unwrap();
        assert_eq!(rest, [0; 5]);
        match e.data() {
            EntryType::Raw { tag: t, bytes } => {
                assert_eq!(*t, tag);
                assert_eq!(bytes[..], input[24..64]);
            },
            other => panic!("not raw: {:?}", other),
        }
        assert_eq!(e.end(), 2);
    }
    let any = slot(1, 0xff, 1, b"k", [1; 8]);
    assert!(matches!(entry(&any, 0, 0).unwrap().1.data(), EntryType::Any));
}

#[test]
fn namespace_type_mismatch() {
    let bad = slot(0, 0x04, 1, b"storage", u32_tail(1));
    let image = build_page(ACTIVE, 1, &[(WRITTEN, bad)]);
    assert_eq!(Nvs::new(&image, false).unwrap_err(), DecodeError::NamespaceTypeMismatch);
}

#[test]
fn dangling_namespace() {
    let other = slot(2, 0x04, 1, b"lost", u32_tail(5));
    let image = build_page(
        ACTIVE,
        1,
        &[(WRITTEN, other), (WRITTEN, storage_namespace()), (WRITTEN, wifi_chan())],
    );
    let nvs = Nvs::new(&image, false).unwrap();
    assert_eq!(nvs.dangling(), vec![DecodeError::DanglingNamespace(2)]);
    assert_eq!(nvs.orphans(), [0]);
    assert_eq!(nvs.entries()[nvs.orphans()[0]].key(), "lost");
    let keys: Vec<&str> = nvs.entries().iter().map(|e| e.key()).collect();
    assert_eq!(keys, vec!["lost", "wifi_chan"]);
    assert_eq!(nvs.namespace("storage").unwrap().len(), 1);
    for e in nvs.entries() {
        let declared = nvs.namespaces().iter().any(|n| {
            nvs.namespace(n).unwrap().iter().any(|f| f.key() == e.key())
        });
        assert!(declared || nvs.dangling().contains(&DecodeError::DanglingNamespace(e.ns())));
    }
}

#[test]
fn listed_namespaces_can_be_looked_up() {
    let second = slot(0, 0x01, 1, b"wifi", [2, 0, 0, 0, 0, 0, 0, 0]);
    let renamed = slot(0, 0x01, 1, b"settings", [1, 0, 0, 0, 0, 0, 0, 0]);
    let image = build_page(
        ACTIVE,
        1,
        &[
            (WRITTEN, second),
            (WRITTEN, storage_namespace()),
            (WRITTEN, wifi_chan()),
            (WRITTEN, renamed),
            (WRITTEN, slot(1, 0x01, 1, b"after", [3, 0, 0, 0, 0, 0, 0, 0])),
        ],
    );
    let nvs = Nvs::new(&image, false).unwrap();
    assert_eq!(nvs.namespaces(), vec!["settings", "wifi"]);
    for name in nvs.namespaces() {
        assert!(nvs.namespace(name).is_some());
    }
    // The second declaration of id 1 starts its list afresh, and the old
    // name still stands for the id.
    let keys = |name: &str| -> Vec<String> {
        nvs.namespace(name).unwrap().iter().map(|e| e.key().to_string()).collect()
    };
    assert_eq!(keys("settings"), vec!["after"]);
    assert_eq!(keys("storage"), vec!["after"]);
    assert!(keys("wifi").is_empty());
    assert_eq!(nvs.entries().len(), 2);
}

#[test]
fn latest_record_of_a_key_wins() {
    let first = slot(1, 0x04, 1, b"wifi_chan", u32_tail(1));
    let other = slot(1, 0x04, 1, b"other", u32_tail(2));
    let image = build_page(
        ACTIVE,
        1,
        &[
            (WRITTEN, storage_namespace()),
            (WRITTEN, first),
            (WRITTEN, other),
            (WRITTEN, wifi_chan()),
        ],
    );
    let nvs = Nvs::new(&image, false).unwrap();
    assert_eq!(nvs.entries().len(), 3);
    let storage = nvs.namespace("storage").unwrap();
    let found: Vec<(&str, u8)> = storage.iter().map(|e| (e.key(), e.start())).collect();
    assert_eq!(found, vec![("other", 2), ("wifi_chan", 3)]);
    assert!(matches!(storage[1].data(), EntryType::U32(11)));
    assert!(nvs.entries()[0].same_key(&nvs.entries()[2]));
    assert!(!nvs.entries()[0].same_key(&nvs.entries()[1]));
}

#[test]
fn records_keep_their_slots() {
    let mut tail = [0u8; 8];
    tail[0] = 40;
    let blob = slot(1, 0x41, 3, b"blob", tail);
    let image = build_page(
        ACTIVE,
        1,
        &[
            (WRITTEN, storage_namespace()),
            (WRITTEN, blob),
            (WRITTEN, [7; 32]),
            (WRITTEN, [8; 32]),
            (EMPTY, [0xff; 32]),
            (WRITTEN, wifi_chan()),
        ],
    );
    let nvs = Nvs::new(&image, false).unwrap();
    let slots: Vec<(u8, u8, u8)> =
        nvs.entries().iter().map(|e| (e.start(), e.span(), e.end())).collect();
    assert_eq!(slots, vec![(1, 3, 4), (5, 1, 6)]);
    for e in nvs.entries() {
        assert_eq!(e.end(), e.start() + e.span());
        assert!(1 <= e.span() && e.span() <= 126 - e.start());
    }
}

#[test]
fn entry_fields() {
    let e = Entry::new(1, 2, 3, 4, "key".to_string(), EntryType::I16(-5), 6, 7, 9);
    assert_eq!(e.ns(), 1);
    assert_eq!(e.span(), 2);
    assert_eq!(e.chunk_index(), 3);
    assert_eq!(e.crc32(), 4);
    assert_eq!(e.key(), "key");
    assert!(matches!(e.data(), EntryType::I16(-5)));
    assert_eq!(e.page(), 6);
    assert_eq!(e.start(), 7);
    assert_eq!(e.end(), 9);
}

#[test]
fn page_fields() {
    let states = vec![EntryStateBitmap::Written; 128];
    let p = Page::new(State::Erasing, 5, 1, vec![2; 19], 7, states, vec![3; 4032]);
    assert_eq!(*p.state(), State::Erasing);
    assert_eq!(p.seq_no(), 5);
    assert_eq!(p.version(), 1);
    assert_eq!(p.unused(), [2; 19]);
    assert_eq!(p.crc32(), 7);
    assert_eq!(p.entry_state_bitmap().len(), 128);
    assert_eq!(p.data(), [3; 4032]);
    assert_eq!(p.bitmap(), vec![0b1010_1010; 32]);
}

#[test]
fn bytes_are_split_at_the_count() {
    let (rest, head) = take_bytes(&[1, 2, 3, 4, 5], 2).unwrap();
    assert_eq!(head, vec![1, 2]);
    assert_eq!(rest, [3, 4, 5]);
    assert!(take_bytes(&[1, 2], 3).is_none());
    assert!(take_bytes(&[], 0).unwrap().1.is_empty());
}

#[test]
fn values_as_text() {
    assert_eq!(EntryType::U8(254).to_string(), "254");
    assert_eq!(EntryType::U8(0).to_string(), "0");
    assert_eq!(EntryType::I8(-2).to_string(), "-2");
    assert_eq!(EntryType::U16(4660).to_string(), "4660");
    assert_eq!(EntryType::I16(-32768).to_string(), "-32768");
    assert_eq!(EntryType::U32(11).to_string(), "11");
    assert_eq!(EntryType::I32(-1).to_string(), "-1");
    assert_eq!(EntryType::U64(u64::MAX).to_string(), "18446744073709551615");
    assert_eq!(EntryType::I64(i64::MIN).to_string(), "-9223372036854775808");
    assert_eq!(EntryType::String("text".to_string()).to_string(), "text");
    assert_eq!(EntryType::Blob(vec![1, 20, 255]).to_string(), "[1, 20, 255]");
    assert_eq!(EntryType::Blob(vec![]).to_string(), "[]");
    assert_eq!(EntryType::Raw { tag: 0x21, bytes: vec![7] }.to_string(), "[7]");
    let image = build_page(ACTIVE, 1, &[(WRITTEN, wifi_chan())]);
    assert_eq!(Nvs::new(&image, false).unwrap().entries()[0].data().to_string(), "11");
}

#[test]
fn store_copies_hold_the_same() {
    let image = build_page(
        ACTIVE,
        1,
        &[
            (WRITTEN, slot(3, 0x04, 1, b"lost", u32_tail(5))),
            (WRITTEN, storage_namespace()),
            (WRITTEN, wifi_chan()),
        ],
    );
    let nvs = Nvs::new(&image, false).unwrap();
    let copy = nvs.clone();
    assert_eq!(format!("{:?}", copy), format!("{:?}", nvs));
    assert_eq!(copy.namespaces(), vec!["storage"]);
    assert_eq!(copy.namespace("storage").unwrap()[0].key(), "wifi_chan");
    assert_eq!(copy.dangling(), vec![DecodeError::DanglingNamespace(3)]);
    assert_eq!(copy.pages().len(), 1);
    let e = Entry::new(1, 2, 3, 4, "key".to_string(), EntryType::Blob(vec![1, 2]), 6, 7, 9);
    assert_eq!(format!("{:?}", e.clone()), format!("{:?}", e));
    let raw = EntryType::Raw { tag: 0x42, bytes: vec![1] };
    assert_eq!(format!("{:?}", raw.clone()), "Raw { tag: 66, bytes: [1] }");
}
