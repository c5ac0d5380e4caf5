use uring_responder::tag::{EventKind, UserData};

#[test]
fn kind_codes_are_zero_one_two() {
    assert_eq!(EventKind::Accept.to_code(), 0);
    assert_eq!(EventKind::Write.to_code(), 1);
    assert_eq!(EventKind::Close.to_code(), 2);
}

#[test]
fn kinds_come_back_from_their_codes() {
    assert_eq!(EventKind::from_code(0), Some(EventKind::Accept));
    assert_eq!(EventKind::from_code(1), Some(EventKind::Write));
    assert_eq!(EventKind::from_code(2), Some(EventKind::Close));
}

#[test]
fn other_codes_name_no_kind() {
    assert_eq!(EventKind::from_code(3), None);
    assert_eq!(EventKind::from_code(255), None);
    assert_eq!(EventKind::from_code(u32::MAX), None);
}

#[test]
fn encode_puts_kind_low_and_id_high() {
    let accept = UserData { kind: EventKind::Accept, id: 0 };
    assert_eq!(accept.encode(), 0);
    let accept = UserData { kind: EventKind::Accept, id: 5 };
    assert_eq!(accept.encode(), 0x0000_0005_0000_0000);
    let write = UserData { kind: EventKind::Write, id: 7 };
    assert_eq!(write.encode(), 0x0000_0007_0000_0001);
    let close = UserData { kind: EventKind::Close, id: 0 };
    assert_eq!(close.encode(), 2);
    let last = UserData { kind: EventKind::Close, id: u32::MAX };
    assert_eq!(last.encode(), 0xffff_ffff_0000_0002);
}

#[test]
fn encode_matches_the_native_layout_on_little_endian() {
    let tag = UserData { kind: EventKind::Write, id: 0x1234_5678 };
    let mut bytes = [0u8; 8];
    bytes[..4].copy_from_slice(&1u32.to_le_bytes());
    bytes[4..].copy_from_slice(&0x1234_5678u32.to_le_bytes());
    assert_eq!(tag.encode(), u64::from_le_bytes(bytes));
}

#[test]
fn decode_takes_the_halves_apart() {
    assert_eq!(UserData::decode(0), Some(UserData { kind: EventKind::Accept, id: 0 }));
    assert_eq!(
        UserData::decode(0x0000_0040_0000_0000),
        Some(UserData { kind: EventKind::Accept, id: 64 })
    );
    assert_eq!(
        UserData::decode(0x0000_0009_0000_0001),
        Some(UserData { kind: EventKind::Write, id: 9 })
    );
    assert_eq!(
        UserData::decode(0xffff_ffff_0000_0002),
        Some(UserData { kind: EventKind::Close, id: u32::MAX })
    );
}

#[test]
fn decode_refuses_unknown_kinds() {
    assert_eq!(UserData::decode(3), None);
    assert_eq!(UserData::decode(0x0000_0001_0000_0003), None);
    assert_eq!(UserData::decode(0x0000_0000_8000_0000), None);
    assert_eq!(UserData::decode(0x0000_0000_ffff_ffff), None);
    assert_eq!(UserData::decode(u64::MAX), None);
}

#[test]
fn decode_undoes_encode() {
    let kinds = [EventKind::Accept, EventKind::Write, EventKind::Close];
    let ids = [0u32, 1, 2, 63, 64, 0x7fff_ffff, 0x8000_0000, u32::MAX];
    for kind in kinds {
        for id in ids {
            let tag = UserData { kind, id };
            assert_eq!(UserData::decode(tag.encode()), Some(tag));
        }
    }
}

#[test]
fn encode_undoes_decode() {
    let raws = [0u64, 1, 2, 0x1_0000_0000, 0x1_0000_0001, 0xdead_beef_0000_0002, 0xffff_ffff_0000_0000];
    for raw in raws {
        let tag = UserData::decode(raw).unwrap();
        assert_eq!(tag.encode(), raw);
    }
}

#[test]
fn different_tags_encode_differently() {
    let a = UserData { kind: EventKind::Accept, id: 1 };
    let b = UserData { kind: EventKind::Write, id: 0 };
    let c = UserData { kind: EventKind::Write, id: 1 };
    assert_ne!(a.encode(), b.encode());
    assert_ne!(a.encode(), c.encode());
    assert_ne!(b.encode(), c.encode());
}
