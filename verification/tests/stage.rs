use ssb64_utils::music::BGM;
use ssb64_utils::stage::{StageError, StageFileKind};
use ssb64_utils::stage_file::{build_binary, check_padding, stage_binary, StageMain};

/// A stage file without item bytes: the given bytes at the given offsets of
/// `0xa8` zero bytes.
fn no_item_file(fields: &[(usize, &[u8])]) -> Vec<u8> {
    let mut b = vec![0u8; 0xa8];
    for (at, bytes) in fields {
        b[*at..*at + bytes.len()].copy_from_slice(bytes);
    }
    b
}

#[test]
fn stage_binary_roundtrip_without_items() {
    let b = no_item_file(&[
        (0x00, &[0x00, 0x01, 0x00, 0x02]),
        (0x40, &[0x00, 0x03, 0x00, 0x04]),
        (0x4c, &[0xFF, 0x80, 0x40, 0x20]),
        (0x7c, &[0x00, 0x00, 0x00, 0x05]),
        (0x88, &[0x12, 0x34]),
    ]);
    let s = stage_binary(&b, None).unwrap();
    assert!(s.item_bytes.is_none());
    assert!(s.extra_info.is_none());
    assert_eq!(s.background_music, BGM::from_bits(5).unwrap());
    assert_eq!(s.magnifier_color.r, 0xFF);
    assert_eq!(s.magnifier_color.a, 0x20);
    let out = build_binary(&s);
    // the file is written back, padded with zeros to a multiple of 16 bytes
    assert_eq!(out.len(), 0xb0);
    assert_eq!(&out[..0xa8], &b[..]);
    assert!(out[0xa8..].iter().all(|x| *x == 0));
}

#[test]
fn stage_binary_with_items_and_extra() {
    let mut b = vec![0u8; 0xbc];
    for i in 0..0x14 {
        b[i] = i as u8 + 1;
    }
    b.extend_from_slice(&[9, 8, 7]);
    let s = stage_binary(&b, Some(StageFileKind::Item)).unwrap();
    assert_eq!(s.item_bytes.unwrap()[0], 1);
    assert_eq!(s.extra_info.clone().unwrap(), vec![9u8, 8, 7]);
    let out = s.as_bytes();
    assert_eq!(out.len(), 0xc0);
    assert_eq!(&out[..0xbf], &b[..]);
}

#[test]
fn stage_binary_rejects_unknown_music() {
    let b = no_item_file(&[(0x7c, &[0x00, 0x00, 0x00, 0x2f])]);
    assert_eq!(stage_binary(&b, None).err(), Some(StageError::UnknownMusic(0x2f)));
}

#[test]
fn stage_kind_cannot_be_told() {
    let mut b = vec![0u8; 0xc0];
    b[0x84] = 1;
    b[0x9b] = 1;
    assert_eq!(
        stage_binary(&b, None).err(),
        Some(StageError::IndeterminateKind { size: 0xc0, ptr_84: 0x0100_0000, ptr_9c: 1 })
    );
}

#[test]
fn padding_is_no_extra_data() {
    assert_eq!(check_padding(&[]), None);
    assert_eq!(check_padding(&[0, 0, 0]), None);
    assert_eq!(check_padding(&[0, 1]), Some(&[0u8, 1][..]));
}

#[test]
fn from_bytes_checks_sizes() {
    assert_eq!(StageMain::from_bytes(&[0u8; 0xa7], None, None).err().map(|e| format!("{:?}", e)),
        Some(format!("{:?}", StageError::MainTooShort)));
    assert_eq!(StageMain::from_bytes(&[0u8; 0xa8], Some(&[0u8; 3]), None).err().map(|e| format!("{:?}", e)),
        Some(format!("{:?}", StageError::ItemBytesWrongSize)));
}

#[test]
fn music_numbers_roundtrip() {
    for n in 0u32..0x2f {
        assert_eq!(BGM::from_bits(n).unwrap().bits(), n);
    }
    assert_eq!(BGM::from_bits(0x2f), Err(0x2f));
}

#[test]
fn stage_binary_without_kind_reads_the_detected_kind() {
    let b = no_item_file(&[
        (0x00, &[0x00, 0x01, 0x00, 0x02]),
        (0x7c, &[0x00, 0x00, 0x00, 0x07]),
        (0x88, &[0x12, 0x34]),
    ]);
    let told = stage_binary(&b, None).unwrap();
    let named = stage_binary(&b, Some(StageFileKind::NoItem)).unwrap();
    assert_eq!(told.as_bytes(), named.as_bytes());
    // an item stage of 0xbc bytes is told by the zero low half at 0x98
    let mut c = vec![0u8; 0xbc];
    c[0x14 + 0x7c + 3] = 3;
    let told = stage_binary(&c, None).unwrap();
    let named = stage_binary(&c, Some(StageFileKind::Item)).unwrap();
    assert!(told.item_bytes.is_some());
    assert_eq!(told.as_bytes(), named.as_bytes());
}

#[test]
fn stage_binary_reads_its_parts() {
    let mut b = vec![0u8; 0xbc];
    for i in 0..0x14 {
        b[i] = 0x20 + i as u8;
    }
    b[0x14 + 0x7c + 3] = 2;
    b.extend_from_slice(&[0, 0, 5]);
    let whole = stage_binary(&b, Some(StageFileKind::Item)).unwrap();
    let parts = StageMain::from_bytes(&b[0x14..0xbc], Some(&b[..0x14]), Some(&b[0xbc..])).unwrap();
    assert_eq!(whole.as_bytes(), parts.as_bytes());
    // zeros after the common data are no extra data
    let n = no_item_file(&[(0x7c, &[0, 0, 0, 1])]);
    let mut z = n.clone();
    z.extend_from_slice(&[0, 0, 0, 0]);
    let whole = stage_binary(&z, Some(StageFileKind::NoItem)).unwrap();
    let parts = StageMain::from_bytes(&n, None, None).unwrap();
    assert!(whole.extra_info.is_none());
    assert_eq!(whole.as_bytes(), parts.as_bytes());
}
