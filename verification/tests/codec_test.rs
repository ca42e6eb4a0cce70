use mtklogo::errors::FormatError;
use mtklogo::{LogoImage, LogoTable, MtkHeader, MtkType};

fn header_bytes(h: &MtkHeader) -> Vec<u8> {
    let mut out = Vec::new();
    h.write(&mut out);
    out
}

#[test]
fn header_writes_exactly_512_bytes() {
    let h = MtkHeader { size: 0xDEAD, mtk_type: MtkType::LOGO };
    let bytes = header_bytes(&h);
    assert_eq!(bytes.len(), 512);
    // magic, big-endian
    assert_eq!(&bytes[0..4], &[0x88, 0x16, 0x88, 0x58]);
    // size, little-endian
    assert_eq!(&bytes[4..8], &[0xAD, 0xDE, 0x00, 0x00]);
    // tag, ASCII, zero-padded
    assert_eq!(&bytes[8..12], b"LOGO");
    assert_eq!(bytes[12], 0);
    // fill
    assert_eq!(bytes[40], 0xFF);
    assert_eq!(bytes[511], 0xFF);
}

#[test]
fn header_round_trips() {
    for t in [MtkType::RECOVERY, MtkType::ROOTFS, MtkType::KERNEL, MtkType::LOGO] {
        let h = MtkHeader { size: 123456, mtk_type: t };
        let bytes = header_bytes(&h);
        assert_eq!(MtkHeader::read(&bytes), Ok(h));
    }
}

#[test]
fn header_tag_is_case_insensitive() {
    let h = MtkHeader { size: 7, mtk_type: MtkType::LOGO };
    let mut bytes = header_bytes(&h);
    bytes[8] = b'l';
    bytes[9] = b'o';
    let back = MtkHeader::read(&bytes).unwrap();
    assert_eq!(back.mtk_type, MtkType::LOGO);
}

#[test]
fn header_rejects_bad_magic() {
    let h = MtkHeader { size: 7, mtk_type: MtkType::LOGO };
    let mut bytes = header_bytes(&h);
    bytes[0] = 0x00;
    assert_eq!(MtkHeader::read(&bytes), Err(FormatError::BadMagic));
}

#[test]
fn header_rejects_unknown_type() {
    let h = MtkHeader { size: 7, mtk_type: MtkType::LOGO };
    let mut bytes = header_bytes(&h);
    bytes[8] = b'X';
    assert_eq!(MtkHeader::read(&bytes), Err(FormatError::UnknownType));
}

#[test]
fn header_rejects_truncated_stream() {
    let h = MtkHeader { size: 7, mtk_type: MtkType::LOGO };
    let bytes = header_bytes(&h);
    assert_eq!(MtkHeader::read(&bytes[0..100]), Err(FormatError::Truncated));
    assert_eq!(MtkHeader::read(&[]), Err(FormatError::Truncated));
}

#[test]
fn header_padding_policy_is_explicit() {
    let h = MtkHeader { size: 7, mtk_type: MtkType::LOGO };
    let mut bytes = header_bytes(&h);
    // a pristine header passes under either policy.
    assert_eq!(MtkHeader::read_checked(&bytes, false), Ok(h));
    assert_eq!(MtkHeader::read_checked(&bytes, true), Ok(h));
    // vendor-dependent padding passes only the permissive reading.
    bytes[100] = 0x00;
    assert_eq!(MtkHeader::read_checked(&bytes, false), Ok(h));
    assert_eq!(MtkHeader::read_checked(&bytes, true), Err(FormatError::BadFill));
}

fn sample_table() -> LogoTable {
    LogoTable {
        header: MtkHeader { size: 162, mtk_type: MtkType::LOGO },
        logo_count: 2,
        block_size: 162,
        offsets: vec![12, 112],
    }
}

#[test]
fn table_round_trips() {
    let t = sample_table();
    let mut bytes = Vec::new();
    t.write(&mut bytes);
    assert_eq!(bytes.len(), 512 + 8 + 8);
    let back = LogoTable::read(&bytes).unwrap();
    assert_eq!(back.header, t.header);
    assert_eq!(back.logo_count, 2);
    assert_eq!(back.block_size, 162);
    assert_eq!(back.offsets, vec![12, 112]);
}

#[test]
fn table_rejects_size_mismatch() {
    let mut t = sample_table();
    t.block_size = 161;
    let mut bytes = Vec::new();
    t.write(&mut bytes);
    assert!(matches!(LogoTable::read(&bytes), Err(FormatError::SizeMismatch)));
}

#[test]
fn table_rejects_non_logo_header() {
    let mut t = sample_table();
    t.header.mtk_type = MtkType::KERNEL;
    let mut bytes = Vec::new();
    t.write(&mut bytes);
    assert!(matches!(LogoTable::read(&bytes), Err(FormatError::NotALogo)));
}

#[test]
fn container_round_trips() {
    let b1: Vec<u8> = (0..100u32).map(|i| i as u8).collect();
    let b2: Vec<u8> = (0..50u32).map(|i| (i * 3) as u8).collect();
    let image = LogoImage::new_blobs(vec![b1.clone(), b2.clone()]);
    // the derived table: two header words plus one offset word per slot
    // put the first blob at (2 + 2) * 4 = 16.
    assert_eq!(image.table.offsets, vec![16, 116]);
    assert_eq!(image.table.block_size, 166);
    assert_eq!(image.table.header.size, 166);
    assert_eq!(image.table.logo_count, 2);
    let mut bytes = Vec::new();
    image.write(&mut bytes);
    assert_eq!(bytes.len(), 512 + 166);
    let back = LogoImage::read(&bytes).unwrap();
    assert_eq!(back.blobs, vec![b1, b2]);
    assert_eq!(back.table.offsets, vec![16, 116]);
}

#[test]
fn container_keeps_empty_blobs() {
    let image = LogoImage::new_blobs(vec![vec![], vec![1, 2, 3], vec![]]);
    let mut bytes = Vec::new();
    image.write(&mut bytes);
    let back = LogoImage::read(&bytes).unwrap();
    assert_eq!(back.blobs, vec![vec![], vec![1, 2, 3], vec![]]);
}

#[test]
fn read_blob_is_random_access() {
    let b1: Vec<u8> = vec![9; 8];
    let b2: Vec<u8> = vec![7; 4];
    let image = LogoImage::new_blobs(vec![b1, b2.clone()]);
    let mut bytes = Vec::new();
    image.write(&mut bytes);
    // the second slot can be read without touching the first.
    let blob = image.table.read_blob(&bytes, 1).unwrap();
    assert_eq!(blob, b2);
}

#[test]
fn read_blob_rejects_backwards_offsets() {
    let t = LogoTable {
        header: MtkHeader { size: 200, mtk_type: MtkType::LOGO },
        logo_count: 2,
        block_size: 200,
        offsets: vec![100, 50],
    };
    let data = vec![0u8; 1024];
    assert_eq!(t.read_blob(&data, 0), Err(FormatError::BadOffsets));
}

#[test]
fn slots_extract_independently_in_any_order() {
    let blobs = vec![vec![1u8; 10], vec![2u8; 20], vec![3u8; 5]];
    let image = LogoImage::new_blobs(blobs.clone());
    let mut bytes = Vec::new();
    image.write(&mut bytes);
    // extracting slot by slot, last first, matches the sequential reading.
    let sequential = image.table.read_blobs(&bytes).unwrap();
    for i in (0..blobs.len()).rev() {
        assert_eq!(image.table.read_blob(&bytes, i).unwrap(), sequential[i]);
        assert_eq!(sequential[i], blobs[i]);
    }
}

#[test]
fn image_read_rejects_truncated_blobs() {
    let image = LogoImage::new_blobs(vec![vec![1; 30], vec![2; 20]]);
    let mut bytes = Vec::new();
    image.write(&mut bytes);
    bytes.truncate(bytes.len() - 5);
    assert!(matches!(LogoImage::read(&bytes), Err(FormatError::Truncated)));
}
