use macfmt::bootblocks::BootBlockHeader;
use macfmt::common::{DateTime, DateTime2k, DynamicPascalString, PascalString, Style};
use macfmt::m68k::{decode, Addressing, Condition, Instruction, Size, D};
use macfmt::partition::{Block0, OsType};
use macfmt::error::FsError;
use macfmt::rsrc::{from_bcd, DevelopmentStage, MarkingCharacter, MenuItem};
use macfmt::volume::{detect_format, split_path, VolumeFormat};

#[test]
fn boot_code_decodes() {
    let mut b = vec![0u8; 138 + 4];
    b[0] = b'L';
    b[1] = b'K';
    b[7] = 0x17;
    b[10] = 6;
    b[11..17].copy_from_slice(b"System");
    // moveq #1, d0; rts
    b[138..142].copy_from_slice(&[0x70, 0x01, 0x4e, 0x75]);
    let h = BootBlockHeader::parse(&b, 2).unwrap();
    assert_eq!(h.version, 0x17);
    assert!(h.extra_data.is_none());
    assert_eq!(h.system_filename.as_bytes(), b"System");
    let mut it = h.code_iter();
    assert_eq!(it.next(), Some(Instruction::Moveq(1, D(0))));
    assert_eq!(it.next(), Some(Instruction::Rts));
    assert_eq!(it.next(), None);
}

#[test]
fn boot_blocks_need_their_magic() {
    let b = vec![0u8; 200];
    assert!(BootBlockHeader::parse(&b, 2).is_none());
}

#[test]
fn decoder_edge_cases() {
    assert_eq!(decode(&[]), None);
    assert_eq!(decode(&[0xa9f4]), Some(Instruction::ATrap(0xa9f4)));
    assert_eq!(decode(&[0x4e71]), Some(Instruction::Nop));
    // an immediate that is cut short
    assert_eq!(decode(&[0x0080, 0x00ff]), None);
}

#[test]
fn driver_descriptor_block() {
    let mut b = vec![0u8; 512];
    b[0] = b'E';
    b[1] = b'R';
    b[2..4].copy_from_slice(&512u16.to_be_bytes());
    b[4..8].copy_from_slice(&2048u32.to_be_bytes());
    b[16..18].copy_from_slice(&1u16.to_be_bytes());
    b[18..22].copy_from_slice(&64u32.to_be_bytes());
    b[22..24].copy_from_slice(&32u16.to_be_bytes());
    b[24..26].copy_from_slice(&1u16.to_be_bytes());
    let z = Block0::parse(&b).unwrap();
    assert_eq!(z.block_size, 512);
    assert_eq!(z.block_count, 2048);
    assert_eq!(z.drivers.len(), 1);
    assert_eq!(z.drivers[0].start(), 64);
    assert_eq!(z.drivers[0].size(), 32);
    assert_eq!(z.drivers[0].os_type(), OsType::MacOs);
    b[0] = 0;
    assert!(Block0::parse(&b).is_none());
}

#[test]
fn timestamps_convert() {
    assert_eq!(DateTime(2082844800).to_unix_seconds(), 0);
    assert_eq!(DateTime(0).to_unix_seconds(), -2082844800);
    assert_eq!(DateTime::from_unix_seconds(1), Some(DateTime(2082844801)));
    assert_eq!(DateTime::from_unix_seconds(-2082844801), None);
    assert_eq!(DateTime2k(0).to_unix_seconds(), 946684800);
    assert_eq!(DateTime2k::from_unix_seconds(946684801), Some(DateTime2k(1)));
    assert_eq!(DateTime2k::from_unix_seconds(5), None);
}

#[test]
fn strings_and_styles() {
    let s = DynamicPascalString::new("Read Me");
    assert_eq!(s.len(), 7);
    assert_eq!(s.as_bytes(), b"Read Me");
    let mut data = [0u8; 27];
    data[..3].copy_from_slice(b"Vol");
    let p = PascalString { len: 3, data };
    assert_eq!(p.as_bytes(), b"Vol");
    let style = Style(0b101);
    assert!(style.bold());
    assert!(!style.italic());
    assert!(style.underline());
}

#[test]
fn resource_fields() {
    assert_eq!(from_bcd(0x42), 42);
    assert_eq!(DevelopmentStage::from_u8(0x60), Some(DevelopmentStage::Beta));
    assert_eq!(DevelopmentStage::from_u8(0x61), None);
    assert_eq!(MarkingCharacter::new(0), None);
    assert_eq!(MarkingCharacter::new(0x12), Some(MarkingCharacter::Checkmark));
    assert_eq!(MarkingCharacter::new(0x41).map(|m| m.to_u8()), Some(0x41));
    let item = MenuItem::new();
    assert_eq!(item.style(), Style(0));
    assert!(item.text.data.is_empty());
}

#[test]
fn formats_are_detected() {
    let mut img = vec![0u8; 2048];
    assert_eq!(detect_format(&img), Err(FsError::FormatMismatch));
    img[1024] = 0xd2;
    img[1025] = 0xd7;
    assert_eq!(detect_format(&img), Ok(VolumeFormat::Mfs));
    img[1024] = b'B';
    img[1025] = b'D';
    assert_eq!(detect_format(&img), Ok(VolumeFormat::Hfs));
    img[0] = b'E';
    img[1] = b'R';
    assert_eq!(detect_format(&img), Ok(VolumeFormat::Apm));
    assert_eq!(detect_format(&[0u8; 100]), Err(FsError::IoError));
}

#[test]
fn paths_split_at_slashes() {
    assert_eq!(split_path(b"/Sub//inner/"), vec![b"Sub".to_vec(), b"inner".to_vec()]);
    assert_eq!(split_path(b"Read Me"), vec![b"Read Me".to_vec()]);
    assert!(split_path(b"/").is_empty());
    assert!(split_path(b"").is_empty());
}

#[test]
fn status_register_and_branch_forms() {
    assert_eq!(decode(&[0x027c, 0x0700]), Some(Instruction::AndiSr(0x0700)));
    assert_eq!(decode(&[0x0a7c, 0x0001]), Some(Instruction::EoriSr(1)));
    assert_eq!(decode(&[0x007c]), None);
    assert_eq!(decode(&[0x6000, 0x0010]), Some(Instruction::Bra(0x10)));
    assert_eq!(decode(&[0x6000]), None);
    assert_eq!(decode(&[0x51c9, 0xfffe]), Some(Instruction::Db(Condition::False, D(1), 0xfffe)));
    assert_eq!(decode(&[0x4afc]), Some(Instruction::Illegal));
}

#[test]
fn register_moves_and_movep() {
    assert_eq!(decode(&[0x3200]), Some(Instruction::Move(Size::Word, Addressing::DReg(D(0)), Addressing::DReg(D(1)))));
    assert_eq!(decode(&[0x1e03]), Some(Instruction::Move(Size::Byte, Addressing::DReg(D(3)), Addressing::DReg(D(7)))));
    assert_eq!(decode(&[0x0588]), None);
}

#[test]
fn missing_extension_words_give_none() {
    assert_eq!(decode(&[0x4e72]), None);
    assert_eq!(decode(&[0x4e72, 0x2700]), Some(Instruction::Stop(0x2700)));
    assert_eq!(decode(&[0x0c79, 0x0003]), None);
    assert_eq!(decode(&[0x11fc, 0x0064]), None);
}
