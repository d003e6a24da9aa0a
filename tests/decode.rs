use elf_headers::file_header::{get_machine, get_osabi};
use elf_headers::program_header::get_type as get_program_type;
use elf_headers::section_header::{get_flag, get_type as get_section_type};
use elf_headers::{
    sum_offset, AddressWidth, ByteOrder, CodedField, DecodeError, Elf, ElfMachine, ElfOsAbi,
    ElfType, FileHeader, ProgramHeader, ProgramType, SectionHeader, SectionHeaderFlags,
    SectionHeaderType,
};

const ENTRY: u64 = 0x0804_8000;
const SHOFF: u64 = 0x1000;
const SEG_FILESZ: u64 = 0x200;
const SEG_MEMSZ: u64 = 0x300;
const SEG_ALIGN: u64 = 0x1000;
const SEC_ADDR: u64 = 0x0804_8100;
const SEC_OFFSET: u64 = 0x100;
const SEC_SIZE: u64 = 0x50;

fn put(buf: &mut Vec<u8>, v: u64, n: usize, big: bool) {
    for i in 0..n {
        let shift = if big { 8 * (n - 1 - i) } else { 8 * i };
        buf.push((v >> shift) as u8);
    }
}

/// An object file whose three headers hold the values above: an x86
/// executable with one loadable segment and one allocated section.
fn build(wide: bool, big: bool) -> Vec<u8> {
    let a = if wide { 8 } else { 4 };
    let mut b = vec![0x7f, b'E', b'L', b'F'];
    b.push(if wide { 2 } else { 1 });
    b.push(if big { 2 } else { 1 });
    b.push(1); // identification version
    b.push(3); // Linux
    b.push(0); // ABI version
    b.extend_from_slice(&[0; 7]);
    put(&mut b, 2, 2, big); // executable
    put(&mut b, 3, 2, big); // x86
    put(&mut b, 1, 4, big);
    put(&mut b, ENTRY, a, big);
    put(&mut b, if wide { 64 } else { 52 }, a, big);
    put(&mut b, SHOFF, a, big);
    put(&mut b, 0, 4, big);
    put(&mut b, if wide { 64 } else { 52 }, 2, big);
    put(&mut b, if wide { 56 } else { 32 }, 2, big);
    put(&mut b, 1, 2, big);
    put(&mut b, if wide { 72 } else { 40 }, 2, big);
    put(&mut b, 1, 2, big);
    put(&mut b, 0, 2, big);
    assert_eq!(b.len(), if wide { 64 } else { 52 });
    // program header
    put(&mut b, 1, 4, big); // loadable segment
    if wide {
        put(&mut b, 5, 4, big); // flags come right after the type
    }
    put(&mut b, 0, a, big);
    put(&mut b, ENTRY, a, big);
    put(&mut b, ENTRY, a, big);
    put(&mut b, SEG_FILESZ, a, big);
    put(&mut b, SEG_MEMSZ, a, big);
    if !wide {
        put(&mut b, 5, 4, big); // flags come after the sizes
    }
    put(&mut b, SEG_ALIGN, a, big);
    assert_eq!(b.len(), if wide { 120 } else { 84 });
    // section header
    put(&mut b, 0x0b, 4, big);
    put(&mut b, 1, 4, big); // program data
    put(&mut b, 2, a, big); // allocated
    put(&mut b, SEC_ADDR, a, big);
    put(&mut b, SEC_OFFSET, a, big);
    put(&mut b, SEC_SIZE, a, big);
    put(&mut b, 0, a, big);
    put(&mut b, 0, a, big);
    put(&mut b, 16, a, big);
    put(&mut b, 0, a, big);
    assert_eq!(b.len(), if wide { 192 } else { 124 });
    b
}

fn unrecognized(field: CodedField, value: u64) -> DecodeError {
    DecodeError::UnrecognizedCode { field, value }
}

fn decode(b: &[u8]) -> Elf {
    match Elf::from_data(b) {
        Ok(e) => e,
        Err(e) => panic!("decoding failed: {:?}", e),
    }
}

fn decode_err(b: &[u8]) -> DecodeError {
    match Elf::from_data(b) {
        Ok(_) => panic!("decoding succeeded"),
        Err(e) => e,
    }
}

fn assert_shared_fields(x: &Elf, y: &Elf) {
    let (f, g) = (&x.file_header, &y.file_header);
    assert_eq!(f.ei_osabi, g.ei_osabi);
    assert_eq!(f.ei_version, g.ei_version);
    assert_eq!(f.e_type, g.e_type);
    assert_eq!(f.e_machine, g.e_machine);
    assert_eq!(f.e_version, g.e_version);
    assert_eq!(f.e_entry, g.e_entry);
    assert_eq!(f.e_shoff, g.e_shoff);
    assert_eq!(f.e_flags, g.e_flags);
    assert_eq!(f.e_phnum, g.e_phnum);
    assert_eq!(f.e_shnum, g.e_shnum);
    assert_eq!(f.e_shstrndx, g.e_shstrndx);
    let (p, q) = (&x.program_header, &y.program_header);
    assert_eq!(p.p_type, q.p_type);
    assert_eq!(p.p_flags, q.p_flags);
    assert_eq!(p.p_offset, q.p_offset);
    assert_eq!(p.p_vaddr, q.p_vaddr);
    assert_eq!(p.p_paddr, q.p_paddr);
    assert_eq!(p.p_filesz, q.p_filesz);
    assert_eq!(p.p_memsz, q.p_memsz);
    assert_eq!(p.p_allign, q.p_allign);
    let (s, t) = (&x.section_header, &y.section_header);
    assert_eq!(s.sh_name, t.sh_name);
    assert_eq!(s.sh_type, t.sh_type);
    assert_eq!(s.sh_flags, t.sh_flags);
    assert_eq!(s.sh_addr, t.sh_addr);
    assert_eq!(s.sh_offset, t.sh_offset);
    assert_eq!(s.sh_size, t.sh_size);
    assert_eq!(s.sh_link, t.sh_link);
    assert_eq!(s.sh_info, t.sh_info);
    assert_eq!(s.sh_addralign, t.sh_addralign);
    assert_eq!(s.sh_entsize, t.sh_entsize);
}

#[test]
fn round_trip_32_bit_little_endian() {
    let e = decode(&build(false, false));
    let f = &e.file_header;
    assert_eq!([f.ei_mag0, f.ei_mag1, f.ei_mag2, f.ei_mag3], [0x7f, 0x45, 0x4c, 0x46]);
    assert_eq!(f.ei_class, AddressWidth::ThirtyTwoBit);
    assert_eq!(f.ei_data, ByteOrder::Little);
    assert_eq!(f.ei_version, 1);
    assert_eq!(f.ei_osabi, ElfOsAbi::Linux);
    assert_eq!(f.ei_abiversion, 0);
    assert_eq!(f.ei_pad, [0; 7]);
    assert_eq!(f.e_type, ElfType::Exec);
    assert_eq!(f.e_machine, ElfMachine::X86);
    assert_eq!(f.e_version, 1);
    assert_eq!(f.e_entry, ENTRY);
    assert_eq!(f.e_phoff, 52);
    assert_eq!(f.e_shoff, SHOFF);
    assert_eq!(f.e_flags, 0);
    assert_eq!(f.e_ehsize, 52);
    assert_eq!(f.e_phentsize, 32);
    assert_eq!(f.e_phnum, 1);
    assert_eq!(f.e_shentsize, 40);
    assert_eq!(f.e_shnum, 1);
    assert_eq!(f.e_shstrndx, 0);
    let p = &e.program_header;
    assert_eq!(p.p_type, ProgramType::Load);
    assert_eq!(p.p_flags, 5);
    assert_eq!(p.p_offset, 0);
    assert_eq!(p.p_vaddr, ENTRY);
    assert_eq!(p.p_paddr, ENTRY);
    assert_eq!(p.p_filesz, SEG_FILESZ);
    assert_eq!(p.p_memsz, SEG_MEMSZ);
    assert_eq!(p.p_allign, SEG_ALIGN);
    let s = &e.section_header;
    assert_eq!(s.sh_name, 0x0b);
    assert_eq!(s.sh_type, SectionHeaderType::ProgBits);
    assert_eq!(s.sh_flags, SectionHeaderFlags::Alloc);
    assert_eq!(s.sh_addr, SEC_ADDR);
    assert_eq!(s.sh_offset, SEC_OFFSET);
    assert_eq!(s.sh_size, SEC_SIZE);
    assert_eq!(s.sh_link, 0);
    assert_eq!(s.sh_info, 0);
    assert_eq!(s.sh_addralign, 16);
    assert_eq!(s.sh_entsize, 0);
}

#[test]
fn widths_agree_on_shared_fields() {
    let narrow = decode(&build(false, false));
    let wide = decode(&build(true, false));
    assert_eq!(wide.file_header.ei_class, AddressWidth::SixtyFourBit);
    assert_eq!(wide.file_header.e_phoff, 64);
    assert_eq!(wide.file_header.e_ehsize, 64);
    assert_eq!(wide.file_header.e_phentsize, 56);
    assert_eq!(wide.file_header.e_shentsize, 72);
    assert_shared_fields(&narrow, &wide);
}

#[test]
fn wide_section_header_takes_full_words() {
    let mut b = build(true, true);
    let link = 120 + 8 + 4 * 8;
    b[link..link + 8].copy_from_slice(&0x0102_0304_0506_0708u64.to_be_bytes());
    let e = decode(&b);
    assert_eq!(e.section_header.sh_link, 0x0102_0304_0506_0708);
}

#[test]
fn byte_orders_agree() {
    let little = decode(&build(false, false));
    let big = decode(&build(false, true));
    assert_eq!(big.file_header.ei_data, ByteOrder::Big);
    assert_shared_fields(&little, &big);
    let wide_big = decode(&build(true, true));
    assert_shared_fields(&little, &wide_big);
}

#[test]
fn sum_offset_weighs_bytes_by_position() {
    let d = [0x01, 0x02, 0x03, 0x04, 0x00, 0x01];
    assert_eq!(sum_offset(&d, 0, 4, ByteOrder::Little), Ok(0x0403_0201));
    assert_eq!(sum_offset(&d, 0, 4, ByteOrder::Big), Ok(0x0102_0304));
    assert_eq!(sum_offset(&d, 4, 2, ByteOrder::Little), Ok(0x0100));
    assert_eq!(sum_offset(&d, 4, 2, ByteOrder::Big), Ok(0x0001));
    assert_eq!(sum_offset(&d, 2, 1, ByteOrder::Big), Ok(3));
    let all = [0xff; 8];
    assert_eq!(sum_offset(&all, 0, 8, ByteOrder::Little), Ok(u64::MAX));
}

#[test]
fn sum_offset_same_value_in_mirrored_bytes() {
    let le = 0x1234_5678_9abc_def0u64.to_le_bytes();
    let be = 0x1234_5678_9abc_def0u64.to_be_bytes();
    let x = sum_offset(&le, 0, 8, ByteOrder::Little);
    assert_eq!(x, sum_offset(&be, 0, 8, ByteOrder::Big));
    assert_eq!(x, Ok(0x1234_5678_9abc_def0));
    assert_ne!(x, sum_offset(&le, 0, 8, ByteOrder::Big));
}

#[test]
fn sum_offset_truncated() {
    let d = [1, 2, 3];
    assert_eq!(
        sum_offset(&d, 0, 4, ByteOrder::Little),
        Err(DecodeError::Truncated { offset: 0, width: 4 })
    );
    assert_eq!(
        sum_offset(&d, 5, 1, ByteOrder::Big),
        Err(DecodeError::Truncated { offset: 5, width: 1 })
    );
    assert_eq!(
        sum_offset(&d, usize::MAX, 2, ByteOrder::Big),
        Err(DecodeError::Truncated { offset: usize::MAX, width: 2 })
    );
}

#[test]
fn corrupt_magic_is_rejected() {
    let good = build(false, false);
    for i in 0..4 {
        let mut b = good.clone();
        b[i] ^= 0x20;
        assert_eq!(decode_err(&b), DecodeError::BadMagic);
        assert!(matches!(FileHeader::new(&b), Err(DecodeError::BadMagic)));
    }
}

/// Offset and width of every field of the 32-bit bundle, in stored order.
fn fields_32() -> Vec<(usize, usize)> {
    let mut v = vec![(0, 4), (4, 1), (5, 1), (6, 1), (7, 1), (8, 1), (9, 7), (16, 2), (18, 2)];
    v.extend([(20, 4), (24, 4), (28, 4), (32, 4), (36, 4)]);
    v.extend([(40, 2), (42, 2), (44, 2), (46, 2), (48, 2), (50, 2)]);
    for i in 0..8 {
        v.push((52 + 4 * i, 4));
    }
    for i in 0..10 {
        v.push((84 + 4 * i, 4));
    }
    v
}

/// Offset and width of every field of the 64-bit bundle, in stored order.
fn fields_64() -> Vec<(usize, usize)> {
    let mut v = vec![(0, 4), (4, 1), (5, 1), (6, 1), (7, 1), (8, 1), (9, 7), (16, 2), (18, 2)];
    v.extend([(20, 4), (24, 8), (32, 8), (40, 8), (48, 4)]);
    v.extend([(52, 2), (54, 2), (56, 2), (58, 2), (60, 2), (62, 2)]);
    v.extend([(64, 4), (68, 4)]);
    for i in 0..6 {
        v.push((72 + 8 * i, 8));
    }
    v.extend([(120, 4), (124, 4)]);
    for i in 0..8 {
        v.push((128 + 8 * i, 8));
    }
    v
}

#[test]
fn truncation_reports_the_field_32() {
    let b = build(false, false);
    for (off, width) in fields_32() {
        let cut = &b[..off + width - 1];
        assert_eq!(decode_err(cut), DecodeError::Truncated { offset: off, width }, "field at {}", off);
    }
}

#[test]
fn truncation_reports_the_field_64() {
    let b = build(true, true);
    for (off, width) in fields_64() {
        let cut = &b[..off + width - 1];
        assert_eq!(decode_err(cut), DecodeError::Truncated { offset: off, width }, "field at {}", off);
    }
}

#[test]
fn empty_buffer_is_truncated() {
    assert_eq!(decode_err(&[]), DecodeError::Truncated { offset: 0, width: 4 });
    assert!(matches!(
        ProgramHeader::new(&[], AddressWidth::SixtyFourBit, ByteOrder::Little),
        Err(DecodeError::Truncated { offset: 0, width: 4 })
    ));
    assert!(matches!(
        SectionHeader::new(&[], AddressWidth::ThirtyTwoBit, ByteOrder::Big),
        Err(DecodeError::Truncated { offset: 0, width: 4 })
    ));
}

#[test]
fn unknown_codes_are_rejected() {
    let good = build(false, false);
    let cases: [(usize, u8, CodedField, u64); 8] = [
        (4, 3, CodedField::Class, 3),
        (5, 0, CodedField::Data, 0),
        (7, 0x05, CodedField::OsAbi, 5),
        (16, 0x05, CodedField::ObjectType, 5),
        (18, 0x0b, CodedField::Machine, 0x0b),
        (52, 0x08, CodedField::SegmentType, 8),
        (88, 0x0c, CodedField::SectionType, 0x0c),
        (92, 0x03, CodedField::SectionFlags, 3),
    ];
    for (at, byte, field, value) in cases {
        let mut b = good.clone();
        b[at] = byte;
        assert_eq!(decode_err(&b), unrecognized(field, value));
    }
}

#[test]
fn unknown_wide_section_flags_are_rejected() {
    let mut b = build(true, false);
    b[128 + 7] = 0x01;
    assert_eq!(
        decode_err(&b),
        unrecognized(CodedField::SectionFlags, 0x0100_0000_0000_0002)
    );
}

#[test]
fn resolvers_follow_the_tables() {
    assert_eq!(get_osabi(0x12), Ok(ElfOsAbi::StratusTechnologiesOpenVOS));
    assert_eq!(get_osabi(0x13), Err(unrecognized(CodedField::OsAbi, 0x13)));
    assert_eq!(elf_headers::file_header::get_type(0xfe00), Ok(ElfType::LoOS));
    assert_eq!(elf_headers::file_header::get_type(0xffff), Ok(ElfType::HiProc));
    assert_eq!(
        elf_headers::file_header::get_type(5),
        Err(unrecognized(CodedField::ObjectType, 5))
    );
    assert_eq!(get_machine(0x3e), Ok(ElfMachine::AMDx86_64));
    assert_eq!(get_machine(0xb7), Ok(ElfMachine::ARM64bitsARMv8Aarch64));
    assert_eq!(get_machine(0xf3), Ok(ElfMachine::RiscV));
    assert_eq!(get_machine(0x101), Ok(ElfMachine::WDC65C816));
    assert_eq!(get_machine(0x0b), Err(unrecognized(CodedField::Machine, 0x0b)));
    assert_eq!(get_program_type(0x6000_0000), Ok(ProgramType::LoOS));
    assert_eq!(get_program_type(0x7fff_ffff), Ok(ProgramType::HiProc));
    assert_eq!(get_program_type(8), Err(unrecognized(CodedField::SegmentType, 8)));
    assert_eq!(get_section_type(0x13), Ok(SectionHeaderType::Num));
    assert_eq!(get_section_type(0x6000_0000), Ok(SectionHeaderType::LoOs));
    assert_eq!(get_section_type(0x0c), Err(unrecognized(CodedField::SectionType, 0x0c)));
    assert_eq!(get_flag(0x0800_0000), Ok(SectionHeaderFlags::Exclude));
    assert_eq!(get_flag(0xf000_0000), Ok(SectionHeaderFlags::Maskproc));
    assert_eq!(get_flag(0), Err(unrecognized(CodedField::SectionFlags, 0)));
}

#[test]
fn program_header_layouts() {
    let mut narrow = Vec::new();
    for v in [6u32, 0x10, 0x20, 0x30, 0x40, 0x50, 4, 8] {
        narrow.extend_from_slice(&v.to_le_bytes());
    }
    let p = match ProgramHeader::new(&narrow, AddressWidth::ThirtyTwoBit, ByteOrder::Little) {
        Ok(p) => p,
        Err(e) => panic!("{:?}", e),
    };
    assert_eq!(p.p_type, ProgramType::PHdr);
    assert_eq!((p.p_offset, p.p_vaddr, p.p_paddr), (0x10, 0x20, 0x30));
    assert_eq!((p.p_filesz, p.p_memsz, p.p_flags, p.p_allign), (0x40, 0x50, 4, 8));

    let mut wide = Vec::new();
    wide.extend_from_slice(&7u32.to_be_bytes());
    wide.extend_from_slice(&6u32.to_be_bytes());
    for v in [0x10u64, 0x20, 0x30, 0x40, 0x50, 0x1_0000_0000] {
        wide.extend_from_slice(&v.to_be_bytes());
    }
    let q = match ProgramHeader::new(&wide, AddressWidth::SixtyFourBit, ByteOrder::Big) {
        Ok(q) => q,
        Err(e) => panic!("{:?}", e),
    };
    assert_eq!(q.p_type, ProgramType::Tls);
    assert_eq!(q.p_flags, 6);
    assert_eq!((q.p_offset, q.p_vaddr, q.p_paddr), (0x10, 0x20, 0x30));
    assert_eq!((q.p_filesz, q.p_memsz, q.p_allign), (0x40, 0x50, 0x1_0000_0000));
}

#[test]
fn headers_at_an_offset() {
    let b = build(false, true);
    let p = ProgramHeader::new_at(&b, 52, AddressWidth::ThirtyTwoBit, ByteOrder::Big);
    assert!(matches!(p, Ok(ProgramHeader { p_type: ProgramType::Load, p_flags: 5, .. })));
    let s = SectionHeader::new_at(&b, 84, AddressWidth::ThirtyTwoBit, ByteOrder::Big);
    assert!(matches!(s, Ok(SectionHeader { sh_size: SEC_SIZE, sh_addralign: 16, .. })));
    let s = SectionHeader::new_at(&b, 84, AddressWidth::ThirtyTwoBit, ByteOrder::Little);
    assert_eq!(s.err(), Some(unrecognized(CodedField::SectionType, 0x0100_0000)));
}

#[test]
fn address_width_word_bytes() {
    assert_eq!(AddressWidth::ThirtyTwoBit.word_bytes(), 4);
    assert_eq!(AddressWidth::SixtyFourBit.word_bytes(), 8);
}
