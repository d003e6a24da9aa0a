use vstd::prelude::*;

use crate::utils::{
    encodes, field_value, first_short, fits, lemma_encode_read, lemma_field_value_take,
    lemma_first_short_all_fit, lemma_first_short_cut, lemma_first_short_none, lemma_pow256_8,
    pow256, sum_offset, truncated, unrecognized, word_len, AddressWidth, ByteOrder, CodedField,
    DecodeError,
};

verus! {

/// The file header: the identification bytes and the fields that locate
/// the program and section header tables.
pub struct FileHeader {
    pub ei_mag0: u8,
    pub ei_mag1: u8,
    pub ei_mag2: u8,
    pub ei_mag3: u8,
    /// Address width, from identification byte 4.
    pub ei_class: AddressWidth,
    /// Byte order, from identification byte 5.
    pub ei_data: ByteOrder,
    pub ei_version: u8,
    pub ei_osabi: ElfOsAbi,
    pub ei_abiversion: u8,
    pub ei_pad: [u8; 7],
    pub e_type: ElfType,
    pub e_machine: ElfMachine,
    pub e_version: u32,
    pub e_entry: u64,
    pub e_phoff: u64,
    pub e_shoff: u64,
    pub e_flags: u32,
    pub e_ehsize: u16,
    pub e_phentsize: u16,
    pub e_phnum: u16,
    pub e_shentsize: u16,
    pub e_shnum: u16,
    pub e_shstrndx: u16,
}

/// Whether the first four bytes are the magic `0x7f 'E' 'L' 'F'`.
pub open spec fn magic_ok(d: Seq<u8>) -> bool {
    &&& d[0] == 0x7f
    &&& d[1] == 0x45
    &&& d[2] == 0x4c
    &&& d[3] == 0x46
}

/// Address width named by identification byte 4.
pub open spec fn class_of(b: u8) -> Option<AddressWidth> {
    if b == 1 {
        Some(AddressWidth::ThirtyTwoBit)
    } else if b == 2 {
        Some(AddressWidth::SixtyFourBit)
    } else {
        None
    }
}

/// Byte order named by identification byte 5.
pub open spec fn data_of(b: u8) -> Option<ByteOrder> {
    if b == 1 {
        Some(ByteOrder::Little)
    } else if b == 2 {
        Some(ByteOrder::Big)
    } else {
        None
    }
}

/// Size of the file header: 52 bytes at 32 bits, 64 at 64 bits.
pub open spec fn file_header_len(w: AddressWidth) -> nat {
    40 + 3 * word_len(w)
}

/// Whether `v` is in the OS/ABI table.
pub open spec fn osabi_known(v: u8) -> bool {
    exists|x: ElfOsAbi| osabi_code(x) == v
}

/// Whether `v` is in the object type table.
pub open spec fn type_known(v: nat) -> bool {
    exists|x: ElfType| type_code(x) == v
}

/// Whether `v` is in the machine table.
pub open spec fn machine_known(v: nat) -> bool {
    exists|x: ElfMachine| machine_code(x) == v
}

/// Byte offset and width of each field after the machine code, in order.
/// `e_entry`, `e_phoff` and `e_shoff` take one address word each.
pub open spec fn tail_field(w: AddressWidth, i: int) -> (int, int) {
    let a = word_len(w) as int;
    if i == 0 {
        (20, 4)
    } else if i <= 3 {
        (24 + (i - 1) * a, a)
    } else if i == 4 {
        (24 + 3 * a, 4)
    } else {
        (28 + 3 * a + (i - 5) * 2, 2)
    }
}

/// Why `d` does not start with a file header, or `None` where it does:
/// the checks come in the order of the fields, and the first that fails
/// gives the error.
pub open spec fn file_header_error(d: Seq<u8>) -> Option<DecodeError> {
    if !fits(d, 0, 4) {
        Some(truncated(0, 4))
    } else if !magic_ok(d) {
        Some(DecodeError::BadMagic)
    } else if !fits(d, 4, 1) {
        Some(truncated(4, 1))
    } else if class_of(d[4]) is None {
        Some(unrecognized(CodedField::Class, d[4] as u64))
    } else if !fits(d, 5, 1) {
        Some(truncated(5, 1))
    } else if data_of(d[5]) is None {
        Some(unrecognized(CodedField::Data, d[5] as u64))
    } else if !fits(d, 6, 1) {
        Some(truncated(6, 1))
    } else if !fits(d, 7, 1) {
        Some(truncated(7, 1))
    } else if !osabi_known(d[7]) {
        Some(unrecognized(CodedField::OsAbi, d[7] as u64))
    } else if !fits(d, 8, 1) {
        Some(truncated(8, 1))
    } else if !fits(d, 9, 7) {
        Some(truncated(9, 7))
    } else {
        let o = data_of(d[5])->Some_0;
        let w = class_of(d[4])->Some_0;
        if !fits(d, 16, 2) {
            Some(truncated(16, 2))
        } else if !type_known(field_value(d, 16, 2, o)) {
            Some(unrecognized(CodedField::ObjectType, field_value(d, 16, 2, o) as u64))
        } else if !fits(d, 18, 2) {
            Some(truncated(18, 2))
        } else if !machine_known(field_value(d, 18, 2, o)) {
            Some(unrecognized(CodedField::Machine, field_value(d, 18, 2, o) as u64))
        } else {
            first_short(d, |i: int| tail_field(w, i), 0, 11)
        }
    }
}

/// The value of the `i`-th field after the machine code.
pub open spec fn tail_value(d: Seq<u8>, w: AddressWidth, o: ByteOrder, i: int) -> nat {
    field_value(d, tail_field(w, i).0, tail_field(w, i).1, o)
}

/// Offset and width of each field of the file header, in the order they
/// are stored.
pub open spec fn file_header_field(w: AddressWidth, i: int) -> (int, int) {
    if i == 0 {
        (0, 4)
    } else if i <= 5 {
        (3 + i, 1)
    } else if i == 6 {
        (9, 7)
    } else if i == 7 {
        (16, 2)
    } else if i == 8 {
        (18, 2)
    } else {
        tail_field(w, i - 9)
    }
}

/// Number of fields of the file header.
pub open spec fn file_header_field_count() -> int {
    20
}

/// Cutting a buffer that starts with a file header one byte short of the
/// end of any of its fields makes decoding fail with `Truncated` at that
/// field.
pub proof fn lemma_file_header_truncated(d: Seq<u8>, i: int)
    requires
        file_header_error(d) is None,
        0 <= i < file_header_field_count(),
    ensures
        ({
            let (off, width) = file_header_field(class_of(d[4])->Some_0, i);
            file_header_error(d.take(off + width - 1)) == Some(truncated(off, width))
        }),
{
    let w = class_of(d[4])->Some_0;
    let o = data_of(d[5])->Some_0;
    let (off, width) = file_header_field(w, i);
    let len = off + width - 1;
    let d2 = d.take(len);
    let f = |k: int| tail_field(w, k);
    lemma_first_short_none(d, f, 0, 11);
    assert(fits(d, f(10).0, f(10).1));
    if len >= 18 {
        lemma_field_value_take(d, len, 16, 2, o);
    }
    if len >= 20 {
        lemma_field_value_take(d, len, 18, 2, o);
    }
    if i >= 9 {
        assert forall|k: int| 0 <= k < i - 9 implies #[trigger] f(k).0 + f(k).1 <= len by {
            if w is ThirtyTwoBit {
            } else {
            }
        }
        lemma_first_short_cut(d, f, 0, i - 9, 11, len);
    }
}

/// Identification byte 4 for each address width.
pub open spec fn class_byte(w: AddressWidth) -> u8 {
    match w {
        AddressWidth::ThirtyTwoBit => 1,
        AddressWidth::SixtyFourBit => 2,
    }
}

/// Identification byte 5 for each byte order.
pub open spec fn data_byte(o: ByteOrder) -> u8 {
    match o {
        ByteOrder::Little => 1,
        ByteOrder::Big => 2,
    }
}

/// Whether `h` carries the magic bytes and its address fields fit its own
/// address width.
pub open spec fn file_header_fits(h: FileHeader) -> bool {
    let m = pow256(word_len(h.ei_class));
    &&& h.ei_mag0 == 0x7f && h.ei_mag1 == 0x45 && h.ei_mag2 == 0x4c && h.ei_mag3 == 0x46
    &&& h.e_entry < m
    &&& h.e_phoff < m
    &&& h.e_shoff < m
}

/// Whether `d` starts with each field of `h` where a file header of `h`'s
/// own address width and byte order keeps it.
pub open spec fn file_header_laid_out(h: FileHeader, d: Seq<u8>) -> bool {
    let w = h.ei_class;
    let o = h.ei_data;
    let t = |i: int| tail_field(w, i);
    &&& d.len() >= 16
    &&& d[0] == h.ei_mag0 && d[1] == h.ei_mag1 && d[2] == h.ei_mag2 && d[3] == h.ei_mag3
    &&& d[4] == class_byte(w)
    &&& d[5] == data_byte(o)
    &&& d[6] == h.ei_version
    &&& d[7] == osabi_code(h.ei_osabi)
    &&& d[8] == h.ei_abiversion
    &&& d.subrange(9, 16) == h.ei_pad@
    &&& encodes(d, 16, 2, type_code(h.e_type) as nat, o)
    &&& encodes(d, 18, 2, machine_code(h.e_machine) as nat, o)
    &&& encodes(d, t(0).0, t(0).1, h.e_version as nat, o)
    &&& encodes(d, t(1).0, t(1).1, h.e_entry as nat, o)
    &&& encodes(d, t(2).0, t(2).1, h.e_phoff as nat, o)
    &&& encodes(d, t(3).0, t(3).1, h.e_shoff as nat, o)
    &&& encodes(d, t(4).0, t(4).1, h.e_flags as nat, o)
    &&& encodes(d, t(5).0, t(5).1, h.e_ehsize as nat, o)
    &&& encodes(d, t(6).0, t(6).1, h.e_phentsize as nat, o)
    &&& encodes(d, t(7).0, t(7).1, h.e_phnum as nat, o)
    &&& encodes(d, t(8).0, t(8).1, h.e_shentsize as nat, o)
    &&& encodes(d, t(9).0, t(9).1, h.e_shnum as nat, o)
    &&& encodes(d, t(10).0, t(10).1, h.e_shstrndx as nat, o)
}

/// A file header laid out in bytes decodes to itself.
pub proof fn lemma_file_header_round_trip(h: FileHeader, d: Seq<u8>)
    requires
        file_header_laid_out(h, d),
        file_header_fits(h),
    ensures
        file_header_error(d) is None,
        h.decoded_from(d),
{
    lemma_pow256_8();
    let w = h.ei_class;
    let o = h.ei_data;
    let t = |i: int| tail_field(w, i);
    lemma_encode_read(d, 16, 2, type_code(h.e_type) as nat, o);
    lemma_encode_read(d, 18, 2, machine_code(h.e_machine) as nat, o);
    lemma_encode_read(d, t(0).0, t(0).1, h.e_version as nat, o);
    lemma_encode_read(d, t(1).0, t(1).1, h.e_entry as nat, o);
    lemma_encode_read(d, t(2).0, t(2).1, h.e_phoff as nat, o);
    lemma_encode_read(d, t(3).0, t(3).1, h.e_shoff as nat, o);
    lemma_encode_read(d, t(4).0, t(4).1, h.e_flags as nat, o);
    lemma_encode_read(d, t(5).0, t(5).1, h.e_ehsize as nat, o);
    lemma_encode_read(d, t(6).0, t(6).1, h.e_phentsize as nat, o);
    lemma_encode_read(d, t(7).0, t(7).1, h.e_phnum as nat, o);
    lemma_encode_read(d, t(8).0, t(8).1, h.e_shentsize as nat, o);
    lemma_encode_read(d, t(9).0, t(9).1, h.e_shnum as nat, o);
    lemma_encode_read(d, t(10).0, t(10).1, h.e_shstrndx as nat, o);
    assert forall|k: int| 0 <= k < 11 implies fits(d, #[trigger] t(k).0, t(k).1) by {
        assert(k == 0 || k == 1 || k == 2 || k == 3 || k == 4 || k == 5 || k == 6 || k == 7
            || k == 8 || k == 9 || k == 10);
    }
    lemma_first_short_all_fit(d, t, 0, 11);
    assert(osabi_known(d[7]));
    assert(type_known(field_value(d, 16, 2, o)));
    assert(machine_known(field_value(d, 18, 2, o)));
}

/// The same file header values laid out once at 32 bits and once at 64
/// bits, in either byte order, decode from both buffers to values that
/// differ in nothing but the address width and byte order they record.
pub proof fn lemma_file_header_widths_agree(
    h: FileHeader,
    d32: Seq<u8>,
    o32: ByteOrder,
    d64: Seq<u8>,
    o64: ByteOrder,
)
    requires
        file_header_fits(h),
        h.e_entry < 0x1_0000_0000,
        h.e_phoff < 0x1_0000_0000,
        h.e_shoff < 0x1_0000_0000,
        file_header_laid_out(
            FileHeader { ei_class: AddressWidth::ThirtyTwoBit, ei_data: o32, ..h },
            d32,
        ),
        file_header_laid_out(
            FileHeader { ei_class: AddressWidth::SixtyFourBit, ei_data: o64, ..h },
            d64,
        ),
    ensures
        file_header_error(d32) is None,
        file_header_error(d64) is None,
        (FileHeader { ei_class: AddressWidth::ThirtyTwoBit, ei_data: o32, ..h }).decoded_from(d32),
        (FileHeader { ei_class: AddressWidth::SixtyFourBit, ei_data: o64, ..h }).decoded_from(d64),
{
    lemma_pow256_8();
    lemma_file_header_round_trip(
        FileHeader { ei_class: AddressWidth::ThirtyTwoBit, ei_data: o32, ..h },
        d32,
    );
    lemma_file_header_round_trip(
        FileHeader { ei_class: AddressWidth::SixtyFourBit, ei_data: o64, ..h },
        d64,
    );
}

impl FileHeader {
    /// Whether `self` holds what the file header at the start of `d` says.
    pub open spec fn decoded_from(self, d: Seq<u8>) -> bool {
        let w = self.ei_class;
        let o = self.ei_data;
        &&& d.len() >= 16
        &&& self.ei_mag0 == d[0] && self.ei_mag1 == d[1]
        &&& self.ei_mag2 == d[2] && self.ei_mag3 == d[3]
        &&& class_of(d[4]) == Some(w)
        &&& data_of(d[5]) == Some(o)
        &&& self.ei_version == d[6]
        &&& osabi_code(self.ei_osabi) == d[7]
        &&& self.ei_abiversion == d[8]
        &&& self.ei_pad@ == d.subrange(9, 16)
        &&& type_code(self.e_type) == field_value(d, 16, 2, o)
        &&& machine_code(self.e_machine) == field_value(d, 18, 2, o)
        &&& self.e_version == tail_value(d, w, o, 0)
        &&& self.e_entry == tail_value(d, w, o, 1)
        &&& self.e_phoff == tail_value(d, w, o, 2)
        &&& self.e_shoff == tail_value(d, w, o, 3)
        &&& self.e_flags == tail_value(d, w, o, 4)
        &&& self.e_ehsize == tail_value(d, w, o, 5)
        &&& self.e_phentsize == tail_value(d, w, o, 6)
        &&& self.e_phnum == tail_value(d, w, o, 7)
        &&& self.e_shentsize == tail_value(d, w, o, 8)
        &&& self.e_shnum == tail_value(d, w, o, 9)
        &&& self.e_shstrndx == tail_value(d, w, o, 10)
    }

    /// Decodes the file header at the start of `data`.
    pub fn new(data: &[u8]) -> (r: Result<FileHeader, DecodeError>)
        ensures
            match r {
                Ok(h) => file_header_error(data@) is None && h.decoded_from(data@),
                Err(e) => file_header_error(data@) == Some(e),
            },
    {
        proof {
            lemma_pow256_8();
            reveal_with_fuel(first_short, 12);
        }
        let d = Ghost(data@);
        if data.len() < 4 {
            return Err(DecodeError::Truncated { offset: 0, width: 4 });
        }
        if data[0] != 0x7f || data[1] != 0x45 || data[2] != 0x4c || data[3] != 0x46 {
            return Err(DecodeError::BadMagic);
        }
        if data.len() < 5 {
            return Err(DecodeError::Truncated { offset: 4, width: 1 });
        }
        let ei_class = match data[4] {
            1 => AddressWidth::ThirtyTwoBit,
            2 => AddressWidth::SixtyFourBit,
            c => {
                return Err(DecodeError::UnrecognizedCode { field: CodedField::Class, value: c as u64 });
            },
        };
        if data.len() < 6 {
            return Err(DecodeError::Truncated { offset: 5, width: 1 });
        }
        let ei_data = match data[5] {
            1 => ByteOrder::Little,
            2 => ByteOrder::Big,
            c => {
                return Err(DecodeError::UnrecognizedCode { field: CodedField::Data, value: c as u64 });
            },
        };
        if data.len() < 7 {
            return Err(DecodeError::Truncated { offset: 6, width: 1 });
        }
        if data.len() < 8 {
            return Err(DecodeError::Truncated { offset: 7, width: 1 });
        }
        let ei_osabi = get_osabi(data[7])?;
        if data.len() < 9 {
            return Err(DecodeError::Truncated { offset: 8, width: 1 });
        }
        if data.len() < 16 {
            return Err(DecodeError::Truncated { offset: 9, width: 7 });
        }
        let ei_pad = [data[9], data[10], data[11], data[12], data[13], data[14], data[15]];
        assert(ei_pad@ =~= d@.subrange(9, 16));
        let order = ei_data;
        let e_type = get_type(sum_offset(data, 16, 2, order)? as u16)?;
        let e_machine = get_machine(sum_offset(data, 18, 2, order)? as u16)?;
        let a = ei_class.word_bytes();
        assert(tail_field(ei_class, 0) == (20int, 4int));
        let e_version = sum_offset(data, 20, 4, order)?;
        assert(tail_field(ei_class, 1) == (24int, a as int));
        let e_entry = sum_offset(data, 24, a, order)?;
        assert(tail_field(ei_class, 2) == (24 + a, a as int));
        let e_phoff = sum_offset(data, 24 + a, a, order)?;
        assert(tail_field(ei_class, 3) == (24 + 2 * a, a as int));
        let e_shoff = sum_offset(data, 24 + 2 * a, a, order)?;
        let t = 24 + 3 * a;
        assert(tail_field(ei_class, 4) == (t as int, 4int));
        let e_flags = sum_offset(data, t, 4, order)?;
        assert(tail_field(ei_class, 5) == (t + 4, 2int));
        let e_ehsize = sum_offset(data, t + 4, 2, order)?;
        assert(tail_field(ei_class, 6) == (t + 6, 2int));
        let e_phentsize = sum_offset(data, t + 6, 2, order)?;
        assert(tail_field(ei_class, 7) == (t + 8, 2int));
        let e_phnum = sum_offset(data, t + 8, 2, order)?;
        assert(tail_field(ei_class, 8) == (t + 10, 2int));
        let e_shentsize = sum_offset(data, t + 10, 2, order)?;
        assert(tail_field(ei_class, 9) == (t + 12, 2int));
        let e_shnum = sum_offset(data, t + 12, 2, order)?;
        assert(tail_field(ei_class, 10) == (t + 14, 2int));
        let e_shstrndx = sum_offset(data, t + 14, 2, order)?;
        Ok(FileHeader {
            ei_mag0: data[0],
            ei_mag1: data[1],
            ei_mag2: data[2],
            ei_mag3: data[3],
            ei_class,
            ei_data,
            ei_version: data[6],
            ei_osabi,
            ei_abiversion: data[8],
            ei_pad,
            e_type,
            e_machine,
            e_version: e_version as u32,
            e_entry,
            e_phoff,
            e_shoff,
            e_flags: e_flags as u32,
            e_ehsize: e_ehsize as u16,
            e_phentsize: e_phentsize as u16,
            e_phnum: e_phnum as u16,
            e_shentsize: e_shentsize as u16,
            e_shnum: e_shnum as u16,
            e_shstrndx: e_shstrndx as u16,
        })
    }
}

/// The operating system and ABI that an object file targets.
#[derive(Clone, Copy, Debug, PartialEq, Eq, Structural)]
#[allow(clippy::upper_case_acronyms)]
pub enum ElfOsAbi {
    SystemV,
    HPUX,
    NetBSD,
    Linux,
    GNUHurd,
    Solaris,
    AIX,
    IRIX,
    FreeBSD,
    Tru64,
    NovellModesto,
    OpenBSD,
    OpenVMS,
    NonStopKernel,
    AROS,
    FenixOS,
    CloudABI,
    StratusTechnologiesOpenVOS,
}

/// The code that stands for each member of [`ElfOsAbi`].
pub open spec fn osabi_code(x: ElfOsAbi) -> u8 {
    match x {
        ElfOsAbi::SystemV => 0x00,
        ElfOsAbi::HPUX => 0x01,
        ElfOsAbi::NetBSD => 0x02,
        ElfOsAbi::Linux => 0x03,
        ElfOsAbi::GNUHurd => 0x04,
        ElfOsAbi::Solaris => 0x06,
        ElfOsAbi::AIX => 0x07,
        ElfOsAbi::IRIX => 0x08,
        ElfOsAbi::FreeBSD => 0x09,
        ElfOsAbi::Tru64 => 0x0a,
        ElfOsAbi::NovellModesto => 0x0b,
        ElfOsAbi::OpenBSD => 0x0c,
        ElfOsAbi::OpenVMS => 0x0d,
        ElfOsAbi::NonStopKernel => 0x0e,
        ElfOsAbi::AROS => 0x0f,
        ElfOsAbi::FenixOS => 0x10,
        ElfOsAbi::CloudABI => 0x11,
        ElfOsAbi::StratusTechnologiesOpenVOS => 0x12,
    }
}

/// Resolves an OS/ABI byte against the table of [`osabi_code`].
pub fn get_osabi(value: u8) -> (r: Result<ElfOsAbi, DecodeError>)
    ensures
        match r {
            Ok(x) => osabi_code(x) == value,
            Err(e) => (forall|x: ElfOsAbi| osabi_code(x) != value) && e == unrecognized(
                CodedField::OsAbi,
                value as u64,
            ),
        },
{
    match value {
        0x00 => Ok(ElfOsAbi::SystemV),
        0x01 => Ok(ElfOsAbi::HPUX),
        0x02 => Ok(ElfOsAbi::NetBSD),
        0x03 => Ok(ElfOsAbi::Linux),
        0x04 => Ok(ElfOsAbi::GNUHurd),
        0x06 => Ok(ElfOsAbi::Solaris),
        0x07 => Ok(ElfOsAbi::AIX),
        0x08 => Ok(ElfOsAbi::IRIX),
        0x09 => Ok(ElfOsAbi::FreeBSD),
        0x0a => Ok(ElfOsAbi::Tru64),
        0x0b => Ok(ElfOsAbi::NovellModesto),
        0x0c => Ok(ElfOsAbi::OpenBSD),
        0x0d => Ok(ElfOsAbi::OpenVMS),
        0x0e => Ok(ElfOsAbi::NonStopKernel),
        0x0f => Ok(ElfOsAbi::AROS),
        0x10 => Ok(ElfOsAbi::FenixOS),
        0x11 => Ok(ElfOsAbi::CloudABI),
        0x12 => Ok(ElfOsAbi::StratusTechnologiesOpenVOS),
        _ => Err(DecodeError::UnrecognizedCode { field: CodedField::OsAbi, value: value as u64 }),
    }
}

/// The kind of an object file.
#[derive(Clone, Copy, Debug, PartialEq, Eq, Structural)]
pub enum ElfType {
    NoType,
    Rel,
    Exec,
    Dyn,
    Core,
    LoOS,
    HiOS,
    LoProc,
    HiProc,
}

/// The code that stands for each member of [`ElfType`].
pub open spec fn type_code(x: ElfType) -> u16 {
    match x {
        ElfType::NoType => 0x0,
        ElfType::Rel => 0x1,
        ElfType::Exec => 0x2,
        ElfType::Dyn => 0x3,
        ElfType::Core => 0x4,
        ElfType::LoOS => 0xfe00,
        ElfType::HiOS => 0xfeff,
        ElfType::LoProc => 0xff00,
        ElfType::HiProc => 0xffff,
    }
}

/// Resolves an object type code against the table of [`type_code`].
pub fn get_type(value: u16) -> (r: Result<ElfType, DecodeError>)
    ensures
        match r {
            Ok(x) => type_code(x) == value,
            Err(e) => (forall|x: ElfType| type_code(x) != value) && e == unrecognized(
                CodedField::ObjectType,
                value as u64,
            ),
        },
{
    match value {
        0x0 => Ok(ElfType::NoType),
        0x1 => Ok(ElfType::Rel),
        0x2 => Ok(ElfType::Exec),
        0x3 => Ok(ElfType::Dyn),
        0x4 => Ok(ElfType::Core),
        0xfe00 => Ok(ElfType::LoOS),
        0xfeff => Ok(ElfType::HiOS),
        0xff00 => Ok(ElfType::LoProc),
        0xffff => Ok(ElfType::HiProc),
        _ => Err(DecodeError::UnrecognizedCode { field: CodedField::ObjectType, value: value as u64 }),
    }
}

/// The instruction set architecture that an object file targets.
#[derive(Clone, Copy, Debug, PartialEq, Eq, Structural)]
#[allow(non_camel_case_types, clippy::upper_case_acronyms)]
pub enum ElfMachine {
    NoSpecificInstructionSet,
    ATnTWE32100,
    Sparc,
    X86,
    Motorola68000M68k,
    Motorola88000M88k,
    IntelMCU,
    Intel80860,
    Mips,
    IBMSystem370,
    MIPSRS3000LittleEndian,
    Intel80960,
    PowerPC,
    PowerPC64bit,
    S390,
    IBMSpuSpc,
    NECV800,
    FujitsuFR20,
    TRWRH32,
    MotorolaRCE,
    ARMuptoARMv7Aarch32,
    DigitalAlpha,
    SuperH,
    SPARCVersion9,
    SiemensTriCoreEmbeddedProcessor,
    ArgonautRISCCore,
    HitachiH8_300,
    HitachiH8_300H,
    HitachiH8S,
    HitachiH8_500,
    IA64,
    StanfordMipsX,
    MotorolaColdFire,
    MotorolaM68HC12,
    FujitsuMMAMultimediaAccelerator,
    SiemensPCP,
    SonynCPUembeddedRISCProcessor,
    DensoNDR1microProcessor,
    MotorolaStarCoreProcessor,
    ToyotaME16processor,
    STMicroelectronicsST100Processor,
    AdvancedLogicCorpTinyJEmbeddedProcessorFamily,
    AMDx86_64,
    TMS320C6000Family,
    MCSTElbruse2k,
    ARM64bitsARMv8Aarch64,
    RiscV,
    BerkeleyPacketFilter,
    WDC65C816,
}

/// The code that stands for each member of [`ElfMachine`].
pub open spec fn machine_code(x: ElfMachine) -> u16 {
    match x {
        ElfMachine::NoSpecificInstructionSet => 0x00,
        ElfMachine::ATnTWE32100 => 0x01,
        ElfMachine::Sparc => 0x02,
        ElfMachine::X86 => 0x03,
        ElfMachine::Motorola68000M68k => 0x04,
        ElfMachine::Motorola88000M88k => 0x05,
        ElfMachine::IntelMCU => 0x06,
        ElfMachine::Intel80860 => 0x07,
        ElfMachine::Mips => 0x08,
        ElfMachine::IBMSystem370 => 0x09,
        ElfMachine::MIPSRS3000LittleEndian => 0x0a,
        ElfMachine::Intel80960 => 0x13,
        ElfMachine::PowerPC => 0x14,
        ElfMachine::PowerPC64bit => 0x15,
        ElfMachine::S390 => 0x16,
        ElfMachine::IBMSpuSpc => 0x17,
        ElfMachine::NECV800 => 0x24,
        ElfMachine::FujitsuFR20 => 0x25,
        ElfMachine::TRWRH32 => 0x26,
        ElfMachine::MotorolaRCE => 0x27,
        ElfMachine::ARMuptoARMv7Aarch32 => 0x28,
        ElfMachine::DigitalAlpha => 0x29,
        ElfMachine::SuperH => 0x2a,
        ElfMachine::SPARCVersion9 => 0x2b,
        ElfMachine::SiemensTriCoreEmbeddedProcessor => 0x2c,
        ElfMachine::ArgonautRISCCore => 0x2d,
        ElfMachine::HitachiH8_300 => 0x2e,
        ElfMachine::HitachiH8_300H => 0x2f,
        ElfMachine::HitachiH8S => 0x30,
        ElfMachine::HitachiH8_500 => 0x31,
        ElfMachine::IA64 => 0x32,
        ElfMachine::StanfordMipsX => 0x33,
        ElfMachine::MotorolaColdFire => 0x34,
        ElfMachine::MotorolaM68HC12 => 0x35,
        ElfMachine::FujitsuMMAMultimediaAccelerator => 0x36,
        ElfMachine::SiemensPCP => 0x37,
        ElfMachine::SonynCPUembeddedRISCProcessor => 0x38,
        ElfMachine::DensoNDR1microProcessor => 0x39,
        ElfMachine::MotorolaStarCoreProcessor => 0x3a,
        ElfMachine::ToyotaME16processor => 0x3b,
        ElfMachine::STMicroelectronicsST100Processor => 0x3c,
        ElfMachine::AdvancedLogicCorpTinyJEmbeddedProcessorFamily => 0x3d,
        ElfMachine::AMDx86_64 => 0x3e,
        ElfMachine::TMS320C6000Family => 0x8c,
        ElfMachine::MCSTElbruse2k => 0xaf,
        ElfMachine::ARM64bitsARMv8Aarch64 => 0xb7,
        ElfMachine::RiscV => 0xf3,
        ElfMachine::BerkeleyPacketFilter => 0xf7,
        ElfMachine::WDC65C816 => 0x101,
    }
}

/// Resolves a machine code against the table of [`machine_code`].
pub fn get_machine(value: u16) -> (r: Result<ElfMachine, DecodeError>)
    ensures
        match r {
            Ok(x) => machine_code(x) == value,
            Err(e) => (forall|x: ElfMachine| machine_code(x) != value) && e == unrecognized(
                CodedField::Machine,
                value as u64,
            ),
        },
{
    match value {
        0x00 => Ok(ElfMachine::NoSpecificInstructionSet),
        0x01 => Ok(ElfMachine::ATnTWE32100),
        0x02 => Ok(ElfMachine::Sparc),
        0x03 => Ok(ElfMachine::X86),
        0x04 => Ok(ElfMachine::Motorola68000M68k),
        0x05 => Ok(ElfMachine::Motorola88000M88k),
        0x06 => Ok(ElfMachine::IntelMCU),
        0x07 => Ok(ElfMachine::Intel80860),
        0x08 => Ok(ElfMachine::Mips),
        0x09 => Ok(ElfMachine::IBMSystem370),
        0x0a => Ok(ElfMachine::MIPSRS3000LittleEndian),
        0x13 => Ok(ElfMachine::Intel80960),
        0x14 => Ok(ElfMachine::PowerPC),
        0x15 => Ok(ElfMachine::PowerPC64bit),
        0x16 => Ok(ElfMachine::S390),
        0x17 => Ok(ElfMachine::IBMSpuSpc),
        0x24 => Ok(ElfMachine::NECV800),
        0x25 => Ok(ElfMachine::FujitsuFR20),
        0x26 => Ok(ElfMachine::TRWRH32),
        0x27 => Ok(ElfMachine::MotorolaRCE),
        0x28 => Ok(ElfMachine::ARMuptoARMv7Aarch32),
        0x29 => Ok(ElfMachine::DigitalAlpha),
        0x2a => Ok(ElfMachine::SuperH),
        0x2b => Ok(ElfMachine::SPARCVersion9),
        0x2c => Ok(ElfMachine::SiemensTriCoreEmbeddedProcessor),
        0x2d => Ok(ElfMachine::ArgonautRISCCore),
        0x2e => Ok(ElfMachine::HitachiH8_300),
        0x2f => Ok(ElfMachine::HitachiH8_300H),
        0x30 => Ok(ElfMachine::HitachiH8S),
        0x31 => Ok(ElfMachine::HitachiH8_500),
        0x32 => Ok(ElfMachine::IA64),
        0x33 => Ok(ElfMachine::StanfordMipsX),
        0x34 => Ok(ElfMachine::MotorolaColdFire),
        0x35 => Ok(ElfMachine::MotorolaM68HC12),
        0x36 => Ok(ElfMachine::FujitsuMMAMultimediaAccelerator),
        0x37 => Ok(ElfMachine::SiemensPCP),
        0x38 => Ok(ElfMachine::SonynCPUembeddedRISCProcessor),
        0x39 => Ok(ElfMachine::DensoNDR1microProcessor),
        0x3a => Ok(ElfMachine::MotorolaStarCoreProcessor),
        0x3b => Ok(ElfMachine::ToyotaME16processor),
        0x3c => Ok(ElfMachine::STMicroelectronicsST100Processor),
        0x3d => Ok(ElfMachine::AdvancedLogicCorpTinyJEmbeddedProcessorFamily),
        0x3e => Ok(ElfMachine::AMDx86_64),
        0x8c => Ok(ElfMachine::TMS320C6000Family),
        0xaf => Ok(ElfMachine::MCSTElbruse2k),
        0xb7 => Ok(ElfMachine::ARM64bitsARMv8Aarch64),
        0xf3 => Ok(ElfMachine::RiscV),
        0xf7 => Ok(ElfMachine::BerkeleyPacketFilter),
        0x101 => Ok(ElfMachine::WDC65C816),
        _ => Err(DecodeError::UnrecognizedCode { field: CodedField::Machine, value: value as u64 }),
    }
}

} // verus!
