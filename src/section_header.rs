use vstd::prelude::*;

use crate::utils::{
    encodes, field_value, first_short, fits, lemma_encode_read, lemma_field_value_take,
    lemma_first_short_all_fit, lemma_first_short_cut, lemma_first_short_none, lemma_pow256_8,
    pow256, sum_offset, truncated, unrecognized, word_len, AddressWidth, ByteOrder, CodedField,
    DecodeError,
};

verus! {

/// One section descriptor of the section header table.
pub struct SectionHeader {
    /// Offset of the section's name in the section name string table.
    pub sh_name: u32,
    pub sh_type: SectionHeaderType,
    pub sh_flags: SectionHeaderFlags,
    pub sh_addr: u64,
    pub sh_offset: u64,
    pub sh_size: u64,
    /// A section index whose meaning depends on the section type.
    pub sh_link: u64,
    /// Extra information whose meaning depends on the section type.
    pub sh_info: u64,
    pub sh_addralign: u64,
    /// Size of each entry where the section holds a table of fixed-size
    /// entries, else zero.
    pub sh_entsize: u64,
}

/// Size of a section header: the name and type words, then eight fields
/// of one address word each.
pub open spec fn section_header_len(w: AddressWidth) -> nat {
    8 + 8 * word_len(w)
}

/// Offset from the start of the header, and width, of each field after the
/// flags word, in the order they are stored: addr, offset, size, link, info,
/// addralign, entsize.
pub open spec fn section_field(w: AddressWidth, i: int) -> (int, int) {
    let a = word_len(w) as int;
    (8 + (i + 1) * a, a)
}

/// The `i`-th field after the flags word of the header at `base`.
pub open spec fn section_field_at(base: int, w: AddressWidth) -> spec_fn(int) -> (int, int) {
    |i: int| (base + section_field(w, i).0, section_field(w, i).1)
}

/// Whether `v` is in the section type table.
pub open spec fn section_type_known(v: nat) -> bool {
    exists|x: SectionHeaderType| section_type_code(x) == v
}

/// Whether `v` is in the section flag table.
pub open spec fn section_flag_known(v: nat) -> bool {
    exists|x: SectionHeaderFlags| section_flag_code(x) == v
}

/// Why the bytes of `d` from `base` on do not hold a section header of
/// width `w` in byte order `o`, or `None` where they do.
pub open spec fn section_header_error(d: Seq<u8>, base: int, w: AddressWidth, o: ByteOrder) -> Option<
    DecodeError,
> {
    let a = word_len(w) as int;
    if !fits(d, base, 4) {
        Some(truncated(base, 4))
    } else if !fits(d, base + 4, 4) {
        Some(truncated(base + 4, 4))
    } else if !section_type_known(field_value(d, base + 4, 4, o)) {
        Some(unrecognized(CodedField::SectionType, field_value(d, base + 4, 4, o) as u64))
    } else if !fits(d, base + 8, a) {
        Some(truncated(base + 8, a))
    } else if !section_flag_known(field_value(d, base + 8, a, o)) {
        Some(unrecognized(CodedField::SectionFlags, field_value(d, base + 8, a, o) as u64))
    } else {
        first_short(d, section_field_at(base, w), 0, 7)
    }
}

/// Offset from the start of the header, and width, of each field of the
/// section header, in the order they are stored.
pub open spec fn section_header_field(w: AddressWidth, i: int) -> (int, int) {
    if i <= 1 {
        (4 * i, 4)
    } else if i == 2 {
        (8, word_len(w) as int)
    } else {
        section_field(w, i - 3)
    }
}

/// Cutting a buffer that holds a section header at `base` one byte short of
/// the end of any of its fields makes decoding fail with `Truncated` at that
/// field.
pub proof fn lemma_section_header_truncated(
    d: Seq<u8>,
    base: int,
    w: AddressWidth,
    o: ByteOrder,
    i: int,
)
    requires
        section_header_error(d, base, w, o) is None,
        0 <= base,
        0 <= i < 10,
    ensures
        ({
            let (off, width) = section_header_field(w, i);
            section_header_error(d.take(base + off + width - 1), base, w, o) == Some(
                truncated(base + off, width),
            )
        }),
{
    let (off, width) = section_header_field(w, i);
    let a = word_len(w) as int;
    let len = base + off + width - 1;
    let f = section_field_at(base, w);
    lemma_first_short_none(d, f, 0, 7);
    assert(fits(d, f(6).0, f(6).1));
    if i >= 2 {
        lemma_field_value_take(d, len, base + 4, 4, o);
    }
    if i >= 3 {
        lemma_field_value_take(d, len, base + 8, a, o);
        assert forall|k: int| 0 <= k < i - 3 implies #[trigger] f(k).0 + f(k).1 <= len by {
            if w is ThirtyTwoBit {
            } else {
            }
        }
        lemma_first_short_cut(d, f, 0, i - 3, 7, len);
    }
}

/// Whether the value of each field of `h` fits in a field of width `w`.
pub open spec fn section_header_fits_width(h: SectionHeader, w: AddressWidth) -> bool {
    let m = pow256(word_len(w));
    &&& section_flag_code(h.sh_flags) < m
    &&& h.sh_addr < m
    &&& h.sh_offset < m
    &&& h.sh_size < m
    &&& h.sh_link < m
    &&& h.sh_info < m
    &&& h.sh_addralign < m
    &&& h.sh_entsize < m
}

/// Whether the bytes of `d` at `base` hold each field of `h` where a
/// section header of width `w` in byte order `o` keeps it.
pub open spec fn section_header_laid_out(
    h: SectionHeader,
    d: Seq<u8>,
    base: int,
    w: AddressWidth,
    o: ByteOrder,
) -> bool {
    let f = section_field_at(base, w);
    let a = word_len(w) as int;
    &&& encodes(d, base, 4, h.sh_name as nat, o)
    &&& encodes(d, base + 4, 4, section_type_code(h.sh_type) as nat, o)
    &&& encodes(d, base + 8, a, section_flag_code(h.sh_flags) as nat, o)
    &&& encodes(d, f(0).0, f(0).1, h.sh_addr as nat, o)
    &&& encodes(d, f(1).0, f(1).1, h.sh_offset as nat, o)
    &&& encodes(d, f(2).0, f(2).1, h.sh_size as nat, o)
    &&& encodes(d, f(3).0, f(3).1, h.sh_link as nat, o)
    &&& encodes(d, f(4).0, f(4).1, h.sh_info as nat, o)
    &&& encodes(d, f(5).0, f(5).1, h.sh_addralign as nat, o)
    &&& encodes(d, f(6).0, f(6).1, h.sh_entsize as nat, o)
}

/// A section header laid out in bytes decodes to itself.
pub proof fn lemma_section_header_round_trip(
    h: SectionHeader,
    d: Seq<u8>,
    base: int,
    w: AddressWidth,
    o: ByteOrder,
)
    requires
        section_header_laid_out(h, d, base, w, o),
        section_header_fits_width(h, w),
    ensures
        section_header_error(d, base, w, o) is None,
        h.decoded_from(d, base, w, o),
{
    lemma_pow256_8();
    let f = section_field_at(base, w);
    let a = word_len(w) as int;
    lemma_encode_read(d, base, 4, h.sh_name as nat, o);
    lemma_encode_read(d, base + 4, 4, section_type_code(h.sh_type) as nat, o);
    lemma_encode_read(d, base + 8, a, section_flag_code(h.sh_flags) as nat, o);
    lemma_encode_read(d, f(0).0, f(0).1, h.sh_addr as nat, o);
    lemma_encode_read(d, f(1).0, f(1).1, h.sh_offset as nat, o);
    lemma_encode_read(d, f(2).0, f(2).1, h.sh_size as nat, o);
    lemma_encode_read(d, f(3).0, f(3).1, h.sh_link as nat, o);
    lemma_encode_read(d, f(4).0, f(4).1, h.sh_info as nat, o);
    lemma_encode_read(d, f(5).0, f(5).1, h.sh_addralign as nat, o);
    lemma_encode_read(d, f(6).0, f(6).1, h.sh_entsize as nat, o);
    assert forall|k: int| 0 <= k < 7 implies fits(d, #[trigger] f(k).0, f(k).1) by {
        assert(k == 0 || k == 1 || k == 2 || k == 3 || k == 4 || k == 5 || k == 6);
    }
    lemma_first_short_all_fit(d, f, 0, 7);
    assert(section_type_known(field_value(d, base + 4, 4, o)));
    assert(section_flag_known(field_value(d, base + 8, a, o)));
}

/// One section header laid out at 32 bits and at 64 bits, in either byte
/// order, decodes to the same value from both buffers.
pub proof fn lemma_section_header_widths_agree(
    h: SectionHeader,
    d32: Seq<u8>,
    base32: int,
    o32: ByteOrder,
    d64: Seq<u8>,
    base64: int,
    o64: ByteOrder,
)
    requires
        section_header_fits_width(h, AddressWidth::ThirtyTwoBit),
        section_header_laid_out(h, d32, base32, AddressWidth::ThirtyTwoBit, o32),
        section_header_laid_out(h, d64, base64, AddressWidth::SixtyFourBit, o64),
    ensures
        section_header_error(d32, base32, AddressWidth::ThirtyTwoBit, o32) is None,
        section_header_error(d64, base64, AddressWidth::SixtyFourBit, o64) is None,
        h.decoded_from(d32, base32, AddressWidth::ThirtyTwoBit, o32),
        h.decoded_from(d64, base64, AddressWidth::SixtyFourBit, o64),
{
    lemma_pow256_8();
    lemma_section_header_round_trip(h, d32, base32, AddressWidth::ThirtyTwoBit, o32);
    lemma_section_header_round_trip(h, d64, base64, AddressWidth::SixtyFourBit, o64);
}

impl SectionHeader {
    /// Whether `self` holds what the section header at `base` in `d` says.
    pub open spec fn decoded_from(self, d: Seq<u8>, base: int, w: AddressWidth, o: ByteOrder) -> bool {
        let f = section_field_at(base, w);
        let v = |i: int| field_value(d, f(i).0, f(i).1, o);
        &&& self.sh_name == field_value(d, base, 4, o)
        &&& section_type_code(self.sh_type) == field_value(d, base + 4, 4, o)
        &&& section_flag_code(self.sh_flags) == field_value(d, base + 8, word_len(w) as int, o)
        &&& self.sh_addr == v(0)
        &&& self.sh_offset == v(1)
        &&& self.sh_size == v(2)
        &&& self.sh_link == v(3)
        &&& self.sh_info == v(4)
        &&& self.sh_addralign == v(5)
        &&& self.sh_entsize == v(6)
    }

    /// Decodes the section header at the start of `data`.
    pub fn new(data: &[u8], width: AddressWidth, order: ByteOrder) -> (r: Result<SectionHeader, DecodeError>)
        ensures
            match r {
                Ok(h) => section_header_error(data@, 0, width, order) is None && h.decoded_from(
                    data@,
                    0,
                    width,
                    order,
                ),
                Err(e) => section_header_error(data@, 0, width, order) == Some(e),
            },
    {
        SectionHeader::new_at(data, 0, width, order)
    }

    /// Decodes the section header that starts `base` bytes into `data`.
    pub fn new_at(data: &[u8], base: usize, width: AddressWidth, order: ByteOrder) -> (r: Result<
        SectionHeader,
        DecodeError,
    >)
        requires
            base + 72 <= usize::MAX,
        ensures
            match r {
                Ok(h) => section_header_error(data@, base as int, width, order) is None
                    && h.decoded_from(data@, base as int, width, order),
                Err(e) => section_header_error(data@, base as int, width, order) == Some(e),
            },
    {
        proof {
            lemma_pow256_8();
            reveal_with_fuel(first_short, 8);
        }
        let ghost f = section_field_at(base as int, width);
        let a = width.word_bytes();
        let sh_name = sum_offset(data, base, 4, order)?;
        let sh_type = get_type(sum_offset(data, base + 4, 4, order)? as u32)?;
        let sh_flags = get_flag(sum_offset(data, base + 8, a, order)?)?;
        assert(f(0) == (base + 8 + a, a as int));
        let sh_addr = sum_offset(data, base + 8 + a, a, order)?;
        assert(f(1) == (base + 8 + 2 * a, a as int));
        let sh_offset = sum_offset(data, base + 8 + 2 * a, a, order)?;
        assert(f(2) == (base + 8 + 3 * a, a as int));
        let sh_size = sum_offset(data, base + 8 + 3 * a, a, order)?;
        assert(f(3) == (base + 8 + 4 * a, a as int));
        let sh_link = sum_offset(data, base + 8 + 4 * a, a, order)?;
        assert(f(4) == (base + 8 + 5 * a, a as int));
        let sh_info = sum_offset(data, base + 8 + 5 * a, a, order)?;
        assert(f(5) == (base + 8 + 6 * a, a as int));
        let sh_addralign = sum_offset(data, base + 8 + 6 * a, a, order)?;
        assert(f(6) == (base + 8 + 7 * a, a as int));
        let sh_entsize = sum_offset(data, base + 8 + 7 * a, a, order)?;
        Ok(SectionHeader {
            sh_name: sh_name as u32,
            sh_type,
            sh_flags,
            sh_addr,
            sh_offset,
            sh_size,
            sh_link,
            sh_info,
            sh_addralign,
            sh_entsize,
        })
    }
}

/// The kind of a section.
#[derive(Clone, Copy, Debug, PartialEq, Eq, Structural)]
pub enum SectionHeaderType {
    Null,
    ProgBits,
    SymTab,
    StrTab,
    Rela,
    Hash,
    Dynamic,
    Note,
    NoBits,
    Rel,
    ShLib,
    DynSym,
    InitArray,
    FiniArray,
    PreinitArray,
    Group,
    SymTabShndx,
    Num,
    LoOs,
}

/// The code that stands for each member of [`SectionHeaderType`].
pub open spec fn section_type_code(x: SectionHeaderType) -> u32 {
    match x {
        SectionHeaderType::Null => 0x0,
        SectionHeaderType::ProgBits => 0x1,
        SectionHeaderType::SymTab => 0x2,
        SectionHeaderType::StrTab => 0x3,
        SectionHeaderType::Rela => 0x4,
        SectionHeaderType::Hash => 0x5,
        SectionHeaderType::Dynamic => 0x6,
        SectionHeaderType::Note => 0x7,
        SectionHeaderType::NoBits => 0x8,
        SectionHeaderType::Rel => 0x9,
        SectionHeaderType::ShLib => 0xa,
        SectionHeaderType::DynSym => 0xb,
        SectionHeaderType::InitArray => 0xe,
        SectionHeaderType::FiniArray => 0xf,
        SectionHeaderType::PreinitArray => 0x10,
        SectionHeaderType::Group => 0x11,
        SectionHeaderType::SymTabShndx => 0x12,
        SectionHeaderType::Num => 0x13,
        SectionHeaderType::LoOs => 0x6000_0000,
    }
}

/// Resolves a section type code against the table of [`section_type_code`].
pub fn get_type(value: u32) -> (r: Result<SectionHeaderType, DecodeError>)
    ensures
        match r {
            Ok(x) => section_type_code(x) == value,
            Err(e) => (forall|x: SectionHeaderType| section_type_code(x) != value) && e == unrecognized(
                CodedField::SectionType,
                value as u64,
            ),
        },
{
    match value {
        0x0 => Ok(SectionHeaderType::Null),
        0x1 => Ok(SectionHeaderType::ProgBits),
        0x2 => Ok(SectionHeaderType::SymTab),
        0x3 => Ok(SectionHeaderType::StrTab),
        0x4 => Ok(SectionHeaderType::Rela),
        0x5 => Ok(SectionHeaderType::Hash),
        0x6 => Ok(SectionHeaderType::Dynamic),
        0x7 => Ok(SectionHeaderType::Note),
        0x8 => Ok(SectionHeaderType::NoBits),
        0x9 => Ok(SectionHeaderType::Rel),
        0xa => Ok(SectionHeaderType::ShLib),
        0xb => Ok(SectionHeaderType::DynSym),
        0xe => Ok(SectionHeaderType::InitArray),
        0xf => Ok(SectionHeaderType::FiniArray),
        0x10 => Ok(SectionHeaderType::PreinitArray),
        0x11 => Ok(SectionHeaderType::Group),
        0x12 => Ok(SectionHeaderType::SymTabShndx),
        0x13 => Ok(SectionHeaderType::Num),
        0x6000_0000 => Ok(SectionHeaderType::LoOs),
        _ => Err(DecodeError::UnrecognizedCode { field: CodedField::SectionType, value: value as u64 }),
    }
}

/// The attribute word of a section, one flag or mask of the format's table.
#[derive(Clone, Copy, Debug, PartialEq, Eq, Structural)]
pub enum SectionHeaderFlags {
    Write,
    Alloc,
    Execinstr,
    Merge,
    Strings,
    InfoLink,
    LinkOrder,
    OsNonConforming,
    Group,
    Tls,
    Maskos,
    Maskproc,
    Ordered,
    Exclude,
}

/// The code that stands for each member of [`SectionHeaderFlags`].
pub open spec fn section_flag_code(x: SectionHeaderFlags) -> u64 {
    match x {
        SectionHeaderFlags::Write => 0x1,
        SectionHeaderFlags::Alloc => 0x2,
        SectionHeaderFlags::Execinstr => 0x4,
        SectionHeaderFlags::Merge => 0x10,
        SectionHeaderFlags::Strings => 0x20,
        SectionHeaderFlags::InfoLink => 0x40,
        SectionHeaderFlags::LinkOrder => 0x80,
        SectionHeaderFlags::OsNonConforming => 0x100,
        SectionHeaderFlags::Group => 0x200,
        SectionHeaderFlags::Tls => 0x400,
        SectionHeaderFlags::Maskos => 0x0ff0_0000,
        SectionHeaderFlags::Maskproc => 0xf000_0000,
        SectionHeaderFlags::Ordered => 0x0400_0000,
        SectionHeaderFlags::Exclude => 0x0800_0000,
    }
}

/// Resolves a section attribute word against the table of [`section_flag_code`].
pub fn get_flag(value: u64) -> (r: Result<SectionHeaderFlags, DecodeError>)
    ensures
        match r {
            Ok(x) => section_flag_code(x) == value,
            Err(e) => (forall|x: SectionHeaderFlags| section_flag_code(x) != value) && e == unrecognized(
                CodedField::SectionFlags,
                value as u64,
            ),
        },
{
    match value {
        0x1 => Ok(SectionHeaderFlags::Write),
        0x2 => Ok(SectionHeaderFlags::Alloc),
        0x4 => Ok(SectionHeaderFlags::Execinstr),
        0x10 => Ok(SectionHeaderFlags::Merge),
        0x20 => Ok(SectionHeaderFlags::Strings),
        0x40 => Ok(SectionHeaderFlags::InfoLink),
        0x80 => Ok(SectionHeaderFlags::LinkOrder),
        0x100 => Ok(SectionHeaderFlags::OsNonConforming),
        0x200 => Ok(SectionHeaderFlags::Group),
        0x400 => Ok(SectionHeaderFlags::Tls),
        0x0ff0_0000 => Ok(SectionHeaderFlags::Maskos),
        0xf000_0000 => Ok(SectionHeaderFlags::Maskproc),
        0x0400_0000 => Ok(SectionHeaderFlags::Ordered),
        0x0800_0000 => Ok(SectionHeaderFlags::Exclude),
        _ => Err(DecodeError::UnrecognizedCode { field: CodedField::SectionFlags, value: value as u64 }),
    }
}

} // verus!
