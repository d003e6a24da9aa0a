use vstd::prelude::*;

use crate::utils::{
    encodes, field_value, first_short, fits, lemma_encode_read, lemma_field_value_take,
    lemma_first_short_all_fit, lemma_first_short_cut, lemma_first_short_none, lemma_pow256_8,
    pow256, sum_offset, truncated, unrecognized, word_len, AddressWidth, ByteOrder, CodedField,
    DecodeError,
};

verus! {

/// One segment descriptor of the program header table.
pub struct ProgramHeader {
    pub p_type: ProgramType,
    pub p_flags: u32,
    pub p_offset: u64,
    pub p_vaddr: u64,
    pub p_paddr: u64,
    pub p_filesz: u64,
    pub p_memsz: u64,
    /// Alignment; where nonzero it should be a power of two, which is left
    /// to the consumer to check.
    pub p_allign: u64,
}

/// Size of a program header: 32 bytes at 32 bits, 56 at 64 bits.
pub open spec fn program_header_len(w: AddressWidth) -> nat {
    match w {
        AddressWidth::ThirtyTwoBit => 32,
        AddressWidth::SixtyFourBit => 56,
    }
}

/// Offset from the start of the header, and width, of each field after the
/// segment type, in the order they are stored. At 32 bits the order is
/// offset, vaddr, paddr, filesz, memsz, flags, align, each of 4 bytes; at 64
/// bits the 4-byte flags come first and the other six take 8 bytes each.
pub open spec fn program_field(w: AddressWidth, i: int) -> (int, int) {
    match w {
        AddressWidth::ThirtyTwoBit => (4 + 4 * i, 4),
        AddressWidth::SixtyFourBit => if i == 0 {
            (4, 4)
        } else {
            (8 + 8 * (i - 1), 8)
        },
    }
}

/// Position among the fields after the segment type of the flags word.
pub open spec fn program_flags_slot(w: AddressWidth) -> int {
    match w {
        AddressWidth::ThirtyTwoBit => 5,
        AddressWidth::SixtyFourBit => 0,
    }
}

/// Position among the fields after the segment type of the file offset;
/// vaddr, paddr, filesz and memsz follow it.
pub open spec fn program_offset_slot(w: AddressWidth) -> int {
    match w {
        AddressWidth::ThirtyTwoBit => 0,
        AddressWidth::SixtyFourBit => 1,
    }
}

/// Whether `v` is in the segment type table.
pub open spec fn program_type_known(v: nat) -> bool {
    exists|x: ProgramType| program_type_code(x) == v
}

/// The `i`-th field after the segment type of the header at `base`.
pub open spec fn program_field_at(base: int, w: AddressWidth) -> spec_fn(int) -> (int, int) {
    |i: int| (base + program_field(w, i).0, program_field(w, i).1)
}

/// Why the bytes of `d` from `base` on do not hold a program header of
/// width `w` in byte order `o`, or `None` where they do.
pub open spec fn program_header_error(d: Seq<u8>, base: int, w: AddressWidth, o: ByteOrder) -> Option<
    DecodeError,
> {
    if !fits(d, base, 4) {
        Some(truncated(base, 4))
    } else if !program_type_known(field_value(d, base, 4, o)) {
        Some(unrecognized(CodedField::SegmentType, field_value(d, base, 4, o) as u64))
    } else {
        first_short(d, program_field_at(base, w), 0, 7)
    }
}

/// Offset from the start of the header, and width, of each field of the
/// program header, in the order they are stored.
pub open spec fn program_header_field(w: AddressWidth, i: int) -> (int, int) {
    if i == 0 {
        (0, 4)
    } else {
        program_field(w, i - 1)
    }
}

/// Cutting a buffer that holds a program header at `base` one byte short of
/// the end of any of its fields makes decoding fail with `Truncated` at that
/// field.
pub proof fn lemma_program_header_truncated(
    d: Seq<u8>,
    base: int,
    w: AddressWidth,
    o: ByteOrder,
    i: int,
)
    requires
        program_header_error(d, base, w, o) is None,
        0 <= base,
        0 <= i < 8,
    ensures
        ({
            let (off, width) = program_header_field(w, i);
            program_header_error(d.take(base + off + width - 1), base, w, o) == Some(
                truncated(base + off, width),
            )
        }),
{
    let (off, width) = program_header_field(w, i);
    let len = base + off + width - 1;
    let f = program_field_at(base, w);
    lemma_first_short_none(d, f, 0, 7);
    assert(fits(d, f(6).0, f(6).1));
    if i >= 1 {
        lemma_field_value_take(d, len, base, 4, o);
        assert forall|k: int| 0 <= k < i - 1 implies #[trigger] f(k).0 + f(k).1 <= len by {
            if w is ThirtyTwoBit {
            } else {
            }
        }
        lemma_first_short_cut(d, f, 0, i - 1, 7, len);
    }
}

/// Whether the value of each field of `h` fits in a field of width `w`.
pub open spec fn program_header_fits_width(h: ProgramHeader, w: AddressWidth) -> bool {
    let m = pow256(word_len(w));
    &&& h.p_offset < m
    &&& h.p_vaddr < m
    &&& h.p_paddr < m
    &&& h.p_filesz < m
    &&& h.p_memsz < m
    &&& h.p_allign < m
}

/// Whether the bytes of `d` at `base` hold each field of `h` where a
/// program header of width `w` in byte order `o` keeps it.
pub open spec fn program_header_laid_out(
    h: ProgramHeader,
    d: Seq<u8>,
    base: int,
    w: AddressWidth,
    o: ByteOrder,
) -> bool {
    let f = program_field_at(base, w);
    let s = program_offset_slot(w);
    let g = program_flags_slot(w);
    &&& encodes(d, base, 4, program_type_code(h.p_type) as nat, o)
    &&& encodes(d, f(g).0, f(g).1, h.p_flags as nat, o)
    &&& encodes(d, f(s).0, f(s).1, h.p_offset as nat, o)
    &&& encodes(d, f(s + 1).0, f(s + 1).1, h.p_vaddr as nat, o)
    &&& encodes(d, f(s + 2).0, f(s + 2).1, h.p_paddr as nat, o)
    &&& encodes(d, f(s + 3).0, f(s + 3).1, h.p_filesz as nat, o)
    &&& encodes(d, f(s + 4).0, f(s + 4).1, h.p_memsz as nat, o)
    &&& encodes(d, f(6).0, f(6).1, h.p_allign as nat, o)
}

/// A program header laid out in bytes decodes to itself.
pub proof fn lemma_program_header_round_trip(
    h: ProgramHeader,
    d: Seq<u8>,
    base: int,
    w: AddressWidth,
    o: ByteOrder,
)
    requires
        program_header_laid_out(h, d, base, w, o),
        program_header_fits_width(h, w),
    ensures
        program_header_error(d, base, w, o) is None,
        h.decoded_from(d, base, w, o),
{
    lemma_pow256_8();
    let f = program_field_at(base, w);
    let s = program_offset_slot(w);
    let g = program_flags_slot(w);
    lemma_encode_read(d, base, 4, program_type_code(h.p_type) as nat, o);
    lemma_encode_read(d, f(g).0, f(g).1, h.p_flags as nat, o);
    lemma_encode_read(d, f(s).0, f(s).1, h.p_offset as nat, o);
    lemma_encode_read(d, f(s + 1).0, f(s + 1).1, h.p_vaddr as nat, o);
    lemma_encode_read(d, f(s + 2).0, f(s + 2).1, h.p_paddr as nat, o);
    lemma_encode_read(d, f(s + 3).0, f(s + 3).1, h.p_filesz as nat, o);
    lemma_encode_read(d, f(s + 4).0, f(s + 4).1, h.p_memsz as nat, o);
    lemma_encode_read(d, f(6).0, f(6).1, h.p_allign as nat, o);
    assert forall|k: int| 0 <= k < 7 implies fits(d, #[trigger] f(k).0, f(k).1) by {
        if w is ThirtyTwoBit {
            assert(k == s || k == s + 1 || k == s + 2 || k == s + 3 || k == s + 4 || k == g || k == 6);
        } else {
            assert(k == s || k == s + 1 || k == s + 2 || k == s + 3 || k == s + 4 || k == g || k == 6);
        }
    }
    lemma_first_short_all_fit(d, f, 0, 7);
    assert(program_type_known(field_value(d, base, 4, o)));
}

/// One program header laid out at 32 bits and at 64 bits, in either byte
/// order, decodes to the same value from both buffers.
pub proof fn lemma_program_header_widths_agree(
    h: ProgramHeader,
    d32: Seq<u8>,
    base32: int,
    o32: ByteOrder,
    d64: Seq<u8>,
    base64: int,
    o64: ByteOrder,
)
    requires
        program_header_fits_width(h, AddressWidth::ThirtyTwoBit),
        program_header_laid_out(h, d32, base32, AddressWidth::ThirtyTwoBit, o32),
        program_header_laid_out(h, d64, base64, AddressWidth::SixtyFourBit, o64),
    ensures
        program_header_error(d32, base32, AddressWidth::ThirtyTwoBit, o32) is None,
        program_header_error(d64, base64, AddressWidth::SixtyFourBit, o64) is None,
        h.decoded_from(d32, base32, AddressWidth::ThirtyTwoBit, o32),
        h.decoded_from(d64, base64, AddressWidth::SixtyFourBit, o64),
{
    lemma_pow256_8();
    lemma_program_header_round_trip(h, d32, base32, AddressWidth::ThirtyTwoBit, o32);
    lemma_program_header_round_trip(h, d64, base64, AddressWidth::SixtyFourBit, o64);
}

impl ProgramHeader {
    /// Whether `self` holds what the program header at `base` in `d` says.
    pub open spec fn decoded_from(self, d: Seq<u8>, base: int, w: AddressWidth, o: ByteOrder) -> bool {
        let f = program_field_at(base, w);
        let v = |i: int| field_value(d, f(i).0, f(i).1, o);
        let s = program_offset_slot(w);
        &&& program_type_code(self.p_type) == field_value(d, base, 4, o)
        &&& self.p_flags == v(program_flags_slot(w))
        &&& self.p_offset == v(s)
        &&& self.p_vaddr == v(s + 1)
        &&& self.p_paddr == v(s + 2)
        &&& self.p_filesz == v(s + 3)
        &&& self.p_memsz == v(s + 4)
        &&& self.p_allign == v(6)
    }

    /// Decodes the program header at the start of `data`.
    pub fn new(data: &[u8], width: AddressWidth, order: ByteOrder) -> (r: Result<ProgramHeader, DecodeError>)
        ensures
            match r {
                Ok(h) => program_header_error(data@, 0, width, order) is None && h.decoded_from(
                    data@,
                    0,
                    width,
                    order,
                ),
                Err(e) => program_header_error(data@, 0, width, order) == Some(e),
            },
    {
        ProgramHeader::new_at(data, 0, width, order)
    }

    /// Decodes the program header that starts `base` bytes into `data`.
    pub fn new_at(data: &[u8], base: usize, width: AddressWidth, order: ByteOrder) -> (r: Result<
        ProgramHeader,
        DecodeError,
    >)
        requires
            base + 64 <= usize::MAX,
        ensures
            match r {
                Ok(h) => program_header_error(data@, base as int, width, order) is None
                    && h.decoded_from(data@, base as int, width, order),
                Err(e) => program_header_error(data@, base as int, width, order) == Some(e),
            },
    {
        proof {
            lemma_pow256_8();
            reveal_with_fuel(first_short, 8);
        }
        let ghost f = program_field_at(base as int, width);
        let p_type = get_type(sum_offset(data, base, 4, order)? as u32)?;
        match width {
            AddressWidth::ThirtyTwoBit => {
                assert(f(0) == (base + 4, 4int));
                let p_offset = sum_offset(data, base + 4, 4, order)?;
                assert(f(1) == (base + 8, 4int));
                let p_vaddr = sum_offset(data, base + 8, 4, order)?;
                assert(f(2) == (base + 12, 4int));
                let p_paddr = sum_offset(data, base + 12, 4, order)?;
                assert(f(3) == (base + 16, 4int));
                let p_filesz = sum_offset(data, base + 16, 4, order)?;
                assert(f(4) == (base + 20, 4int));
                let p_memsz = sum_offset(data, base + 20, 4, order)?;
                assert(f(5) == (base + 24, 4int));
                let p_flags = sum_offset(data, base + 24, 4, order)?;
                assert(f(6) == (base + 28, 4int));
                let p_allign = sum_offset(data, base + 28, 4, order)?;
                Ok(ProgramHeader {
                    p_type,
                    p_flags: p_flags as u32,
                    p_offset,
                    p_vaddr,
                    p_paddr,
                    p_filesz,
                    p_memsz,
                    p_allign,
                })
            },
            AddressWidth::SixtyFourBit => {
                assert(f(0) == (base + 4, 4int));
                let p_flags = sum_offset(data, base + 4, 4, order)?;
                assert(f(1) == (base + 8, 8int));
                let p_offset = sum_offset(data, base + 8, 8, order)?;
                assert(f(2) == (base + 16, 8int));
                let p_vaddr = sum_offset(data, base + 16, 8, order)?;
                assert(f(3) == (base + 24, 8int));
                let p_paddr = sum_offset(data, base + 24, 8, order)?;
                assert(f(4) == (base + 32, 8int));
                let p_filesz = sum_offset(data, base + 32, 8, order)?;
                assert(f(5) == (base + 40, 8int));
                let p_memsz = sum_offset(data, base + 40, 8, order)?;
                assert(f(6) == (base + 48, 8int));
                let p_allign = sum_offset(data, base + 48, 8, order)?;
                Ok(ProgramHeader {
                    p_type,
                    p_flags: p_flags as u32,
                    p_offset,
                    p_vaddr,
                    p_paddr,
                    p_filesz,
                    p_memsz,
                    p_allign,
                })
            },
        }
    }
}

/// The kind of a segment.
#[derive(Clone, Copy, Debug, PartialEq, Eq, Structural)]
pub enum ProgramType {
    Null,
    Load,
    Dynamic,
    Interp,
    Note,
    ShLib,
    PHdr,
    Tls,
    LoOS,
    HiOS,
    LoProc,
    HiProc,
}

/// The code that stands for each member of [`ProgramType`].
pub open spec fn program_type_code(x: ProgramType) -> u32 {
    match x {
        ProgramType::Null => 0x0,
        ProgramType::Load => 0x1,
        ProgramType::Dynamic => 0x2,
        ProgramType::Interp => 0x3,
        ProgramType::Note => 0x4,
        ProgramType::ShLib => 0x5,
        ProgramType::PHdr => 0x6,
        ProgramType::Tls => 0x7,
        ProgramType::LoOS => 0x6000_0000,
        ProgramType::HiOS => 0x6fff_ffff,
        ProgramType::LoProc => 0x7000_0000,
        ProgramType::HiProc => 0x7fff_ffff,
    }
}

/// Resolves a segment type code against the table of [`program_type_code`].
pub fn get_type(value: u32) -> (r: Result<ProgramType, DecodeError>)
    ensures
        match r {
            Ok(x) => program_type_code(x) == value,
            Err(e) => (forall|x: ProgramType| program_type_code(x) != value) && e == unrecognized(
                CodedField::SegmentType,
                value as u64,
            ),
        },
{
    match value {
        0x0 => Ok(ProgramType::Null),
        0x1 => Ok(ProgramType::Load),
        0x2 => Ok(ProgramType::Dynamic),
        0x3 => Ok(ProgramType::Interp),
        0x4 => Ok(ProgramType::Note),
        0x5 => Ok(ProgramType::ShLib),
        0x6 => Ok(ProgramType::PHdr),
        0x7 => Ok(ProgramType::Tls),
        0x6000_0000 => Ok(ProgramType::LoOS),
        0x6fff_ffff => Ok(ProgramType::HiOS),
        0x7000_0000 => Ok(ProgramType::LoProc),
        0x7fff_ffff => Ok(ProgramType::HiProc),
        _ => Err(DecodeError::UnrecognizedCode { field: CodedField::SegmentType, value: value as u64 }),
    }
}

} // verus!
