use vstd::prelude::*;

use crate::file_header::{
    class_of, data_of, file_header_error, file_header_fits, file_header_laid_out,
    file_header_len, lemma_file_header_round_trip, machine_known, magic_ok, osabi_known,
    tail_field, type_known, FileHeader,
};
use crate::program_header::{
    lemma_program_header_round_trip, program_field_at, program_header_error,
    program_header_fits_width, program_header_laid_out, program_header_len, program_type_known,
    ProgramHeader,
};
use crate::section_header::{
    lemma_section_header_round_trip, section_field_at, section_flag_known, section_header_error,
    section_header_fits_width, section_header_laid_out, section_type_known, SectionHeader,
};
use crate::utils::{
    field_value, fits, lemma_field_value_byte, lemma_field_value_same, lemma_first_short_len,
    lemma_first_short_none, unrecognized, word_len, AddressWidth, ByteOrder, CodedField,
    DecodeError,
};

verus! {

/// The three headers at the start of an object file, decoded together.
pub struct Elf {
    pub file_header: FileHeader,
    pub program_header: ProgramHeader,
    pub section_header: SectionHeader,
}

/// Address width declared by a buffer that starts with a file header.
pub open spec fn width_of(d: Seq<u8>) -> AddressWidth {
    class_of(d[4])->Some_0
}

/// Byte order declared by a buffer that starts with a file header.
pub open spec fn order_of(d: Seq<u8>) -> ByteOrder {
    data_of(d[5])->Some_0
}

/// Where the program header is read: right after the file header.
pub open spec fn program_header_base(w: AddressWidth) -> int {
    file_header_len(w) as int
}

/// Where the section header is read: right after the program header.
pub open spec fn section_header_base(w: AddressWidth) -> int {
    (file_header_len(w) + program_header_len(w)) as int
}

/// Why `d` does not start with the three headers, or `None` where it does:
/// the file header's error first, then the program header's, then the
/// section header's.
pub open spec fn elf_error(d: Seq<u8>) -> Option<DecodeError> {
    if file_header_error(d) is Some {
        file_header_error(d)
    } else {
        let w = width_of(d);
        let o = order_of(d);
        if program_header_error(d, program_header_base(w), w, o) is Some {
            program_header_error(d, program_header_base(w), w, o)
        } else {
            section_header_error(d, section_header_base(w), w, o)
        }
    }
}

impl Elf {
    /// Whether `self` holds what the three headers at the start of `d` say.
    pub open spec fn decoded_from(self, d: Seq<u8>) -> bool {
        let w = width_of(d);
        let o = order_of(d);
        &&& self.file_header.decoded_from(d)
        &&& self.program_header.decoded_from(d, program_header_base(w), w, o)
        &&& self.section_header.decoded_from(d, section_header_base(w), w, o)
    }

    /// Decodes the file header at the start of `data`, the program header
    /// right after it and the section header right after that. Fails with
    /// the first error met; nothing is returned in part.
    pub fn from_data(data: &[u8]) -> (r: Result<Elf, DecodeError>)
        ensures
            match r {
                Ok(e) => elf_error(data@) is None && e.decoded_from(data@),
                Err(e) => elf_error(data@) == Some(e),
            },
    {
        let file_header = FileHeader::new(data)?;
        let width = file_header.ei_class;
        let order = file_header.ei_data;
        let (ph_base, sh_base): (usize, usize) = match width {
            AddressWidth::ThirtyTwoBit => (0x34, 0x54),
            AddressWidth::SixtyFourBit => (0x40, 0x78),
        };
        let program_header = ProgramHeader::new_at(data, ph_base, width, order)?;
        let section_header = SectionHeader::new_at(data, sh_base, width, order)?;
        Ok(Elf { file_header, program_header, section_header })
    }
}

/// Whether `d` holds the three headers of `e`, each where the format keeps it.
pub open spec fn elf_laid_out(e: Elf, d: Seq<u8>) -> bool {
    let w = e.file_header.ei_class;
    let o = e.file_header.ei_data;
    &&& file_header_laid_out(e.file_header, d)
    &&& program_header_laid_out(e.program_header, d, program_header_base(w), w, o)
    &&& section_header_laid_out(e.section_header, d, section_header_base(w), w, o)
}

/// Three headers laid out in bytes decode to themselves.
pub proof fn lemma_elf_round_trip(e: Elf, d: Seq<u8>)
    requires
        elf_laid_out(e, d),
        file_header_fits(e.file_header),
        program_header_fits_width(e.program_header, e.file_header.ei_class),
        section_header_fits_width(e.section_header, e.file_header.ei_class),
    ensures
        elf_error(d) is None,
        e.decoded_from(d),
{
    let w = e.file_header.ei_class;
    let o = e.file_header.ei_data;
    lemma_file_header_round_trip(e.file_header, d);
    lemma_program_header_round_trip(e.program_header, d, program_header_base(w), w, o);
    lemma_section_header_round_trip(e.section_header, d, section_header_base(w), w, o);
}

/// Whether `v` is one of the codes defined for the coded field `c`.
pub open spec fn code_known(c: CodedField, v: nat) -> bool {
    match c {
        CodedField::Class => v == 1 || v == 2,
        CodedField::Data => v == 1 || v == 2,
        CodedField::OsAbi => v < 256 && osabi_known(v as u8),
        CodedField::ObjectType => type_known(v),
        CodedField::Machine => machine_known(v),
        CodedField::SegmentType => program_type_known(v),
        CodedField::SectionType => section_type_known(v),
        CodedField::SectionFlags => section_flag_known(v),
    }
}

/// Offset and width of the coded field `c` among the three headers.
pub open spec fn code_field(w: AddressWidth, c: CodedField) -> (int, int) {
    match c {
        CodedField::Class => (4, 1),
        CodedField::Data => (5, 1),
        CodedField::OsAbi => (7, 1),
        CodedField::ObjectType => (16, 2),
        CodedField::Machine => (18, 2),
        CodedField::SegmentType => (program_header_base(w), 4),
        CodedField::SectionType => (section_header_base(w) + 4, 4),
        CodedField::SectionFlags => (section_header_base(w) + 8, word_len(w) as int),
    }
}

/// Putting a value that is not in its table into any coded field of a
/// buffer that decodes makes the decoding fail with `UnrecognizedCode` for
/// that field and value.
pub proof fn lemma_unknown_code(d: Seq<u8>, d2: Seq<u8>, c: CodedField)
    requires
        elf_error(d) is None,
        d2.len() == d.len(),
        forall|k: int|
            0 <= k < d.len() && !(code_field(width_of(d), c).0 <= k < code_field(width_of(d), c).0
                + code_field(width_of(d), c).1) ==> d2[k] == d[k],
        !code_known(
            c,
            field_value(
                d2,
                code_field(width_of(d), c).0,
                code_field(width_of(d), c).1,
                order_of(d),
            ),
        ),
    ensures
        elf_error(d2) == Some(
            unrecognized(
                c,
                field_value(
                    d2,
                    code_field(width_of(d), c).0,
                    code_field(width_of(d), c).1,
                    order_of(d),
                ) as u64,
            ),
        ),
{
    let w = width_of(d);
    let o = order_of(d);
    let (off, width) = code_field(w, c);
    let pb = program_header_base(w);
    let sb = section_header_base(w);
    let a = word_len(w) as int;
    let sf = section_field_at(sb, w);
    lemma_first_short_none(d, sf, 0, 7);
    assert(fits(d, sf(6).0, sf(6).1));
    if width == 1 {
        lemma_field_value_byte(d2, off, o);
    }
    lemma_first_short_len(d, d2, |i: int| tail_field(w, i), 0, 11);
    if off > 16 {
        lemma_field_value_same(d, d2, 16, 2, o);
    }
    if off > 18 {
        lemma_field_value_same(d, d2, 18, 2, o);
        assert(file_header_error(d2) is None);
        lemma_first_short_len(d, d2, program_field_at(pb, w), 0, 7);
    }
    if off > pb {
        lemma_field_value_same(d, d2, pb, 4, o);
        lemma_first_short_len(d, d2, sf, 0, 7);
    }
    if off > sb + 4 {
        lemma_field_value_same(d, d2, sb + 4, 4, o);
    }
}

/// Changing any of the four magic bytes of a buffer that decodes makes the
/// decoding fail with `BadMagic`.
pub proof fn lemma_corrupt_magic(d: Seq<u8>, i: int, b: u8)
    requires
        elf_error(d) is None,
        0 <= i < 4,
        b != d[i],
    ensures
        elf_error(d.update(i, b)) == Some(DecodeError::BadMagic),
{
    let d2 = d.update(i, b);
    assert(magic_ok(d));
    assert(!magic_ok(d2));
}

} // verus!
