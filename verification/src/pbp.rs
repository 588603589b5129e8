//! Validation of an `EBOOT.PBP` header: its size, its magic number, and a
//! table of eight section offsets that never go backwards and stay inside
//! the file.
use vstd::prelude::*;
use crate::text::{outcome_view, owned};

verus! {

/// The size of a PBP header, in bytes.
pub const PBP_HEADER_SIZE: u64 = 40;

pub const PBP_TOO_SMALL: &'static str = "EBOOT.PBP trop petit";

pub const PBP_BAD_MAGIC: &'static str = "Signature EBOOT.PBP invalide";

pub const PBP_BAD_SECTIONS: &'static str = "Table des sections EBOOT.PBP invalide";

/// The magic number that opens every PBP file: a zero byte, then `PBP`.
pub open spec fn pbp_magic() -> Seq<u8> {
    seq![0u8, 0x50u8, 0x42u8, 0x50u8]
}

/// The little-endian 32-bit number at `at` in `b`.
pub open spec fn le_u32(b: Seq<u8>, at: int) -> nat {
    (b[at] + b[at + 1] * 256 + b[at + 2] * 65536 + b[at + 3] * 16777216) as nat
}

/// The offset of section `i` (of eight), stored after the magic and the
/// version.
pub open spec fn section_offset(h: Seq<u8>, i: int) -> nat {
    le_u32(h, 8 + 4 * i)
}

/// The bound below which section `i` may not start: the end of the header
/// for the first section, the start of the previous section for the others.
pub open spec fn section_floor(h: Seq<u8>, i: int) -> nat {
    if i == 0 {
        PBP_HEADER_SIZE as nat
    } else {
        section_offset(h, i - 1)
    }
}

/// The verdict on a PBP file of `length` bytes whose first bytes are
/// `header`.
pub open spec fn pbp_verdict(length: nat, header: Seq<u8>) -> Result<(), Seq<char>> {
    if length < PBP_HEADER_SIZE {
        Err(PBP_TOO_SMALL@)
    } else if header.take(4) != pbp_magic() {
        Err(PBP_BAD_MAGIC@)
    } else if !(forall|i: int|
        0 <= i < 8 ==> section_floor(header, i) <= #[trigger] section_offset(header, i) <= length) {
        Err(PBP_BAD_SECTIONS@)
    } else {
        Ok(())
    }
}

fn read_le_u32(h: &[u8], at: usize) -> (r: u64)
    requires
        at + 4 <= h@.len(),
    ensures
        r == le_u32(h@, at as int),
{
    (h[at] as u64) + (h[at + 1] as u64) * 256 + (h[at + 2] as u64) * 65536 + (h[at + 3] as u64)
        * 16777216
}

/// Checks the header of a PBP file of `length` bytes; `header` holds its
/// first 40 bytes, which are only read when the file is that long.
pub fn validate_pbp(length: u64, header: &[u8]) -> (r: Result<(), String>)
    requires
        length >= PBP_HEADER_SIZE ==> header@.len() >= PBP_HEADER_SIZE,
    ensures
        outcome_view(r) == pbp_verdict(length as nat, header@),
{
    if length < PBP_HEADER_SIZE {
        return Err(owned(PBP_TOO_SMALL));
    }
    if !(header[0] == 0 && header[1] == 0x50 && header[2] == 0x42 && header[3] == 0x50) {
        proof {
            if header@.take(4) == pbp_magic() {
                assert(header@.take(4)[0] == 0);
                assert(header@.take(4)[1] == 0x50);
                assert(header@.take(4)[2] == 0x42);
                assert(header@.take(4)[3] == 0x50);
            }
        }
        return Err(owned(PBP_BAD_MAGIC));
    }
    proof {
        assert(header@.take(4) =~= pbp_magic());
    }
    let mut previous: u64 = PBP_HEADER_SIZE;
    let mut index: usize = 0;
    while index < 8
        invariant
            index <= 8,
            length >= PBP_HEADER_SIZE,
            header@.len() >= PBP_HEADER_SIZE,
            header@.take(4) == pbp_magic(),
            previous == section_floor(header@, index as int),
            forall|i: int|
                0 <= i < index ==> section_floor(header@, i) <= #[trigger] section_offset(
                    header@,
                    i,
                ) <= length,
        decreases 8 - index,
    {
        let offset = read_le_u32(header, 8 + index * 4);
        if offset < previous || offset > length {
            proof {
                assert(section_offset(header@, index as int) == offset);
                assert(!(section_floor(header@, index as int) <= section_offset(
                    header@,
                    index as int,
                ) <= length));
            }
            return Err(owned(PBP_BAD_SECTIONS));
        }
        previous = offset;
        index = index + 1;
    }
    Ok(())
}

/// An accepted header lists its eight sections in order, all inside the
/// file: no section starts inside the header, none starts before an
/// earlier one, and none starts past the end.
pub proof fn lemma_accepted_pbp_sections(length: nat, header: Seq<u8>)
    requires
        pbp_verdict(length, header) is Ok,
    ensures
        forall|i: int, j: int|
            0 <= i <= j < 8 ==> PBP_HEADER_SIZE <= #[trigger] section_offset(header, i)
                <= #[trigger] section_offset(header, j) <= length,
{
    assert forall|i: int, j: int| 0 <= i <= j < 8 implies PBP_HEADER_SIZE <= #[trigger] section_offset(
        header,
        i,
    ) <= #[trigger] section_offset(header, j) <= length by {
        lemma_sections_chain(length, header, i, j);
    }
}

proof fn lemma_sections_chain(length: nat, header: Seq<u8>, i: int, j: int)
    requires
        pbp_verdict(length, header) is Ok,
        0 <= i <= j < 8,
    ensures
        PBP_HEADER_SIZE <= section_offset(header, i) <= section_offset(header, j) <= length,
    decreases j,
{
    assert(section_floor(header, j) <= section_offset(header, j) <= length);
    if j > i {
        lemma_sections_chain(length, header, i, j - 1);
    } else if i > 0 {
        lemma_sections_chain(length, header, i - 1, i - 1);
    }
}

} // verus!
