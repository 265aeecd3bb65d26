use crate::base::Base;
use crate::find::{
    bytes_eq, first_match, lemma_first_match_characterizes, lemma_last_match_characterizes,
    par_position_first, par_position_last, Find,
};
use crate::section::Section;
use vstd::prelude::*;
use vstd::slice::{slice_subrange, slice_to_vec};
use vstd::string::StringSliceAdditionalSpecFns;
use vstd::utf8::{decode_utf8, valid_utf8};

verus! {

/// Offset of the field of the legacy header that locates the new-style
/// header.
pub const DOS_LFANEW_OFFSET: usize = 0x3c;

/// Size of the legacy header that opens every image.
pub const DOS_HEADER_SIZE: usize = 0x40;

/// Offset of the optional header, counted from the new-style signature: the
/// four signature bytes followed by the twenty-byte file header.
pub const PE_OPTIONAL_OFFSET: usize = 24;

/// Offset of the declared mapped size within the optional header.
pub const SIZE_OF_IMAGE_OFFSET: usize = 56;

/// The optional header must at least reach past the declared mapped size.
pub const OPTIONAL_MIN_SIZE: usize = 60;

/// Bytes of header that must be present once the new-style header begins:
/// signature, file header, and the optional header up to and including the
/// declared mapped size.
pub const HEADER_ROOM: usize = 84;

/// The optional-header magic of a 64-bit image.
pub const PE64_MAGIC: u16 = 0x20b;

/// Size of one section header entry.
pub const SECTION_HEADER_SIZE: usize = 40;

/// Size of the fixed-width raw name field of a section header.
pub const SECTION_NAME_SIZE: usize = 8;

/// The loader accepts no more sections than this; a larger count marks a
/// malformed image.
pub const MAX_SECTIONS: usize = 96;

/// The reasons an in-memory image is rejected as structurally invalid.
#[derive(Debug, Clone, Copy, PartialEq, Eq, Structural)]
pub enum ImageError {
    /// The bytes end before a header field that had to be read.
    Truncated,
    /// The legacy-header magic is wrong.
    BadDosMagic,
    /// The signature the legacy header points at is wrong.
    BadPeMagic,
    /// The optional-header magic is not the 64-bit one.
    BadOptionalMagic,
    /// The section count exceeds what the loader accepts.
    TooManySections,
    /// The declared mapped size does not match the bytes given.
    SizeMismatch,
    /// A section leaves the image or overlaps its predecessor.
    BadSectionLayout,
}

/// The little-endian 16-bit value stored at `off`.
pub open spec fn u16_le(d: Seq<u8>, off: int) -> int {
    d[off] + d[off + 1] * 0x100
}

/// The little-endian 32-bit value stored at `off`.
pub open spec fn u32_le(d: Seq<u8>, off: int) -> int {
    d[off] + d[off + 1] * 0x100 + d[off + 2] * 0x10000 + d[off + 3] * 0x1000000
}

/// Offset of the new-style header.
pub open spec fn spec_lfanew(d: Seq<u8>) -> int {
    u32_le(d, DOS_LFANEW_OFFSET as int)
}

/// The legacy-header magic bytes read `MZ`.
pub open spec fn spec_dos_magic_ok(d: Seq<u8>) -> bool {
    d[0] == 0x4d && d[1] == 0x5a
}

/// The new-style signature reads `PE\0\0`.
pub open spec fn spec_pe_magic_ok(d: Seq<u8>) -> bool {
    let lf = spec_lfanew(d);
    d[lf] == 0x50 && d[lf + 1] == 0x45 && d[lf + 2] == 0 && d[lf + 3] == 0
}

/// The declared number of sections.
pub open spec fn spec_num_sections(d: Seq<u8>) -> int {
    u16_le(d, spec_lfanew(d) + 6)
}

/// The declared size of the optional header.
pub open spec fn spec_opt_size(d: Seq<u8>) -> int {
    u16_le(d, spec_lfanew(d) + 20)
}

/// The optional-header magic.
pub open spec fn spec_opt_magic(d: Seq<u8>) -> int {
    u16_le(d, spec_lfanew(d) + PE_OPTIONAL_OFFSET as int)
}

/// The declared mapped size of the whole image.
pub open spec fn spec_size_of_image(d: Seq<u8>) -> int {
    u32_le(d, spec_lfanew(d) + PE_OPTIONAL_OFFSET as int + SIZE_OF_IMAGE_OFFSET as int)
}

/// Offset of the section header table.
pub open spec fn spec_table_off(d: Seq<u8>) -> int {
    spec_lfanew(d) + PE_OPTIONAL_OFFSET as int + spec_opt_size(d)
}

/// Offset of the `k`-th section header entry.
pub open spec fn spec_section_off(d: Seq<u8>, k: int) -> int {
    spec_table_off(d) + (SECTION_HEADER_SIZE as int) * k
}

/// The raw, fixed-width name field of the `k`-th section header.
pub open spec fn spec_section_name_bytes(d: Seq<u8>, k: int) -> Seq<u8> {
    d.subrange(spec_section_off(d, k), spec_section_off(d, k) + SECTION_NAME_SIZE as int)
}

/// The declared in-memory size of the `k`-th section.
pub open spec fn spec_section_vsize(d: Seq<u8>, k: int) -> int {
    u32_le(d, spec_section_off(d, k) + 8)
}

/// The offset of the `k`-th section relative to the image base.
pub open spec fn spec_section_va(d: Seq<u8>, k: int) -> int {
    u32_le(d, spec_section_off(d, k) + 12)
}

/// All header checks up to the section layout: magics, room for every header
/// field, an acceptable section count, and a declared size that matches the
/// bytes given.
pub open spec fn spec_header_ok(d: Seq<u8>) -> bool {
    &&& d.len() >= DOS_HEADER_SIZE
    &&& spec_dos_magic_ok(d)
    &&& spec_lfanew(d) + HEADER_ROOM as int <= d.len()
    &&& spec_pe_magic_ok(d)
    &&& spec_opt_magic(d) == PE64_MAGIC
    &&& spec_opt_size(d) >= OPTIONAL_MIN_SIZE
    &&& spec_num_sections(d) <= MAX_SECTIONS
    &&& spec_table_off(d) + (SECTION_HEADER_SIZE as int) * spec_num_sections(d) <= d.len()
    &&& spec_size_of_image(d) == d.len()
}

/// A prefix of an image holds readable headers: both magics are right and
/// every field up to the declared mapped size lies within the prefix.
pub open spec fn spec_prefix_ok(d: Seq<u8>) -> bool {
    &&& d.len() >= DOS_HEADER_SIZE
    &&& spec_dos_magic_ok(d)
    &&& spec_lfanew(d) + HEADER_ROOM as int <= d.len()
    &&& spec_pe_magic_ok(d)
    &&& spec_opt_magic(d) == PE64_MAGIC
}

/// The `k`-th section lies within the image, and does not start before its
/// predecessor ends.
pub open spec fn spec_section_ok(d: Seq<u8>, k: int) -> bool {
    &&& spec_section_va(d, k) + spec_section_vsize(d, k) <= spec_size_of_image(d)
    &&& k >= 1 ==> spec_section_va(d, k - 1) + spec_section_vsize(d, k - 1) <= spec_section_va(
        d,
        k,
    )
}

/// Every section lies within the image, in table order without overlap.
pub open spec fn spec_sections_laid_ok(d: Seq<u8>) -> bool {
    forall|k: int| 0 <= k < spec_num_sections(d) ==> #[trigger] spec_section_ok(d, k)
}

/// The structural validation of an image, with the error each malformation
/// draws. `Ok` exactly when every check passes.
pub open spec fn validate_image(d: Seq<u8>) -> Result<(), ImageError> {
    if d.len() < DOS_HEADER_SIZE {
        Err(ImageError::Truncated)
    } else if !spec_dos_magic_ok(d) {
        Err(ImageError::BadDosMagic)
    } else if spec_lfanew(d) + HEADER_ROOM as int > d.len() {
        Err(ImageError::Truncated)
    } else if !spec_pe_magic_ok(d) {
        Err(ImageError::BadPeMagic)
    } else if spec_opt_magic(d) != PE64_MAGIC {
        Err(ImageError::BadOptionalMagic)
    } else if spec_opt_size(d) < OPTIONAL_MIN_SIZE {
        Err(ImageError::Truncated)
    } else if spec_num_sections(d) > MAX_SECTIONS {
        Err(ImageError::TooManySections)
    } else if spec_table_off(d) + (SECTION_HEADER_SIZE as int) * spec_num_sections(d) > d.len() {
        Err(ImageError::Truncated)
    } else if spec_size_of_image(d) != d.len() {
        Err(ImageError::SizeMismatch)
    } else if !spec_sections_laid_ok(d) {
        Err(ImageError::BadSectionLayout)
    } else {
        Ok(())
    }
}

/// Index of the first zero byte at or after `from`, or the length when none
/// follows.
pub open spec fn spec_nul_pos(raw: Seq<u8>, from: int) -> int
    decreases raw.len() - from + 1,
{
    if from < 0 || from >= raw.len() {
        raw.len() as int
    } else if raw[from] == 0 {
        from
    } else {
        spec_nul_pos(raw, from + 1)
    }
}

/// The name a raw, fixed-width name field denotes: the bytes up to the first
/// zero, decoded as text, or a fixed fallback when they are not valid text.
pub open spec fn spec_section_name(raw: Seq<u8>) -> Seq<char> {
    let trimmed = raw.subrange(0, spec_nul_pos(raw, 0));
    if valid_utf8(trimmed) {
        decode_utf8(trimmed)
    } else {
        "Invalid UTF-8"@
    }
}

/// The section a parse of `d` under base address `b` produces at index `k`:
/// its base is the image base moved by the declared offset, its bytes are the
/// image's bytes in the declared range, and its name is decoded from the raw
/// name field.
pub open spec fn spec_section_parsed(d: Seq<u8>, b: Base, s: Section, k: int) -> bool {
    &&& s.spec_base()@ == b@ + spec_section_va(d, k)
    &&& s.spec_data() == d.subrange(
        spec_section_va(d, k),
        spec_section_va(d, k) + spec_section_vsize(d, k),
    )
    &&& s.spec_name() == spec_section_name(spec_section_name_bytes(d, k))
}

/// Reads the little-endian 16-bit value at `off`.
fn read_u16_le(d: &[u8], off: usize) -> (r: u16)
    requires
        off + 2 <= d@.len(),
    ensures
        r == u16_le(d@, off as int),
{
    (d[off] as u16) + (d[off + 1] as u16) * 0x100
}

/// Reads the little-endian 32-bit value at `off`.
fn read_u32_le(d: &[u8], off: usize) -> (r: u32)
    requires
        off + 4 <= d@.len(),
    ensures
        r == u32_le(d@, off as int),
{
    (d[off] as u32) + (d[off + 1] as u32) * 0x100 + (d[off + 2] as u32) * 0x10000 + (d[off + 3]
        as u32) * 0x1000000
}

/// Relies on std's `str::from_utf8`: `Some` exactly when the bytes are valid
/// UTF-8, and then the returned string is their decoding.
#[verifier::external_body]
fn utf8_to_string(bytes: &[u8]) -> (r: Option<String>)
    ensures
        match r {
            Some(s) => valid_utf8(bytes@) && s@ == decode_utf8(bytes@),
            None => !valid_utf8(bytes@),
        },
{
    match core::str::from_utf8(bytes) {
        Ok(s) => Some(s.to_owned()),
        Err(_) => None,
    }
}

/// Exact comparison of two strings.
fn str_eq(a: &str, b: &str) -> (r: bool)
    ensures
        r == (a@ == b@),
{
    let r = bytes_eq(a.as_bytes(), b.as_bytes());
    proof {
        if a.spec_bytes() == b.spec_bytes() {
            vstd::utf8::encode_utf8_decode_utf8(a@);
            vstd::utf8::encode_utf8_decode_utf8(b@);
        }
    }
    r
}

proof fn lemma_nul_pos_from(raw: Seq<u8>, from: int, end: int)
    requires
        0 <= from <= end <= raw.len(),
        forall|j: int| from <= j < end ==> raw[j] != 0,
        end < raw.len() ==> raw[end] == 0,
    ensures
        spec_nul_pos(raw, from) == end,
    decreases end - from,
{
    if from < end {
        lemma_nul_pos_from(raw, from + 1, end);
    }
}

/// Decodes a raw, fixed-width name field.
fn section_name(raw: &[u8]) -> (r: String)
    requires
        raw@.len() == SECTION_NAME_SIZE,
    ensures
        r@ == spec_section_name(raw@),
{
    let mut end: usize = 0;
    while end < SECTION_NAME_SIZE && raw[end] != 0
        invariant
            raw@.len() == SECTION_NAME_SIZE,
            0 <= end <= SECTION_NAME_SIZE,
            forall|j: int| 0 <= j < end ==> raw@[j] != 0,
        decreases SECTION_NAME_SIZE - end,
    {
        end += 1;
    }
    proof {
        lemma_nul_pos_from(raw@, 0, end as int);
    }
    let trimmed = slice_subrange(raw, 0, end);
    match utf8_to_string(trimmed) {
        Some(s) => s,
        None => "Invalid UTF-8".to_owned(),
    }
}

/// Reads the mapped size an image declares from a prefix of its bytes —
/// enough to know how much of the image to read before parsing it whole.
/// `Some` exactly when the prefix reaches every header field up to the
/// declared size and both magics are right.
pub fn declared_size(prefix: &[u8]) -> (r: Option<usize>)
    ensures
        match r {
            Some(sz) => spec_prefix_ok(prefix@) && sz == spec_size_of_image(prefix@),
            None => !spec_prefix_ok(prefix@),
        },
{
    let n = prefix.len();
    if n < DOS_HEADER_SIZE {
        return None;
    }
    if !(prefix[0] == 0x4d && prefix[1] == 0x5a) {
        return None;
    }
    let lf = read_u32_le(prefix, DOS_LFANEW_OFFSET) as usize;
    if (lf as u64) + (HEADER_ROOM as u64) > (n as u64) {
        return None;
    }
    if !(prefix[lf] == 0x50 && prefix[lf + 1] == 0x45 && prefix[lf + 2] == 0 && prefix[lf + 3]
        == 0) {
        return None;
    }
    if read_u16_le(prefix, lf + PE_OPTIONAL_OFFSET) != PE64_MAGIC {
        return None;
    }
    Some(read_u32_le(prefix, lf + PE_OPTIONAL_OFFSET + SIZE_OF_IMAGE_OFFSET) as usize)
}

/// Index of the first section at or after `from` whose name is `name`.
pub open spec fn spec_first_section_with(sections: Seq<Section>, name: Seq<char>, from: int) -> Option<
    int,
>
    decreases sections.len() - from + 1,
{
    if from < 0 || from >= sections.len() {
        None
    } else if sections[from].spec_name() == name {
        Some(from)
    } else {
        spec_first_section_with(sections, name, from + 1)
    }
}

proof fn lemma_first_section_from(sections: Seq<Section>, name: Seq<char>, i: int)
    requires
        0 <= i <= sections.len(),
        forall|j: int| 0 <= j < i ==> sections[j].spec_name() != name,
        i < sections.len() ==> sections[i].spec_name() == name,
    ensures
        spec_first_section_with(sections, name, 0) == if i < sections.len() {
            Some(i)
        } else {
            None::<int>
        },
{
    lemma_first_section_from_rec(sections, name, 0, i);
}

proof fn lemma_first_section_from_rec(sections: Seq<Section>, name: Seq<char>, from: int, i: int)
    requires
        0 <= from <= i <= sections.len(),
        forall|j: int| from <= j < i ==> sections[j].spec_name() != name,
        i < sections.len() ==> sections[i].spec_name() == name,
    ensures
        spec_first_section_with(sections, name, from) == if i < sections.len() {
            Some(i)
        } else {
            None::<int>
        },
    decreases i - from,
{
    if from < i {
        lemma_first_section_from_rec(sections, name, from + 1, i);
    }
}

/// The image of the running program: its base address, a snapshot of its
/// mapped bytes, and its parsed, ordered section list.
#[derive(Debug)]
pub struct Program {
    base: Base,
    data: Vec<u8>,
    sections: Vec<Section>,
}

impl Program {
    /// The address of the image's first byte.
    pub closed spec fn spec_base(&self) -> Base {
        self.base
    }

    /// The image's bytes.
    pub closed spec fn spec_data(&self) -> Seq<u8> {
        self.data@
    }

    /// The image's sections, in table order.
    pub closed spec fn spec_sections(&self) -> Seq<Section> {
        self.sections@
    }

    /// The image lies within the address space; every section lies within
    /// the image, holds exactly the image's bytes of its range, and starts
    /// no earlier than its predecessor ends.
    pub open spec fn wf(&self) -> bool {
        &&& self.spec_base()@ + self.spec_data().len() <= usize::MAX
        &&& forall|i: int|
            0 <= i < self.spec_sections().len() ==> {
                let s = #[trigger] self.spec_sections()[i];
                &&& s.wf()
                &&& s.spec_base()@ >= self.spec_base()@
                &&& s.spec_base()@ + s.spec_data().len() <= self.spec_base()@
                    + self.spec_data().len()
                &&& s.spec_data() == self.spec_data().subrange(
                    s.spec_base()@ - self.spec_base()@,
                    s.spec_base()@ - self.spec_base()@ + s.spec_data().len(),
                )
            }
        &&& forall|i: int|
            0 <= i && i + 1 < self.spec_sections().len() ==> (#[trigger] self.spec_sections()[i]).spec_base()@
                + self.spec_sections()[i].spec_data().len() <= self.spec_sections()[
                i + 1
            ].spec_base()@
    }

    /// Parses the image whose bytes are `data` and whose first byte sits at
    /// `base`. Returns the structural error of `validate_image` on a
    /// malformed image; otherwise the parsed program, whose sections are
    /// exactly the entries of the image's section table.
    pub fn new(base: Base, data: Vec<u8>) -> (r: Result<Program, ImageError>)
        requires
            base@ + data@.len() <= usize::MAX,
        ensures
            match r {
                Ok(p) => {
                    &&& validate_image(data@) is Ok
                    &&& p.wf()
                    &&& p.spec_base() == base
                    &&& p.spec_data() == data@
                    &&& p.spec_sections().len() == spec_num_sections(data@)
                    &&& forall|k: int|
                        0 <= k < spec_num_sections(data@) ==> spec_section_parsed(
                            data@,
                            base,
                            #[trigger] p.spec_sections()[k],
                            k,
                        )
                },
                Err(e) => validate_image(data@) == Err::<(), ImageError>(e),
            },
    {
        let n = data.len();
        if n < DOS_HEADER_SIZE {
            return Err(ImageError::Truncated);
        }
        if !(data[0] == 0x4d && data[1] == 0x5a) {
            return Err(ImageError::BadDosMagic);
        }
        let lf32 = read_u32_le(data.as_slice(), DOS_LFANEW_OFFSET);
        let lf = lf32 as usize;
        if (lf as u64) + (HEADER_ROOM as u64) > (n as u64) {
            return Err(ImageError::Truncated);
        }
        if !(data[lf] == 0x50 && data[lf + 1] == 0x45 && data[lf + 2] == 0 && data[lf + 3] == 0) {
            return Err(ImageError::BadPeMagic);
        }
        let opt_magic = read_u16_le(data.as_slice(), lf + PE_OPTIONAL_OFFSET);
        if opt_magic != PE64_MAGIC {
            return Err(ImageError::BadOptionalMagic);
        }
        let opt_size = read_u16_le(data.as_slice(), lf + 20) as usize;
        if opt_size < OPTIONAL_MIN_SIZE {
            return Err(ImageError::Truncated);
        }
        let num_sections = read_u16_le(data.as_slice(), lf + 6) as usize;
        if num_sections > MAX_SECTIONS {
            return Err(ImageError::TooManySections);
        }
        if (lf as u64) + (PE_OPTIONAL_OFFSET as u64) + (opt_size as u64) + (num_sections as u64)
            * (SECTION_HEADER_SIZE as u64) > (n as u64) {
            return Err(ImageError::Truncated);
        }
        let table_off = lf + PE_OPTIONAL_OFFSET + opt_size;
        let size_of_image = read_u32_le(
            data.as_slice(),
            lf + PE_OPTIONAL_OFFSET + SIZE_OF_IMAGE_OFFSET,
        ) as usize;
        if size_of_image != n {
            return Err(ImageError::SizeMismatch);
        }
        let mut sections: Vec<Section> = Vec::new();
        let mut k: usize = 0;
        let mut prev_end: usize = 0;
        while k < num_sections
            invariant
                spec_header_ok(data@),
                n == data@.len(),
                base@ + n <= usize::MAX,
                num_sections == spec_num_sections(data@),
                table_off == spec_table_off(data@),
                size_of_image == n,
                0 <= k <= num_sections,
                sections@.len() == k,
                forall|j: int|
                    0 <= j < k ==> spec_section_parsed(
                        data@,
                        base,
                        #[trigger] sections@[j],
                        j,
                    ),
                forall|j: int| 0 <= j < k ==> #[trigger] spec_section_ok(data@, j),
                k == 0 ==> prev_end == 0,
                k >= 1 ==> prev_end == spec_section_va(data@, k - 1) + spec_section_vsize(
                    data@,
                    k - 1,
                ),
                prev_end <= n,
            decreases num_sections - k,
        {
            let off = table_off + SECTION_HEADER_SIZE * k;
            let vsize = read_u32_le(data.as_slice(), off + 8) as usize;
            let va = read_u32_le(data.as_slice(), off + 12) as usize;
            if (va as u64) + (vsize as u64) > (size_of_image as u64) {
                proof {
                    assert(!spec_section_ok(data@, k as int));
                    assert(!spec_sections_laid_ok(data@));
                }
                return Err(ImageError::BadSectionLayout);
            }
            if va < prev_end {
                proof {
                    assert(!spec_section_ok(data@, k as int));
                    assert(!spec_sections_laid_ok(data@));
                }
                return Err(ImageError::BadSectionLayout);
            }
            let name = section_name(slice_subrange(data.as_slice(), off, off + SECTION_NAME_SIZE));
            let sbase = base.add(va);
            let sdata = slice_to_vec(slice_subrange(data.as_slice(), va, va + vsize));
            sections.push(Section::new(name, sbase, sdata));
            prev_end = va + vsize;
            k = k + 1;
        }
        let ghost d = data@;
        let p = Program { base, data, sections };
        proof {
            assert forall|i: int| 0 <= i < p.spec_sections().len() implies {
                let s = #[trigger] p.spec_sections()[i];
                &&& s.wf()
                &&& s.spec_base()@ >= p.spec_base()@
                &&& s.spec_base()@ + s.spec_data().len() <= p.spec_base()@ + p.spec_data().len()
                &&& s.spec_data() == p.spec_data().subrange(
                    s.spec_base()@ - p.spec_base()@,
                    s.spec_base()@ - p.spec_base()@ + s.spec_data().len(),
                )
            } by {
                assert(spec_section_parsed(d, base, p.spec_sections()[i], i));
                assert(spec_section_ok(d, i));
            }
            assert forall|i: int|
                0 <= i && i + 1 < p.spec_sections().len() implies (
            #[trigger] p.spec_sections()[i]).spec_base()@ + p.spec_sections()[i].spec_data().len()
                <= p.spec_sections()[i + 1].spec_base()@ by {
                assert(spec_section_parsed(d, base, p.spec_sections()[i], i));
                assert(spec_section_parsed(d, base, p.spec_sections()[i + 1], i + 1));
                assert(spec_section_ok(d, i + 1));
            }
        }
        Ok(p)
    }

    /// Returns a base pointer of this program in memory.
    pub fn base(&self) -> (r: Base)
        ensures
            r == self.spec_base(),
    {
        self.base
    }

    /// Returns the length of this program in memory.
    pub fn len(&self) -> (r: usize)
        ensures
            r == self.spec_data().len(),
    {
        self.data.len()
    }

    /// Returns a slice containing the entire program.
    pub fn as_slice(&self) -> (r: &[u8])
        ensures
            r@ == self.spec_data(),
    {
        self.data.as_slice()
    }

    /// Returns `true` if the program contains the byte pattern.
    pub fn contains(&self, pattern: &[u8]) -> (r: bool)
        requires
            self.wf(),
            pattern@.len() >= 1,
        ensures
            r == (first_match(self.spec_data(), pattern@) is Some),
    {
        self.find(pattern).is_some()
    }

    /// Returns the sections of this program, in table order.
    pub fn sections(&self) -> (r: &[Section])
        ensures
            r@ == self.spec_sections(),
    {
        self.sections.as_slice()
    }

    /// Returns the first section carrying `name`; on duplicate names the one
    /// earliest in table order wins.
    pub fn get_section(&self, name: &str) -> (r: Option<&Section>)
        ensures
            match r {
                Some(s) => spec_first_section_with(self.spec_sections(), name@, 0) matches Some(i)
                    && 0 <= i < self.spec_sections().len() && *s == self.spec_sections()[i]
                    && s.spec_name() == name@,
                None => spec_first_section_with(self.spec_sections(), name@, 0) is None,
            },
    {
        let n = self.sections.len();
        let mut i: usize = 0;
        while i < n
            invariant
                n == self.spec_sections().len(),
                0 <= i <= n,
                forall|j: int| 0 <= j < i ==> self.spec_sections()[j].spec_name() != name@,
            decreases n - i,
        {
            if str_eq(self.sections[i].name(), name) {
                proof {
                    lemma_first_section_from(self.spec_sections(), name@, i as int);
                }
                return Some(&self.sections[i]);
            }
            i = i + 1;
        }
        proof {
            lemma_first_section_from(self.spec_sections(), name@, n as int);
        }
        None
    }
}

/// No two sections overlap: a section later in table order begins at or
/// after the end of every earlier one.
pub proof fn lemma_sections_disjoint(p: &Program, i: int, j: int)
    requires
        p.wf(),
        0 <= i < j < p.spec_sections().len(),
    ensures
        p.spec_sections()[i].spec_base()@ + p.spec_sections()[i].spec_data().len()
            <= p.spec_sections()[j].spec_base()@,
    decreases j - i,
{
    if i + 1 < j {
        lemma_sections_disjoint(p, i + 1, j);
    }
}

impl Find for Program {
    open spec fn haystack(&self) -> Seq<u8> {
        self.spec_data()
    }

    open spec fn base_addr(&self) -> int {
        self.spec_base()@ as int
    }

    open spec fn find_wf(&self) -> bool {
        self.wf()
    }

    fn find(&self, pattern: &[u8]) -> (r: Option<Base>) {
        match par_position_first(self.data.as_slice(), pattern) {
            Some(offset) => {
                proof {
                    lemma_first_match_characterizes(self.spec_data(), pattern@);
                }
                Some(self.base.add(offset))
            },
            None => None,
        }
    }

    fn rfind(&self, pattern: &[u8]) -> (r: Option<Base>) {
        match par_position_last(self.data.as_slice(), pattern) {
            Some(offset) => {
                proof {
                    lemma_last_match_characterizes(self.spec_data(), pattern@);
                }
                Some(self.base.add(offset))
            },
            None => None,
        }
    }
}

} // verus!
