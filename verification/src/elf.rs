//! Parsing of x86-64 ELF executables into their loadable segments.

use crate::arith::{is_pow2, is_power_of_two};
use crate::bytes::{get_u16, get_u32, get_u64, le16, le32, le64};
use vstd::prelude::*;

verus! {

pub const ELF_HEADER_SIZE: usize = 64;

pub const PROGRAM_HEADER_SIZE: usize = 56;

pub const PT_LOAD: u32 = 1;

#[derive(Clone, Copy, Debug, PartialEq, Eq, Structural)]
pub enum ElfError {
    TooSmall,
    BadMagic,
    UnsupportedClass,
    UnsupportedEndian,
    UnsupportedVersion,
    UnsupportedType,
    UnsupportedMachine,
    InvalidHeader,
    TruncatedProgramHeaders,
    InvalidSegment,
    TruncatedSegment,
}

#[derive(Clone, Copy, Debug)]
pub struct LoadSegment<'a> {
    pub virtual_address: u64,
    pub memory_size: u64,
    pub file_data: &'a [u8],
    pub readable: bool,
    pub writable: bool,
    pub executable: bool,
    pub alignment: u64,
}

#[derive(Debug)]
pub struct ElfImage<'a> {
    entry: u64,
    segments: Vec<LoadSegment<'a>>,
}

/// The file starts with the ELF magic number.
pub open spec fn has_magic(d: Seq<u8>) -> bool {
    &&& d[0] == 0x7f
    &&& d[1] == 0x45
    &&& d[2] == 0x4c
    &&& d[3] == 0x46
}

/// Offset of the program header table.
pub open spec fn ph_offset(d: Seq<u8>) -> int {
    le64(d, 32)
}

/// Number of program headers.
pub open spec fn ph_count(d: Seq<u8>) -> int {
    le16(d, 56)
}

/// Offset of program header `i`.
pub open spec fn ph_base(d: Seq<u8>, i: int) -> int {
    ph_offset(d) + PROGRAM_HEADER_SIZE * i
}

/// The first problem with the file header, checked in order.
pub open spec fn header_error(d: Seq<u8>) -> Option<ElfError> {
    if d.len() < ELF_HEADER_SIZE {
        Some(ElfError::TooSmall)
    } else if !has_magic(d) {
        Some(ElfError::BadMagic)
    } else if d[4] != 2 {
        Some(ElfError::UnsupportedClass)
    } else if d[5] != 1 {
        Some(ElfError::UnsupportedEndian)
    } else if d[6] != 1 {
        Some(ElfError::UnsupportedVersion)
    } else if le16(d, 16) != 2 {
        Some(ElfError::UnsupportedType)
    } else if le16(d, 18) != 62 {
        Some(ElfError::UnsupportedMachine)
    } else if le32(d, 20) != 1 {
        Some(ElfError::UnsupportedVersion)
    } else if ph_offset(d) > usize::MAX {
        Some(ElfError::InvalidHeader)
    } else if le16(d, 52) < ELF_HEADER_SIZE || le16(d, 54) != PROGRAM_HEADER_SIZE {
        Some(ElfError::InvalidHeader)
    } else if ph_base(d, ph_count(d)) > d.len() {
        Some(ElfError::TruncatedProgramHeaders)
    } else {
        None
    }
}

/// The first problem with the loadable program header at `base`.
pub open spec fn segment_error(d: Seq<u8>, base: int) -> Option<ElfError> {
    let offset = le64(d, base + 8);
    let vaddr = le64(d, base + 16);
    let file_size = le64(d, base + 32);
    let memory_size = le64(d, base + 40);
    let alignment = le64(d, base + 48);
    if offset > usize::MAX || file_size > usize::MAX {
        Some(ElfError::InvalidSegment)
    } else if offset + file_size > d.len() {
        Some(ElfError::TruncatedSegment)
    } else if memory_size < file_size || (alignment != 0 && !is_pow2(alignment as nat)) || (alignment > 1
        && vaddr % alignment != offset % alignment) {
        Some(ElfError::InvalidSegment)
    } else {
        None
    }
}

/// The offsets of the loadable headers among the first `n` program headers,
/// or the first error met while walking them.
pub open spec fn load_headers(d: Seq<u8>, n: nat) -> Result<Seq<int>, ElfError>
    decreases n,
{
    if n == 0 {
        Ok(Seq::empty())
    } else {
        match load_headers(d, (n - 1) as nat) {
            Err(e) => Err(e),
            Ok(bases) => {
                let base = ph_base(d, n - 1);
                if le32(d, base) != PT_LOAD {
                    Ok(bases)
                } else {
                    match segment_error(d, base) {
                        Some(e) => Err(e),
                        None => Ok(bases.push(base)),
                    }
                }
            },
        }
    }
}

/// Once the walk over the program headers has failed, walking further
/// headers reports the same error.
proof fn lemma_load_headers_error(d: Seq<u8>, n: nat, m: nat)
    requires
        n <= m,
        load_headers(d, n) is Err,
    ensures
        load_headers(d, m) == load_headers(d, n),
    decreases m - n,
{
    if n < m {
        lemma_load_headers_error(d, n, (m - 1) as nat);
    }
}

/// What parsing `d` yields: the offsets of the loadable program headers, or
/// the first error.
pub open spec fn elf_result(d: Seq<u8>) -> Result<Seq<int>, ElfError> {
    match header_error(d) {
        Some(e) => Err(e),
        None => match load_headers(d, ph_count(d) as nat) {
            Err(e) => Err(e),
            Ok(bases) => if bases.len() == 0 {
                Err(ElfError::InvalidSegment)
            } else {
                Ok(bases)
            },
        },
    }
}

/// `seg` describes the loadable program header at `base` of `d`.
pub open spec fn segment_matches(seg: LoadSegment, d: Seq<u8>, base: int) -> bool {
    let flags = le32(d, base + 4) as u32;
    let offset = le64(d, base + 8);
    &&& seg.virtual_address == le64(d, base + 16)
    &&& seg.memory_size == le64(d, base + 40)
    &&& seg.alignment == le64(d, base + 48)
    &&& seg.file_data@ == d.subrange(offset, offset + le64(d, base + 32))
    &&& seg.readable == (flags & 4 != 0)
    &&& seg.writable == (flags & 2 != 0)
    &&& seg.executable == (flags & 1 != 0)
}

/// The little-endian u16 at `offset`, when it lies inside `data`.
fn read_u16(data: &[u8], offset: usize) -> (r: Result<u16, ElfError>)
    ensures
        match r {
            Ok(v) => offset + 2 <= data@.len() && v == le16(data@, offset as int),
            Err(e) => offset + 2 > data@.len() && e == ElfError::InvalidHeader,
        },
{
    if offset > data.len() || data.len() - offset < 2 {
        Err(ElfError::InvalidHeader)
    } else {
        Ok(get_u16(data, offset))
    }
}

/// The little-endian u32 at `offset`, when it lies inside `data`.
fn read_u32(data: &[u8], offset: usize) -> (r: Result<u32, ElfError>)
    ensures
        match r {
            Ok(v) => offset + 4 <= data@.len() && v == le32(data@, offset as int),
            Err(e) => offset + 4 > data@.len() && e == ElfError::InvalidHeader,
        },
{
    if offset > data.len() || data.len() - offset < 4 {
        Err(ElfError::InvalidHeader)
    } else {
        Ok(get_u32(data, offset))
    }
}

/// The little-endian u64 at `offset`, when it lies inside `data`.
fn read_u64(data: &[u8], offset: usize) -> (r: Result<u64, ElfError>)
    ensures
        match r {
            Ok(v) => offset + 8 <= data@.len() && v == le64(data@, offset as int),
            Err(e) => offset + 8 > data@.len() && e == ElfError::InvalidHeader,
        },
{
    if offset > data.len() || data.len() - offset < 8 {
        Err(ElfError::InvalidHeader)
    } else {
        Ok(get_u64(data, offset))
    }
}

impl<'a> ElfImage<'a> {
    /// The entry point address.
    pub closed spec fn entry_spec(&self) -> u64 {
        self.entry
    }

    /// The loadable segments, in program header order.
    pub closed spec fn segments_spec(&self) -> Seq<LoadSegment<'a>> {
        self.segments@
    }

    /// Parses an x86-64 executable, keeping its loadable segments as views
    /// into `data`.
    pub fn parse(data: &'a [u8]) -> (r: Result<Self, ElfError>)
        ensures
            match r {
                Ok(image) => match elf_result(data@) {
                    Ok(bases) => {
                        &&& image.entry_spec() == le64(data@, 24)
                        &&& image.segments_spec().len() == bases.len()
                        &&& forall|k: int|
                            0 <= k < bases.len() ==> segment_matches(
                                #[trigger] image.segments_spec()[k],
                                data@,
                                bases[k],
                            )
                    },
                    Err(_) => false,
                },
                Err(e) => elf_result(data@) == Err::<Seq<int>, ElfError>(e),
            },
    {
        if data.len() < ELF_HEADER_SIZE {
            return Err(ElfError::TooSmall);
        }
        if !(data[0] == 0x7f && data[1] == 0x45 && data[2] == 0x4c && data[3] == 0x46) {
            return Err(ElfError::BadMagic);
        }
        if data[4] != 2 {
            return Err(ElfError::UnsupportedClass);
        }
        if data[5] != 1 {
            return Err(ElfError::UnsupportedEndian);
        }
        if data[6] != 1 {
            return Err(ElfError::UnsupportedVersion);
        }
        if read_u16(data, 16)? != 2 {
            return Err(ElfError::UnsupportedType);
        }
        if read_u16(data, 18)? != 62 {
            return Err(ElfError::UnsupportedMachine);
        }
        if read_u32(data, 20)? != 1 {
            return Err(ElfError::UnsupportedVersion);
        }
        let entry = read_u64(data, 24)?;
        let raw_phoff = read_u64(data, 32)?;
        if raw_phoff > usize::MAX as u64 {
            return Err(ElfError::InvalidHeader);
        }
        let phoff = raw_phoff as usize;
        let ehsize = read_u16(data, 52)? as usize;
        let phentsize = read_u16(data, 54)? as usize;
        let phnum = read_u16(data, 56)? as usize;
        if ehsize < ELF_HEADER_SIZE || phentsize != PROGRAM_HEADER_SIZE {
            return Err(ElfError::InvalidHeader);
        }
        let table_size = phentsize * phnum;
        if phoff > data.len() || data.len() - phoff < table_size {
            return Err(ElfError::TruncatedProgramHeaders);
        }
        assert(header_error(data@) is None);
        let ghost d = data@;
        let len = data.len();
        let mut segments: Vec<LoadSegment<'a>> = Vec::new();
        let mut index: usize = 0;
        while index < phnum
            invariant
                d == data@,
                len == d.len(),
                header_error(d) is None,
                phoff == ph_offset(d),
                phnum == ph_count(d),
                phoff + PROGRAM_HEADER_SIZE * phnum <= d.len(),
                index <= phnum,
                load_headers(d, index as nat) is Ok,
                segments@.len() == load_headers(d, index as nat)->Ok_0.len(),
                forall|k: int|
                    0 <= k < segments@.len() ==> segment_matches(
                        #[trigger] segments@[k],
                        d,
                        load_headers(d, index as nat)->Ok_0[k],
                    ),
            decreases phnum - index,
        {
            assert(index * PROGRAM_HEADER_SIZE + PROGRAM_HEADER_SIZE <= PROGRAM_HEADER_SIZE * phnum
                && index * PROGRAM_HEADER_SIZE == PROGRAM_HEADER_SIZE * index) by (nonlinear_arith)
                requires
                    index < phnum,
            ;
            let base = phoff + index * PROGRAM_HEADER_SIZE;
            assert(base == ph_base(d, index as int));
            let ghost previous = load_headers(d, index as nat)->Ok_0;
            let kind = read_u32(data, base)?;
            if kind != PT_LOAD {
                index = index + 1;
                continue;
            }
            let flags = read_u32(data, base + 4)?;
            let raw_offset = read_u64(data, base + 8)?;
            let virtual_address = read_u64(data, base + 16)?;
            let raw_file_size = read_u64(data, base + 32)?;
            let memory_size = read_u64(data, base + 40)?;
            let alignment = read_u64(data, base + 48)?;
            if raw_offset > usize::MAX as u64 || raw_file_size > usize::MAX as u64 {
                proof {
                    lemma_load_headers_error(d, (index + 1) as nat, phnum as nat);
                }
                return Err(ElfError::InvalidSegment);
            }
            let offset = raw_offset as usize;
            let file_size = raw_file_size as usize;
            if offset > data.len() || data.len() - offset < file_size {
                proof {
                    lemma_load_headers_error(d, (index + 1) as nat, phnum as nat);
                }
                return Err(ElfError::TruncatedSegment);
            }
            if memory_size < raw_file_size || (alignment != 0 && !is_power_of_two(alignment)) || (
            alignment > 1 && virtual_address % alignment != raw_offset % alignment) {
                proof {
                    lemma_load_headers_error(d, (index + 1) as nat, phnum as nat);
                }
                return Err(ElfError::InvalidSegment);
            }
            let end = offset + file_size;
            let segment = LoadSegment {
                virtual_address,
                memory_size,
                file_data: &data[offset..end],
                readable: flags & 4 != 0,
                writable: flags & 2 != 0,
                executable: flags & 1 != 0,
                alignment,
            };
            segments.push(segment);
            index = index + 1;
            assert(load_headers(d, index as nat)->Ok_0 == previous.push(base as int));
        }
        if segments.len() == 0 {
            return Err(ElfError::InvalidSegment);
        }
        Ok(ElfImage { entry, segments })
    }

    /// The entry point address.
    pub fn entry(&self) -> (r: u64)
        ensures
            r == self.entry_spec(),
    {
        self.entry
    }

    /// The loadable segments, in program header order.
    pub fn segments(&self) -> (r: &[LoadSegment<'a>])
        ensures
            r@ == self.segments_spec(),
    {
        self.segments.as_slice()
    }
}

/// Every loadable header found among the first `n` lies inside the
/// program header table's first `n` entries.
proof fn lemma_loads_inside(d: Seq<u8>, n: nat)
    ensures
        load_headers(d, n) matches Ok(bases) ==> forall|j: int|
            0 <= j < bases.len() ==> ph_offset(d) <= #[trigger] bases[j] && bases[j] + PROGRAM_HEADER_SIZE
                <= ph_base(d, n as int),
    decreases n,
{
    if n > 0 {
        lemma_loads_inside(d, (n - 1) as nat);
    }
}

/// The low three bits of a little-endian 32-bit value are those of its
/// first byte.
proof fn lemma_low_bits(d: Seq<u8>, o: int)
    requires
        0 <= o,
        o + 4 <= d.len(),
    ensures
        (le32(d, o) as u32) & 7 == (d[o] & 7) as u32,
{
    let v = le32(d, o);
    let b = d[o];
    assert(0 <= v < 0x1_0000_0000);
    assert(v == b as int + 256 * (d[o + 1] as int + 256 * (d[o + 2] as int + 256 * d[o + 3] as int)));
    assert(v % 8 == b as int % 8);
    let w = v as u32;
    assert(w as int == v);
    assert(w & 7 == w % 8) by (bit_vector);
    assert(b & 7 == b % 8) by (bit_vector);
}

/// Access rights of a loaded segment come from the first byte of its
/// program header's `p_flags` (offset 4 of the header): readable exactly
/// when PF_R (value 4) is set, writable exactly when PF_W (value 2) is set,
/// executable exactly when PF_X (value 1) is set, each independent of the
/// other two.
pub proof fn law_segment_rights(image: ElfImage, data: Seq<u8>, bases: Seq<int>, k: int)
    requires
        elf_result(data) == Ok::<Seq<int>, ElfError>(bases),
        image.segments_spec().len() == bases.len(),
        forall|j: int| 0 <= j < bases.len() ==> segment_matches(#[trigger] image.segments_spec()[j], data, bases[j]),
        0 <= k < bases.len(),
    ensures
        image.segments_spec()[k].readable == (data[bases[k] + 4] & 4 != 0),
        image.segments_spec()[k].writable == (data[bases[k] + 4] & 2 != 0),
        image.segments_spec()[k].executable == (data[bases[k] + 4] & 1 != 0),
{
    lemma_loads_inside(data, ph_count(data) as nat);
    let o = bases[k] + 4;
    assert(segment_matches(image.segments_spec()[k], data, bases[k]));
    lemma_low_bits(data, o);
    let f = le32(data, o) as u32;
    let b = data[o];
    assert((f & 7 == (b & 7) as u32) ==> ((f & 4 != 0) == (b & 4 != 0) && (f & 2 != 0) == (b & 2 != 0) && (f & 1
        != 0) == (b & 1 != 0))) by (bit_vector);
}

} // verus!
