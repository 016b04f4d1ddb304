//! ACPI: finding the interrupt controllers. The firmware tables are read
//! by the caller; `ApicDiscovery` says which bytes to read next and decides
//! on each table it is handed.

use vstd::prelude::*;
use crate::bytes::{get_u16, get_u32, get_u64, le16, le32, le64};

verus! {

pub const SDT_HEADER_SIZE: usize = 36;
pub const MADT_HEADER_SIZE: usize = 44;
pub const MAX_TABLE_SIZE: usize = 1048576;
pub const MAX_IO_APICS: usize = 4;
/// The legacy interrupt lines an override can name.
pub const MAX_OVERRIDES: usize = 16;

#[derive(Clone, Copy, Debug, PartialEq, Eq, Structural)]
pub struct IoApicInfo {
    pub address: u32,
    pub gsi_base: u32,
}

#[derive(Clone, Copy, Debug, PartialEq, Eq, Structural)]
pub struct InterruptOverride {
    pub source_irq: u8,
    pub gsi: u32,
    pub flags: u16,
}

#[derive(Clone, Copy, Debug)]
pub struct ApicInfo {
    pub local_apic_address: u64,
    pub io_apics: [IoApicInfo; 4],
    pub io_apic_count: usize,
    pub overrides: [Option<InterruptOverride>; 16],
}

/// What the tables say: the local APIC address, the I/O APICs in table
/// order (the first four) and the override for each legacy line.
pub struct ApicView {
    pub local: u64,
    pub io_apics: Seq<IoApicInfo>,
    pub overrides: Seq<Option<InterruptOverride>>,
}

impl ApicInfo {
    pub open spec fn view(&self) -> ApicView {
        ApicView {
            local: self.local_apic_address,
            io_apics: self.io_apics@.take(self.io_apic_count as int),
            overrides: self.overrides@,
        }
    }
}

#[derive(Clone, Copy, Debug, PartialEq, Eq, Structural)]
pub enum AcpiError {
    InvalidRsdpSignature,
    InvalidRsdpChecksum,
    InvalidRsdpLength,
    InvalidExtendedChecksum,
    RootAddressZero,
    MalformedRoot,
    MadtNotFound,
    MadtTruncated,
    TruncatedMadtEntry,
    InvalidMadtEntryLength,
    NoLocalApic,
    NoIoApic,
    InvalidSdtLength,
    InvalidSdtChecksum,
    AddressOverflow,
    ZeroLength,
}

/// The text that describes `e`.
pub open spec fn acpi_text(e: AcpiError) -> Seq<char> {
    match e {
        AcpiError::InvalidRsdpSignature => "invalid ACPI RSDP signature"@,
        AcpiError::InvalidRsdpChecksum => "invalid ACPI RSDP checksum"@,
        AcpiError::InvalidRsdpLength => "invalid ACPI RSDP length"@,
        AcpiError::InvalidExtendedChecksum => "invalid ACPI extended RSDP checksum"@,
        AcpiError::RootAddressZero => "ACPI root table address is zero"@,
        AcpiError::MalformedRoot => "malformed ACPI root table"@,
        AcpiError::MadtNotFound => "ACPI MADT not found"@,
        AcpiError::MadtTruncated => "ACPI MADT is truncated"@,
        AcpiError::TruncatedMadtEntry => "truncated ACPI MADT entry"@,
        AcpiError::InvalidMadtEntryLength => "invalid ACPI MADT entry length"@,
        AcpiError::NoLocalApic => "ACPI MADT has no local APIC address"@,
        AcpiError::NoIoApic => "ACPI MADT has no IOAPIC"@,
        AcpiError::InvalidSdtLength => "invalid ACPI SDT length"@,
        AcpiError::InvalidSdtChecksum => "invalid ACPI SDT checksum"@,
        AcpiError::AddressOverflow => "ACPI physical address overflow"@,
        AcpiError::ZeroLength => "zero-length ACPI mapping"@,
    }
}

impl AcpiError {
    /// A one-line description of the error.
    pub fn message(&self) -> (r: &'static str)
        ensures
            r@ == acpi_text(*self),
    {
        match self {
            AcpiError::InvalidRsdpSignature => "invalid ACPI RSDP signature",
            AcpiError::InvalidRsdpChecksum => "invalid ACPI RSDP checksum",
            AcpiError::InvalidRsdpLength => "invalid ACPI RSDP length",
            AcpiError::InvalidExtendedChecksum => "invalid ACPI extended RSDP checksum",
            AcpiError::RootAddressZero => "ACPI root table address is zero",
            AcpiError::MalformedRoot => "malformed ACPI root table",
            AcpiError::MadtNotFound => "ACPI MADT not found",
            AcpiError::MadtTruncated => "ACPI MADT is truncated",
            AcpiError::TruncatedMadtEntry => "truncated ACPI MADT entry",
            AcpiError::InvalidMadtEntryLength => "invalid ACPI MADT entry length",
            AcpiError::NoLocalApic => "ACPI MADT has no local APIC address",
            AcpiError::NoIoApic => "ACPI MADT has no IOAPIC",
            AcpiError::InvalidSdtLength => "invalid ACPI SDT length",
            AcpiError::InvalidSdtChecksum => "invalid ACPI SDT checksum",
            AcpiError::AddressOverflow => "ACPI physical address overflow",
            AcpiError::ZeroLength => "zero-length ACPI mapping",
        }
    }
}

/// The sum of the bytes of `s`.
pub open spec fn byte_sum(s: Seq<u8>) -> int
    decreases s.len(),
{
    if s.len() == 0 {
        0
    } else {
        byte_sum(s.drop_last()) + s.last() as int
    }
}

/// The ACPI checksum of `s`: its bytes summed modulo 256.
pub fn checksum(bytes: &[u8]) -> (r: u8)
    ensures
        r == byte_sum(bytes@) % 256,
{
    let mut sum: u8 = 0;
    let mut i: usize = 0;
    while i < bytes.len()
        invariant
            i <= bytes@.len(),
            sum == byte_sum(bytes@.take(i as int)) % 256,
        decreases bytes@.len() - i,
    {
        proof {
            assert(bytes@.take(i + 1).drop_last() =~= bytes@.take(i as int));
            vstd::arithmetic::div_mod::lemma_add_mod_noop(byte_sum(bytes@.take(i as int)), bytes@[i as int] as int, 256);
            vstd::arithmetic::div_mod::lemma_mod_bound(byte_sum(bytes@.take(i as int)) + bytes@[i as int] as int, 256);
            vstd::arithmetic::div_mod::lemma_mod_twice(bytes@[i as int] as int, 256);
            vstd::arithmetic::div_mod::lemma_small_mod(bytes@[i as int] as nat, 256);
        }
        sum = sum.wrapping_add(bytes[i]);
        proof {
            assert(sum as int == (byte_sum(bytes@.take(i as int)) % 256 + bytes@[i as int] as int) % 256) by {
                let a = byte_sum(bytes@.take(i as int)) % 256;
                let b = bytes@[i as int] as int;
                if a + b >= 256 {
                    vstd::arithmetic::div_mod::lemma_mod_sub_multiples_vanish(a + b, 256);
                    vstd::arithmetic::div_mod::lemma_small_mod((a + b - 256) as nat, 256);
                } else {
                    vstd::arithmetic::div_mod::lemma_small_mod((a + b) as nat, 256);
                }
            }
        }
        i += 1;
    }
    proof {
        assert(bytes@.take(bytes@.len() as int) =~= bytes@);
    }
    sum
}

/// `s` starts with the four bytes of `tag`.
pub open spec fn starts_with(s: Seq<u8>, tag: Seq<u8>) -> bool {
    s.len() >= tag.len() && s.subrange(0, tag.len() as int) == tag
}

/// "RSD PTR ".
pub open spec fn rsdp_signature() -> Seq<u8> {
    seq![0x52u8, 0x53, 0x44, 0x20, 0x50, 0x54, 0x52, 0x20]
}

/// "APIC".
pub open spec fn madt_signature() -> Seq<u8> {
    seq![0x41u8, 0x50, 0x49, 0x43]
}

fn has_prefix(bytes: &[u8], tag: &[u8]) -> (r: bool)
    ensures
        r == starts_with(bytes@, tag@),
{
    if bytes.len() < tag.len() {
        return false;
    }
    let mut i: usize = 0;
    while i < tag.len()
        invariant
            i <= tag@.len() <= bytes@.len(),
            forall|j: int| 0 <= j < i ==> bytes@[j] == tag@[j],
        decreases tag@.len() - i,
    {
        if bytes[i] != tag[i] {
            proof {
                assert(bytes@.subrange(0, tag@.len() as int)[i as int] != tag@[i as int]);
            }
            return false;
        }
        i += 1;
    }
    proof {
        assert(bytes@.subrange(0, tag@.len() as int) =~= tag@);
    }
    true
}

/// The first 20 bytes of the root pointer, checked: its revision and the
/// 32-bit root table address.
pub open spec fn rsdp_result(s: Seq<u8>) -> Result<(u8, u64), AcpiError> {
    if !starts_with(s, rsdp_signature()) {
        Err(AcpiError::InvalidRsdpSignature)
    } else if byte_sum(s) % 256 != 0 {
        Err(AcpiError::InvalidRsdpChecksum)
    } else {
        Ok((s[15], le32(s, 16) as u64))
    }
}

/// Checks the first 20 bytes of the root pointer.
pub fn check_rsdp(v1: &[u8]) -> (r: Result<(u8, u64), AcpiError>)
    requires
        v1@.len() == 20,
    ensures
        r == rsdp_result(v1@),
{
    let signature: [u8; 8] = [0x52, 0x53, 0x44, 0x20, 0x50, 0x54, 0x52, 0x20];
    proof {
        assert(signature@ =~= rsdp_signature());
    }
    if !has_prefix(v1, &signature) {
        return Err(AcpiError::InvalidRsdpSignature);
    }
    if checksum(v1) != 0 {
        return Err(AcpiError::InvalidRsdpChecksum);
    }
    Ok((v1[15], get_u32(v1, 16) as u64))
}

/// The length the extended root pointer gives itself, when it is between 36
/// and 4096 bytes.
pub open spec fn rsdp_length_result(s: Seq<u8>) -> Result<usize, AcpiError> {
    let length = le32(s, 20);
    if 36 <= length <= 4096 {
        Ok(length as usize)
    } else {
        Err(AcpiError::InvalidRsdpLength)
    }
}

pub fn rsdp_length(prefix: &[u8]) -> (r: Result<usize, AcpiError>)
    requires
        prefix@.len() == 36,
    ensures
        r == rsdp_length_result(prefix@),
{
    let length = get_u32(prefix, 20);
    if 36 <= length && length <= 4096 {
        Ok(length as usize)
    } else {
        Err(AcpiError::InvalidRsdpLength)
    }
}

/// The root table of an extended root pointer: the 64-bit one where it is
/// set, else the 32-bit one, with the size of its entries.
pub open spec fn extended_root_result(s: Seq<u8>, rsdt: u64) -> Result<(u64, usize), AcpiError> {
    if byte_sum(s) % 256 != 0 {
        Err(AcpiError::InvalidExtendedChecksum)
    } else if le64(s, 24) != 0 {
        Ok((le64(s, 24) as u64, 8))
    } else {
        Ok((rsdt, 4))
    }
}

pub fn extended_root(full: &[u8], rsdt: u64) -> (r: Result<(u64, usize), AcpiError>)
    requires
        full@.len() >= 36,
    ensures
        r == extended_root_result(full@, rsdt),
{
    if checksum(full) != 0 {
        return Err(AcpiError::InvalidExtendedChecksum);
    }
    let xsdt = get_u64(full, 24);
    if xsdt != 0 {
        Ok((xsdt, 8))
    } else {
        Ok((rsdt, 4))
    }
}

/// The length a table header gives its table, when it holds at least the
/// header and at most 1 MiB.
pub open spec fn sdt_length_result(s: Seq<u8>) -> Result<usize, AcpiError> {
    let length = le32(s, 4);
    if SDT_HEADER_SIZE <= length <= MAX_TABLE_SIZE {
        Ok(length as usize)
    } else {
        Err(AcpiError::InvalidSdtLength)
    }
}

pub fn sdt_length(header: &[u8]) -> (r: Result<usize, AcpiError>)
    requires
        header@.len() == SDT_HEADER_SIZE,
    ensures
        r == sdt_length_result(header@),
{
    let length = get_u32(header, 4) as usize;
    if SDT_HEADER_SIZE <= length && length <= MAX_TABLE_SIZE {
        Ok(length)
    } else {
        Err(AcpiError::InvalidSdtLength)
    }
}

/// The table addresses a root table lists, `entry_size` bytes each.
pub open spec fn root_entries_result(s: Seq<u8>, entry_size: int) -> Result<Seq<u64>, AcpiError> {
    let payload = s.len() - SDT_HEADER_SIZE;
    if payload % entry_size != 0 {
        Err(AcpiError::MalformedRoot)
    } else {
        Ok(
            Seq::new(
                (payload / entry_size) as nat,
                |k: int|
                    if entry_size == 8 {
                        le64(s, SDT_HEADER_SIZE + k * 8) as u64
                    } else {
                        le32(s, SDT_HEADER_SIZE + k * 4) as u64
                    },
            ),
        )
    }
}

pub fn root_entries(table: &[u8], entry_size: usize) -> (r: Result<Vec<u64>, AcpiError>)
    requires
        table@.len() >= SDT_HEADER_SIZE,
        entry_size == 4 || entry_size == 8,
    ensures
        match root_entries_result(table@, entry_size as int) {
            Ok(s) => r matches Ok(v) && v@ == s,
            Err(e) => r == Err::<Vec<u64>, AcpiError>(e),
        },
{
    let len = table.len();
    let payload = len - SDT_HEADER_SIZE;
    if payload % entry_size != 0 {
        return Err(AcpiError::MalformedRoot);
    }
    let count = payload / entry_size;
    let ghost want = root_entries_result(table@, entry_size as int)->Ok_0;
    proof {
        vstd::arithmetic::div_mod::lemma_fundamental_div_mod(payload as int, entry_size as int);
        vstd::arithmetic::mul::lemma_mul_is_commutative(entry_size as int, count as int);
        assert(entry_size == 8 ==> count * 8 == payload);
        assert(entry_size == 4 ==> count * 4 == payload);
    }
    let mut out: Vec<u64> = Vec::new();
    let mut k: usize = 0;
    while k < count
        invariant
            k <= count,
            entry_size == 8 ==> count * 8 == payload,
            entry_size == 4 ==> count * 4 == payload,
            len == table@.len(),
            payload == table@.len() - SDT_HEADER_SIZE,
            payload % entry_size == 0,
            entry_size == 4 || entry_size == 8,
            want == root_entries_result(table@, entry_size as int)->Ok_0,
            want.len() == count,
            out@.len() == k,
            forall|j: int| 0 <= j < k ==> out@[j] == want[j],
        decreases count - k,
    {
        let address = if entry_size == 8 {
            get_u64(table, SDT_HEADER_SIZE + k * 8)
        } else {
            get_u32(table, SDT_HEADER_SIZE + k * 4) as u64
        };
        proof {
            assert(root_entries_result(table@, entry_size as int) is Ok);
            assert(want[k as int] == address);
        }
        out.push(address);
        k += 1;
    }
    proof {
        assert(out@ =~= want);
    }
    Ok(out)
}

/// The state the table's entries leave: the local APIC address, the I/O
/// APICs found (at most four) and the overrides by legacy line.
pub struct MadtScan {
    pub local: u64,
    pub io_apics: Seq<IoApicInfo>,
    pub overrides: Seq<Option<InterruptOverride>>,
}

/// The entries of the interrupt controller table from offset `o` on. An
/// entry is a type byte, a length byte and a body: type 1 names an I/O APIC
/// (kept while fewer than four are known), type 2 overrides a legacy line of
/// bus 0, type 5 gives a 64-bit local APIC address; other types, and entries
/// too short for their type, are passed over.
pub open spec fn madt_scan(t: Seq<u8>, o: int, acc: MadtScan) -> Result<MadtScan, AcpiError>
    decreases t.len() - o,
{
    if o < 0 || o >= t.len() {
        Ok(acc)
    } else if o + 2 > t.len() {
        Err(AcpiError::TruncatedMadtEntry)
    } else {
        let kind = t[o];
        let length = t[o + 1] as int;
        if length < 2 || o + length > t.len() {
            Err(AcpiError::InvalidMadtEntryLength)
        } else {
            let next = if kind == 1 && length >= 12 {
                if acc.io_apics.len() < MAX_IO_APICS {
                    MadtScan {
                        io_apics: acc.io_apics.push(
                            IoApicInfo { address: le32(t, o + 4) as u32, gsi_base: le32(t, o + 8) as u32 },
                        ),
                        ..acc
                    }
                } else {
                    acc
                }
            } else if kind == 2 && length >= 10 {
                if t[o + 2] == 0 && (t[o + 3] as int) < MAX_OVERRIDES {
                    MadtScan {
                        overrides: acc.overrides.update(
                            t[o + 3] as int,
                            Some(InterruptOverride { source_irq: t[o + 3], gsi: le32(t, o + 4) as u32, flags: le16(t, o + 8) as u16 }),
                        ),
                        ..acc
                    }
                } else {
                    acc
                }
            } else if kind == 5 && length >= 12 {
                MadtScan { local: le64(t, o + 4) as u64, ..acc }
            } else {
                acc
            };
            madt_scan(t, o + length, next)
        }
    }
}

/// Before the entries: the 32-bit local APIC address of the header, no
/// I/O APIC and no override.
pub open spec fn madt_start(t: Seq<u8>) -> MadtScan {
    MadtScan {
        local: le32(t, 36) as u64,
        io_apics: Seq::empty(),
        overrides: Seq::new(16, |i: int| None),
    }
}

/// What the interrupt controller table `t` describes, or why it is refused.
pub open spec fn madt_result(t: Seq<u8>) -> Result<MadtScan, AcpiError> {
    if t.len() < MADT_HEADER_SIZE {
        Err(AcpiError::MadtTruncated)
    } else {
        match madt_scan(t, MADT_HEADER_SIZE as int, madt_start(t)) {
            Err(e) => Err(e),
            Ok(m) => if m.local == 0 {
                Err(AcpiError::NoLocalApic)
            } else if m.io_apics.len() == 0 {
                Err(AcpiError::NoIoApic)
            } else {
                Ok(m)
            },
        }
    }
}

/// `info` holds what `m` says.
pub open spec fn describes(info: ApicInfo, m: MadtScan) -> bool {
    &&& info.io_apic_count <= MAX_IO_APICS
    &&& info.view().local == m.local
    &&& info.view().io_apics == m.io_apics
    &&& info.view().overrides == m.overrides
}

/// Reads the interrupt controller table.
pub fn parse_madt(table: &[u8]) -> (r: Result<ApicInfo, AcpiError>)
    ensures
        match madt_result(table@) {
            Ok(m) => r matches Ok(info) && describes(info, m),
            Err(e) => r matches Err(f) && f == e,
        },
{
    if table.len() < MADT_HEADER_SIZE {
        return Err(AcpiError::MadtTruncated);
    }
    let mut result = ApicInfo {
        local_apic_address: get_u32(table, 36) as u64,
        io_apics: [IoApicInfo { address: 0, gsi_base: 0 }; 4],
        io_apic_count: 0,
        overrides: [None; 16],
    };
    let ghost t = table@;
    let ghost start = madt_start(t);
    proof {
        assert(result.view().io_apics =~= start.io_apics);
        assert(result.view().overrides =~= start.overrides);
    }
    let mut offset = MADT_HEADER_SIZE;
    while offset < table.len()
        invariant
            t == table@,
            start == madt_start(t),
            MADT_HEADER_SIZE <= offset,
            result.io_apic_count <= MAX_IO_APICS,
            result.io_apics@.len() == 4,
            result.overrides@.len() == 16,
            madt_scan(t, MADT_HEADER_SIZE as int, start) == madt_scan(
                t,
                offset as int,
                MadtScan {
                    local: result.local_apic_address,
                    io_apics: result.io_apics@.take(result.io_apic_count as int),
                    overrides: result.overrides@,
                },
            ),
        decreases table@.len() - offset,
    {
        let ghost acc = MadtScan {
            local: result.local_apic_address,
            io_apics: result.io_apics@.take(result.io_apic_count as int),
            overrides: result.overrides@,
        };
        if table.len() - offset < 2 {
            proof {
                assert(madt_scan(t, offset as int, acc) == Err::<MadtScan, AcpiError>(AcpiError::TruncatedMadtEntry));
                assert(madt_result(t) == Err::<MadtScan, AcpiError>(AcpiError::TruncatedMadtEntry));
            }
            return Err(AcpiError::TruncatedMadtEntry);
        }
        let entry_type = table[offset];
        let length = table[offset + 1] as usize;
        if length < 2 || length > table.len() - offset {
            return Err(AcpiError::InvalidMadtEntryLength);
        }
        if entry_type == 1 && length >= 12 {
            if result.io_apic_count < MAX_IO_APICS {
                let info = IoApicInfo {
                    address: get_u32(table, offset + 4),
                    gsi_base: get_u32(table, offset + 8),
                };
                let count = result.io_apic_count;
                result.io_apics[count] = info;
                result.io_apic_count = count + 1;
                proof {
                    assert(result.io_apics@.take(result.io_apic_count as int) =~= acc.io_apics.push(info));
                }
            }
        } else if entry_type == 2 && length >= 10 {
            let bus = table[offset + 2];
            let source_irq = table[offset + 3];
            if bus == 0 && (source_irq as usize) < MAX_OVERRIDES {
                let entry = InterruptOverride {
                    source_irq,
                    gsi: get_u32(table, offset + 4),
                    flags: get_u16(table, offset + 8),
                };
                result.overrides[source_irq as usize] = Some(entry);
            }
        } else if entry_type == 5 && length >= 12 {
            result.local_apic_address = get_u64(table, offset + 4);
        }
        offset = offset + length;
    }
    proof {
        assert(madt_scan(t, offset as int, MadtScan {
            local: result.local_apic_address,
            io_apics: result.io_apics@.take(result.io_apic_count as int),
            overrides: result.overrides@,
        }) == Ok::<MadtScan, AcpiError>(MadtScan {
            local: result.local_apic_address,
            io_apics: result.io_apics@.take(result.io_apic_count as int),
            overrides: result.overrides@,
        }));
    }
    if result.local_apic_address == 0 {
        return Err(AcpiError::NoLocalApic);
    }
    if result.io_apic_count == 0 {
        return Err(AcpiError::NoIoApic);
    }
    Ok(result)
}

/// The address at which the caller finds `length` bytes of physical memory
/// at `physical`, through a direct map at `physical_offset`.
pub fn direct_map_address(physical_offset: u64, physical: u64, length: usize) -> (r: Result<u64, AcpiError>)
    ensures
        physical_offset + physical > u64::MAX ==> r == Err::<u64, AcpiError>(AcpiError::AddressOverflow),
        physical_offset + physical <= u64::MAX && length == 0 ==> r == Err::<u64, AcpiError>(AcpiError::ZeroLength),
        physical_offset + physical <= u64::MAX && length > 0 ==> r == Ok::<u64, AcpiError>((physical_offset + physical) as u64),
{
    let address = match physical_offset.checked_add(physical) {
        Some(address) => address,
        None => return Err(AcpiError::AddressOverflow),
    };
    if length == 0 {
        return Err(AcpiError::ZeroLength);
    }
    Ok(address)
}

/// A read for the caller to make: `length` bytes of physical memory at
/// `physical`.
#[derive(Clone, Copy, Debug, PartialEq, Eq, Structural)]
pub struct TableRead {
    pub physical: u64,
    pub length: usize,
}

/// What discovery asks for next: a read, or its answer.
pub enum AcpiStep {
    Read(TableRead),
    Done(Result<ApicInfo, AcpiError>),
}

/// Where discovery stands: which bytes it waits for.
pub enum Phase {
    /// The first 20 bytes of the root pointer.
    RsdpV1,
    /// The first 36 bytes of an extended root pointer.
    RsdpPrefix { rsdt: u64 },
    /// The whole extended root pointer.
    RsdpFull { rsdt: u64 },
    /// The header of the root table.
    RootHeader { root: u64, entry_size: usize },
    /// The whole root table.
    Root { root: u64, entry_size: usize },
    /// The header of the table at `entries[next]`.
    EntryHeader { entries: Vec<u64>, next: usize },
    /// The whole table at `entries[next]`.
    Entry { entries: Vec<u64>, next: usize },
    Finished,
}

/// The first table address of `s`, from index `from` on, that is not zero.
pub open spec fn first_listed(s: Seq<u64>, from: int) -> Option<int>
    decreases s.len() - from,
{
    if from < 0 || from >= s.len() {
        None
    } else if s[from] != 0 {
        Some(from)
    } else {
        first_listed(s, from + 1)
    }
}

/// The search of the root table's list from index `from` on: the header of
/// the next table listed, or no interrupt controller table at all.
pub open spec fn search_step(s: Seq<u64>, from: int, r: AcpiStep) -> bool {
    match first_listed(s, from) {
        None => r == AcpiStep::Done(Err(AcpiError::MadtNotFound)),
        Some(i) => r == AcpiStep::Read(TableRead { physical: s[i], length: SDT_HEADER_SIZE }),
    }
}

/// The root table at `root`: its header, unless the address is zero.
pub open spec fn root_step(root: u64, r: AcpiStep) -> bool {
    if root == 0 {
        r == AcpiStep::Done(Err(AcpiError::RootAddressZero))
    } else {
        r == AcpiStep::Read(TableRead { physical: root, length: SDT_HEADER_SIZE })
    }
}

/// A read or a refusal that follows from `res`.
pub open spec fn read_or_fail(res: Result<usize, AcpiError>, physical: u64, r: AcpiStep) -> bool {
    match res {
        Err(e) => r == AcpiStep::Done(Err(e)),
        Ok(n) => r == AcpiStep::Read(TableRead { physical, length: n }),
    }
}

/// Discovery of the interrupt controllers from the root pointer at `rsdp`.
pub struct ApicDiscovery {
    rsdp: u64,
    phase: Phase,
    pending: Option<TableRead>,
}

impl ApicDiscovery {
    /// The read discovery waits for.
    pub closed spec fn pending(&self) -> Option<TableRead> {
        self.pending
    }

    pub closed spec fn phase(&self) -> Phase {
        self.phase
    }

    pub closed spec fn rsdp(&self) -> u64 {
        self.rsdp
    }

    pub closed spec fn wf(&self) -> bool {
        &&& match self.phase {
            Phase::RsdpV1 => self.pending == Some(TableRead { physical: self.rsdp, length: 20 }),
            Phase::RsdpPrefix { .. } => self.pending == Some(TableRead { physical: self.rsdp, length: 36 }),
            Phase::RsdpFull { .. } => self.pending matches Some(p) && p.physical == self.rsdp && 36 <= p.length,
            Phase::RootHeader { root, entry_size } => (entry_size == 4 || entry_size == 8) && self.pending
                == Some(TableRead { physical: root, length: SDT_HEADER_SIZE }),
            Phase::Root { root, entry_size } => (entry_size == 4 || entry_size == 8) && (self.pending matches Some(p)
                && p.physical == root && SDT_HEADER_SIZE <= p.length),
            Phase::EntryHeader { entries, next } => next < entries@.len() && self.pending == Some(
                TableRead { physical: entries@[next as int], length: SDT_HEADER_SIZE },
            ),
            Phase::Entry { entries, next } => next < entries@.len() && (self.pending matches Some(p)
                && p.physical == entries@[next as int] && SDT_HEADER_SIZE <= p.length),
            Phase::Finished => self.pending is None,
        }
    }

    /// Starts from the root pointer at `rsdp`: its first 20 bytes are read
    /// first.
    pub fn start(rsdp: u64) -> (r: (ApicDiscovery, AcpiStep))
        ensures
            r.0.wf(),
            r.0.rsdp() == rsdp,
            r.0.phase() is RsdpV1,
            r.1 == AcpiStep::Read(TableRead { physical: rsdp, length: 20 }),
            r.0.pending() == Some(TableRead { physical: rsdp, length: 20 }),
    {
        let read = TableRead { physical: rsdp, length: 20 };
        (ApicDiscovery { rsdp, phase: Phase::RsdpV1, pending: Some(read) }, AcpiStep::Read(read))
    }

    fn ask(rsdp: u64, phase: Phase, read: TableRead) -> (r: (ApicDiscovery, AcpiStep))
        ensures
            r.0.rsdp() == rsdp,
            r.0.phase() == phase,
            r.0.pending() == Some(read),
            r.1 == AcpiStep::Read(read),
    {
        (ApicDiscovery { rsdp, phase, pending: Some(read) }, AcpiStep::Read(read))
    }

    fn finish(rsdp: u64, result: Result<ApicInfo, AcpiError>) -> (r: (ApicDiscovery, AcpiStep))
        ensures
            r.0.wf(),
            r.0.rsdp() == rsdp,
            r.0.phase() is Finished,
            r.0.pending() is None,
            r.1 == AcpiStep::Done(result),
    {
        (ApicDiscovery { rsdp, phase: Phase::Finished, pending: None }, AcpiStep::Done(result))
    }

    fn go_root(rsdp: u64, root: u64, entry_size: usize) -> (r: (ApicDiscovery, AcpiStep))
        requires
            entry_size == 4 || entry_size == 8,
        ensures
            r.0.wf(),
            r.0.rsdp() == rsdp,
            root_step(root, r.1),
            r.1 is Read ==> r.0.pending() == Some(r.1->Read_0),
            r.1 is Done ==> r.0.pending() is None,
    {
        if root == 0 {
            return ApicDiscovery::finish(rsdp, Err(AcpiError::RootAddressZero));
        }
        ApicDiscovery::ask(
            rsdp,
            Phase::RootHeader { root, entry_size },
            TableRead { physical: root, length: SDT_HEADER_SIZE },
        )
    }

    fn search(rsdp: u64, entries: Vec<u64>, from: usize) -> (r: (ApicDiscovery, AcpiStep))
        requires
            from <= entries@.len(),
        ensures
            r.0.wf(),
            r.0.rsdp() == rsdp,
            search_step(entries@, from as int, r.1),
            r.1 is Read ==> r.0.pending() == Some(r.1->Read_0),
            r.1 is Done ==> r.0.pending() is None,
    {
        let mut i = from;
        while i < entries.len()
            invariant
                from <= i <= entries@.len(),
                first_listed(entries@, from as int) == first_listed(entries@, i as int),
            decreases entries@.len() - i,
        {
            if entries[i] != 0 {
                let read = TableRead { physical: entries[i], length: SDT_HEADER_SIZE };
                return ApicDiscovery::ask(rsdp, Phase::EntryHeader { entries, next: i }, read);
            }
            i += 1;
        }
        ApicDiscovery::finish(rsdp, Err(AcpiError::MadtNotFound))
    }

    /// Takes the bytes of the pending read and says what comes next.
    pub fn advance(self, bytes: &[u8]) -> (r: (ApicDiscovery, AcpiStep))
        requires
            self.wf(),
            self.pending() matches Some(p) && bytes@.len() == p.length,
        ensures
            r.0.wf(),
            r.0.rsdp() == self.rsdp(),
            r.1 is Read ==> r.0.pending() == Some(r.1->Read_0) && r.1->Read_0.length > 0,
            r.1 is Done ==> r.0.pending() is None,
            match self.phase() {
                Phase::RsdpV1 => match rsdp_result(bytes@) {
                    Err(e) => r.1 == AcpiStep::Done(Err(e)),
                    Ok((revision, rsdt)) => if revision >= 2 {
                        r.1 == AcpiStep::Read(TableRead { physical: self.rsdp(), length: 36 })
                    } else {
                        root_step(rsdt, r.1)
                    },
                },
                Phase::RsdpPrefix { rsdt } => read_or_fail(rsdp_length_result(bytes@), self.rsdp(), r.1),
                Phase::RsdpFull { rsdt } => match extended_root_result(bytes@, rsdt) {
                    Err(e) => r.1 == AcpiStep::Done(Err(e)),
                    Ok((root, _)) => root_step(root, r.1),
                },
                Phase::RootHeader { root, entry_size } => read_or_fail(sdt_length_result(bytes@), root, r.1),
                Phase::Root { root, entry_size } => if byte_sum(bytes@) % 256 != 0 {
                    r.1 == AcpiStep::Done(Err(AcpiError::InvalidSdtChecksum))
                } else {
                    match root_entries_result(bytes@, entry_size as int) {
                        Err(e) => r.1 == AcpiStep::Done(Err(e)),
                        Ok(s) => search_step(s, 0, r.1),
                    }
                },
                Phase::EntryHeader { entries, next } => read_or_fail(
                    sdt_length_result(bytes@),
                    entries@[next as int],
                    r.1,
                ),
                Phase::Entry { entries, next } => if byte_sum(bytes@) % 256 != 0 {
                    r.1 == AcpiStep::Done(Err(AcpiError::InvalidSdtChecksum))
                } else if starts_with(bytes@, madt_signature()) {
                    match madt_result(bytes@) {
                        Ok(m) => r.1 matches AcpiStep::Done(Ok(info)) && describes(info, m),
                        Err(e) => r.1 == AcpiStep::Done(Err(e)),
                    }
                } else {
                    search_step(entries@, next + 1, r.1)
                },
                Phase::Finished => false,
            },
    {
        let rsdp = self.rsdp;
        match self.phase {
            Phase::RsdpV1 => {
                match check_rsdp(bytes) {
                    Err(e) => ApicDiscovery::finish(rsdp, Err(e)),
                    Ok((revision, rsdt)) => {
                        if revision >= 2 {
                            ApicDiscovery::ask(
                                rsdp,
                                Phase::RsdpPrefix { rsdt },
                                TableRead { physical: rsdp, length: 36 },
                            )
                        } else {
                            ApicDiscovery::go_root(rsdp, rsdt, 4)
                        }
                    },
                }
            },
            Phase::RsdpPrefix { rsdt } => {
                match rsdp_length(bytes) {
                    Err(e) => ApicDiscovery::finish(rsdp, Err(e)),
                    Ok(length) => ApicDiscovery::ask(
                        rsdp,
                        Phase::RsdpFull { rsdt },
                        TableRead { physical: rsdp, length },
                    ),
                }
            },
            Phase::RsdpFull { rsdt } => {
                match extended_root(bytes, rsdt) {
                    Err(e) => ApicDiscovery::finish(rsdp, Err(e)),
                    Ok((root, entry_size)) => ApicDiscovery::go_root(rsdp, root, entry_size),
                }
            },
            Phase::RootHeader { root, entry_size } => {
                match sdt_length(bytes) {
                    Err(e) => ApicDiscovery::finish(rsdp, Err(e)),
                    Ok(length) => ApicDiscovery::ask(
                        rsdp,
                        Phase::Root { root, entry_size },
                        TableRead { physical: root, length },
                    ),
                }
            },
            Phase::Root { root, entry_size } => {
                if checksum(bytes) != 0 {
                    return ApicDiscovery::finish(rsdp, Err(AcpiError::InvalidSdtChecksum));
                }
                match root_entries(bytes, entry_size) {
                    Err(e) => ApicDiscovery::finish(rsdp, Err(e)),
                    Ok(entries) => ApicDiscovery::search(rsdp, entries, 0),
                }
            },
            Phase::EntryHeader { entries, next } => {
                match sdt_length(bytes) {
                    Err(e) => ApicDiscovery::finish(rsdp, Err(e)),
                    Ok(length) => {
                        let physical = entries[next];
                        ApicDiscovery::ask(
                            rsdp,
                            Phase::Entry { entries, next },
                            TableRead { physical, length },
                        )
                    },
                }
            },
            Phase::Entry { entries, next } => {
                if checksum(bytes) != 0 {
                    return ApicDiscovery::finish(rsdp, Err(AcpiError::InvalidSdtChecksum));
                }
                let signature: [u8; 4] = [0x41, 0x50, 0x49, 0x43];
                proof {
                    assert(signature@ =~= madt_signature());
                }
                if has_prefix(bytes, &signature) {
                    return ApicDiscovery::finish(rsdp, parse_madt(bytes));
                }
                let _len = entries.len();
                ApicDiscovery::search(rsdp, entries, next + 1)
            },
            Phase::Finished => ApicDiscovery::finish(rsdp, Err(AcpiError::MadtNotFound)),
        }
    }
}

} // verus!
