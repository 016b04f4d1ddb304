//! Local APIC and I/O APIC programming decisions: the base register value,
//! the size of an I/O APIC's redirection table, and how a legacy interrupt
//! line is routed.

use crate::acpi::{ApicInfo, InterruptOverride, IoApicInfo};
use vstd::prelude::*;

verus! {

pub const APIC_ENABLE: u64 = 0x800;
pub const X2APIC_ENABLE: u64 = 0x400;
pub const APIC_BASE_MASK: u64 = 0x000f_ffff_ffff_f000;
pub const IOAPIC_REDTBL: u32 = 0x10;
pub const REDIRECT_MASKED: u32 = 0x1_0000;
pub const REDIRECT_ACTIVE_LOW: u32 = 0x2000;
pub const REDIRECT_LEVEL: u32 = 0x8000;

#[derive(Clone, Copy, Debug)]
pub struct Diagnostics {
    pub initialized: bool,
    pub local_apic_id: u32,
    pub io_apic_count: usize,
}

/// An I/O APIC's share of the global system interrupts: `redirections`
/// lines from `gsi_base` on.
#[derive(Clone, Copy, Debug, PartialEq, Eq, Structural)]
pub struct IoApicRange {
    pub gsi_base: u32,
    pub redirections: u32,
}

#[derive(Clone, Copy, Debug, PartialEq, Eq, Structural)]
pub enum RouteError {
    NoIoApic,
    UnsupportedPolarity,
    UnsupportedTrigger,
}

/// The text that describes `e`.
pub open spec fn route_text(e: RouteError) -> Seq<char> {
    match e {
        RouteError::NoIoApic => "no IOAPIC owns requested GSI"@,
        RouteError::UnsupportedPolarity => "unsupported ACPI interrupt polarity"@,
        RouteError::UnsupportedTrigger => "unsupported ACPI interrupt trigger mode"@,
    }
}

impl RouteError {
    /// A one-line description of the error.
    pub fn message(&self) -> (r: &'static str)
        ensures
            r@ == route_text(*self),
    {
        match self {
            RouteError::NoIoApic => "no IOAPIC owns requested GSI",
            RouteError::UnsupportedPolarity => "unsupported ACPI interrupt polarity",
            RouteError::UnsupportedTrigger => "unsupported ACPI interrupt trigger mode",
        }
    }
}

/// Where a line goes: entry `entry` of I/O APIC `io_apic`, with the low and
/// high words of the redirection entry.
#[derive(Clone, Copy, Debug, PartialEq, Eq, Structural)]
pub struct Route {
    pub io_apic: usize,
    pub entry: u32,
    pub low: u32,
    pub high: u32,
}

/// The APIC base register with the local APIC at `physical_base`, enabled,
/// in xAPIC mode.
pub fn apic_base_value(current: u64, physical_base: u64) -> (r: u64)
    ensures
        r == (current & !APIC_BASE_MASK & !X2APIC_ENABLE) | (physical_base & APIC_BASE_MASK) | APIC_ENABLE,
{
    let mut value = current;
    value = value & !APIC_BASE_MASK;
    value = value & !X2APIC_ENABLE;
    value = value | (physical_base & APIC_BASE_MASK);
    value = value | APIC_ENABLE;
    value
}

/// The number of redirection entries an I/O APIC version register reports.
pub fn redirections_from_version(version: u32) -> (r: u32)
    ensures
        r == ((version >> 16u32) & 0xff) + 1,
        1 <= r <= 256,
{
    proof {
        assert((version >> 16u32) & 0xff <= 0xff) by (bit_vector);
    }
    ((version >> 16u32) & 0xff) + 1
}

/// The register holding the low word of redirection entry `index`; the
/// high word is the next one.
pub fn redirection_register(index: u32) -> (r: u32)
    requires
        index < 256,
    ensures
        r == IOAPIC_REDTBL + index * 2,
{
    IOAPIC_REDTBL + index * 2
}

/// The line and polarity/trigger flags an override gives legacy line `irq`;
/// without one, the line keeps its number and the bus defaults.
pub open spec fn line_of(overrides: Seq<Option<InterruptOverride>>, irq: u8) -> (u32, u16) {
    match overrides[irq as int] {
        Some(entry) => (entry.gsi, entry.flags),
        None => (irq as u32, 0),
    }
}

/// `a` owns global interrupt `gsi`.
pub open spec fn owns(a: IoApicRange, gsi: u32) -> bool {
    a.gsi_base <= gsi && (gsi as int) < a.gsi_base + a.redirections
}

/// The first I/O APIC from index `k` on that owns `gsi`.
pub open spec fn owner(io_apics: Seq<Option<IoApicRange>>, gsi: u32, k: int) -> Option<int>
    decreases io_apics.len() - k,
{
    if k < 0 || k >= io_apics.len() {
        None
    } else if io_apics[k] matches Some(a) && owns(a, gsi) {
        Some(k)
    } else {
        owner(io_apics, gsi, k + 1)
    }
}

/// The route of legacy line `irq` to `vector` on the CPU with APIC id
/// `destination`: the override's polarity (0 or 1 active high, 3 active
/// low) and trigger mode (0 or 1 edge, 3 level) go into the entry; other
/// values are refused.
pub open spec fn route_spec(
    io_apics: Seq<Option<IoApicRange>>,
    overrides: Seq<Option<InterruptOverride>>,
    irq: u8,
    vector: u8,
    destination: u32,
) -> Result<Route, RouteError> {
    let (gsi, flags) = line_of(overrides, irq);
    let polarity = flags & 3;
    let trigger = (flags >> 2u16) & 3;
    match owner(io_apics, gsi, 0) {
        None => Err(RouteError::NoIoApic),
        Some(k) => if polarity == 2 {
            Err(RouteError::UnsupportedPolarity)
        } else if trigger == 2 {
            Err(RouteError::UnsupportedTrigger)
        } else {
            let low = (vector as u32) | (if polarity == 3 { REDIRECT_ACTIVE_LOW } else { 0 }) | (if trigger
                == 3 {
                REDIRECT_LEVEL
            } else {
                0
            });
            Ok(
                Route {
                    io_apic: k as usize,
                    entry: (gsi - io_apics[k]->Some_0.gsi_base) as u32,
                    low,
                    high: destination << 24u32,
                },
            )
        },
    }
}

proof fn lemma_owner(io_apics: Seq<Option<IoApicRange>>, gsi: u32, k: int)
    requires
        0 <= k,
    ensures
        owner(io_apics, gsi, k) matches Some(j) ==> k <= j < io_apics.len() && (io_apics[j] matches Some(a)
            && owns(a, gsi)),
    decreases io_apics.len() - k,
{
    if k < io_apics.len() {
        lemma_owner(io_apics, gsi, k + 1);
    }
}

fn find_owner(io_apics: &[Option<IoApicRange>; 4], gsi: u32) -> (r: Option<usize>)
    ensures
        match owner(io_apics@, gsi, 0) {
            Some(k) => r == Some(k as usize) && 0 <= k < 4 && (io_apics@[k] matches Some(a) && owns(a, gsi)),
            None => r is None,
        },
{
    proof {
        lemma_owner(io_apics@, gsi, 0);
    }
    let mut k: usize = 0;
    while k < 4
        invariant
            k <= 4,
            io_apics@.len() == 4,
            owner(io_apics@, gsi, 0) == owner(io_apics@, gsi, k as int),
        decreases 4 - k,
    {
        if let Some(a) = io_apics[k] {
            if gsi >= a.gsi_base && (gsi as u64) < a.gsi_base as u64 + a.redirections as u64 {
                return Some(k);
            }
        }
        k += 1;
    }
    None
}

/// Routes legacy line `irq` (below 16) through the I/O APIC that owns it.
pub fn route_isa_irq(
    io_apics: &[Option<IoApicRange>; 4],
    info: &ApicInfo,
    irq: u8,
    vector: u8,
    destination: u32,
) -> (r: Result<Route, RouteError>)
    requires
        irq < 16,
    ensures
        r == route_spec(io_apics@, info.overrides@, irq, vector, destination),
{
    let (gsi, flags) = match info.overrides[irq as usize] {
        Some(entry) => (entry.gsi, entry.flags),
        None => (irq as u32, 0u16),
    };
    let index = match find_owner(io_apics, gsi) {
        Some(index) => index,
        None => return Err(RouteError::NoIoApic),
    };
    let a = match io_apics[index] {
        Some(a) => a,
        None => return Err(RouteError::NoIoApic),
    };
    let mut low = vector as u32;
    let polarity = flags & 0b11;
    let trigger = (flags >> 2u16) & 0b11;
    proof {
        assert(polarity <= 3 && trigger <= 3) by (bit_vector)
            requires
                polarity == flags & 3,
                trigger == (flags >> 2u16) & 3,
        ;
    }
    if polarity == 0b11 {
        low = low | REDIRECT_ACTIVE_LOW;
    } else if polarity != 0 && polarity != 0b01 {
        return Err(RouteError::UnsupportedPolarity);
    }
    if trigger == 0b11 {
        low = low | REDIRECT_LEVEL;
    } else if trigger != 0 && trigger != 0b01 {
        return Err(RouteError::UnsupportedTrigger);
    }
    proof {
        let v = vector as u32;
        assert((v | 0u32) | 0u32 == v) by (bit_vector);
        assert((v | REDIRECT_ACTIVE_LOW) | 0u32 == v | REDIRECT_ACTIVE_LOW) by (bit_vector);
        assert((v | 0u32) | REDIRECT_LEVEL == v | REDIRECT_LEVEL) by (bit_vector);
    }
    Ok(Route { io_apic: index, entry: gsi - a.gsi_base, low, high: destination << 24u32 })
}


/// Why bringing up the APICs stopped.
#[derive(Clone, Copy, Debug, PartialEq, Eq, Structural)]
pub enum InitError {
    Twice,
    NoLocalApic,
    MapLocalFailed,
    MapIoApicFailed,
    Route(RouteError),
}

/// The text that describes `e`.
pub open spec fn init_text(e: InitError) -> Seq<char> {
    match e {
        InitError::Twice => "APIC initialized twice"@,
        InitError::NoLocalApic => "CPU does not report local APIC support"@,
        InitError::MapLocalFailed => "failed to map local APIC MMIO"@,
        InitError::MapIoApicFailed => "failed to map IOAPIC MMIO"@,
        InitError::Route(r) => route_text(r),
    }
}

impl InitError {
    /// A one-line description of the error.
    pub fn message(&self) -> (r: &'static str)
        ensures
            r@ == init_text(*self),
    {
        match self {
            InitError::Twice => "APIC initialized twice",
            InitError::NoLocalApic => "CPU does not report local APIC support",
            InitError::MapLocalFailed => "failed to map local APIC MMIO",
            InitError::MapIoApicFailed => "failed to map IOAPIC MMIO",
            InitError::Route(r) => r.message(),
        }
    }
}

/// Where bringing up the APICs stands: waiting for the local APIC's
/// mapping, for its ID register, for I/O APIC `k`'s mapping or version
/// register, about to route legacy line number `k` (of 0, 1, 12), or done.
#[derive(Clone, Copy, Debug, PartialEq, Eq, Structural)]
pub enum ApicStage {
    MapLocal,
    ReadId,
    MapIoApic(usize),
    ReadVersion(usize),
    Route(usize),
    Finished,
}

/// What the caller does next, and answers with `advance`: mask the legacy
/// PIC and map the local APIC page (answering the mapping, or none);
/// enable and program the local APIC at its mapping and read its ID
/// register (answering the register); map an I/O APIC page (answering the
/// mapping, or none); read an I/O APIC's version register (answering it);
/// mask all of an I/O APIC's redirections; write one redirection entry; or
/// stop, with the error or the local APIC's id and the I/O APIC count.
#[derive(Clone, Copy, Debug, PartialEq, Eq, Structural)]
pub enum ApicAction {
    MaskPicAndMapLocal { physical: u64 },
    ProgramLocalAndReadId { physical: u64, virtual_address: u64 },
    MapIoApic { physical: u64 },
    ReadIoApicVersion { virtual_address: u64 },
    MaskIoApic { virtual_address: u64, redirections: u32 },
    WriteRedirection { virtual_address: u64, entry: u32, low: u32, high: u32 },
    Fail(InitError),
    Done { local_apic_id: u32, io_apic_count: usize },
}

/// The legacy line routed at routing step `k`: the timer, the keyboard,
/// then the mouse.
pub open spec fn routed_irq(k: int) -> u8 {
    if k == 0 {
        0
    } else if k == 1 {
        1
    } else {
        12
    }
}

/// Bringing up the local APIC and the I/O APICs the firmware tables list,
/// one outside step at a time.
#[derive(Clone, Copy, Debug)]
pub struct ApicInit {
    pub stage: ApicStage,
    pub local_physical: u64,
    pub io_apics: [IoApicInfo; 4],
    pub io_apic_count: usize,
    pub overrides: [Option<InterruptOverride>; 16],
    pub vectors: [u8; 3],
    pub local_id: u32,
    pub ranges: [Option<IoApicRange>; 4],
    pub virtuals: [u64; 4],
}

/// The state after I/O APIC `k` is done: the next one's mapping, or the
/// first route.
pub open spec fn after_io_apic(s: ApicInit, k: int) -> (ApicStage, ApicAction) {
    if k + 1 < s.io_apic_count {
        (ApicStage::MapIoApic((k + 1) as usize), ApicAction::MapIoApic { physical: s.io_apics@[k + 1].address as u64 })
    } else {
        route_step_spec(s, 0)
    }
}

/// Routing step `k`: the redirection entry of legacy line `routed_irq(k)`
/// to its vector on the local APIC, the route's error, or done after the
/// third line.
pub open spec fn route_step_spec(s: ApicInit, k: int) -> (ApicStage, ApicAction) {
    if k >= 3 {
        (ApicStage::Finished, ApicAction::Done { local_apic_id: s.local_id, io_apic_count: s.io_apic_count })
    } else {
        match route_spec(s.ranges@, s.overrides@, routed_irq(k), s.vectors@[k], s.local_id) {
            Err(e) => (ApicStage::Finished, ApicAction::Fail(InitError::Route(e))),
            Ok(route) => (
                ApicStage::Route((k + 1) as usize),
                ApicAction::WriteRedirection {
                    virtual_address: s.virtuals@[route.io_apic as int],
                    entry: route.entry,
                    low: route.low,
                    high: route.high,
                },
            ),
        }
    }
}

impl ApicInit {
    /// Starts bringing up the APICs `info` describes, the legacy timer,
    /// keyboard and mouse lines going to `vectors`: refused when they are
    /// up already or the CPU has no local APIC; otherwise first the legacy
    /// PIC is masked and the local APIC mapped.
    pub fn start(initialized: bool, has_apic: bool, info: &ApicInfo, vectors: [u8; 3]) -> (r: (ApicInit, ApicAction))
        ensures
            r.0.local_physical == info.local_apic_address,
            r.0.io_apics == info.io_apics,
            r.0.io_apic_count == if info.io_apic_count <= 4 { info.io_apic_count } else { 4 },
            r.0.overrides == info.overrides,
            r.0.vectors == vectors,
            r.0.ranges@ == seq![None::<IoApicRange>, None, None, None],
            r.1 == if initialized {
                ApicAction::Fail(InitError::Twice)
            } else if !has_apic {
                ApicAction::Fail(InitError::NoLocalApic)
            } else {
                ApicAction::MaskPicAndMapLocal { physical: info.local_apic_address }
            },
            r.0.stage == if initialized || !has_apic {
                ApicStage::Finished
            } else {
                ApicStage::MapLocal
            },
    {
        let count = if info.io_apic_count <= 4 {
            info.io_apic_count
        } else {
            4
        };
        let state = ApicInit {
            stage: ApicStage::Finished,
            local_physical: info.local_apic_address,
            io_apics: info.io_apics,
            io_apic_count: count,
            overrides: info.overrides,
            vectors,
            local_id: 0,
            ranges: [None, None, None, None],
            virtuals: [0, 0, 0, 0],
        };
        proof {
            assert(state.ranges@ =~= seq![None::<IoApicRange>, None, None, None]);
        }
        if initialized {
            return (state, ApicAction::Fail(InitError::Twice));
        }
        if !has_apic {
            return (state, ApicAction::Fail(InitError::NoLocalApic));
        }
        (ApicInit { stage: ApicStage::MapLocal, ..state }, ApicAction::MaskPicAndMapLocal { physical: info.local_apic_address })
    }

    /// Routing step `k`.
    fn route_step(self, k: usize) -> (r: (ApicInit, ApicAction))
        requires
            k <= 3,
            self.io_apic_count <= 4,
        ensures
            (r.0.stage, r.1) == route_step_spec(self, k as int),
            r.0 == (ApicInit { stage: r.0.stage, ..self }),
    {
        if k >= 3 {
            return (
                ApicInit { stage: ApicStage::Finished, ..self },
                ApicAction::Done { local_apic_id: self.local_id, io_apic_count: self.io_apic_count },
            );
        }
        let irq: u8 = if k == 0 {
            0
        } else if k == 1 {
            1
        } else {
            12
        };
        match route_isa_irq(&self.ranges, &self.overrides_info(), irq, self.vectors[k], self.local_id) {
            Err(e) => (ApicInit { stage: ApicStage::Finished, ..self }, ApicAction::Fail(InitError::Route(e))),
            Ok(route) => {
                proof {
                    lemma_owner(self.ranges@, line_of(self.overrides@, irq).0, 0);
                }
                (
                    ApicInit { stage: ApicStage::Route(k + 1), ..self },
                    ApicAction::WriteRedirection {
                        virtual_address: self.virtuals[route.io_apic],
                        entry: route.entry,
                        low: route.low,
                        high: route.high,
                    },
                )
            },
        }
    }

    /// The firmware description the routes are read from.
    fn overrides_info(&self) -> (r: ApicInfo)
        ensures
            r.overrides == self.overrides,
    {
        ApicInfo {
            local_apic_address: self.local_physical,
            io_apics: self.io_apics,
            io_apic_count: self.io_apic_count,
            overrides: self.overrides,
        }
    }

    /// The next step, given the answer to the last action: a mapping that
    /// failed stops with its error; the local APIC's ID is bits 24 and up of
    /// its register; an I/O APIC's redirection count comes from its version
    /// register, after which all its lines are masked; then legacy lines 0,
    /// 1 and 12 are routed in turn, the first route error stopping it all.
    pub fn advance(self, reply: Option<u64>) -> (r: (ApicInit, ApicAction))
        requires
            self.stage != ApicStage::Finished,
            self.io_apic_count <= 4,
            self.stage matches ApicStage::MapIoApic(k) ==> k < self.io_apic_count,
            self.stage matches ApicStage::ReadVersion(k) ==> k < self.io_apic_count,
            self.stage matches ApicStage::Route(k) ==> k <= 3,
        ensures
            r.0.io_apic_count == self.io_apic_count,
            r.0.stage matches ApicStage::MapIoApic(k) ==> k < r.0.io_apic_count,
            r.0.stage matches ApicStage::ReadVersion(k) ==> k < r.0.io_apic_count,
            r.0.stage matches ApicStage::Route(k) ==> k <= 3,
            match self.stage {
                ApicStage::MapLocal => match reply {
                    None => r.1 == ApicAction::Fail(InitError::MapLocalFailed) && r.0.stage == ApicStage::Finished,
                    Some(v) => r.0.stage == ApicStage::ReadId && r.1 == (ApicAction::ProgramLocalAndReadId {
                        physical: self.local_physical,
                        virtual_address: v,
                    }),
                },
                ApicStage::ReadId => {
                    let id = (reply.unwrap_or(0) >> 24u64) as u32;
                    &&& r.0.local_id == id
                    &&& r.0.ranges == self.ranges
                    &&& (r.0.stage, r.1) == if self.io_apic_count > 0 {
                        (ApicStage::MapIoApic(0), ApicAction::MapIoApic { physical: self.io_apics@[0].address as u64 })
                    } else {
                        route_step_spec(ApicInit { local_id: id, ..self }, 0)
                    }
                },
                ApicStage::MapIoApic(k) => match reply {
                    None => r.1 == ApicAction::Fail(InitError::MapIoApicFailed) && r.0.stage == ApicStage::Finished,
                    Some(v) => r.0.stage == ApicStage::ReadVersion(k) && r.0.virtuals@ == self.virtuals@.update(k as int, v)
                        && r.1 == (ApicAction::ReadIoApicVersion { virtual_address: v }),
                },
                ApicStage::ReadVersion(k) => {
                    let redirections = ((((reply.unwrap_or(0) as u32) >> 16u32) & 0xff) + 1) as u32;
                    let range = IoApicRange { gsi_base: self.io_apics@[k as int].gsi_base, redirections };
                    &&& r.0.ranges@ == self.ranges@.update(k as int, Some(range))
                    &&& r.1 == (ApicAction::MaskIoApic { virtual_address: self.virtuals@[k as int], redirections })
                    &&& r.0.stage == if k + 1 < self.io_apic_count {
                        ApicStage::MapIoApic((k + 1) as usize)
                    } else {
                        ApicStage::Route(0)
                    }
                },
                ApicStage::Route(k) => (r.0.stage, r.1) == route_step_spec(self, k as int),
                ApicStage::Finished => false,
            },
    {
        match self.stage {
            ApicStage::MapLocal => match reply {
                None => (ApicInit { stage: ApicStage::Finished, ..self }, ApicAction::Fail(InitError::MapLocalFailed)),
                Some(v) => (
                    ApicInit { stage: ApicStage::ReadId, ..self },
                    ApicAction::ProgramLocalAndReadId { physical: self.local_physical, virtual_address: v },
                ),
            },
            ApicStage::ReadId => {
                let value = match reply {
                    Some(v) => v,
                    None => 0,
                };
                let id = (value >> 24u64) as u32;
                let next = ApicInit { local_id: id, ..self };
                if self.io_apic_count > 0 {
                    (
                        ApicInit { stage: ApicStage::MapIoApic(0), ..next },
                        ApicAction::MapIoApic { physical: self.io_apics[0].address as u64 },
                    )
                } else {
                    next.route_step(0)
                }
            },
            ApicStage::MapIoApic(k) => match reply {
                None => (ApicInit { stage: ApicStage::Finished, ..self }, ApicAction::Fail(InitError::MapIoApicFailed)),
                Some(v) => {
                    let mut next = self;
                    next.virtuals[k] = v;
                    next.stage = ApicStage::ReadVersion(k);
                    (next, ApicAction::ReadIoApicVersion { virtual_address: v })
                },
            },
            ApicStage::ReadVersion(k) => {
                let value = match reply {
                    Some(v) => v,
                    None => 0,
                };
                let redirections = redirections_from_version(value as u32);
                let mut next = self;
                next.ranges[k] = Some(IoApicRange { gsi_base: self.io_apics[k].gsi_base, redirections });
                next.stage = if k + 1 < self.io_apic_count {
                    ApicStage::MapIoApic(k + 1)
                } else {
                    ApicStage::Route(0)
                };
                (next, ApicAction::MaskIoApic { virtual_address: self.virtuals[k], redirections })
            },
            ApicStage::Route(k) => self.route_step(k),
            ApicStage::Finished => (self, ApicAction::Done { local_apic_id: self.local_id, io_apic_count: self.io_apic_count }),
        }
    }
}

} // verus!
