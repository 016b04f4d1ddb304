//! Sector-addressed block devices.

use vstd::prelude::*;

verus! {

pub const SECTOR_SIZE: usize = 512;

#[derive(Debug, Clone, Copy, PartialEq, Eq, Structural)]
pub enum BlockError {
    OutOfRange,
    ReadOnly,
    Io,
}

impl BlockError {
    /// A one-line description of the error.
    pub fn message(&self) -> (r: &'static str)
        ensures
            r@ == match *self {
                BlockError::OutOfRange => "block address out of range"@,
                BlockError::ReadOnly => "block device is read-only"@,
                BlockError::Io => "block I/O error"@,
            },
    {
        match self {
            BlockError::OutOfRange => "block address out of range",
            BlockError::ReadOnly => "block device is read-only",
            BlockError::Io => "block I/O error",
        }
    }
}

/// Minimal synchronous sector device used below the Generic VFS.
///
/// A device describes its state through `sector_spec`: what reading a
/// sector gives, its bytes or the error the device reports.
pub trait BlockDevice: Send + Sync {
    /// The number of sectors. Implementations describe their device by
    /// defining this and `sector_spec`; the defaults describe a device
    /// without sectors.
    closed spec fn sector_count_spec(&self) -> u64 {
        0
    }

    /// What reading `sector` gives.
    closed spec fn sector_spec(&self, sector: u64) -> Result<Seq<u8>, BlockError> {
        Err(BlockError::Io)
    }

    fn sector_count(&self) -> (r: u64)
        ensures
            r == self.sector_count_spec(),
    ;

    fn read_sector(&self, sector: u64, buffer: &mut [u8; SECTOR_SIZE]) -> (r: Result<(), BlockError>)
        ensures
            match self.sector_spec(sector) {
                Ok(bytes) => r is Ok && final(buffer)@ == bytes,
                Err(e) => r == Err::<(), BlockError>(e),
            },
    ;

    fn write_sector(&mut self, sector: u64, buffer: &[u8; SECTOR_SIZE]) -> (r: Result<(), BlockError>)
        ensures
            final(self).sector_count_spec() == old(self).sector_count_spec(),
            r is Ok ==> final(self).sector_spec(sector) == Ok::<Seq<u8>, BlockError>(buffer@),
            r is Ok ==> forall|other: u64|
                other != sector ==> final(self).sector_spec(other) == old(self).sector_spec(other),
    ;
}

impl<T: BlockDevice + ?Sized> BlockDevice for Box<T> {
    open spec fn sector_count_spec(&self) -> u64 {
        (**self).sector_count_spec()
    }

    open spec fn sector_spec(&self, sector: u64) -> Result<Seq<u8>, BlockError> {
        (**self).sector_spec(sector)
    }

    fn sector_count(&self) -> (r: u64) {
        (**self).sector_count()
    }

    fn read_sector(&self, sector: u64, buffer: &mut [u8; SECTOR_SIZE]) -> (r: Result<(), BlockError>) {
        (**self).read_sector(sector, buffer)
    }

    fn write_sector(&mut self, sector: u64, buffer: &[u8; SECTOR_SIZE]) -> (r: Result<(), BlockError>) {
        (**self).write_sector(sector, buffer)
    }
}

} // verus!
