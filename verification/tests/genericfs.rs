use kernel_core::block::{BlockDevice, BlockError, SECTOR_SIZE};
use kernel_core::genericfs::GenericFs;
use kernel_core::files::write_file;
use kernel_core::vfs::Vfs;
use std::sync::{Arc, Mutex};

struct SharedMemoryBlock {
    sectors: u64,
    bytes: Arc<Mutex<Vec<u8>>>,
}

impl BlockDevice for SharedMemoryBlock {
    fn sector_count(&self) -> u64 {
        self.sectors
    }

    fn read_sector(&self, sector: u64, buffer: &mut [u8; SECTOR_SIZE]) -> Result<(), BlockError> {
        if sector >= self.sectors {
            return Err(BlockError::OutOfRange);
        }
        let start = sector as usize * SECTOR_SIZE;
        buffer.copy_from_slice(&self.bytes.lock().unwrap()[start..start + SECTOR_SIZE]);
        Ok(())
    }

    fn write_sector(&mut self, sector: u64, buffer: &[u8; SECTOR_SIZE]) -> Result<(), BlockError> {
        if sector >= self.sectors {
            return Err(BlockError::OutOfRange);
        }
        let start = sector as usize * SECTOR_SIZE;
        self.bytes.lock().unwrap()[start..start + SECTOR_SIZE].copy_from_slice(buffer);
        Ok(())
    }
}

fn device() -> (Box<dyn BlockDevice>, Arc<Mutex<Vec<u8>>>) {
    let bytes = Arc::new(Mutex::new(vec![0u8; 256 * SECTOR_SIZE]));
    (Box::new(SharedMemoryBlock { sectors: 256, bytes: bytes.clone() }), bytes)
}

#[test]
fn survives_remount_and_preserves_tree() {
    let (device, bytes) = device();
    let (fs, formatted) = GenericFs::mount(device, true).unwrap();
    assert!(formatted);
    let mut vfs = Vfs::new(Box::new(fs));
    vfs.create_dir("/etc").unwrap();
    vfs.create_file("/etc/config").unwrap();
    vfs.write("/etc/config", 0, b"persistent").unwrap();
    drop(vfs);

    let device: Box<dyn BlockDevice> = Box::new(SharedMemoryBlock { sectors: 256, bytes });
    let (fs, formatted) = GenericFs::mount(device, false).unwrap();
    assert!(!formatted);
    let vfs = Vfs::new(Box::new(fs));
    assert_eq!(vfs.read_all("/etc/config").unwrap(), b"persistent");
}

#[test]
fn reuses_space_after_delete() {
    let (device, _) = device();
    let (fs, _) = GenericFs::mount(device, true).unwrap();
    let mut vfs = Vfs::new(Box::new(fs));
    vfs.create_file("/a").unwrap();
    vfs.write("/a", 0, &vec![1u8; 4096]).unwrap();
    vfs.remove("/a").unwrap();
    vfs.create_file("/b").unwrap();
    vfs.write("/b", 0, &vec![2u8; 4096]).unwrap();
    assert_eq!(vfs.read_all("/b").unwrap(), vec![2u8; 4096]);
}

#[test]
fn unformatted_device_is_refused_without_format() {
    let (device, _) = device();
    assert!(GenericFs::mount(device, false).is_err());
}

#[test]
fn growing_write_keeps_earlier_bytes() {
    let (device, _) = device();
    let (fs, _) = GenericFs::mount(device, true).unwrap();
    let mut vfs = Vfs::new(Box::new(fs));
    vfs.create_file("/f").unwrap();
    assert_eq!(vfs.write("/f", 0, &[1u8; 512]), Ok(512));
    assert_eq!(vfs.write("/f", 512, &[2u8]), Ok(1));
    let mut expected = vec![1u8; 512];
    expected.push(2);
    assert_eq!(vfs.read_all("/f").unwrap(), expected);
}

#[test]
fn moved_file_keeps_its_bytes_and_zero_fills_the_gap() {
    let (device, _) = device();
    let (fs, _) = GenericFs::mount(device, true).unwrap();
    let mut vfs = Vfs::new(Box::new(fs));
    vfs.create_file("/a").unwrap();
    vfs.create_file("/b").unwrap();
    assert_eq!(vfs.write("/a", 0, &[7u8; 512]), Ok(512));
    assert_eq!(vfs.write("/b", 0, &[9u8; 512]), Ok(512));
    assert_eq!(vfs.write("/a", 600, b"end"), Ok(3));
    let mut expected = vec![7u8; 512];
    expected.extend_from_slice(&[0u8; 88]);
    expected.extend_from_slice(b"end");
    assert_eq!(vfs.read_all("/a").unwrap(), expected);
    assert_eq!(vfs.read_all("/b").unwrap(), vec![9u8; 512]);
}

#[test]
fn appending_on_disk_keeps_what_was_there() {
    let (device, _) = device();
    let (fs, _) = GenericFs::mount(device, true).unwrap();
    let mut vfs = Vfs::new(Box::new(fs));
    assert_eq!(write_file(&mut vfs, "/log", b"first ", false), Ok(6));
    assert_eq!(write_file(&mut vfs, "/log", b"second", true), Ok(6));
    assert_eq!(vfs.read_all("/log").unwrap(), b"first second".to_vec());
}
