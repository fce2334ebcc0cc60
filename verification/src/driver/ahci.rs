//! AHCI (SATA) commands as the port's command slot holds them: the
//! Register Host-to-Device FIS, the command header, the PRD byte count,
//! and how a polled completion is judged.  Register access and DMA stay
//! with the caller.
use vstd::prelude::*;

verus! {

/// Bytes per sector.
pub const AHCI_SECTOR_SIZE: usize = 512;

/// FIS type of a Register Host-to-Device FIS.
pub const FIS_TYPE_REG_H2D: u8 = 0x27;
/// Length of that FIS in dwords.
pub const FIS_H2D_DWORDS: u32 = 5;

/// ATA commands.
pub const ATA_CMD_READ_DMA: u8 = 0xC8;
pub const ATA_CMD_WRITE_DMA: u8 = 0xCA;
pub const ATA_CMD_READ_DMA_EXT: u8 = 0x25;
pub const ATA_CMD_WRITE_DMA_EXT: u8 = 0x34;
pub const ATA_CMD_FLUSH_CACHE: u8 = 0xE7;
pub const ATA_CMD_FLUSH_CACHE_EXT: u8 = 0xEA;

/// Sectors reported for an initialized drive: 0, unknown, since the drive
/// is not asked (no IDENTIFY DEVICE).
pub const AHCI_UNKNOWN_CAPACITY: u64 = 0;

/// The 20-byte Register H2D FIS of ATA command `command` at `lba` for
/// `count` sectors: command register update, LBA mode, 48-bit LBA and
/// 16-bit count, everything else zero.
pub open spec fn h2d_fis(command: u8, lba: u64, count: u16) -> Seq<u8> {
    seq![
        FIS_TYPE_REG_H2D, 0x80, command, 0,
        (lba & 0xFF) as u8, ((lba >> 8u64) & 0xFF) as u8, ((lba >> 16u64) & 0xFF) as u8, 0x40,
        ((lba >> 24u64) & 0xFF) as u8, ((lba >> 32u64) & 0xFF) as u8, ((lba >> 40u64) & 0xFF) as u8,
        ((lba >> 48u64) & 0xFF) as u8,
        (count & 0xFF) as u8, ((count >> 8u16) & 0xFF) as u8, 0, 0,
        0, 0, 0, 0,
    ]
}

/// Builds the command FIS (see `h2d_fis`).
pub fn build_cmd_fis(command: u8, lba: u64, count: u16) -> (r: Vec<u8>)
    ensures
        r@ == h2d_fis(command, lba, count),
{
    let mut f: Vec<u8> = Vec::new();
    f.push(FIS_TYPE_REG_H2D);
    f.push(0x80);
    f.push(command);
    f.push(0);
    f.push((lba & 0xFF) as u8);
    f.push(((lba >> 8u64) & 0xFF) as u8);
    f.push(((lba >> 16u64) & 0xFF) as u8);
    f.push(0x40);
    f.push(((lba >> 24u64) & 0xFF) as u8);
    f.push(((lba >> 32u64) & 0xFF) as u8);
    f.push(((lba >> 40u64) & 0xFF) as u8);
    f.push(((lba >> 48u64) & 0xFF) as u8);
    f.push((count & 0xFF) as u8);
    f.push(((count >> 8u16) & 0xFF) as u8);
    f.push(0);
    f.push(0);
    f.push(0);
    f.push(0);
    f.push(0);
    f.push(0);
    assert(f@ =~= h2d_fis(command, lba, count));
    f
}

/// Dword 0 of a command header: FIS length, the write bit (6) and the
/// number of PRD entries in the upper half.
pub open spec fn header_dw0(write: bool, prdtl: u32) -> u32 {
    (FIS_H2D_DWORDS & 0x1F) | (if write { 0x40u32 } else { 0u32 }) | (prdtl << 16u32)
}

pub fn command_header_dw0(write: bool, prdtl: u32) -> (r: u32)
    ensures
        r == header_dw0(write, prdtl),
{
    let w: u32 = if write { 0x40 } else { 0 };
    (FIS_H2D_DWORDS & 0x1F) | w | (prdtl << 16u32)
}

/// The byte count field of a PRD entry: the length less one.
pub fn prd_byte_count(len: usize) -> (r: u32)
    requires
        1 <= len <= 0x40_0000,
    ensures
        r == len - 1,
{
    (len - 1) as u32
}

/// Where a polled command stands.
#[derive(Clone, Copy, Debug, PartialEq, Eq, Structural)]
pub enum PollState {
    /// The task file reports an error (TFD.ERR).
    Failed,
    /// The command-issue bit has cleared.
    Done,
    Pending,
}

/// One look at the port: an error in the task file wins over completion.
pub fn poll_command(ci: u32, tfd: u32) -> (r: PollState)
    ensures
        tfd & 1 != 0 ==> r == PollState::Failed,
        tfd & 1 == 0 && ci & 1 == 0 ==> r == PollState::Done,
        tfd & 1 == 0 && ci & 1 != 0 ==> r == PollState::Pending,
{
    if tfd & 0x01 != 0 {
        PollState::Failed
    } else if ci & 1 == 0 {
        PollState::Done
    } else {
        PollState::Pending
    }
}

/// The drive takes 48-bit commands (modern SATA drives all do).
pub fn supports_lba48() -> (r: bool)
    ensures
        r,
{
    true
}

/// The read, write and flush commands for a drive with or without 48-bit
/// commands.
pub fn read_command(lba48: bool) -> (r: u8)
    ensures
        r == if lba48 { ATA_CMD_READ_DMA_EXT } else { ATA_CMD_READ_DMA },
{
    if lba48 { ATA_CMD_READ_DMA_EXT } else { ATA_CMD_READ_DMA }
}

pub fn write_command(lba48: bool) -> (r: u8)
    ensures
        r == if lba48 { ATA_CMD_WRITE_DMA_EXT } else { ATA_CMD_WRITE_DMA },
{
    if lba48 { ATA_CMD_WRITE_DMA_EXT } else { ATA_CMD_WRITE_DMA }
}

pub fn flush_command(lba48: bool) -> (r: u8)
    ensures
        r == if lba48 { ATA_CMD_FLUSH_CACHE_EXT } else { ATA_CMD_FLUSH_CACHE },
{
    if lba48 { ATA_CMD_FLUSH_CACHE_EXT } else { ATA_CMD_FLUSH_CACHE }
}

/// A sector transfer needs a buffer of at least one sector.
pub fn check_sector_buffer(len: usize) -> (r: Result<(), &'static str>)
    ensures
        len < 512 ==> r == Err::<(), &'static str>("buffer too small"),
        len >= 512 ==> r is Ok,
{
    if len < AHCI_SECTOR_SIZE { Err("buffer too small") } else { Ok(()) }
}

/// The drive's size in sectors: 0 (unknown) once initialized, the file
/// system layer finding the real size; `None` before.
pub fn capacity(initialized: bool) -> (r: Option<u64>)
    ensures
        r == if initialized { Some(0u64) } else { None::<u64> },
{
    if initialized { Some(AHCI_UNKNOWN_CAPACITY) } else { None }
}

} // verus!
