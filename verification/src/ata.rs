//! The decisions of an ATA PIO sector read on the primary channel: which
//! requests are refused, which bytes go to which command registers, and how
//! the status register is read. The port accesses themselves are made by
//! the caller.
use vstd::prelude::*;

verus! {

/// Data port.
pub const ATA_DATA: u16 = 0x1F0;

/// Sector count register.
pub const ATA_SECTOR_COUNT: u16 = 0x1F2;

/// Bits 0-7 of the LBA.
pub const ATA_LBA_LOW: u16 = 0x1F3;

/// Bits 8-15 of the LBA.
pub const ATA_LBA_MID: u16 = 0x1F4;

/// Bits 16-23 of the LBA.
pub const ATA_LBA_HIGH: u16 = 0x1F5;

/// Drive and head register; carries bits 24-27 of the LBA.
pub const ATA_DRIVE_SELECT: u16 = 0x1F6;

/// Command register (written).
pub const ATA_COMMAND: u16 = 0x1F7;

/// Status register (read).
pub const ATA_STATUS: u16 = 0x1F7;

/// Device control register.
pub const ATA_DEVICE_CONTROL: u16 = 0x3F6;

/// READ SECTORS command.
pub const ATA_CMD_READ_SECTORS: u8 = 0x20;

/// Highest LBA + 1 that 28-bit addressing can name.
pub const ATA_LBA_LIMIT: u32 = 0x1000_0000;

/// Why a sector read failed.
#[derive(Debug, Clone, Copy, PartialEq, Eq, Structural)]
pub enum AtaError {
    /// The LBA does not fit in 28 bits.
    InvalidLba,
    /// Zero sectors were asked for.
    InvalidCount,
    /// The drive set the error bit of its status.
    DeviceFault,
}

/// The register values of a READ SECTORS command.
#[derive(Debug, Clone, Copy, PartialEq, Eq, Structural)]
pub struct ReadCommand {
    pub drive_select: u8,
    pub sector_count: u8,
    pub lba_low: u8,
    pub lba_mid: u8,
    pub lba_high: u8,
}

/// Master drive, LBA mode, with bits 24-27 of the LBA in the low nibble.
pub open spec fn drive_select_value(lba: u32) -> u8 {
    (0xE0 + (lba / 0x100_0000) % 16) as u8
}

/// The register values that read `count` sectors from `lba`.
pub open spec fn read_command(lba: u32, count: u8) -> ReadCommand {
    ReadCommand {
        drive_select: drive_select_value(lba),
        sector_count: count,
        lba_low: (lba % 0x100) as u8,
        lba_mid: ((lba / 0x100) % 0x100) as u8,
        lba_high: ((lba / 0x1_0000) % 0x100) as u8,
    }
}

/// The outcome of checking a read request: refused for an LBA beyond 28
/// bits, then for a zero count, and otherwise the command to send.
pub open spec fn checked_read(lba: u32, count: u8) -> Result<ReadCommand, AtaError> {
    if lba >= ATA_LBA_LIMIT {
        Err(AtaError::InvalidLba)
    } else if count == 0 {
        Err(AtaError::InvalidCount)
    } else {
        Ok(read_command(lba, count))
    }
}

/// Checks a request to read `count` sectors from `lba` and computes the
/// register values of the command.
pub fn prepare_read(lba: u32, count: u8) -> (r: Result<ReadCommand, AtaError>)
    ensures
        r == checked_read(lba, count),
{
    if lba >= ATA_LBA_LIMIT {
        return Err(AtaError::InvalidLba);
    }
    if count == 0 {
        return Err(AtaError::InvalidCount);
    }
    let drive_select = 0xE0u8 | ((lba >> 24) & 0x0f) as u8;
    let lba_low = lba as u8;
    let lba_mid = (lba >> 8) as u8;
    let lba_high = (lba >> 16) as u8;
    assert(drive_select == (0xE0 + (lba / 0x100_0000) % 16) as u8) by (bit_vector)
        requires
            drive_select == 0xE0u8 | ((lba >> 24u32) & 0x0fu32) as u8,
    ;
    assert(lba_low == (lba % 0x100) as u8) by (bit_vector)
        requires
            lba_low == lba as u8,
    ;
    assert(lba_mid == ((lba / 0x100) % 0x100) as u8) by (bit_vector)
        requires
            lba_mid == (lba >> 8u32) as u8,
    ;
    assert(lba_high == ((lba / 0x1_0000) % 0x100) as u8) by (bit_vector)
        requires
            lba_high == (lba >> 16u32) as u8,
    ;
    Ok(ReadCommand { drive_select, sector_count: count, lba_low, lba_mid, lba_high })
}

/// One action of a sector read on the primary channel, performed by the caller.
#[derive(Debug, Clone, Copy, PartialEq, Eq, Structural)]
pub enum AtaStep {
    /// Write the byte to the port.
    Write(u16, u8),
    /// Read the status register until its busy bit is clear.
    WaitNotBusy,
    /// Read the status register once and discard it.
    ReadStatus,
    /// Read the status register until its data-ready bit is set.
    WaitDataReady,
    /// Read the 256 words of the given sector of the transfer from the data port.
    ReadSector(u8),
}

/// The actions of a read, in order: reset the controller, clear the status,
/// issue the command, then for each sector wait for its data and read it.
/// The status read after the last action decides the outcome (`finish_read`).
pub open spec fn read_steps(c: ReadCommand) -> Seq<AtaStep> {
    seq![
        AtaStep::Write(ATA_DEVICE_CONTROL, 0x04),
        AtaStep::WaitNotBusy,
        AtaStep::Write(ATA_DEVICE_CONTROL, 0x00),
        AtaStep::WaitNotBusy,
        AtaStep::ReadStatus,
        AtaStep::WaitNotBusy,
        AtaStep::Write(ATA_DRIVE_SELECT, c.drive_select),
        AtaStep::Write(ATA_SECTOR_COUNT, c.sector_count),
        AtaStep::Write(ATA_LBA_LOW, c.lba_low),
        AtaStep::Write(ATA_LBA_MID, c.lba_mid),
        AtaStep::Write(ATA_LBA_HIGH, c.lba_high),
        AtaStep::Write(ATA_COMMAND, ATA_CMD_READ_SECTORS),
    ] + Seq::new(
        2 * c.sector_count as nat,
        |k: int|
            if k % 2 == 0 {
                AtaStep::WaitDataReady
            } else {
                AtaStep::ReadSector((k / 2) as u8)
            },
    )
}

impl ReadCommand {
    /// The actions that carry out this command, in the order they are made.
    pub fn steps(&self) -> (r: Vec<AtaStep>)
        ensures
            r@ == read_steps(*self),
    {
        let mut r: Vec<AtaStep> = Vec::new();
        r.push(AtaStep::Write(ATA_DEVICE_CONTROL, 0x04));
        r.push(AtaStep::WaitNotBusy);
        r.push(AtaStep::Write(ATA_DEVICE_CONTROL, 0x00));
        r.push(AtaStep::WaitNotBusy);
        r.push(AtaStep::ReadStatus);
        r.push(AtaStep::WaitNotBusy);
        r.push(AtaStep::Write(ATA_DRIVE_SELECT, self.drive_select));
        r.push(AtaStep::Write(ATA_SECTOR_COUNT, self.sector_count));
        r.push(AtaStep::Write(ATA_LBA_LOW, self.lba_low));
        r.push(AtaStep::Write(ATA_LBA_MID, self.lba_mid));
        r.push(AtaStep::Write(ATA_LBA_HIGH, self.lba_high));
        r.push(AtaStep::Write(ATA_COMMAND, ATA_CMD_READ_SECTORS));
        let ghost head = r@;
        assert(head =~= read_steps(*self).subrange(0, 12));
        let mut sector: u8 = 0;
        while sector < self.sector_count
            invariant
                head.len() == 12,
                sector <= self.sector_count,
                r@.len() == 12 + 2 * sector,
                forall|j: int| 0 <= j < 12 ==> r@[j] == head[j],
                forall|k: int| 0 <= k < 2 * sector ==> #[trigger] r@[12 + k] == if k % 2 == 0 {
                    AtaStep::WaitDataReady
                } else {
                    AtaStep::ReadSector((k / 2) as u8)
                },
            decreases self.sector_count - sector,
        {
            r.push(AtaStep::WaitDataReady);
            r.push(AtaStep::ReadSector(sector));
            proof {
                let k0 = 2 * sector as int;
                assert(k0 % 2 == 0);
                assert((k0 + 1) % 2 == 1 && (k0 + 1) / 2 == sector);
                assert(r@[12 + k0] == AtaStep::WaitDataReady);
                assert(r@[12 + k0 + 1] == AtaStep::ReadSector(sector));
            }
            sector = sector + 1;
        }
        assert forall|i: int| 0 <= i < r@.len() implies r@[i] == read_steps(*self)[i] by {
            if i < 12 {
                assert(head[i] == read_steps(*self).subrange(0, 12)[i]);
            } else {
                let k = i - 12;
                assert(r@[12 + k] == if k % 2 == 0 {
                    AtaStep::WaitDataReady
                } else {
                    AtaStep::ReadSector((k / 2) as u8)
                });
            }
        }
        assert(r@ =~= read_steps(*self));
        r
    }
}

/// The four LBA bytes that a command carries give back the whole LBA.
pub proof fn lemma_read_command_encodes_lba(lba: u32, count: u8)
    requires
        lba < ATA_LBA_LIMIT,
    ensures
        ({
            let c = read_command(lba, count);
            &&& lba == c.lba_low + 0x100 * c.lba_mid + 0x1_0000 * c.lba_high + 0x100_0000 * (c.drive_select - 0xE0)
            &&& c.drive_select & 0xF0 == 0xE0
        }),
{
    let c = read_command(lba, count);
    assert(lba == (lba % 0x100) + 0x100 * ((lba / 0x100) % 0x100) + 0x1_0000 * ((lba / 0x1_0000) % 0x100)
        + 0x100_0000 * ((lba / 0x100_0000) % 16)) by (bit_vector)
        requires
            lba < 0x1000_0000u32,
    ;
    assert((0xE0 + (lba / 0x100_0000) % 16) as u8 & 0xF0 == 0xE0) by (bit_vector);
}

/// The drive is busy: bit 7 of the status is set.
pub fn status_busy(status: u8) -> (r: bool)
    ensures
        r == (status & 0x80 != 0),
{
    status & 0x80 != 0
}

/// The drive has data ready to transfer: bit 3 of the status is set.
pub fn status_data_ready(status: u8) -> (r: bool)
    ensures
        r == (status & 0x08 != 0),
{
    status & 0x08 != 0
}

/// The outcome of a read given the status after the transfer: a device
/// fault when the error bit (bit 0) is set.
pub fn finish_read(status: u8) -> (r: Result<(), AtaError>)
    ensures
        r == (if status & 0x01 != 0 {
            Err(AtaError::DeviceFault)
        } else {
            Ok(())
        }),
{
    if status & 0x01 != 0 {
        return Err(AtaError::DeviceFault);
    }
    Ok(())
}

} // verus!
