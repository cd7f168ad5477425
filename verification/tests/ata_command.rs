use kboot::ata::{
    finish_read, prepare_read, status_busy, status_data_ready, AtaError, AtaStep, ReadCommand, ATA_COMMAND,
    ATA_DEVICE_CONTROL, ATA_DRIVE_SELECT, ATA_LBA_HIGH, ATA_LBA_LOW, ATA_LBA_MID, ATA_SECTOR_COUNT,
};

#[test]
fn lba_beyond_28_bits_is_refused() {
    assert_eq!(prepare_read(0x1000_0000, 1), Err(AtaError::InvalidLba));
    assert_eq!(prepare_read(u32::MAX, 0), Err(AtaError::InvalidLba));
}

#[test]
fn zero_count_is_refused() {
    assert_eq!(prepare_read(0, 0), Err(AtaError::InvalidCount));
    assert_eq!(prepare_read(0x0FFF_FFFF, 0), Err(AtaError::InvalidCount));
}

#[test]
fn lba_is_split_over_the_registers() {
    assert_eq!(
        prepare_read(0x0ABC_DEF1, 3),
        Ok(ReadCommand { drive_select: 0xEA, sector_count: 3, lba_low: 0xF1, lba_mid: 0xDE, lba_high: 0xBC })
    );
    assert_eq!(
        prepare_read(0, 1),
        Ok(ReadCommand { drive_select: 0xE0, sector_count: 1, lba_low: 0, lba_mid: 0, lba_high: 0 })
    );
    assert_eq!(prepare_read(0x0FFF_FFFF, 255).unwrap().drive_select, 0xEF);
}

#[test]
fn read_steps_in_command_order() {
    let cmd = prepare_read(0x0012_3456, 2).unwrap();
    assert_eq!(
        cmd.steps(),
        vec![
            AtaStep::Write(ATA_DEVICE_CONTROL, 0x04),
            AtaStep::WaitNotBusy,
            AtaStep::Write(ATA_DEVICE_CONTROL, 0x00),
            AtaStep::WaitNotBusy,
            AtaStep::ReadStatus,
            AtaStep::WaitNotBusy,
            AtaStep::Write(ATA_DRIVE_SELECT, 0xE0),
            AtaStep::Write(ATA_SECTOR_COUNT, 2),
            AtaStep::Write(ATA_LBA_LOW, 0x56),
            AtaStep::Write(ATA_LBA_MID, 0x34),
            AtaStep::Write(ATA_LBA_HIGH, 0x12),
            AtaStep::Write(ATA_COMMAND, 0x20),
            AtaStep::WaitDataReady,
            AtaStep::ReadSector(0),
            AtaStep::WaitDataReady,
            AtaStep::ReadSector(1),
        ]
    );
}

#[test]
fn full_transfer_reads_every_sector() {
    let steps = prepare_read(7, 255).unwrap().steps();
    assert_eq!(steps.len(), 12 + 2 * 255);
    assert_eq!(steps[steps.len() - 1], AtaStep::ReadSector(254));
}

#[test]
fn status_bits() {
    assert!(status_busy(0x80));
    assert!(status_busy(0xD0));
    assert!(!status_busy(0x58));
    assert!(status_data_ready(0x58));
    assert!(!status_data_ready(0x50));
    assert_eq!(finish_read(0x50), Ok(()));
    assert_eq!(finish_read(0x51), Err(AtaError::DeviceFault));
}

#[test]
fn register_bytes_give_back_the_lba() {
    for lba in [0u32, 1, 0xFF, 0x100, 0x0ABC_DEF1, 0x0FFF_FFFF] {
        let c = prepare_read(lba, 1).unwrap();
        let back = c.lba_low as u32
            | (c.lba_mid as u32) << 8
            | (c.lba_high as u32) << 16
            | ((c.drive_select - 0xE0) as u32) << 24;
        assert_eq!(back, lba);
        assert_eq!(c.drive_select & 0xF0, 0xE0);
    }
}
