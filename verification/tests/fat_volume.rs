use kboot::fat::{
    find_kernel_sectors, get_next_cluster_fat16, load_kernel_bin, load_kernel_to_memory,
    scan_directory_sector, BootSector, DirectoryScan, FatLayout, KERNEL_INCOMPLETE, KERNEL_NOT_FOUND, KERNEL_TOO_LARGE,
};

fn put_u16(s: &mut [u8; 512], off: usize, v: u16) {
    s[off] = (v & 0xff) as u8;
    s[off + 1] = (v >> 8) as u8;
}

fn put_u32(s: &mut [u8; 512], off: usize, v: u32) {
    for i in 0..4 {
        s[off + i] = (v >> (8 * i)) as u8;
    }
}

fn put_entry(s: &mut [u8; 512], index: usize, name: &[u8; 11], cluster: u16, size: u32) {
    let off = index * 32;
    s[off..off + 11].copy_from_slice(name);
    put_u16(s, off + 26, cluster);
    put_u32(s, off + 28, size);
}

fn boot_sector_bytes(sectors_per_cluster: u8, root_entry_count: u16) -> [u8; 512] {
    let mut s = [0u8; 512];
    s[0] = 0xEB;
    s[1] = 0x3C;
    s[2] = 0x90;
    s[3..11].copy_from_slice(b"MSWIN4.1");
    put_u16(&mut s, 11, 512);
    s[13] = sectors_per_cluster;
    put_u16(&mut s, 14, 1);
    s[16] = 2;
    put_u16(&mut s, 17, root_entry_count);
    put_u16(&mut s, 19, 64);
    s[21] = 0xF8;
    put_u16(&mut s, 22, 1);
    put_u16(&mut s, 24, 32);
    put_u16(&mut s, 26, 2);
    put_u32(&mut s, 28, 7);
    put_u32(&mut s, 32, 0);
    s[36] = 0x80;
    s[38] = 0x29;
    put_u32(&mut s, 39, 0x1234_5678);
    s[43..54].copy_from_slice(b"KBOOT      ");
    s[54..62].copy_from_slice(b"FAT16   ");
    s[62] = 0xFA;
    s[509] = 0xCC;
    put_u16(&mut s, 510, 0xAA55);
    s
}

/// A small volume: boot sector 0, FATs at 1 and 2, root directory at 3
/// (and 4 when there are 32 root entries), data after it. KERNEL.BIN is
/// 1000 bytes in clusters 2 and 3 (one sector per cluster).
fn volume(root_entry_count: u16) -> Vec<[u8; 512]> {
    let mut disk = vec![[0u8; 512]; 16];
    disk[0] = boot_sector_bytes(1, root_entry_count);
    let mut fat = [0u8; 512];
    put_u16(&mut fat, 0, 0xFFF8);
    put_u16(&mut fat, 2, 0xFFFF);
    put_u16(&mut fat, 4, 3);
    put_u16(&mut fat, 6, 0xFFFF);
    disk[1] = fat;
    disk[2] = fat;
    let mut root = [0u8; 512];
    put_entry(&mut root, 0, b"OLD     BIN", 9, 10);
    root[0] = 0xE5;
    put_entry(&mut root, 1, b"README  TXT", 5, 20);
    put_entry(&mut root, 2, b"KERNEL  BIN", 2, 1000);
    disk[3] = root;
    let data_start = if root_entry_count > 16 { 5 } else { 4 };
    disk[data_start] = [0xAA; 512];
    disk[data_start + 1] = [0xBB; 512];
    disk
}

#[test]
fn boot_sector_fields_are_read_little_endian() {
    let bytes = boot_sector_bytes(4, 512);
    let bs = BootSector::from_bytes(&bytes);
    assert_eq!(bs.jump, [0xEB, 0x3C, 0x90]);
    assert_eq!(&bs.oem_id, b"MSWIN4.1");
    assert_eq!(bs.bytes_per_sector, 512);
    assert_eq!(bs.sectors_per_cluster, 4);
    assert_eq!(bs.reserved_sectors, 1);
    assert_eq!(bs.num_fats, 2);
    assert_eq!(bs.root_entry_count, 512);
    assert_eq!(bs.total_sectors_16, 64);
    assert_eq!(bs.media, 0xF8);
    assert_eq!(bs.fat_size_sectors, 1);
    assert_eq!(bs.sectors_per_track, 32);
    assert_eq!(bs.num_heads, 2);
    assert_eq!(bs.hidden_sectors, 7);
    assert_eq!(bs.drive_number, 0x80);
    assert_eq!(bs.boot_signature, 0x29);
    assert_eq!(bs.volume_id, 0x1234_5678);
    assert_eq!(&bs.volume_label, b"KBOOT      ");
    assert_eq!(&bs.fs_type, b"FAT16   ");
    assert_eq!(bs.boot_code[0], 0xFA);
    assert_eq!(bs.boot_code[447], 0xCC);
    assert_eq!(bs.signature, 0xAA55);
}

#[test]
fn layout_places_root_directory_after_the_fats() {
    let bs = BootSector::from_bytes(&boot_sector_bytes(4, 512));
    // 512 entries of 32 bytes take 32 sectors.
    assert_eq!(
        bs.layout(),
        FatLayout { fat_start: 1, root_dir_start: 3, root_dir_sectors: 32, data_start: 35 }
    );
    // 17 entries need two sectors (rounded up).
    let bs = BootSector::from_bytes(&boot_sector_bytes(1, 17));
    assert_eq!(bs.layout().root_dir_sectors, 2);
    assert_eq!(bs.layout().data_start, 5);
}

#[test]
fn scan_skips_deleted_and_other_entries() {
    let disk = volume(16);
    assert_eq!(scan_directory_sector(&disk[3]), DirectoryScan::Found(2, 1000));
}

#[test]
fn scan_stops_at_end_of_directory() {
    let mut root = [0u8; 512];
    put_entry(&mut root, 0, b"README  TXT", 5, 20);
    put_entry(&mut root, 2, b"KERNEL  BIN", 2, 1000);
    // entry 1 starts with 0x00: the directory ends before KERNEL.BIN
    assert_eq!(scan_directory_sector(&root), DirectoryScan::EndOfDirectory);
}

#[test]
fn scan_of_full_sector_without_kernel_goes_on() {
    let mut root = [0u8; 512];
    for i in 0..16 {
        put_entry(&mut root, i, b"OTHER   BIN", 5, 20);
    }
    assert_eq!(scan_directory_sector(&root), DirectoryScan::NextSector);
}

#[test]
fn deleted_kernel_entry_is_not_found() {
    let mut root = [0u8; 512];
    put_entry(&mut root, 0, b"KERNEL  BIN", 2, 1000);
    root[0] = 0xE5;
    assert_eq!(scan_directory_sector(&root), DirectoryScan::EndOfDirectory);
}

#[test]
fn extension_must_match_too() {
    let mut root = [0u8; 512];
    put_entry(&mut root, 0, b"KERNEL  BIX", 2, 1000);
    put_entry(&mut root, 1, b"KERNEL  BIN", 7, 77);
    assert_eq!(scan_directory_sector(&root), DirectoryScan::Found(7, 77));
}

#[test]
fn find_kernel_in_first_root_sector() {
    let disk = volume(16);
    let d = &disk;
    let read = move |s: u32| d[s as usize];
    let bs = BootSector::from_bytes(&disk[0]);
    assert_eq!(find_kernel_sectors(&bs, read), Some((2, 1000)));
}

#[test]
fn find_kernel_in_second_root_sector() {
    let mut disk = volume(32);
    let mut first = [0u8; 512];
    for i in 0..16 {
        put_entry(&mut first, i, b"OTHER   BIN", 5, 20);
    }
    let kernel_sector = disk[3];
    disk[3] = first;
    disk[4] = kernel_sector;
    let d = &disk;
    let read = move |s: u32| d[s as usize];
    let bs = BootSector::from_bytes(&disk[0]);
    assert_eq!(find_kernel_sectors(&bs, read), Some((2, 1000)));
}

#[test]
fn find_kernel_reads_only_the_root_directory() {
    let mut disk = volume(16);
    let mut full = [0u8; 512];
    for i in 0..16 {
        put_entry(&mut full, i, b"OTHER   BIN", 5, 20);
    }
    disk[3] = full;
    // The next sector would hold KERNEL.BIN, but it is past the root directory.
    put_entry(&mut disk[4], 0, b"KERNEL  BIN", 2, 1000);
    let d = &disk;
    let read = move |s: u32| d[s as usize];
    let bs = BootSector::from_bytes(&disk[0]);
    assert_eq!(find_kernel_sectors(&bs, read), None);
}

#[test]
fn find_kernel_empty_root_directory() {
    let mut disk = volume(16);
    disk[3] = [0u8; 512];
    let d = &disk;
    let read = move |s: u32| d[s as usize];
    let bs = BootSector::from_bytes(&disk[0]);
    assert_eq!(find_kernel_sectors(&bs, read), None);
}

#[test]
fn next_cluster_reads_fat_entry() {
    let mut disk = volume(16);
    // cluster 300: byte 600 of the FAT, that is byte 88 of its second sector
    put_u16(&mut disk[2], 88, 0x1234);
    let d = &disk;
    let read = move |s: u32| d[s as usize];
    assert_eq!(get_next_cluster_fat16(2, 1, read), 3);
    assert_eq!(get_next_cluster_fat16(3, 1, read), 0xFFFF);
    assert_eq!(get_next_cluster_fat16(300, 1, read), 0x1234);
}

#[test]
fn load_follows_cluster_chain() {
    let disk = volume(16);
    let d = &disk;
    let read = move |s: u32| d[s as usize];
    let bs = BootSector::from_bytes(&disk[0]);
    let mut memory = vec![0x11u8; 2048];
    assert_eq!(load_kernel_to_memory(&bs, 2, 1000, &mut memory, read), 1000);
    assert!(memory[..512].iter().all(|&b| b == 0xAA));
    assert!(memory[512..1000].iter().all(|&b| b == 0xBB));
    assert!(memory[1000..].iter().all(|&b| b == 0x11));
}

#[test]
fn load_stops_at_end_of_chain() {
    let disk = volume(16);
    let d = &disk;
    let read = move |s: u32| d[s as usize];
    let bs = BootSector::from_bytes(&disk[0]);
    let mut memory = vec![0x11u8; 2048];
    // cluster 3 ends its chain: only one sector is there for a 1500-byte file
    assert_eq!(load_kernel_to_memory(&bs, 3, 1500, &mut memory, read), 512);
    assert!(memory[..512].iter().all(|&b| b == 0xBB));
    assert!(memory[512..].iter().all(|&b| b == 0x11));
}

#[test]
fn load_from_free_or_end_cluster_changes_nothing() {
    let disk = volume(16);
    let d = &disk;
    let read = move |s: u32| d[s as usize];
    let bs = BootSector::from_bytes(&disk[0]);
    let mut memory = vec![0x11u8; 1024];
    assert_eq!(load_kernel_to_memory(&bs, 0, 1000, &mut memory, read), 0);
    assert!(memory.iter().all(|&b| b == 0x11));
    assert_eq!(load_kernel_to_memory(&bs, 0xFFF8, 1000, &mut memory, read), 0);
    assert!(memory.iter().all(|&b| b == 0x11));
}

#[test]
fn load_with_several_sectors_per_cluster() {
    let mut disk = volume(16);
    disk[0] = boot_sector_bytes(2, 16);
    // cluster 2 is sectors 4 and 5, cluster 3 is sectors 6 and 7
    disk[6] = [0xCC; 512];
    disk[7] = [0xDD; 512];
    let d = &disk;
    let read = move |s: u32| d[s as usize];
    let bs = BootSector::from_bytes(&disk[0]);
    let mut memory = vec![0u8; 2048];
    assert_eq!(load_kernel_to_memory(&bs, 2, 1800, &mut memory, read), 1800);
    assert!(memory[..512].iter().all(|&b| b == 0xAA));
    assert!(memory[512..1024].iter().all(|&b| b == 0xBB));
    assert!(memory[1024..1536].iter().all(|&b| b == 0xCC));
    assert!(memory[1536..1800].iter().all(|&b| b == 0xDD));
    assert!(memory[1800..].iter().all(|&b| b == 0));
}

#[test]
fn load_with_zero_sectors_per_cluster_copies_nothing() {
    let mut disk = volume(16);
    disk[0] = boot_sector_bytes(0, 16);
    let d = &disk;
    let read = move |s: u32| d[s as usize];
    let bs = BootSector::from_bytes(&disk[0]);
    let mut memory = vec![0x11u8; 1024];
    assert_eq!(load_kernel_to_memory(&bs, 2, 1000, &mut memory, read), 0);
    assert!(memory.iter().all(|&b| b == 0x11));
}

#[test]
fn load_kernel_bin_loads_and_reports_size() {
    let disk = volume(16);
    let d = &disk;
    let read = move |s: u32| d[s as usize];
    let bs = BootSector::from_bytes(&disk[0]);
    let mut memory = vec![0u8; 4096];
    assert_eq!(load_kernel_bin(&bs, &mut memory, read), Ok(1000));
    assert_eq!(memory[0], 0xAA);
    assert_eq!(memory[511], 0xAA);
    assert_eq!(memory[512], 0xBB);
    assert_eq!(memory[999], 0xBB);
    assert_eq!(memory[1000], 0);
}

#[test]
fn load_kernel_bin_not_found() {
    let mut disk = volume(16);
    disk[3] = [0u8; 512];
    let d = &disk;
    let read = move |s: u32| d[s as usize];
    let bs = BootSector::from_bytes(&disk[0]);
    let mut memory = vec![7u8; 4096];
    assert_eq!(load_kernel_bin(&bs, &mut memory, read), Err("KERNEL.BIN not found"));
    assert_eq!(KERNEL_NOT_FOUND, "KERNEL.BIN not found");
    assert!(memory.iter().all(|&b| b == 7));
}

#[test]
fn load_kernel_bin_too_large_for_memory() {
    let disk = volume(16);
    let d = &disk;
    let read = move |s: u32| d[s as usize];
    let bs = BootSector::from_bytes(&disk[0]);
    let mut memory = vec![7u8; 999];
    assert_eq!(load_kernel_bin(&bs, &mut memory, read), Err(KERNEL_TOO_LARGE));
    assert!(memory.iter().all(|&b| b == 7));
    let mut memory = vec![7u8; 1000];
    assert_eq!(load_kernel_bin(&bs, &mut memory, read), Ok(1000));
}

#[test]
fn first_kernel_entry_wins() {
    let mut disk = volume(16);
    put_entry(&mut disk[3], 3, b"KERNEL  BIN", 9, 9);
    let d = &disk;
    let read = move |s: u32| d[s as usize];
    let bs = BootSector::from_bytes(&disk[0]);
    assert_eq!(find_kernel_sectors(&bs, read), Some((2, 1000)));
}

#[test]
fn last_fat_entry_of_a_sector_stays_in_it() {
    let mut disk = volume(16);
    // cluster 255: bytes 510 and 511 of the first FAT sector
    put_u16(&mut disk[1], 510, 0xBEEF);
    // cluster 256: bytes 0 and 1 of the second FAT sector
    put_u16(&mut disk[2], 0, 0x0102);
    let d = &disk;
    let read = move |s: u32| d[s as usize];
    assert_eq!(get_next_cluster_fat16(255, 1, read), 0xBEEF);
    assert_eq!(get_next_cluster_fat16(256, 1, read), 0x0102);
}

#[test]
fn cluster_one_wraps_to_sector_before_data() {
    // cluster 1 precedes cluster 2 by one cluster: with one sector per
    // cluster and data at sector 4, that is sector 3 (the root directory)
    let disk = volume(16);
    let d = &disk;
    let read = move |s: u32| d[s as usize];
    let bs = BootSector::from_bytes(&disk[0]);
    let mut memory = vec![0u8; 512];
    assert_eq!(load_kernel_to_memory(&bs, 1, 64, &mut memory, read), 64);
    assert_eq!(&memory[..64], &disk[3][..64]);
    assert!(memory[64..].iter().all(|&b| b == 0));
}

#[test]
fn load_kernel_bin_without_clusters_is_incomplete() {
    let mut disk = volume(16);
    put_entry(&mut disk[3], 2, b"KERNEL  BIN", 0, 100);
    let d = &disk;
    let read = move |s: u32| d[s as usize];
    let bs = BootSector::from_bytes(&disk[0]);
    let mut memory = vec![7u8; 100];
    assert_eq!(load_kernel_bin(&bs, &mut memory, read), Err(KERNEL_INCOMPLETE));
    assert!(memory.iter().all(|&b| b == 7));
}

#[test]
fn load_kernel_bin_short_chain_is_incomplete() {
    let mut disk = volume(16);
    // KERNEL.BIN claims 1500 bytes but its chain holds two sectors
    put_entry(&mut disk[3], 2, b"KERNEL  BIN", 2, 1500);
    let d = &disk;
    let read = move |s: u32| d[s as usize];
    let bs = BootSector::from_bytes(&disk[0]);
    let mut memory = vec![0u8; 2048];
    assert_eq!(
        load_kernel_bin(&bs, &mut memory, read),
        Err("KERNEL.BIN could not be loaded completely")
    );
    assert!(memory[..512].iter().all(|&b| b == 0xAA));
    assert!(memory[512..1024].iter().all(|&b| b == 0xBB));
    assert!(memory[1024..].iter().all(|&b| b == 0));
}

#[test]
fn empty_chain_reads_nothing() {
    let disk = volume(16);
    let bs = BootSector::from_bytes(&disk[0]);
    let read = |_s: u32| -> [u8; 512] { panic!("no sector should be read") };
    let mut memory = vec![5u8; 64];
    assert_eq!(load_kernel_to_memory(&bs, 0, 64, &mut memory, read), 0);
    assert_eq!(load_kernel_to_memory(&bs, 0xFFFF, 64, &mut memory, read), 0);
    assert_eq!(load_kernel_to_memory(&bs, 2, 0, &mut memory, read), 0);
    assert!(memory.iter().all(|&b| b == 5));
}

#[test]
fn search_reads_nothing_after_end_of_directory() {
    let mut disk = volume(32);
    disk[3] = [0u8; 512];
    let d = &disk;
    let read = move |s: u32| {
        assert_eq!(s, 3, "only the first root-directory sector should be read");
        d[s as usize]
    };
    let bs = BootSector::from_bytes(&disk[0]);
    assert_eq!(find_kernel_sectors(&bs, read), None);
}
