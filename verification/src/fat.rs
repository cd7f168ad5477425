//! FAT16 volume reading: the boot sector, the root-directory search for
//! `KERNEL.BIN`, and loading a file by following its cluster chain.
//!
//! Sectors are read through a function handed in by the caller. Contracts
//! speak of a disk image `disk: spec_fn(u32) -> [u8; 512]`, the sector
//! contents by number, and hold for every image with which the reader agrees
//! (`reads_disk`): a reader that always returns the same bytes for the same
//! sector pins every result down exactly. Each function asks the reader to
//! accept only the sectors it may read: the root directory for the search,
//! the FAT sectors and data sectors of clusters in use for loading (none at
//! all when the chain starts at a free or end-of-chain cluster or the size
//! is 0). The search also states its answer in terms of the replies the
//! reader actually gave, for any reader.
use vstd::prelude::*;
use vstd::arithmetic::div_mod::lemma_fundamental_div_mod_converse;

verus! {

/// Bytes in a sector.
pub const SECTOR_SIZE: usize = 512;

/// Bytes in a directory entry.
pub const DIR_ENTRY_SIZE: usize = 32;

/// Directory entries in a sector.
pub const ENTRIES_PER_SECTOR: usize = 16;

/// First byte of the entry that ends a directory.
pub const END_OF_DIRECTORY: u8 = 0x00;

/// First byte of a deleted entry.
pub const DELETED_ENTRY: u8 = 0xE5;

/// FAT16 entries from this value up mark the end of a cluster chain.
pub const END_OF_CHAIN: u16 = 0xFFF8;

/// Error of `load_kernel_bin` when the root directory has no `KERNEL.BIN`.
pub const KERNEL_NOT_FOUND: &'static str = "KERNEL.BIN not found";

/// Error of `load_kernel_bin` when the cluster chain of `KERNEL.BIN` ends
/// before the file's size is reached.
pub const KERNEL_INCOMPLETE: &'static str = "KERNEL.BIN could not be loaded completely";

/// Error of `load_kernel_bin` when `KERNEL.BIN` is larger than the memory it goes to.
pub const KERNEL_TOO_LARGE: &'static str = "KERNEL.BIN does not fit in memory";

/// The boot sector of a FAT volume: the BIOS parameter block and the
/// extended boot record, in their on-disk order.
#[derive(Debug, Clone, Copy)]
pub struct BootSector {
    /// Jump instruction to the boot code.
    pub jump: [u8; 3],
    /// OEM identifier.
    pub oem_id: [u8; 8],
    /// Bytes per sector.
    pub bytes_per_sector: u16,
    /// Sectors per cluster.
    pub sectors_per_cluster: u8,
    /// Sectors reserved at the start of the volume, the boot sector included.
    pub reserved_sectors: u16,
    /// Number of FAT copies.
    pub num_fats: u8,
    /// Number of entries in the root directory.
    pub root_entry_count: u16,
    /// Total sectors, when fewer than 65536.
    pub total_sectors_16: u16,
    /// Media descriptor.
    pub media: u8,
    /// Sectors per FAT.
    pub fat_size_sectors: u16,
    /// Sectors per track (for the BIOS).
    pub sectors_per_track: u16,
    /// Number of heads (for the BIOS).
    pub num_heads: u16,
    /// Sectors before the partition.
    pub hidden_sectors: u32,
    /// Total sectors, when 65536 or more.
    pub total_sectors_32: u32,
    /// BIOS drive number.
    pub drive_number: u8,
    /// Reserved.
    pub reserved1: u8,
    /// Extended boot signature (0x29 for FAT12/16).
    pub boot_signature: u8,
    /// Volume serial number.
    pub volume_id: u32,
    /// Volume label.
    pub volume_label: [u8; 11],
    /// File system type, such as `FAT16   `.
    pub fs_type: [u8; 8],
    /// Boot code.
    pub boot_code: [u8; 448],
    /// Boot sector signature, 0xAA55.
    pub signature: u16,
}

/// An entry of a FAT directory.
#[derive(Debug, Clone, Copy)]
pub struct DirectoryEntry {
    /// Name, padded with spaces.
    pub filename: [u8; 8],
    /// Extension, padded with spaces.
    pub extension: [u8; 3],
    /// Attribute flags (read-only, hidden, system, ...).
    pub attributes: u8,
    /// Reserved.
    pub reserved: [u8; 10],
    /// Time of the last change.
    pub time: u16,
    /// Date of the last change.
    pub date: u16,
    /// First cluster of the file.
    pub starting_cluster: u16,
    /// Size of the file in bytes.
    pub file_size: u32,
}

/// The little-endian value of two bytes.
pub open spec fn le_u16(b0: u8, b1: u8) -> u16 {
    (b0 + 0x100 * b1) as u16
}

/// The little-endian value of four bytes.
pub open spec fn le_u32(b0: u8, b1: u8, b2: u8, b3: u8) -> u32 {
    (b0 + 0x100 * b1 + 0x1_0000 * b2 + 0x100_0000 * b3) as u32
}

/// The little-endian `u16` at `off` of a sector.
fn u16_at(sector: &[u8; 512], off: usize) -> (r: u16)
    requires
        off + 1 < SECTOR_SIZE,
    ensures
        r == le_u16(sector[off as int], sector[off + 1]),
{
    let b0 = sector[off];
    let b1 = sector[off + 1];
    let r = (b0 as u16) | ((b1 as u16) << 8);
    assert(r == (b0 + 0x100 * b1) as u16) by (bit_vector)
        requires
            r == (b0 as u16) | ((b1 as u16) << 8u16),
    ;
    r
}

/// The little-endian `u32` at `off` of a sector.
fn u32_at(sector: &[u8; 512], off: usize) -> (r: u32)
    requires
        off + 3 < SECTOR_SIZE,
    ensures
        r == le_u32(sector[off as int], sector[off + 1], sector[off + 2], sector[off + 3]),
{
    let b0 = sector[off];
    let b1 = sector[off + 1];
    let b2 = sector[off + 2];
    let b3 = sector[off + 3];
    let r = (b0 as u32) | ((b1 as u32) << 8) | ((b2 as u32) << 16) | ((b3 as u32) << 24);
    assert(r == (b0 + 0x100 * b1 + 0x1_0000 * b2 + 0x100_0000 * b3) as u32) by (bit_vector)
        requires
            r == (b0 as u32) | ((b1 as u32) << 8u32) | ((b2 as u32) << 16u32) | ((b3 as u32) << 24u32),
    ;
    r
}

/// The `N` bytes at `off` of a sector.
fn bytes_at<const N: usize>(sector: &[u8; 512], off: usize) -> (r: [u8; N])
    requires
        off + N <= SECTOR_SIZE,
    ensures
        r@ == sector@.subrange(off as int, off + N),
{
    let mut r: [u8; N] = vstd::array::array_fill_for_copy_types(0u8);
    let mut i: usize = 0;
    while i < N
        invariant
            off + N <= SECTOR_SIZE,
            i <= N,
            r@.len() == N,
            forall|j: int| 0 <= j < i ==> r@[j] == sector@[off + j],
        decreases N - i,
    {
        r[i] = sector[off + i];
        i = i + 1;
    }
    assert(r@ =~= sector@.subrange(off as int, off + N));
    r
}

impl BootSector {
    /// Reads the boot sector's fields from its on-disk bytes (little-endian,
    /// no padding between fields).
    pub fn from_bytes(sector: &[u8; 512]) -> (r: BootSector)
        ensures
            r.jump@ == sector@.subrange(0, 3),
            r.oem_id@ == sector@.subrange(3, 11),
            r.bytes_per_sector == le_u16(sector[11], sector[12]),
            r.sectors_per_cluster == sector[13],
            r.reserved_sectors == le_u16(sector[14], sector[15]),
            r.num_fats == sector[16],
            r.root_entry_count == le_u16(sector[17], sector[18]),
            r.total_sectors_16 == le_u16(sector[19], sector[20]),
            r.media == sector[21],
            r.fat_size_sectors == le_u16(sector[22], sector[23]),
            r.sectors_per_track == le_u16(sector[24], sector[25]),
            r.num_heads == le_u16(sector[26], sector[27]),
            r.hidden_sectors == le_u32(sector[28], sector[29], sector[30], sector[31]),
            r.total_sectors_32 == le_u32(sector[32], sector[33], sector[34], sector[35]),
            r.drive_number == sector[36],
            r.reserved1 == sector[37],
            r.boot_signature == sector[38],
            r.volume_id == le_u32(sector[39], sector[40], sector[41], sector[42]),
            r.volume_label@ == sector@.subrange(43, 54),
            r.fs_type@ == sector@.subrange(54, 62),
            r.boot_code@ == sector@.subrange(62, 510),
            r.signature == le_u16(sector[510], sector[511]),
    {
        BootSector {
            jump: bytes_at::<3>(sector, 0),
            oem_id: bytes_at::<8>(sector, 3),
            bytes_per_sector: u16_at(sector, 11),
            sectors_per_cluster: sector[13],
            reserved_sectors: u16_at(sector, 14),
            num_fats: sector[16],
            root_entry_count: u16_at(sector, 17),
            total_sectors_16: u16_at(sector, 19),
            media: sector[21],
            fat_size_sectors: u16_at(sector, 22),
            sectors_per_track: u16_at(sector, 24),
            num_heads: u16_at(sector, 26),
            hidden_sectors: u32_at(sector, 28),
            total_sectors_32: u32_at(sector, 32),
            drive_number: sector[36],
            reserved1: sector[37],
            boot_signature: sector[38],
            volume_id: u32_at(sector, 39),
            volume_label: bytes_at::<11>(sector, 43),
            fs_type: bytes_at::<8>(sector, 54),
            boot_code: bytes_at::<448>(sector, 62),
            signature: u16_at(sector, 510),
        }
    }
}

/// First sector of the first FAT.
pub open spec fn fat_start_sector(bs: BootSector) -> u32 {
    bs.reserved_sectors as u32
}

/// Sectors taken by the root directory: 32 bytes per entry, rounded up to whole sectors.
pub open spec fn root_dir_sector_count(bs: BootSector) -> u32 {
    ((bs.root_entry_count * 32 + 511) / 512) as u32
}

/// First sector of the root directory, after the reserved sectors and every FAT copy.
pub open spec fn root_dir_start_sector(bs: BootSector) -> u32 {
    (bs.reserved_sectors + bs.num_fats * bs.fat_size_sectors) as u32
}

/// First sector of the data region (cluster 2), after the root directory.
pub open spec fn data_start_sector(bs: BootSector) -> u32 {
    (root_dir_start_sector(bs) + root_dir_sector_count(bs)) as u32
}

/// Where the regions of a FAT16 volume begin, in sectors.
#[derive(Debug, Clone, Copy, PartialEq, Eq, Structural)]
pub struct FatLayout {
    /// First sector of the first FAT.
    pub fat_start: u32,
    /// First sector of the root directory.
    pub root_dir_start: u32,
    /// Sectors taken by the root directory.
    pub root_dir_sectors: u32,
    /// First sector of the data region.
    pub data_start: u32,
}

impl BootSector {
    /// The sector numbers where the FAT, the root directory and the data begin,
    /// and the size of the root directory.
    pub fn layout(&self) -> (r: FatLayout)
        ensures
            r.fat_start == fat_start_sector(*self),
            r.root_dir_start == root_dir_start_sector(*self),
            r.root_dir_sectors == root_dir_sector_count(*self),
            r.data_start == data_start_sector(*self),
            r.root_dir_start + r.root_dir_sectors == r.data_start,
            r.data_start <= 0xFFFF + 0xFF * 0xFFFF + 0x1000,
    {
        let fat_start = self.reserved_sectors as u32;
        let root_dir_sectors = ((self.root_entry_count as u32 * 32) + 511) / 512;
        let nf = self.num_fats as u32;
        let fs = self.fat_size_sectors as u32;
        assert(nf * fs <= 0xFF * 0xFFFF) by (nonlinear_arith)
            requires
                nf <= 0xFF,
                fs <= 0xFFFF,
        ;
        let root_dir_start = fat_start + nf * fs;
        let data_start = root_dir_start + root_dir_sectors;
        FatLayout { fat_start, root_dir_start, root_dir_sectors, data_start }
    }
}

/// The outcome of looking through one sector of a directory.
#[derive(Debug, Clone, Copy, PartialEq, Eq, Structural)]
pub enum DirectoryScan {
    /// `KERNEL.BIN` is here, with its first cluster and its size.
    Found(u16, u32),
    /// An entry starting with 0x00 ends the directory before `KERNEL.BIN`.
    EndOfDirectory,
    /// Not in this sector; the directory goes on.
    NextSector,
}

/// `KERNEL  BIN`: the 8.3 directory name of `KERNEL.BIN`.
pub open spec fn kernel_file_name() -> Seq<u8> {
    seq![0x4Bu8, 0x45, 0x52, 0x4E, 0x45, 0x4C, 0x20, 0x20, 0x42, 0x49, 0x4E]
}

/// The entry at `off` holds the name and extension of `KERNEL.BIN`.
pub open spec fn entry_names_kernel(s: Seq<u8>, off: int) -> bool {
    s.subrange(off, off + 11) == kernel_file_name()
}

/// First cluster of the entry at `off` (bytes 26-27).
pub open spec fn entry_cluster(s: Seq<u8>, off: int) -> u16 {
    le_u16(s[off + 26], s[off + 27])
}

/// File size of the entry at `off` (bytes 28-31).
pub open spec fn entry_file_size(s: Seq<u8>, off: int) -> u32 {
    le_u32(s[off + 28], s[off + 29], s[off + 30], s[off + 31])
}

/// Looking through the entries of a directory sector from entry `i` on:
/// an entry whose first byte is 0x00 ends the directory, a deleted entry
/// (0xE5) is passed over, and the first entry named `KERNEL  BIN` is found.
pub open spec fn scan_entries(s: Seq<u8>, i: int) -> DirectoryScan
    decreases ENTRIES_PER_SECTOR - i,
{
    if i >= ENTRIES_PER_SECTOR {
        DirectoryScan::NextSector
    } else {
        let off = i * DIR_ENTRY_SIZE;
        if s[off] == END_OF_DIRECTORY {
            DirectoryScan::EndOfDirectory
        } else if s[off] == DELETED_ENTRY {
            scan_entries(s, i + 1)
        } else if entry_names_kernel(s, off) {
            DirectoryScan::Found(entry_cluster(s, off), entry_file_size(s, off))
        } else {
            scan_entries(s, i + 1)
        }
    }
}

/// The entry at `off` is named `KERNEL  BIN`.
fn names_kernel(sector: &[u8; 512], off: usize) -> (r: bool)
    requires
        off + 11 <= SECTOR_SIZE,
    ensures
        r == entry_names_kernel(sector@, off as int),
{
    let name: Vec<u8> = vec![0x4Bu8, 0x45, 0x52, 0x4E, 0x45, 0x4C, 0x20, 0x20, 0x42, 0x49, 0x4E];
    assert(name@ =~= kernel_file_name());
    let mut i: usize = 0;
    while i < 11
        invariant
            off + 11 <= SECTOR_SIZE,
            name@ == kernel_file_name(),
            i <= 11,
            forall|j: int| 0 <= j < i ==> sector@[off + j] == kernel_file_name()[j],
        decreases 11 - i,
    {
        if sector[off + i] != name[i] {
            assert(sector@.subrange(off as int, off + 11)[i as int] != kernel_file_name()[i as int]);
            return false;
        }
        i = i + 1;
    }
    assert(sector@.subrange(off as int, off + 11) =~= kernel_file_name());
    true
}

/// Looks through the 16 entries of a root-directory sector for `KERNEL.BIN`.
pub fn scan_directory_sector(sector: &[u8; 512]) -> (r: DirectoryScan)
    ensures
        r == scan_entries(sector@, 0),
{
    let mut entry_idx: usize = 0;
    while entry_idx < ENTRIES_PER_SECTOR
        invariant
            entry_idx <= ENTRIES_PER_SECTOR,
            scan_entries(sector@, 0) == scan_entries(sector@, entry_idx as int),
        decreases ENTRIES_PER_SECTOR - entry_idx,
    {
        let offset = entry_idx * DIR_ENTRY_SIZE;
        if sector[offset] == END_OF_DIRECTORY {
            return DirectoryScan::EndOfDirectory;
        }
        if sector[offset] != DELETED_ENTRY {
            if names_kernel(sector, offset) {
                let starting_cluster = u16_at(sector, offset + 26);
                let file_size = u32_at(sector, offset + 28);
                return DirectoryScan::Found(starting_cluster, file_size);
            }
        }
        entry_idx = entry_idx + 1;
    }
    DirectoryScan::NextSector
}

/// `replies` are replies the reader may give for the first `replies.len()`
/// sectors of the root directory, in order.
pub open spec fn root_dir_replies<F: Fn(u32) -> [u8; 512]>(read: F, bs: BootSector, replies: Seq<[u8; 512]>) -> bool {
    &&& replies.len() <= root_dir_sector_count(bs)
    &&& forall|i: int|
        0 <= i < replies.len() ==> #[trigger] read.ensures(((root_dir_start_sector(bs) + i) as u32,), replies[i])
}

/// `replies` are possible replies for the first root-directory sectors and
/// none of them ends the directory or holds `KERNEL.BIN`.
pub open spec fn search_continues_through<F: Fn(u32) -> [u8; 512]>(
    read: F,
    bs: BootSector,
    replies: Seq<[u8; 512]>,
) -> bool {
    &&& root_dir_replies(read, bs, replies)
    &&& forall|i: int| 0 <= i < replies.len() ==> #[trigger] scan_entries(replies[i]@, 0) == DirectoryScan::NextSector
}

/// The reader may be called with the next root-directory sector whenever
/// its replies for the sectors before it can all let the search go on; no
/// other call is asked of it.
pub open spec fn can_read_root_dir<F: Fn(u32) -> [u8; 512]>(read: F, bs: BootSector) -> bool {
    forall|replies: Seq<[u8; 512]>|
        #[trigger] search_continues_through(read, bs, replies) && replies.len() < root_dir_sector_count(bs)
            ==> read.requires(((root_dir_start_sector(bs) + replies.len()) as u32,))
}

/// `r` is what the search answers when the reader gave `replies` for the
/// root-directory sectors it read, in order: either the last reply decides
/// (found, or end of directory) and every earlier one let the search go on,
/// or every sector of the root directory was read without a decision and
/// the answer is `None`.
pub open spec fn search_answer<F: Fn(u32) -> [u8; 512]>(
    read: F,
    bs: BootSector,
    replies: Seq<[u8; 512]>,
    r: Option<(u16, u32)>,
) -> bool {
    if replies.len() > 0 && scan_entries(replies.last()@, 0) != DirectoryScan::NextSector {
        &&& root_dir_replies(read, bs, replies)
        &&& search_continues_through(read, bs, replies.drop_last())
        &&& r == match scan_entries(replies.last()@, 0) {
            DirectoryScan::Found(c, size) => Some((c, size)),
            _ => None,
        }
    } else {
        &&& search_continues_through(read, bs, replies)
        &&& replies.len() == root_dir_sector_count(bs)
        &&& r is None
    }
}

/// The reader may be called with the FAT sector of any cluster in use and
/// with any sector of such a cluster.
pub open spec fn can_read_file<F: Fn(u32) -> [u8; 512]>(read: F, bs: BootSector) -> bool {
    &&& forall|c: u16| cluster_in_use(c) ==> #[trigger] read.requires((fat_entry_sector(fat_start_sector(bs), c),))
    &&& forall|c: u16, k: int|
        cluster_in_use(c) && 0 <= k < bs.sectors_per_cluster ==> #[trigger] read.requires((cluster_sector(bs, c, k),))
}

/// Whatever the reader returns for sector `s` is `disk(s)`.
pub open spec fn reads_disk<F: Fn(u32) -> [u8; 512]>(read: F, disk: spec_fn(u32) -> [u8; 512]) -> bool {
    forall|s: u32, r: [u8; 512]| #[trigger] read.ensures((s,), r) ==> r == disk(s)
}

/// Searching the root directory from its `k`-th sector on: the first sector
/// that finds `KERNEL.BIN` or ends the directory decides; past the last
/// sector of the root directory there is no `KERNEL.BIN`.
pub open spec fn search_root_dir(bs: BootSector, disk: spec_fn(u32) -> [u8; 512], k: int) -> Option<(u16, u32)>
    decreases root_dir_sector_count(bs) - k,
{
    if k >= root_dir_sector_count(bs) {
        None
    } else {
        match scan_entries(disk((root_dir_start_sector(bs) + k) as u32)@, 0) {
            DirectoryScan::Found(c, size) => Some((c, size)),
            DirectoryScan::EndOfDirectory => None,
            DirectoryScan::NextSector => search_root_dir(bs, disk, k + 1),
        }
    }
}

/// First cluster and size of `KERNEL.BIN` in the root directory of the volume, if it is there.
pub open spec fn kernel_location(bs: BootSector, disk: spec_fn(u32) -> [u8; 512]) -> Option<(u16, u32)> {
    search_root_dir(bs, disk, 0)
}

/// Looks for `KERNEL.BIN` in the root directory, reading its sectors in
/// order, and returns its first cluster and its size.
pub fn find_kernel_sectors<F: Fn(u32) -> [u8; 512]>(boot_sector: &BootSector, read_sector_fn: F) -> (r: Option<(u16, u32)>)
    requires
        can_read_root_dir(read_sector_fn, *boot_sector),
    ensures
        exists|replies: Seq<[u8; 512]>| #[trigger] search_answer(read_sector_fn, *boot_sector, replies, r),
        forall|disk: spec_fn(u32) -> [u8; 512]| #[trigger] reads_disk(read_sector_fn, disk) ==> r == kernel_location(*boot_sector, disk),
{
    let layout = boot_sector.layout();
    let root_dir_start = layout.root_dir_start;
    let root_dir_sectors = layout.root_dir_sectors;
    let mut sector: u32 = 0;
    let ghost mut replies: Seq<[u8; 512]> = Seq::empty();
    assert(search_continues_through(read_sector_fn, *boot_sector, replies));
    while sector < root_dir_sectors
        invariant
            can_read_root_dir(read_sector_fn, *boot_sector),
            replies.len() == sector,
            search_continues_through(read_sector_fn, *boot_sector, replies),
            root_dir_start == root_dir_start_sector(*boot_sector),
            root_dir_sectors == root_dir_sector_count(*boot_sector),
            root_dir_start + root_dir_sectors <= u32::MAX,
            sector <= root_dir_sectors,
            forall|disk: spec_fn(u32) -> [u8; 512]| #[trigger] reads_disk(read_sector_fn, disk) ==>
                kernel_location(*boot_sector, disk) == search_root_dir(*boot_sector, disk, sector as int),
        decreases root_dir_sectors - sector,
    {
        assert(search_continues_through(read_sector_fn, *boot_sector, replies));
        let sector_data = read_sector_fn(root_dir_start + sector);
        let scan = scan_directory_sector(&sector_data);
        let ghost next_replies = replies.push(sector_data);
        assert(next_replies.drop_last() =~= replies);
        assert(next_replies.last() == sector_data);
        assert(root_dir_replies(read_sector_fn, *boot_sector, next_replies)) by {
            assert forall|i: int| 0 <= i < next_replies.len() implies #[trigger] read_sector_fn.ensures(
                ((root_dir_start_sector(*boot_sector) + i) as u32,),
                next_replies[i],
            ) by {
                if i < replies.len() {
                    assert(next_replies[i] == replies[i]);
                }
            }
        }
        assert forall|disk: spec_fn(u32) -> [u8; 512]| #[trigger] reads_disk(read_sector_fn, disk) implies
            search_root_dir(*boot_sector, disk, sector as int) == match scan {
                DirectoryScan::Found(c, size) => Some((c, size)),
                DirectoryScan::EndOfDirectory => None,
                DirectoryScan::NextSector => search_root_dir(*boot_sector, disk, sector + 1),
            } by {
            assert(sector_data == disk((root_dir_start + sector) as u32));
        }
        match scan {
            DirectoryScan::Found(starting_cluster, file_size) => {
                assert(search_answer(read_sector_fn, *boot_sector, next_replies, Some((starting_cluster, file_size))));
                return Some((starting_cluster, file_size));
            },
            DirectoryScan::EndOfDirectory => {
                assert(search_answer(read_sector_fn, *boot_sector, next_replies, None));
                return None;
            },
            DirectoryScan::NextSector => {},
        }
        proof {
            assert forall|i: int| 0 <= i < next_replies.len() implies #[trigger] scan_entries(next_replies[i]@, 0)
                == DirectoryScan::NextSector by {
                if i < replies.len() {
                    assert(next_replies[i] == replies[i]);
                }
            }
            replies = next_replies;
        }
        sector = sector + 1;
    }
    assert(search_answer(read_sector_fn, *boot_sector, replies, None));
    None
}

/// A cluster number that names data: neither free (0) nor an end-of-chain marker.
pub open spec fn cluster_in_use(c: u16) -> bool {
    c != 0 && c < END_OF_CHAIN
}

/// The sector that holds the FAT16 entry of `cluster` (two bytes per entry).
pub open spec fn fat_entry_sector(fat_start: u32, cluster: u16) -> u32 {
    (fat_start + (cluster * 2) / 512) as u32
}

/// Where in its sector the FAT16 entry of `cluster` begins.
pub open spec fn fat_entry_offset(cluster: u16) -> int {
    (cluster * 2) % 512
}

/// The cluster that follows `cluster` in its chain: its FAT16 entry, little-endian.
pub open spec fn next_cluster(disk: spec_fn(u32) -> [u8; 512], fat_start: u32, cluster: u16) -> u16 {
    let s = disk(fat_entry_sector(fat_start, cluster));
    let off = fat_entry_offset(cluster);
    le_u16(s[off], s[off + 1])
}

/// A FAT16 entry never straddles two sectors.
pub proof fn lemma_fat_entry_within_sector(cluster: u16)
    ensures
        0 <= fat_entry_offset(cluster),
        fat_entry_offset(cluster) + 1 < SECTOR_SIZE,
        fat_entry_offset(cluster) % 2 == 0,
{
}

/// Reads the FAT16 entry of `cluster`, the number of the cluster that follows it.
pub fn get_next_cluster_fat16<F: Fn(u32) -> [u8; 512]>(cluster: u16, fat_start_sector: u32, read_sector_fn: F) -> (r: u16)
    requires
        read_sector_fn.requires((fat_entry_sector(fat_start_sector, cluster),)),
        fat_start_sector + (cluster * 2) / 512 <= u32::MAX,
    ensures
        exists|sector: [u8; 512]|
            #[trigger] read_sector_fn.ensures((fat_entry_sector(fat_start_sector, cluster),), sector) && r == le_u16(
                sector[fat_entry_offset(cluster)],
                sector[fat_entry_offset(cluster) + 1],
            ),
        forall|disk: spec_fn(u32) -> [u8; 512]| #[trigger] reads_disk(read_sector_fn, disk) ==>
            r == next_cluster(disk, fat_start_sector, cluster),
{
    let fat_offset = cluster as u32 * 2;
    let fat_sector = fat_start_sector + (fat_offset / 512);
    let sector_offset = (fat_offset % 512) as usize;
    let sector_data = read_sector_fn(fat_sector);
    u16_at(&sector_data, sector_offset)
}

/// The `q`-th cluster of the chain that starts at `start` (the 0-th is `start`).
pub open spec fn chain_cluster(bs: BootSector, disk: spec_fn(u32) -> [u8; 512], start: u16, q: nat) -> u16
    decreases q,
{
    if q == 0 {
        start
    } else {
        next_cluster(disk, fat_start_sector(bs), chain_cluster(bs, disk, start, (q - 1) as nat))
    }
}

/// The clusters of the chain from the 0-th through the `q`-th all name data.
pub open spec fn chain_reaches(bs: BootSector, disk: spec_fn(u32) -> [u8; 512], start: u16, q: nat) -> bool
    decreases q,
{
    &&& cluster_in_use(chain_cluster(bs, disk, start, q))
    &&& (q == 0 || chain_reaches(bs, disk, start, (q - 1) as nat))
}

/// The `k`-th sector of `cluster`: clusters are numbered from 2 at the start
/// of the data region; the sector number is taken modulo 2^32.
pub open spec fn cluster_sector(bs: BootSector, cluster: u16, k: int) -> u32 {
    ((data_start_sector(bs) + (cluster - 2) * bs.sectors_per_cluster + k) % 0x1_0000_0000) as u32
}

/// Byte `j` of a file laid out along the chain from `start`: byte `j % 512`
/// of the file's sector number `j / 512`, which is sector `n % spc` of the
/// chain's cluster number `n / spc`.
pub open spec fn file_byte(bs: BootSector, disk: spec_fn(u32) -> [u8; 512], start: u16, j: int) -> u8 {
    let n = j / 512;
    let spc = bs.sectors_per_cluster as int;
    disk(cluster_sector(bs, chain_cluster(bs, disk, start, (n / spc) as nat), n % spc))[j % 512]
}

/// Byte `j` of a file of `size` bytes is loaded: it lies within the file and
/// the chain reaches its cluster without meeting a free or end-of-chain entry.
pub open spec fn file_byte_loaded(bs: BootSector, disk: spec_fn(u32) -> [u8; 512], start: u16, size: u32, j: int) -> bool {
    &&& 0 <= j < size
    &&& bs.sectors_per_cluster > 0
    &&& chain_reaches(bs, disk, start, ((j / 512) / (bs.sectors_per_cluster as int)) as nat)
}

/// Memory after loading a file of `size` bytes from the chain at `start` to
/// its beginning: the loaded bytes replaced, every other byte unchanged.
pub open spec fn loaded_memory(
    bs: BootSector,
    start: u16,
    size: u32,
    disk: spec_fn(u32) -> [u8; 512],
    memory: Seq<u8>,
) -> Seq<u8> {
    Seq::new(
        memory.len(),
        |j: int|
            if file_byte_loaded(bs, disk, start, size, j) {
                file_byte(bs, disk, start, j)
            } else {
                memory[j]
            },
    )
}

/// The loaded bytes of a file of `size` bytes are exactly its first `loaded` bytes.
pub open spec fn loaded_prefix(
    bs: BootSector,
    disk: spec_fn(u32) -> [u8; 512],
    start: u16,
    size: u32,
    loaded: int,
) -> bool {
    &&& 0 <= loaded <= size
    &&& forall|j: int| 0 <= j < loaded ==> #[trigger] file_byte_loaded(bs, disk, start, size, j)
    &&& loaded < size ==> !file_byte_loaded(bs, disk, start, size, loaded)
}

/// Every byte of a file of `size` bytes is reached by its cluster chain.
pub open spec fn file_fully_loaded(bs: BootSector, disk: spec_fn(u32) -> [u8; 512], start: u16, size: u32) -> bool {
    forall|j: int| 0 <= j < size ==> #[trigger] file_byte_loaded(bs, disk, start, size, j)
}

/// Memory with the first `loaded` bytes of the file in place.
spec fn memory_through(
    bs: BootSector,
    disk: spec_fn(u32) -> [u8; 512],
    start: u16,
    loaded: int,
    memory: Seq<u8>,
) -> Seq<u8> {
    Seq::new(memory.len(), |j: int| if j < loaded { file_byte(bs, disk, start, j) } else { memory[j] })
}

proof fn lemma_div_lt_iff(x: int, m: int, q: int)
    requires
        0 <= x,
        0 < m,
    ensures
        (x < m * q) == (x / m < q),
{
    vstd::arithmetic::div_mod::lemma_fundamental_div_mod(x, m);
    let d = x / m;
    let r = x % m;
    assert((x < m * q) == (d < q)) by (nonlinear_arith)
        requires
            x == m * d + r,
            0 <= r < m,
            m > 0,
    ;
}

/// Within a file, byte `j` belongs to a cluster before the `q`-th exactly
/// when it comes before the first byte of that cluster.
proof fn lemma_cluster_index(j: int, spc: int, q: int, sectors_done: int)
    requires
        0 <= j,
        0 < spc,
        sectors_done == spc * q,
    ensures
        (j < 512 * sectors_done) == ((j / 512) / spc < q),
{
    lemma_div_lt_iff(j, 512, sectors_done);
    lemma_div_lt_iff(j / 512, spc, q);
}

proof fn lemma_chain_reaches_prefix(bs: BootSector, disk: spec_fn(u32) -> [u8; 512], start: u16, p: nat, q: nat)
    requires
        chain_reaches(bs, disk, start, p),
        q <= p,
    ensures
        chain_reaches(bs, disk, start, q),
        cluster_in_use(chain_cluster(bs, disk, start, q)),
    decreases p,
{
    if q < p {
        lemma_chain_reaches_prefix(bs, disk, start, (p - 1) as nat, q);
    }
}

/// Copying `n` bytes of sector `k` of the chain's `q`-th cluster to the place
/// where the file has loaded `512 * (spc * q + k)` bytes extends the loaded part by `n`.
proof fn lemma_sector_copy(
    bs: BootSector,
    disk: spec_fn(u32) -> [u8; 512],
    start: u16,
    q: nat,
    sectors_done: int,
    k: int,
    loaded: int,
    n: int,
    data: [u8; 512],
    before: Seq<u8>,
    after: Seq<u8>,
    initial: Seq<u8>,
)
    requires
        bs.sectors_per_cluster > 0,
        sectors_done == bs.sectors_per_cluster * q,
        0 <= k < bs.sectors_per_cluster,
        loaded == 512 * (sectors_done + k),
        0 <= n <= 512,
        loaded + n <= initial.len(),
        data == disk(cluster_sector(bs, chain_cluster(bs, disk, start, q), k)),
        before == memory_through(bs, disk, start, loaded, initial),
        after.len() == initial.len(),
        forall|j: int| 0 <= j < after.len() ==> #[trigger] after[j] == if loaded <= j < loaded + n {
            data[j - loaded]
        } else {
            before[j]
        },
    ensures
        after == memory_through(bs, disk, start, loaded + n, initial),
{
    let spc = bs.sectors_per_cluster as int;
    assert forall|j: int| 0 <= j < after.len() implies #[trigger] after[j] == memory_through(
        bs,
        disk,
        start,
        loaded + n,
        initial,
    )[j] by {
        if loaded <= j < loaded + n {
            lemma_fundamental_div_mod_converse(j, 512, sectors_done + k, j - loaded);
            assert(sectors_done + k == q * spc + k) by (nonlinear_arith)
                requires
                    sectors_done == spc * q,
            ;
            lemma_fundamental_div_mod_converse(sectors_done + k, spc, q as int, k);
        }
    }
    assert(after =~= memory_through(bs, disk, start, loaded + n, initial));
}

/// When loading stops, the memory holds exactly the loaded bytes of the file.
proof fn lemma_load_complete(
    bs: BootSector,
    disk: spec_fn(u32) -> [u8; 512],
    start: u16,
    size: u32,
    q: nat,
    sectors_done: int,
    loaded: int,
    initial: Seq<u8>,
)
    requires
        bs.sectors_per_cluster > 0,
        sectors_done == bs.sectors_per_cluster * q,
        0 <= loaded <= size,
        size <= initial.len(),
        loaded <= 512 * sectors_done,
        q == 0 || chain_reaches(bs, disk, start, (q - 1) as nat),
        loaded == size || (loaded == 512 * sectors_done && !cluster_in_use(
            chain_cluster(bs, disk, start, q),
        )),
    ensures
        memory_through(bs, disk, start, loaded, initial) == loaded_memory(bs, start, size, disk, initial),
        loaded_prefix(bs, disk, start, size, loaded),
{
    let spc = bs.sectors_per_cluster as int;
    assert forall|j: int| 0 <= j < loaded implies #[trigger] file_byte_loaded(bs, disk, start, size, j) by {
        lemma_cluster_index(j, spc, q as int, sectors_done);
        let p = ((j / 512) / spc) as nat;
        lemma_chain_reaches_prefix(bs, disk, start, (q - 1) as nat, p);
    }
    if loaded < size {
        lemma_cluster_index(loaded, spc, q as int, sectors_done);
        let p = ((loaded / 512) / spc) as nat;
        if chain_reaches(bs, disk, start, p) {
            lemma_chain_reaches_prefix(bs, disk, start, p, q);
        }
    }
    assert forall|j: int| 0 <= j < initial.len() implies #[trigger] memory_through(
        bs,
        disk,
        start,
        loaded,
        initial,
    )[j] == loaded_memory(bs, start, size, disk, initial)[j] by {
        lemma_cluster_index(j, spc, q as int, sectors_done);
        let p = ((j / 512) / spc) as nat;
        if j < loaded {
            lemma_chain_reaches_prefix(bs, disk, start, (q - 1) as nat, p);
        } else if j < size {
            if chain_reaches(bs, disk, start, p) {
                lemma_chain_reaches_prefix(bs, disk, start, p, q);
            }
        }
    }
    assert(memory_through(bs, disk, start, loaded, initial) =~= loaded_memory(
        bs,
        start,
        size,
        disk,
        initial,
    ));
}

/// The sector number of the `k`-th sector of `cluster`, wrapping modulo 2^32.
fn sector_of_cluster(data_start: u32, cluster: u16, sectors_per_cluster: u32, k: u32) -> (r: u32)
    requires
        data_start <= 0xFFFF + 0xFF * 0xFFFF + 0x1000,
        sectors_per_cluster <= 0xFF,
        k < sectors_per_cluster,
    ensures
        r == ((data_start + (cluster - 2) * sectors_per_cluster + k) % 0x1_0000_0000) as u32,
{
    let c = cluster as i64 - 2;
    let spc = sectors_per_cluster as i64;
    assert(-2 * 0xFF <= c * spc <= 0xFFFF * 0xFF) by (nonlinear_arith)
        requires
            -2 <= c <= 0xFFFF,
            0 <= spc <= 0xFF,
    ;
    let v: i64 = data_start as i64 + c * spc + k as i64;
    if v < 0 {
        proof {
            lemma_fundamental_div_mod_converse(v as int, 0x1_0000_0000, -1, v + 0x1_0000_0000);
        }
        (v + 0x1_0000_0000) as u32
    } else {
        proof {
            lemma_fundamental_div_mod_converse(v as int, 0x1_0000_0000, 0, v as int);
        }
        v as u32
    }
}

/// Loads a file of `file_size` bytes whose first cluster is `starting_cluster`
/// into `memory`, from its beginning: the sectors of each cluster in order,
/// following the chain through the FAT until an entry that is free or marks
/// the end of the chain, or until `file_size` bytes are in place. The last
/// sector copied may be partial; bytes of `memory` past the loaded ones are
/// left as they were. Returns the number of bytes loaded, which falls short
/// of `file_size` when the chain ends first.
pub fn load_kernel_to_memory<F: Fn(u32) -> [u8; 512] + Copy>(
    boot_sector: &BootSector,
    starting_cluster: u16,
    file_size: u32,
    memory: &mut Vec<u8>,
    read_sector_fn: F,
) -> (loaded: u32)
    requires
        cluster_in_use(starting_cluster) && file_size > 0 ==> can_read_file(read_sector_fn, *boot_sector),
        file_size <= old(memory)@.len(),
    ensures
        final(memory)@.len() == old(memory)@.len(),
        loaded <= file_size,
        forall|disk: spec_fn(u32) -> [u8; 512]| #[trigger] reads_disk(read_sector_fn, disk) ==> {
            &&& final(memory)@ == loaded_memory(*boot_sector, starting_cluster, file_size, disk, old(memory)@)
            &&& loaded_prefix(*boot_sector, disk, starting_cluster, file_size, loaded as int)
        },
{
    let ghost bs = *boot_sector;
    let ghost initial = memory@;
    let layout = boot_sector.layout();
    let fat_start = layout.fat_start;
    let data_start = layout.data_start;
    let sectors_per_cluster = boot_sector.sectors_per_cluster as u32;
    if sectors_per_cluster == 0 {
        // Clusters without sectors: no byte of the file can be copied.
        assert forall|disk: spec_fn(u32) -> [u8; 512]| #[trigger] reads_disk(read_sector_fn, disk) implies
            memory@ == loaded_memory(bs, starting_cluster, file_size, disk, initial) && loaded_prefix(
                bs,
                disk,
                starting_cluster,
                file_size,
                0,
            ) by {
            assert(memory@ =~= loaded_memory(bs, starting_cluster, file_size, disk, initial));
        }
        return 0;
    }
    let mut current_cluster = starting_cluster;
    let mut bytes_loaded: u32 = 0;
    let ghost mut q: nat = 0;
    let ghost mut sectors_done: int = 0;
    assert forall|disk: spec_fn(u32) -> [u8; 512]| #[trigger] reads_disk(read_sector_fn, disk) implies
        memory@ == memory_through(bs, disk, starting_cluster, 0, initial) by {
        assert(memory@ =~= memory_through(bs, disk, starting_cluster, 0, initial));
    }
    while current_cluster != 0 && current_cluster < END_OF_CHAIN && bytes_loaded < file_size
        invariant
            cluster_in_use(starting_cluster) && file_size > 0 ==> can_read_file(read_sector_fn, bs),
            q > 0 ==> can_read_file(read_sector_fn, bs),
            q == 0 ==> current_cluster == starting_cluster,
            bs == *boot_sector,
            fat_start == fat_start_sector(bs),
            data_start == data_start_sector(bs),
            data_start <= 0xFFFF + 0xFF * 0xFFFF + 0x1000,
            fat_start <= 0xFFFF,
            sectors_per_cluster == bs.sectors_per_cluster,
            sectors_per_cluster > 0,
            file_size <= initial.len(),
            memory@.len() == initial.len(),
            sectors_done == sectors_per_cluster * q,
            bytes_loaded <= file_size,
            bytes_loaded <= 512 * sectors_done,
            bytes_loaded < file_size ==> bytes_loaded == 512 * sectors_done,
            forall|disk: spec_fn(u32) -> [u8; 512]| #[trigger] reads_disk(read_sector_fn, disk) ==> {
                &&& current_cluster == chain_cluster(bs, disk, starting_cluster, q)
                &&& (q == 0 || chain_reaches(bs, disk, starting_cluster, (q - 1) as nat))
                &&& memory@ == memory_through(bs, disk, starting_cluster, bytes_loaded as int, initial)
            },
        decreases file_size - bytes_loaded,
    {
        let ghost loaded_at_start = bytes_loaded;
        assert(can_read_file(read_sector_fn, bs));
        let mut sector_offset: u32 = 0;
        while sector_offset < sectors_per_cluster && bytes_loaded < file_size
            invariant
                can_read_file(read_sector_fn, bs),
                cluster_in_use(current_cluster),
                bs == *boot_sector,
                data_start == data_start_sector(bs),
                data_start <= 0xFFFF + 0xFF * 0xFFFF + 0x1000,
                sectors_per_cluster == bs.sectors_per_cluster,
                sectors_per_cluster > 0,
                file_size <= initial.len(),
                memory@.len() == initial.len(),
                sectors_done == sectors_per_cluster * q,
                sector_offset <= sectors_per_cluster,
                loaded_at_start <= bytes_loaded <= file_size,
                sector_offset > 0 ==> loaded_at_start < bytes_loaded,
                bytes_loaded <= 512 * (sectors_done + sector_offset),
                bytes_loaded < file_size ==> bytes_loaded == 512 * (sectors_done + sector_offset),
                forall|disk: spec_fn(u32) -> [u8; 512]| #[trigger] reads_disk(read_sector_fn, disk) ==> {
                    &&& current_cluster == chain_cluster(bs, disk, starting_cluster, q)
                    &&& chain_reaches(bs, disk, starting_cluster, q)
                    &&& memory@ == memory_through(bs, disk, starting_cluster, bytes_loaded as int, initial)
                },
            decreases sectors_per_cluster - sector_offset,
        {
            let sector = sector_of_cluster(data_start, current_cluster, sectors_per_cluster, sector_offset);
            assert(sector == cluster_sector(bs, current_cluster, sector_offset as int));
            assert(read_sector_fn.requires((cluster_sector(bs, current_cluster, sector_offset as int),)));
            let sector_data = read_sector_fn(sector);
            let remaining = file_size - bytes_loaded;
            let bytes_to_copy: u32 = if remaining < 512 {
                remaining
            } else {
                512
            };
            let ghost before = memory@;
            let base = bytes_loaded as usize;
            let count = bytes_to_copy as usize;
            let mut i: usize = 0;
            while i < count
                invariant
                    base + count <= memory@.len(),
                    base + count <= file_size,
                    count <= 512,
                    i <= count,
                    memory@.len() == before.len(),
                    forall|j: int| 0 <= j < memory@.len() ==> #[trigger] memory@[j] == if base <= j < base + i {
                        sector_data[j - base]
                    } else {
                        before[j]
                    },
                decreases count - i,
            {
                memory[base + i] = sector_data[i];
                i = i + 1;
            }
            assert forall|disk: spec_fn(u32) -> [u8; 512]| #[trigger] reads_disk(read_sector_fn, disk) implies
                memory@ == memory_through(bs, disk, starting_cluster, bytes_loaded + bytes_to_copy, initial) by {
                lemma_sector_copy(
                    bs,
                    disk,
                    starting_cluster,
                    q,
                    sectors_done,
                    sector_offset as int,
                    bytes_loaded as int,
                    bytes_to_copy as int,
                    sector_data,
                    before,
                    memory@,
                    initial,
                );
            }
            bytes_loaded = bytes_loaded + bytes_to_copy;
            sector_offset = sector_offset + 1;
        }
        assert(read_sector_fn.requires((fat_entry_sector(fat_start_sector(bs), current_cluster),)));
        let next = get_next_cluster_fat16(current_cluster, fat_start, read_sector_fn);
        current_cluster = next;
        proof {
            assert(sectors_done + sectors_per_cluster == sectors_per_cluster * (q + 1)) by (nonlinear_arith)
                requires
                    sectors_done == sectors_per_cluster * q,
            ;
            sectors_done = sectors_done + sectors_per_cluster;
            q = q + 1;
        }
    }
    assert forall|disk: spec_fn(u32) -> [u8; 512]| #[trigger] reads_disk(read_sector_fn, disk) implies
        memory@ == loaded_memory(bs, starting_cluster, file_size, disk, initial) && loaded_prefix(
            bs,
            disk,
            starting_cluster,
            file_size,
            bytes_loaded as int,
        ) by {
        lemma_load_complete(
            bs,
            disk,
            starting_cluster,
            file_size,
            q,
            sectors_done,
            bytes_loaded as int,
            initial,
        );
    }
    bytes_loaded
}

/// What loading `KERNEL.BIN` gives: its size once it is in memory, or why not.
pub open spec fn load_outcome(
    bs: BootSector,
    disk: spec_fn(u32) -> [u8; 512],
    memory: Seq<u8>,
) -> (Result<u32, &'static str>, Seq<u8>) {
    match kernel_location(bs, disk) {
        None => (Err(KERNEL_NOT_FOUND), memory),
        Some((cluster, size)) => if size <= memory.len() {
            if file_fully_loaded(bs, disk, cluster, size) {
                (Ok(size), loaded_memory(bs, cluster, size, disk, memory))
            } else {
                (Err(KERNEL_INCOMPLETE), loaded_memory(bs, cluster, size, disk, memory))
            }
        } else {
            (Err(KERNEL_TOO_LARGE), memory)
        },
    }
}

/// Finds `KERNEL.BIN` in the root directory and loads it to the beginning of
/// `memory`; returns its size once every byte is in place. Fails, leaving
/// `memory` as it was, when the file is not there or is larger than
/// `memory`; fails after loading what its cluster chain holds when that
/// chain ends before the file's size.
pub fn load_kernel_bin<F: Fn(u32) -> [u8; 512] + Copy>(
    boot_sector: &BootSector,
    memory: &mut Vec<u8>,
    read_sector_fn: F,
) -> (r: Result<u32, &'static str>)
    requires
        can_read_root_dir(read_sector_fn, *boot_sector),
        can_read_file(read_sector_fn, *boot_sector),
    ensures
        final(memory)@.len() == old(memory)@.len(),
        forall|disk: spec_fn(u32) -> [u8; 512]| #[trigger] reads_disk(read_sector_fn, disk) ==>
            (r, final(memory)@) == load_outcome(*boot_sector, disk, old(memory)@),
{
    if let Some((starting_cluster, file_size)) = find_kernel_sectors(boot_sector, read_sector_fn) {
        if file_size as usize > memory.len() {
            return Err(KERNEL_TOO_LARGE);
        }
        let loaded = load_kernel_to_memory(boot_sector, starting_cluster, file_size, memory, read_sector_fn);
        if loaded < file_size {
            return Err(KERNEL_INCOMPLETE);
        }
        Ok(file_size)
    } else {
        Err(KERNEL_NOT_FOUND)
    }
}

/// The directory bytes of the `k`-th sector of the root directory.
pub open spec fn root_dir_sector(bs: BootSector, disk: spec_fn(u32) -> [u8; 512], k: int) -> Seq<u8> {
    disk((root_dir_start_sector(bs) + k) as u32)@
}

/// Entry `i` of root-directory sector `k` is named `KERNEL  BIN` and gives
/// `cluster` as its first cluster and `size` as its size.
pub open spec fn root_entry_is_kernel(
    bs: BootSector,
    disk: spec_fn(u32) -> [u8; 512],
    k: int,
    i: int,
    cluster: u16,
    size: u32,
) -> bool {
    let s = root_dir_sector(bs, disk, k);
    &&& 0 <= k < root_dir_sector_count(bs)
    &&& 0 <= i < ENTRIES_PER_SECTOR
    &&& entry_names_kernel(s, i * DIR_ENTRY_SIZE)
    &&& entry_cluster(s, i * DIR_ENTRY_SIZE) == cluster
    &&& entry_file_size(s, i * DIR_ENTRY_SIZE) == size
}

proof fn lemma_scan_found_entry(s: Seq<u8>, i: int) -> (j: int)
    requires
        s.len() == SECTOR_SIZE,
        0 <= i,
        scan_entries(s, i) is Found,
    ensures
        i <= j < ENTRIES_PER_SECTOR,
        entry_names_kernel(s, j * DIR_ENTRY_SIZE),
        scan_entries(s, i) == DirectoryScan::Found(
            entry_cluster(s, j * DIR_ENTRY_SIZE),
            entry_file_size(s, j * DIR_ENTRY_SIZE),
        ),
    decreases ENTRIES_PER_SECTOR - i,
{
    let off = i * DIR_ENTRY_SIZE;
    if s[off] != DELETED_ENTRY && entry_names_kernel(s, off) {
        i
    } else {
        lemma_scan_found_entry(s, i + 1)
    }
}

proof fn lemma_search_found_entry(bs: BootSector, disk: spec_fn(u32) -> [u8; 512], k: int) -> (w: (int, int))
    requires
        0 <= k,
        search_root_dir(bs, disk, k) is Some,
    ensures
        k <= w.0,
        root_entry_is_kernel(
            bs,
            disk,
            w.0,
            w.1,
            search_root_dir(bs, disk, k).unwrap().0,
            search_root_dir(bs, disk, k).unwrap().1,
        ),
    decreases root_dir_sector_count(bs) - k,
{
    let s = root_dir_sector(bs, disk, k);
    if scan_entries(s, 0) is Found {
        let j = lemma_scan_found_entry(s, 0);
        (k, j)
    } else {
        lemma_search_found_entry(bs, disk, k + 1)
    }
}

/// What the search finds is a root-directory entry named `KERNEL  BIN`,
/// with the first cluster and the size that entry gives.
pub proof fn lemma_kernel_location_sound(bs: BootSector, disk: spec_fn(u32) -> [u8; 512])
    ensures
        kernel_location(bs, disk) matches Some((cluster, size)) ==> exists|k: int, i: int|
            #[trigger] root_entry_is_kernel(bs, disk, k, i, cluster, size),
{
    if kernel_location(bs, disk) is Some {
        let w = lemma_search_found_entry(bs, disk, 0);
        assert(root_entry_is_kernel(
            bs,
            disk,
            w.0,
            w.1,
            kernel_location(bs, disk).unwrap().0,
            kernel_location(bs, disk).unwrap().1,
        ));
    }
}

/// Entry `j` of a directory sector decides the search: it ends the
/// directory or is named `KERNEL  BIN`.
pub open spec fn entry_decides(s: Seq<u8>, j: int) -> bool {
    s[j * DIR_ENTRY_SIZE] == END_OF_DIRECTORY || entry_names_kernel(s, j * DIR_ENTRY_SIZE)
}

/// No entry from `i0` up to, not including, `i` decides the search.
spec fn none_decides_between(s: Seq<u8>, i0: int, i: int) -> bool {
    forall|j: int| i0 <= j < i ==> !#[trigger] entry_decides(s, j)
}

proof fn lemma_kernel_name_first_byte(s: Seq<u8>, off: int)
    requires
        entry_names_kernel(s, off),
        0 <= off,
        off + 11 <= s.len(),
    ensures
        s[off] == 0x4B,
{
    assert(s.subrange(off, off + 11)[0] == s[off]);
}

proof fn lemma_scan_finds(s: Seq<u8>, i0: int, i: int)
    requires
        s.len() == SECTOR_SIZE,
        0 <= i0 <= i < ENTRIES_PER_SECTOR,
        entry_names_kernel(s, i * DIR_ENTRY_SIZE),
        none_decides_between(s, i0, i),
    ensures
        scan_entries(s, i0) == DirectoryScan::Found(
            entry_cluster(s, i * DIR_ENTRY_SIZE),
            entry_file_size(s, i * DIR_ENTRY_SIZE),
        ),
    decreases i - i0,
{
    if i0 < i {
        assert(!entry_decides(s, i0));
        lemma_scan_finds(s, i0 + 1, i);
    } else {
        lemma_kernel_name_first_byte(s, i * DIR_ENTRY_SIZE);
    }
}

proof fn lemma_scan_continues(s: Seq<u8>, i0: int)
    requires
        s.len() == SECTOR_SIZE,
        0 <= i0,
        none_decides_between(s, i0, ENTRIES_PER_SECTOR as int),
    ensures
        scan_entries(s, i0) == DirectoryScan::NextSector,
    decreases ENTRIES_PER_SECTOR - i0,
{
    if i0 < ENTRIES_PER_SECTOR {
        assert(!entry_decides(s, i0));
        lemma_scan_continues(s, i0 + 1);
    }
}

/// No entry before entry `i` of root-directory sector `k`, in directory
/// order, ends the directory or is named `KERNEL  BIN`.
pub open spec fn no_entry_decides_before(bs: BootSector, disk: spec_fn(u32) -> [u8; 512], k: int, i: int) -> bool {
    &&& forall|k2: int, j: int|
        0 <= k2 < k && 0 <= j < ENTRIES_PER_SECTOR ==> !#[trigger] entry_decides(root_dir_sector(bs, disk, k2), j)
    &&& forall|j: int| 0 <= j < i ==> !#[trigger] entry_decides(root_dir_sector(bs, disk, k), j)
}

proof fn lemma_search_finds(
    bs: BootSector,
    disk: spec_fn(u32) -> [u8; 512],
    k0: int,
    k: int,
    i: int,
    cluster: u16,
    size: u32,
)
    requires
        0 <= k0 <= k,
        root_entry_is_kernel(bs, disk, k, i, cluster, size),
        no_entry_decides_before(bs, disk, k, i),
    ensures
        search_root_dir(bs, disk, k0) == Some((cluster, size)),
    decreases k - k0,
{
    let s = root_dir_sector(bs, disk, k0);
    if k0 < k {
        assert(none_decides_between(s, 0, ENTRIES_PER_SECTOR as int)) by {
            assert forall|j: int| 0 <= j < ENTRIES_PER_SECTOR implies !#[trigger] entry_decides(s, j) by {
                assert(!entry_decides(root_dir_sector(bs, disk, k0), j));
            }
        }
        lemma_scan_continues(s, 0);
        lemma_search_finds(bs, disk, k0 + 1, k, i, cluster, size);
    } else {
        assert(none_decides_between(s, 0, i)) by {
            assert forall|j: int| 0 <= j < i implies !#[trigger] entry_decides(s, j) by {
                assert(!entry_decides(root_dir_sector(bs, disk, k), j));
            }
        }
        lemma_scan_finds(s, 0, i);
    }
}

/// The first `KERNEL  BIN` entry of the root directory, when no
/// end-of-directory entry comes before it, is the one the search returns:
/// its first cluster and its size.
pub proof fn lemma_kernel_location_complete(
    bs: BootSector,
    disk: spec_fn(u32) -> [u8; 512],
    k: int,
    i: int,
    cluster: u16,
    size: u32,
)
    requires
        root_entry_is_kernel(bs, disk, k, i, cluster, size),
        no_entry_decides_before(bs, disk, k, i),
    ensures
        kernel_location(bs, disk) == Some((cluster, size)),
{
    lemma_search_finds(bs, disk, 0, k, i, cluster, size);
}

/// Loading never changes memory at or past the file's size, and changes
/// nothing at all when the chain starts at a free or end-of-chain cluster.
pub proof fn lemma_load_stays_within_file(
    bs: BootSector,
    start: u16,
    size: u32,
    disk: spec_fn(u32) -> [u8; 512],
    memory: Seq<u8>,
)
    ensures
        loaded_memory(bs, start, size, disk, memory).len() == memory.len(),
        forall|j: int| size <= j < memory.len() ==> #[trigger] loaded_memory(bs, start, size, disk, memory)[j] == memory[j],
        !cluster_in_use(start) ==> loaded_memory(bs, start, size, disk, memory) == memory,
{
    if !cluster_in_use(start) {
        assert forall|j: int| 0 <= j < memory.len() implies #[trigger] loaded_memory(bs, start, size, disk, memory)[j]
            == memory[j] by {
            if file_byte_loaded(bs, disk, start, size, j) {
                let p = ((j / 512) / (bs.sectors_per_cluster as int)) as nat;
                lemma_chain_reaches_prefix(bs, disk, start, p, 0);
            }
        }
        assert(loaded_memory(bs, start, size, disk, memory) =~= memory);
    }
}

/// Two directory sectors agree in every byte that the search reads: all
/// but bytes 11-25 of each entry (attributes, reserved bytes, time and date).
pub open spec fn entries_agree_for_search(s1: Seq<u8>, s2: Seq<u8>) -> bool {
    &&& s1.len() == SECTOR_SIZE
    &&& s2.len() == SECTOR_SIZE
    &&& forall|o: int|
        0 <= o < SECTOR_SIZE && (o % 32 < 11 || o % 32 >= 26) ==> #[trigger] s1[o] == s2[o]
}

proof fn lemma_entry_bytes_agree(s1: Seq<u8>, s2: Seq<u8>, i: int, t: int)
    requires
        entries_agree_for_search(s1, s2),
        0 <= i < ENTRIES_PER_SECTOR,
        0 <= t < 11 || 26 <= t < 32,
    ensures
        s1[i * DIR_ENTRY_SIZE + t] == s2[i * DIR_ENTRY_SIZE + t],
{
    lemma_fundamental_div_mod_converse(i * 32 + t, 32, i, t);
    assert(s1[i * 32 + t] == s2[i * 32 + t]);
}

proof fn lemma_scan_same(s1: Seq<u8>, s2: Seq<u8>, i: int)
    requires
        entries_agree_for_search(s1, s2),
        0 <= i,
    ensures
        scan_entries(s1, i) == scan_entries(s2, i),
    decreases ENTRIES_PER_SECTOR - i,
{
    if i < ENTRIES_PER_SECTOR {
        let off = i * DIR_ENTRY_SIZE;
        assert forall|t: int| 0 <= t < 11 implies #[trigger] s1.subrange(off, off + 11)[t] == s2.subrange(off, off + 11)[t] by {
            lemma_entry_bytes_agree(s1, s2, i, t);
        }
        assert(s1.subrange(off, off + 11) =~= s2.subrange(off, off + 11));
        lemma_entry_bytes_agree(s1, s2, i, 0);
        lemma_entry_bytes_agree(s1, s2, i, 26);
        lemma_entry_bytes_agree(s1, s2, i, 27);
        lemma_entry_bytes_agree(s1, s2, i, 28);
        lemma_entry_bytes_agree(s1, s2, i, 29);
        lemma_entry_bytes_agree(s1, s2, i, 30);
        lemma_entry_bytes_agree(s1, s2, i, 31);
        lemma_scan_same(s1, s2, i + 1);
    }
}

/// Two volumes agree for the search: the same root-directory position and
/// size, and root-directory sectors that agree in every byte the search reads.
pub open spec fn volumes_agree_for_search(
    bs1: BootSector,
    disk1: spec_fn(u32) -> [u8; 512],
    bs2: BootSector,
    disk2: spec_fn(u32) -> [u8; 512],
) -> bool {
    &&& bs1.reserved_sectors == bs2.reserved_sectors
    &&& bs1.num_fats == bs2.num_fats
    &&& bs1.fat_size_sectors == bs2.fat_size_sectors
    &&& bs1.root_entry_count == bs2.root_entry_count
    &&& forall|k: int|
        0 <= k < root_dir_sector_count(bs1) ==> entries_agree_for_search(
            #[trigger] root_dir_sector(bs1, disk1, k),
            root_dir_sector(bs2, disk2, k),
        )
}

proof fn lemma_search_same(
    bs1: BootSector,
    disk1: spec_fn(u32) -> [u8; 512],
    bs2: BootSector,
    disk2: spec_fn(u32) -> [u8; 512],
    k: int,
)
    requires
        volumes_agree_for_search(bs1, disk1, bs2, disk2),
        0 <= k,
    ensures
        search_root_dir(bs1, disk1, k) == search_root_dir(bs2, disk2, k),
    decreases root_dir_sector_count(bs1) - k,
{
    if k < root_dir_sector_count(bs1) {
        lemma_scan_same(root_dir_sector(bs1, disk1, k), root_dir_sector(bs2, disk2, k), 0);
        lemma_search_same(bs1, disk1, bs2, disk2, k + 1);
    }
}

/// The search depends only on where the root directory lies and on the
/// bytes of its entries that it reads: other boot-sector fields, and the
/// attributes, reserved bytes, time and date of entries, do not change it.
pub proof fn lemma_kernel_location_depends_on_read_bytes(
    bs1: BootSector,
    disk1: spec_fn(u32) -> [u8; 512],
    bs2: BootSector,
    disk2: spec_fn(u32) -> [u8; 512],
)
    requires
        volumes_agree_for_search(bs1, disk1, bs2, disk2),
    ensures
        kernel_location(bs1, disk1) == kernel_location(bs2, disk2),
{
    lemma_search_same(bs1, disk1, bs2, disk2, 0);
}

/// The chain starts at its first cluster, and each next cluster is the
/// little-endian FAT16 entry of the one before: two bytes at offset
/// `(2 c) % 512` of sector `reserved_sectors + (2 c) / 512`, for cluster `c`.
pub proof fn lemma_chain_follows_fat(bs: BootSector, disk: spec_fn(u32) -> [u8; 512], start: u16, q: nat)
    ensures
        chain_cluster(bs, disk, start, 0) == start,
        ({
            let c = chain_cluster(bs, disk, start, q) as int;
            let sector = disk((bs.reserved_sectors as int + (2 * c) / 512) as u32);
            chain_cluster(bs, disk, start, q + 1) == (sector[(2 * c) % 512] as int + 256 * sector[(2 * c) % 512
                + 1] as int) as u16
        }),
{
    let c = chain_cluster(bs, disk, start, q);
    assert(chain_cluster(bs, disk, start, q + 1) == next_cluster(disk, fat_start_sector(bs), c));
}

/// Loaded bytes of a file: byte `j` is loaded exactly when `j` is within the
/// file, clusters have sectors, and the chain's clusters 0 through
/// `(j / 512) / spc` are all neither free (0) nor end-of-chain (0xFFF8 and
/// above). A loaded byte is byte `j % 512` of sector
/// `data + (c - 2) * spc + (j / 512) % spc` (modulo 2^32), where `c` is chain
/// cluster `(j / 512) / spc` and `data` is the first sector after the
/// reserved sectors, the FATs and the root directory; other bytes keep their value.
pub proof fn lemma_loaded_byte_location(
    bs: BootSector,
    start: u16,
    size: u32,
    disk: spec_fn(u32) -> [u8; 512],
    memory: Seq<u8>,
    j: int,
)
    requires
        0 <= j < memory.len(),
    ensures
        ({
            let spc = bs.sectors_per_cluster as int;
            let n = j / 512;
            let q = n / spc;
            let data = bs.reserved_sectors as int + bs.num_fats as int * bs.fat_size_sectors as int + (
            bs.root_entry_count as int * 32 + 511) / 512;
            let c = chain_cluster(bs, disk, start, q as nat) as int;
            let loaded = j < size && spc > 0 && forall|p: nat|
                p <= q ==> #[trigger] chain_cluster(bs, disk, start, p) != 0 && chain_cluster(bs, disk, start, p)
                    < 0xFFF8;
            &&& file_byte_loaded(bs, disk, start, size, j) == loaded
            &&& loaded_memory(bs, start, size, disk, memory)[j] == if loaded {
                disk(((data + (c - 2) * spc + n % spc) % 0x1_0000_0000) as u32)[j % 512]
            } else {
                memory[j]
            }
        }),
{
    let spc = bs.sectors_per_cluster as int;
    if spc > 0 {
        let q = ((j / 512) / spc) as nat;
        if chain_reaches(bs, disk, start, q) {
            assert forall|p: nat| p <= q implies #[trigger] chain_cluster(bs, disk, start, p) != 0
                && chain_cluster(bs, disk, start, p) < 0xFFF8 by {
                lemma_chain_reaches_prefix(bs, disk, start, q, p);
            }
        } else {
            if forall|p: nat| p <= q ==> #[trigger] chain_cluster(bs, disk, start, p) != 0 && chain_cluster(
                bs,
                disk,
                start,
                p,
            ) < 0xFFF8 {
                lemma_chain_reaches_from_live(bs, disk, start, q);
            }
        }
    }
    let nf = bs.num_fats as int;
    let fs = bs.fat_size_sectors as int;
    assert(0 <= nf * fs <= 0xFF * 0xFFFF) by (nonlinear_arith)
        requires
            0 <= nf <= 0xFF,
            0 <= fs <= 0xFFFF,
    ;
}

proof fn lemma_chain_reaches_from_live(bs: BootSector, disk: spec_fn(u32) -> [u8; 512], start: u16, q: nat)
    requires
        forall|p: nat| p <= q ==> #[trigger] chain_cluster(bs, disk, start, p) != 0 && chain_cluster(bs, disk, start, p)
            < 0xFFF8,
    ensures
        chain_reaches(bs, disk, start, q),
    decreases q,
{
    assert(cluster_in_use(chain_cluster(bs, disk, start, q)));
    if q > 0 {
        lemma_chain_reaches_from_live(bs, disk, start, (q - 1) as nat);
    }
}

/// Little-endian decoding: the low byte comes first.
pub proof fn lemma_little_endian(b0: u8, b1: u8, b2: u8, b3: u8)
    ensures
        le_u16(b0, b1) % 256 == b0,
        le_u16(b0, b1) / 256 == b1,
        le_u32(b0, b1, b2, b3) % 256 == b0,
        (le_u32(b0, b1, b2, b3) / 256) % 256 == b1,
        (le_u32(b0, b1, b2, b3) / 0x1_0000) % 256 == b2,
        le_u32(b0, b1, b2, b3) / 0x100_0000 == b3,
{
}

/// The name searched for is the text `KERNEL  BIN` (8.3 form of `KERNEL.BIN`),
/// one byte per character.
pub proof fn lemma_kernel_file_name()
    ensures
        kernel_file_name() == "KERNEL  BIN"@.map_values(|c: char| c as u8),
{
    reveal_strlit("KERNEL  BIN");
    assert(kernel_file_name() =~= "KERNEL  BIN"@.map_values(|c: char| c as u8));
}

/// A directory entry gives its first cluster in bytes 26-27 and its size in
/// bytes 28-31, low byte first.
pub proof fn lemma_entry_fields(s: Seq<u8>, off: int)
    ensures
        entry_cluster(s, off) as int == s[off + 26] as int + 256 * s[off + 27] as int,
        entry_file_size(s, off) as int == s[off + 28] as int + 256 * s[off + 29] as int + 0x1_0000 * s[off + 30] as int
            + 0x100_0000 * s[off + 31] as int,
{
}

/// The regions of the volume: the FAT starts after the reserved sectors,
/// the root directory after every FAT copy, and the data after the root
/// directory, whose 32-byte entries take the fewest whole sectors that hold
/// them.
pub proof fn lemma_layout_regions(bs: BootSector)
    ensures
        fat_start_sector(bs) == bs.reserved_sectors,
        root_dir_start_sector(bs) == bs.reserved_sectors + bs.num_fats * bs.fat_size_sectors,
        root_dir_sector_count(bs) * 512 >= bs.root_entry_count * 32,
        root_dir_sector_count(bs) == 0 || (root_dir_sector_count(bs) - 1) * 512 < bs.root_entry_count * 32,
        data_start_sector(bs) == root_dir_start_sector(bs) + root_dir_sector_count(bs),
{
    let nf = bs.num_fats as int;
    let fs = bs.fat_size_sectors as int;
    assert(0 <= nf * fs <= 0xFF * 0xFFFF) by (nonlinear_arith)
        requires
            0 <= nf <= 0xFF,
            0 <= fs <= 0xFFFF,
    ;
}

} // verus!
