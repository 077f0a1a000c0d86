//! exFAT on-disk structures: the boot sector, file entries, the cluster
//! chain table and the cluster allocation bitmap.
use vstd::prelude::*;

verus! {

/// The boot sector of an exFAT volume, field by field as on disk.
pub struct ExFatBootSector {
    /// Jump instruction to boot code.
    pub jump_boot: [u8; 3],
    /// File system name, "EXFAT   ".
    pub fs_name: [u8; 8],
    /// Reserved, must be zero.
    pub must_be_zero: [u8; 53],
    /// Offset of the partition on the disk.
    pub partition_offset: u64,
    /// Total number of sectors in the volume.
    pub volume_length: u64,
    /// Sector offset of the cluster chain table.
    pub fat_offset: u32,
    /// Length of the cluster chain table in sectors.
    pub fat_length: u32,
    /// Sector offset of the cluster heap.
    pub cluster_heap_offset: u32,
    /// Total number of clusters.
    pub cluster_count: u32,
    /// Cluster of the root directory.
    pub root_dir_cluster: u32,
    /// Unique serial number.
    pub volume_serial_number: u32,
    /// File system version.
    pub fs_revision: u16,
    /// Flags (dirty, etc.).
    pub volume_flags: u16,
    /// Sector size: 2^n bytes per sector.
    pub bytes_per_sector_shift: u8,
    /// Cluster size: 2^n sectors per cluster.
    pub sectors_per_cluster_shift: u8,
    /// Number of cluster chain tables.
    pub number_of_fats: u8,
    /// Drive select.
    pub drive_select: u8,
    /// Percent of the volume in use.
    pub percent_in_use: u8,
    /// Reserved, must be zero.
    pub reserved: [u8; 7],
    /// Boot code.
    pub boot_code: [u8; 390],
    /// Boot sector signature, 0xAA55.
    pub boot_signature: u16,
}

/// A directory entry describing a file.
pub struct ExFatFileEntry {
    entry_type: u8,
    secondary_count: u8,
    name_length: u8,
    name_hash: u16,
    first_cluster: u32,
    data_length: u64,
}

/// A cluster number.
pub type Cluster = u32;

/// The chain-table value that ends a cluster chain.
pub const EXFAT_EOF: Cluster = 0xFFFF_FFFF;

/// The little-endian 32-bit value of the four bytes of `s` from `i`.
pub open spec fn le32_at(s: Seq<u8>, i: int) -> u32 {
    ((s[i] as u32) | ((s[i + 1] as u32) << 8) | ((s[i + 2] as u32) << 16) | ((s[i + 3] as u32)
        << 24)) as u32
}

/// The cluster chain table: one little-endian 32-bit entry per cluster,
/// naming the next cluster of its chain.
pub struct ExFatFAT<'a> {
    /// The raw table.
    pub fat_data: &'a [u8],
}

impl<'a> ExFatFAT<'a> {
    /// The cluster after `cluster` in its chain, or `None` at the end of the
    /// chain.
    pub fn next_cluster(&self, cluster: Cluster) -> (r: Option<Cluster>)
        requires
            cluster as int * 4 + 4 <= self.fat_data@.len(),
        ensures
            le32_at(self.fat_data@, cluster as int * 4) == EXFAT_EOF ==> r is None,
            le32_at(self.fat_data@, cluster as int * 4) != EXFAT_EOF ==> r == Some(
                le32_at(self.fat_data@, cluster as int * 4),
            ),
    {
        let d = self.fat_data;
        let n = d.len();
        assert(cluster as int * 4 + 4 <= n);
        let i = cluster as usize * 4;
        let next = (d[i] as u32) | ((d[i + 1] as u32) << 8) | ((d[i + 2] as u32) << 16) | ((d[i
            + 3] as u32) << 24);
        if next == EXFAT_EOF {
            None
        } else {
            Some(next)
        }
    }
}

/// Whether bit `cluster % 8` of byte `cluster / 8` of `s` is set.
pub open spec fn bit_set(s: Seq<u8>, cluster: Cluster) -> bool {
    s[(cluster / 8) as int] & (1u8 << (cluster % 8) as u8) != 0
}

/// The allocation bitmap: bit `c % 8` of byte `c / 8` is set when cluster
/// `c` is in use.
pub struct AllocationBitmap<'a> {
    /// The raw bitmap.
    pub bitmap_data: &'a mut [u8],
}

impl<'a> AllocationBitmap<'a> {
    /// Whether `cluster` is marked in use.
    pub fn is_allocated(&self, cluster: Cluster) -> (r: bool)
        requires
            (cluster / 8) < self.bitmap_data@.len(),
        ensures
            r == bit_set(old(self.bitmap_data)@, cluster),
    {
        let byte_index = (cluster / 8) as usize;
        let bit_index = (cluster % 8) as u8;
        (self.bitmap_data[byte_index] & (1u8 << bit_index)) != 0
    }

    /// Marks `cluster` in use, leaving every other bit as it was.
    pub fn allocate_cluster(&mut self, cluster: Cluster)
        requires
            (cluster / 8) < old(self).bitmap_data@.len(),
        ensures
            final(self).bitmap_data@ == old(self).bitmap_data@.update(
                (cluster / 8) as int,
                old(self).bitmap_data@[(cluster / 8) as int] | (1u8 << (cluster % 8) as u8),
            ),
    {
        let byte_index = (cluster / 8) as usize;
        let bit_index = (cluster % 8) as u8;
        let b = self.bitmap_data[byte_index] | (1u8 << bit_index);
        self.bitmap_data[byte_index] = b;
    }

    /// Marks `cluster` free, leaving every other bit as it was.
    pub fn free_cluster(&mut self, cluster: Cluster)
        requires
            (cluster / 8) < old(self).bitmap_data@.len(),
        ensures
            final(self).bitmap_data@ == old(self).bitmap_data@.update(
                (cluster / 8) as int,
                old(self).bitmap_data@[(cluster / 8) as int] & !(1u8 << (cluster % 8) as u8),
            ),
    {
        let byte_index = (cluster / 8) as usize;
        let bit_index = (cluster % 8) as u8;
        let b = self.bitmap_data[byte_index] & !(1u8 << bit_index);
        self.bitmap_data[byte_index] = b;
    }
}

/// Marking a cluster in use sets its bit and marking it free clears it; the
/// other seven clusters of the byte keep their bits.
pub proof fn lemma_bitmap_marks(byte: u8, bit: u8, other: u8)
    requires
        bit < 8,
        other < 8,
        other != bit,
    ensures
        (byte | (1u8 << bit)) & (1u8 << bit) != 0,
        (byte & !(1u8 << bit)) & (1u8 << bit) == 0,
        (byte | (1u8 << bit)) & (1u8 << other) == byte & (1u8 << other),
        (byte & !(1u8 << bit)) & (1u8 << other) == byte & (1u8 << other),
{
    assert(bit < 8 && other < 8 && other != bit ==> {
        &&& (byte | (1u8 << bit)) & (1u8 << bit) != 0
        &&& (byte & !(1u8 << bit)) & (1u8 << bit) == 0
        &&& (byte | (1u8 << bit)) & (1u8 << other) == byte & (1u8 << other)
        &&& (byte & !(1u8 << bit)) & (1u8 << other) == byte & (1u8 << other)
    }) by (bit_vector);
}

} // verus!
