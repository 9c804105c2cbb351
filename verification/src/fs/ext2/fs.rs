use vstd::prelude::*;
use crate::fs::disk::{BlockDevice, after_write};
use crate::fs::bytes::{le16, le32, read_u32, write_u32};
use crate::fs::ext2::structs::{
    BlockGroupDescriptor, Inode, Superblock, blockgroupdescriptor_encoded, inode_encoded, superblock_encoded,
    parse_blockgroupdescriptor, parse_inode, parse_superblock, store_blockgroupdescriptor, store_inode, store_superblock,
};

verus! {

/// Whether a transfer of `len` bytes at absolute byte `abs` goes straight to the disk:
/// it starts on a sector boundary and covers whole sectors.
pub open spec fn whole_sectors(abs: int, len: int) -> bool {
    abs % 512 == 0 && len % 512 == 0 && len >= 512
}

/// One past the last sector touched by `len > 0` bytes at `abs`.
pub open spec fn end_sector(abs: int, len: int) -> int {
    (abs + len + 511) / 512
}

/// Why an ext2 operation gave up.
#[derive(Debug, Clone, Copy, PartialEq, Eq, Structural)]
pub enum Ext2Error {
    /// The superblock does not carry the ext2 magic number; the value found.
    InvalidMagic(u16),
    /// The superblock asks for a block size over 64 KiB.
    UnsupportedBlockSize(u32),
    /// No block left for a single indirect block.
    NoSpaceIndirect,
    /// No block left for a double indirect block.
    NoSpaceDoubleIndirect,
    /// No block left for a second-level block under a double indirect block.
    NoSpaceDoubleIndirectL2,
    /// No block left for a triple indirect block.
    NoSpaceTripleIndirectL1,
    /// No block left for a second-level block under a triple indirect block.
    NoSpaceTripleIndirectL2,
    /// No block left for a third-level block under a triple indirect block.
    NoSpaceTripleIndirectL3,
    /// The node is not a directory.
    NotADirectory,
    /// No entry of that name.
    FileNotFound,
    /// No free block for file data.
    NoFreeBlocks,
    /// No free inode for a new file.
    NoFreeInodes,
    /// A name longer than 255 bytes.
    NameTooLong,
    /// No free block for a new directory block.
    NoSpaceForEntry,
    /// The directory would need more than twelve blocks.
    DirTooLarge,
    /// A directory to remove still holds entries.
    DirectoryNotEmpty,
    /// The entry to rename went missing between the lookup and the scan.
    OldFileNotFound,
}

/// An ext2 file system on a sector device, with a one-sector cache for partial transfers.
pub struct Ext2<D: BlockDevice> {
    device: D,
    base_lba: u64,
    pub superblock: Superblock,
    block_size: u64,
    inodes_per_group: u32,
    cache_lba: Option<u64>,
    cache_data: Vec<u8>,
}

impl<D: BlockDevice> Ext2<D> {
    /// The device holding the file system.
    pub closed spec fn dev(&self) -> D {
        self.device
    }

    /// Absolute byte offset of the partition's start.
    pub closed spec fn base(&self) -> int {
        self.base_lba * 512
    }

    /// The superblock held in memory.
    pub closed spec fn sb(&self) -> Superblock {
        self.superblock
    }

    pub closed spec fn bsize(&self) -> u64 {
        self.block_size
    }

    pub closed spec fn ipg(&self) -> u32 {
        self.inodes_per_group
    }

    /// The sector held in the cache, if any.
    pub closed spec fn cached(&self) -> Option<u64> {
        self.cache_lba
    }

    /// The bytes held in the cache.
    pub closed spec fn cache_bytes(&self) -> Seq<u8> {
        self.cache_data@
    }

    /// The structure is usable: a sector-sized cache, a whole-sector device whose byte
    /// offsets fit in 64 bits, the partition inside it, and an ext2 block size.
    pub closed spec fn wf(&self) -> bool {
        &&& self.cache_data@.len() == 512
        &&& self.device.size() % 512 == 0
        &&& self.device.size() <= 0x4000_0000_0000_0000
        &&& self.base_lba * 512 <= self.device.size()
        &&& valid_block_size(self.block_size as int)
    }

    /// The cache, if any, holds what the disk holds.
    pub closed spec fn coherent(&self) -> bool {
        match self.cache_lba {
            Some(l) => forall|j: int| 0 <= j < 512 ==> #[trigger] self.cache_data@[j] == self.device.byte(l * 512 + j),
            None => true,
        }
    }

    /// What a partial transfer starting in sector `first` sees at `pos`: the cache for that
    /// first sector when it holds it, the disk everywhere else.
    pub closed spec fn content(&self, first: int, pos: int) -> u8 {
        if self.cache_lba == Some(first as u64) && first * 512 <= pos < first * 512 + 512 {
            self.cache_data@[pos - first * 512]
        } else {
            self.device.byte(pos)
        }
    }

    /// `len` bytes at partition offset `off` lie on the device.
    pub open spec fn in_disk(&self, off: int, len: int) -> bool {
        0 <= off && 0 <= len && self.base() + off + len <= self.dev().size()
    }

    /// Byte `i` of what reading `len` bytes at partition offset `off` gives.
    pub open spec fn read_byte(&self, off: int, len: int, i: int) -> u8 {
        let abs = self.base() + off;
        if whole_sectors(abs, len) {
            self.dev().byte(abs + i)
        } else {
            self.content(abs / 512, abs + i)
        }
    }

    /// Byte `pos` of the sectors a partial write of `data` at partition offset `off` touches,
    /// as it leaves them: `data` over what the transfer saw.
    pub open spec fn patched(&self, off: int, data: Seq<u8>, pos: int) -> u8 {
        let abs = self.base() + off;
        if abs <= pos < abs + data.len() {
            data[pos - abs]
        } else {
            self.content(abs / 512, pos)
        }
    }

    /// The disk byte at `pos` after writing `data` at partition offset `off`; bytes past the
    /// end of the disk stay as they read.
    pub open spec fn write_byte(&self, off: int, data: Seq<u8>, pos: int) -> u8 {
        let abs = self.base() + off;
        let len = data.len() as int;
        if pos >= self.dev().size() {
            self.dev().byte(pos)
        } else if whole_sectors(abs, len) {
            after_write(self.dev().byte(pos), abs / 512, data, pos)
        } else if len > 0 && (abs / 512) * 512 <= pos < end_sector(abs, len) * 512 {
            self.patched(off, data, pos)
        } else {
            self.dev().byte(pos)
        }
    }

    /// Everything but the disk contents and the cache is as in `other`.
    pub open spec fn same_layout(&self, other: &Self) -> bool {
        &&& self.base() == other.base()
        &&& self.bsize() == other.bsize()
        &&& self.ipg() == other.ipg()
        &&& self.sb() == other.sb()
        &&& self.dev().size() == other.dev().size()
    }

    /// What reading `got` at partition offset `off` leaves in `post`: the disk as it was,
    /// and after a partial read the cache holding the last sector as the transfer saw it.
    pub open spec fn read_post(&self, post: &Self, off: int, got: Seq<u8>) -> bool {
        let abs = self.base() + off;
        let len = got.len() as int;
        &&& post.wf()
        &&& post.same_layout(self)
        &&& post.dev() == self.dev()
        &&& forall|i: int| 0 <= i < len ==> #[trigger] got[i] == self.read_byte(off, len, i)
        &&& if whole_sectors(abs, len) || len == 0 {
            post.cached() == self.cached() && post.cache_bytes() == self.cache_bytes()
        } else {
            &&& post.cached() == Some((end_sector(abs, len) - 1) as u64)
            &&& forall|j: int| 0 <= j < 512 ==> #[trigger] post.cache_bytes()[j] == self.content(abs / 512, (end_sector(abs, len) - 1) * 512 + j)
        }
        &&& (self.coherent() ==> post.coherent())
    }

    /// What writing `data` at partition offset `off` leaves in `post`: the disk as
    /// `write_byte` says, and after a partial write the cache holding the last sector.
    pub open spec fn write_post(&self, post: &Self, off: int, data: Seq<u8>) -> bool {
        let abs = self.base() + off;
        let len = data.len() as int;
        &&& post.wf()
        &&& post.same_layout(self)
        &&& forall|pos: int| #[trigger] post.dev().byte(pos) == self.write_byte(off, data, pos)
        &&& if whole_sectors(abs, len) || len == 0 {
            post.cached() == self.cached() && post.cache_bytes() == self.cache_bytes()
        } else {
            &&& post.cached() == Some((end_sector(abs, len) - 1) as u64)
            &&& forall|j: int| 0 <= j < 512 ==> #[trigger] post.cache_bytes()[j] == self.patched(off, data, (end_sector(abs, len) - 1) * 512 + j)
        }
        &&& (len == 0 ==> *post == *self)
        &&& (!whole_sectors(abs, len) && self.in_disk(off, len) && len > 0 ==> post.coherent())
    }
}

/// Byte `pos` part way through a partial write of `data` at `abs`: the first `done` bytes
/// of `data` over what the transfer saw.
spec fn patched_upto<D: BlockDevice>(s0: &Ext2<D>, first: int, abs: int, data: Seq<u8>, done: int, pos: int) -> u8 {
    if abs <= pos < abs + done {
        data[pos - abs]
    } else {
        s0.content(first, pos)
    }
}

/// The disk byte at `pos` part way through a partial write: sectors `first..upto` that lie
/// on the disk hold the patched bytes.
spec fn overlay<D: BlockDevice>(s0: &Ext2<D>, first: int, abs: int, data: Seq<u8>, done: int, upto: int, pos: int) -> u8 {
    if first * 512 <= pos < upto * 512 && pos < s0.dev().size() {
        patched_upto(s0, first, abs, data, done, pos)
    } else {
        s0.dev().byte(pos)
    }
}

impl<D: BlockDevice> Ext2<D> {
    /// Reads `buffer.len()` bytes at partition offset `offset`: whole aligned sectors
    /// straight from the disk, anything else sector by sector through the cache.
    pub(crate) fn read_disk_data(&mut self, offset: u64, buffer: &mut [u8])
        requires
            old(self).wf(),
            offset <= 0x4000_0000_0000_0000,
        ensures
            final(buffer)@.len() == old(buffer)@.len(),
            old(self).read_post(final(self), offset as int, final(buffer)@),
    {
        let ghost s0 = *self;
        let abs = offset + self.base_lba * 512;
        let start_lba = abs / 512;
        let offset_in_sector = abs % 512;
        let total = buffer.len();
        if offset_in_sector == 0 && total % 512 == 0 && total >= 512 {
            self.device.read(start_lba, buffer);
            return;
        }
        let ghost first = start_lba as int;
        let mut current = start_lba;
        let mut done: usize = 0;
        while done < total
            invariant
                self.wf(),
                self.same_layout(&s0),
                self.dev() == s0.dev(),
                s0.wf(),
                abs == s0.base() + offset,
                abs <= 0x8000_0000_0000_0000,
                first == start_lba,
                start_lba == abs / 512,
                offset_in_sector == abs % 512,
                total == buffer@.len(),
                total == old(buffer)@.len(),
                done <= total,
                current >= start_lba,
                current == start_lba ==> done == 0,
                current > start_lba ==> done > 0,
                done < total ==> abs + done == current * 512 + (if current == start_lba { offset_in_sector as int } else { 0 }),
                current > start_lba ==> (current - 1) * 512 < abs + done <= current * 512,
                current == start_lba ==> self.cached() == s0.cached() && self.cache_bytes() == s0.cache_bytes(),
                current > start_lba ==> self.cached() == Some((current - 1) as u64),
                current > start_lba ==> forall|j: int| 0 <= j < 512 ==> #[trigger] self.cache_bytes()[j] == s0.content(first, (current - 1) * 512 + j),
                forall|k: int| 0 <= k < done ==> #[trigger] buffer@[k] == s0.content(first, abs + k),
            decreases total - done,
        {
            let hit = match self.cache_lba {
                Some(l) => l == current,
                None => false,
            };
            if !hit {
                self.device.read(current, self.cache_data.as_mut_slice());
                self.cache_lba = Some(current);
            }
            assert forall|j: int| 0 <= j < 512 implies #[trigger] self.cache_bytes()[j] == s0.content(first, current * 512 + j) by {
            }
            let start_index: usize = if current == start_lba { offset_in_sector as usize } else { 0 };
            let remaining_in_sector = 512 - start_index;
            let to_copy = if total - done < remaining_in_sector { total - done } else { remaining_in_sector };
            let mut k: usize = 0;
            while k < to_copy
                invariant
                    self.cache_data@.len() == 512,
                    start_index + to_copy <= 512,
                    done + to_copy <= total,
                    total == buffer@.len(),
                    k <= to_copy,
                    abs + done == current * 512 + start_index,
                    forall|j: int| 0 <= j < 512 ==> #[trigger] self.cache_bytes()[j] == s0.content(first, current * 512 + j),
                    forall|m: int| 0 <= m < done + k ==> #[trigger] buffer@[m] == s0.content(first, abs + m),
                decreases to_copy - k,
            {
                buffer[done + k] = self.cache_data[start_index + k];
                assert(buffer@[done + k] == self.cache_bytes()[start_index + k]);
                k += 1;
            }
            done += to_copy;
            current += 1;
        }
        proof {
            assert(total > 0 ==> current == end_sector(abs as int, total as int));
            assert(total == 0 ==> current == start_lba);
            if s0.coherent() && current > start_lba {
                let l = (current - 1) as u64;
                assert(l as int == current - 1);
                assert forall|j: int| 0 <= j < 512 implies #[trigger] self.cache_data@[j] == self.device.byte(l * 512 + j) by {
                    lemma_coherent_content(&s0, first, (current - 1) * 512 + j);
                    assert(self.cache_bytes()[j] == s0.content(first, (current - 1) * 512 + j));
                }
                assert(self.coherent());
            }
            assert(s0.coherent() ==> self.coherent());
            assert(!whole_sectors(abs as int, total as int));
            assert forall|i: int| 0 <= i < total implies #[trigger] buffer@[i] == s0.read_byte(offset as int, total as int, i) by {
                assert(buffer@[i] == s0.content(first, abs + i));
            }
        }
    }

    /// Writes `buffer` at partition offset `offset`: whole aligned sectors straight to the
    /// disk (the cache is left as it is), anything else sector by sector through the cache.
    #[verifier::spinoff_prover]
    #[verifier::rlimit(40)]
    pub(crate) fn write_disk_data(&mut self, offset: u64, buffer: &[u8])
        requires
            old(self).wf(),
            offset <= 0x4000_0000_0000_0000,
        ensures
            old(self).write_post(final(self), offset as int, buffer@),
    {
        let ghost s0 = *self;
        let abs = offset + self.base_lba * 512;
        let start_lba = abs / 512;
        let offset_in_sector = abs % 512;
        let total = buffer.len();
        if offset_in_sector == 0 && total % 512 == 0 && total >= 512 {
            self.device.write(start_lba, buffer);
            return;
        }
        let ghost first = start_lba as int;
        let mut current = start_lba;
        let mut done: usize = 0;
        while done < total
            invariant
                self.wf(),
                self.same_layout(&s0),
                s0.wf(),
                abs == s0.base() + offset,
                abs <= 0x8000_0000_0000_0000,
                first == start_lba,
                start_lba == abs / 512,
                offset_in_sector == abs % 512,
                total == buffer@.len(),
                done <= total,
                current >= start_lba,
                current == start_lba ==> done == 0,
                current > start_lba ==> done > 0,
                done < total ==> abs + done == current * 512 + (if current == start_lba { offset_in_sector as int } else { 0 }),
                current > start_lba ==> (current - 1) * 512 < abs + done <= current * 512,
                current == start_lba ==> *self == s0,
                current > start_lba ==> self.cached() == Some((current - 1) as u64),
                current > start_lba ==> forall|j: int| 0 <= j < 512 ==> #[trigger] self.cache_bytes()[j]
                    == patched_upto(&s0, first, abs as int, buffer@, done as int, (current - 1) * 512 + j),
                forall|pos: int| #[trigger] self.dev().byte(pos) == overlay(&s0, first, abs as int, buffer@, done as int, current as int, pos),
            decreases total - done,
        {
            let hit = match self.cache_lba {
                Some(l) => l == current,
                None => false,
            };
            if !hit {
                self.device.read(current, self.cache_data.as_mut_slice());
                self.cache_lba = Some(current);
            }
            assert forall|j: int| 0 <= j < 512 implies #[trigger] self.cache_bytes()[j] == s0.content(first, current * 512 + j) by {
                assert(self.dev().byte(current * 512 + j) == overlay(&s0, first, abs as int, buffer@, done as int, current as int, current * 512 + j));
            }
            let start_index: usize = if current == start_lba { offset_in_sector as usize } else { 0 };
            let remaining_in_sector = 512 - start_index;
            let to_copy = if total - done < remaining_in_sector { total - done } else { remaining_in_sector };
            let ghost mid = *self;
            let mut k: usize = 0;
            while k < to_copy
                invariant
                    self.cache_data@.len() == 512,
                    start_index + to_copy <= 512,
                    done + to_copy <= total,
                    total == buffer@.len(),
                    k <= to_copy,
                    abs + done == current * 512 + start_index,
                    self.device == mid.device,
                    self.cache_lba == mid.cache_lba,
                    self.base_lba == mid.base_lba,
                    self.block_size == mid.block_size,
                    self.inodes_per_group == mid.inodes_per_group,
                    self.superblock == mid.superblock,
                    forall|j: int| 0 <= j < 512 ==> #[trigger] self.cache_data@[j] == if start_index <= j < start_index + k {
                        buffer@[done + j - start_index]
                    } else {
                        s0.content(first, current * 512 + j)
                    },
                decreases to_copy - k,
            {
                self.cache_data.set(start_index + k, buffer[done + k]);
                k += 1;
            }
            let ghost before = self.device;
            self.device.write(current, self.cache_data.as_slice());
            proof {
                assert forall|j: int| 0 <= j < 512 implies #[trigger] self.cache_bytes()[j]
                    == patched_upto(&s0, first, abs as int, buffer@, (done + to_copy) as int, current * 512 + j) by {
                }
                assert forall|pos: int| #[trigger] self.dev().byte(pos) == overlay(&s0, first, abs as int, buffer@, (done + to_copy) as int, (current + 1) as int, pos) by {
                    assert(before.byte(pos) == overlay(&s0, first, abs as int, buffer@, done as int, current as int, pos));
                    if current * 512 <= pos < current * 512 + 512 && pos < s0.dev().size() {
                        assert(self.dev().byte(pos) == after_write(before.byte(pos), current as int, self.cache_data@, pos));
                        assert(self.cache_bytes()[pos - current * 512] == self.dev().byte(pos));
                    }
                }
            }
            done += to_copy;
            current += 1;
        }
        proof {
            assert(total > 0 ==> current == end_sector(abs as int, total as int));
            assert(total == 0 ==> current == start_lba);
            assert(!whole_sectors(abs as int, total as int));
            if total > 0 {
                let l = (current - 1) as u64;
                assert(l as int == current - 1);
                assert forall|j: int| 0 <= j < 512 implies #[trigger] self.cache_bytes()[j]
                    == s0.patched(offset as int, buffer@, (current - 1) * 512 + j) by {
                    assert((abs / 512) as int == first);
                }
                if s0.in_disk(offset as int, total as int) {
                    assert((current - 1) * 512 + 512 <= s0.dev().size());
                    assert forall|j: int| 0 <= j < 512 implies #[trigger] self.cache_data@[j] == self.device.byte(l * 512 + j) by {
                        assert(self.dev().byte((current - 1) * 512 + j) == overlay(&s0, first, abs as int, buffer@, done as int, current as int, (current - 1) * 512 + j));
                        assert(self.cache_bytes()[j] == patched_upto(&s0, first, abs as int, buffer@, done as int, (current - 1) * 512 + j));
                        assert(first * 512 <= (current - 1) * 512 + j);
                    }
                    assert(self.coherent());
                }
            }
            assert forall|pos: int| #[trigger] self.dev().byte(pos) == s0.write_byte(offset as int, buffer@, pos) by {
                assert(self.dev().byte(pos) == overlay(&s0, first, abs as int, buffer@, done as int, current as int, pos));
                if total > 0 {
                    assert((abs / 512) * 512 == first * 512);
                }
            }
        }
    }
}

impl<D: BlockDevice> Ext2<D> {
    /// Bytes per block.
    pub fn block_size(&self) -> (r: u64)
        ensures
            r == self.bsize(),
            self.wf() ==> valid_block_size(r as int),
    {
        self.block_size
    }

    /// Inodes in each block group.
    pub fn inodes_per_group(&self) -> (r: u32)
        ensures
            r == self.ipg(),
    {
        self.inodes_per_group
    }

    /// Whether the superblock's counts leave room to name new blocks.
    pub fn blocks_nameable(&self) -> (r: bool)
        requires
            self.wf(),
        ensures
            r == self.block_geometry_ok(),
    {
        let sb = &self.superblock;
        sb.blocks_per_group > 0 && (sb.blocks_count as u64) + 8 * self.block_size + (sb.first_data_block as u64) <= 0xFFFF_FFFF
    }

    /// Whether the superblock's counts leave room to name new inodes.
    pub fn inodes_nameable(&self) -> (r: bool)
        requires
            self.wf(),
        ensures
            r == self.inode_geometry_ok(),
    {
        let sb = &self.superblock;
        sb.inodes_per_group > 0 && (sb.inodes_count as u64) + 8 * self.block_size + 1 <= 0xFFFF_FFFF
    }
}

impl<D: BlockDevice> Ext2<D> {
    /// What reading `len` bytes at partition offset `off` gives.
    pub open spec fn bytes_read(&self, off: int, len: nat) -> Seq<u8> {
        Seq::new(len, |i: int| self.read_byte(off, len as int, i))
    }

    /// The disk byte at partition offset `off`.
    pub open spec fn disk_byte(&self, off: int) -> u8 {
        self.dev().byte(self.base() + off)
    }

    /// The `len` disk bytes at partition offset `off`.
    pub open spec fn disk_bytes(&self, off: int, len: nat) -> Seq<u8> {
        device_bytes(self.dev(), self.base() + off, len)
    }

    /// The disk byte at absolute `pos` once `data` is on the disk at partition offset `off`.
    pub open spec fn wrote_byte(&self, off: int, data: Seq<u8>, pos: int) -> u8 {
        let abs = self.base() + off;
        if abs <= pos < abs + data.len() {
            data[pos - abs]
        } else {
            self.dev().byte(pos)
        }
    }

    /// The cache holds one of the `count` sectors from absolute sector `first`.
    pub open spec fn caches_within(&self, first: int, count: int) -> bool {
        match self.cached() {
            Some(l) => first <= l < first + count,
            None => false,
        }
    }

    /// Partition offset of the descriptor of block group `group`: the descriptor table
    /// starts in the block after the superblock.
    pub open spec fn bgd_offset(&self, group: int) -> int {
        (if self.bsize() == 1024 { 2int } else { 1int }) * self.bsize() + group * 32
    }

    /// Partition offset of inode `idx` (counted from one), with the inode table found in
    /// the group descriptor `desc` as the disk holds it.
    pub open spec fn inode_offset(&self, idx: int) -> int {
        self.inode_offset_in(self.disk_bytes(self.bgd_offset(self.inode_group(idx)), 32), idx)
    }

    /// The block group of inode `idx`.
    pub open spec fn inode_group(&self, idx: int) -> int {
        (idx - 1) / (self.ipg() as int)
    }

    /// Partition offset of inode `idx` given the bytes `desc` of its group's descriptor.
    pub open spec fn inode_offset_in(&self, desc: Seq<u8>, idx: int) -> int {
        le32(desc, 8) * self.bsize() + ((idx - 1) % (self.ipg() as int)) * 128
    }

    /// What `read_inode(idx)` returning `got` leaves in `post`.
    pub open spec fn inode_read(&self, post: &Self, idx: int, got: Inode) -> bool {
        let boff = self.bgd_offset(self.inode_group(idx));
        &&& post.wf()
        &&& post.same_layout(self)
        &&& post.dev() == self.dev()
        &&& exists|mid: Self|
            #[trigger] self.read_post(&mid, boff, self.bytes_read(boff, 32)) && mid.read_post(
                post,
                self.inode_offset_in(self.bytes_read(boff, 32), idx),
                mid.bytes_read(self.inode_offset_in(self.bytes_read(boff, 32), idx), 128),
            ) && inode_encoded(got, mid.bytes_read(self.inode_offset_in(self.bytes_read(boff, 32), idx), 128), 0)
        &&& self.coherent() ==> post.coherent() && inode_encoded(got, self.disk_bytes(self.inode_offset(idx), 128), 0)
    }

    /// What `write_inode(idx, ino)` leaves in `post`.
    pub open spec fn inode_written(&self, post: &Self, idx: int, ino: Inode) -> bool {
        let boff = self.bgd_offset(self.inode_group(idx));
        &&& post.wf()
        &&& post.same_layout(self)
        &&& exists|mid: Self, b: Seq<u8>|
            #[trigger] self.read_post(&mid, boff, self.bytes_read(boff, 32)) && inode_encoded(ino, b, 0) && b.len() == 128
                && #[trigger] mid.write_post(post, self.inode_offset_in(self.bytes_read(boff, 32), idx), b)
        &&& self.coherent() && self.in_disk(self.inode_offset(idx), 128) ==> post.coherent() && exists|b: Seq<u8>|
            b.len() == 128 && inode_encoded(ino, b, 0) && forall|pos: int|
                #[trigger] post.dev().byte(pos) == self.wrote_byte(self.inode_offset(idx), b, pos)
    }
}

/// A well-formed file system has one of the block sizes ext2 allows.
pub proof fn lemma_wf_block_size<D: BlockDevice>(s: &Ext2<D>)
    requires
        s.wf(),
    ensures
        valid_block_size(s.bsize() as int),
{
}

/// The partition starts on a sector boundary.
pub proof fn lemma_base_aligned<D: BlockDevice>(s: &Ext2<D>)
    ensures
        s.base() % 512 == 0,
        s.base() >= 0,
{
}

/// With a coherent cache a read sees the disk and leaves the cache coherent.
pub proof fn lemma_read_coherent<D: BlockDevice>(s: &Ext2<D>, post: &Ext2<D>, off: int, got: Seq<u8>)
    requires
        s.wf(),
        s.coherent(),
        0 <= off <= 0x4000_0000_0000_0000,
        s.read_post(post, off, got),
    ensures
        got =~= s.disk_bytes(off, got.len()),
        post.coherent(),
        post.dev() == s.dev(),
{
    let abs = s.base() + off;
    assert forall|i: int| 0 <= i < got.len() implies got[i] == s.disk_bytes(off, got.len())[i] by {
        assert(got[i] == s.read_byte(off, got.len() as int, i));
        if !whole_sectors(abs, got.len() as int) {
            lemma_coherent_content(s, abs / 512, abs + i);
        }
    }
}

/// With a coherent cache a write that stays on the disk puts exactly `data` there, and
/// leaves the cache coherent unless it went straight to sectors the cache holds.
#[verifier::spinoff_prover]
pub proof fn lemma_write_coherent<D: BlockDevice>(s: &Ext2<D>, post: &Ext2<D>, off: int, data: Seq<u8>)
    requires
        s.wf(),
        s.coherent(),
        s.in_disk(off, data.len() as int),
        s.write_post(post, off, data),
    ensures
        forall|pos: int| #[trigger] post.dev().byte(pos) == s.wrote_byte(off, data, pos),
        !(whole_sectors(s.base() + off, data.len() as int) && s.caches_within((s.base() + off) / 512, data.len() as int / 512))
            ==> post.coherent(),
{
    let abs = s.base() + off;
    let len = data.len() as int;
    assert forall|pos: int| #[trigger] post.dev().byte(pos) == s.wrote_byte(off, data, pos) by {
        assert(post.dev().byte(pos) == s.write_byte(off, data, pos));
        if pos < s.dev().size() && !whole_sectors(abs, len) && len > 0 && (abs / 512) * 512 <= pos < end_sector(abs, len) * 512 {
            lemma_coherent_content(s, abs / 512, pos);
        }
        if whole_sectors(abs, len) && pos < s.dev().size() {
            assert((abs / 512) * 512 == abs);
            assert(crate::fs::disk::sectors_for(len) * 512 == len);
        }
    }
    if whole_sectors(abs, len) && !s.caches_within(abs / 512, len / 512) {
        if let Some(l) = s.cached() {
            assert forall|j: int| 0 <= j < 512 implies #[trigger] post.cache_bytes()[j] == post.dev().byte(l * 512 + j) by {
                assert(post.dev().byte(l * 512 + j) == s.wrote_byte(off, data, l * 512 + j));
                assert(!(abs <= l * 512 + j < abs + len));
            }
        }
        assert(post.coherent());
    }
}

impl<D: BlockDevice> Ext2<D> {
    /// Reads the descriptor of block group `group_idx`.
    pub fn read_block_group_descriptor(&mut self, group_idx: u32) -> (desc: BlockGroupDescriptor)
        requires
            old(self).wf(),
        ensures
            blockgroupdescriptor_encoded(desc, old(self).bytes_read(old(self).bgd_offset(group_idx as int), 32), 0),
            old(self).read_post(final(self), old(self).bgd_offset(group_idx as int), old(self).bytes_read(old(self).bgd_offset(group_idx as int), 32)),
            old(self).coherent() ==> blockgroupdescriptor_encoded(desc, old(self).disk_bytes(old(self).bgd_offset(group_idx as int), 32), 0),
    {
        let bgdt_start_block: u64 = if self.block_size == 1024 { 2 } else { 1 };
        let offset = bgdt_start_block * self.block_size + group_idx as u64 * 32;
        let mut buf: Vec<u8> = vec![0u8; 32];
        let ghost s0 = *self;
        self.read_disk_data(offset, buf.as_mut_slice());
        proof {
            assert(buf@ =~= s0.bytes_read(offset as int, 32));
            if s0.coherent() {
                lemma_read_coherent(&s0, self, offset as int, buf@);
            }
        }
        parse_blockgroupdescriptor(buf.as_slice(), 0)
    }

    /// Writes `desc` as the descriptor of block group `group_idx`.
    pub fn write_block_group_descriptor(&mut self, group_idx: u32, desc: &BlockGroupDescriptor)
        requires
            old(self).wf(),
        ensures
            exists|b: Seq<u8>|
                b.len() == 32 && blockgroupdescriptor_encoded(*desc, b, 0) && #[trigger] old(self).write_post(
                    final(self),
                    old(self).bgd_offset(group_idx as int),
                    b,
                ),
    {
        let bgdt_start_block: u64 = if self.block_size == 1024 { 2 } else { 1 };
        let offset = bgdt_start_block * self.block_size + group_idx as u64 * 32;
        let mut buf: Vec<u8> = vec![0u8; 32];
        store_blockgroupdescriptor(desc, &mut buf, 0);
        let ghost s0 = *self;
        self.write_disk_data(offset, buf.as_slice());
        assert(offset == s0.bgd_offset(group_idx as int));
        assert(s0.write_post(self, s0.bgd_offset(group_idx as int), buf@));
    }

    /// Writes the superblock held in memory back to its place, 1024 bytes into the partition.
    pub fn write_superblock(&mut self)
        requires
            old(self).wf(),
        ensures
            exists|b: Seq<u8>|
                b.len() == 1024 && superblock_encoded(old(self).sb(), b, 0) && #[trigger] old(self).write_post(final(self), 1024, b),
    {
        let mut buf: Vec<u8> = vec![0u8; 1024];
        store_superblock(&self.superblock, &mut buf, 0);
        self.write_disk_data(1024, buf.as_slice());
    }
}

impl<D: BlockDevice> Ext2<D> {
    /// Reads inode `inode_idx` (counted from one) from its group's inode table.
    #[verifier::spinoff_prover]
    #[verifier::rlimit(30)]
    pub fn read_inode(&mut self, inode_idx: u32) -> (ino: Inode)
        requires
            old(self).wf(),
            inode_idx >= 1,
            old(self).ipg() > 0,
        ensures
            old(self).inode_read(final(self), inode_idx as int, ino),
    {
        let ghost s0 = *self;
        let group = (inode_idx - 1) / self.inodes_per_group;
        let index_in_group = (inode_idx - 1) % self.inodes_per_group;
        let bg_desc = self.read_block_group_descriptor(group);
        let ghost mid = *self;
        let ghost boff = s0.bgd_offset(s0.inode_group(inode_idx as int));
        assert(group as int == s0.inode_group(inode_idx as int));
        let inode_table_offset = bg_desc.inode_table as u64 * self.block_size;
        let inode_offset = inode_table_offset + index_in_group as u64 * 128;
        assert(inode_offset == s0.inode_offset_in(s0.bytes_read(boff, 32), inode_idx as int));
        let mut buf: Vec<u8> = vec![0u8; 128];
        self.read_disk_data(inode_offset, buf.as_mut_slice());
        let ino = parse_inode(buf.as_slice(), 0);
        proof {
            let ioff = s0.inode_offset_in(s0.bytes_read(boff, 32), inode_idx as int);
            assert(buf@ =~= mid.bytes_read(inode_offset as int, 128));
            assert(s0.read_post(&mid, boff, s0.bytes_read(boff, 32)));
            assert(mid.read_post(self, ioff, mid.bytes_read(ioff, 128)));
            assert(inode_encoded(ino, mid.bytes_read(ioff, 128), 0));
            if s0.coherent() {
                lemma_read_coherent(&s0, &mid, boff, s0.bytes_read(boff, 32));
                lemma_read_coherent(&mid, self, inode_offset as int, buf@);
                assert(s0.bytes_read(boff, 32) =~= s0.disk_bytes(boff, 32));
                assert(ioff == s0.inode_offset(inode_idx as int));
                assert(buf@ =~= s0.disk_bytes(ioff, 128));
            }
        }
        ino
    }

    /// Writes `inode` as inode `inode_idx` (counted from one).
    #[verifier::spinoff_prover]
    #[verifier::rlimit(30)]
    pub fn write_inode(&mut self, inode_idx: u32, inode: &Inode)
        requires
            old(self).wf(),
            inode_idx >= 1,
            old(self).ipg() > 0,
        ensures
            old(self).inode_written(final(self), inode_idx as int, *inode),
    {
        let ghost s0 = *self;
        let group = (inode_idx - 1) / self.inodes_per_group;
        let index_in_group = (inode_idx - 1) % self.inodes_per_group;
        let bg_desc = self.read_block_group_descriptor(group);
        let ghost mid = *self;
        let ghost boff = s0.bgd_offset(s0.inode_group(inode_idx as int));
        assert(group as int == s0.inode_group(inode_idx as int));
        let inode_table_offset = bg_desc.inode_table as u64 * self.block_size;
        let inode_offset = inode_table_offset + index_in_group as u64 * 128;
        assert(inode_offset == s0.inode_offset_in(s0.bytes_read(boff, 32), inode_idx as int));
        let mut buf: Vec<u8> = vec![0u8; 128];
        store_inode(inode, &mut buf, 0);
        self.write_disk_data(inode_offset, buf.as_slice());
        proof {
            assert(s0.read_post(&mid, boff, s0.bytes_read(boff, 32)));
            assert(mid.write_post(self, s0.inode_offset_in(s0.bytes_read(boff, 32), inode_idx as int), buf@));
            if s0.coherent() && s0.in_disk(s0.inode_offset(inode_idx as int), 128) {
                lemma_read_coherent(&s0, &mid, boff, s0.bytes_read(boff, 32));
                assert(s0.bytes_read(boff, 32) =~= s0.disk_bytes(boff, 32));
                lemma_write_coherent(&mid, self, inode_offset as int, buf@);
                assert forall|pos: int| #[trigger] self.dev().byte(pos) == s0.wrote_byte(s0.inode_offset(inode_idx as int), buf@, pos) by {
                    assert(self.dev().byte(pos) == mid.wrote_byte(inode_offset as int, buf@, pos));
                }
                assert(self.coherent());
                assert(buf@.len() == 128 && inode_encoded(*inode, buf@, 0));
            }
            assert(self.wf());
            assert(self.same_layout(&s0));
        }
    }
}

impl<D: BlockDevice> Ext2<D> {
    /// Partition offset of pointer `idx` in block `block`.
    pub open spec fn slot_offset(&self, block: int, idx: int) -> int {
        block * self.bsize() + idx * 4
    }

    /// Pointer `idx` of block `block` as the disk holds it; block zero holds none.
    pub open spec fn pointer(&self, block: u32, idx: int) -> u32 {
        if block == 0 {
            0
        } else {
            le32(self.disk_bytes(self.slot_offset(block as int, idx), 4), 0) as u32
        }
    }

    /// Block addresses one indirect block holds.
    pub open spec fn ptrs_per_block(&self) -> int {
        self.bsize() as int / 4
    }

    /// The physical block that logical block `logical` of `inode` maps to, following its
    /// direct, single, double and triple indirect pointers as the disk holds them; zero where
    /// a pointer on the way is zero.
    pub open spec fn block_of(&self, inode: Inode, logical: u32) -> u32 {
        let ppb = self.ptrs_per_block();
        let i1 = logical - 12;
        let i2 = i1 - ppb;
        let i3 = i2 - ppb * ppb;
        if logical < 12 {
            inode.block@[logical as int]
        } else if i1 < ppb {
            self.pointer(inode.block@[12], i1)
        } else if i2 < ppb * ppb {
            let f = self.pointer(inode.block@[13], i2 / ppb);
            if f == 0 {
                0
            } else {
                self.pointer(f, i2 % ppb)
            }
        } else {
            let f = self.pointer(inode.block@[14], i3 / (ppb * ppb));
            let second = self.pointer(f, (i3 % (ppb * ppb)) / ppb);
            if f == 0 {
                0
            } else if second == 0 {
                0
            } else {
                self.pointer(second, (i3 % (ppb * ppb)) % ppb)
            }
        }
    }
}

impl<D: BlockDevice> Ext2<D> {
    /// Reads pointer `offset` of block `block_addr`; block zero reads as zero.
    pub(crate) fn read_indirect_pointer(&mut self, block_addr: u32, offset: u32) -> (r: u32)
        requires
            old(self).wf(),
        ensures
            final(self).wf(),
            final(self).same_layout(old(self)),
            final(self).dev() == old(self).dev(),
            block_addr == 0 ==> r == 0 && *final(self) == *old(self),
            block_addr != 0 ==> r == le32(old(self).bytes_read(old(self).slot_offset(block_addr as int, offset as int), 4), 0),
            block_addr != 0 ==> old(self).read_post(
                final(self),
                old(self).slot_offset(block_addr as int, offset as int),
                old(self).bytes_read(old(self).slot_offset(block_addr as int, offset as int), 4),
            ),
            old(self).coherent() ==> final(self).coherent() && r == old(self).pointer(block_addr, offset as int),
    {
        if block_addr == 0 {
            return 0;
        }
        let read_offset = (block_addr as u64 * self.block_size) + (offset as u64 * 4);
        let mut bytes: Vec<u8> = vec![0u8; 4];
        let ghost s0 = *self;
        self.read_disk_data(read_offset, bytes.as_mut_slice());
        proof {
            assert(bytes@ =~= s0.bytes_read(read_offset as int, 4));
            if s0.coherent() {
                lemma_read_coherent(&s0, self, read_offset as int, bytes@);
            }
        }
        read_u32(bytes.as_slice(), 0)
    }

    /// Stores `val` as pointer `offset` of block `block_addr`.
    pub(crate) fn write_indirect_pointer(&mut self, block_addr: u32, offset: u32, val: u32)
        requires
            old(self).wf(),
        ensures
            exists|b: Seq<u8>|
                b.len() == 4 && le32(b, 0) == val && #[trigger] old(self).write_post(
                    final(self),
                    old(self).slot_offset(block_addr as int, offset as int),
                    b,
                ),
    {
        let write_offset = (block_addr as u64 * self.block_size) + (offset as u64 * 4);
        let mut bytes: Vec<u8> = vec![0u8; 4];
        write_u32(&mut bytes, 0, val);
        let ghost s0 = *self;
        self.write_disk_data(write_offset, bytes.as_slice());
        assert(s0.write_post(self, s0.slot_offset(block_addr as int, offset as int), bytes@));
    }

    /// The physical block that logical block `logical_block` of `inode` maps to, zero where
    /// none is assigned.
    pub fn get_block_address(&mut self, inode: &Inode, logical_block: u32) -> (phys: u32)
        requires
            old(self).wf(),
        ensures
            final(self).wf(),
            final(self).same_layout(old(self)),
            final(self).dev() == old(self).dev(),
            old(self).coherent() ==> final(self).coherent() && phys == old(self).block_of(*inode, logical_block),
            logical_block < 12 ==> phys == inode.block@[logical_block as int] && *final(self) == *old(self),
    {
        let ghost s0 = *self;
        let ptrs_per_block = self.block_size / 4;
        assert(256 <= ptrs_per_block <= 16384);
        assert(ptrs_per_block * ptrs_per_block <= 16384 * 16384) by (nonlinear_arith)
            requires
                ptrs_per_block <= 16384,
        ;
        assert(ptrs_per_block * ptrs_per_block >= 256) by (nonlinear_arith)
            requires
                ptrs_per_block >= 256,
        ;
        if logical_block < 12 {
            return inode.block[logical_block as usize];
        }
        let mut indirect_idx = logical_block - 12;
        if (indirect_idx as u64) < ptrs_per_block {
            return self.read_indirect_pointer(inode.block[12], indirect_idx);
        }
        indirect_idx -= ptrs_per_block as u32;
        if (indirect_idx as u64) < ptrs_per_block * ptrs_per_block {
            let first_idx = indirect_idx / ptrs_per_block as u32;
            let second_idx = indirect_idx % ptrs_per_block as u32;
            let first_block = self.read_indirect_pointer(inode.block[13], first_idx);
            if first_block == 0 {
                return 0;
            }
            return self.read_indirect_pointer(first_block, second_idx);
        }
        indirect_idx -= (ptrs_per_block * ptrs_per_block) as u32;
        let first_idx = indirect_idx / (ptrs_per_block * ptrs_per_block) as u32;
        let rem = indirect_idx % (ptrs_per_block * ptrs_per_block) as u32;
        let second_idx = rem / ptrs_per_block as u32;
        let third_idx = rem % ptrs_per_block as u32;
        let first_block = self.read_indirect_pointer(inode.block[14], first_idx);
        if first_block == 0 {
            return 0;
        }
        let second_block = self.read_indirect_pointer(first_block, second_idx);
        if second_block == 0 {
            return 0;
        }
        self.read_indirect_pointer(second_block, third_idx)
    }
}

impl<D: BlockDevice> Ext2<D> {
    /// Where logical block `logical` (twelve or more) of `inode` keeps its address: the block
    /// and slot at the end of its pointer chain as the disk holds it, none while a pointer
    /// on the way is zero.
    pub open spec fn target_slot(&self, inode: Inode, logical: u32) -> Option<(u32, int)> {
        let ppb = self.ptrs_per_block();
        let i1 = logical - 12;
        let i2 = i1 - ppb;
        let i3 = i2 - ppb * ppb;
        if i1 < ppb {
            if inode.block@[12] == 0 {
                None
            } else {
                Some((inode.block@[12], i1))
            }
        } else if i2 < ppb * ppb {
            let f = self.pointer(inode.block@[13], i2 / ppb);
            if inode.block@[13] == 0 || f == 0 {
                None
            } else {
                Some((f, i2 % ppb))
            }
        } else {
            let f = self.pointer(inode.block@[14], i3 / (ppb * ppb));
            let second = self.pointer(f, (i3 % (ppb * ppb)) / ppb);
            if inode.block@[14] == 0 || f == 0 || second == 0 {
                None
            } else {
                Some((second, (i3 % (ppb * ppb)) % ppb))
            }
        }
    }

    /// Partition offset of the target slot of logical block `logical` of `inode`.
    pub open spec fn target_offset(&self, inode: Inode, logical: u32) -> int {
        match self.target_slot(inode, logical) {
            Some((blk, idx)) => self.slot_offset(blk as int, idx),
            None => 0,
        }
    }

    /// The partition offsets of the pointer slots read on the way to the target slot of
    /// logical block `logical` of `inode`.
    pub open spec fn path_slots(&self, inode: Inode, logical: u32) -> Seq<int> {
        let ppb = self.ptrs_per_block();
        let i1 = logical - 12;
        let i2 = i1 - ppb;
        let i3 = i2 - ppb * ppb;
        if i1 < ppb {
            seq![]
        } else if i2 < ppb * ppb {
            seq![self.slot_offset(inode.block@[13] as int, i2 / ppb)]
        } else {
            let f = self.pointer(inode.block@[14], i3 / (ppb * ppb));
            seq![self.slot_offset(inode.block@[14] as int, i3 / (ppb * ppb)), self.slot_offset(f as int, (i3 % (ppb * ppb)) / ppb)]
        }
    }
}

/// `a` and `b` agree on everything but the block pointers and the block count.
pub open spec fn same_but_pointers(a: Inode, b: Inode) -> bool {
    &&& a.mode == b.mode
    &&& a.uid == b.uid
    &&& a.size == b.size
    &&& a.atime == b.atime
    &&& a.ctime == b.ctime
    &&& a.mtime == b.mtime
    &&& a.dtime == b.dtime
    &&& a.gid == b.gid
    &&& a.links_count == b.links_count
    &&& a.flags == b.flags
    &&& a.osd1 == b.osd1
    &&& a.generation == b.generation
    &&& a.file_acl == b.file_acl
    &&& a.dir_acl == b.dir_acl
    &&& a.faddr == b.faddr
    &&& a.osd2 == b.osd2
}

impl<D: BlockDevice> Ext2<D> {
    /// How many blocks mapping logical block `logical` may have to allocate: one per level of
    /// indirection.
    pub open spec fn levels(&self, logical: u32) -> int {
        let ppb = self.ptrs_per_block();
        if logical < 12 {
            0
        } else if logical - 12 < ppb {
            1
        } else if logical - 12 - ppb < ppb * ppb {
            2
        } else {
            3
        }
    }

    /// The geometry lets block allocation name its blocks: groups exist and every block a
    /// bitmap can describe has a 32-bit number.
    pub open spec fn block_geometry_ok(&self) -> bool {
        &&& self.sb().blocks_per_group > 0
        &&& self.sb().blocks_count + 8 * self.bsize() + self.sb().first_data_block <= u32::MAX
    }

    /// The geometry lets inode allocation name its inodes.
    pub open spec fn inode_geometry_ok(&self) -> bool {
        &&& self.sb().inodes_per_group > 0
        &&& self.sb().inodes_count + 8 * self.bsize() + 1 <= u32::MAX
    }

    /// Allocating `n` blocks one after another is defined: the geometry names them and the
    /// inode's block count stays in range.
    pub open spec fn can_allocate(&self, n: int, inode_blocks: u32) -> bool {
        &&& self.block_geometry_ok()
        &&& inode_blocks + n * (self.bsize() / 512) <= u32::MAX
    }

    /// Allocates a block for a pointer block and fills it with zeros; zero when none is left.
    fn alloc_zeroed_block(&mut self, inode_blocks: Ghost<u32>, n: Ghost<int>) -> (r: u32)
        requires
            old(self).wf(),
            n@ >= 1,
            old(self).can_allocate(n@, inode_blocks@),
        ensures
            final(self).wf(),
            final(self).base() == old(self).base(),
            final(self).bsize() == old(self).bsize(),
            final(self).ipg() == old(self).ipg(),
            final(self).dev().size() == old(self).dev().size(),
            final(self).sb().blocks_per_group == old(self).sb().blocks_per_group,
            final(self).sb().blocks_count == old(self).sb().blocks_count,
            final(self).sb().first_data_block == old(self).sb().first_data_block,
            r != 0 ==> final(self).can_allocate(n@ - 1, (inode_blocks@ + old(self).bsize() / 512) as u32),
            r == 0 && final(self).sb() == old(self).sb() && final(self).dev() == old(self).dev() || final(self).sb() == (Superblock {
                free_blocks_count: (old(self).sb().free_blocks_count - 1) as u32,
                ..old(self).sb()
            }) && (old(self).coherent() ==> old(self).first_free_block(r)),
            old(self).sb().free_blocks_count == 0 ==> r == 0 && *final(self) == *old(self),
            old(self).coherent() && old(self).sb().free_blocks_count > 0 ==> (final(self).sb() == old(self).sb() <==> forall|g: int|
                0 <= g <= old(self).sb().blocks_count / old(self).sb().blocks_per_group ==> !#[trigger] old(self).has_free_block(g)),
            r != 0 && old(self).in_disk(r * old(self).bsize(), old(self).bsize() as int) ==> forall|i: int|
                0 <= i < old(self).bsize() ==> #[trigger] final(self).disk_byte(r * old(self).bsize() + i) == 0,
    {
        let new_block = self.alloc_block();
        if new_block == 0 {
            return 0;
        }
        proof {
            let k = old(self).bsize() / 512;
            assert((inode_blocks@ + k) + (n@ - 1) * k == inode_blocks@ + n@ * k) by (nonlinear_arith);
        }
        let ghost s1 = *self;
        let bs = self.block_size;
        let zero: Vec<u8> = vec![0u8; bs as usize];
        self.write_disk_data(new_block as u64 * bs, zero.as_slice());
        proof {
            crate::fs::ext2::node::lemma_blocks_whole(&s1, new_block as int, 1);
            let off = new_block * bs;
            let abs = s1.base() + off;
            assert(abs % 512 == 0);
            assert((abs / 512) * 512 == abs) by {
                vstd::arithmetic::div_mod::lemma_fundamental_div_mod(abs, 512);
            }
            assert forall|i: int| 0 <= i < old(self).bsize() && old(self).in_disk(new_block * old(self).bsize(), old(self).bsize() as int)
                implies #[trigger] self.disk_byte(new_block * old(self).bsize() + i) == 0 by {
                let pos = abs + i;
                assert(self.dev().byte(pos) == s1.write_byte(off, zero@, pos));
                assert(zero@[i] == 0);
            }
        }
        new_block
    }
}

impl<D: BlockDevice> Ext2<D> {
    /// A double-indirect mapping of `logical` to `phys` as `set_block_address` leaves it, with
    /// `sb` the second-level block it used: that block's slot holds `phys`, and where the
    /// second-level pointer was read on a coherent cache or freshly allocated and written,
    /// and the two slots are distinct and on the disk, the whole chain maps to `phys`.
    pub open spec fn pointer_chain2(&self, post: &Self, before: Inode, after: Inode, logical: u32, phys: u32, sb: u32) -> bool {
        let ppb = self.ptrs_per_block();
        let i2 = logical - 12 - ppb;
        let s1 = self.slot_offset(after.block@[13] as int, i2 / ppb);
        let s2 = self.slot_offset(sb as int, i2 % ppb);
        let held = (before.block@[13] != 0 && self.coherent()) || after.blocks == before.blocks + (if before.block@[13] == 0 {
            2int
        } else {
            1int
        }) * (self.bsize() / 512);
        &&& sb != 0
        &&& self.in_disk(s2, 4) ==> post.pointer(sb, i2 % ppb) == phys
        &&& held && s1 != s2 && self.in_disk(s1, 4) && self.in_disk(s2, 4) ==> post.block_of(after, logical) == phys
    }
}

/// Pointer slots lie on 4-byte boundaries of the device.
pub proof fn lemma_slot_aligned<D: BlockDevice>(s: &Ext2<D>, blk: u32, idx: int)
    requires
        s.wf(),
        idx >= 0,
    ensures
        (s.base() + s.slot_offset(blk as int, idx)) % 4 == 0,
        s.base() + s.slot_offset(blk as int, idx) >= 0,
{
    lemma_base_aligned(s);
    lemma_wf_block_size(s);
    let bs = s.bsize() as int;
    let q = bs / 4;
    let m = s.base() / 512;
    vstd::arithmetic::div_mod::lemma_fundamental_div_mod(s.base(), 512);
    assert(bs == 4 * q);
    let t = s.base() + s.slot_offset(blk as int, idx);
    assert(t == (128 * m + blk * q + idx) * 4) by (nonlinear_arith)
        requires
            bs == 4 * q,
            s.base() == 512 * m,
            t == s.base() + blk * bs + idx * 4,
    ;
    assert(blk * bs >= 0) by (nonlinear_arith)
        requires
            bs >= 0,
            blk >= 0,
    ;
    vstd::arithmetic::div_mod::lemma_mod_multiples_basic(128 * m + blk * q + idx, 4);
}

/// A four-byte write at a 4-aligned spot leaves every byte outside its sector as it was.
pub proof fn lemma_outside_sector<D: BlockDevice>(s: &Ext2<D>, post: &Ext2<D>, off: int, b: Seq<u8>, pos: int)
    requires
        s.write_post(post, off, b),
        b.len() == 4,
        (s.base() + off) % 4 == 0,
        s.base() + off >= 0,
        pos / 512 != (s.base() + off) / 512,
    ensures
        post.dev().byte(pos) == s.dev().byte(pos),
{
    let abs = s.base() + off;
    assert(!whole_sectors(abs, 4));
    vstd::arithmetic::div_mod::lemma_fundamental_div_mod(abs, 512);
    vstd::arithmetic::div_mod::lemma_fundamental_div_mod(pos, 512);
    assert(abs % 512 <= 508) by {
        vstd::arithmetic::div_mod::lemma_mod_mod(abs, 4, 128);
        assert((abs % 512) % 4 == abs % 4) by {
            vstd::arithmetic::div_mod::lemma_mod_mod(abs, 4, 128);
        }
    }
    assert(end_sector(abs, 4) == abs / 512 + 1) by {
        vstd::arithmetic::div_mod::lemma_fundamental_div_mod_converse(abs + 4 + 511, 512, abs / 512 + 1, abs % 512 + 3);
    }
    if (abs / 512) * 512 <= pos && pos < end_sector(abs, 4) * 512 {
        assert(pos / 512 == abs / 512) by {
            vstd::arithmetic::div_mod::lemma_fundamental_div_mod_converse(pos, 512, abs / 512, pos - (abs / 512) * 512);
        }
    }
}

impl<D: BlockDevice> Ext2<D> {
    /// A triple-indirect mapping of `logical` to `phys` as `set_block_address` leaves it,
    /// with `sb` and `tb` the second- and third-level blocks it used. On a coherent cache with
    /// the triple-indirect block in place, `sb` is the block its slot names, or the first free
    /// block when the slot is empty, and `tb` likewise from `sb`'s slot. The third-level slot
    /// holds `phys`; `sb`'s slot holds `tb` when the slots are on the disk and distinct; and
    /// where every pointer block already existed and was read on a coherent cache, and the
    /// target slot is distinct from the two slots on the way and all three are on the disk,
    /// the whole chain maps to `phys`.
    pub open spec fn pointer_chain3(&self, post: &Self, before: Inode, after: Inode, logical: u32, phys: u32, sb: u32, tb: u32) -> bool {
        let ppb = self.ptrs_per_block();
        let i3 = logical - 12 - ppb - ppb * ppb;
        let s1 = self.slot_offset(after.block@[14] as int, i3 / (ppb * ppb));
        let s2 = self.slot_offset(sb as int, (i3 % (ppb * ppb)) / ppb);
        let s3 = self.slot_offset(tb as int, (i3 % (ppb * ppb)) % ppb);
        let held = before.block@[14] != 0 && self.coherent() && after.blocks == before.blocks;
        let old_sb = self.pointer(before.block@[14], i3 / (ppb * ppb));
        let old_tb = self.pointer(old_sb, (i3 % (ppb * ppb)) / ppb);
        &&& sb != 0
        &&& tb != 0
        &&& self.coherent() && before.block@[14] != 0 ==> if old_sb != 0 { sb == old_sb } else { self.first_free_block(sb) }
        &&& self.coherent() && before.block@[14] != 0 && old_sb != 0 ==> if old_tb != 0 { tb == old_tb } else { self.first_free_block(tb) }
        &&& self.coherent() && before.block@[14] != 0 && self.in_disk(s1, 4) && self.in_disk(s2, 4) && self.in_disk(s3, 4)
            && s2 != s3 ==> post.pointer(sb, (i3 % (ppb * ppb)) / ppb) == tb
        &&& self.in_disk(s3, 4) ==> post.pointer(tb, (i3 % (ppb * ppb)) % ppb) == phys
        &&& held && s1 != s3 && s2 != s3 && self.in_disk(s1, 4) && self.in_disk(s2, 4) && self.in_disk(s3, 4) ==> post.block_of(after, logical) == phys
    }
}

/// Two views of the same disk with the same layout hand out the same first free block and
/// read the same pointers.
pub(crate) proof fn lemma_same_disk<D: BlockDevice>(a: &Ext2<D>, b: &Ext2<D>, x: u32, blk: u32, idx: int)
    requires
        a.dev() == b.dev(),
        a.same_layout(b),
    ensures
        forall|g: int| #[trigger] a.has_free_block(g) == b.has_free_block(g),
        a.first_free_block(x) == b.first_free_block(x),
        a.pointer(blk, idx) == b.pointer(blk, idx),
{
    assert forall|g: int| #[trigger] a.has_free_block(g) == b.has_free_block(g) by {
        assert(a.group_desc(g) == b.group_desc(g));
        assert(a.block_bitmap(g) == b.block_bitmap(g));
        if a.has_free_block(g) {
            let i = choose|i: int| 0 <= i < a.bsize() && #[trigger] a.block_bitmap(g)[i] != 0xFF;
            assert(b.block_bitmap(g)[i] != 0xFF);
        }
        if b.has_free_block(g) {
            let i = choose|i: int| 0 <= i < b.bsize() && #[trigger] b.block_bitmap(g)[i] != 0xFF;
            assert(a.block_bitmap(g)[i] != 0xFF);
        }
    }
    if a.first_free_block(x) {
        let (g, byte, bit) = choose|g: int, byte: int, bit: u8|
            0 <= g <= a.sb().blocks_count / a.sb().blocks_per_group && a.has_free_block(g) && (forall|h: int|
                0 <= h < g ==> !#[trigger] a.has_free_block(h)) && #[trigger] Ext2::<D>::first_clear(a.block_bitmap(g), byte, bit) && x
                == g * a.sb().blocks_per_group + byte * 8 + bit + a.sb().first_data_block;
        assert(a.block_bitmap(g) == b.block_bitmap(g));
        assert forall|h: int| 0 <= h < g implies !#[trigger] b.has_free_block(h) by {
            assert(a.has_free_block(h) == b.has_free_block(h));
        }
        assert(b.first_free_block(x));
    }
    if b.first_free_block(x) {
        let (g, byte, bit) = choose|g: int, byte: int, bit: u8|
            0 <= g <= b.sb().blocks_count / b.sb().blocks_per_group && b.has_free_block(g) && (forall|h: int|
                0 <= h < g ==> !#[trigger] b.has_free_block(h)) && #[trigger] Ext2::<D>::first_clear(b.block_bitmap(g), byte, bit) && x
                == g * b.sb().blocks_per_group + byte * 8 + bit + b.sb().first_data_block;
        assert(a.block_bitmap(g) == b.block_bitmap(g));
        assert forall|h: int| 0 <= h < g implies !#[trigger] a.has_free_block(h) by {
            assert(a.has_free_block(h) == b.has_free_block(h));
        }
        assert(a.first_free_block(x));
    }
}

/// A pointer write into slot `idx` of block `blk`, on the disk, leaves the slot holding the
/// value and the cache coherent.
proof fn lemma_fresh_slot<D: BlockDevice>(sw: &Ext2<D>, post: &Ext2<D>, blk: u32, idx: int, val: u32)
    requires
        sw.wf(),
        blk != 0,
        exists|b: Seq<u8>| b.len() == 4 && le32(b, 0) == val && #[trigger] sw.write_post(post, sw.slot_offset(blk as int, idx), b),
    ensures
        sw.in_disk(sw.slot_offset(blk as int, idx), 4) ==> post.pointer(blk, idx) == val && post.coherent(),
{
    let s2 = sw.slot_offset(blk as int, idx);
    if sw.in_disk(s2, 4) {
        let b = choose|b: Seq<u8>| b.len() == 4 && le32(b, 0) == val && #[trigger] sw.write_post(post, s2, b);
        lemma_slot_written(sw, post, blk, idx, b);
        assert(!whole_sectors(sw.base() + s2, 4));
        assert(post.coherent());
    }
}

/// A four-byte write of `b` into pointer slot `idx` of block `blk`, on the disk, leaves that
/// slot holding `b`'s number.
pub proof fn lemma_slot_written<D: BlockDevice>(mid: &Ext2<D>, post: &Ext2<D>, blk: u32, idx: int, b: Seq<u8>)
    requires
        mid.wf(),
        b.len() == 4,
        blk != 0,
        mid.in_disk(mid.slot_offset(blk as int, idx), 4),
        mid.write_post(post, mid.slot_offset(blk as int, idx), b),
    ensures
        post.pointer(blk, idx) == le32(b, 0) as u32,
{
    let s2 = mid.slot_offset(blk as int, idx);
    let abs = mid.base() + s2;
    assert(post.disk_bytes(s2, 4) =~= b) by {
        assert forall|j: int| 0 <= j < 4 implies post.disk_bytes(s2, 4)[j] == b[j] by {
            let pos = abs + j;
            assert(post.dev().byte(pos) == mid.write_byte(s2, b, pos));
            assert(!whole_sectors(abs, 4));
            assert((abs / 512) * 512 <= abs) by {
                vstd::arithmetic::div_mod::lemma_fundamental_div_mod(abs, 512);
            }
            assert(pos < end_sector(abs, 4) * 512) by {
                vstd::arithmetic::div_mod::lemma_fundamental_div_mod(abs + 4 - 1, 512);
            }
        }
    }
}

/// A coherent four-byte write of `b` into pointer slot `idx` of block `blk` leaves that slot
/// holding `b`'s number and every other slot on the disk as it was.
#[verifier::rlimit(40)]
#[verifier::spinoff_prover]
pub proof fn lemma_pointer_write<D: BlockDevice>(mid: &Ext2<D>, post: &Ext2<D>, blk: u32, idx: int, b: Seq<u8>, other: u32, oidx: int)
    requires
        mid.wf(),
        mid.coherent(),
        b.len() == 4,
        blk != 0,
        0 <= idx,
        0 <= oidx,
        mid.in_disk(mid.slot_offset(blk as int, idx), 4),
        mid.write_post(post, mid.slot_offset(blk as int, idx), b),
    ensures
        post.pointer(blk, idx) == le32(b, 0) as u32,
        post.ptrs_per_block() == mid.ptrs_per_block(),
        other != 0 && mid.slot_offset(blk as int, idx) != mid.slot_offset(other as int, oidx) && mid.in_disk(mid.slot_offset(other as int, oidx), 4)
            ==> post.pointer(other, oidx) == mid.pointer(other, oidx),
{
    let s2 = mid.slot_offset(blk as int, idx);
    lemma_write_coherent(mid, post, s2, b);
    assert(post.disk_bytes(s2, 4) =~= b) by {
        assert forall|j: int| 0 <= j < 4 implies post.disk_bytes(s2, 4)[j] == b[j] by {
            assert(post.dev().byte(post.base() + s2 + j) == mid.wrote_byte(s2, b, mid.base() + s2 + j));
        }
    }
    let s1 = mid.slot_offset(other as int, oidx);
    if other != 0 && s1 != s2 && mid.in_disk(s1, 4) {
        lemma_wf_block_size(mid);
        let bs = mid.bsize() as int;
        let q = bs / 4;
        assert(bs == 4 * q);
        assert(s1 == (other * q + oidx) * 4) by (nonlinear_arith)
            requires
                bs == 4 * q,
                s1 == other * bs + oidx * 4,
        ;
        assert(s2 == (blk * q + idx) * 4) by (nonlinear_arith)
            requires
                bs == 4 * q,
                s2 == blk * bs + idx * 4,
        ;
        vstd::arithmetic::div_mod::lemma_mod_multiples_basic(other * q + oidx, 4);
        vstd::arithmetic::div_mod::lemma_mod_multiples_basic(blk * q + idx, 4);
        assert(s1 + 4 <= s2 || s2 + 4 <= s1);
        assert(post.disk_bytes(s1, 4) =~= mid.disk_bytes(s1, 4)) by {
            assert forall|j: int| 0 <= j < 4 implies post.disk_bytes(s1, 4)[j] == mid.disk_bytes(s1, 4)[j] by {
                assert(post.dev().byte(post.base() + s1 + j) == mid.wrote_byte(s2, b, mid.base() + s1 + j));
            }
        }
    }
}

impl<D: BlockDevice> Ext2<D> {
    /// Maps logical block `logical_block` of `inode` to physical block `phys`: directly for
    /// the first twelve, otherwise through single, double or triple indirect blocks, each
    /// allocated (zero-filled, counted in the inode) when its pointer is zero.
    #[verifier::rlimit(40)]
    pub fn set_block_address(&mut self, inode: &mut Inode, logical_block: u32, phys: u32) -> (r: Result<(), Ext2Error>)
        requires
            old(self).wf(),
            old(self).can_allocate(old(self).levels(logical_block), old(inode).blocks),
        ensures
            final(self).wf(),
            final(self).base() == old(self).base(),
            final(self).bsize() == old(self).bsize(),
            final(self).ipg() == old(self).ipg(),
            final(self).dev().size() == old(self).dev().size(),
            final(self).sb().blocks_per_group == old(self).sb().blocks_per_group,
            final(self).sb().blocks_count == old(self).sb().blocks_count,
            final(self).sb().first_data_block == old(self).sb().first_data_block,
            same_but_pointers(*final(inode), *old(inode)),
            final(inode).blocks <= old(inode).blocks + 3 * (old(self).bsize() / 512),
            logical_block < 12 ==> r is Ok && *final(self) == *old(self) && final(inode).blocks == old(inode).blocks
                && final(inode).block@ == old(inode).block@.update(logical_block as int, phys),
            logical_block >= 12 && old(self).coherent() && old(self).target_slot(*old(inode), logical_block) is Some
                && old(self).in_disk(old(self).target_offset(*old(inode), logical_block), 4) ==> {
                &&& r is Ok
                &&& *final(inode) == *old(inode)
                &&& final(self).sb() == old(self).sb()
                &&& final(self).coherent()
                &&& exists|b: Seq<u8>|
                    b.len() == 4 && le32(b, 0) == phys && forall|pos: int|
                        #[trigger] final(self).dev().byte(pos) == old(self).wrote_byte(
                            old(self).target_offset(*old(inode), logical_block),
                            b,
                            pos,
                        )
            },
            old(self).levels(logical_block) == 1 ==> ({
                let slot = old(self).slot_offset(final(inode).block@[12] as int, logical_block - 12);
                &&& r is Ok ==> final(self).sb().blocks_per_group == old(self).sb().blocks_per_group && (old(self).in_disk(slot, 4)
                    ==> final(self).block_of(*final(inode), logical_block) == phys)
                &&& old(inode).block@[12] != 0 ==> r is Ok && *final(inode) == *old(inode) && final(self).sb() == old(self).sb()
                &&& old(inode).block@[12] == 0 && r is Ok ==> {
                    &&& final(inode).block@[12] != 0
                    &&& final(inode).block@ == old(inode).block@.update(12, final(inode).block@[12])
                    &&& final(inode).blocks == old(inode).blocks + old(self).bsize() / 512
                    &&& final(self).sb() == (Superblock {
                        free_blocks_count: (old(self).sb().free_blocks_count - 1) as u32,
                        ..old(self).sb()
                    })
                    &&& old(self).coherent() ==> old(self).first_free_block(final(inode).block@[12])
                }
                &&& old(inode).block@[12] == 0 && r is Ok && old(self).in_disk(final(inode).block@[12] * old(self).bsize(), old(self).bsize() as int)
                    ==> forall|i: int|
                    0 <= i < old(self).bsize() && (old(self).base() + final(inode).block@[12] * old(self).bsize() + i) / 512 != (old(self).base()
                        + slot) / 512 ==> #[trigger] final(self).disk_byte(final(inode).block@[12] * old(self).bsize() + i) == 0
                &&& old(inode).block@[12] == 0 && r is Err ==> {
                    &&& r == Err::<(), Ext2Error>(Ext2Error::NoSpaceIndirect)
                    &&& *final(inode) == *old(inode)
                    &&& old(self).sb().free_blocks_count == 0 ==> *final(self) == *old(self)
                    &&& old(self).coherent() ==> old(self).sb().free_blocks_count == 0 || old(self).first_free_block(0) || forall|g: int|
                        0 <= g <= old(self).sb().blocks_count / old(self).sb().blocks_per_group ==> !#[trigger] old(self).has_free_block(g)
                }
            }),
            old(self).levels(logical_block) == 2 && r is Ok ==> exists|sb: u32|
                #[trigger] old(self).pointer_chain2(final(self), *old(inode), *final(inode), logical_block, phys, sb),
            old(self).levels(logical_block) == 3 && r is Ok ==> exists|sb: u32, tb: u32|
                #[trigger] old(self).pointer_chain3(final(self), *old(inode), *final(inode), logical_block, phys, sb, tb),
            old(self).levels(logical_block) == 2 && old(inode).block@[13] != 0 && old(self).coherent() && old(self).pointer(
                old(inode).block@[13],
                (logical_block - 12 - old(self).ptrs_per_block()) / old(self).ptrs_per_block(),
            ) != 0 ==> r is Ok,
            old(self).levels(logical_block) == 3 && old(inode).block@[14] != 0 && old(self).coherent() && ({
                let ppb = old(self).ptrs_per_block();
                let i3 = logical_block - 12 - ppb - ppb * ppb;
                let f = old(self).pointer(old(inode).block@[14], i3 / (ppb * ppb));
                f != 0 && old(self).pointer(f, (i3 % (ppb * ppb)) / ppb) != 0
            }) ==> r is Ok,
            old(self).levels(logical_block) == 3 && old(inode).block@[14] != 0 && old(self).coherent() && ({
                let ppb = old(self).ptrs_per_block();
                let i3 = logical_block - 12 - ppb - ppb * ppb;
                old(self).pointer(old(inode).block@[14], i3 / (ppb * ppb)) != 0
            }) ==> r != Err::<(), Ext2Error>(Ext2Error::NoSpaceTripleIndirectL2),
            old(self).levels(logical_block) == 2 && old(inode).block@[13] != 0 ==> r != Err::<(), Ext2Error>(Ext2Error::NoSpaceDoubleIndirect),
            old(self).levels(logical_block) == 3 && old(inode).block@[14] != 0 ==> r != Err::<(), Ext2Error>(Ext2Error::NoSpaceTripleIndirectL1),
            r == Err::<(), Ext2Error>(Ext2Error::NoSpaceDoubleIndirect) || r == Err::<(), Ext2Error>(Ext2Error::NoSpaceTripleIndirectL1) ==> {
                &&& *final(inode) == *old(inode)
                &&& old(self).sb().free_blocks_count == 0 ==> *final(self) == *old(self)
                &&& old(self).coherent() ==> old(self).sb().free_blocks_count == 0 || old(self).first_free_block(0) || forall|g: int|
                    0 <= g <= old(self).sb().blocks_count / old(self).sb().blocks_per_group ==> !#[trigger] old(self).has_free_block(g)
            },
            r is Ok ==> final(inode).blocks == old(inode).blocks || final(inode).blocks == old(inode).blocks + old(self).bsize() / 512
                || final(inode).blocks == old(inode).blocks + 2 * (old(self).bsize() / 512) || final(inode).blocks == old(inode).blocks + 3 * (
            old(self).bsize() / 512),
            r matches Err(e) ==> if old(self).levels(logical_block) == 1 {
                e == Ext2Error::NoSpaceIndirect
            } else if old(self).levels(logical_block) == 2 {
                e == Ext2Error::NoSpaceDoubleIndirect || e == Ext2Error::NoSpaceDoubleIndirectL2
            } else {
                e == Ext2Error::NoSpaceTripleIndirectL1 || e == Ext2Error::NoSpaceTripleIndirectL2 || e
                    == Ext2Error::NoSpaceTripleIndirectL3
            },
    {
        let ghost s0 = *self;
        let ghost i0 = *inode;
        let bs = self.block_size;
        let ptrs_per_block = bs / 4;
        assert(256 <= ptrs_per_block <= 16384);
        assert(ptrs_per_block * ptrs_per_block <= 16384 * 16384) by (nonlinear_arith)
            requires
                ptrs_per_block <= 16384,
        ;
        assert(ptrs_per_block * ptrs_per_block >= 256) by (nonlinear_arith)
            requires
                ptrs_per_block >= 256,
        ;
        let per_block = (bs / 512) as u32;
        if logical_block < 12 {
            inode.block[logical_block as usize] = phys;
            return Ok(());
        }
        let mut indirect_idx = logical_block - 12;
        if (indirect_idx as u64) < ptrs_per_block {
            if inode.block[12] == 0 {
                let new_block = self.alloc_zeroed_block(Ghost(inode.blocks), Ghost(1));
                if new_block == 0 {
                    return Err(Ext2Error::NoSpaceIndirect);
                }
                inode.block[12] = new_block;
                inode.blocks = inode.blocks + per_block;
            }
            let ghost mid = *self;
            self.write_indirect_pointer(inode.block[12], indirect_idx, phys);
            proof {
                let slot = mid.slot_offset(inode.block@[12] as int, indirect_idx as int);
                let nb = inode.block@[12];
                let bsz = s0.bsize() as int;
                if i0.block@[12] == 0 && s0.in_disk(nb * bsz, bsz) {
                    let b = choose|b: Seq<u8>| b.len() == 4 && le32(b, 0) == phys && #[trigger] mid.write_post(self, slot, b);
                    lemma_slot_aligned(&mid, nb, indirect_idx as int);
                    assert forall|i: int|
                        0 <= i < bsz && (s0.base() + nb * bsz + i) / 512 != (s0.base() + slot) / 512 implies #[trigger] self.disk_byte(nb * bsz + i) == 0 by {
                        lemma_outside_sector(&mid, self, slot, b, s0.base() + nb * bsz + i);
                        assert(mid.disk_byte(nb * bsz + i) == 0);
                    }
                }
                if s0.in_disk(slot, 4) {
                    let b = choose|b: Seq<u8>| b.len() == 4 && le32(b, 0) == phys && #[trigger] mid.write_post(self, slot, b);
                    assert forall|j: int| 0 <= j < 4 implies self.disk_bytes(slot, 4)[j] == b[j] by {
                        assert(self.dev().byte(mid.base() + slot + j) == mid.write_byte(slot, b, mid.base() + slot + j));
                    }
                    assert(self.disk_bytes(slot, 4) =~= b);
                    assert(self.ptrs_per_block() == s0.ptrs_per_block());
                    assert(self.block_of(*inode, logical_block) == self.pointer(inode.block@[12], indirect_idx as int));
                }
            }
            proof {
                if s0.coherent() && s0.target_slot(i0, logical_block) is Some && s0.in_disk(s0.target_offset(i0, logical_block), 4) {
                    let b = choose|b: Seq<u8>| b.len() == 4 && le32(b, 0) == phys && #[trigger] mid.write_post(
                        self,
                        mid.slot_offset(inode.block@[12] as int, indirect_idx as int),
                        b,
                    );
                    lemma_write_coherent(&mid, self, mid.slot_offset(inode.block@[12] as int, indirect_idx as int), b);
                }
            }
            return Ok(());
        }
        indirect_idx -= ptrs_per_block as u32;
        if (indirect_idx as u64) < ptrs_per_block * ptrs_per_block {
            let first_idx = indirect_idx / ptrs_per_block as u32;
            let second_idx = indirect_idx % ptrs_per_block as u32;
            let mut allocs: Ghost<int> = Ghost(2);
            let ghost mut alloc13 = false;
            let ghost mut fresh = false;
            if inode.block[13] == 0 {
                let new_block = self.alloc_zeroed_block(Ghost(inode.blocks), Ghost(2));
                if new_block == 0 {
                    return Err(Ext2Error::NoSpaceDoubleIndirect);
                }
                inode.block[13] = new_block;
                inode.blocks = inode.blocks + per_block;
                proof {
                    allocs@ = 1;
                    alloc13 = true;
                }
            }
            let first_block = inode.block[13];
            let ghost before_read = *self;
            let ghost blocks_mid = inode.blocks;
            let mut second_block = self.read_indirect_pointer(first_block, first_idx);
            if second_block == 0 {
                second_block = self.alloc_zeroed_block(Ghost(inode.blocks), allocs);
                if second_block == 0 {
                    return Err(Ext2Error::NoSpaceDoubleIndirectL2);
                }
                let ghost sw = *self;
                self.write_indirect_pointer(first_block, first_idx, second_block);
                proof {
                    fresh = true;
                    let s1 = sw.slot_offset(first_block as int, first_idx as int);
                    if s0.in_disk(s1, 4) {
                        let b = choose|b: Seq<u8>| b.len() == 4 && le32(b, 0) == second_block && #[trigger] sw.write_post(self, s1, b);
                        lemma_slot_written(&sw, self, first_block, first_idx as int, b);
                        assert(!whole_sectors(sw.base() + s1, 4));
                        assert(self.coherent());
                    }
                }
                inode.blocks = inode.blocks + per_block;
            }
            let ghost mid = *self;
            self.write_indirect_pointer(second_block, second_idx, phys);
            proof {
                let ppb = s0.ptrs_per_block();
                let s1 = s0.slot_offset(first_block as int, first_idx as int);
                let s2 = s0.slot_offset(second_block as int, second_idx as int);
                assert(ppb == ptrs_per_block);
                assert(first_idx == (logical_block - 12 - ppb) / ppb);
                assert(second_idx == (logical_block - 12 - ppb) % ppb);
                if s0.in_disk(s2, 4) {
                    let b = choose|b: Seq<u8>| b.len() == 4 && le32(b, 0) == phys && #[trigger] mid.write_post(self, s2, b);
                    lemma_slot_written(&mid, self, second_block, second_idx as int, b);
                    let held = (i0.block@[13] != 0 && s0.coherent()) || inode.blocks == i0.blocks + (if i0.block@[13] == 0 {
                        2int
                    } else {
                        1int
                    }) * (s0.bsize() / 512);
                    if held && s1 != s2 && s0.in_disk(s1, 4) {
                        if !fresh {
                            assert(alloc13 <==> i0.block@[13] == 0);
                            assert(i0.block@[13] != 0 && s0.coherent());
                            assert(before_read == s0);
                            assert(mid.pointer(first_block, first_idx as int) == second_block);
                        }
                        assert(mid.coherent());
                        lemma_pointer_write(&mid, self, second_block, second_idx as int, b, first_block, first_idx as int);
                        assert(self.pointer(first_block, first_idx as int) == second_block);
                        assert(self.ptrs_per_block() == ppb);
                    }
                }
                assert(s0.pointer_chain2(self, i0, *inode, logical_block, phys, second_block));
            }
            proof {
                if s0.coherent() && s0.target_slot(i0, logical_block) is Some && s0.in_disk(s0.target_offset(i0, logical_block), 4) {
                    let b = choose|b: Seq<u8>| b.len() == 4 && le32(b, 0) == phys && #[trigger] mid.write_post(
                        self,
                        mid.slot_offset(second_block as int, second_idx as int),
                        b,
                    );
                    lemma_write_coherent(&mid, self, mid.slot_offset(second_block as int, second_idx as int), b);
                }
            }
            return Ok(());
        }
        proof {
            assert(s0.levels(logical_block) == 3);
        }
        self.set_triple_address(inode, logical_block, phys)
    }

    /// The triple-indirect part of `set_block_address`: maps `logical_block` through the
    /// inode's triple-indirect block, allocating each missing pointer block.
    #[verifier::rlimit(40)]
    fn set_triple_address(&mut self, inode: &mut Inode, logical_block: u32, phys: u32) -> (r: Result<(), Ext2Error>)
        requires
            old(self).wf(),
            old(self).levels(logical_block) == 3,
            old(self).can_allocate(3, old(inode).blocks),
        ensures
            final(self).wf(),
            final(self).base() == old(self).base(),
            final(self).bsize() == old(self).bsize(),
            final(self).ipg() == old(self).ipg(),
            final(self).dev().size() == old(self).dev().size(),
            final(self).sb().blocks_per_group == old(self).sb().blocks_per_group,
            final(self).sb().blocks_count == old(self).sb().blocks_count,
            final(self).sb().first_data_block == old(self).sb().first_data_block,
            same_but_pointers(*final(inode), *old(inode)),
            final(inode).blocks <= old(inode).blocks + 3 * (old(self).bsize() / 512),
            old(self).coherent() && old(self).target_slot(*old(inode), logical_block) is Some
                && old(self).in_disk(old(self).target_offset(*old(inode), logical_block), 4) ==> {
                &&& r is Ok
                &&& *final(inode) == *old(inode)
                &&& final(self).sb() == old(self).sb()
                &&& final(self).coherent()
                &&& exists|b: Seq<u8>|
                    b.len() == 4 && le32(b, 0) == phys && forall|pos: int|
                        #[trigger] final(self).dev().byte(pos) == old(self).wrote_byte(
                            old(self).target_offset(*old(inode), logical_block),
                            b,
                            pos,
                        )
            },
            r is Ok ==> exists|sb: u32, tb: u32|
                #[trigger] old(self).pointer_chain3(final(self), *old(inode), *final(inode), logical_block, phys, sb, tb),
            old(inode).block@[14] != 0 && old(self).coherent() && ({
                let ppb = old(self).ptrs_per_block();
                let i3 = logical_block - 12 - ppb - ppb * ppb;
                let f = old(self).pointer(old(inode).block@[14], i3 / (ppb * ppb));
                f != 0 && old(self).pointer(f, (i3 % (ppb * ppb)) / ppb) != 0
            }) ==> r is Ok,
            old(inode).block@[14] != 0 && old(self).coherent() && ({
                let ppb = old(self).ptrs_per_block();
                let i3 = logical_block - 12 - ppb - ppb * ppb;
                old(self).pointer(old(inode).block@[14], i3 / (ppb * ppb)) != 0
            }) ==> r != Err::<(), Ext2Error>(Ext2Error::NoSpaceTripleIndirectL2),
            old(inode).block@[14] != 0 ==> r != Err::<(), Ext2Error>(Ext2Error::NoSpaceTripleIndirectL1),
            r == Err::<(), Ext2Error>(Ext2Error::NoSpaceTripleIndirectL1) ==> {
                &&& *final(inode) == *old(inode)
                &&& old(self).sb().free_blocks_count == 0 ==> *final(self) == *old(self)
                &&& old(self).coherent() ==> old(self).sb().free_blocks_count == 0 || old(self).first_free_block(0) || forall|g: int|
                    0 <= g <= old(self).sb().blocks_count / old(self).sb().blocks_per_group ==> !#[trigger] old(self).has_free_block(g)
            },
            r is Ok ==> final(inode).blocks == old(inode).blocks || final(inode).blocks == old(inode).blocks + old(self).bsize() / 512
                || final(inode).blocks == old(inode).blocks + 2 * (old(self).bsize() / 512) || final(inode).blocks == old(inode).blocks + 3 * (
            old(self).bsize() / 512),
            r matches Err(e) ==> e == Ext2Error::NoSpaceTripleIndirectL1 || e == Ext2Error::NoSpaceTripleIndirectL2 || e
                == Ext2Error::NoSpaceTripleIndirectL3,
    {
        let ghost s0 = *self;
        let ghost i0 = *inode;
        let bs = self.block_size;
        let ptrs_per_block = bs / 4;
        assert(256 <= ptrs_per_block <= 16384);
        assert(ptrs_per_block * ptrs_per_block <= 16384 * 16384) by (nonlinear_arith)
            requires
                ptrs_per_block <= 16384,
        ;
        assert(ptrs_per_block * ptrs_per_block >= 256) by (nonlinear_arith)
            requires
                ptrs_per_block >= 256,
        ;
        let per_block = (bs / 512) as u32;
        let mut indirect_idx = logical_block - 12 - ptrs_per_block as u32;
        indirect_idx -= (ptrs_per_block * ptrs_per_block) as u32;
        let first_idx = indirect_idx / (ptrs_per_block * ptrs_per_block) as u32;
        let rem = indirect_idx % (ptrs_per_block * ptrs_per_block) as u32;
        let second_idx = rem / ptrs_per_block as u32;
        let third_idx = rem % ptrs_per_block as u32;
        let mut allocs: Ghost<int> = Ghost(3);
        let ghost mut any_alloc = false;
        if inode.block[14] == 0 {
            let new_block = self.alloc_zeroed_block(Ghost(inode.blocks), Ghost(3));
            if new_block == 0 {
                return Err(Ext2Error::NoSpaceTripleIndirectL1);
            }
            inode.block[14] = new_block;
            inode.blocks = inode.blocks + per_block;
            proof {
                allocs@ = 2;
                any_alloc = true;
            }
        }
        let first_block = inode.block[14];
        let ghost r1 = *self;
        let mut second_block = self.read_indirect_pointer(first_block, first_idx);
        let ghost rr1 = *self;
        let ghost sb_read = second_block;
        proof {
            if s0.coherent() && i0.block@[14] != 0 {
                assert(r1 == s0);
                assert(sb_read == s0.pointer(first_block, first_idx as int));
                assert(rr1.coherent());
                lemma_same_disk(&rr1, &s0, 0, first_block, first_idx as int);
            }
        }
        if second_block == 0 {
            second_block = self.alloc_zeroed_block(Ghost(inode.blocks), allocs);
            proof {
                if s0.coherent() && i0.block@[14] != 0 && second_block != 0 {
                    lemma_same_disk(&rr1, &s0, second_block, first_block, first_idx as int);
                    assert(s0.first_free_block(second_block));
                }
            }
            if second_block == 0 {
                return Err(Ext2Error::NoSpaceTripleIndirectL2);
            }
            let ghost sw1 = *self;
            self.write_indirect_pointer(first_block, first_idx, second_block);
            inode.blocks = inode.blocks + per_block;
            proof {
                allocs@ = allocs@ - 1;
                any_alloc = true;
                lemma_fresh_slot(&sw1, self, first_block, first_idx as int, second_block);
            }
        }
        let ghost r2 = *self;
        let ghost on_path = s0.coherent() && i0.block@[14] != 0 && s0.in_disk(s0.slot_offset(first_block as int, first_idx as int), 4);
        proof {
            if on_path {
                assert(r2.coherent());
            }
        }
        let ghost mut tb_fresh = false;
        let mut third_block = self.read_indirect_pointer(second_block, second_idx);
        let ghost rr2 = *self;
        let ghost tb_read = third_block;
        proof {
            if s0.coherent() && i0.block@[14] != 0 && sb_read != 0 {
                assert(r2 == rr1);
                lemma_same_disk(&r2, &s0, 0, second_block, second_idx as int);
                assert(tb_read == s0.pointer(second_block, second_idx as int));
                assert(rr2.coherent());
                lemma_same_disk(&rr2, &s0, 0, second_block, second_idx as int);
            }
        }
        if third_block == 0 {
            third_block = self.alloc_zeroed_block(Ghost(inode.blocks), allocs);
            proof {
                if s0.coherent() && i0.block@[14] != 0 && sb_read != 0 && third_block != 0 {
                    lemma_same_disk(&rr2, &s0, third_block, second_block, second_idx as int);
                    assert(s0.first_free_block(third_block));
                }
            }
            if third_block == 0 {
                return Err(Ext2Error::NoSpaceTripleIndirectL3);
            }
            let ghost sw = *self;
            self.write_indirect_pointer(second_block, second_idx, third_block);
            inode.blocks = inode.blocks + per_block;
            proof {
                any_alloc = true;
                lemma_fresh_slot(&sw, self, second_block, second_idx as int, third_block);
                tb_fresh = true;
            }
        }
        let ghost mid = *self;
        proof {
            if on_path && s0.in_disk(s0.slot_offset(second_block as int, second_idx as int), 4) {
                if !tb_fresh {
                    assert(mid.dev() == r2.dev());
                    assert(mid.pointer(second_block, second_idx as int) == r2.pointer(second_block, second_idx as int));
                }
                assert(mid.coherent());
                assert(mid.pointer(second_block, second_idx as int) == third_block);
            }
        }
        self.write_indirect_pointer(third_block, third_idx, phys);
        proof {
            let ppb = s0.ptrs_per_block();
            assert(ppb == ptrs_per_block);
            let i3 = logical_block - 12 - ppb - ppb * ppb;
            assert(first_idx == i3 / (ppb * ppb));
            assert(second_idx == (i3 % (ppb * ppb)) / ppb);
            assert(third_idx == (i3 % (ppb * ppb)) % ppb);
            let s1 = s0.slot_offset(first_block as int, first_idx as int);
            let s2 = s0.slot_offset(second_block as int, second_idx as int);
            let s3 = s0.slot_offset(third_block as int, third_idx as int);
            if s0.in_disk(s3, 4) {
                let b = choose|b: Seq<u8>| b.len() == 4 && le32(b, 0) == phys && #[trigger] mid.write_post(self, s3, b);
                lemma_slot_written(&mid, self, third_block, third_idx as int, b);
                if on_path && s0.in_disk(s2, 4) && s2 != s3 {
                    lemma_pointer_write(&mid, self, third_block, third_idx as int, b, second_block, second_idx as int);
                }
                if i0.block@[14] != 0 && s0.coherent() && inode.blocks == i0.blocks && s1 != s3 && s2 != s3 && s0.in_disk(s1, 4) && s0.in_disk(s2, 4) {
                    assert(!any_alloc);
                    assert(r1 == s0);
                    assert(second_block == s0.pointer(first_block, first_idx as int));
                    assert(third_block == s0.pointer(second_block, second_idx as int));
                    lemma_pointer_write(&mid, self, third_block, third_idx as int, b, first_block, first_idx as int);
                    lemma_pointer_write(&mid, self, third_block, third_idx as int, b, second_block, second_idx as int);
                    assert(self.ptrs_per_block() == ppb);
                }
            }
            assert(s0.pointer_chain3(self, i0, *inode, logical_block, phys, second_block, third_block));
        }
        proof {
            if s0.coherent() && s0.target_slot(i0, logical_block) is Some && s0.in_disk(s0.target_offset(i0, logical_block), 4) {
                let b = choose|b: Seq<u8>| b.len() == 4 && le32(b, 0) == phys && #[trigger] mid.write_post(
                    self,
                    mid.slot_offset(third_block as int, third_idx as int),
                    b,
                );
                lemma_write_coherent(&mid, self, mid.slot_offset(third_block as int, third_idx as int), b);
            }
        }
        Ok(())
    }
}

/// The ext2 superblock magic number.
pub const EXT2_MAGIC: u16 = 0xEF53;

/// `1024 << log` for the shifts ext2 allows.
pub open spec fn block_size_for(log: u32) -> int {
    if log == 0 {
        1024
    } else if log == 1 {
        2048
    } else if log == 2 {
        4096
    } else if log == 3 {
        8192
    } else if log == 4 {
        16384
    } else if log == 5 {
        32768
    } else {
        65536
    }
}

impl<D: BlockDevice> Ext2<D> {
    /// Mounts the ext2 file system whose partition starts at sector `base_lba` of `device`:
    /// reads the superblock 1024 bytes in, checks its magic number and takes the block size
    /// from it. The cache starts empty.
    pub fn new(device: D, base_lba: u64) -> (r: Result<Self, Ext2Error>)
        requires
            device.size() % 512 == 0,
            device.size() <= 0x4000_0000_0000_0000,
            base_lba * 512 <= device.size(),
        ensures
            ({
                let bytes = device_bytes(device, (base_lba + 2) * 512, 1024);
                let magic = le16(bytes, 56);
                match r {
                    Ok(fs) => {
                        &&& magic == EXT2_MAGIC
                        &&& fs.wf()
                        &&& fs.dev() == device
                        &&& fs.base() == base_lba * 512
                        &&& superblock_encoded(fs.sb(), bytes, 0)
                        &&& fs.sb().log_block_size <= 6
                        &&& fs.bsize() == block_size_for(fs.sb().log_block_size)
                        &&& fs.ipg() == fs.sb().inodes_per_group
                        &&& fs.cached() is None
                        &&& fs.coherent()
                    },
                    Err(Ext2Error::InvalidMagic(m)) => m == magic && magic != EXT2_MAGIC,
                    Err(Ext2Error::UnsupportedBlockSize(log)) => magic == EXT2_MAGIC && log == le32(bytes, 24) && log > 6,
                    Err(_) => false,
                }
            }),
    {
        let mut buf: Vec<u8> = vec![0u8; 1024];
        device.read(base_lba + 2, buf.as_mut_slice());
        let superblock = parse_superblock(buf.as_slice(), 0);
        let magic = superblock.s_magic;
        proof {
            assert(buf@ =~= device_bytes(device, (base_lba + 2) * 512, 1024));
        }
        if magic != EXT2_MAGIC {
            return Err(Ext2Error::InvalidMagic(magic));
        }
        let log = superblock.log_block_size;
        if log > 6 {
            return Err(Ext2Error::UnsupportedBlockSize(log));
        }
        let block_size: u64 = 1024u64 << log;
        proof {
            assert(log == 0 ==> 1024u64 << log == 1024) by (bit_vector);
            assert(log == 1 ==> 1024u64 << log == 2048) by (bit_vector);
            assert(log == 2 ==> 1024u64 << log == 4096) by (bit_vector);
            assert(log == 3 ==> 1024u64 << log == 8192) by (bit_vector);
            assert(log == 4 ==> 1024u64 << log == 16384) by (bit_vector);
            assert(log == 5 ==> 1024u64 << log == 32768) by (bit_vector);
            assert(log == 6 ==> 1024u64 << log == 65536) by (bit_vector);
        }
        Ok(Ext2 {
            device,
            base_lba,
            superblock,
            block_size,
            inodes_per_group: superblock.inodes_per_group,
            cache_lba: None,
            cache_data: vec![0u8; 512],
        })
    }
}

/// Whether bit `bit` of `byte` is clear.
pub open spec fn bit_clear(byte: u8, bit: u8) -> bool {
    byte & (1u8 << bit) == 0
}

/// A byte that is not all ones has a clear bit below eight.
proof fn lemma_not_full_has_clear(b: u8)
    requires
        b != 0xFF,
    ensures
        exists|bit: u8| bit < 8 && #[trigger] bit_clear(b, bit),
{
    assert(b & (1u8 << 0u8) == 0 || b & (1u8 << 1u8) == 0 || b & (1u8 << 2u8) == 0 || b & (1u8 << 3u8) == 0
        || b & (1u8 << 4u8) == 0 || b & (1u8 << 5u8) == 0 || b & (1u8 << 6u8) == 0 || b & (1u8 << 7u8) == 0)
        by (bit_vector)
        requires
            b != 0xFF,
    ;
    if bit_clear(b, 0) {
    } else if bit_clear(b, 1) {
    } else if bit_clear(b, 2) {
    } else if bit_clear(b, 3) {
    } else if bit_clear(b, 4) {
    } else if bit_clear(b, 5) {
    } else if bit_clear(b, 6) {
    } else {
        assert(bit_clear(b, 7));
    }
}

/// A byte with a clear bit below eight is not all ones.
proof fn lemma_clear_not_full(b: u8, bit: u8)
    requires
        bit < 8,
        bit_clear(b, bit),
    ensures
        b != 0xFF,
{
    assert(bit < 8 ==> 0xFFu8 & (1u8 << bit) != 0) by (bit_vector);
}

/// The first clear bit of a bitmap: the first byte that is not all ones, and its lowest
/// clear bit.
fn find_clear_bit(bitmap: &[u8]) -> (r: Option<(usize, u8)>)
    ensures
        r is None <==> forall|i: int| 0 <= i < bitmap@.len() ==> #[trigger] bitmap@[i] == 0xFF,
        r matches Some((byte_idx, bit)) ==> {
            &&& byte_idx < bitmap@.len()
            &&& bit < 8
            &&& bit_clear(bitmap@[byte_idx as int], bit)
            &&& forall|i: int| 0 <= i < byte_idx ==> #[trigger] bitmap@[i] == 0xFF
            &&& forall|b: u8| b < bit ==> !#[trigger] bit_clear(bitmap@[byte_idx as int], b)
        },
{
    let n = bitmap.len();
    let mut byte_idx: usize = 0;
    while byte_idx < n
        invariant
            n == bitmap@.len(),
            byte_idx <= n,
            forall|i: int| 0 <= i < byte_idx ==> #[trigger] bitmap@[i] == 0xFF,
        decreases n - byte_idx,
    {
        let byte = bitmap[byte_idx];
        if byte != 0xFF {
            proof {
                lemma_not_full_has_clear(byte);
            }
            let mut bit: u8 = 0;
            while bit < 8
                invariant
                    n == bitmap@.len(),
                    byte_idx < n,
                    forall|i: int| 0 <= i < byte_idx ==> #[trigger] bitmap@[i] == 0xFF,
                    byte == bitmap@[byte_idx as int],
                    byte != 0xFF,
                    bit <= 8,
                    exists|c: u8| c < 8 && #[trigger] bit_clear(byte, c),
                    forall|b: u8| b < bit ==> !#[trigger] bit_clear(byte, b),
                decreases 8 - bit,
            {
                if byte & (1u8 << bit) == 0 {
                    return Some((byte_idx, bit));
                }
                bit += 1;
            }
            proof {
                let c = choose|c: u8| c < 8 && #[trigger] bit_clear(byte, c);
                assert(!bit_clear(byte, c));
            }
        }
        byte_idx += 1;
    }
    None
}

impl<D: BlockDevice> Ext2<D> {
    /// The bytes of block group `g`'s descriptor as the disk holds them.
    pub open spec fn group_desc(&self, g: int) -> Seq<u8> {
        self.disk_bytes(self.bgd_offset(g), 32)
    }

    /// The block bitmap of group `g` as the disk holds it.
    pub open spec fn block_bitmap(&self, g: int) -> Seq<u8> {
        self.disk_bytes(le32(self.group_desc(g), 0) * self.bsize(), self.bsize() as nat)
    }

    /// The inode bitmap of group `g` as the disk holds it.
    pub open spec fn inode_bitmap(&self, g: int) -> Seq<u8> {
        self.disk_bytes(le32(self.group_desc(g), 4) * self.bsize(), self.bsize() as nat)
    }

    /// Group `g` says it has a free block and its bitmap shows one.
    pub open spec fn has_free_block(&self, g: int) -> bool {
        le16(self.group_desc(g), 12) > 0 && exists|i: int| 0 <= i < self.bsize() && #[trigger] self.block_bitmap(g)[i] != 0xFF
    }

    /// Group `g` says it has a free inode and its bitmap shows one.
    pub open spec fn has_free_inode(&self, g: int) -> bool {
        le16(self.group_desc(g), 14) > 0 && exists|i: int| 0 <= i < self.bsize() && #[trigger] self.inode_bitmap(g)[i] != 0xFF
    }

    /// Bit `bit` of byte `byte` is the first clear bit of `bitmap`.
    pub open spec fn first_clear(bitmap: Seq<u8>, byte: int, bit: u8) -> bool {
        &&& 0 <= byte < bitmap.len()
        &&& bit < 8
        &&& bit_clear(bitmap[byte], bit)
        &&& forall|i: int| 0 <= i < byte ==> #[trigger] bitmap[i] == 0xFF
        &&& forall|b: u8| b < bit ==> !#[trigger] bit_clear(bitmap[byte], b)
    }

    /// The block a first-fit scan of the disk hands out: group `g` is the first with a free
    /// block, and the block is the first clear bit of its bitmap.
    pub open spec fn first_free_block(&self, r: u32) -> bool {
        exists|g: int, byte: int, bit: u8|
            0 <= g <= self.sb().blocks_count / self.sb().blocks_per_group && self.has_free_block(g) && (forall|h: int|
                0 <= h < g ==> !#[trigger] self.has_free_block(h)) && #[trigger] Self::first_clear(self.block_bitmap(g), byte, bit) && r
                == g * self.sb().blocks_per_group + byte * 8 + bit + self.sb().first_data_block
    }

    /// The inode a first-fit scan of the disk hands out.
    pub open spec fn first_free_inode(&self, r: u32) -> bool {
        exists|g: int, byte: int, bit: u8|
            0 <= g <= self.sb().inodes_count / self.sb().inodes_per_group && self.has_free_inode(g) && (forall|h: int|
                0 <= h < g ==> !#[trigger] self.has_free_inode(h)) && #[trigger] Self::first_clear(self.inode_bitmap(g), byte, bit) && r
                == g * self.sb().inodes_per_group + byte * 8 + bit + 1
    }
}

impl<D: BlockDevice> Ext2<D> {
    /// Looks in block group `group` for a free block: its descriptor, when it counts free
    /// blocks, and the first clear bit of its block bitmap.
    #[verifier::spinoff_prover]
    #[verifier::rlimit(60)]
    fn scan_group_for_block(&mut self, group: u32) -> (r: Option<(BlockGroupDescriptor, Vec<u8>, usize, u8)>)
        requires
            old(self).wf(),
        ensures
            final(self).wf(),
            final(self).same_layout(old(self)),
            final(self).dev() == old(self).dev(),
            old(self).coherent() ==> final(self).coherent(),
            old(self).coherent() ==> (r is None <==> !old(self).has_free_block(group as int)),
            r matches Some((bg, bitmap, byte_idx, bit_idx)) ==> {
                &&& bg.free_blocks_count > 0
                &&& bitmap@.len() == old(self).bsize()
                &&& byte_idx < bitmap@.len()
                &&& bit_idx < 8
                &&& old(self).coherent() ==> Self::first_clear(old(self).block_bitmap(group as int), byte_idx as int, bit_idx)
            },
    {
        let ghost s0 = *self;
        let bs = self.block_size;
        let bg = self.read_block_group_descriptor(group);
        proof {
            if s0.coherent() {
                assert(bg.free_blocks_count == le16(s0.group_desc(group as int), 12));
                assert(bg.block_bitmap == le32(s0.group_desc(group as int), 0));
            }
        }
        if bg.free_blocks_count == 0 {
            return None;
        }
        let mut bitmap: Vec<u8> = vec![0u8; bs as usize];
        let ghost st2 = *self;
        self.read_disk_data(bg.block_bitmap as u64 * bs, bitmap.as_mut_slice());
        proof {
            assert(whole_sectors(st2.base() + bg.block_bitmap * bs, bs as int));
            assert(bitmap@ =~= st2.disk_bytes(bg.block_bitmap * bs, bs as nat));
            if s0.coherent() {
                assert(bitmap@ =~= s0.block_bitmap(group as int));
            }
        }
        match find_clear_bit(bitmap.as_slice()) {
            Some((byte_idx, bit_idx)) => {
                proof {
                    lemma_clear_not_full(bitmap@[byte_idx as int], bit_idx);
                    if s0.coherent() {
                        assert(s0.block_bitmap(group as int)[byte_idx as int] != 0xFF);
                    }
                }
                Some((bg, bitmap, byte_idx, bit_idx))
            },
            None => None,
        }
    }

    /// Allocates the first free block (first group with one, first clear bit of its bitmap),
    /// marks it used in the bitmap, the group descriptor and the superblock; zero when none,
    /// and zero at once when the superblock counts no free block.
    pub(crate) fn alloc_block(&mut self) -> (r: u32)
        requires
            old(self).wf(),
            old(self).sb().blocks_per_group > 0,
            old(self).sb().blocks_count + 8 * old(self).bsize() + old(self).sb().first_data_block <= u32::MAX,
        ensures
            final(self).wf(),
            final(self).base() == old(self).base(),
            final(self).bsize() == old(self).bsize(),
            final(self).ipg() == old(self).ipg(),
            final(self).dev().size() == old(self).dev().size(),
            final(self).sb() == old(self).sb() && final(self).dev() == old(self).dev() && r == 0 || final(self).sb() == (Superblock {
                free_blocks_count: (old(self).sb().free_blocks_count - 1) as u32,
                ..old(self).sb()
            }) && (old(self).coherent() ==> old(self).first_free_block(r)),
            old(self).sb().free_blocks_count == 0 ==> r == 0 && *final(self) == *old(self),
            old(self).coherent() && old(self).sb().free_blocks_count > 0 ==> (final(self).sb() == old(self).sb() <==> forall|g: int|
                0 <= g <= old(self).sb().blocks_count / old(self).sb().blocks_per_group ==> !#[trigger] old(self).has_free_block(g)),
    {
        if self.superblock.free_blocks_count == 0 {
            return 0;
        }
        let ghost s0 = *self;
        let groups = self.superblock.blocks_count / self.superblock.blocks_per_group;
        let mut i: u32 = 0;
        loop
            invariant_except_break
                s0 == *old(self),
                self.wf(),
                self.same_layout(&s0),
                self.dev() == s0.dev(),
                s0.wf(),
                groups == s0.sb().blocks_count / s0.sb().blocks_per_group,
                s0.sb().blocks_per_group > 0,
                s0.sb().free_blocks_count > 0,
                s0.sb().blocks_count + 8 * s0.bsize() + s0.sb().first_data_block <= u32::MAX,
                i <= groups,
                s0.coherent() ==> self.coherent(),
                s0.coherent() ==> forall|h: int| 0 <= h < i ==> !#[trigger] s0.has_free_block(h),
            ensures
                s0 == *old(self),
                self.wf(),
                self.same_layout(&s0),
                self.dev() == s0.dev(),
                s0.coherent() ==> forall|h: int| 0 <= h <= groups ==> !#[trigger] s0.has_free_block(h),
            decreases groups - i,
        {
            let ghost st = *self;
            let found = self.scan_group_for_block(i);
            assert(self.same_layout(&s0));
            match found {
                Some((bg, bitmap, byte_idx, bit_idx)) => {
                    proof {
                        assert(bitmap@.len() == s0.bsize());
                    }
                    self.claim_block(i, bg, bitmap, byte_idx, bit_idx);
                    assert(self.base() == s0.base());
                    proof {
                        assert(i * s0.sb().blocks_per_group <= s0.sb().blocks_count) by (nonlinear_arith)
                            requires
                                i <= s0.sb().blocks_count / s0.sb().blocks_per_group,
                                s0.sb().blocks_per_group > 0,
                        ;
                    }
                    let block_id = (i * self.superblock.blocks_per_group) + (byte_idx as u32 * 8) + bit_idx as u32
                        + self.superblock.first_data_block;
                    proof {
                        if s0.coherent() {
                            assert(st.has_free_block(i as int));
                            assert(st.group_desc(i as int) == s0.group_desc(i as int));
                            assert(st.block_bitmap(i as int) == s0.block_bitmap(i as int));
                            assert(s0.has_free_block(i as int));
                            assert(Self::first_clear(s0.block_bitmap(i as int), byte_idx as int, bit_idx));
                        }
                    }
                    return block_id;
                },
                None => {
                    proof {
                        if s0.coherent() {
                            assert(!st.has_free_block(i as int));
                            assert(st.group_desc(i as int) == s0.group_desc(i as int));
                            assert(st.block_bitmap(i as int) == s0.block_bitmap(i as int));
                            assert(!s0.has_free_block(i as int));
                        }
                    }
                },
            }
            if i == groups {
                break;
            }
            i += 1;
        }
        0
    }
}

impl<D: BlockDevice> Ext2<D> {
    /// Marks bit `bit_idx` of byte `byte_idx` used in `bitmap`, the block bitmap of group
    /// `group` read with descriptor `bg`, and counts one block less free in the descriptor
    /// and the superblock, writing all three back.
    fn claim_block(&mut self, group: u32, bg: BlockGroupDescriptor, bitmap: Vec<u8>, byte_idx: usize, bit_idx: u8)
        requires
            old(self).wf(),
            bg.free_blocks_count > 0,
            old(self).sb().free_blocks_count > 0,
            byte_idx < bitmap@.len(),
            bit_idx < 8,
        ensures
            final(self).wf(),
            final(self).base() == old(self).base(),
            final(self).bsize() == old(self).bsize(),
            final(self).ipg() == old(self).ipg(),
            final(self).dev().size() == old(self).dev().size(),
            final(self).sb() == (Superblock { free_blocks_count: (old(self).sb().free_blocks_count - 1) as u32, ..old(self).sb() }),
    {
        let mut bitmap = bitmap;
        let mut bg = bg;
        let bs = self.block_size;
        let old_byte = bitmap[byte_idx];
        bitmap.set(byte_idx, old_byte | (1u8 << bit_idx));
        self.write_disk_data(bg.block_bitmap as u64 * bs, bitmap.as_slice());
        bg.free_blocks_count = bg.free_blocks_count - 1;
        self.write_block_group_descriptor(group, &bg);
        self.superblock.free_blocks_count = self.superblock.free_blocks_count - 1;
        let ghost s1 = *self;
        self.write_superblock();
        assert(self.sb() =~= s1.sb());
    }
}

impl<D: BlockDevice> Ext2<D> {
    /// Looks in block group `group` for a free inode: its descriptor, when it counts free
    /// blocks, and the first clear bit of its inode bitmap.
    #[verifier::spinoff_prover]
    #[verifier::rlimit(60)]
    fn scan_group_for_inode(&mut self, group: u32) -> (r: Option<(BlockGroupDescriptor, Vec<u8>, usize, u8)>)
        requires
            old(self).wf(),
        ensures
            final(self).wf(),
            final(self).same_layout(old(self)),
            final(self).dev() == old(self).dev(),
            old(self).coherent() ==> final(self).coherent(),
            old(self).coherent() ==> (r is None <==> !old(self).has_free_inode(group as int)),
            r matches Some((bg, bitmap, byte_idx, bit_idx)) ==> {
                &&& bg.free_inodes_count > 0
                &&& bitmap@.len() == old(self).bsize()
                &&& byte_idx < bitmap@.len()
                &&& bit_idx < 8
                &&& old(self).coherent() ==> Self::first_clear(old(self).inode_bitmap(group as int), byte_idx as int, bit_idx)
            },
    {
        let ghost s0 = *self;
        let bs = self.block_size;
        let bg = self.read_block_group_descriptor(group);
        proof {
            if s0.coherent() {
                assert(bg.free_inodes_count == le16(s0.group_desc(group as int), 14));
                assert(bg.inode_bitmap == le32(s0.group_desc(group as int), 4));
            }
        }
        if bg.free_inodes_count == 0 {
            return None;
        }
        let mut bitmap: Vec<u8> = vec![0u8; bs as usize];
        let ghost st2 = *self;
        self.read_disk_data(bg.inode_bitmap as u64 * bs, bitmap.as_mut_slice());
        proof {
            assert(whole_sectors(st2.base() + bg.inode_bitmap * bs, bs as int));
            assert(bitmap@ =~= st2.disk_bytes(bg.inode_bitmap * bs, bs as nat));
            if s0.coherent() {
                assert(bitmap@ =~= s0.inode_bitmap(group as int));
            }
        }
        match find_clear_bit(bitmap.as_slice()) {
            Some((byte_idx, bit_idx)) => {
                proof {
                    lemma_clear_not_full(bitmap@[byte_idx as int], bit_idx);
                    if s0.coherent() {
                        assert(s0.inode_bitmap(group as int)[byte_idx as int] != 0xFF);
                    }
                }
                Some((bg, bitmap, byte_idx, bit_idx))
            },
            None => None,
        }
    }

    /// Allocates the first free inode (first group with one, first clear bit of its bitmap),
    /// marks it used in the bitmap, the group descriptor and the superblock; zero when none,
    /// and zero at once when the superblock counts no free inode.
    pub(crate) fn alloc_inode(&mut self) -> (r: u32)
        requires
            old(self).wf(),
            old(self).sb().inodes_per_group > 0,
            old(self).sb().inodes_count + 8 * old(self).bsize() + 1 <= u32::MAX,
        ensures
            final(self).wf(),
            final(self).base() == old(self).base(),
            final(self).bsize() == old(self).bsize(),
            final(self).ipg() == old(self).ipg(),
            final(self).dev().size() == old(self).dev().size(),
            final(self).sb() == old(self).sb() && final(self).dev() == old(self).dev() && r == 0 || final(self).sb() == (Superblock {
                free_inodes_count: (old(self).sb().free_inodes_count - 1) as u32,
                ..old(self).sb()
            }) && (old(self).coherent() ==> old(self).first_free_inode(r)),
            old(self).sb().free_inodes_count == 0 ==> r == 0 && *final(self) == *old(self),
            old(self).coherent() && old(self).sb().free_inodes_count > 0 ==> (final(self).sb() == old(self).sb() <==> forall|g: int|
                0 <= g <= old(self).sb().inodes_count / old(self).sb().inodes_per_group ==> !#[trigger] old(self).has_free_inode(g)),
    {
        if self.superblock.free_inodes_count == 0 {
            return 0;
        }
        let ghost s0 = *self;
        let groups = self.superblock.inodes_count / self.superblock.inodes_per_group;
        let mut i: u32 = 0;
        loop
            invariant_except_break
                s0 == *old(self),
                self.wf(),
                self.same_layout(&s0),
                self.dev() == s0.dev(),
                s0.wf(),
                groups == s0.sb().inodes_count / s0.sb().inodes_per_group,
                s0.sb().inodes_per_group > 0,
                s0.sb().free_inodes_count > 0,
                s0.sb().inodes_count + 8 * s0.bsize() + 1 <= u32::MAX,
                i <= groups,
                s0.coherent() ==> self.coherent(),
                s0.coherent() ==> forall|h: int| 0 <= h < i ==> !#[trigger] s0.has_free_inode(h),
            ensures
                s0 == *old(self),
                self.wf(),
                self.same_layout(&s0),
                self.dev() == s0.dev(),
                s0.coherent() ==> forall|h: int| 0 <= h <= groups ==> !#[trigger] s0.has_free_inode(h),
            decreases groups - i,
        {
            let ghost st = *self;
            let found = self.scan_group_for_inode(i);
            assert(self.same_layout(&s0));
            match found {
                Some((bg, bitmap, byte_idx, bit_idx)) => {
                    proof {
                        assert(bitmap@.len() == s0.bsize());
                    }
                    self.claim_inode(i, bg, bitmap, byte_idx, bit_idx);
                    assert(self.base() == s0.base());
                    proof {
                        assert(i * s0.sb().inodes_per_group <= s0.sb().inodes_count) by (nonlinear_arith)
                            requires
                                i <= s0.sb().inodes_count / s0.sb().inodes_per_group,
                                s0.sb().inodes_per_group > 0,
                        ;
                    }
                    let inode_id = (i * self.superblock.inodes_per_group) + (byte_idx as u32 * 8) + bit_idx as u32
                        + 1;
                    proof {
                        if s0.coherent() {
                            assert(st.has_free_inode(i as int));
                            assert(st.group_desc(i as int) == s0.group_desc(i as int));
                            assert(st.inode_bitmap(i as int) == s0.inode_bitmap(i as int));
                            assert(s0.has_free_inode(i as int));
                            assert(Self::first_clear(s0.inode_bitmap(i as int), byte_idx as int, bit_idx));
                        }
                    }
                    return inode_id;
                },
                None => {
                    proof {
                        if s0.coherent() {
                            assert(!st.has_free_inode(i as int));
                            assert(st.group_desc(i as int) == s0.group_desc(i as int));
                            assert(st.inode_bitmap(i as int) == s0.inode_bitmap(i as int));
                            assert(!s0.has_free_inode(i as int));
                        }
                    }
                },
            }
            if i == groups {
                break;
            }
            i += 1;
        }
        0
    }
}

impl<D: BlockDevice> Ext2<D> {
    /// Marks bit `bit_idx` of byte `byte_idx` used in `bitmap`, the inode bitmap of group
    /// `group` read with descriptor `bg`, and counts one block less free in the descriptor
    /// and the superblock, writing all three back.
    fn claim_inode(&mut self, group: u32, bg: BlockGroupDescriptor, bitmap: Vec<u8>, byte_idx: usize, bit_idx: u8)
        requires
            old(self).wf(),
            bg.free_inodes_count > 0,
            old(self).sb().free_inodes_count > 0,
            byte_idx < bitmap@.len(),
            bit_idx < 8,
        ensures
            final(self).wf(),
            final(self).base() == old(self).base(),
            final(self).bsize() == old(self).bsize(),
            final(self).ipg() == old(self).ipg(),
            final(self).dev().size() == old(self).dev().size(),
            final(self).sb() == (Superblock { free_inodes_count: (old(self).sb().free_inodes_count - 1) as u32, ..old(self).sb() }),
    {
        let mut bitmap = bitmap;
        let mut bg = bg;
        let bs = self.block_size;
        let old_byte = bitmap[byte_idx];
        bitmap.set(byte_idx, old_byte | (1u8 << bit_idx));
        self.write_disk_data(bg.inode_bitmap as u64 * bs, bitmap.as_slice());
        bg.free_inodes_count = bg.free_inodes_count - 1;
        self.write_block_group_descriptor(group, &bg);
        self.superblock.free_inodes_count = self.superblock.free_inodes_count - 1;
        let ghost s1 = *self;
        self.write_superblock();
        assert(self.sb() =~= s1.sb());
    }
}

impl<D: BlockDevice> Ext2<D> {
    /// Group and index within the group of block `block_id`.
    pub open spec fn block_place(&self, block_id: u32) -> (int, int) {
        let idx = block_id - self.sb().first_data_block;
        (idx / (self.sb().blocks_per_group as int), idx % (self.sb().blocks_per_group as int))
    }

    /// Whether freeing block `block_id` finds its bit set, reading the descriptor through the
    /// cache and the bitmap straight from the disk as the scan does.
    pub open spec fn block_in_use(&self, block_id: u32) -> bool {
        let (g, i) = self.block_place(block_id);
        let d = self.bytes_read(self.bgd_offset(g), 32);
        let bm = device_bytes(self.dev(), self.base() + le32(d, 0) * self.bsize(), self.bsize() as nat);
        !bit_clear(bm[i / 8], (i % 8) as u8)
    }

    /// The free-block count group `block_id`'s descriptor holds as freeing reads it.
    pub open spec fn block_group_free(&self, block_id: u32) -> int {
        le16(self.bytes_read(self.bgd_offset(self.block_place(block_id).0), 32), 12)
    }

    /// Block `block_id` lies in a group and its bit in a bitmap block.
    pub open spec fn block_placed(&self, block_id: u32) -> bool {
        &&& block_id != 0
        &&& block_id >= self.sb().first_data_block
        &&& self.sb().blocks_per_group > 0
        &&& self.block_place(block_id).1 / 8 < self.bsize()
    }

    /// The free-block counters of `block_id`'s group and of the superblock can grow by one.
    pub open spec fn block_counts_room(&self, block_id: u32) -> bool {
        self.block_group_free(block_id) < 0xFFFF && self.sb().free_blocks_count < u32::MAX
    }

    /// Group and index within the group of inode `inode_id`.
    pub open spec fn inode_place(&self, inode_id: u32) -> (int, int) {
        let idx = inode_id - 1;
        (idx / (self.sb().inodes_per_group as int), idx % (self.sb().inodes_per_group as int))
    }

    /// Whether freeing inode `inode_id` finds its bit set.
    pub open spec fn inode_in_use(&self, inode_id: u32) -> bool {
        let (g, i) = self.inode_place(inode_id);
        let d = self.bytes_read(self.bgd_offset(g), 32);
        let bm = device_bytes(self.dev(), self.base() + le32(d, 4) * self.bsize(), self.bsize() as nat);
        !bit_clear(bm[i / 8], (i % 8) as u8)
    }

    /// The free-inode count inode `inode_id`'s group descriptor holds as freeing reads it.
    pub open spec fn inode_group_free(&self, inode_id: u32) -> int {
        le16(self.bytes_read(self.bgd_offset(self.inode_place(inode_id).0), 32), 14)
    }

    /// Inode `inode_id` lies in a group and its bit in a bitmap block.
    pub open spec fn inode_placed(&self, inode_id: u32) -> bool {
        &&& inode_id != 0
        &&& self.sb().inodes_per_group > 0
        &&& self.inode_place(inode_id).1 / 8 < self.bsize()
    }

    /// The free-inode counters of `inode_id`'s group and of the superblock can grow by one.
    pub open spec fn inode_counts_room(&self, inode_id: u32) -> bool {
        self.inode_group_free(inode_id) < 0xFFFF && self.sb().free_inodes_count < u32::MAX
    }
}

impl<D: BlockDevice> Ext2<D> {
    /// Frees block `block_id`: when its bitmap bit is set, clears it and counts one more
    /// free block in its group descriptor and the superblock. Block zero, a block outside
    /// the groups, or counters already at their limit leave the disk as it is.
    #[verifier::spinoff_prover]
    #[verifier::rlimit(30)]
    pub(crate) fn free_block(&mut self, block_id: u32)
        requires
            old(self).wf(),
        ensures
            final(self).wf(),
            final(self).base() == old(self).base(),
            final(self).bsize() == old(self).bsize(),
            final(self).ipg() == old(self).ipg(),
            final(self).dev().size() == old(self).dev().size(),
            block_id == 0 ==> *final(self) == *old(self),
            old(self).block_placed(block_id) && old(self).block_in_use(block_id) && old(self).block_counts_room(block_id)
                ==> final(self).sb() == (Superblock {
                free_blocks_count: (old(self).sb().free_blocks_count + 1) as u32,
                ..old(self).sb()
            }),
            !(old(self).block_placed(block_id) && old(self).block_in_use(block_id) && old(self).block_counts_room(block_id))
                ==> final(self).sb() == old(self).sb() && final(self).dev() == old(self).dev(),
    {
        if block_id == 0 {
            return;
        }
        if block_id < self.superblock.first_data_block || self.superblock.blocks_per_group == 0 {
            return;
        }
        if (block_id - self.superblock.first_data_block) % self.superblock.blocks_per_group / 8 >= self.block_size as u32 {
            return;
        }
        let ghost s0 = *self;
        let bs = self.block_size;
        let block_idx = block_id - self.superblock.first_data_block;
        let group = block_idx / self.superblock.blocks_per_group;
        let index_in_group = block_idx % self.superblock.blocks_per_group;
        let mut bg = self.read_block_group_descriptor(group);
        let bitmap_block = bg.block_bitmap;
        let mut bitmap: Vec<u8> = vec![0u8; bs as usize];
        let ghost st = *self;
        self.read_disk_data(bitmap_block as u64 * bs, bitmap.as_mut_slice());
        proof {
            assert(whole_sectors(st.base() + bitmap_block * bs, bs as int));
            assert(bitmap@ =~= device_bytes(s0.dev(), s0.base() + bitmap_block * bs, bs as nat));
        }
        let byte_idx = (index_in_group / 8) as usize;
        let bit_idx = (index_in_group % 8) as u8;
        if bitmap[byte_idx] & (1u8 << bit_idx) != 0 {
            if bg.free_blocks_count == 0xFFFF || self.superblock.free_blocks_count == u32::MAX {
                return;
            }
            let cleared = bitmap[byte_idx] & !(1u8 << bit_idx);
            bitmap.set(byte_idx, cleared);
            self.write_disk_data(bitmap_block as u64 * bs, bitmap.as_slice());
            bg.free_blocks_count = bg.free_blocks_count + 1;
            self.write_block_group_descriptor(group, &bg);
            self.superblock.free_blocks_count = self.superblock.free_blocks_count + 1;
            let ghost s1 = *self;
            self.write_superblock();
            assert(self.sb() =~= s1.sb());
        }
    }
}

impl<D: BlockDevice> Ext2<D> {
    /// Frees inode `inode_id`: when its bitmap bit is set, clears it and counts one more
    /// free inode in its group descriptor and the superblock. Inode zero, an inode outside
    /// the groups, or counters already at their limit leave the disk as it is.
    #[verifier::spinoff_prover]
    #[verifier::rlimit(30)]
    pub(crate) fn free_inode(&mut self, inode_id: u32)
        requires
            old(self).wf(),
        ensures
            final(self).wf(),
            final(self).base() == old(self).base(),
            final(self).bsize() == old(self).bsize(),
            final(self).ipg() == old(self).ipg(),
            final(self).dev().size() == old(self).dev().size(),
            inode_id == 0 ==> *final(self) == *old(self),
            old(self).inode_placed(inode_id) && old(self).inode_in_use(inode_id) && old(self).inode_counts_room(inode_id)
                ==> final(self).sb() == (Superblock {
                free_inodes_count: (old(self).sb().free_inodes_count + 1) as u32,
                ..old(self).sb()
            }),
            !(old(self).inode_placed(inode_id) && old(self).inode_in_use(inode_id) && old(self).inode_counts_room(inode_id))
                ==> final(self).sb() == old(self).sb() && final(self).dev() == old(self).dev(),
    {
        if inode_id == 0 {
            return;
        }
        if self.superblock.inodes_per_group == 0 {
            return;
        }
        if (inode_id - 1) % self.superblock.inodes_per_group / 8 >= self.block_size as u32 {
            return;
        }
        let ghost s0 = *self;
        let bs = self.block_size;
        let inode_idx = inode_id - 1;
        let group = inode_idx / self.superblock.inodes_per_group;
        let index_in_group = inode_idx % self.superblock.inodes_per_group;
        let mut bg = self.read_block_group_descriptor(group);
        let bitmap_block = bg.inode_bitmap;
        let mut bitmap: Vec<u8> = vec![0u8; bs as usize];
        let ghost st = *self;
        self.read_disk_data(bitmap_block as u64 * bs, bitmap.as_mut_slice());
        proof {
            assert(whole_sectors(st.base() + bitmap_block * bs, bs as int));
            assert(bitmap@ =~= device_bytes(s0.dev(), s0.base() + bitmap_block * bs, bs as nat));
        }
        let byte_idx = (index_in_group / 8) as usize;
        let bit_idx = (index_in_group % 8) as u8;
        if bitmap[byte_idx] & (1u8 << bit_idx) != 0 {
            if bg.free_inodes_count == 0xFFFF || self.superblock.free_inodes_count == u32::MAX {
                return;
            }
            let cleared = bitmap[byte_idx] & !(1u8 << bit_idx);
            bitmap.set(byte_idx, cleared);
            self.write_disk_data(bitmap_block as u64 * bs, bitmap.as_slice());
            bg.free_inodes_count = bg.free_inodes_count + 1;
            self.write_block_group_descriptor(group, &bg);
            self.superblock.free_inodes_count = self.superblock.free_inodes_count + 1;
            let ghost s1 = *self;
            self.write_superblock();
            assert(self.sb() =~= s1.sb());
        }
    }
}

/// The `len` bytes of device `d` from absolute byte `start`.
pub open spec fn device_bytes<D: BlockDevice>(d: D, start: int, len: nat) -> Seq<u8> {
    Seq::new(len, |i: int| d.byte(start + i))
}

/// A block size ext2 allows: 1 KiB shifted left by at most six.
pub open spec fn valid_block_size(bs: int) -> bool {
    bs == 1024 || bs == 2048 || bs == 4096 || bs == 8192 || bs == 16384 || bs == 32768 || bs == 65536
}

/// Where the cache holds what the disk holds, a partial transfer sees the disk.
pub proof fn lemma_coherent_content<D: BlockDevice>(s: &Ext2<D>, first: int, pos: int)
    requires
        s.coherent(),
        0 <= first <= u64::MAX,
    ensures
        s.content(first, pos) == s.dev().byte(pos),
{
    if s.cached() == Some(first as u64) && first * 512 <= pos < first * 512 + 512 {
        assert(s.cache_bytes()[pos - first * 512] == s.dev().byte(first * 512 + (pos - first * 512)));
    }
}

/// Reading back, at the same partition offset, bytes just written there on the disk gives
/// those bytes.
pub proof fn lemma_read_after_write<D: BlockDevice>(
    s0: &Ext2<D>,
    s1: &Ext2<D>,
    s2: &Ext2<D>,
    off: int,
    data: Seq<u8>,
    got: Seq<u8>,
)
    requires
        s0.wf(),
        s0.in_disk(off, data.len() as int),
        s0.write_post(s1, off, data),
        s1.read_post(s2, off, got),
        got.len() == data.len(),
    ensures
        got == data,
{
    let abs = s0.base() + off;
    let len = data.len() as int;
    assert forall|i: int| 0 <= i < len implies got[i] == data[i] by {
        assert(got[i] == s1.read_byte(off, len, i));
        assert(s1.dev().byte(abs + i) == s0.write_byte(off, data, abs + i));
        if whole_sectors(abs, len) {
            assert((abs / 512) * 512 == abs);
        } else {
            assert(s1.coherent());
            lemma_coherent_content(s1, abs / 512, abs + i);
            assert((abs / 512) * 512 <= abs);
            assert(abs + len <= end_sector(abs, len) * 512);
        }
    }
    assert(got =~= data);
}

/// Reading an inode back after writing it gives the written inode, where the cache was
/// coherent, the inode lies on the disk and its bytes do not overlap its group's descriptor.
pub proof fn lemma_inode_round_trip<D: BlockDevice>(
    s0: &Ext2<D>,
    s1: &Ext2<D>,
    s2: &Ext2<D>,
    idx: int,
    ino: Inode,
    got: Inode,
)
    requires
        s0.wf(),
        s0.coherent(),
        idx >= 1,
        s0.ipg() > 0,
        s0.in_disk(s0.inode_offset(idx), 128),
        s0.inode_offset(idx) + 128 <= s0.bgd_offset(s0.inode_group(idx)) || s0.bgd_offset(s0.inode_group(idx)) + 32
            <= s0.inode_offset(idx),
        s0.inode_written(s1, idx, ino),
        s1.inode_read(s2, idx, got),
    ensures
        got == ino,
{
    let ioff = s0.inode_offset(idx);
    let boff = s0.bgd_offset(s0.inode_group(idx));
    let b = choose|b: Seq<u8>|
        b.len() == 128 && inode_encoded(ino, b, 0) && forall|pos: int|
            #[trigger] s1.dev().byte(pos) == s0.wrote_byte(ioff, b, pos);
    assert(s1.disk_bytes(boff, 32) =~= s0.disk_bytes(boff, 32)) by {
        assert forall|i: int| 0 <= i < 32 implies s1.disk_bytes(boff, 32)[i] == s0.disk_bytes(boff, 32)[i] by {
            assert(s1.dev().byte(s0.base() + boff + i) == s0.wrote_byte(ioff, b, s0.base() + boff + i));
        }
    }
    assert(s1.inode_offset(idx) == ioff);
    assert(s1.disk_bytes(ioff, 128) =~= b) by {
        assert forall|i: int| 0 <= i < 128 implies s1.disk_bytes(ioff, 128)[i] == b[i] by {
            assert(s1.dev().byte(s0.base() + ioff + i) == s0.wrote_byte(ioff, b, s0.base() + ioff + i));
        }
    }
    assert(got.block =~= ino.block);
    assert(got.osd2 =~= ino.osd2);
}

/// After `data` lands at partition offset `off`, the bytes at `o` read back as `data`
/// where `o == off`, and as before where the two ranges do not meet.
proof fn lemma_wrote_bytes<D: BlockDevice>(s0: &Ext2<D>, s1: &Ext2<D>, off: int, data: Seq<u8>, o: int, len: nat)
    requires
        s1.base() == s0.base(),
        forall|pos: int| #[trigger] s1.dev().byte(pos) == s0.wrote_byte(off, data, pos),
    ensures
        o == off && len == data.len() ==> s1.disk_bytes(o, len) == data,
        o + len <= off || off + data.len() <= o ==> s1.disk_bytes(o, len) == s0.disk_bytes(o, len),
{
    if o == off && len == data.len() {
        assert forall|i: int| 0 <= i < len implies s1.disk_bytes(o, len)[i] == data[i] by {
            assert(s1.dev().byte(s0.base() + o + i) == s0.wrote_byte(off, data, s0.base() + o + i));
        }
        assert(s1.disk_bytes(o, len) =~= data);
    }
    if o + len <= off || off + data.len() <= o {
        assert forall|i: int| 0 <= i < len implies s1.disk_bytes(o, len)[i] == s0.disk_bytes(o, len)[i] by {
            assert(s1.dev().byte(s0.base() + o + i) == s0.wrote_byte(off, data, s0.base() + o + i));
        }
        assert(s1.disk_bytes(o, len) =~= s0.disk_bytes(o, len));
    }
}

/// Once the target slot of logical block `logical` holds `phys`, looking the block up gives
/// `phys`, provided the slot does not overlap a pointer read on the way to it.
pub proof fn lemma_get_after_set<D: BlockDevice>(
    s0: &Ext2<D>,
    s1: &Ext2<D>,
    inode: Inode,
    logical: u32,
    phys: u32,
    b: Seq<u8>,
)
    requires
        s0.wf(),
        s1.same_layout(s0),
        logical >= 12,
        s0.target_slot(inode, logical) is Some,
        b.len() == 4,
        le32(b, 0) == phys,
        forall|pos: int|
            #[trigger] s1.dev().byte(pos) == s0.wrote_byte(
                s0.target_offset(inode, logical),
                b,
                pos,
            ),
        forall|k: int|
            0 <= k < s0.path_slots(inode, logical).len() ==> {
                let t = s0.target_offset(inode, logical);
                #[trigger] s0.path_slots(inode, logical)[k] + 4 <= t || t + 4 <= s0.path_slots(inode, logical)[k]
            },
    ensures
        s1.block_of(inode, logical) == phys,
{
    let (blk, idx) = s0.target_slot(inode, logical)->0;
    let t = s0.slot_offset(blk as int, idx);
    let path = s0.path_slots(inode, logical);
    lemma_wrote_bytes(s0, s1, t, b, t, 4);
    if path.len() >= 1 {
        assert(path[0] + 4 <= t || t + 4 <= path[0]);
        lemma_wrote_bytes(s0, s1, t, b, path[0], 4);
    }
    if path.len() >= 2 {
        assert(path[1] + 4 <= t || t + 4 <= path[1]);
        lemma_wrote_bytes(s0, s1, t, b, path[1], 4);
    }
}

} // verus!
