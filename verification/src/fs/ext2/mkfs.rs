use vstd::prelude::*;
use crate::fs::disk::{BlockDevice, after_write};
use crate::fs::ext2::fs::{EXT2_MAGIC, device_bytes};
use crate::fs::ext2::structs::{
    BlockGroupDescriptor, Inode, Superblock, DirectoryEntry, blockgroupdescriptor_encoded, inode_encoded,
    superblock_encoded, directoryentry_encoded, store_blockgroupdescriptor, store_inode, store_superblock,
    store_directoryentry,
};

verus! {

/// Block size of a fresh file system.
pub const MKFS_BLOCK_SIZE: u32 = 1024;

/// Blocks per group written in a fresh superblock.
pub const MKFS_BLOCKS_PER_GROUP: u32 = 8192;

/// Inodes kept back for the file system's own use.
pub const MKFS_RESERVED_INODES: u32 = 10;

/// Directory mode with read, write and search for the owner.
pub const ROOT_DIR_MODE: u16 = 0x41C0;

/// Directory entry type of a directory.
pub const FT_DIR: u8 = 2;

/// The layout of a fresh file system on `size` bytes: block count, inode count, blocks in
/// the inode table, and the first data block (which holds the root directory).
pub open spec fn mkfs_layout(size: u64) -> (int, int, int, int) {
    let blocks = (size / 1024) as u32 as int;
    let inodes = blocks / 4;
    let table = (inodes * 128 + 1023) / 1024;
    (blocks, inodes, table, 5 + table)
}

/// Formatting `size` bytes is defined: the inode table size fits 32 bits, every block up
/// to the root directory has a bit in the one-block bitmap, and there are blocks and
/// inodes left over once the metadata and the reserved inodes are counted.
pub open spec fn mkfs_fits(size: u64) -> bool {
    let (blocks, inodes, table, data) = mkfs_layout(size);
    &&& inodes * 128 + 1023 <= u32::MAX
    &&& data <= 8192
    &&& blocks >= data + 1
    &&& inodes >= 10
}

/// Bit `i` of bitmap `b` is set.
pub open spec fn bit_set(b: Seq<u8>, i: int) -> bool {
    b[i / 8] & (1u8 << ((i % 8) as u8)) != 0
}

/// Sets bit `i` of `bitmap`; no other bit changes.
fn set_bit(bitmap: &mut Vec<u8>, i: usize)
    requires
        i / 8 < old(bitmap)@.len(),
    ensures
        final(bitmap)@.len() == old(bitmap)@.len(),
        bit_set(final(bitmap)@, i as int),
        forall|j: int| 0 <= j < 8 * old(bitmap)@.len() && j != i ==> #[trigger] bit_set(final(bitmap)@, j) == bit_set(old(bitmap)@, j),
{
    let byte = i / 8;
    let bit = (i % 8) as u8;
    let old_byte = bitmap[byte];
    let new_byte = old_byte | (1u8 << bit);
    bitmap.set(byte, new_byte);
    proof {
        assert(bit < 8 ==> (old_byte | (1u8 << bit)) & (1u8 << bit) != 0) by (bit_vector);
        assert forall|j: int| 0 <= j < 8 * old(bitmap)@.len() && j != i implies #[trigger] bit_set(bitmap@, j) == bit_set(old(bitmap)@, j) by {
            if j / 8 == byte {
                let k = (j % 8) as u8;
                assert(k != bit);
                assert(bit < 8 && k < 8 && k != bit ==> ((old_byte | (1u8 << bit)) & (1u8 << k) != 0) == (old_byte & (1u8 << k) != 0)) by (bit_vector);
            }
        }
    }
}

/// A zeroed bitmap of `len` bytes with its first `n` bits set.
fn bitmap_with_first(len: usize, n: usize) -> (b: Vec<u8>)
    requires
        n <= 8 * len,
    ensures
        b@.len() == len,
        forall|j: int| 0 <= j < 8 * len ==> #[trigger] bit_set(b@, j) == (j < n),
{
    let mut b: Vec<u8> = vec![0u8; len];
    proof {
        assert forall|j: int| 0 <= j < 8 * len implies !#[trigger] bit_set(b@, j) by {
            let k = (j % 8) as u8;
            assert(b@[j / 8] == 0);
            assert(0u8 & (1u8 << k) == 0) by (bit_vector);
        }
    }
    let mut i: usize = 0;
    while i < n
        invariant
            b@.len() == len,
            n <= 8 * len,
            i <= n,
            forall|j: int| 0 <= j < 8 * len ==> #[trigger] bit_set(b@, j) == (j < i),
        decreases n - i,
    {
        set_bit(&mut b, i);
        i += 1;
    }
    b
}

/// Stores directory entry `e` at `at` followed by its name.
fn store_entry(buf: &mut Vec<u8>, at: usize, e: &DirectoryEntry, name: &[u8])
    requires
        at + 8 + name@.len() <= old(buf)@.len(),
    ensures
        final(buf)@.len() == old(buf)@.len(),
        directoryentry_encoded(*e, final(buf)@, at as int),
        final(buf)@.subrange(at + 8, at + 8 + name@.len()) == name@,
        forall|i: int| 0 <= i < old(buf)@.len() && !(at <= i < at + 8 + name@.len()) ==> #[trigger] final(buf)@[i] == old(buf)@[i],
{
    store_directoryentry(e, buf, at);
    let ghost b1 = buf@;
    let n = name.len();
    let blen = buf.len();
    let mut k: usize = 0;
    while k < n
        invariant
            blen == buf@.len(),
            blen == b1.len(),
            n == name@.len(),
            at + 8 + n <= blen,
            k <= n,
            forall|i: int| 0 <= i < blen && !(at + 8 <= i < at + 8 + k) ==> #[trigger] buf@[i] == b1[i],
            forall|j: int| 0 <= j < k ==> #[trigger] buf@[at + 8 + j] == name@[j],
        decreases n - k,
    {
        buf.set(at + 8 + k, name[k]);
        k += 1;
    }
    proof {
        assert forall|j: int| 0 <= j < n implies #[trigger] buf@.subrange(at + 8, at + 8 + n)[j] == name@[j] by {
            assert(buf@.subrange(at + 8, at + 8 + n)[j] == buf@[at + 8 + j]);
        }
        assert(buf@.subrange(at + 8, at + 8 + n) =~= name@);
        assert(directoryentry_encoded(*e, buf@, at as int)) by {
            assert(crate::fs::bytes::le32(buf@, at as int) == crate::fs::bytes::le32(b1, at as int));
            assert(crate::fs::bytes::le16(buf@, at + 4) == crate::fs::bytes::le16(b1, at + 4));
        }
    }
}

/// `sb` is the superblock a fresh file system of `size` bytes gets: the layout's counts,
/// all but the metadata blocks, the root block and the reserved inodes free, one group,
/// the ext2 magic, a clean state, and zero everywhere else.
pub open spec fn is_mkfs_superblock(sb: Superblock, size: u64) -> bool {
    let (blocks, inodes, table, data) = mkfs_layout(size);
    &&& sb.inodes_count == inodes
    &&& sb.blocks_count == blocks
    &&& sb.r_blocks_count == 0
    &&& sb.free_blocks_count == blocks - data - 1
    &&& sb.free_inodes_count == inodes - 10
    &&& sb.first_data_block == 1
    &&& sb.log_block_size == 0
    &&& sb.log_frag_size == 0
    &&& sb.blocks_per_group == 8192
    &&& sb.frags_per_group == 8192
    &&& sb.inodes_per_group == inodes
    &&& sb.mtime == 0 && sb.wtime == 0 && sb.mnt_count == 0
    &&& sb.max_mnt_count == 0xFFFF
    &&& sb.s_magic == EXT2_MAGIC
    &&& sb.state == 1 && sb.errors == 1
    &&& sb.minor_rev_level == 0 && sb.lastcheck == 0 && sb.checkinterval == 0 && sb.creator_os == 0
    &&& sb.rev_level == 0 && sb.def_resuid == 0 && sb.def_resgid == 0 && sb.first_ino == 0
    &&& sb.inode_size == 0 && sb.block_group_nr == 0
    &&& sb.feature_compat == 0 && sb.feature_incompat == 0 && sb.feature_ro_compat == 0
    &&& sb.algo_bitmap == 0 && sb.prealloc_blocks == 0 && sb.prealloc_dir_blocks == 0 && sb.padding1 == 0
    &&& sb.journal_inum == 0 && sb.journal_dev == 0 && sb.last_orphan == 0
    &&& sb.def_hash_version == 0 && sb.default_mount_opts == 0 && sb.first_meta_bg == 0
    &&& forall|i: int| 0 <= i < 16 ==> #[trigger] sb.uuid@[i] == 0 && sb.volume_name@[i] == 0 && sb.journal_uuid@[i] == 0
    &&& forall|i: int| 0 <= i < 64 ==> #[trigger] sb.last_mounted@[i] == 0
    &&& forall|i: int| 0 <= i < 4 ==> #[trigger] sb.hash_seed@[i] == 0
    &&& forall|i: int| 0 <= i < 3 ==> #[trigger] sb.padding2@[i] == 0
    &&& forall|i: int| 0 <= i < 190 ==> #[trigger] sb.reserved@[i] == 0
}

/// Absolute byte where block `block` of a 1 KiB-block file system starts, the partition
/// starting at sector `base_lba`.
pub open spec fn block_start(base_lba: int, block: int) -> int {
    (base_lba + 2 * block) * 512
}

/// Writes `data`, zero-padded to a block, as block `block` of the partition at `base_lba`.
fn write_block<D: BlockDevice>(device: &mut D, base_lba: u64, block: u32, data: &[u8])
    requires
        data@.len() <= 1024,
        block <= 8192,
        base_lba <= 0x1_0000_0000_0000,
        block_start(base_lba as int, block as int) + 1024 <= old(device).size(),
    ensures
        final(device).size() == old(device).size(),
        forall|pos: int| #[trigger] final(device).byte(pos) == if block_start(base_lba as int, block as int) <= pos < block_start(
            base_lba as int,
            block as int,
        ) + 1024 {
            if pos - block_start(base_lba as int, block as int) < data@.len() {
                data@[pos - block_start(base_lba as int, block as int)]
            } else {
                0u8
            }
        } else {
            old(device).byte(pos)
        },
{
    let sectors_per_block: u64 = 1024 / 512;
    assert(sectors_per_block == 2);
    let lba = base_lba + (block as u64 * sectors_per_block);
    let mut padded: Vec<u8> = vec![0u8; 1024];
    let n = data.len();
    let mut k: usize = 0;
    while k < n
        invariant
            n == data@.len(),
            n <= 1024,
            padded@.len() == 1024,
            k <= n,
            forall|j: int| 0 <= j < 1024 ==> #[trigger] padded@[j] == if j < k { data@[j] } else { 0u8 },
        decreases n - k,
    {
        padded.set(k, data[k]);
        k += 1;
    }
    let ghost d0 = *device;
    device.write(lba, padded.as_slice());
    proof {
        assert forall|pos: int| #[trigger] device.byte(pos) == if block_start(base_lba as int, block as int) <= pos < block_start(
            base_lba as int,
            block as int,
        ) + 1024 {
            if pos - block_start(base_lba as int, block as int) < data@.len() {
                data@[pos - block_start(base_lba as int, block as int)]
            } else {
                0u8
            }
        } else {
            d0.byte(pos)
        } by {
            assert(device.byte(pos) == if pos < d0.size() { after_write(d0.byte(pos), lba as int, padded@, pos) } else { d0.byte(pos) });
            assert(crate::fs::disk::sectors_for(1024) == 2);
            assert(lba * 512 == block_start(base_lba as int, block as int));
            if block_start(base_lba as int, block as int) <= pos < block_start(base_lba as int, block as int) + 1024 {
                assert(pos < d0.size());
                assert(padded@[pos - lba * 512] == if pos - block_start(base_lba as int, block as int) < data@.len() {
                    data@[pos - block_start(base_lba as int, block as int)]
                } else {
                    0u8
                });
            }
        }
    }
}

/// A fresh block group descriptor: bitmaps in blocks 3 and 4, the inode table from block 5,
/// the free counts of the superblock cut to 16 bits, one directory.
pub open spec fn is_mkfs_group(bg: BlockGroupDescriptor, size: u64) -> bool {
    let (blocks, inodes, table, data) = mkfs_layout(size);
    &&& bg.block_bitmap == 3
    &&& bg.inode_bitmap == 4
    &&& bg.inode_table == 5
    &&& bg.free_blocks_count == (blocks - data - 1) as u16
    &&& bg.free_inodes_count == (inodes - 10) as u16
    &&& bg.used_dirs_count == 1
    &&& bg.pad == 0
    &&& forall|i: int| 0 <= i < 3 ==> #[trigger] bg.reserved@[i] == 0
}

/// The root directory's inode in a fresh file system: a directory of one block, block
/// `data`, with two links.
pub open spec fn is_mkfs_root(ino: Inode, data: int) -> bool {
    &&& ino.mode == ROOT_DIR_MODE
    &&& ino.uid == 0 && ino.gid == 0
    &&& ino.size == 1024
    &&& ino.atime == 0 && ino.ctime == 0 && ino.mtime == 0 && ino.dtime == 0
    &&& ino.links_count == 2
    &&& ino.blocks == 2
    &&& ino.flags == 0 && ino.osd1 == 0
    &&& ino.block@[0] == data
    &&& forall|i: int| 1 <= i < 15 ==> #[trigger] ino.block@[i] == 0
    &&& ino.generation == 0 && ino.file_acl == 0 && ino.dir_acl == 0 && ino.faddr == 0
    &&& forall|i: int| 0 <= i < 3 ==> #[trigger] ino.osd2@[i] == 0
}

/// `b` is zero outside `[from, to)`.
pub open spec fn zero_outside(b: Seq<u8>, from: int, to: int) -> bool {
    forall|i: int| 0 <= i < b.len() && !(from <= i < to) ==> #[trigger] b[i] == 0
}

/// The blocks a fresh file system of `size` bytes is made of, as 1 KiB images: the
/// superblock, the group descriptor table, the block and inode bitmaps, the first inode
/// table block holding the root inode, and the root directory holding `.` and `..`.
pub open spec fn mkfs_images(size: u64, sb: Seq<u8>, bgdt: Seq<u8>, bbm: Seq<u8>, ibm: Seq<u8>, itab: Seq<u8>, root: Seq<u8>) -> bool {
    let (blocks, inodes, table, data) = mkfs_layout(size);
    &&& sb.len() == 1024 && bgdt.len() == 1024 && bbm.len() == 1024 && ibm.len() == 1024 && itab.len() == 1024 && root.len() == 1024
    &&& exists|x: Superblock| is_mkfs_superblock(x, size) && #[trigger] superblock_encoded(x, sb, 0)
    &&& exists|g: BlockGroupDescriptor| is_mkfs_group(g, size) && #[trigger] blockgroupdescriptor_encoded(g, bgdt, 0)
    &&& zero_outside(bgdt, 0, 32)
    &&& forall|j: int| 0 <= j < 8192 ==> #[trigger] bit_set(bbm, j) == (j < data)
    &&& forall|j: int| 0 <= j < 8192 ==> #[trigger] bit_set(ibm, j) == (j < 10)
    &&& exists|r: Inode| is_mkfs_root(r, data) && #[trigger] inode_encoded(r, itab, 128)
    &&& zero_outside(itab, 128, 256)
    &&& directoryentry_encoded(DirectoryEntry { inode: 2, rec_len: 12, name_len: 1, file_type: FT_DIR }, root, 0)
    &&& root[8] == 46
    &&& directoryentry_encoded(DirectoryEntry { inode: 2, rec_len: 1012, name_len: 2, file_type: FT_DIR }, root, 12)
    &&& root[20] == 46 && root[21] == 46
    &&& forall|i: int| 0 <= i < 1024 && !(0 <= i < 9) && !(12 <= i < 22) ==> #[trigger] root[i] == 0
}

/// Writes a fresh ext2 file system over `size` bytes of the partition at sector
/// `base_lba`: 1 KiB blocks, one group, the superblock in block 1, the descriptor table in
/// block 2, bitmaps in blocks 3 and 4, the inode table from block 5, and the root
/// directory in the first block after it. Inodes 1 to 10 are kept back.
#[verifier::spinoff_prover]
#[verifier::rlimit(60)]
pub fn format_disk<D: BlockDevice>(device: &mut D, base_lba: u64, size: u64) -> (r: Result<(), String>)
    requires
        mkfs_fits(size),
        base_lba <= 0x1_0000_0000_0000,
        block_start(base_lba as int, mkfs_layout(size).3 + 1) <= old(device).size(),
    ensures
        r is Ok,
        final(device).size() == old(device).size(),
        mkfs_images(
            size,
            device_bytes(*final(device), block_start(base_lba as int, 1), 1024),
            device_bytes(*final(device), block_start(base_lba as int, 2), 1024),
            device_bytes(*final(device), block_start(base_lba as int, 3), 1024),
            device_bytes(*final(device), block_start(base_lba as int, 4), 1024),
            device_bytes(*final(device), block_start(base_lba as int, 5), 1024),
            device_bytes(*final(device), block_start(base_lba as int, mkfs_layout(size).3), 1024),
        ),
        forall|pos: int|
            !(block_start(base_lba as int, 1) <= pos < block_start(base_lba as int, 6)) && !(block_start(
                base_lba as int,
                mkfs_layout(size).3,
            ) <= pos < block_start(base_lba as int, mkfs_layout(size).3) + 1024) ==> #[trigger] final(device).byte(pos)
                == old(device).byte(pos),
{
    let block_size: u32 = MKFS_BLOCK_SIZE;
    let blocks_count = (size / block_size as u64) as u32;
    let inodes_count = blocks_count / 4;
    let blocks_per_group: u32 = MKFS_BLOCKS_PER_GROUP;
    let inodes_per_group = inodes_count;
    let first_data_block: u32 = if block_size == 1024 { 1 } else { 0 };
    let sb_block = first_data_block;
    let bgdt_block = sb_block + 1;
    let b_bitmap_block = bgdt_block + 1;
    let i_bitmap_block = b_bitmap_block + 1;
    let i_table_block = i_bitmap_block + 1;
    let inode_size: u32 = 128;
    let i_table_blocks = (inodes_per_group * inode_size + block_size - 1) / block_size;
    let data_start_block = i_table_block + i_table_blocks;

    let reserved_blocks = data_start_block - first_data_block;
    let mut b_bitmap = bitmap_with_first(block_size as usize, reserved_blocks as usize);
    let i_bitmap = bitmap_with_first(block_size as usize, MKFS_RESERVED_INODES as usize);
    let root_data_block = data_start_block;
    let root_block_rel = root_data_block - first_data_block;
    set_bit(&mut b_bitmap, root_block_rel as usize);

    let total_used_blocks = reserved_blocks + 1;
    let free_blocks = blocks_count - total_used_blocks - first_data_block;
    let free_inodes = inodes_count - MKFS_RESERVED_INODES;

    let final_sb = Superblock {
        inodes_count,
        blocks_count,
        r_blocks_count: 0,
        free_blocks_count: free_blocks,
        free_inodes_count: free_inodes,
        first_data_block,
        log_block_size: 0,
        log_frag_size: 0,
        blocks_per_group,
        frags_per_group: blocks_per_group,
        inodes_per_group,
        mtime: 0,
        wtime: 0,
        mnt_count: 0,
        max_mnt_count: 0xFFFF,
        s_magic: EXT2_MAGIC,
        state: 1,
        errors: 1,
        minor_rev_level: 0,
        lastcheck: 0,
        checkinterval: 0,
        creator_os: 0,
        rev_level: 0,
        def_resuid: 0,
        def_resgid: 0,
        first_ino: 0,
        inode_size: 0,
        block_group_nr: 0,
        feature_compat: 0,
        feature_incompat: 0,
        feature_ro_compat: 0,
        uuid: [0u8; 16],
        volume_name: [0u8; 16],
        last_mounted: [0u8; 64],
        algo_bitmap: 0,
        prealloc_blocks: 0,
        prealloc_dir_blocks: 0,
        padding1: 0,
        journal_uuid: [0u8; 16],
        journal_inum: 0,
        journal_dev: 0,
        last_orphan: 0,
        hash_seed: [0u32; 4],
        def_hash_version: 0,
        padding2: [0u8; 3],
        default_mount_opts: 0,
        first_meta_bg: 0,
        reserved: [0u32; 190],
    };
    let bg = BlockGroupDescriptor {
        block_bitmap: b_bitmap_block,
        inode_bitmap: i_bitmap_block,
        inode_table: i_table_block,
        free_blocks_count: free_blocks as u16,
        free_inodes_count: free_inodes as u16,
        used_dirs_count: 1,
        pad: 0,
        reserved: [0u32; 3],
    };

    let mut sb_buf: Vec<u8> = vec![0u8; 1024];
    store_superblock(&final_sb, &mut sb_buf, 0);
    let mut bgdt_buf: Vec<u8> = vec![0u8; 1024];
    store_blockgroupdescriptor(&bg, &mut bgdt_buf, 0);

    let mut root_block = [0u32; 15];
    root_block[0] = root_data_block;
    let root = Inode {
        mode: ROOT_DIR_MODE,
        uid: 0,
        size: block_size,
        atime: 0,
        ctime: 0,
        mtime: 0,
        dtime: 0,
        gid: 0,
        links_count: 2,
        blocks: block_size / 512,
        flags: 0,
        osd1: 0,
        block: root_block,
        generation: 0,
        file_acl: 0,
        dir_acl: 0,
        faddr: 0,
        osd2: [0u32; 3],
    };
    let mut itable_buf: Vec<u8> = vec![0u8; 1024];
    store_inode(&root, &mut itable_buf, 128);

    let mut root_data: Vec<u8> = vec![0u8; 1024];
    let dot = DirectoryEntry { inode: 2, rec_len: 12, name_len: 1, file_type: FT_DIR };
    let dot_name: Vec<u8> = vec![46u8];
    store_entry(&mut root_data, 0, &dot, dot_name.as_slice());
    let dotdot = DirectoryEntry { inode: 2, rec_len: (block_size - 12) as u16, name_len: 2, file_type: FT_DIR };
    let dotdot_name: Vec<u8> = vec![46u8, 46u8];
    let ghost rd1 = root_data@;
    store_entry(&mut root_data, 12, &dotdot, dotdot_name.as_slice());

    let ghost d0 = *device;
    write_block(device, base_lba, sb_block, sb_buf.as_slice());
    write_block(device, base_lba, bgdt_block, bgdt_buf.as_slice());
    write_block(device, base_lba, b_bitmap_block, b_bitmap.as_slice());
    write_block(device, base_lba, i_bitmap_block, i_bitmap.as_slice());
    write_block(device, base_lba, i_table_block, itable_buf.as_slice());
    write_block(device, base_lba, root_data_block, root_data.as_slice());
    proof {
        let data = root_data_block as int;
        assert(data >= 7);
        assert(device_bytes(*device, block_start(base_lba as int, 1), 1024) =~= sb_buf@);
        assert(device_bytes(*device, block_start(base_lba as int, 2), 1024) =~= bgdt_buf@);
        assert(device_bytes(*device, block_start(base_lba as int, 3), 1024) =~= b_bitmap@);
        assert(device_bytes(*device, block_start(base_lba as int, 4), 1024) =~= i_bitmap@);
        assert(device_bytes(*device, block_start(base_lba as int, 5), 1024) =~= itable_buf@);
        assert(device_bytes(*device, block_start(base_lba as int, data), 1024) =~= root_data@);
        assert(is_mkfs_superblock(final_sb, size));
        assert(is_mkfs_group(bg, size));
        assert(is_mkfs_root(root, data));
        assert(root_data@[8] == rd1[8]);
    }
    Ok(())
}

} // verus!
