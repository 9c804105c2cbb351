use vstd::prelude::*;
use crate::fs::bytes::{le16, le32, read_u16, read_u32, write_u16, write_u32};

verus! {

/// Bytes of an on-disk superblock.
pub const SUPERBLOCK_SIZE: usize = 1024;

/// Superblock as stored on disk (little-endian).
#[derive(Debug, Clone, Copy)]
pub struct Superblock {
    pub inodes_count: u32,
    pub blocks_count: u32,
    pub r_blocks_count: u32,
    pub free_blocks_count: u32,
    pub free_inodes_count: u32,
    pub first_data_block: u32,
    pub log_block_size: u32,
    pub log_frag_size: u32,
    pub blocks_per_group: u32,
    pub frags_per_group: u32,
    pub inodes_per_group: u32,
    pub mtime: u32,
    pub wtime: u32,
    pub mnt_count: u16,
    pub max_mnt_count: u16,
    pub s_magic: u16,
    pub state: u16,
    pub errors: u16,
    pub minor_rev_level: u16,
    pub lastcheck: u32,
    pub checkinterval: u32,
    pub creator_os: u32,
    pub rev_level: u32,
    pub def_resuid: u16,
    pub def_resgid: u16,
    pub first_ino: u32,
    pub inode_size: u16,
    pub block_group_nr: u16,
    pub feature_compat: u32,
    pub feature_incompat: u32,
    pub feature_ro_compat: u32,
    pub uuid: [u8; 16],
    pub volume_name: [u8; 16],
    pub last_mounted: [u8; 64],
    pub algo_bitmap: u32,
    pub prealloc_blocks: u8,
    pub prealloc_dir_blocks: u8,
    pub padding1: u16,
    pub journal_uuid: [u8; 16],
    pub journal_inum: u32,
    pub journal_dev: u32,
    pub last_orphan: u32,
    pub hash_seed: [u32; 4],
    pub def_hash_version: u8,
    pub padding2: [u8; 3],
    pub default_mount_opts: u32,
    pub first_meta_bg: u32,
    pub reserved: [u32; 190],
}

/// Fields of part 0 of a superblock as encoded at `at`.
pub open spec fn superblock_part0(x: Superblock, s: Seq<u8>, at: int) -> bool {
    &&& x.inodes_count == le32(s, at + 0)
    &&& x.blocks_count == le32(s, at + 4)
    &&& x.r_blocks_count == le32(s, at + 8)
    &&& x.free_blocks_count == le32(s, at + 12)
    &&& x.free_inodes_count == le32(s, at + 16)
    &&& x.first_data_block == le32(s, at + 20)
}

/// Fields of part 1 of a superblock as encoded at `at`.
pub open spec fn superblock_part1(x: Superblock, s: Seq<u8>, at: int) -> bool {
    &&& x.log_block_size == le32(s, at + 24)
    &&& x.log_frag_size == le32(s, at + 28)
    &&& x.blocks_per_group == le32(s, at + 32)
    &&& x.frags_per_group == le32(s, at + 36)
    &&& x.inodes_per_group == le32(s, at + 40)
    &&& x.mtime == le32(s, at + 44)
}

/// Fields of part 2 of a superblock as encoded at `at`.
pub open spec fn superblock_part2(x: Superblock, s: Seq<u8>, at: int) -> bool {
    &&& x.wtime == le32(s, at + 48)
    &&& x.mnt_count == le16(s, at + 52)
    &&& x.max_mnt_count == le16(s, at + 54)
    &&& x.s_magic == le16(s, at + 56)
    &&& x.state == le16(s, at + 58)
    &&& x.errors == le16(s, at + 60)
}

/// Fields of part 3 of a superblock as encoded at `at`.
pub open spec fn superblock_part3(x: Superblock, s: Seq<u8>, at: int) -> bool {
    &&& x.minor_rev_level == le16(s, at + 62)
    &&& x.lastcheck == le32(s, at + 64)
    &&& x.checkinterval == le32(s, at + 68)
    &&& x.creator_os == le32(s, at + 72)
    &&& x.rev_level == le32(s, at + 76)
    &&& x.def_resuid == le16(s, at + 80)
}

/// Fields of part 4 of a superblock as encoded at `at`.
pub open spec fn superblock_part4(x: Superblock, s: Seq<u8>, at: int) -> bool {
    &&& x.def_resgid == le16(s, at + 82)
    &&& x.first_ino == le32(s, at + 84)
    &&& x.inode_size == le16(s, at + 88)
    &&& x.block_group_nr == le16(s, at + 90)
    &&& x.feature_compat == le32(s, at + 92)
    &&& x.feature_incompat == le32(s, at + 96)
}

/// Fields of part 5 of a superblock as encoded at `at`.
pub open spec fn superblock_part5(x: Superblock, s: Seq<u8>, at: int) -> bool {
    &&& x.feature_ro_compat == le32(s, at + 100)
    &&& forall|i: int| 0 <= i < 16 ==> #[trigger] x.uuid@[i] == s[at + 104 + i]
}

/// Fields of part 6 of a superblock as encoded at `at`.
pub open spec fn superblock_part6(x: Superblock, s: Seq<u8>, at: int) -> bool {
    &&& forall|i: int| 0 <= i < 16 ==> #[trigger] x.volume_name@[i] == s[at + 120 + i]
}

/// Fields of part 7 of a superblock as encoded at `at`.
pub open spec fn superblock_part7(x: Superblock, s: Seq<u8>, at: int) -> bool {
    &&& forall|i: int| 0 <= i < 64 ==> #[trigger] x.last_mounted@[i] == s[at + 136 + i]
}

/// Fields of part 8 of a superblock as encoded at `at`.
pub open spec fn superblock_part8(x: Superblock, s: Seq<u8>, at: int) -> bool {
    &&& x.algo_bitmap == le32(s, at + 200)
    &&& x.prealloc_blocks == s[at + 204]
    &&& x.prealloc_dir_blocks == s[at + 205]
    &&& x.padding1 == le16(s, at + 206)
    &&& forall|i: int| 0 <= i < 16 ==> #[trigger] x.journal_uuid@[i] == s[at + 208 + i]
}

/// Fields of part 9 of a superblock as encoded at `at`.
pub open spec fn superblock_part9(x: Superblock, s: Seq<u8>, at: int) -> bool {
    &&& x.journal_inum == le32(s, at + 224)
    &&& x.journal_dev == le32(s, at + 228)
    &&& x.last_orphan == le32(s, at + 232)
    &&& forall|i: int| 0 <= i < 4 ==> #[trigger] x.hash_seed@[i] == le32(s, at + 236 + 4 * i)
}

/// Fields of part 10 of a superblock as encoded at `at`.
pub open spec fn superblock_part10(x: Superblock, s: Seq<u8>, at: int) -> bool {
    &&& x.def_hash_version == s[at + 252]
    &&& forall|i: int| 0 <= i < 3 ==> #[trigger] x.padding2@[i] == s[at + 253 + i]
}

/// Fields of part 11 of a superblock as encoded at `at`.
pub open spec fn superblock_part11(x: Superblock, s: Seq<u8>, at: int) -> bool {
    &&& x.default_mount_opts == le32(s, at + 256)
    &&& x.first_meta_bg == le32(s, at + 260)
    &&& forall|i: int| 0 <= i < 190 ==> #[trigger] x.reserved@[i] == le32(s, at + 264 + 4 * i)
}

/// Whether `x` is what the 1024 bytes of `s` at `at` encode.
pub open spec fn superblock_encoded(x: Superblock, s: Seq<u8>, at: int) -> bool {
    &&& 0 <= at && at + 1024 <= s.len()
    &&& superblock_part0(x, s, at)
    &&& superblock_part1(x, s, at)
    &&& superblock_part2(x, s, at)
    &&& superblock_part3(x, s, at)
    &&& superblock_part4(x, s, at)
    &&& superblock_part5(x, s, at)
    &&& superblock_part6(x, s, at)
    &&& superblock_part7(x, s, at)
    &&& superblock_part8(x, s, at)
    &&& superblock_part9(x, s, at)
    &&& superblock_part10(x, s, at)
    &&& superblock_part11(x, s, at)
}

/// Decodes the superblock stored at `at`.
pub fn parse_superblock(b: &[u8], at: usize) -> (x: Superblock)
    requires
        at + 1024 <= b@.len(),
    ensures
        superblock_encoded(x, b@, at as int),
{
    let blen = b.len();
    let mut uuid: [u8; 16] = [0u8; 16];
    let mut i: usize = 0;
    while i < 16
        invariant
            blen == b@.len(),
            at + 1024 <= b@.len(),
            i <= 16,
            forall|j: int| 0 <= j < i ==> #[trigger] uuid@[j] == b@[at + 104 + j],
        decreases 16 - i,
    {
        uuid[i] = b[at + 104 + i];
        i += 1;
    }
    let mut volume_name: [u8; 16] = [0u8; 16];
    let mut i: usize = 0;
    while i < 16
        invariant
            blen == b@.len(),
            at + 1024 <= b@.len(),
            i <= 16,
            forall|j: int| 0 <= j < i ==> #[trigger] volume_name@[j] == b@[at + 120 + j],
        decreases 16 - i,
    {
        volume_name[i] = b[at + 120 + i];
        i += 1;
    }
    let mut last_mounted: [u8; 64] = [0u8; 64];
    let mut i: usize = 0;
    while i < 64
        invariant
            blen == b@.len(),
            at + 1024 <= b@.len(),
            i <= 64,
            forall|j: int| 0 <= j < i ==> #[trigger] last_mounted@[j] == b@[at + 136 + j],
        decreases 64 - i,
    {
        last_mounted[i] = b[at + 136 + i];
        i += 1;
    }
    let mut journal_uuid: [u8; 16] = [0u8; 16];
    let mut i: usize = 0;
    while i < 16
        invariant
            blen == b@.len(),
            at + 1024 <= b@.len(),
            i <= 16,
            forall|j: int| 0 <= j < i ==> #[trigger] journal_uuid@[j] == b@[at + 208 + j],
        decreases 16 - i,
    {
        journal_uuid[i] = b[at + 208 + i];
        i += 1;
    }
    let mut hash_seed: [u32; 4] = [0u32; 4];
    let mut i: usize = 0;
    while i < 4
        invariant
            blen == b@.len(),
            at + 1024 <= b@.len(),
            i <= 4,
            forall|j: int| 0 <= j < i ==> #[trigger] hash_seed@[j] == le32(b@, at + 236 + 4 * j),
        decreases 4 - i,
    {
        hash_seed[i] = read_u32(b, at + 236 + 4 * i);
        i += 1;
    }
    let mut padding2: [u8; 3] = [0u8; 3];
    let mut i: usize = 0;
    while i < 3
        invariant
            blen == b@.len(),
            at + 1024 <= b@.len(),
            i <= 3,
            forall|j: int| 0 <= j < i ==> #[trigger] padding2@[j] == b@[at + 253 + j],
        decreases 3 - i,
    {
        padding2[i] = b[at + 253 + i];
        i += 1;
    }
    let mut reserved: [u32; 190] = [0u32; 190];
    let mut i: usize = 0;
    while i < 190
        invariant
            blen == b@.len(),
            at + 1024 <= b@.len(),
            i <= 190,
            forall|j: int| 0 <= j < i ==> #[trigger] reserved@[j] == le32(b@, at + 264 + 4 * j),
        decreases 190 - i,
    {
        reserved[i] = read_u32(b, at + 264 + 4 * i);
        i += 1;
    }
    Superblock {
        inodes_count: read_u32(b, at + 0),
        blocks_count: read_u32(b, at + 4),
        r_blocks_count: read_u32(b, at + 8),
        free_blocks_count: read_u32(b, at + 12),
        free_inodes_count: read_u32(b, at + 16),
        first_data_block: read_u32(b, at + 20),
        log_block_size: read_u32(b, at + 24),
        log_frag_size: read_u32(b, at + 28),
        blocks_per_group: read_u32(b, at + 32),
        frags_per_group: read_u32(b, at + 36),
        inodes_per_group: read_u32(b, at + 40),
        mtime: read_u32(b, at + 44),
        wtime: read_u32(b, at + 48),
        mnt_count: read_u16(b, at + 52),
        max_mnt_count: read_u16(b, at + 54),
        s_magic: read_u16(b, at + 56),
        state: read_u16(b, at + 58),
        errors: read_u16(b, at + 60),
        minor_rev_level: read_u16(b, at + 62),
        lastcheck: read_u32(b, at + 64),
        checkinterval: read_u32(b, at + 68),
        creator_os: read_u32(b, at + 72),
        rev_level: read_u32(b, at + 76),
        def_resuid: read_u16(b, at + 80),
        def_resgid: read_u16(b, at + 82),
        first_ino: read_u32(b, at + 84),
        inode_size: read_u16(b, at + 88),
        block_group_nr: read_u16(b, at + 90),
        feature_compat: read_u32(b, at + 92),
        feature_incompat: read_u32(b, at + 96),
        feature_ro_compat: read_u32(b, at + 100),
        uuid,
        volume_name,
        last_mounted,
        algo_bitmap: read_u32(b, at + 200),
        prealloc_blocks: b[at + 204],
        prealloc_dir_blocks: b[at + 205],
        padding1: read_u16(b, at + 206),
        journal_uuid,
        journal_inum: read_u32(b, at + 224),
        journal_dev: read_u32(b, at + 228),
        last_orphan: read_u32(b, at + 232),
        hash_seed,
        def_hash_version: b[at + 252],
        padding2,
        default_mount_opts: read_u32(b, at + 256),
        first_meta_bg: read_u32(b, at + 260),
        reserved,
    }
}

fn store_superblock_part0(x: &Superblock, b: &mut Vec<u8>, at: usize)
    requires
        at + 1024 <= old(b)@.len(),
    ensures
        final(b)@.len() == old(b)@.len(),
        superblock_part0(*x, final(b)@, at as int),
        forall|i: int| 0 <= i < old(b)@.len() && !(at + 0 <= i < at + 24) ==> #[trigger] final(b)@[i] == old(b)@[i],
{
    let blen = b.len();
    write_u32(b, at + 0, x.inodes_count);
    write_u32(b, at + 4, x.blocks_count);
    write_u32(b, at + 8, x.r_blocks_count);
    write_u32(b, at + 12, x.free_blocks_count);
    write_u32(b, at + 16, x.free_inodes_count);
    write_u32(b, at + 20, x.first_data_block);
}

fn store_superblock_part1(x: &Superblock, b: &mut Vec<u8>, at: usize)
    requires
        at + 1024 <= old(b)@.len(),
    ensures
        final(b)@.len() == old(b)@.len(),
        superblock_part1(*x, final(b)@, at as int),
        forall|i: int| 0 <= i < old(b)@.len() && !(at + 24 <= i < at + 48) ==> #[trigger] final(b)@[i] == old(b)@[i],
{
    let blen = b.len();
    write_u32(b, at + 24, x.log_block_size);
    write_u32(b, at + 28, x.log_frag_size);
    write_u32(b, at + 32, x.blocks_per_group);
    write_u32(b, at + 36, x.frags_per_group);
    write_u32(b, at + 40, x.inodes_per_group);
    write_u32(b, at + 44, x.mtime);
}

fn store_superblock_part2(x: &Superblock, b: &mut Vec<u8>, at: usize)
    requires
        at + 1024 <= old(b)@.len(),
    ensures
        final(b)@.len() == old(b)@.len(),
        superblock_part2(*x, final(b)@, at as int),
        forall|i: int| 0 <= i < old(b)@.len() && !(at + 48 <= i < at + 62) ==> #[trigger] final(b)@[i] == old(b)@[i],
{
    let blen = b.len();
    write_u32(b, at + 48, x.wtime);
    write_u16(b, at + 52, x.mnt_count);
    write_u16(b, at + 54, x.max_mnt_count);
    write_u16(b, at + 56, x.s_magic);
    write_u16(b, at + 58, x.state);
    write_u16(b, at + 60, x.errors);
}

fn store_superblock_part3(x: &Superblock, b: &mut Vec<u8>, at: usize)
    requires
        at + 1024 <= old(b)@.len(),
    ensures
        final(b)@.len() == old(b)@.len(),
        superblock_part3(*x, final(b)@, at as int),
        forall|i: int| 0 <= i < old(b)@.len() && !(at + 62 <= i < at + 82) ==> #[trigger] final(b)@[i] == old(b)@[i],
{
    let blen = b.len();
    write_u16(b, at + 62, x.minor_rev_level);
    write_u32(b, at + 64, x.lastcheck);
    write_u32(b, at + 68, x.checkinterval);
    write_u32(b, at + 72, x.creator_os);
    write_u32(b, at + 76, x.rev_level);
    write_u16(b, at + 80, x.def_resuid);
}

fn store_superblock_part4(x: &Superblock, b: &mut Vec<u8>, at: usize)
    requires
        at + 1024 <= old(b)@.len(),
    ensures
        final(b)@.len() == old(b)@.len(),
        superblock_part4(*x, final(b)@, at as int),
        forall|i: int| 0 <= i < old(b)@.len() && !(at + 82 <= i < at + 100) ==> #[trigger] final(b)@[i] == old(b)@[i],
{
    let blen = b.len();
    write_u16(b, at + 82, x.def_resgid);
    write_u32(b, at + 84, x.first_ino);
    write_u16(b, at + 88, x.inode_size);
    write_u16(b, at + 90, x.block_group_nr);
    write_u32(b, at + 92, x.feature_compat);
    write_u32(b, at + 96, x.feature_incompat);
}

fn store_superblock_part5(x: &Superblock, b: &mut Vec<u8>, at: usize)
    requires
        at + 1024 <= old(b)@.len(),
    ensures
        final(b)@.len() == old(b)@.len(),
        superblock_part5(*x, final(b)@, at as int),
        forall|i: int| 0 <= i < old(b)@.len() && !(at + 100 <= i < at + 120) ==> #[trigger] final(b)@[i] == old(b)@[i],
{
    let blen = b.len();
    write_u32(b, at + 100, x.feature_ro_compat);
    let mut i: usize = 0;
    let ghost bb = b@;
    while i < 16
        invariant
            blen == b@.len(),
            at + 1024 <= b@.len(),
            b@.len() == bb.len(),
            i <= 16,
            forall|j: int| 0 <= j < b@.len() && !(at + 104 <= j < at + 104 + i) ==> #[trigger] b@[j] == bb[j],
            forall|j: int| 0 <= j < i ==> #[trigger] b@[at + 104 + j] == x.uuid@[j],
        decreases 16 - i,
    {
        b.set(at + 104 + i, x.uuid[i]);
        i += 1;
    }
}

fn store_superblock_part6(x: &Superblock, b: &mut Vec<u8>, at: usize)
    requires
        at + 1024 <= old(b)@.len(),
    ensures
        final(b)@.len() == old(b)@.len(),
        superblock_part6(*x, final(b)@, at as int),
        forall|i: int| 0 <= i < old(b)@.len() && !(at + 120 <= i < at + 136) ==> #[trigger] final(b)@[i] == old(b)@[i],
{
    let blen = b.len();
    let mut i: usize = 0;
    let ghost bb = b@;
    while i < 16
        invariant
            blen == b@.len(),
            at + 1024 <= b@.len(),
            b@.len() == bb.len(),
            i <= 16,
            forall|j: int| 0 <= j < b@.len() && !(at + 120 <= j < at + 120 + i) ==> #[trigger] b@[j] == bb[j],
            forall|j: int| 0 <= j < i ==> #[trigger] b@[at + 120 + j] == x.volume_name@[j],
        decreases 16 - i,
    {
        b.set(at + 120 + i, x.volume_name[i]);
        i += 1;
    }
}

fn store_superblock_part7(x: &Superblock, b: &mut Vec<u8>, at: usize)
    requires
        at + 1024 <= old(b)@.len(),
    ensures
        final(b)@.len() == old(b)@.len(),
        superblock_part7(*x, final(b)@, at as int),
        forall|i: int| 0 <= i < old(b)@.len() && !(at + 136 <= i < at + 200) ==> #[trigger] final(b)@[i] == old(b)@[i],
{
    let blen = b.len();
    let mut i: usize = 0;
    let ghost bb = b@;
    while i < 64
        invariant
            blen == b@.len(),
            at + 1024 <= b@.len(),
            b@.len() == bb.len(),
            i <= 64,
            forall|j: int| 0 <= j < b@.len() && !(at + 136 <= j < at + 136 + i) ==> #[trigger] b@[j] == bb[j],
            forall|j: int| 0 <= j < i ==> #[trigger] b@[at + 136 + j] == x.last_mounted@[j],
        decreases 64 - i,
    {
        b.set(at + 136 + i, x.last_mounted[i]);
        i += 1;
    }
}

fn store_superblock_part8(x: &Superblock, b: &mut Vec<u8>, at: usize)
    requires
        at + 1024 <= old(b)@.len(),
    ensures
        final(b)@.len() == old(b)@.len(),
        superblock_part8(*x, final(b)@, at as int),
        forall|i: int| 0 <= i < old(b)@.len() && !(at + 200 <= i < at + 224) ==> #[trigger] final(b)@[i] == old(b)@[i],
{
    let blen = b.len();
    write_u32(b, at + 200, x.algo_bitmap);
    b.set(at + 204, x.prealloc_blocks);
    b.set(at + 205, x.prealloc_dir_blocks);
    write_u16(b, at + 206, x.padding1);
    let mut i: usize = 0;
    let ghost bb = b@;
    while i < 16
        invariant
            blen == b@.len(),
            at + 1024 <= b@.len(),
            b@.len() == bb.len(),
            i <= 16,
            forall|j: int| 0 <= j < b@.len() && !(at + 208 <= j < at + 208 + i) ==> #[trigger] b@[j] == bb[j],
            forall|j: int| 0 <= j < i ==> #[trigger] b@[at + 208 + j] == x.journal_uuid@[j],
        decreases 16 - i,
    {
        b.set(at + 208 + i, x.journal_uuid[i]);
        i += 1;
    }
}

fn store_superblock_part9(x: &Superblock, b: &mut Vec<u8>, at: usize)
    requires
        at + 1024 <= old(b)@.len(),
    ensures
        final(b)@.len() == old(b)@.len(),
        superblock_part9(*x, final(b)@, at as int),
        forall|i: int| 0 <= i < old(b)@.len() && !(at + 224 <= i < at + 252) ==> #[trigger] final(b)@[i] == old(b)@[i],
{
    let blen = b.len();
    write_u32(b, at + 224, x.journal_inum);
    write_u32(b, at + 228, x.journal_dev);
    write_u32(b, at + 232, x.last_orphan);
    let mut i: usize = 0;
    let ghost bb = b@;
    while i < 4
        invariant
            blen == b@.len(),
            at + 1024 <= b@.len(),
            b@.len() == bb.len(),
            i <= 4,
            forall|j: int| 0 <= j < b@.len() && !(at + 236 <= j < at + 236 + 4 * i) ==> #[trigger] b@[j] == bb[j],
            forall|j: int| 0 <= j < i ==> #[trigger] le32(b@, at + 236 + 4 * j) == x.hash_seed@[j],
        decreases 4 - i,
    {
        let ghost prev = b@;
        write_u32(b, at + 236 + 4 * i, x.hash_seed[i]);
        proof {
            assert forall|j: int| 0 <= j < i implies #[trigger] le32(b@, at + 236 + 4 * j) == x.hash_seed@[j] by {
                assert(le32(b@, at + 236 + 4 * j) == le32(prev, at + 236 + 4 * j));
            }
        }
        i += 1;
    }
}

fn store_superblock_part10(x: &Superblock, b: &mut Vec<u8>, at: usize)
    requires
        at + 1024 <= old(b)@.len(),
    ensures
        final(b)@.len() == old(b)@.len(),
        superblock_part10(*x, final(b)@, at as int),
        forall|i: int| 0 <= i < old(b)@.len() && !(at + 252 <= i < at + 256) ==> #[trigger] final(b)@[i] == old(b)@[i],
{
    let blen = b.len();
    b.set(at + 252, x.def_hash_version);
    let mut i: usize = 0;
    let ghost bb = b@;
    while i < 3
        invariant
            blen == b@.len(),
            at + 1024 <= b@.len(),
            b@.len() == bb.len(),
            i <= 3,
            forall|j: int| 0 <= j < b@.len() && !(at + 253 <= j < at + 253 + i) ==> #[trigger] b@[j] == bb[j],
            forall|j: int| 0 <= j < i ==> #[trigger] b@[at + 253 + j] == x.padding2@[j],
        decreases 3 - i,
    {
        b.set(at + 253 + i, x.padding2[i]);
        i += 1;
    }
}

fn store_superblock_part11(x: &Superblock, b: &mut Vec<u8>, at: usize)
    requires
        at + 1024 <= old(b)@.len(),
    ensures
        final(b)@.len() == old(b)@.len(),
        superblock_part11(*x, final(b)@, at as int),
        forall|i: int| 0 <= i < old(b)@.len() && !(at + 256 <= i < at + 1024) ==> #[trigger] final(b)@[i] == old(b)@[i],
{
    let blen = b.len();
    write_u32(b, at + 256, x.default_mount_opts);
    write_u32(b, at + 260, x.first_meta_bg);
    let mut i: usize = 0;
    let ghost bb = b@;
    while i < 190
        invariant
            blen == b@.len(),
            at + 1024 <= b@.len(),
            b@.len() == bb.len(),
            i <= 190,
            forall|j: int| 0 <= j < b@.len() && !(at + 264 <= j < at + 264 + 4 * i) ==> #[trigger] b@[j] == bb[j],
            forall|j: int| 0 <= j < i ==> #[trigger] le32(b@, at + 264 + 4 * j) == x.reserved@[j],
        decreases 190 - i,
    {
        let ghost prev = b@;
        write_u32(b, at + 264 + 4 * i, x.reserved[i]);
        proof {
            assert forall|j: int| 0 <= j < i implies #[trigger] le32(b@, at + 264 + 4 * j) == x.reserved@[j] by {
                assert(le32(b@, at + 264 + 4 * j) == le32(prev, at + 264 + 4 * j));
            }
        }
        i += 1;
    }
}

/// Encodes `x` into the 1024 bytes at `at` of `b`; nothing else changes.
pub fn store_superblock(x: &Superblock, b: &mut Vec<u8>, at: usize)
    requires
        at + 1024 <= old(b)@.len(),
    ensures
        final(b)@.len() == old(b)@.len(),
        superblock_encoded(*x, final(b)@, at as int),
        forall|i: int| 0 <= i < old(b)@.len() && !(at <= i < at + 1024) ==> #[trigger] final(b)@[i] == old(b)@[i],
{
    store_superblock_part0(x, b, at);
    let ghost b0 = b@;
    store_superblock_part1(x, b, at);
    let ghost b1 = b@;
    store_superblock_part2(x, b, at);
    let ghost b2 = b@;
    store_superblock_part3(x, b, at);
    let ghost b3 = b@;
    store_superblock_part4(x, b, at);
    let ghost b4 = b@;
    store_superblock_part5(x, b, at);
    let ghost b5 = b@;
    store_superblock_part6(x, b, at);
    let ghost b6 = b@;
    store_superblock_part7(x, b, at);
    let ghost b7 = b@;
    store_superblock_part8(x, b, at);
    let ghost b8 = b@;
    store_superblock_part9(x, b, at);
    let ghost b9 = b@;
    store_superblock_part10(x, b, at);
    let ghost b10 = b@;
    store_superblock_part11(x, b, at);
    let ghost b11 = b@;
    proof {
        assert(superblock_part0(*x, b@, at as int));
        assert(superblock_part1(*x, b@, at as int));
        assert(superblock_part2(*x, b@, at as int));
        assert(superblock_part3(*x, b@, at as int));
        assert(superblock_part4(*x, b@, at as int));
        assert(superblock_part5(*x, b@, at as int));
        assert(superblock_part6(*x, b@, at as int));
        assert(superblock_part7(*x, b@, at as int));
        assert(superblock_part8(*x, b@, at as int));
        assert(superblock_part9(*x, b@, at as int));
        assert(superblock_part10(*x, b@, at as int));
        assert(superblock_part11(*x, b@, at as int));
    }
}

/// Bytes of an on-disk block group descriptor.
pub const BGD_SIZE: usize = 32;

/// Block group descriptor as stored on disk (little-endian).
#[derive(Debug, Clone, Copy)]
pub struct BlockGroupDescriptor {
    pub block_bitmap: u32,
    pub inode_bitmap: u32,
    pub inode_table: u32,
    pub free_blocks_count: u16,
    pub free_inodes_count: u16,
    pub used_dirs_count: u16,
    pub pad: u16,
    pub reserved: [u32; 3],
}

/// Fields of part 0 of a block group descriptor as encoded at `at`.
pub open spec fn blockgroupdescriptor_part0(x: BlockGroupDescriptor, s: Seq<u8>, at: int) -> bool {
    &&& x.block_bitmap == le32(s, at + 0)
    &&& x.inode_bitmap == le32(s, at + 4)
    &&& x.inode_table == le32(s, at + 8)
    &&& x.free_blocks_count == le16(s, at + 12)
    &&& x.free_inodes_count == le16(s, at + 14)
    &&& x.used_dirs_count == le16(s, at + 16)
}

/// Fields of part 1 of a block group descriptor as encoded at `at`.
pub open spec fn blockgroupdescriptor_part1(x: BlockGroupDescriptor, s: Seq<u8>, at: int) -> bool {
    &&& x.pad == le16(s, at + 18)
    &&& forall|i: int| 0 <= i < 3 ==> #[trigger] x.reserved@[i] == le32(s, at + 20 + 4 * i)
}

/// Whether `x` is what the 32 bytes of `s` at `at` encode.
pub open spec fn blockgroupdescriptor_encoded(x: BlockGroupDescriptor, s: Seq<u8>, at: int) -> bool {
    &&& 0 <= at && at + 32 <= s.len()
    &&& blockgroupdescriptor_part0(x, s, at)
    &&& blockgroupdescriptor_part1(x, s, at)
}

/// Decodes the block group descriptor stored at `at`.
pub fn parse_blockgroupdescriptor(b: &[u8], at: usize) -> (x: BlockGroupDescriptor)
    requires
        at + 32 <= b@.len(),
    ensures
        blockgroupdescriptor_encoded(x, b@, at as int),
{
    let blen = b.len();
    let mut reserved: [u32; 3] = [0u32; 3];
    let mut i: usize = 0;
    while i < 3
        invariant
            blen == b@.len(),
            at + 32 <= b@.len(),
            i <= 3,
            forall|j: int| 0 <= j < i ==> #[trigger] reserved@[j] == le32(b@, at + 20 + 4 * j),
        decreases 3 - i,
    {
        reserved[i] = read_u32(b, at + 20 + 4 * i);
        i += 1;
    }
    BlockGroupDescriptor {
        block_bitmap: read_u32(b, at + 0),
        inode_bitmap: read_u32(b, at + 4),
        inode_table: read_u32(b, at + 8),
        free_blocks_count: read_u16(b, at + 12),
        free_inodes_count: read_u16(b, at + 14),
        used_dirs_count: read_u16(b, at + 16),
        pad: read_u16(b, at + 18),
        reserved,
    }
}

fn store_blockgroupdescriptor_part0(x: &BlockGroupDescriptor, b: &mut Vec<u8>, at: usize)
    requires
        at + 32 <= old(b)@.len(),
    ensures
        final(b)@.len() == old(b)@.len(),
        blockgroupdescriptor_part0(*x, final(b)@, at as int),
        forall|i: int| 0 <= i < old(b)@.len() && !(at + 0 <= i < at + 18) ==> #[trigger] final(b)@[i] == old(b)@[i],
{
    let blen = b.len();
    write_u32(b, at + 0, x.block_bitmap);
    write_u32(b, at + 4, x.inode_bitmap);
    write_u32(b, at + 8, x.inode_table);
    write_u16(b, at + 12, x.free_blocks_count);
    write_u16(b, at + 14, x.free_inodes_count);
    write_u16(b, at + 16, x.used_dirs_count);
}

fn store_blockgroupdescriptor_part1(x: &BlockGroupDescriptor, b: &mut Vec<u8>, at: usize)
    requires
        at + 32 <= old(b)@.len(),
    ensures
        final(b)@.len() == old(b)@.len(),
        blockgroupdescriptor_part1(*x, final(b)@, at as int),
        forall|i: int| 0 <= i < old(b)@.len() && !(at + 18 <= i < at + 32) ==> #[trigger] final(b)@[i] == old(b)@[i],
{
    let blen = b.len();
    write_u16(b, at + 18, x.pad);
    let mut i: usize = 0;
    let ghost bb = b@;
    while i < 3
        invariant
            blen == b@.len(),
            at + 32 <= b@.len(),
            b@.len() == bb.len(),
            i <= 3,
            forall|j: int| 0 <= j < b@.len() && !(at + 20 <= j < at + 20 + 4 * i) ==> #[trigger] b@[j] == bb[j],
            forall|j: int| 0 <= j < i ==> #[trigger] le32(b@, at + 20 + 4 * j) == x.reserved@[j],
        decreases 3 - i,
    {
        let ghost prev = b@;
        write_u32(b, at + 20 + 4 * i, x.reserved[i]);
        proof {
            assert forall|j: int| 0 <= j < i implies #[trigger] le32(b@, at + 20 + 4 * j) == x.reserved@[j] by {
                assert(le32(b@, at + 20 + 4 * j) == le32(prev, at + 20 + 4 * j));
            }
        }
        i += 1;
    }
}

/// Encodes `x` into the 32 bytes at `at` of `b`; nothing else changes.
pub fn store_blockgroupdescriptor(x: &BlockGroupDescriptor, b: &mut Vec<u8>, at: usize)
    requires
        at + 32 <= old(b)@.len(),
    ensures
        final(b)@.len() == old(b)@.len(),
        blockgroupdescriptor_encoded(*x, final(b)@, at as int),
        forall|i: int| 0 <= i < old(b)@.len() && !(at <= i < at + 32) ==> #[trigger] final(b)@[i] == old(b)@[i],
{
    store_blockgroupdescriptor_part0(x, b, at);
    let ghost b0 = b@;
    store_blockgroupdescriptor_part1(x, b, at);
    let ghost b1 = b@;
    proof {
        assert(blockgroupdescriptor_part0(*x, b@, at as int));
        assert(blockgroupdescriptor_part1(*x, b@, at as int));
    }
}

/// Bytes of an on-disk inode.
pub const INODE_SIZE: usize = 128;

/// Inode as stored on disk (little-endian).
#[derive(Debug, Clone, Copy)]
pub struct Inode {
    pub mode: u16,
    pub uid: u16,
    pub size: u32,
    pub atime: u32,
    pub ctime: u32,
    pub mtime: u32,
    pub dtime: u32,
    pub gid: u16,
    pub links_count: u16,
    pub blocks: u32,
    pub flags: u32,
    pub osd1: u32,
    pub block: [u32; 15],
    pub generation: u32,
    pub file_acl: u32,
    pub dir_acl: u32,
    pub faddr: u32,
    pub osd2: [u32; 3],
}

/// Fields of part 0 of a inode as encoded at `at`.
pub open spec fn inode_part0(x: Inode, s: Seq<u8>, at: int) -> bool {
    &&& x.mode == le16(s, at + 0)
    &&& x.uid == le16(s, at + 2)
    &&& x.size == le32(s, at + 4)
    &&& x.atime == le32(s, at + 8)
    &&& x.ctime == le32(s, at + 12)
    &&& x.mtime == le32(s, at + 16)
}

/// Fields of part 1 of a inode as encoded at `at`.
pub open spec fn inode_part1(x: Inode, s: Seq<u8>, at: int) -> bool {
    &&& x.dtime == le32(s, at + 20)
    &&& x.gid == le16(s, at + 24)
    &&& x.links_count == le16(s, at + 26)
    &&& x.blocks == le32(s, at + 28)
    &&& x.flags == le32(s, at + 32)
    &&& x.osd1 == le32(s, at + 36)
}

/// Fields of part 2 of a inode as encoded at `at`.
pub open spec fn inode_part2(x: Inode, s: Seq<u8>, at: int) -> bool {
    &&& forall|i: int| 0 <= i < 15 ==> #[trigger] x.block@[i] == le32(s, at + 40 + 4 * i)
}

/// Fields of part 3 of a inode as encoded at `at`.
pub open spec fn inode_part3(x: Inode, s: Seq<u8>, at: int) -> bool {
    &&& x.generation == le32(s, at + 100)
    &&& x.file_acl == le32(s, at + 104)
    &&& x.dir_acl == le32(s, at + 108)
    &&& x.faddr == le32(s, at + 112)
    &&& forall|i: int| 0 <= i < 3 ==> #[trigger] x.osd2@[i] == le32(s, at + 116 + 4 * i)
}

/// Whether `x` is what the 128 bytes of `s` at `at` encode.
pub open spec fn inode_encoded(x: Inode, s: Seq<u8>, at: int) -> bool {
    &&& 0 <= at && at + 128 <= s.len()
    &&& inode_part0(x, s, at)
    &&& inode_part1(x, s, at)
    &&& inode_part2(x, s, at)
    &&& inode_part3(x, s, at)
}

/// Decodes the inode stored at `at`.
pub fn parse_inode(b: &[u8], at: usize) -> (x: Inode)
    requires
        at + 128 <= b@.len(),
    ensures
        inode_encoded(x, b@, at as int),
{
    let blen = b.len();
    let mut block: [u32; 15] = [0u32; 15];
    let mut i: usize = 0;
    while i < 15
        invariant
            blen == b@.len(),
            at + 128 <= b@.len(),
            i <= 15,
            forall|j: int| 0 <= j < i ==> #[trigger] block@[j] == le32(b@, at + 40 + 4 * j),
        decreases 15 - i,
    {
        block[i] = read_u32(b, at + 40 + 4 * i);
        i += 1;
    }
    let mut osd2: [u32; 3] = [0u32; 3];
    let mut i: usize = 0;
    while i < 3
        invariant
            blen == b@.len(),
            at + 128 <= b@.len(),
            i <= 3,
            forall|j: int| 0 <= j < i ==> #[trigger] osd2@[j] == le32(b@, at + 116 + 4 * j),
        decreases 3 - i,
    {
        osd2[i] = read_u32(b, at + 116 + 4 * i);
        i += 1;
    }
    Inode {
        mode: read_u16(b, at + 0),
        uid: read_u16(b, at + 2),
        size: read_u32(b, at + 4),
        atime: read_u32(b, at + 8),
        ctime: read_u32(b, at + 12),
        mtime: read_u32(b, at + 16),
        dtime: read_u32(b, at + 20),
        gid: read_u16(b, at + 24),
        links_count: read_u16(b, at + 26),
        blocks: read_u32(b, at + 28),
        flags: read_u32(b, at + 32),
        osd1: read_u32(b, at + 36),
        block,
        generation: read_u32(b, at + 100),
        file_acl: read_u32(b, at + 104),
        dir_acl: read_u32(b, at + 108),
        faddr: read_u32(b, at + 112),
        osd2,
    }
}

fn store_inode_part0(x: &Inode, b: &mut Vec<u8>, at: usize)
    requires
        at + 128 <= old(b)@.len(),
    ensures
        final(b)@.len() == old(b)@.len(),
        inode_part0(*x, final(b)@, at as int),
        forall|i: int| 0 <= i < old(b)@.len() && !(at + 0 <= i < at + 20) ==> #[trigger] final(b)@[i] == old(b)@[i],
{
    let blen = b.len();
    write_u16(b, at + 0, x.mode);
    write_u16(b, at + 2, x.uid);
    write_u32(b, at + 4, x.size);
    write_u32(b, at + 8, x.atime);
    write_u32(b, at + 12, x.ctime);
    write_u32(b, at + 16, x.mtime);
}

fn store_inode_part1(x: &Inode, b: &mut Vec<u8>, at: usize)
    requires
        at + 128 <= old(b)@.len(),
    ensures
        final(b)@.len() == old(b)@.len(),
        inode_part1(*x, final(b)@, at as int),
        forall|i: int| 0 <= i < old(b)@.len() && !(at + 20 <= i < at + 40) ==> #[trigger] final(b)@[i] == old(b)@[i],
{
    let blen = b.len();
    write_u32(b, at + 20, x.dtime);
    write_u16(b, at + 24, x.gid);
    write_u16(b, at + 26, x.links_count);
    write_u32(b, at + 28, x.blocks);
    write_u32(b, at + 32, x.flags);
    write_u32(b, at + 36, x.osd1);
}

fn store_inode_part2(x: &Inode, b: &mut Vec<u8>, at: usize)
    requires
        at + 128 <= old(b)@.len(),
    ensures
        final(b)@.len() == old(b)@.len(),
        inode_part2(*x, final(b)@, at as int),
        forall|i: int| 0 <= i < old(b)@.len() && !(at + 40 <= i < at + 100) ==> #[trigger] final(b)@[i] == old(b)@[i],
{
    let blen = b.len();
    let mut i: usize = 0;
    let ghost bb = b@;
    while i < 15
        invariant
            blen == b@.len(),
            at + 128 <= b@.len(),
            b@.len() == bb.len(),
            i <= 15,
            forall|j: int| 0 <= j < b@.len() && !(at + 40 <= j < at + 40 + 4 * i) ==> #[trigger] b@[j] == bb[j],
            forall|j: int| 0 <= j < i ==> #[trigger] le32(b@, at + 40 + 4 * j) == x.block@[j],
        decreases 15 - i,
    {
        let ghost prev = b@;
        write_u32(b, at + 40 + 4 * i, x.block[i]);
        proof {
            assert forall|j: int| 0 <= j < i implies #[trigger] le32(b@, at + 40 + 4 * j) == x.block@[j] by {
                assert(le32(b@, at + 40 + 4 * j) == le32(prev, at + 40 + 4 * j));
            }
        }
        i += 1;
    }
}

fn store_inode_part3(x: &Inode, b: &mut Vec<u8>, at: usize)
    requires
        at + 128 <= old(b)@.len(),
    ensures
        final(b)@.len() == old(b)@.len(),
        inode_part3(*x, final(b)@, at as int),
        forall|i: int| 0 <= i < old(b)@.len() && !(at + 100 <= i < at + 128) ==> #[trigger] final(b)@[i] == old(b)@[i],
{
    let blen = b.len();
    write_u32(b, at + 100, x.generation);
    write_u32(b, at + 104, x.file_acl);
    write_u32(b, at + 108, x.dir_acl);
    write_u32(b, at + 112, x.faddr);
    let mut i: usize = 0;
    let ghost bb = b@;
    while i < 3
        invariant
            blen == b@.len(),
            at + 128 <= b@.len(),
            b@.len() == bb.len(),
            i <= 3,
            forall|j: int| 0 <= j < b@.len() && !(at + 116 <= j < at + 116 + 4 * i) ==> #[trigger] b@[j] == bb[j],
            forall|j: int| 0 <= j < i ==> #[trigger] le32(b@, at + 116 + 4 * j) == x.osd2@[j],
        decreases 3 - i,
    {
        let ghost prev = b@;
        write_u32(b, at + 116 + 4 * i, x.osd2[i]);
        proof {
            assert forall|j: int| 0 <= j < i implies #[trigger] le32(b@, at + 116 + 4 * j) == x.osd2@[j] by {
                assert(le32(b@, at + 116 + 4 * j) == le32(prev, at + 116 + 4 * j));
            }
        }
        i += 1;
    }
}

/// Encodes `x` into the 128 bytes at `at` of `b`; nothing else changes.
pub fn store_inode(x: &Inode, b: &mut Vec<u8>, at: usize)
    requires
        at + 128 <= old(b)@.len(),
    ensures
        final(b)@.len() == old(b)@.len(),
        inode_encoded(*x, final(b)@, at as int),
        forall|i: int| 0 <= i < old(b)@.len() && !(at <= i < at + 128) ==> #[trigger] final(b)@[i] == old(b)@[i],
{
    store_inode_part0(x, b, at);
    let ghost b0 = b@;
    store_inode_part1(x, b, at);
    let ghost b1 = b@;
    store_inode_part2(x, b, at);
    let ghost b2 = b@;
    store_inode_part3(x, b, at);
    let ghost b3 = b@;
    proof {
        assert(inode_part0(*x, b@, at as int));
        assert(inode_part1(*x, b@, at as int));
        assert(inode_part2(*x, b@, at as int));
        assert(inode_part3(*x, b@, at as int));
    }
}

/// Bytes of an on-disk directory entry header.
pub const DIRENT_HEADER_SIZE: usize = 8;

/// Directory entry header as stored on disk (little-endian).
#[derive(Debug, Clone, Copy)]
pub struct DirectoryEntry {
    pub inode: u32,
    pub rec_len: u16,
    pub name_len: u8,
    pub file_type: u8,
}

/// Fields of part 0 of a directory entry header as encoded at `at`.
pub open spec fn directoryentry_part0(x: DirectoryEntry, s: Seq<u8>, at: int) -> bool {
    &&& x.inode == le32(s, at + 0)
    &&& x.rec_len == le16(s, at + 4)
    &&& x.name_len == s[at + 6]
    &&& x.file_type == s[at + 7]
}

/// Whether `x` is what the 8 bytes of `s` at `at` encode.
pub open spec fn directoryentry_encoded(x: DirectoryEntry, s: Seq<u8>, at: int) -> bool {
    &&& 0 <= at && at + 8 <= s.len()
    &&& directoryentry_part0(x, s, at)
}

/// Decodes the directory entry header stored at `at`.
pub fn parse_directoryentry(b: &[u8], at: usize) -> (x: DirectoryEntry)
    requires
        at + 8 <= b@.len(),
    ensures
        directoryentry_encoded(x, b@, at as int),
{
    let blen = b.len();
    DirectoryEntry {
        inode: read_u32(b, at + 0),
        rec_len: read_u16(b, at + 4),
        name_len: b[at + 6],
        file_type: b[at + 7],
    }
}

fn store_directoryentry_part0(x: &DirectoryEntry, b: &mut Vec<u8>, at: usize)
    requires
        at + 8 <= old(b)@.len(),
    ensures
        final(b)@.len() == old(b)@.len(),
        directoryentry_part0(*x, final(b)@, at as int),
        forall|i: int| 0 <= i < old(b)@.len() && !(at + 0 <= i < at + 8) ==> #[trigger] final(b)@[i] == old(b)@[i],
{
    let blen = b.len();
    write_u32(b, at + 0, x.inode);
    write_u16(b, at + 4, x.rec_len);
    b.set(at + 6, x.name_len);
    b.set(at + 7, x.file_type);
}

/// Encodes `x` into the 8 bytes at `at` of `b`; nothing else changes.
pub fn store_directoryentry(x: &DirectoryEntry, b: &mut Vec<u8>, at: usize)
    requires
        at + 8 <= old(b)@.len(),
    ensures
        final(b)@.len() == old(b)@.len(),
        directoryentry_encoded(*x, final(b)@, at as int),
        forall|i: int| 0 <= i < old(b)@.len() && !(at <= i < at + 8) ==> #[trigger] final(b)@[i] == old(b)@[i],
{
    store_directoryentry_part0(x, b, at);
    let ghost b0 = b@;
    proof {
        assert(directoryentry_part0(*x, b@, at as int));
    }
}

} // verus!
