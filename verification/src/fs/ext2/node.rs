use vstd::prelude::*;
use crate::fs::disk::BlockDevice;
use crate::fs::ext2::fs::{Ext2, Ext2Error, whole_sectors, device_bytes};
use crate::fs::ext2::structs::{Inode, inode_encoded};
use crate::fs::ext2::dir::{scan_block, find_in_block, lemma_scan_nonzero};
use vstd::string::StringSliceAdditionalSpecFns;
use crate::fs::vfs::FileType;

verus! {

/// `(base + j) / bs` and `(base + j) % bs` split at a block boundary `base`.
proof fn lemma_block_split(bs: int, base: int, j: int)
    requires
        bs > 0,
        base >= 0,
        base % bs == 0,
        j >= 0,
    ensures
        (base + j) / bs == base / bs + j / bs,
        (base + j) % bs == j % bs,
{
    let a = base / bs;
    vstd::arithmetic::div_mod::lemma_fundamental_div_mod(base, bs);
    vstd::arithmetic::div_mod::lemma_fundamental_div_mod(j, bs);
    assert(base + j == (a + j / bs) * bs + j % bs) by (nonlinear_arith)
        requires
            base == bs * a + base % bs,
            base % bs == 0,
            j == bs * (j / bs) + j % bs,
    ;
    vstd::arithmetic::div_mod::lemma_fundamental_div_mod_converse(base + j, bs, a + j / bs, j % bs);
}

/// The file type an inode's mode names.
pub open spec fn kind_of_mode(mode: u16) -> FileType {
    if mode & 0xF000 == 0x4000 {
        FileType::Directory
    } else if mode & 0xF000 == 0x8000 {
        FileType::File
    } else {
        FileType::Unknown
    }
}

/// A file or directory of an ext2 file system: its inode number, the inode as read, and
/// the name it was found under.
pub struct Ext2Node {
    pub inode_idx: u32,
    pub inode: Inode,
    pub name: String,
}

impl Ext2Node {
    /// The node for inode `inode_idx` holding `inode`, named `name`.
    pub fn new(inode_idx: u32, inode: Inode, name: String) -> (n: Self)
        ensures
            n.inode_idx == inode_idx,
            n.inode == inode,
            n.name@ == name@,
    {
        Ext2Node { inode_idx, inode, name }
    }

    /// The name the node was found under.
    pub fn name(&self) -> (r: String)
        ensures
            r@ == self.name@,
    {
        self.name.clone()
    }

    /// The file size in bytes.
    pub fn size(&self) -> (r: u64)
        ensures
            r == self.inode.size,
    {
        self.inode.size as u64
    }

    /// What the inode's mode says the node is.
    pub fn kind(&self) -> (r: FileType)
        ensures
            r == kind_of_mode(self.inode.mode),
    {
        if (self.inode.mode & 0xF000) == 0x4000 {
            FileType::Directory
        } else if (self.inode.mode & 0xF000) == 0x8000 {
            FileType::File
        } else {
            FileType::Unknown
        }
    }

    /// How many bytes reading `len` bytes at `offset` of a file of `size` bytes gives.
    pub open spec fn read_len(size: int, offset: int, len: int) -> int {
        if offset >= size {
            0
        } else if len < size - offset {
            len
        } else {
            size - offset
        }
    }
}

impl<D: BlockDevice> Ext2<D> {
    /// Byte `p` of the file `inode` describes, as the disk holds it: zero inside blocks that
    /// are not mapped.
    pub open spec fn file_byte(&self, inode: Inode, p: int) -> u8 {
        let phys = self.block_of(inode, (p / (self.bsize() as int)) as u32);
        if phys == 0 {
            0
        } else {
            self.disk_byte(phys * self.bsize() + p % (self.bsize() as int))
        }
    }
}

/// Two states with the same disk and layout map and read files alike.
pub proof fn lemma_same_view<D: BlockDevice>(a: &Ext2<D>, b: &Ext2<D>, inode: Inode, l: u32, p: int)
    requires
        a.dev() == b.dev(),
        a.same_layout(b),
    ensures
        a.block_of(inode, l) == b.block_of(inode, l),
        a.file_byte(inode, p) == b.file_byte(inode, p),
{
    let q = (p / (a.bsize() as int)) as u32;
    assert(a.block_of(inode, q) == b.block_of(inode, q));
}

/// A whole number of blocks starting on a block boundary is a whole-sector transfer.
pub(crate) proof fn lemma_blocks_whole<D: BlockDevice>(s: &Ext2<D>, phys: int, count: int)
    requires
        crate::fs::ext2::fs::valid_block_size(s.bsize() as int),
        phys >= 0,
        count >= 1,
    ensures
        whole_sectors(s.base() + phys * s.bsize(), count * s.bsize()),
{
    crate::fs::ext2::fs::lemma_base_aligned(s);
    let bs = s.bsize() as int;
    let m = bs / 512;
    assert(bs == 512 * m && m >= 2);
    let q = s.base() / 512;
    vstd::arithmetic::div_mod::lemma_fundamental_div_mod(s.base(), 512);
    assert(s.base() == 512 * q);
    let t = q + phys * m;
    assert(s.base() + phys * bs == t * 512) by (nonlinear_arith)
        requires
            s.base() == 512 * q,
            bs == 512 * m,
            t == q + phys * m,
    ;
    vstd::arithmetic::div_mod::lemma_mod_multiples_basic(t, 512);
    assert(count * bs == (count * m) * 512) by (nonlinear_arith)
        requires
            bs == 512 * m,
    ;
    vstd::arithmetic::div_mod::lemma_mod_multiples_basic(count * m, 512);
    assert(count * m >= 1) by (nonlinear_arith)
        requires
            m >= 2,
            count >= 1,
    ;
}

impl Ext2Node {
    /// Copies `src[from..from + n]` into `buffer[at..at + n]`.
    fn copy_into(buffer: &mut [u8], at: usize, src: &[u8], from: usize, n: usize)
        requires
            at + n <= old(buffer)@.len(),
            from + n <= src@.len(),
        ensures
            final(buffer)@.len() == old(buffer)@.len(),
            forall|i: int| 0 <= i < final(buffer)@.len() ==> #[trigger] final(buffer)@[i] == if at <= i < at + n {
                src@[from + i - at]
            } else {
                old(buffer)@[i]
            },
    {
        let blen = buffer.len();
        let slen = src.len();
        let mut k: usize = 0;
        while k < n
            invariant
                blen == buffer@.len(),
                slen == src@.len(),
                at + n <= blen,
                from + n <= slen,
                buffer@.len() == old(buffer)@.len(),
                k <= n,
                forall|i: int| 0 <= i < buffer@.len() ==> #[trigger] buffer@[i] == if at <= i < at + k {
                    src@[from + i - at]
                } else {
                    old(buffer)@[i]
                },
            decreases n - k,
        {
            buffer[at + k] = src[from + k];
            k += 1;
        }
    }

    /// Writes `n` zeros into `buffer[at..at + n]`.
    fn zero_into(buffer: &mut [u8], at: usize, n: usize)
        requires
            at + n <= old(buffer)@.len(),
        ensures
            final(buffer)@.len() == old(buffer)@.len(),
            forall|i: int| 0 <= i < final(buffer)@.len() ==> #[trigger] final(buffer)@[i] == if at <= i < at + n {
                0u8
            } else {
                old(buffer)@[i]
            },
    {
        let blen = buffer.len();
        let mut k: usize = 0;
        while k < n
            invariant
                blen == buffer@.len(),
                at + n <= blen,
                buffer@.len() == old(buffer)@.len(),
                k <= n,
                forall|i: int| 0 <= i < buffer@.len() ==> #[trigger] buffer@[i] == if at <= i < at + k {
                    0u8
                } else {
                    old(buffer)@[i]
                },
            decreases n - k,
        {
            buffer[at + k] = 0;
            k += 1;
        }
    }

    /// Reads block `block_idx` of the file into `bounce`, or zeros where it is not mapped.
    fn load_block<D: BlockDevice>(&self, fs: &mut Ext2<D>, block_idx: u32, bounce: &mut Vec<u8>)
        requires
            old(fs).wf(),
            old(bounce)@.len() == old(fs).bsize(),
        ensures
            final(fs).wf(),
            final(fs).same_layout(old(fs)),
            final(fs).dev() == old(fs).dev(),
            old(fs).coherent() ==> final(fs).coherent(),
            final(bounce)@.len() == old(bounce)@.len(),
            old(fs).coherent() ==> forall|j: int| 0 <= j < final(bounce)@.len() ==> #[trigger] final(bounce)@[j] == {
                let phys = old(fs).block_of(self.inode, block_idx);
                if phys == 0 { 0u8 } else { old(fs).disk_byte(phys * old(fs).bsize() + j) }
            },
    {
        let ghost s0 = *fs;
        let bs = fs.block_size();
        let phys = fs.get_block_address(&self.inode, block_idx);
        if phys != 0 {
            proof {
                lemma_blocks_whole(fs, phys as int, 1);
            }
            fs.read_disk_data(phys as u64 * bs, bounce.as_mut_slice());
        } else {
            let n = bounce.len();
            let mut k: usize = 0;
            while k < n
                invariant
                    n == bounce@.len(),
                    k <= n,
                    forall|j: int| 0 <= j < k ==> #[trigger] bounce@[j] == 0u8,
                decreases n - k,
            {
                bounce.set(k, 0);
                k += 1;
            }
        }
    }

    /// Reads the run of whole blocks starting at block-aligned file offset `current` into
    /// `buffer[at..]`: up to `max_blocks` blocks that lie one after another on the disk
    /// (32 at most), or one block of zeros where the first is not mapped. Returns the bytes
    /// placed.
    #[verifier::spinoff_prover]
    #[verifier::rlimit(40)]
    fn read_run<D: BlockDevice>(&self, fs: &mut Ext2<D>, current: u64, buffer: &mut [u8], at: usize, max_blocks: usize) -> (n: usize)
        requires
            old(fs).wf(),
            1 <= max_blocks <= 32,
            at + max_blocks * old(fs).bsize() <= old(buffer)@.len(),
            current % old(fs).bsize() == 0,
            current + max_blocks * old(fs).bsize() <= 0x1_0000_0000,
        ensures
            final(fs).wf(),
            final(fs).same_layout(old(fs)),
            final(fs).dev() == old(fs).dev(),
            old(fs).coherent() ==> final(fs).coherent(),
            final(buffer)@.len() == old(buffer)@.len(),
            n as int % (old(fs).bsize() as int) == 0,
            old(fs).bsize() <= n <= max_blocks * old(fs).bsize(),
            forall|i: int| 0 <= i < old(buffer)@.len() && !(at <= i < at + n) ==> #[trigger] final(buffer)@[i] == old(buffer)@[i],
            old(fs).coherent() ==> forall|j: int|
                0 <= j < n ==> #[trigger] final(buffer)@[at + j] == old(fs).file_byte(self.inode, current + j),
    {
        let ghost s0 = *fs;
        let bs = fs.block_size();
        let bsz = bs as usize;
        proof {
            assert(current / bs <= current) by (nonlinear_arith)
                requires
                    bs >= 1,
            ;
        }
        proof {
            assert(current / bs <= 0x40_0000) by (nonlinear_arith)
                requires
                    current <= 0x1_0000_0000,
                    bs >= 1024,
            ;
        }
        let start_block_idx = (current / bs) as u32;
        let start_phys = fs.get_block_address(&self.inode, start_block_idx);
        if start_phys == 0 {
            Self::zero_into(buffer, at, bsz);
            proof {
                if s0.coherent() {
                    assert forall|j: int| 0 <= j < bsz implies #[trigger] buffer@[at + j] == s0.file_byte(self.inode, current + j) by {
                        lemma_block_split(bs as int, current as int, j);
                        vstd::arithmetic::div_mod::lemma_small_mod(j as nat, bs as nat);
                        vstd::arithmetic::div_mod::lemma_basic_div(j, bs as int);
                    }
                }
            }
            return bsz;
        }
        let mut count: usize = 1;
        while count < max_blocks
            invariant
                fs.wf(),
                fs.same_layout(&s0),
                fs.dev() == s0.dev(),
                s0.coherent() ==> fs.coherent(),
                1 <= count <= max_blocks,
                max_blocks <= 32,
                start_block_idx as int == current / bs,
                start_block_idx <= 0x40_0000,
                bs == s0.bsize(),
                s0.coherent() ==> forall|k: int| 0 <= k < count ==> #[trigger] s0.block_of(self.inode, (start_block_idx + k) as u32) == start_phys + k,
            decreases max_blocks - count,
        {
            let ghost sc = *fs;
            let next_phys = fs.get_block_address(&self.inode, start_block_idx + count as u32);
            proof {
                lemma_same_view(&sc, &s0, self.inode, (start_block_idx + count) as u32, 0);
            }
            let contiguous = match start_phys.checked_add(count as u32) {
                Some(v) => next_phys == v,
                None => false,
            };
            if contiguous {
                count += 1;
            } else {
                break;
            }
        }
        let chunk_size = count * bsz;
        let mut chunk: Vec<u8> = vec![0u8; chunk_size];
        proof {
            lemma_blocks_whole(fs, start_phys as int, count as int);
        }
        fs.read_disk_data(start_phys as u64 * bs, chunk.as_mut_slice());
        Self::copy_into(buffer, at, chunk.as_slice(), 0, chunk_size);
        proof {
            if s0.coherent() {
                assert forall|j: int| 0 <= j < chunk_size implies #[trigger] buffer@[at + j] == s0.file_byte(self.inode, current + j) by {
                    lemma_block_split(bs as int, current as int, j);
                    vstd::arithmetic::div_mod::lemma_fundamental_div_mod(j, bs as int);
                    let k = j / (bs as int);
                    assert(0 <= k < count) by (nonlinear_arith)
                        requires
                            0 <= j < count * bs,
                            bs > 0,
                            k == j / (bs as int),
                    ;
                    assert(s0.block_of(self.inode, (start_block_idx + k) as u32) == start_phys + k);
                    assert((start_phys + k) * bs + j % (bs as int) == start_phys * bs + j) by (nonlinear_arith)
                        requires
                            j == bs * k + j % (bs as int),
                    ;
                }
            }
        }
        chunk_size
    }
}

impl Ext2Node {
    /// Reads up to `buffer.len()` bytes of the file from `offset`, stopping at its end:
    /// whole runs of consecutive blocks (up to 32) straight from the disk, partial blocks
    /// through a bounce buffer, unmapped blocks as zeros. Returns the count read.
    #[verifier::rlimit(40)]
    pub fn read<D: BlockDevice>(&self, fs: &mut Ext2<D>, offset: u64, buffer: &mut [u8]) -> (r: Result<usize, Ext2Error>)
        requires
            old(fs).wf(),
        ensures
            final(fs).wf(),
            final(fs).same_layout(old(fs)),
            final(fs).dev() == old(fs).dev(),
            old(fs).coherent() ==> final(fs).coherent(),
            final(buffer)@.len() == old(buffer)@.len(),
            r == Ok::<usize, Ext2Error>(Self::read_len(self.inode.size as int, offset as int, old(buffer)@.len() as int) as usize),
            forall|i: int|
                Self::read_len(self.inode.size as int, offset as int, old(buffer)@.len() as int) <= i < old(buffer)@.len()
                    ==> #[trigger] final(buffer)@[i] == old(buffer)@[i],
            old(fs).coherent() ==> forall|i: int|
                0 <= i < Self::read_len(self.inode.size as int, offset as int, old(buffer)@.len() as int)
                    ==> #[trigger] final(buffer)@[i] == old(fs).file_byte(self.inode, offset + i),
    {
        let ghost s0 = *fs;
        let total_size = self.size();
        if offset >= total_size {
            return Ok(0);
        }
        let blen = buffer.len();
        let len: usize = if (blen as u64) < total_size - offset { blen } else { (total_size - offset) as usize };
        let bs = fs.block_size();
        let bsz = bs as usize;
        let mut bounce: Vec<u8> = vec![0u8; bsz];
        let mut bytes_read: usize = 0;
        let mut current: u64 = offset;
        let start_block_offset = (current % bs) as usize;
        if start_block_offset != 0 {
            proof {
                assert(current / bs <= 0x40_0000) by (nonlinear_arith)
                    requires
                        current <= 0x1_0000_0000,
                        bs >= 1024,
                ;
            }
            let block_idx = (current / bs) as u32;
            let ghost sh = *fs;
            self.load_block(fs, block_idx, &mut bounce);
            let to_copy = if len < bsz - start_block_offset { len } else { bsz - start_block_offset };
            Self::copy_into(buffer, 0, bounce.as_slice(), start_block_offset, to_copy);
            proof {
                if s0.coherent() {
                    let base = (current / bs) as int * bs;
                    vstd::arithmetic::div_mod::lemma_fundamental_div_mod(current as int, bs as int);
                    vstd::arithmetic::div_mod::lemma_mod_multiples_basic((current / bs) as int, bs as int);
                    assert(base + start_block_offset == current);
                    assert forall|i: int| 0 <= i < to_copy implies #[trigger] buffer@[i] == s0.file_byte(self.inode, offset + i) by {
                        lemma_block_split(bs as int, base, start_block_offset + i);
                        vstd::arithmetic::div_mod::lemma_div_multiples_vanish((current / bs) as int, bs as int);
                        vstd::arithmetic::div_mod::lemma_small_mod((start_block_offset + i) as nat, bs as nat);
                    }
                }
            }
            bytes_read = to_copy;
            proof {
                if to_copy < len {
                    let q = (current / bs) as int;
                    vstd::arithmetic::div_mod::lemma_fundamental_div_mod(current as int, bs as int);
                    assert(current + to_copy == (q + 1) * bs) by (nonlinear_arith)
                        requires
                            current == bs * q + start_block_offset,
                            to_copy == bs - start_block_offset,
                    ;
                    vstd::arithmetic::div_mod::lemma_mod_multiples_basic(q + 1, bs as int);
                }
            }
            current = current + to_copy as u64;
        }
        while len - bytes_read >= bsz
            invariant
                fs.wf(),
                fs.same_layout(&s0),
                fs.dev() == s0.dev(),
                s0.coherent() ==> fs.coherent(),
                bs == s0.bsize(),
                bsz == bs,
                crate::fs::ext2::fs::valid_block_size(bs as int),
                bounce@.len() == bs,
                len == Self::read_len(self.inode.size as int, offset as int, blen as int),
                blen == old(buffer)@.len(),
                buffer@.len() == blen,
                len <= blen,
                offset + len <= self.inode.size,
                bytes_read <= len,
                current == offset + bytes_read,
                bytes_read < len ==> current % bs == 0,
                forall|i: int| len <= i < blen ==> #[trigger] buffer@[i] == old(buffer)@[i],
                s0.coherent() ==> forall|i: int| 0 <= i < bytes_read ==> #[trigger] buffer@[i] == s0.file_byte(self.inode, offset + i),
            decreases len - bytes_read,
        {
            let remaining_blocks = (len - bytes_read) / bsz;
            let max_blocks = if remaining_blocks < 32 { remaining_blocks } else { 32 };
            proof {
                assert(max_blocks * bsz <= len - bytes_read) by (nonlinear_arith)
                    requires
                        max_blocks <= remaining_blocks,
                        remaining_blocks == (len - bytes_read) / (bsz as int),
                        bsz > 0,
                        len >= bytes_read,
                ;
                assert(max_blocks >= 1) by (nonlinear_arith)
                    requires
                        len - bytes_read >= bsz,
                        remaining_blocks == (len - bytes_read) / (bsz as int),
                        bsz > 0,
                        max_blocks == if remaining_blocks < 32 { remaining_blocks } else { 32 },
                ;
            }
            let ghost sb0 = *fs;
            let ghost buf0 = buffer@;
            let n = self.read_run(fs, current, buffer, bytes_read, max_blocks);
            proof {
                if s0.coherent() {
                    assert forall|i: int| 0 <= i < bytes_read + n implies #[trigger] buffer@[i] == s0.file_byte(self.inode, offset + i) by {
                        if i >= bytes_read {
                            let j = i - bytes_read;
                            assert(buffer@[bytes_read + j] == sb0.file_byte(self.inode, current + j));
                            lemma_same_view(&sb0, &s0, self.inode, 0, current + j);
                        } else {
                            assert(buffer@[i] == buf0[i]);
                        }
                    }
                }
                vstd::arithmetic::div_mod::lemma_mod_adds(current as int, n as int, bs as int);
            }
            bytes_read += n;
            current += n as u64;
        }
        if bytes_read < len {
            proof {
                assert(current / bs <= 0x40_0000) by (nonlinear_arith)
                    requires
                        current <= 0x1_0000_0000,
                        bs >= 1024,
                ;
            }
            let block_idx = (current / bs) as u32;
            let ghost st = *fs;
            let ghost buf0 = buffer@;
            self.load_block(fs, block_idx, &mut bounce);
            let to_copy = len - bytes_read;
            Self::copy_into(buffer, bytes_read, bounce.as_slice(), 0, to_copy);
            proof {
                if s0.coherent() {
                    assert forall|i: int| 0 <= i < len implies #[trigger] buffer@[i] == s0.file_byte(self.inode, offset + i) by {
                        if i >= bytes_read {
                            let j = i - bytes_read;
                            assert(j < bs);
                            assert(buffer@[i] == bounce@[j]);
                            assert(st.coherent());
                            lemma_block_split(bs as int, current as int, j);
                            vstd::arithmetic::div_mod::lemma_small_mod(j as nat, bs as nat);
                            vstd::arithmetic::div_mod::lemma_basic_div(j, bs as int);
                            assert((current + j) / (bs as int) == (current as int) / (bs as int));
                            lemma_same_view(&st, &s0, self.inode, block_idx, current + j);
                            assert(st.file_byte(self.inode, current + j) == bounce@[j]);
                        } else {
                            assert(buffer@[i] == buf0[i]);
                        }
                    }
                }
            }
            bytes_read += to_copy;
        }
        Ok(bytes_read)
    }
}

impl<D: BlockDevice> Ext2<D> {
    /// The inode number directory `inode` lists under `name`: the first match, scanning its
    /// blocks in order from block `k` and skipping unmapped ones.
    pub open spec fn dir_lookup_from(&self, inode: Inode, name: Seq<u8>, k: int) -> Option<u32>
        decreases inode.size - k,
    {
        if k < 0 || k >= inode.size || k * self.bsize() >= inode.size {
            None
        } else {
            let phys = self.block_of(inode, k as u32);
            let found = if phys == 0 {
                None
            } else {
                scan_block(self.disk_bytes(phys * self.bsize(), self.bsize() as nat), 0, name)
            };
            if found is Some {
                found
            } else {
                self.dir_lookup_from(inode, name, k + 1)
            }
        }
    }
}

impl Ext2Node {
    /// Looks `name` up in this directory: the first live entry of that name, scanning the
    /// directory's blocks in order, with its inode read.
    #[verifier::rlimit(30)]
    pub fn find<D: BlockDevice>(&self, fs: &mut Ext2<D>, name: &str) -> (r: Result<Ext2Node, Ext2Error>)
        requires
            old(fs).wf(),
            old(fs).ipg() > 0,
        ensures
            final(fs).wf(),
            final(fs).same_layout(old(fs)),
            final(fs).dev() == old(fs).dev(),
            old(fs).coherent() ==> final(fs).coherent(),
            kind_of_mode(self.inode.mode) != FileType::Directory ==> r == Err::<Ext2Node, Ext2Error>(Ext2Error::NotADirectory)
                && *final(fs) == *old(fs),
            kind_of_mode(self.inode.mode) == FileType::Directory ==> (r matches Err(e) ==> e == Ext2Error::FileNotFound),
            kind_of_mode(self.inode.mode) == FileType::Directory && old(fs).coherent() ==> match r {
                Ok(child) => {
                    &&& old(fs).dir_lookup_from(self.inode, name.spec_bytes(), 0) == Some(child.inode_idx)
                    &&& child.name@ == name@
                    &&& inode_encoded(child.inode, old(fs).disk_bytes(old(fs).inode_offset(child.inode_idx as int), 128), 0)
                },
                Err(_) => old(fs).dir_lookup_from(self.inode, name.spec_bytes(), 0) is None,
            },
    {
        if self.kind() != FileType::Directory {
            return Err(Ext2Error::NotADirectory);
        }
        let ghost s0 = *fs;
        let bs = fs.block_size();
        let bsz = bs as usize;
        let name_bytes = name.as_bytes();
        let total_size = self.size();
        let mut buf: Vec<u8> = vec![0u8; bsz];
        let mut offset: u64 = 0;
        let ghost mut k: int = 0;
        while offset < total_size
            invariant
                s0 == *old(fs),
                fs.wf(),
                fs.same_layout(&s0),
                fs.dev() == s0.dev(),
                s0.coherent() ==> fs.coherent(),
                s0.ipg() > 0,
                bs == s0.bsize(),
                bsz == bs,
                crate::fs::ext2::fs::valid_block_size(bs as int),
                buf@.len() == bs,
                total_size == self.inode.size,
                kind_of_mode(self.inode.mode) == FileType::Directory,
                total_size <= u32::MAX,
                offset == k * bs,
                0 <= k <= total_size,
                offset <= total_size + bs,
                name_bytes@ == name.spec_bytes(),
                s0.coherent() ==> s0.dir_lookup_from(self.inode, name.spec_bytes(), 0) == s0.dir_lookup_from(self.inode, name.spec_bytes(), k),
            decreases total_size - k,
        {
            proof {
                vstd::arithmetic::div_mod::lemma_div_multiples_vanish(k, bs as int);
                assert(k <= k * bs) by (nonlinear_arith)
                    requires
                        bs >= 1,
                        k >= 0,
                ;
            }
            let block_idx = (offset / bs) as u32;
            let ghost sk = *fs;
            let phys = fs.get_block_address(&self.inode, block_idx);
            if phys != 0 {
                proof {
                    lemma_blocks_whole(fs, phys as int, 1);
                }
                fs.read_disk_data(phys as u64 * bs, buf.as_mut_slice());
                let found = find_in_block(buf.as_slice(), name_bytes);
                proof {
                    lemma_scan_nonzero(buf@, 0, name_bytes@);
                    if s0.coherent() {
                        lemma_same_view(&sk, &s0, self.inode, k as u32, 0);
                        assert(buf@ =~= s0.disk_bytes(phys * bs, bs as nat));
                        if found is None {
                            assert(s0.dir_lookup_from(self.inode, name.spec_bytes(), k) == s0.dir_lookup_from(self.inode, name.spec_bytes(), k + 1));
                        }
                    }
                }
                match found {
                    Some(child_idx) => {
                        if child_idx != 0 {
                            let ghost sr = *fs;
                            let child_inode = fs.read_inode(child_idx);
                            proof {
                                if s0.coherent() {
                                    assert(sr.disk_bytes(sr.inode_offset(child_idx as int), 128) == s0.disk_bytes(
                                        s0.inode_offset(child_idx as int),
                                        128,
                                    ));
                                }
                            }
                            return Ok(Ext2Node { inode_idx: child_idx, inode: child_inode, name: name.to_owned() });
                        }
                    },
                    None => {},
                }
            }
            proof {
                if s0.coherent() && phys == 0 {
                    lemma_same_view(&sk, &s0, self.inode, k as u32, 0);
                    assert(s0.dir_lookup_from(self.inode, name.spec_bytes(), k) == s0.dir_lookup_from(self.inode, name.spec_bytes(), k + 1));
                }
            }
            offset += bs;
            proof {
                k = k + 1;
            }
        }
        Err(Ext2Error::FileNotFound)
    }
}


impl<D: BlockDevice> Ext2<D> {
    /// The root directory: inode 2, named "/".
    pub fn root(&mut self) -> (r: Result<Ext2Node, Ext2Error>)
        requires
            old(self).wf(),
            old(self).ipg() > 0,
        ensures
            final(self).wf(),
            final(self).same_layout(old(self)),
            final(self).dev() == old(self).dev(),
            old(self).coherent() ==> final(self).coherent(),
            r matches Ok(n) && n.inode_idx == 2 && n.name@ == "/"@ && (old(self).coherent() ==> inode_encoded(
                n.inode,
                old(self).disk_bytes(old(self).inode_offset(2), 128),
                0,
            )),
    {
        let ghost s0 = *self;
        let inode = self.read_inode(2);
        Ok(Ext2Node { inode_idx: 2, inode, name: "/".to_owned() })
    }
}


impl<D: BlockDevice> Ext2<D> {
    /// The inode that the 128 bytes in inode `idx`'s place encode.
    pub open spec fn inode_at(&self, idx: u32) -> Inode {
        choose|x: Inode| inode_encoded(x, self.disk_bytes(self.inode_offset(idx as int), 128), 0)
    }

    /// Where looking `names` up one after another from inode `at` ends: each name is looked
    /// up in the directory reached so far; a name looked up in something that is not a
    /// directory, or missing from it, stops the walk.
    pub open spec fn walk(&self, at: u32, names: Seq<Seq<u8>>) -> Result<u32, Ext2Error>
        decreases names.len(),
    {
        if names.len() == 0 {
            Ok(at)
        } else if kind_of_mode(self.inode_at(at).mode) != FileType::Directory {
            Err(Ext2Error::NotADirectory)
        } else {
            match self.dir_lookup_from(self.inode_at(at), names[0], 0) {
                Some(c) => self.walk(c, names.subrange(1, names.len() as int)),
                None => Err(Ext2Error::FileNotFound),
            }
        }
    }
}

/// The 128 bytes of an on-disk inode determine it.
pub proof fn lemma_inode_unique(x: Inode, y: Inode, s: Seq<u8>)
    requires
        inode_encoded(x, s, 0),
        inode_encoded(y, s, 0),
    ensures
        x == y,
{
    assert(x.block =~= y.block) by {
        assert forall|i: int| 0 <= i < 15 implies x.block[i] == y.block[i] by {
            assert(x.block@[i] == crate::fs::bytes::le32(s, 40 + 4 * i));
        }
    }
    assert(x.osd2 =~= y.osd2) by {
        assert forall|i: int| 0 <= i < 3 implies x.osd2[i] == y.osd2[i] by {
            assert(x.osd2@[i] == crate::fs::bytes::le32(s, 116 + 4 * i));
        }
    }
}

/// An inode read from its place is the one `inode_at` names.
pub proof fn lemma_inode_at<D: BlockDevice>(fs: &Ext2<D>, idx: u32, x: Inode)
    requires
        inode_encoded(x, fs.disk_bytes(fs.inode_offset(idx as int), 128), 0),
    ensures
        fs.inode_at(idx) == x,
{
    let s = fs.disk_bytes(fs.inode_offset(idx as int), 128);
    let y = fs.inode_at(idx);
    assert(inode_encoded(y, s, 0));
    lemma_inode_unique(x, y, s);
}

/// Directory lookups read only the disk and the layout.
pub proof fn lemma_same_lookup<D: BlockDevice>(a: &Ext2<D>, b: &Ext2<D>, inode: Inode, name: Seq<u8>, k: int)
    requires
        a.dev() == b.dev(),
        a.same_layout(b),
    ensures
        a.dir_lookup_from(inode, name, k) == b.dir_lookup_from(inode, name, k),
    decreases inode.size - k,
{
    if k < 0 || k >= inode.size || k * a.bsize() >= inode.size {
    } else {
        lemma_same_view(a, b, inode, k as u32, 0);
        assert(a.disk_bytes(a.block_of(inode, k as u32) * a.bsize(), a.bsize() as nat) =~= b.disk_bytes(
            b.block_of(inode, k as u32) * b.bsize(),
            b.bsize() as nat,
        ));
        lemma_same_lookup(a, b, inode, name, k + 1);
    }
}

/// Walks read only the disk and the layout.
pub proof fn lemma_same_walk<D: BlockDevice>(a: &Ext2<D>, b: &Ext2<D>, at: u32, names: Seq<Seq<u8>>)
    requires
        a.dev() == b.dev(),
        a.same_layout(b),
    ensures
        a.walk(at, names) == b.walk(at, names),
        a.inode_at(at) == b.inode_at(at),
    decreases names.len(),
{
    assert(a.disk_bytes(a.inode_offset(at as int), 128) =~= b.disk_bytes(b.inode_offset(at as int), 128));
    if names.len() > 0 {
        lemma_same_lookup(a, b, a.inode_at(at), names[0], 0);
        match a.dir_lookup_from(a.inode_at(at), names[0], 0) {
            Some(c) => lemma_same_walk(a, b, c, names.subrange(1, names.len() as int)),
            None => {},
        }
    }
}

} // verus!
