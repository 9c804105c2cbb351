use vstd::prelude::*;
use crate::fs::disk::BlockDevice;
use crate::fs::ext2::fs::{Ext2, Ext2Error, whole_sectors};
use crate::fs::ext2::structs::Inode;
use crate::fs::ext2::node::Ext2Node;

verus! {

impl<D: BlockDevice> Ext2<D> {
    /// Direct block `l` holds file bytes a write of `len` bytes at `off` touches.
    pub open spec fn touched(&self, off: int, len: int, l: int) -> bool {
        &&& 0 <= l < 12
        &&& l * self.bsize() < off + len
        &&& off < (l + 1) * self.bsize()
    }

    /// Absolute disk position of byte `j` of direct block `l` of `inode`.
    pub open spec fn direct_pos(&self, inode: Inode, l: int, j: int) -> int {
        self.base() + inode.block@[l] * self.bsize() + j
    }

    /// Writing `len` bytes at file offset `off` of `inode` only overwrites bytes already in
    /// the file, in direct blocks that are mapped, distinct and on the disk.
    pub open spec fn direct_overwrite(&self, inode: Inode, off: int, len: int) -> bool {
        &&& 0 <= off
        &&& 0 <= len
        &&& off + len <= inode.size
        &&& off + len <= 12 * self.bsize()
        &&& forall|l: int| #[trigger] self.touched(off, len, l) ==> inode.block@[l] != 0 && self.in_disk(
            inode.block@[l] * self.bsize(),
            self.bsize() as int,
        )
        &&& forall|l1: int, l2: int|
            #[trigger] self.touched(off, len, l1) && #[trigger] self.touched(off, len, l2) && l1 != l2 ==> inode.block@[l1]
                != inode.block@[l2]
    }

    /// The disk byte at `pos` once the file bytes from `off` up to `c` hold `data`: looking
    /// through direct blocks from `l` on, the data byte where `pos` lies in one of them at a
    /// file position in that range, the byte as it was otherwise.
    pub open spec fn overlay_byte(&self, inode: Inode, off: int, data: Seq<u8>, c: int, pos: int, l: int) -> u8
        decreases 12 - l,
    {
        if l < 0 || l >= 12 {
            self.dev().byte(pos)
        } else {
            let start = self.direct_pos(inode, l, 0);
            let p = l * self.bsize() + (pos - start);
            if start <= pos < start + self.bsize() && off <= p < c {
                data[p - off]
            } else {
                self.overlay_byte(inode, off, data, c, pos, l + 1)
            }
        }
    }
}

/// Before anything is written every byte is as it was.
proof fn lemma_overlay_empty<D: BlockDevice>(s: &Ext2<D>, inode: Inode, off: int, data: Seq<u8>, pos: int, l: int)
    ensures
        s.overlay_byte(inode, off, data, off, pos, l) == s.dev().byte(pos),
    decreases 12 - l,
{
    if 0 <= l < 12 {
        lemma_overlay_empty(s, inode, off, data, pos, l + 1);
    }
}

/// A position in no touched block keeps its byte.
proof fn lemma_overlay_outside<D: BlockDevice>(s: &Ext2<D>, inode: Inode, off: int, len: int, data: Seq<u8>, c: int, pos: int, l: int)
    requires
        s.bsize() > 0,
        0 <= l,
        off <= c <= off + len,
        forall|m: int| #[trigger] s.touched(off, len, m) ==> !(s.direct_pos(inode, m, 0) <= pos < s.direct_pos(inode, m, 0) + s.bsize()),
    ensures
        s.overlay_byte(inode, off, data, c, pos, l) == s.dev().byte(pos),
    decreases 12 - l,
{
    if l < 12 {
        let start = s.direct_pos(inode, l, 0);
        let p = l * s.bsize() + (pos - start);
        if start <= pos < start + s.bsize() && off <= p < c {
            assert(l * s.bsize() <= p < (l + 1) * s.bsize()) by (nonlinear_arith)
                requires
                    p == l * s.bsize() + (pos - start),
                    start <= pos < start + s.bsize(),
            ;
            assert(s.touched(off, len, l));
        }
        lemma_overlay_outside(s, inode, off, len, data, c, pos, l + 1);
    }
}

/// A position in touched block `t` gets the data byte when its file position lies in the
/// written range, and keeps its byte otherwise.
proof fn lemma_overlay_inside<D: BlockDevice>(s: &Ext2<D>, inode: Inode, off: int, len: int, data: Seq<u8>, c: int, t: int, j: int, l: int)
    requires
        s.bsize() > 0,
        0 <= l <= 12,
        off <= c <= off + len,
        s.direct_overwrite(inode, off, len),
        s.touched(off, len, t),
        0 <= j < s.bsize(),
        l <= t || !(off <= t * s.bsize() + j < c),
    ensures
        s.overlay_byte(inode, off, data, c, s.direct_pos(inode, t, j), l) == if off <= t * s.bsize() + j < c {
            data[t * s.bsize() + j - off]
        } else {
            s.dev().byte(s.direct_pos(inode, t, j))
        },
    decreases 12 - l,
{
    let pos = s.direct_pos(inode, t, j);
    if l < 12 {
        let start = s.direct_pos(inode, l, 0);
        let p = l * s.bsize() + (pos - start);
        if start <= pos < start + s.bsize() {
            if l != t {
                if s.touched(off, len, l) {
                    assert(inode.block@[l] != inode.block@[t]);
                    assert(inode.block@[l] * s.bsize() != inode.block@[t] * s.bsize()) by (nonlinear_arith)
                        requires
                            inode.block@[l] != inode.block@[t],
                            s.bsize() > 0,
                    ;
                    if inode.block@[l] < inode.block@[t] {
                        assert(inode.block@[l] * s.bsize() + s.bsize() <= inode.block@[t] * s.bsize()) by (nonlinear_arith)
                            requires
                                inode.block@[l] < inode.block@[t],
                                s.bsize() > 0,
                        ;
                    } else {
                        assert(inode.block@[t] * s.bsize() + s.bsize() <= inode.block@[l] * s.bsize()) by (nonlinear_arith)
                            requires
                                inode.block@[l] > inode.block@[t],
                                s.bsize() > 0,
                        ;
                    }
                    assert(false);
                } else {
                    assert(l * s.bsize() <= p < (l + 1) * s.bsize()) by (nonlinear_arith)
                        requires
                            p == l * s.bsize() + (pos - start),
                            start <= pos < start + s.bsize(),
                    ;
                    assert(!(off <= p < c));
                }
            } else {
                assert(p == t * s.bsize() + j);
            }
        }
        if !(start <= pos < start + s.bsize() && off <= p < c) {
            if l == t {
                assert(!(off <= t * s.bsize() + j < c));
            }
            lemma_overlay_inside(s, inode, off, len, data, c, t, j, l + 1);
        }
    } else {
        assert(!(off <= t * s.bsize() + j < c));
    }
}


/// A whole-sector write puts exactly `data` on the disk (bytes past the disk's end aside).
proof fn lemma_whole_write<D: BlockDevice>(s: &Ext2<D>, post: &Ext2<D>, off: int, data: Seq<u8>)
    requires
        s.wf(),
        whole_sectors(s.base() + off, data.len() as int),
        s.write_post(post, off, data),
    ensures
        forall|pos: int| #[trigger] post.dev().byte(pos) == if pos < s.dev().size() { s.wrote_byte(off, data, pos) } else { s.dev().byte(pos) },
{
    let abs = s.base() + off;
    let len = data.len() as int;
    assert forall|pos: int| #[trigger] post.dev().byte(pos) == if pos < s.dev().size() { s.wrote_byte(off, data, pos) } else { s.dev().byte(pos) } by {
        assert(post.dev().byte(pos) == s.write_byte(off, data, pos));
        if pos < s.dev().size() {
            assert((abs / 512) * 512 == abs);
            assert(crate::fs::disk::sectors_for(len) * 512 == len);
        }
    }
}

impl Ext2Node {
    /// Writes `buffer` into the file at `offset`, block by block: an unmapped block is first
    /// allocated, mapped, counted in the inode and zero-filled; partial blocks are read,
    /// patched and written back, whole blocks written straight. A write that ends past the
    /// file's end sets its size. Returns the count written.
    #[verifier::rlimit(60)]
    #[verifier::spinoff_prover]
    pub fn write<D: BlockDevice>(&mut self, fs: &mut Ext2<D>, offset: u64, buffer: &[u8]) -> (r: Result<usize, Ext2Error>)
        requires
            old(fs).wf(),
            old(fs).ipg() > 0,
            old(fs).block_geometry_ok(),
            old(self).inode_idx >= 1,
            offset + buffer@.len() <= u64::MAX,
            old(self).inode.blocks + 4 * ((offset + buffer@.len()) / (old(fs).bsize() as int) - (offset as int) / (old(fs).bsize() as int) + 1)
                * (old(fs).bsize() / 512) <= u32::MAX,
        ensures
            final(fs).wf(),
            final(fs).base() == old(fs).base(),
            final(fs).bsize() == old(fs).bsize(),
            final(fs).ipg() == old(fs).ipg(),
            final(fs).dev().size() == old(fs).dev().size(),
            final(self).inode_idx == old(self).inode_idx,
            final(self).name@ == old(self).name@,
            r matches Ok(n) ==> n == buffer@.len() && final(self).inode.size == if offset + buffer@.len() > old(self).inode.size {
                #[verifier::truncate] ((offset + buffer@.len()) as u32)
            } else {
                old(self).inode.size
            },
            r matches Err(e) ==> e == Ext2Error::NoFreeBlocks || e == Ext2Error::NoSpaceIndirect || e == Ext2Error::NoSpaceDoubleIndirect
                || e == Ext2Error::NoSpaceDoubleIndirectL2 || e == Ext2Error::NoSpaceTripleIndirectL1 || e
                == Ext2Error::NoSpaceTripleIndirectL2 || e == Ext2Error::NoSpaceTripleIndirectL3,
            old(fs).direct_overwrite(old(self).inode, offset as int, buffer@.len() as int) ==> {
                &&& r == Ok::<usize, Ext2Error>(buffer@.len() as usize)
                &&& final(self).inode == old(self).inode
                &&& forall|pos: int| #[trigger] final(fs).dev().byte(pos) == old(fs).overlay_byte(
                    old(self).inode,
                    offset as int,
                    buffer@,
                    offset + buffer@.len(),
                    pos,
                    0,
                )
            },
    {
        let ghost s0 = *fs;
        let ghost i0 = self.inode;
        let ghost direct = s0.direct_overwrite(i0, offset as int, buffer@.len() as int);
        let bs = fs.block_size();
        let bsz = bs as usize;
        let per = (bs / 512) as u32;
        let len = buffer.len();
        let mut bytes_written: usize = 0;
        let mut cur: u64 = offset;
        let mut bounce: Vec<u8> = vec![0u8; bsz];
        proof {
            assert forall|pos: int| #[trigger] fs.dev().byte(pos) == s0.overlay_byte(i0, offset as int, buffer@, cur as int, pos, 0) by {
                lemma_overlay_empty(&s0, i0, offset as int, buffer@, pos, 0);
            }
        }
        while bytes_written < len
            invariant
                s0 == *old(fs),
                i0 == old(self).inode,
                self.inode.size == i0.size,
                fs.wf(),
                fs.base() == s0.base(),
                fs.bsize() == s0.bsize(),
                fs.ipg() == s0.ipg(),
                fs.ipg() > 0,
                fs.dev().size() == s0.dev().size(),
                fs.block_geometry_ok(),
                bs == s0.bsize(),
                bsz == bs,
                per == bs / 512,
                crate::fs::ext2::fs::valid_block_size(bs as int),
                bounce@.len() == bsz,
                self.inode_idx == old(self).inode_idx,
                self.inode_idx >= 1,
                self.name@ == old(self).name@,
                len == buffer@.len(),
                offset + len <= u64::MAX,
                bytes_written <= len,
                cur == offset + bytes_written,
                bytes_written > 0 && bytes_written < len ==> cur % bs == 0,
                bytes_written < len ==> self.inode.blocks + 4 * ((offset + len) / (bs as int) - (cur as int) / (bs as int) + 1) * (bs / 512) <= u32::MAX,
                direct == s0.direct_overwrite(i0, offset as int, len as int),
                direct ==> self.inode == i0,
                direct ==> forall|pos: int| #[trigger] fs.dev().byte(pos) == s0.overlay_byte(i0, offset as int, buffer@, cur as int, pos, 0),
            decreases len - bytes_written,
        {
            let ghost cur0 = cur;
            let ghost blocks0 = self.inode.blocks;
            let ghost l: int = (cur as int) / (bs as int);
            proof {
                assert(cur / bs <= cur) by (nonlinear_arith)
                    requires
                        bs >= 1,
                ;
                vstd::arithmetic::div_mod::lemma_fundamental_div_mod(cur as int, bs as int);
                if direct {
                    assert(l * bs <= cur < (l + 1) * bs) by (nonlinear_arith)
                        requires
                            cur == bs * (cur / bs) + cur % bs,
                            0 <= cur % bs < bs,
                            l == cur / bs,
                    ;
                    assert(cur < 12 * bs);
                    assert(l < 12) by (nonlinear_arith)
                        requires
                            l * bs <= cur,
                            cur < 12 * bs,
                            bs > 0,
                    ;
                    assert(s0.touched(offset as int, len as int, l));
                }
            }
            let block_idx = #[verifier::truncate] ((cur / bs) as u32);
            let block_offset = (cur % bs) as usize;
            let mut phys = fs.get_block_address(&self.inode, block_idx);
            if phys == 0 {
                proof {
                    if direct {
                        assert(block_idx == l);
                        assert(false);
                    }
                }
                phys = fs.alloc_block();
                if phys == 0 {
                    return Err(Ext2Error::NoFreeBlocks);
                }
                proof {
                    assert(fs.levels(block_idx) <= 3);
                    assert((offset + len) / (bs as int) - (cur as int) / (bs as int) + 1 >= 1) by {
                        vstd::arithmetic::div_mod::lemma_div_is_ordered(cur as int, (offset + len) as int, bs as int);
                    }
                    assert(fs.levels(block_idx) * (bs / 512) <= 4 * ((offset + len) / (bs as int) - (cur as int) / (bs as int) + 1) * (bs / 512) - (bs / 512)) by (nonlinear_arith)
                        requires
                            fs.levels(block_idx) <= 3,
                            (offset + len) / (bs as int) - (cur as int) / (bs as int) + 1 >= 1,
                            bs / 512 >= 0,
                    ;
                }
                match fs.set_block_address(&mut self.inode, block_idx, phys) {
                    Ok(()) => {},
                    Err(e) => {
                        return Err(e);
                    },
                }
                proof {
                    let x = (offset + len) / (bs as int) - (cur as int) / (bs as int) + 1;
                    assert(4 * x * (bs / 512) >= 4 * (bs / 512)) by (nonlinear_arith)
                        requires
                            x >= 1,
                            bs / 512 >= 0,
                    ;
                    assert(self.inode.blocks <= u32::MAX - per);
                }
                self.inode.blocks = self.inode.blocks + per;
                fs.write_inode(self.inode_idx, &self.inode);
                let mut k: usize = 0;
                while k < bsz
                    invariant
                        bounce@.len() == bsz,
                    decreases bsz - k,
                {
                    bounce.set(k, 0);
                    k += 1;
                }
                proof {
                    crate::fs::ext2::node::lemma_blocks_whole(fs, phys as int, 1);
                    assert(phys * bs <= 0x4000_0000_0000_0000) by (nonlinear_arith)
                        requires
                            phys <= u32::MAX,
                            bs <= 0x10000,
                    ;
                }
                fs.write_disk_data(phys as u64 * bs, bounce.as_slice());
            }
            proof {
                crate::fs::ext2::node::lemma_blocks_whole(fs, phys as int, 1);
                assert(phys * bs <= 0x4000_0000_0000_0000) by (nonlinear_arith)
                    requires
                        phys <= u32::MAX,
                        bs <= 0x10000,
                ;
            }
            let remaining = len - bytes_written;
            let ghost sr = *fs;
            let to_copy: usize;
            if block_offset != 0 || remaining < bsz {
                fs.read_disk_data(phys as u64 * bs, bounce.as_mut_slice());
                to_copy = if remaining < bsz - block_offset { remaining } else { bsz - block_offset };
            } else {
                to_copy = bsz;
            }
            let ghost before = bounce@;
            let mut k: usize = 0;
            while k < to_copy
                invariant
                    bounce@.len() == bsz,
                    before.len() == bsz,
                    block_offset + to_copy <= bsz,
                    bytes_written + to_copy <= len,
                    len == buffer@.len(),
                    k <= to_copy,
                    forall|j: int| 0 <= j < bsz ==> #[trigger] bounce@[j] == if block_offset <= j < block_offset + k {
                        buffer@[bytes_written + j - block_offset]
                    } else {
                        before[j]
                    },
                decreases to_copy - k,
            {
                bounce.set(block_offset + k, buffer[bytes_written + k]);
                k += 1;
            }
            let ghost sw = *fs;
            fs.write_disk_data(phys as u64 * bs, bounce.as_slice());
            proof {
                if direct {
                    assert(phys == i0.block@[l]);
                    assert(s0.in_disk(phys * bs, bs as int));
                    lemma_whole_write(&sw, fs, phys * bs, bounce@);
                    let start = s0.direct_pos(i0, l, 0);
                    assert(start == s0.base() + phys * bs);
                    let cur1 = cur + to_copy;
                    assert forall|pos: int| #[trigger] fs.dev().byte(pos) == s0.overlay_byte(i0, offset as int, buffer@, cur1, pos, 0) by {
                        if start <= pos < start + bs {
                            let j = pos - start;
                            assert(pos == s0.direct_pos(i0, l, j));
                            assert(fs.dev().byte(pos) == bounce@[j]);
                            lemma_overlay_inside(&s0, i0, offset as int, len as int, buffer@, cur1, l, j, 0);
                            lemma_overlay_inside(&s0, i0, offset as int, len as int, buffer@, cur as int, l, j, 0);
                            if !(block_offset <= j < block_offset + to_copy) {
                                if block_offset != 0 || remaining < bsz {
                                    assert(bounce@[j] == sr.dev().byte(pos));
                                } else {
                                    assert(false);
                                }
                            }
                        } else {
                            assert(fs.dev().byte(pos) == sw.dev().byte(pos));
                            if exists|t: int| #[trigger] s0.touched(offset as int, len as int, t) && s0.direct_pos(i0, t, 0) <= pos < s0.direct_pos(i0, t, 0) + bs {
                                let t = choose|t: int| #[trigger] s0.touched(offset as int, len as int, t) && s0.direct_pos(i0, t, 0) <= pos < s0.direct_pos(i0, t, 0) + bs;
                                let j = pos - s0.direct_pos(i0, t, 0);
                                assert(pos == s0.direct_pos(i0, t, j));
                                assert(t != l);
                                lemma_overlay_inside(&s0, i0, offset as int, len as int, buffer@, cur1, t, j, 0);
                                lemma_overlay_inside(&s0, i0, offset as int, len as int, buffer@, cur as int, t, j, 0);
                                if t < l {
                                    assert(t * bs + j < l * bs) by (nonlinear_arith)
                                        requires
                                            t < l,
                                            0 <= j < bs,
                                    ;
                                } else {
                                    assert((l + 1) * bs <= t * bs + j) by (nonlinear_arith)
                                        requires
                                            t > l,
                                            0 <= j,
                                    ;
                                }
                            } else {
                                lemma_overlay_outside(&s0, i0, offset as int, len as int, buffer@, cur1, pos, 0);
                                lemma_overlay_outside(&s0, i0, offset as int, len as int, buffer@, cur as int, pos, 0);
                            }
                        }
                    }
                }
            }
            proof {
                assert(self.inode.blocks <= blocks0 + 4 * per);
                if bytes_written + to_copy < len {
                    let x = (offset + len) / (bs as int) - l;
                    assert(4 * (x + 1) * (bs / 512) == 4 * x * (bs / 512) + 4 * (bs / 512)) by (nonlinear_arith);
                    vstd::arithmetic::div_mod::lemma_fundamental_div_mod(cur as int, bs as int);
                    assert(cur + to_copy == (l + 1) * bs) by (nonlinear_arith)
                        requires
                            cur == bs * l + cur % bs,
                            block_offset == cur % bs,
                            to_copy == bs - block_offset,
                    ;
                    vstd::arithmetic::div_mod::lemma_mod_multiples_basic(l + 1, bs as int);
                    vstd::arithmetic::div_mod::lemma_div_multiples_vanish(l + 1, bs as int);
                    assert((l + 1) * bs == bs * (l + 1)) by (nonlinear_arith);
                }
            }
            bytes_written = bytes_written + to_copy;
            cur = cur + to_copy as u64;
        }
        if cur > self.inode.size as u64 {
            self.inode.size = #[verifier::truncate] (cur as u32);
            fs.write_inode(self.inode_idx, &self.inode);
        }
        Ok(bytes_written)
    }
}

/// Reading back bytes a write just put in a file gives the written bytes: the file holds
/// them on the disk, and a read of a coherent state returns what the file holds.
pub proof fn lemma_write_then_read<D: BlockDevice>(s0: &Ext2<D>, s1: &Ext2<D>, inode: Inode, off: int, data: Seq<u8>, got: Seq<u8>)
    requires
        s0.wf(),
        s0.direct_overwrite(inode, off, data.len() as int),
        forall|pos: int| #[trigger] s1.dev().byte(pos) == s0.overlay_byte(inode, off, data, off + data.len(), pos, 0),
        s1.base() == s0.base(),
        s1.bsize() == s0.bsize(),
        got.len() == data.len(),
        forall|i: int| 0 <= i < got.len() ==> #[trigger] got[i] == s1.file_byte(inode, off + i),
    ensures
        got == data,
{
    let bs = s0.bsize() as int;
    assert(bs > 0) by {
        assert(crate::fs::ext2::fs::valid_block_size(bs)) by {
            crate::fs::ext2::fs::lemma_wf_block_size(s0);
        }
    }
    assert forall|i: int| 0 <= i < got.len() implies got[i] == data[i] by {
        let p = off + i;
        let l = p / bs;
        let j = p % bs;
        vstd::arithmetic::div_mod::lemma_fundamental_div_mod(p, bs);
        assert(l * bs <= p < (l + 1) * bs) by (nonlinear_arith)
            requires
                p == bs * l + j,
                0 <= j < bs,
        ;
        assert(l < 12) by (nonlinear_arith)
            requires
                l * bs <= p,
                p < 12 * bs,
                bs > 0,
        ;
        assert(s0.touched(off, data.len() as int, l));
        assert(l as u32 as int == l);
        assert(s1.block_of(inode, (p / bs) as u32) == inode.block@[l]);
        assert(s1.file_byte(inode, p) == s1.dev().byte(s0.direct_pos(inode, l, j)));
        lemma_overlay_inside(s0, inode, off, data.len() as int, data, off + data.len(), l, j, 0);
    }
    assert(got =~= data);
}

} // verus!
