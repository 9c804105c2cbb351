use vstd::prelude::*;
use crate::fs::disk::BlockDevice;
use crate::fs::bytes::{le16, le32, write_u16, write_u32};
use crate::fs::ext2::fs::{Ext2, Ext2Error, whole_sectors};
use crate::fs::ext2::structs::Inode;
use crate::fs::ext2::dir::{
    fit_record, entry_inserted, insert_into_block, lemma_fit_bounds, find_record, entry_removed, remove_from_block, rec_readable,
    rec_inode, rec_len,
};
use crate::fs::ext2::node::Ext2Node;
use vstd::string::StringSliceAdditionalSpecFns;

verus! {

impl<D: BlockDevice> Ext2<D> {
    /// Partition offset of directory block `k` of `inode` as the directory updates read it:
    /// the block its `k`-th pointer maps (block zero when that pointer is zero).
    pub open spec fn dir_block_off(&self, inode: Inode, k: int) -> int {
        self.block_of(inode, k as u32) * self.bsize()
    }

    /// The bytes of directory block `k` of `inode` as the disk holds them.
    pub open spec fn dir_block(&self, inode: Inode, k: int) -> Seq<u8> {
        self.disk_bytes(self.dir_block_off(inode, k), self.bsize() as nat)
    }

    /// The first directory block from `k` with room for an entry whose name has `name_len`
    /// bytes, with the record the entry goes after.
    pub open spec fn room_from(&self, inode: Inode, name_len: int, k: int) -> Option<(int, int)>
        decreases inode.size - k,
    {
        if k < 0 || k >= inode.size || k * self.bsize() >= inode.size {
            None
        } else {
            match fit_record(self.dir_block(inode, k), 0, name_len) {
                Some(p) => Some((k, p)),
                None => self.room_from(inode, name_len, k + 1),
            }
        }
    }
}

/// A whole block at a block-aligned offset is a whole-sector transfer.
proof fn lemma_block_whole<D: BlockDevice>(s: &Ext2<D>, phys: int)
    requires
        crate::fs::ext2::fs::valid_block_size(s.bsize() as int),
        phys >= 0,
    ensures
        whole_sectors(s.base() + phys * s.bsize(), s.bsize() as int),
{
    crate::fs::ext2::node::lemma_blocks_whole(s, phys, 1);
}

impl Ext2Node {
    /// Adds an entry for inode `inode_id` named `name` to this directory: into the first
    /// block with room after some record, or else into a newly allocated block appended as
    /// the directory's next direct block (at most twelve).
    #[verifier::rlimit(40)]
    pub fn add_directory_entry<D: BlockDevice>(&mut self, fs: &mut Ext2<D>, inode_id: u32, name: &str, file_type: u8) -> (r: Result<
        (),
        Ext2Error,
    >)
        requires
            old(fs).wf(),
            old(fs).ipg() > 0,
            old(fs).block_geometry_ok(),
            old(self).inode_idx >= 1,
            old(self).inode.blocks + old(fs).bsize() / 512 <= u32::MAX,
            old(self).inode.size + old(fs).bsize() <= u32::MAX,
        ensures
            final(fs).wf(),
            final(fs).base() == old(fs).base(),
            final(fs).bsize() == old(fs).bsize(),
            final(fs).ipg() == old(fs).ipg(),
            final(fs).dev().size() == old(fs).dev().size(),
            final(self).inode_idx == old(self).inode_idx,
            final(self).name@ == old(self).name@,
            name.spec_bytes().len() > 255 ==> r == Err::<(), Ext2Error>(Ext2Error::NameTooLong) && *final(fs) == *old(fs) && final(self).inode
                == old(self).inode,
            name.spec_bytes().len() <= 255 && old(fs).coherent() ==> (old(fs).room_from(old(self).inode, name.spec_bytes().len() as int, 0) matches Some((k, p)) ==> {
                &&& r is Ok
                &&& final(self).inode == old(self).inode
                &&& old(fs).in_disk(old(fs).dir_block_off(old(self).inode, k), old(fs).bsize() as int) ==> {
                    let off = old(fs).dir_block_off(old(self).inode, k);
                    &&& entry_inserted(old(fs).dir_block(old(self).inode, k), final(fs).disk_bytes(off, old(fs).bsize() as nat), p, inode_id, name.spec_bytes(), file_type)
                    &&& forall|pos: int| !(old(fs).base() + off <= pos < old(fs).base() + off + old(fs).bsize()) ==> #[trigger] final(fs).dev().byte(pos) == old(fs).dev().byte(pos)
                }
            }),
            name.spec_bytes().len() <= 255 && old(fs).coherent() && old(fs).room_from(old(self).inode, name.spec_bytes().len() as int, 0) is None ==> {
                &&& r matches Err(e) ==> e == Ext2Error::NoSpaceForEntry || e == Ext2Error::DirTooLarge
                &&& r == Err::<(), Ext2Error>(Ext2Error::DirTooLarge) ==> old(self).inode.blocks / ((old(fs).bsize() / 512) as u32) >= 12
                &&& old(self).inode.blocks / ((old(fs).bsize() / 512) as u32) >= 12 ==> r is Err
            },
            name.spec_bytes().len() <= 255 && old(fs).coherent() && old(fs).room_from(old(self).inode, name.spec_bytes().len() as int, 0) is None
                && old(self).inode.blocks / ((old(fs).bsize() / 512) as u32) < 12 && old(fs).sb().free_blocks_count > 0
                && !old(fs).first_free_block(0) && (exists|g: int|
                0 <= g <= old(fs).sb().blocks_count / old(fs).sb().blocks_per_group && #[trigger] old(fs).has_free_block(g)) ==> r is Ok,
            r is Err ==> final(self).inode == old(self).inode,
            r matches Err(e) ==> e == Ext2Error::NameTooLong || e == Ext2Error::NoSpaceForEntry || e == Ext2Error::DirTooLarge,
            r is Ok && final(self).inode != old(self).inode ==> {
                let idx = old(self).inode.blocks / ((old(fs).bsize() / 512) as u32);
                &&& idx < 12
                &&& final(self).inode == Inode {
                    blocks: (old(self).inode.blocks + old(fs).bsize() / 512) as u32,
                    size: (old(self).inode.size + old(fs).bsize()) as u32,
                    block: final(self).inode.block,
                    ..old(self).inode
                }
                &&& final(self).inode.block@ == old(self).inode.block@.update(idx as int, final(self).inode.block[idx as int])
                &&& final(self).inode.block[idx as int] != 0
                &&& old(fs).in_disk(final(self).inode.block[idx as int] * old(fs).bsize(), old(fs).bsize() as int) ==> lone_entry_block(
                    final(fs).disk_bytes(final(self).inode.block[idx as int] * old(fs).bsize(), old(fs).bsize() as nat),
                    inode_id,
                    name.spec_bytes(),
                    file_type,
                    old(fs).bsize() as int,
                )
            },
    {
        let name_bytes = name.as_bytes();
        let name_len = name_bytes.len();
        if name_len > 255 {
            return Err(Ext2Error::NameTooLong);
        }
        let ghost s0 = *fs;
        let bs = fs.block_size();
        let bsz = bs as usize;
        let mut buf: Vec<u8> = vec![0u8; bsz];
        let total_size = self.size();
        let mut offset: u64 = 0;
        let ghost mut k: int = 0;
        while offset < total_size
            invariant
                s0 == *old(fs),
                *self == *old(self),
                fs.wf(),
                fs.same_layout(&s0),
                fs.dev() == s0.dev(),
                s0.coherent() ==> fs.coherent(),
                bs == s0.bsize(),
                bsz == bs,
                crate::fs::ext2::fs::valid_block_size(bs as int),
                buf@.len() == bs,
                total_size == self.inode.size,
                total_size <= u32::MAX,
                offset == k * bs,
                0 <= k <= total_size,
                name_bytes@ == name.spec_bytes(),
                name_len == name_bytes@.len(),
                name_len <= 255,
                s0.coherent() ==> s0.room_from(self.inode, name_len as int, 0) == s0.room_from(self.inode, name_len as int, k),
            decreases total_size - k,
        {
            proof {
                assert(k * bs == bs * k) by (nonlinear_arith);
                vstd::arithmetic::div_mod::lemma_div_multiples_vanish(k, bs as int);
                assert(k <= k * bs) by (nonlinear_arith)
                    requires
                        bs >= 1,
                        k >= 0,
                ;
            }
            let block_idx = (offset / bs) as u32;
            assert(block_idx == k as u32);
            let ghost sa = *fs;
            let block_addr = fs.get_block_address(&self.inode, block_idx);
            proof {
                if s0.coherent() {
                    crate::fs::ext2::node::lemma_same_view(&sa, &s0, self.inode, k as u32, 0);
                    assert(block_addr * bs == s0.dir_block_off(self.inode, k));
                }
                lemma_block_whole(fs, block_addr as int);
                assert(block_addr * bs <= 0x4000_0000_0000_0000) by (nonlinear_arith)
                    requires
                        block_addr <= u32::MAX,
                        bs <= 0x10000,
                ;
            }
            let read_off = block_addr as u64 * bs;
            let ghost sr = *fs;
            fs.read_disk_data(read_off, buf.as_mut_slice());
            let ghost blk = buf@;
            proof {
                assert(blk =~= s0.disk_bytes(read_off as int, bs as nat));
                lemma_fit_bounds(blk, 0, name_len as int);
                if s0.coherent() {
                    crate::fs::ext2::node::lemma_same_view(&sr, &s0, self.inode, k as u32, 0);
                    assert(blk == s0.dir_block(self.inode, k));
                }
            }
            if insert_into_block(&mut buf, inode_id, name_bytes, file_type) {
                let ghost sw0 = *fs;
                let write_addr = fs.get_block_address(&self.inode, block_idx);
                proof {
                    assert(write_addr * bs <= 0x4000_0000_0000_0000) by (nonlinear_arith)
                        requires
                            write_addr <= u32::MAX,
                            bs <= 0x10000,
                    ;
                }
                let write_off = write_addr as u64 * bs;
                let ghost sw = *fs;
                fs.write_disk_data(write_off, buf.as_slice());
                proof {
                    if s0.coherent() {
                        let p = fit_record(blk, 0, name_len as int)->0;
                        assert(s0.room_from(self.inode, name_len as int, k) == Some((k, p)));
                        assert(s0.room_from(old(self).inode, name.spec_bytes().len() as int, 0) == Some((k, p)));
                        assert(entry_inserted(s0.dir_block(self.inode, k), buf@, p, inode_id, name.spec_bytes(), file_type));
                        crate::fs::ext2::node::lemma_same_view(&sw0, &s0, self.inode, k as u32, 0);
                        assert(write_off == s0.dir_block_off(self.inode, k));
                        if s0.in_disk(s0.dir_block_off(self.inode, k), bs as int) {
                            crate::fs::ext2::fs::lemma_write_coherent(&sw, fs, write_off as int, buf@);
                            assert(forall|pos: int| #[trigger] fs.dev().byte(pos) == s0.wrote_byte(write_off as int, buf@, pos));
                            assert(fs.disk_bytes(write_off as int, bs as nat) =~= buf@);
                        }
                    }
                }
                return Ok(());
            }
            proof {
                if s0.coherent() {
                    assert(s0.room_from(self.inode, name_len as int, k) == s0.room_from(self.inode, name_len as int, k + 1));
                }
            }
            proof {
                assert((k + 1) * bs == k * bs + bs) by (nonlinear_arith);
            }
            offset += bs;
            proof {
                k = k + 1;
            }
        }
        proof {
            if s0.coherent() {
                assert(s0.room_from(self.inode, name_len as int, k) is None);
            }
        }
        let ghost before_alloc = *fs;
        let new_block = fs.alloc_block();
        if new_block == 0 {
            proof {
                if s0.coherent() && s0.sb().free_blocks_count > 0 && !s0.first_free_block(0) && (exists|g: int|
                    0 <= g <= s0.sb().blocks_count / s0.sb().blocks_per_group && #[trigger] s0.has_free_block(g)) {
                    crate::fs::ext2::fs::lemma_same_disk(&before_alloc, &s0, 0, 0, 0);
                    let g = choose|g: int| 0 <= g <= s0.sb().blocks_count / s0.sb().blocks_per_group && #[trigger] s0.has_free_block(g);
                    assert(before_alloc.has_free_block(g));
                    assert(fs.sb() != before_alloc.sb());
                    assert(before_alloc.coherent());
                    assert(!before_alloc.first_free_block(0));
                    assert(false);
                }
            }
            return Err(Ext2Error::NoSpaceForEntry);
        }
        let per = (bs / 512) as u32;
        let block_idx = self.inode.blocks / per;
        if block_idx < 12 {
            self.inode.block[block_idx as usize] = new_block;
            self.inode.blocks = self.inode.blocks + per;
            self.inode.size = self.inode.size + bs as u32;
            fs.write_inode(self.inode_idx, &self.inode);
        } else {
            return Err(Ext2Error::DirTooLarge);
        }
        let mut nb: Vec<u8> = vec![0u8; bsz];
        write_u32(&mut nb, 0, inode_id);
        let rec: u16 = #[verifier::truncate] (bs as u16);
        write_u16(&mut nb, 4, rec);
        nb.set(6, name_len as u8);
        nb.set(7, file_type);
        let ghost head = nb@;
        proof {
            assert(rec == bs % 0x10000) by (bit_vector)
                requires
                    rec == #[verifier::truncate] (bs as u16),
            ;
        }
        let mut j: usize = 0;
        while j < name_len
            invariant
                nb@.len() == bsz,
                bsz >= 1024,
                name_len <= 255,
                name_len == name_bytes@.len(),
                j <= name_len,
                forall|i: int| 0 <= i < 8 ==> #[trigger] nb@[i] == head[i],
                forall|i: int| 0 <= i < j ==> #[trigger] nb@[8 + i] == name_bytes@[i],
                forall|i: int| 8 + j <= i < bsz ==> #[trigger] nb@[i] == head[i],
            decreases name_len - j,
        {
            nb.set(8 + j, name_bytes[j]);
            j += 1;
        }
        proof {
            assert(le32(nb@, 0) == le32(head, 0));
            assert(le16(nb@, 4) == le16(head, 4));
            assert(lone_entry_block(nb@, inode_id, name.spec_bytes(), file_type, bs as int));
        }
        proof {
            assert(new_block * bs <= 0x4000_0000_0000_0000) by (nonlinear_arith)
                requires
                    new_block <= u32::MAX,
                    bs <= 0x10000,
            ;
        }
        let ghost s1 = *fs;
        fs.write_disk_data(new_block as u64 * bs, nb.as_slice());
        proof {
            if s0.in_disk(new_block * bs, bs as int) {
                crate::fs::ext2::node::lemma_blocks_whole(&s1, new_block as int, 1);
                let off = new_block * bs;
                let abs = s1.base() + off;
                assert((abs / 512) * 512 == abs) by {
                    vstd::arithmetic::div_mod::lemma_fundamental_div_mod(abs, 512);
                }
                assert forall|i: int| 0 <= i < bs implies #[trigger] fs.disk_bytes(off, bs as nat)[i] == nb@[i] by {
                    let pos = abs + i;
                    assert(fs.dev().byte(pos) == s1.write_byte(off, nb@, pos));
                }
                assert(fs.disk_bytes(off, bs as nat) =~= nb@);
            }
        }
        Ok(())
    }
}


/// `b` is a directory block holding one entry that spans it: inode `id`, record length
/// `bs` (as 16 bits), the name's length and type, the name, and zeros after it.
pub open spec fn lone_entry_block(b: Seq<u8>, id: u32, name: Seq<u8>, file_type: u8, bs: int) -> bool {
    &&& b.len() == bs
    &&& le32(b, 0) == id
    &&& le16(b, 4) == bs % 0x10000
    &&& b[6] == name.len()
    &&& b[7] == file_type
    &&& forall|i: int| 0 <= i < name.len() ==> #[trigger] b[8 + i] == name[i]
    &&& forall|i: int| 8 + name.len() <= i < bs ==> #[trigger] b[i] == 0
}

/// `x` is a new inode of mode `mode`: one link, everything else zero.
pub open spec fn is_fresh_inode(x: Inode, mode: u16) -> bool {
    &&& x.mode == mode
    &&& x.uid == 0
    &&& x.size == 0
    &&& x.atime == 0
    &&& x.ctime == 0
    &&& x.mtime == 0
    &&& x.dtime == 0
    &&& x.gid == 0
    &&& x.links_count == 1
    &&& x.blocks == 0
    &&& x.flags == 0
    &&& x.osd1 == 0
    &&& x.block@ == Seq::new(15, |i: int| 0u32)
    &&& x.generation == 0
    &&& x.file_acl == 0
    &&& x.dir_acl == 0
    &&& x.faddr == 0
    &&& x.osd2@ == Seq::new(3, |i: int| 0u32)
}

/// The directory-entry type byte for mode `mode`: 2 for a directory, 1 for anything else.
pub open spec fn entry_type(mode: u16) -> u8 {
    if mode & 0xF000 == 0x4000 { 2 } else { 1 }
}

impl Ext2Node {
    /// Creates a node of mode `mode` named `name` in this directory: allocates an inode,
    /// writes it fresh, and adds the directory entry, giving the inode back when the entry
    /// cannot be added.
    pub fn create_node<D: BlockDevice>(&mut self, fs: &mut Ext2<D>, name: &str, mode: u16) -> (r: Result<Ext2Node, Ext2Error>)
        requires
            old(fs).wf(),
            old(fs).ipg() > 0,
            old(fs).block_geometry_ok(),
            old(fs).inode_geometry_ok(),
            old(self).inode_idx >= 1,
            old(self).inode.blocks + old(fs).bsize() / 512 <= u32::MAX,
            old(self).inode.size + old(fs).bsize() <= u32::MAX,
        ensures
            final(fs).wf(),
            final(fs).base() == old(fs).base(),
            final(fs).bsize() == old(fs).bsize(),
            final(fs).ipg() == old(fs).ipg(),
            final(fs).dev().size() == old(fs).dev().size(),
            final(self).inode_idx == old(self).inode_idx,
            final(self).name@ == old(self).name@,
            r matches Err(e) ==> e == Ext2Error::NoFreeInodes || e == Ext2Error::NameTooLong || e == Ext2Error::NoSpaceForEntry
                || e == Ext2Error::DirTooLarge,
            name.spec_bytes().len() > 255 ==> r is Err,
            name.spec_bytes().len() > 255 && r != Err::<Ext2Node, Ext2Error>(Ext2Error::NoFreeInodes) ==> r == Err::<Ext2Node, Ext2Error>(
                Ext2Error::NameTooLong,
            ),
            r is Err ==> final(self).inode == old(self).inode,
            old(fs).sb().free_inodes_count == 0 ==> r == Err::<Ext2Node, Ext2Error>(Ext2Error::NoFreeInodes),
            old(fs).coherent() && old(fs).sb().free_inodes_count > 0 && (exists|g: int|
                0 <= g <= old(fs).sb().inodes_count / old(fs).sb().inodes_per_group && #[trigger] old(fs).has_free_inode(g)) ==> r
                != Err::<Ext2Node, Ext2Error>(Ext2Error::NoFreeInodes),
            r matches Ok(n) ==> {
                &&& is_fresh_inode(n.inode, mode)
                &&& n.name@ == name@
                &&& n.inode_idx != 0
                &&& old(fs).coherent() ==> old(fs).first_free_inode(n.inode_idx)
            },
    {
        let ghost s0 = *fs;
        let inode_id = fs.alloc_inode();
        if inode_id == 0 {
            proof {
                if s0.coherent() && s0.sb().free_inodes_count > 0 && (exists|g: int|
                    0 <= g <= s0.sb().inodes_count / s0.sb().inodes_per_group && #[trigger] s0.has_free_inode(g)) {
                    assert(fs.sb() != s0.sb());
                    assert(s0.first_free_inode(0));
                    let (g, byte, bit) = choose|g: int, byte: int, bit: u8|
                        0 <= g <= s0.sb().inodes_count / s0.sb().inodes_per_group && s0.has_free_inode(g) && (forall|h: int|
                            0 <= h < g ==> !#[trigger] s0.has_free_inode(h)) && #[trigger] Ext2::<D>::first_clear(s0.inode_bitmap(g), byte, bit) && 0
                            == g * s0.sb().inodes_per_group + byte * 8 + bit + 1;
                    assert(g * s0.sb().inodes_per_group >= 0) by (nonlinear_arith)
                        requires
                            g >= 0,
                    ;
                    assert(false);
                }
            }
            return Err(Ext2Error::NoFreeInodes);
        }
        let new_inode = Inode {
            mode,
            uid: 0,
            size: 0,
            atime: 0,
            ctime: 0,
            mtime: 0,
            dtime: 0,
            gid: 0,
            links_count: 1,
            blocks: 0,
            flags: 0,
            osd1: 0,
            block: [0u32; 15],
            generation: 0,
            file_acl: 0,
            dir_acl: 0,
            faddr: 0,
            osd2: [0u32; 3],
        };
        assert(new_inode.block@ =~= Seq::new(15, |i: int| 0u32));
        assert(new_inode.osd2@ =~= Seq::new(3, |i: int| 0u32));
        fs.write_inode(inode_id, &new_inode);
        let file_type: u8 = if (mode & 0xF000) == 0x4000 { 2 } else { 1 };
        match self.add_directory_entry(fs, inode_id, name, file_type) {
            Ok(()) => {},
            Err(e) => {
                fs.free_inode(inode_id);
                return Err(e);
            },
        }
        Ok(Ext2Node { inode_idx: inode_id, inode: new_inode, name: name.to_owned() })
    }

    /// Creates an empty regular file named `name` in this directory.
    pub fn create_file<D: BlockDevice>(&mut self, fs: &mut Ext2<D>, name: &str) -> (r: Result<Ext2Node, Ext2Error>)
        requires
            old(fs).wf(),
            old(fs).ipg() > 0,
            old(fs).block_geometry_ok(),
            old(fs).inode_geometry_ok(),
            old(self).inode_idx >= 1,
            old(self).inode.blocks + old(fs).bsize() / 512 <= u32::MAX,
            old(self).inode.size + old(fs).bsize() <= u32::MAX,
        ensures
            final(fs).wf(),
            final(fs).base() == old(fs).base(),
            final(fs).bsize() == old(fs).bsize(),
            final(fs).ipg() == old(fs).ipg(),
            final(fs).dev().size() == old(fs).dev().size(),
            final(self).inode_idx == old(self).inode_idx,
            r matches Err(e) ==> e == Ext2Error::NoFreeInodes || e == Ext2Error::NameTooLong || e == Ext2Error::NoSpaceForEntry
                || e == Ext2Error::DirTooLarge,
            name.spec_bytes().len() > 255 ==> r is Err,
            name.spec_bytes().len() > 255 && r != Err::<Ext2Node, Ext2Error>(Ext2Error::NoFreeInodes) ==> r == Err::<Ext2Node, Ext2Error>(
                Ext2Error::NameTooLong,
            ),
            r matches Ok(n) ==> is_fresh_inode(n.inode, 0x81B4) && n.name@ == name@ && n.inode_idx != 0,
            old(fs).sb().free_inodes_count == 0 ==> r == Err::<Ext2Node, Ext2Error>(Ext2Error::NoFreeInodes),
            old(fs).coherent() && old(fs).sb().free_inodes_count > 0 && (exists|g: int|
                0 <= g <= old(fs).sb().inodes_count / old(fs).sb().inodes_per_group && #[trigger] old(fs).has_free_inode(g)) ==> r
                != Err::<Ext2Node, Ext2Error>(Ext2Error::NoFreeInodes),
    {
        self.create_node(fs, name, 0x81B4)
    }

    /// Creates an empty directory named `name` in this directory.
    pub fn create_dir<D: BlockDevice>(&mut self, fs: &mut Ext2<D>, name: &str) -> (r: Result<Ext2Node, Ext2Error>)
        requires
            old(fs).wf(),
            old(fs).ipg() > 0,
            old(fs).block_geometry_ok(),
            old(fs).inode_geometry_ok(),
            old(self).inode_idx >= 1,
            old(self).inode.blocks + old(fs).bsize() / 512 <= u32::MAX,
            old(self).inode.size + old(fs).bsize() <= u32::MAX,
        ensures
            final(fs).wf(),
            final(fs).base() == old(fs).base(),
            final(fs).bsize() == old(fs).bsize(),
            final(fs).ipg() == old(fs).ipg(),
            final(fs).dev().size() == old(fs).dev().size(),
            final(self).inode_idx == old(self).inode_idx,
            r matches Err(e) ==> e == Ext2Error::NoFreeInodes || e == Ext2Error::NameTooLong || e == Ext2Error::NoSpaceForEntry
                || e == Ext2Error::DirTooLarge,
            name.spec_bytes().len() > 255 ==> r is Err,
            name.spec_bytes().len() > 255 && r != Err::<Ext2Node, Ext2Error>(Ext2Error::NoFreeInodes) ==> r == Err::<Ext2Node, Ext2Error>(
                Ext2Error::NameTooLong,
            ),
            r matches Ok(n) ==> is_fresh_inode(n.inode, 0x41ED) && n.name@ == name@ && n.inode_idx != 0,
            old(fs).sb().free_inodes_count == 0 ==> r == Err::<Ext2Node, Ext2Error>(Ext2Error::NoFreeInodes),
            old(fs).coherent() && old(fs).sb().free_inodes_count > 0 && (exists|g: int|
                0 <= g <= old(fs).sb().inodes_count / old(fs).sb().inodes_per_group && #[trigger] old(fs).has_free_inode(g)) ==> r
                != Err::<Ext2Node, Ext2Error>(Ext2Error::NoFreeInodes),
    {
        self.create_node(fs, name, 0x41ED)
    }
}


impl<D: BlockDevice> Ext2<D> {
    /// The first directory block from `k` holding a record named `name` (live or not), with
    /// that record and the one before it (-1 when it comes first).
    pub open spec fn record_from(&self, inode: Inode, name: Seq<u8>, k: int) -> Option<(int, int, int)>
        decreases inode.size - k,
    {
        if k < 0 || k >= inode.size || k * self.bsize() >= inode.size {
            None
        } else {
            match find_record(self.dir_block(inode, k), 0, -1, name) {
                Some((p, q)) => Some((k, p, q)),
                None => self.record_from(inode, name, k + 1),
            }
        }
    }
}

/// How many live records a scan of directory block `b` from `pos` counts: it stops at a
/// zero record length, a header past the block, or a record reaching the block's end.
pub open spec fn live_count(b: Seq<u8>, pos: int) -> int
    decreases b.len() - pos,
{
    if !rec_readable(b, pos) {
        0
    } else {
        (if rec_inode(b, pos) != 0 { 1int } else { 0 }) + if pos + rec_len(b, pos) >= b.len() {
            0
        } else {
            live_count(b, pos + rec_len(b, pos))
        }
    }
}

/// Counts the live records of directory block `buf`.
fn count_live(buf: &[u8]) -> (n: usize)
    ensures
        n == live_count(buf@, 0),
{
    let n = buf.len();
    let mut pos: usize = 0;
    let mut count: usize = 0;
    while pos < n
        invariant
            n == buf@.len(),
            count <= pos,
            count + live_count(buf@, pos as int) == live_count(buf@, 0),
        decreases n - pos,
    {
        if n - pos < 8 {
            return count;
        }
        let len = crate::fs::bytes::read_u16(buf, pos + 4) as usize;
        if len == 0 {
            return count;
        }
        let live = crate::fs::bytes::read_u32(buf, pos) != 0;
        let c = if live { count + 1 } else { count };
        if len >= n - pos {
            return c;
        }
        count = c;
        pos = pos + len;
    }
    count
}

/// Whether releasing inode `id` from `fs` is refused: it is a directory whose first block
/// counts more than two live entries.
pub open spec fn dir_not_empty<D: BlockDevice>(fs: Ext2<D>, id: u32) -> bool {
    let mode = crate::fs::bytes::le16(fs.disk_bytes(fs.inode_offset(id as int), 128), 0) as u16;
    let first = crate::fs::bytes::le32(fs.disk_bytes(fs.inode_offset(id as int), 128), 40);
    mode & 0xF000 == 0x4000 && first != 0 && live_count(fs.disk_bytes(first * fs.bsize(), fs.bsize() as nat), 0) > 2
}

/// What releasing inode `id` leaves in `post`, from `pre`: an inode with no links is left
/// alone; one with more than one link is written back with one fewer.
pub open spec fn released<D: BlockDevice>(pre: Ext2<D>, post: Ext2<D>, id: u32) -> bool {
    let t = pre.inode_at(id);
    let off = pre.inode_offset(id as int);
    &&& t.links_count == 0 ==> post.dev() == pre.dev() && post.sb() == pre.sb()
    &&& t.links_count > 1 ==> post.sb() == pre.sb() && (pre.in_disk(off, 128) ==> exists|b: Seq<u8>|
        b.len() == 128 && crate::fs::ext2::structs::inode_encoded(Inode { links_count: (t.links_count - 1) as u16, ..t }, b, 0)
            && forall|pos: int| #[trigger] post.dev().byte(pos) == pre.wrote_byte(off, b, pos))
    &&& t.links_count == 1 ==> exists|w: Ext2<D>| #[trigger] freed_from(w, pre, post, id)
}

/// The last link's release: from `w`, the state once the direct blocks are given back and
/// the emptied inode is written (only block counts differ in its superblock from `pre`'s),
/// the inode is freed: counted free when its bitmap marks it in use, else nothing changes.
pub open spec fn freed_from<D: BlockDevice>(w: Ext2<D>, pre: Ext2<D>, post: Ext2<D>, id: u32) -> bool {
    &&& w.sb() == (crate::fs::ext2::structs::Superblock { free_blocks_count: w.sb().free_blocks_count, ..pre.sb() })
    &&& w.bsize() == pre.bsize()
    &&& w.ipg() == pre.ipg()
    &&& w.inode_placed(id) && w.inode_in_use(id) && w.inode_counts_room(id) ==> post.sb() == (crate::fs::ext2::structs::Superblock {
        free_inodes_count: (w.sb().free_inodes_count + 1) as u32,
        ..w.sb()
    })
    &&& !(w.inode_placed(id) && w.inode_in_use(id) && w.inode_counts_room(id)) ==> post.sb() == w.sb() && post.dev() == w.dev()
}

impl Ext2Node {
    /// Drops one link to inode `inode_to_free`, whose entry was just taken out: a directory
    /// whose first block still counts more than two live entries is refused; at the last
    /// link the direct blocks and the inode are freed. An entry that named no inode (zero)
    /// is reported as not found.
    #[verifier::rlimit(30)]
    fn release_inode<D: BlockDevice>(fs: &mut Ext2<D>, inode_to_free: u32) -> (r: Result<(), Ext2Error>)
        requires
            old(fs).wf(),
            old(fs).ipg() > 0,
        ensures
            final(fs).wf(),
            final(fs).base() == old(fs).base(),
            final(fs).bsize() == old(fs).bsize(),
            final(fs).ipg() == old(fs).ipg(),
            final(fs).dev().size() == old(fs).dev().size(),
            inode_to_free == 0 ==> r == Err::<(), Ext2Error>(Ext2Error::FileNotFound) && *final(fs) == *old(fs),
            inode_to_free != 0 ==> r is Ok || r == Err::<(), Ext2Error>(Ext2Error::DirectoryNotEmpty),
            inode_to_free != 0 && old(fs).coherent() ==> {
                let mode = crate::fs::bytes::le16(old(fs).disk_bytes(old(fs).inode_offset(inode_to_free as int), 128), 0) as u16;
                let first = crate::fs::bytes::le32(old(fs).disk_bytes(old(fs).inode_offset(inode_to_free as int), 128), 40);
                (r == Err::<(), Ext2Error>(Ext2Error::DirectoryNotEmpty)) <==> (mode & 0xF000 == 0x4000 && first != 0 && live_count(
                    old(fs).disk_bytes(first * old(fs).bsize(), old(fs).bsize() as nat),
                    0,
                ) > 2)
            },
            inode_to_free != 0 && old(fs).coherent() ==> (r == Err::<(), Ext2Error>(Ext2Error::DirectoryNotEmpty) <==> dir_not_empty(*old(fs), inode_to_free)),
            inode_to_free != 0 && old(fs).coherent() && r is Ok ==> released(*old(fs), *final(fs), inode_to_free),
    {
        if inode_to_free == 0 {
            return Err(Ext2Error::FileNotFound);
        }
        let ghost s0 = *fs;
        let bs = fs.block_size();
        let mut target = fs.read_inode(inode_to_free);
        let ghost t0 = target;
        proof {
            if s0.coherent() {
                assert(target.block@[0] == crate::fs::bytes::le32(s0.disk_bytes(s0.inode_offset(inode_to_free as int), 128), 40int));
                crate::fs::ext2::node::lemma_inode_at(&s0, inode_to_free, target);
            }
        }
        if (target.mode & 0xF000) == 0x4000 && target.block[0] != 0 {
            let mut check_buf: Vec<u8> = vec![0u8; bs as usize];
            proof {
                lemma_block_whole(fs, target.block[0] as int);
                assert(target.block[0] * bs <= 0x4000_0000_0000_0000) by (nonlinear_arith)
                    requires
                        target.block[0] <= u32::MAX,
                        bs <= 0x10000,
                ;
            }
            let ghost sc = *fs;
            fs.read_disk_data(target.block[0] as u64 * bs, check_buf.as_mut_slice());
            proof {
                assert(check_buf@ =~= s0.disk_bytes(target.block[0] * bs, bs as nat));
            }
            if count_live(check_buf.as_slice()) > 2 {
                return Err(Ext2Error::DirectoryNotEmpty);
            }
        }
        if target.links_count > 0 {
            target.links_count = target.links_count - 1;
            if target.links_count == 0 {
                let mut i: usize = 0;
                while i < 12
                    invariant
                        fs.wf(),
                        fs.sb() == (crate::fs::ext2::structs::Superblock { free_blocks_count: fs.sb().free_blocks_count, ..s0.sb() }),
                        fs.base() == s0.base(),
                        fs.bsize() == s0.bsize(),
                        fs.ipg() == s0.ipg(),
                        fs.ipg() > 0,
                        fs.dev().size() == s0.dev().size(),
                        i <= 12,
                    decreases 12 - i,
                {
                    if target.block[i] != 0 {
                        fs.free_block(target.block[i]);
                        target.block[i] = 0;
                    }
                    i += 1;
                }
                fs.write_inode(inode_to_free, &target);
                let ghost w = *fs;
                fs.free_inode(inode_to_free);
                proof {
                    assert(freed_from(w, s0, *fs, inode_to_free));
                }
            } else {
                let ghost sc = *fs;
                fs.write_inode(inode_to_free, &target);
                proof {
                    if s0.coherent() {
                        assert(target == (Inode { links_count: (t0.links_count - 1) as u16, ..t0 }));
                        assert(sc.inode_offset(inode_to_free as int) == s0.inode_offset(inode_to_free as int)) by {
                            assert(sc.disk_bytes(sc.bgd_offset(sc.inode_group(inode_to_free as int)), 32) =~= s0.disk_bytes(
                                s0.bgd_offset(s0.inode_group(inode_to_free as int)),
                                32,
                            ));
                        }
                    }
                }
            }
        }
        Ok(())
    }

    /// Removes the entry named `name` from this directory: in the first block holding a
    /// record of that name, the record before it grows over it (or, first in its block, its
    /// inode number becomes zero) and the block is written back; then the inode loses a
    /// link as `release_inode` describes.
    #[verifier::rlimit(40)]
    pub fn remove<D: BlockDevice>(&self, fs: &mut Ext2<D>, name: &str) -> (r: Result<(), Ext2Error>)
        requires
            old(fs).wf(),
            old(fs).ipg() > 0,
        ensures
            final(fs).wf(),
            final(fs).base() == old(fs).base(),
            final(fs).bsize() == old(fs).bsize(),
            final(fs).ipg() == old(fs).ipg(),
            final(fs).dev().size() == old(fs).dev().size(),
            r matches Err(e) ==> e == Ext2Error::FileNotFound || e == Ext2Error::DirectoryNotEmpty,
            old(fs).coherent() && old(fs).record_from(self.inode, name.spec_bytes(), 0) is None ==> r == Err::<(), Ext2Error>(
                Ext2Error::FileNotFound,
            ) && final(fs).dev() == old(fs).dev(),
            old(fs).coherent() ==> (old(fs).record_from(self.inode, name.spec_bytes(), 0) matches Some((k, p, q)) ==> {
                let blk = old(fs).dir_block(self.inode, k);
                let off = old(fs).dir_block_off(self.inode, k);
                &&& rec_inode(blk, p) == 0 ==> r == Err::<(), Ext2Error>(Ext2Error::FileNotFound) && (old(fs).in_disk(off, old(fs).bsize() as int)
                    ==> entry_removed(blk, final(fs).disk_bytes(off, old(fs).bsize() as nat), p, q) && forall|pos: int|
                    !(old(fs).base() + off <= pos < old(fs).base() + off + old(fs).bsize()) ==> #[trigger] final(fs).dev().byte(pos)
                        == old(fs).dev().byte(pos))
                &&& rec_inode(blk, p) != 0 ==> r is Ok || r == Err::<(), Ext2Error>(Ext2Error::DirectoryNotEmpty)
                &&& rec_inode(blk, p) != 0 ==> exists|mid: Ext2<D>| {
                    &&& #[trigger] mid.wf()
                    &&& mid.base() == old(fs).base()
                    &&& mid.bsize() == old(fs).bsize()
                    &&& mid.dev().size() == old(fs).dev().size()
                    &&& old(fs).in_disk(off, old(fs).bsize() as int) ==> entry_removed(blk, mid.disk_bytes(off, old(fs).bsize() as nat), p, q)
                        && forall|pos: int| !(old(fs).base() + off <= pos < old(fs).base() + off + old(fs).bsize()) ==> #[trigger] mid.dev().byte(pos) == old(fs).dev().byte(pos)
                    &&& mid.coherent() ==> (r == Err::<(), Ext2Error>(Ext2Error::DirectoryNotEmpty) <==> dir_not_empty(mid, rec_inode(blk, p) as u32))
                    &&& mid.coherent() && r is Ok ==> released(mid, *final(fs), rec_inode(blk, p) as u32)
                }
            }),
    {
        let name_bytes = name.as_bytes();
        let ghost s0 = *fs;
        let bs = fs.block_size();
        let bsz = bs as usize;
        let mut buf: Vec<u8> = vec![0u8; bsz];
        let total_size = self.size();
        let mut offset: u64 = 0;
        let ghost mut k: int = 0;
        while offset < total_size
            invariant
                s0 == *old(fs),
                fs.wf(),
                fs.same_layout(&s0),
                fs.dev() == s0.dev(),
                s0.coherent() ==> fs.coherent(),
                s0.ipg() > 0,
                bs == s0.bsize(),
                bsz == bs,
                crate::fs::ext2::fs::valid_block_size(bs as int),
                buf@.len() == bs,
                total_size == self.inode.size,
                total_size <= u32::MAX,
                offset == k * bs,
                0 <= k <= total_size,
                name_bytes@ == name.spec_bytes(),
                s0.coherent() ==> s0.record_from(self.inode, name.spec_bytes(), 0) == s0.record_from(self.inode, name.spec_bytes(), k),
            decreases total_size - k,
        {
            proof {
                assert(k * bs == bs * k) by (nonlinear_arith);
                vstd::arithmetic::div_mod::lemma_div_multiples_vanish(k, bs as int);
                assert(k <= k * bs) by (nonlinear_arith)
                    requires
                        bs >= 1,
                        k >= 0,
                ;
            }
            let block_idx = (offset / bs) as u32;
            assert(block_idx == k as u32);
            let ghost sa = *fs;
            let block_addr = fs.get_block_address(&self.inode, block_idx);
            proof {
                if s0.coherent() {
                    crate::fs::ext2::node::lemma_same_view(&sa, &s0, self.inode, k as u32, 0);
                    assert(block_addr * bs == s0.dir_block_off(self.inode, k));
                }
                lemma_block_whole(fs, block_addr as int);
                assert(block_addr * bs <= 0x4000_0000_0000_0000) by (nonlinear_arith)
                    requires
                        block_addr <= u32::MAX,
                        bs <= 0x10000,
                ;
            }
            let read_off = block_addr as u64 * bs;
            fs.read_disk_data(read_off, buf.as_mut_slice());
            let ghost blk = buf@;
            proof {
                assert(blk =~= s0.disk_bytes(read_off as int, bs as nat));
            }
            match remove_from_block(&mut buf, name_bytes) {
                Some(inode_to_free) => {
                    let ghost sw = *fs;
                    fs.write_disk_data(read_off, buf.as_slice());
                    proof {
                        if s0.coherent() {
                            let (p, q) = find_record(blk, 0, -1, name_bytes@)->0;
                            assert(s0.record_from(self.inode, name.spec_bytes(), k) == Some((k, p, q)));
                            if s0.in_disk(s0.dir_block_off(self.inode, k), bs as int) {
                                crate::fs::ext2::fs::lemma_write_coherent(&sw, fs, read_off as int, buf@);
                                assert(fs.disk_bytes(read_off as int, bs as nat) =~= buf@);
                            }
                        }
                    }
                    let ghost sf = *fs;
                    let r = Self::release_inode(fs, inode_to_free);
                    proof {
                        if inode_to_free == 0 {
                            assert(*fs == sf);
                        }
                        if s0.coherent() && inode_to_free != 0 {
                            assert(sf.wf());
                        }
                    }
                    return r;
                },
                None => {},
            }
            proof {
                if s0.coherent() {
                    assert(s0.record_from(self.inode, name.spec_bytes(), k) == s0.record_from(self.inode, name.spec_bytes(), k + 1));
                }
                assert((k + 1) * bs == k * bs + bs) by (nonlinear_arith);
            }
            offset += bs;
            proof {
                k = k + 1;
            }
        }
        proof {
            if s0.coherent() {
                assert(s0.record_from(self.inode, name.spec_bytes(), k) is None);
            }
        }
        Err(Ext2Error::FileNotFound)
    }
}


impl<D: BlockDevice> Ext2<D> {
    /// The entry a rename moves: in the first directory block from `k` whose first record
    /// named `name` has a non-zero inode number, that record.
    pub open spec fn rename_source_from(&self, inode: Inode, name: Seq<u8>, k: int) -> Option<(int, int)>
        decreases inode.size - k,
    {
        if k < 0 || k >= inode.size || k * self.bsize() >= inode.size {
            None
        } else {
            match find_record(self.dir_block(inode, k), 0, -1, name) {
                Some((p, q)) => if rec_inode(self.dir_block(inode, k), p) != 0 {
                    Some((k, p))
                } else {
                    self.rename_source_from(inode, name, k + 1)
                },
                None => self.rename_source_from(inode, name, k + 1),
            }
        }
    }
}

impl Ext2Node {
    /// Finds the record a rename moves, scanning the directory's blocks from the start:
    /// its inode number and file type, or zeros when there is none.
    fn rename_source<D: BlockDevice>(&self, fs: &mut Ext2<D>, name: &[u8]) -> (r: (u32, u8))
        requires
            old(fs).wf(),
        ensures
            final(fs).wf(),
            final(fs).same_layout(old(fs)),
            final(fs).dev() == old(fs).dev(),
            old(fs).coherent() ==> final(fs).coherent(),
            old(fs).coherent() ==> match old(fs).rename_source_from(self.inode, name@, 0) {
                Some((k, p)) => r.0 == rec_inode(old(fs).dir_block(self.inode, k), p) && r.1 == old(fs).dir_block(self.inode, k)[p + 7],
                None => r.0 == 0,
            },
    {
        let ghost s0 = *fs;
        let bs = fs.block_size();
        let bsz = bs as usize;
        let mut buf: Vec<u8> = vec![0u8; bsz];
        let total_size = self.size();
        let mut offset: u64 = 0;
        let ghost mut k: int = 0;
        while offset < total_size
            invariant
                s0 == *old(fs),
                fs.wf(),
                fs.same_layout(&s0),
                fs.dev() == s0.dev(),
                s0.coherent() ==> fs.coherent(),
                bs == s0.bsize(),
                bsz == bs,
                crate::fs::ext2::fs::valid_block_size(bs as int),
                buf@.len() == bs,
                total_size == self.inode.size,
                total_size <= u32::MAX,
                offset == k * bs,
                0 <= k <= total_size,
                s0.coherent() ==> s0.rename_source_from(self.inode, name@, 0) == s0.rename_source_from(self.inode, name@, k),
            decreases total_size - k,
        {
            proof {
                assert(k * bs == bs * k) by (nonlinear_arith);
                vstd::arithmetic::div_mod::lemma_div_multiples_vanish(k, bs as int);
                assert(k <= k * bs) by (nonlinear_arith)
                    requires
                        bs >= 1,
                        k >= 0,
                ;
            }
            let block_idx = (offset / bs) as u32;
            assert(block_idx == k as u32);
            let ghost sa = *fs;
            let block_addr = fs.get_block_address(&self.inode, block_idx);
            proof {
                if s0.coherent() {
                    crate::fs::ext2::node::lemma_same_view(&sa, &s0, self.inode, k as u32, 0);
                }
                lemma_block_whole(fs, block_addr as int);
                assert(block_addr * bs <= 0x4000_0000_0000_0000) by (nonlinear_arith)
                    requires
                        block_addr <= u32::MAX,
                        bs <= 0x10000,
                ;
            }
            fs.read_disk_data(block_addr as u64 * bs, buf.as_mut_slice());
            proof {
                assert(buf@ =~= s0.disk_bytes(block_addr * bs, bs as nat));
                crate::fs::ext2::dir::lemma_find_record_bounds(buf@, 0, -1, name@);
            }
            match crate::fs::ext2::dir::locate_record(buf.as_slice(), name) {
                Some(pos) => {
                    let target = crate::fs::bytes::read_u32(buf.as_slice(), pos);
                    if target != 0 {
                        return (target, buf[pos + 7]);
                    }
                },
                None => {},
            }
            proof {
                assert((k + 1) * bs == k * bs + bs) by (nonlinear_arith);
            }
            offset += bs;
            proof {
                k = k + 1;
            }
        }
        (0, 0)
    }

    /// Renames entry `old_name` of this directory to `new_name`: the entry must be found by
    /// a lookup; the first record so named with a non-zero inode is copied under the new
    /// name, the inode gains a link, and the old entry is removed.
    #[verifier::rlimit(30)]
    pub fn rename<D: BlockDevice>(&mut self, fs: &mut Ext2<D>, old_name: &str, new_name: &str) -> (r: Result<(), Ext2Error>)
        requires
            old(fs).wf(),
            old(fs).ipg() > 0,
            old(fs).block_geometry_ok(),
            old(self).inode_idx >= 1,
            old(self).inode.blocks + old(fs).bsize() / 512 <= u32::MAX,
            old(self).inode.size + old(fs).bsize() <= u32::MAX,
        ensures
            final(fs).wf(),
            final(fs).base() == old(fs).base(),
            final(fs).bsize() == old(fs).bsize(),
            final(fs).ipg() == old(fs).ipg(),
            final(fs).dev().size() == old(fs).dev().size(),
            final(self).inode_idx == old(self).inode_idx,
            r matches Err(e) ==> e == Ext2Error::NotADirectory || e == Ext2Error::FileNotFound || e == Ext2Error::OldFileNotFound
                || e == Ext2Error::NameTooLong || e == Ext2Error::NoSpaceForEntry || e == Ext2Error::DirTooLarge
                || e == Ext2Error::DirectoryNotEmpty,
            crate::fs::ext2::node::kind_of_mode(old(self).inode.mode) != crate::fs::vfs::FileType::Directory ==> r
                == Err::<(), Ext2Error>(Ext2Error::NotADirectory) && *final(fs) == *old(fs),
            crate::fs::ext2::node::kind_of_mode(old(self).inode.mode) == crate::fs::vfs::FileType::Directory && old(fs).coherent()
                && old(fs).dir_lookup_from(old(self).inode, old_name.spec_bytes(), 0) is None ==> r == Err::<(), Ext2Error>(
                Ext2Error::FileNotFound,
            ),
            crate::fs::ext2::node::kind_of_mode(old(self).inode.mode) == crate::fs::vfs::FileType::Directory && old(fs).coherent()
                && old(fs).dir_lookup_from(old(self).inode, old_name.spec_bytes(), 0) is Some && old(fs).rename_source_from(
                old(self).inode,
                old_name.spec_bytes(),
                0,
            ) is None ==> r == Err::<(), Ext2Error>(Ext2Error::OldFileNotFound),
            (crate::fs::ext2::node::kind_of_mode(old(self).inode.mode) == crate::fs::vfs::FileType::Directory && old(fs).coherent()
                && old(fs).dir_lookup_from(old(self).inode, old_name.spec_bytes(), 0) is Some && new_name.spec_bytes().len() <= 255) ==> (
            old(fs).rename_source_from(old(self).inode, old_name.spec_bytes(), 0) matches Some((k0, p0)) ==> (old(fs).room_from(
                old(self).inode,
                new_name.spec_bytes().len() as int,
                0,
            ) matches Some((k, p)) ==> {
                let src = old(fs).dir_block(old(self).inode, k0);
                let off = old(fs).dir_block_off(old(self).inode, k);
                &&& r is Ok || r == Err::<(), Ext2Error>(Ext2Error::FileNotFound) || r == Err::<(), Ext2Error>(Ext2Error::DirectoryNotEmpty)
                &&& exists|mid: Ext2<D>| #[trigger] mid.wf() && (old(fs).in_disk(off, old(fs).bsize() as int) ==> {
                    &&& entry_inserted(old(fs).dir_block(old(self).inode, k), mid.disk_bytes(off, old(fs).bsize() as nat), p, rec_inode(src, p0) as u32, new_name.spec_bytes(), src[p0 + 7])
                    &&& forall|pos: int| !(old(fs).base() + off <= pos < old(fs).base() + off + old(fs).bsize()) ==> #[trigger] mid.dev().byte(pos) == old(fs).dev().byte(pos)
                })
            })),
    {
        let ghost s0 = *fs;
        match self.find(fs, old_name) {
            Ok(_child) => {},
            Err(e) => {
                return Err(e);
            },
        }
        let ghost s1 = *fs;
        let (target_inode, file_type) = self.rename_source(fs, old_name.as_bytes());
        proof {
            if s0.coherent() {
                assert forall|k: int| #![auto] s1.rename_source_from(self.inode, old_name.spec_bytes(), k) == s0.rename_source_from(self.inode, old_name.spec_bytes(), k) by {
                    lemma_rename_source_same(&s1, &s0, self.inode, old_name.spec_bytes(), k);
                }
            }
        }
        if target_inode == 0 {
            proof {
                lemma_rename_source_live(&s0, self.inode, old_name.spec_bytes(), 0);
            }
            return Err(Ext2Error::OldFileNotFound);
        }
        let ghost s2 = *fs;
        proof {
            if s0.coherent() {
                lemma_room_same(&s2, &s0, self.inode, new_name.spec_bytes().len() as int, 0);
            }
        }
        match self.add_directory_entry(fs, target_inode, new_name, file_type) {
            Ok(()) => {},
            Err(e) => {
                return Err(e);
            },
        }
        let ghost mid = *fs;
        proof {
            assert(mid.wf());
        }
        let mut inode = fs.read_inode(target_inode);
        inode.links_count = inode.links_count.wrapping_add(1);
        fs.write_inode(target_inode, &inode);
        self.remove(fs, old_name)
    }
}

/// The record a rename moves names a live inode.
proof fn lemma_rename_source_live<D: BlockDevice>(a: &Ext2<D>, inode: Inode, name: Seq<u8>, k: int)
    ensures
        a.rename_source_from(inode, name, k) matches Some((j, p)) ==> rec_inode(a.dir_block(inode, j), p) != 0,
    decreases inode.size - k,
{
    if !(k < 0 || k >= inode.size || k * a.bsize() >= inode.size) {
        lemma_rename_source_live(a, inode, name, k + 1);
    }
}

/// States with the same disk and layout find the same room for an entry.
proof fn lemma_room_same<D: BlockDevice>(a: &Ext2<D>, b: &Ext2<D>, inode: Inode, name_len: int, k: int)
    requires
        a.dev() == b.dev(),
        a.same_layout(b),
    ensures
        a.room_from(inode, name_len, k) == b.room_from(inode, name_len, k),
    decreases inode.size - k,
{
    if !(k < 0 || k >= inode.size || k * a.bsize() >= inode.size) {
        crate::fs::ext2::node::lemma_same_view(a, b, inode, k as u32, 0);
        assert(a.dir_block(inode, k) == b.dir_block(inode, k));
        lemma_room_same(a, b, inode, name_len, k + 1);
    }
}

/// States with the same disk and layout find the same rename source.
proof fn lemma_rename_source_same<D: BlockDevice>(a: &Ext2<D>, b: &Ext2<D>, inode: Inode, name: Seq<u8>, k: int)
    requires
        a.dev() == b.dev(),
        a.same_layout(b),
    ensures
        a.rename_source_from(inode, name, k) == b.rename_source_from(inode, name, k),
    decreases inode.size - k,
{
    if !(k < 0 || k >= inode.size || k * a.bsize() >= inode.size) {
        crate::fs::ext2::node::lemma_same_view(a, b, inode, k as u32, 0);
        assert(a.dir_block(inode, k) == b.dir_block(inode, k));
        lemma_rename_source_same(a, b, inode, name, k + 1);
    }
}

} // verus!
