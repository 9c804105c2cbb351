use vstd::prelude::*;
use crate::fs::disk::BlockDevice;
use crate::fs::bytes::{le16, read_u16, read_u32};
use crate::fs::ext2::fs::{Ext2, Ext2Error};
use crate::fs::ext2::structs::{Inode, inode_encoded};
use crate::fs::ext2::dir::{rec_readable, rec_inode, rec_len, rec_name_len, rec_name, rec_live, scan_block};
use crate::fs::ext2::node::{Ext2Node, kind_of_mode};
use crate::fs::vfs::FileType;

verus! {

/// The live entries of directory block `b` from record `pos`, as (inode, name) pairs in
/// order. The scan stops at a header past the block, a zero record length, a live record
/// whose name runs past the block, or a record reaching the block's end.
pub open spec fn block_entries(b: Seq<u8>, pos: int) -> Seq<(u32, Seq<u8>)>
    decreases b.len() - pos,
{
    if !rec_readable(b, pos) {
        Seq::empty()
    } else if rec_inode(b, pos) != 0 && pos + 8 + rec_name_len(b, pos) > b.len() {
        Seq::empty()
    } else {
        let here = if rec_inode(b, pos) != 0 {
            seq![(rec_inode(b, pos) as u32, rec_name(b, pos))]
        } else {
            Seq::empty()
        };
        if pos + rec_len(b, pos) >= b.len() {
            here
        } else {
            here + block_entries(b, pos + rec_len(b, pos))
        }
    }
}

/// Every name a block lists is one a lookup in that block finds.
pub proof fn lemma_listed_is_found(b: Seq<u8>, pos: int, e: (u32, Seq<u8>))
    requires
        0 <= pos,
        block_entries(b, pos).contains(e),
    ensures
        scan_block(b, pos, e.1) is Some,
    decreases b.len() - pos,
{
    assert(rec_readable(b, pos));
    let here = if rec_inode(b, pos) != 0 {
        seq![(rec_inode(b, pos) as u32, rec_name(b, pos))]
    } else {
        Seq::<(u32, Seq<u8>)>::empty()
    };
    if rec_live(b, pos) && rec_name(b, pos) == e.1 {
    } else {
        let nxt = pos + rec_len(b, pos);
        if here.contains(e) {
            let k = choose|k: int| 0 <= k < here.len() && here[k] == e;
            assert(here[k] == (rec_inode(b, pos) as u32, rec_name(b, pos)));
            assert(false);
        }
        assert(nxt < b.len());
        let rest = block_entries(b, nxt);
        assert(block_entries(b, pos) == here + rest);
        let k = choose|k: int| 0 <= k < (here + rest).len() && (here + rest)[k] == e;
        assert(k >= here.len());
        assert(rest[k - here.len()] == e);
        assert(rest.contains(e));
        assert(rec_len(b, pos) > 0);
        lemma_listed_is_found(b, nxt, e);
    }
}

/// A block lists at most one entry per byte.
proof fn lemma_block_entries_len(b: Seq<u8>, pos: int)
    requires
        0 <= pos,
    ensures
        block_entries(b, pos).len() <= b.len() - pos || block_entries(b, pos).len() == 0,
    decreases b.len() - pos,
{
    if rec_readable(b, pos) && !(rec_inode(b, pos) != 0 && pos + 8 + rec_name_len(b, pos) > b.len()) && pos + rec_len(b, pos)
        < b.len() {
        lemma_block_entries_len(b, pos + rec_len(b, pos));
    }
}

impl<D: BlockDevice> Ext2<D> {
    /// The live entries of directory `inode` from block `k` on, block after block, skipping
    /// blocks that are not mapped.
    pub open spec fn dir_entries_from(&self, inode: Inode, k: int) -> Seq<(u32, Seq<u8>)>
        decreases inode.size - k,
    {
        if k < 0 || k >= inode.size || k * self.bsize() >= inode.size {
            Seq::empty()
        } else {
            let phys = self.block_of(inode, k as u32);
            let here = if phys == 0 {
                Seq::empty()
            } else {
                block_entries(self.disk_bytes(phys * self.bsize(), self.bsize() as nat), 0)
            };
            here + self.dir_entries_from(inode, k + 1)
        }
    }

    /// The mode of inode `id` as the disk holds it.
    pub open spec fn mode_on_disk(&self, id: u32) -> u16 {
        le16(self.disk_bytes(self.inode_offset(id as int), 128), 0) as u16
    }

    /// The type byte a directory listing gives inode `id`: 2 for a directory, 1 for a
    /// regular file, 0 for anything else.
    pub open spec fn listed_type(&self, id: u32) -> u8 {
        let m = self.mode_on_disk(id) & 0xF000;
        if m == 0x4000 { 2 } else if m == 0x8000 { 1 } else { 0 }
    }

    /// The record a listing writes for entry `e`: its type, its name length, its name.
    pub open spec fn listed_record(&self, e: (u32, Seq<u8>)) -> Seq<u8> {
        seq![self.listed_type(e.0), e.1.len() as u8] + e.1
    }

    /// What listing `entries` into `room` bytes writes, and how many entries: records one
    /// after another, stopping at the first that does not fit.
    pub open spec fn packed(&self, entries: Seq<(u32, Seq<u8>)>, room: int) -> (Seq<u8>, int)
        decreases entries.len(),
    {
        if entries.len() == 0 {
            (Seq::empty(), 0)
        } else {
            let rec = self.listed_record(entries[0]);
            if rec.len() > room {
                (Seq::empty(), 0)
            } else {
                let rest = self.packed(entries.drop_first(), room - rec.len());
                (rec + rest.0, rest.1 + 1)
            }
        }
    }
}

/// A directory of `size` bytes in blocks of `bs` lists at most `size * bs` entries.
proof fn lemma_dir_entries_len<D: BlockDevice>(s: &Ext2<D>, inode: Inode, k: int)
    requires
        0 <= k,
        s.bsize() >= 1,
    ensures
        s.dir_entries_from(inode, k).len() <= (inode.size - k) * s.bsize() || s.dir_entries_from(inode, k).len() == 0,
    decreases inode.size - k,
{
    if !(k < 0 || k >= inode.size || k * s.bsize() >= inode.size) {
        lemma_dir_entries_len(s, inode, k + 1);
        let phys = s.block_of(inode, k as u32);
        if phys != 0 {
            lemma_block_entries_len(s.disk_bytes(phys * s.bsize(), s.bsize() as nat), 0);
        }
        assert((inode.size - k) * s.bsize() == (inode.size - (k + 1)) * s.bsize() + s.bsize()) by (nonlinear_arith);
        assert((inode.size - (k + 1)) * s.bsize() >= 0) by (nonlinear_arith)
            requires
                inode.size - (k + 1) >= 0,
                s.bsize() >= 1,
        ;
    }
}

/// Two states with the same disk and layout list a directory alike.
proof fn lemma_entries_same<D: BlockDevice>(a: &Ext2<D>, b: &Ext2<D>, inode: Inode, k: int)
    requires
        a.dev() == b.dev(),
        a.same_layout(b),
    ensures
        a.dir_entries_from(inode, k) == b.dir_entries_from(inode, k),
    decreases inode.size - k,
{
    if !(k < 0 || k >= inode.size || k * a.bsize() >= inode.size) {
        crate::fs::ext2::node::lemma_same_view(a, b, inode, k as u32, 0);
        lemma_entries_same(a, b, inode, k + 1);
    }
}


/// Where a listing stands after `e` entries: `out` (the `bw` bytes written, `count`
/// records) followed by what packing the entries still ahead would write is exactly what
/// packing the entries from `start` writes.
pub open spec fn listing_ok<D: BlockDevice>(
    s0: &Ext2<D>,
    all: Seq<(u32, Seq<u8>)>,
    start: int,
    cap: int,
    e: int,
    count: int,
    out: Seq<u8>,
) -> bool {
    let bw = out.len() as int;
    let first = if start < all.len() { start } else { all.len() as int };
    let from = if start < e { e } else { first };
    let rest = s0.packed(all.subrange(from, all.len() as int), cap - bw);
    &&& 0 <= e <= all.len()
    &&& 0 <= start
    &&& bw <= cap
    &&& count <= bw
    &&& (e <= start ==> bw == 0 && count == 0)
    &&& s0.packed(all.subrange(first, all.len() as int), cap) == (out + rest.0, count + rest.1)
}

/// Passing an entry before the first one listed changes nothing.
proof fn lemma_listing_skip<D: BlockDevice>(s0: &Ext2<D>, all: Seq<(u32, Seq<u8>)>, start: int, cap: int, e: int, count: int, out: Seq<u8>)
    requires
        listing_ok(s0, all, start, cap, e, count, out),
        e < start,
        e < all.len(),
    ensures
        listing_ok(s0, all, start, cap, e + 1, count, out),
{
}

/// Listing an entry that fits appends its record.
proof fn lemma_listing_take<D: BlockDevice>(s0: &Ext2<D>, all: Seq<(u32, Seq<u8>)>, start: int, cap: int, e: int, count: int, out: Seq<u8>)
    requires
        listing_ok(s0, all, start, cap, e, count, out),
        start <= e < all.len(),
        out.len() + s0.listed_record(all[e]).len() <= cap,
    ensures
        listing_ok(s0, all, start, cap, e + 1, count + 1, out + s0.listed_record(all[e])),
{
    let rec = s0.listed_record(all[e]);
    let tail = all.subrange(e, all.len() as int);
    assert(tail[0] == all[e]);
    assert(tail.drop_first() =~= all.subrange(e + 1, all.len() as int));
    let bw = out.len() as int;
    let rest1 = s0.packed(all.subrange(e + 1, all.len() as int), cap - bw - rec.len());
    assert(s0.packed(tail, cap - bw) == (rec + rest1.0, rest1.1 + 1));
    assert((out + rec) + rest1.0 =~= out + (rec + rest1.0));
    if e == start {
        let first = if start < all.len() { start } else { all.len() as int };
        assert(first == e);
    }
}

/// An entry that does not fit ends the listing with what was written so far.
proof fn lemma_listing_full<D: BlockDevice>(s0: &Ext2<D>, all: Seq<(u32, Seq<u8>)>, start: int, cap: int, e: int, count: int, out: Seq<u8>)
    requires
        listing_ok(s0, all, start, cap, e, count, out),
        start <= e < all.len(),
        out.len() + s0.listed_record(all[e]).len() > cap,
    ensures
        s0.packed(all.subrange(if start < all.len() { start } else { all.len() as int }, all.len() as int), cap) == (out, count),
{
    let tail = all.subrange(e, all.len() as int);
    assert(tail[0] == all[e]);
    assert(out + Seq::<u8>::empty() =~= out);
    if e == start {
        let first = if start < all.len() { start } else { all.len() as int };
        assert(first == e);
    }
}

/// With no entry left the listing is what was written so far.
proof fn lemma_listing_end<D: BlockDevice>(s0: &Ext2<D>, all: Seq<(u32, Seq<u8>)>, start: int, cap: int, count: int, out: Seq<u8>)
    requires
        listing_ok(s0, all, start, cap, all.len() as int, count, out),
    ensures
        s0.packed(all.subrange(if start < all.len() { start } else { all.len() as int }, all.len() as int), cap) == (out, count),
{
    let first = if start < all.len() { start } else { all.len() as int };
    let from = if start < all.len() { all.len() as int } else { first };
    assert(all.subrange(from, all.len() as int).len() == 0);
    assert(out + Seq::<u8>::empty() =~= out);
}

/// Writes the record `t`, `name_len`, `blk[from..from + name_len]` into `buffer` at `at`.
fn put_record(buffer: &mut [u8], at: usize, t: u8, blk: &[u8], from: usize, name_len: usize)
    requires
        name_len <= 255,
        from + name_len <= blk@.len(),
        at + 2 + name_len <= old(buffer)@.len(),
    ensures
        final(buffer)@ == old(buffer)@.subrange(0, at as int) + (seq![t, name_len as u8] + blk@.subrange(from as int, from + name_len))
            + old(buffer)@.subrange(at + 2 + name_len, old(buffer)@.len() as int),
{
    let cap = buffer.len();
    let blen = blk.len();
    let ghost before = buffer@;
    buffer[at] = t;
    buffer[at + 1] = name_len as u8;
    let mut j: usize = 0;
    while j < name_len
        invariant
            cap == buffer@.len(),
            cap == before.len(),
            blen == blk@.len(),
            before == old(buffer)@,
            from + name_len <= blk@.len(),
            at + 2 + name_len <= cap,
            j <= name_len,
            forall|i: int| 0 <= i < cap && !(at + 2 <= i < at + 2 + j) && i != at && i != at + 1 ==> #[trigger] buffer@[i] == before[i],
            buffer@[at as int] == t,
            buffer@[at + 1] == name_len as u8,
            forall|i: int| 0 <= i < j ==> #[trigger] buffer@[at + 2 + i] == blk@[from + i],
        decreases name_len - j,
    {
        buffer[at + 2 + j] = blk[from + j];
        j += 1;
    }
    let ghost rec = seq![t, name_len as u8] + blk@.subrange(from as int, from + name_len);
    let ghost want = before.subrange(0, at as int) + rec + before.subrange(at + 2 + name_len, cap as int);
    assert forall|i: int| 0 <= i < cap implies #[trigger] buffer@[i] == want[i] by {
        if i < at {
        } else if i < at + 2 + name_len {
            assert(want[i] == rec[i - at]);
            if i >= at + 2 {
                assert(rec[i - at] == blk@[from + (i - at - 2)]);
                assert(buffer@[at + 2 + (i - at - 2)] == blk@[from + (i - at - 2)]);
            }
        } else {
        }
    }
    assert(buffer@ =~= want);
}

impl Ext2Node {
    /// Lists the live entries of directory block `blk` (directory block `k`, already read)
    /// into `buffer` after `bw` bytes: entries before `start_index` are passed, each other
    /// is written as its type, its name length and its name. Returns whether an entry did not
    /// fit, with the new byte count, record count and entry index.
    #[verifier::rlimit(80)]
    #[verifier::spinoff_prover]
    fn list_block<D: BlockDevice>(
        &self,
        fs: &mut Ext2<D>,
        blk: &[u8],
        buffer: &mut [u8],
        start_index: u64,
        bw_start: usize,
        count_start: usize,
        entry_index: u64,
        Ghost(s0): Ghost<Ext2<D>>,
        Ghost(all): Ghost<Seq<(u32, Seq<u8>)>>,
        Ghost(k): Ghost<int>,
    ) -> (r: (bool, usize, usize, u64))
        requires
            old(fs).wf(),
            old(fs).ipg() > 0,
            old(fs).same_layout(&s0),
            old(fs).dev() == s0.dev(),
            s0.coherent() ==> old(fs).coherent(),
            all.len() < 0x1_0000_0000_0000_0000,
            bw_start <= old(buffer)@.len(),
            count_start <= bw_start,
            entry_index + blk@.len() <= u64::MAX,
            s0.coherent() ==> {
                &&& listing_ok(&s0, all, start_index as int, old(buffer)@.len() as int, entry_index as int, count_start as int, old(buffer)@.subrange(0, bw_start as int))
                &&& all.subrange(entry_index as int, all.len() as int) == block_entries(blk@, 0) + s0.dir_entries_from(self.inode, k + 1)
            },
        ensures
            final(fs).wf(),
            final(fs).same_layout(&s0),
            final(fs).dev() == s0.dev(),
            s0.coherent() ==> final(fs).coherent(),
            final(buffer)@.len() == old(buffer)@.len(),
            bw_start <= r.1 <= old(buffer)@.len(),
            r.2 <= r.1,
            r.3 <= entry_index + blk@.len(),
            forall|i: int| r.1 <= i < old(buffer)@.len() ==> #[trigger] final(buffer)@[i] == old(buffer)@[i],
            s0.coherent() ==> if r.0 {
                s0.packed(all.subrange(if start_index < all.len() { start_index as int } else { all.len() as int }, all.len() as int), old(buffer)@.len() as int)
                    == (final(buffer)@.subrange(0, r.1 as int), r.2 as int)
            } else {
                &&& listing_ok(&s0, all, start_index as int, old(buffer)@.len() as int, r.3 as int, r.2 as int, final(buffer)@.subrange(0, r.1 as int))
                &&& all.subrange(r.3 as int, all.len() as int) == s0.dir_entries_from(self.inode, k + 1)
            },
    {
        let n = blk.len();
        let cap = buffer.len();
        let mut pos: usize = 0;
        let bw0 = bw_start;
        let mut bw = bw_start;
        let mut count = count_start;
        let mut e = entry_index;
        let ghost b0 = buffer@;
        while pos < n
            invariant
                n == blk@.len(),
                cap == buffer@.len(),
                buffer@.len() == b0.len(),
                b0 == old(buffer)@,
                fs.wf(),
                fs.ipg() > 0,
                fs.same_layout(&s0),
                fs.dev() == s0.dev(),
                s0.coherent() ==> fs.coherent(),
                all.len() < 0x1_0000_0000_0000_0000,
                bw0 == bw_start,
                bw0 <= bw <= cap,
                count <= bw,
                pos <= n,
                entry_index + n <= u64::MAX,
                e <= entry_index + pos,
                forall|i: int| bw <= i < cap ==> #[trigger] buffer@[i] == b0[i],
                s0.coherent() ==> {
                    &&& listing_ok(&s0, all, start_index as int, cap as int, e as int, count as int, buffer@.subrange(0, bw as int))
                    &&& all.subrange(e as int, all.len() as int) == block_entries(blk@, pos as int) + s0.dir_entries_from(self.inode, k + 1)
                },
            decreases n - pos,
        {
            if n - pos < 8 {
                return (false, bw, count, e);
            }
            let len = read_u16(blk, pos + 4) as usize;
            if len == 0 {
                return (false, bw, count, e);
            }
            let ino = read_u32(blk, pos);
            let name_len = blk[pos + 6] as usize;
            let ghost rem = all.subrange(e as int, all.len() as int);
            if ino != 0 {
                if name_len > n - pos - 8 {
                    return (false, bw, count, e);
                }
                proof {
                    if s0.coherent() {
                        assert(rem[0] == (ino, rec_name(blk@, pos as int)));
                        assert(rem.len() > 0);
                        assert(all[e as int] == rem[0]);
                    }
                }
                if e >= start_index {
                    if name_len + 2 > cap - bw {
                        proof {
                            if s0.coherent() {
                                lemma_listing_full(&s0, all, start_index as int, cap as int, e as int, count as int, buffer@.subrange(0, bw as int));
                            }
                        }
                        return (true, bw, count, e);
                    }
                    let ghost sr = *fs;
                    let child = fs.read_inode(ino);
                    let m = child.mode & 0xF000;
                    let t: u8 = if m == 0x4000 { 2 } else if m == 0x8000 { 1 } else { 0 };
                    let ghost before = buffer@;
                    put_record(buffer, bw, t, blk, pos + 8, name_len);
                    proof {
                        if s0.coherent() {
                            assert(t == s0.listed_type(ino)) by {
                                assert(sr.dev() == s0.dev());
                                assert(child.mode == le16(s0.disk_bytes(s0.inode_offset(ino as int), 128), 0));
                            }
                            let rec = s0.listed_record(all[e as int]);
                            assert(rec =~= seq![t, name_len as u8] + rec_name(blk@, pos as int));
                            assert(rec_name(blk@, pos as int) == blk@.subrange(pos + 8, pos + 8 + name_len));
                            assert(buffer@.subrange(0, (bw + 2 + name_len) as int) =~= before.subrange(0, bw as int) + rec);
                            lemma_listing_take(&s0, all, start_index as int, cap as int, e as int, count as int, before.subrange(0, bw as int));
                        }
                    }
                    bw = bw + 2 + name_len;
                    count = count + 1;
                } else {
                    proof {
                        if s0.coherent() {
                            lemma_listing_skip(&s0, all, start_index as int, cap as int, e as int, count as int, buffer@.subrange(0, bw as int));
                        }
                    }
                }
                proof {
                    if s0.coherent() {
                        assert(rem.drop_first() =~= all.subrange(e + 1, all.len() as int));
                    }
                }
                e = e + 1;
            }
            if len >= n - pos {
                proof {
                    if s0.coherent() {
                        assert(all.subrange(e as int, all.len() as int) =~= s0.dir_entries_from(self.inode, k + 1));
                    }
                }
                return (false, bw, count, e);
            }
            pos = pos + len;
        }
        (false, bw, count, e)
    }
}


impl Ext2Node {
    /// Lists this directory's live entries from index `start_index` into `buffer`, each as
    /// its type (2 directory, 1 file, 0 other), its name length and its name, until one does
    /// not fit. Returns the bytes written and the entries listed.
    #[verifier::rlimit(40)]
    pub fn read_dir<D: BlockDevice>(&self, fs: &mut Ext2<D>, start_index: u64, buffer: &mut [u8]) -> (r: Result<(usize, usize), Ext2Error>)
        requires
            old(fs).wf(),
            old(fs).ipg() > 0,
        ensures
            final(fs).wf(),
            final(fs).same_layout(old(fs)),
            final(fs).dev() == old(fs).dev(),
            old(fs).coherent() ==> final(fs).coherent(),
            final(buffer)@.len() == old(buffer)@.len(),
            r matches Ok((bw, n)) && bw <= old(buffer)@.len() && forall|i: int| bw <= i < old(buffer)@.len() ==> #[trigger] final(buffer)@[i]
                == old(buffer)@[i],
            old(fs).coherent() ==> ({
                let all = old(fs).dir_entries_from(self.inode, 0);
                let listed = old(fs).packed(
                    all.subrange(if start_index < all.len() { start_index as int } else { all.len() as int }, all.len() as int),
                    old(buffer)@.len() as int,
                );
                &&& r == Ok::<(usize, usize), Ext2Error>((listed.0.len() as usize, listed.1 as usize))
                &&& final(buffer)@.subrange(0, listed.0.len() as int) == listed.0
            }),
    {
        let ghost s0 = *fs;
        let ghost all = s0.dir_entries_from(self.inode, 0);
        let bs = fs.block_size();
        let bsz = bs as usize;
        let cap = buffer.len();
        proof {
            lemma_dir_entries_len(&s0, self.inode, 0);
            assert(self.inode.size * bs <= 0x1_0000_0000 * 0x10000) by (nonlinear_arith)
                requires
                    self.inode.size <= u32::MAX,
                    bs <= 0x10000,
            ;
            assert(old(buffer)@.subrange(0, 0) =~= Seq::<u8>::empty());
            assert(all.subrange(0, all.len() as int) =~= all);
            if s0.coherent() {
                let first = if start_index < all.len() { start_index as int } else { all.len() as int };
                let from = if (start_index as int) < 0 { 0 } else { first };
                assert(from == first);
            }
        }
        let mut block_buf: Vec<u8> = vec![0u8; bsz];
        let mut bw: usize = 0;
        let mut count: usize = 0;
        let mut e: u64 = 0;
        let total_size = self.size();
        let mut offset: u64 = 0;
        let ghost mut k: int = 0;
        while offset < total_size
            invariant
                s0 == *old(fs),
                fs.wf(),
                fs.same_layout(&s0),
                fs.dev() == s0.dev(),
                s0.coherent() ==> fs.coherent(),
                s0.ipg() > 0,
                bs == s0.bsize(),
                bsz == bs,
                crate::fs::ext2::fs::valid_block_size(bs as int),
                block_buf@.len() == bs,
                total_size == self.inode.size,
                total_size <= u32::MAX,
                offset == k * bs,
                0 <= k <= total_size,
                all == s0.dir_entries_from(self.inode, 0),
                all.len() < 0x1_0000_0000_0000_0000,
                cap == buffer@.len(),
                buffer@.len() == old(buffer)@.len(),
                bw <= cap,
                count <= bw,
                e <= offset,
                forall|i: int| bw <= i < cap ==> #[trigger] buffer@[i] == old(buffer)@[i],
                s0.coherent() ==> {
                    &&& listing_ok(&s0, all, start_index as int, cap as int, e as int, count as int, buffer@.subrange(0, bw as int))
                    &&& all.subrange(e as int, all.len() as int) == s0.dir_entries_from(self.inode, k)
                },
            decreases total_size - k,
        {
            proof {
                assert(k * bs == bs * k) by (nonlinear_arith);
                vstd::arithmetic::div_mod::lemma_div_multiples_vanish(k, bs as int);
                assert(k <= k * bs) by (nonlinear_arith)
                    requires
                        bs >= 1,
                        k >= 0,
                ;
                assert((k + 1) * bs == k * bs + bs) by (nonlinear_arith);
            }
            let block_idx = (offset / bs) as u32;
            assert(block_idx == k as u32);
            let ghost sa = *fs;
            let phys = fs.get_block_address(&self.inode, block_idx);
            proof {
                if s0.coherent() {
                    crate::fs::ext2::node::lemma_same_view(&sa, &s0, self.inode, k as u32, 0);
                }
            }
            if phys != 0 {
                proof {
                    crate::fs::ext2::node::lemma_blocks_whole(fs, phys as int, 1);
                    assert(phys * bs <= 0x4000_0000_0000_0000) by (nonlinear_arith)
                        requires
                            phys <= u32::MAX,
                            bs <= 0x10000,
                    ;
                }
                fs.read_disk_data(phys as u64 * bs, block_buf.as_mut_slice());
                proof {
                    assert(block_buf@ =~= s0.disk_bytes(phys * bs, bs as nat));
                }
                let (full, bw2, c2, e2) = self.list_block(
                    fs,
                    block_buf.as_slice(),
                    buffer,
                    start_index,
                    bw,
                    count,
                    e,
                    Ghost(s0),
                    Ghost(all),
                    Ghost(k),
                );
                if full {
                    return Ok((bw2, c2));
                }
                bw = bw2;
                count = c2;
                e = e2;
            } else {
                proof {
                    if s0.coherent() {
                        assert(s0.dir_entries_from(self.inode, k) =~= s0.dir_entries_from(self.inode, k + 1));
                    }
                }
            }
            offset += bs;
            proof {
                k = k + 1;
            }
        }
        proof {
            if s0.coherent() {
                assert(s0.dir_entries_from(self.inode, k) == Seq::<(u32, Seq<u8>)>::empty());
                assert(e == all.len());
                lemma_listing_end(&s0, all, start_index as int, cap as int, count as int, buffer@.subrange(0, bw as int));
            }
        }
        Ok((bw, count))
    }
}


/// The characters `String::from_utf8_lossy` makes of `b`.
pub uninterp spec fn lossy_text(b: Seq<u8>) -> Seq<char>;

/// The name std's `String::from_utf8_lossy` makes of `bytes`, as an owned string. Trusted:
/// the result is a function of the bytes alone, and ASCII bytes become the characters of
/// the same values; what other bytes become is left to that function.
#[verifier::external_body]
pub(crate) fn lossy_name(bytes: &[u8]) -> (s: String)
    ensures
        s@ == lossy_text(bytes@),
        (forall|i: int| 0 <= i < bytes@.len() ==> #[trigger] bytes@[i] < 128) ==> s@ == bytes@.map_values(|b: u8| b as char),
{
    String::from_utf8_lossy(bytes).into_owned()
}

/// Node `n` is the child entry `e` of a directory lists: its inode number, its inode as
/// the disk holds it, its name as the lossy decoding of the entry's bytes.
pub open spec fn child_of<D: BlockDevice>(s0: &Ext2<D>, n: Ext2Node, e: (u32, Seq<u8>)) -> bool {
    &&& n.inode_idx == e.0
    &&& n.name@ == lossy_text(e.1)
    &&& inode_encoded(n.inode, s0.disk_bytes(s0.inode_offset(e.0 as int), 128), 0)
}

impl Ext2Node {
    /// Appends a node for each live entry of directory block `blk` (directory block `k`,
    /// already read) to `out`.
    #[verifier::rlimit(60)]
    #[verifier::spinoff_prover]
    fn collect_block<D: BlockDevice>(
        &self,
        fs: &mut Ext2<D>,
        blk: &[u8],
        out: &mut Vec<Ext2Node>,
        Ghost(s0): Ghost<Ext2<D>>,
        Ghost(all): Ghost<Seq<(u32, Seq<u8>)>>,
        Ghost(k): Ghost<int>,
    )
        requires
            old(fs).wf(),
            old(fs).ipg() > 0,
            old(fs).same_layout(&s0),
            old(fs).dev() == s0.dev(),
            s0.coherent() ==> old(fs).coherent(),
            s0.coherent() ==> {
                &&& old(out)@.len() <= all.len()
                &&& forall|i: int| 0 <= i < old(out)@.len() ==> #[trigger] child_of(&s0, old(out)@[i], all[i])
                &&& all.subrange(old(out)@.len() as int, all.len() as int) == block_entries(blk@, 0) + s0.dir_entries_from(self.inode, k + 1)
            },
        ensures
            final(fs).wf(),
            final(fs).same_layout(&s0),
            final(fs).dev() == s0.dev(),
            s0.coherent() ==> final(fs).coherent(),
            s0.coherent() ==> {
                &&& final(out)@.len() <= all.len()
                &&& forall|i: int| 0 <= i < final(out)@.len() ==> #[trigger] child_of(&s0, final(out)@[i], all[i])
                &&& all.subrange(final(out)@.len() as int, all.len() as int) == s0.dir_entries_from(self.inode, k + 1)
            },
    {
        let n = blk.len();
        let mut pos: usize = 0;
        while pos < n
            invariant
                n == blk@.len(),
                fs.wf(),
                fs.ipg() > 0,
                fs.same_layout(&s0),
                fs.dev() == s0.dev(),
                s0.coherent() ==> fs.coherent(),
                s0.coherent() ==> {
                    &&& out@.len() <= all.len()
                    &&& forall|i: int| 0 <= i < out@.len() ==> #[trigger] child_of(&s0, out@[i], all[i])
                    &&& all.subrange(out@.len() as int, all.len() as int) == block_entries(blk@, pos as int) + s0.dir_entries_from(self.inode, k + 1)
                },
            decreases n - pos,
        {
            if n - pos < 8 {
                return;
            }
            let len = read_u16(blk, pos + 4) as usize;
            if len == 0 {
                return;
            }
            let ino = read_u32(blk, pos);
            let ghost rem = all.subrange(out@.len() as int, all.len() as int);
            if ino != 0 {
                let name_len = blk[pos + 6] as usize;
                if name_len > n - pos - 8 {
                    return;
                }
                let mut raw: Vec<u8> = Vec::new();
                let mut j: usize = 0;
                while j < name_len
                    invariant
                        n == blk@.len(),
                        pos + 8 + name_len <= n,
                        j <= name_len,
                        raw@ == blk@.subrange(pos + 8, pos + 8 + j),
                    decreases name_len - j,
                {
                    raw.push(blk[pos + 8 + j]);
                    j += 1;
                    assert(raw@ =~= blk@.subrange(pos + 8, pos + 8 + j));
                }
                let name = lossy_name(raw.as_slice());
                let ghost sr = *fs;
                let child_inode = fs.read_inode(ino);
                let ghost before = out@;
                out.push(Ext2Node { inode_idx: ino, inode: child_inode, name });
                proof {
                    if s0.coherent() {
                        assert(rem[0] == (ino, rec_name(blk@, pos as int)));
                        assert(all[before.len() as int] == rem[0]);
                        assert(rec_name(blk@, pos as int) == raw@);
                        assert(child_of(&s0, out@[before.len() as int], all[before.len() as int]));
                        assert forall|i: int| 0 <= i < out@.len() implies #[trigger] child_of(&s0, out@[i], all[i]) by {
                            if i < before.len() {
                                assert(out@[i] == before[i]);
                            }
                        }
                        assert(rem.drop_first() =~= all.subrange(out@.len() as int, all.len() as int));
                    }
                }
            }
            if len >= n - pos {
                proof {
                    if s0.coherent() {
                        assert(all.subrange(out@.len() as int, all.len() as int) =~= s0.dir_entries_from(self.inode, k + 1));
                    }
                }
                return;
            }
            pos = pos + len;
        }
    }

    /// The nodes of this directory's live entries, in order, each with its inode read and
    /// its name decoded.
    #[verifier::rlimit(40)]
    pub fn children<D: BlockDevice>(&self, fs: &mut Ext2<D>) -> (r: Result<Vec<Ext2Node>, Ext2Error>)
        requires
            old(fs).wf(),
            old(fs).ipg() > 0,
        ensures
            final(fs).wf(),
            final(fs).same_layout(old(fs)),
            final(fs).dev() == old(fs).dev(),
            old(fs).coherent() ==> final(fs).coherent(),
            kind_of_mode(self.inode.mode) != FileType::Directory ==> (r matches Err(e) && e == Ext2Error::NotADirectory),
            kind_of_mode(self.inode.mode) == FileType::Directory ==> r is Ok,
            kind_of_mode(self.inode.mode) == FileType::Directory && old(fs).coherent() ==> (r matches Ok(v) && {
                let all = old(fs).dir_entries_from(self.inode, 0);
                &&& v@.len() == all.len()
                &&& forall|i: int| 0 <= i < v@.len() ==> #[trigger] child_of(old(fs), v@[i], all[i])
            }),
    {
        if self.kind() != FileType::Directory {
            return Err(Ext2Error::NotADirectory);
        }
        let ghost s0 = *fs;
        let ghost all = s0.dir_entries_from(self.inode, 0);
        let bs = fs.block_size();
        let bsz = bs as usize;
        let mut block_buf: Vec<u8> = vec![0u8; bsz];
        let mut out: Vec<Ext2Node> = Vec::new();
        let total_size = self.size();
        let mut offset: u64 = 0;
        let ghost mut k: int = 0;
        proof {
            assert(all.subrange(0, all.len() as int) =~= all);
        }
        while offset < total_size
            invariant
                s0 == *old(fs),
                fs.wf(),
                fs.same_layout(&s0),
                fs.dev() == s0.dev(),
                s0.coherent() ==> fs.coherent(),
                s0.ipg() > 0,
                bs == s0.bsize(),
                bsz == bs,
                crate::fs::ext2::fs::valid_block_size(bs as int),
                block_buf@.len() == bs,
                total_size == self.inode.size,
                total_size <= u32::MAX,
                offset == k * bs,
                0 <= k <= total_size,
                all == s0.dir_entries_from(self.inode, 0),
                s0.coherent() ==> {
                    &&& out@.len() <= all.len()
                    &&& forall|i: int| 0 <= i < out@.len() ==> #[trigger] child_of(&s0, out@[i], all[i])
                    &&& all.subrange(out@.len() as int, all.len() as int) == s0.dir_entries_from(self.inode, k)
                },
            decreases total_size - k,
        {
            proof {
                assert(k * bs == bs * k) by (nonlinear_arith);
                vstd::arithmetic::div_mod::lemma_div_multiples_vanish(k, bs as int);
                assert(k <= k * bs) by (nonlinear_arith)
                    requires
                        bs >= 1,
                        k >= 0,
                ;
                assert((k + 1) * bs == k * bs + bs) by (nonlinear_arith);
            }
            let block_idx = (offset / bs) as u32;
            assert(block_idx == k as u32);
            let ghost sa = *fs;
            let phys = fs.get_block_address(&self.inode, block_idx);
            proof {
                if s0.coherent() {
                    crate::fs::ext2::node::lemma_same_view(&sa, &s0, self.inode, k as u32, 0);
                }
            }
            if phys != 0 {
                proof {
                    crate::fs::ext2::node::lemma_blocks_whole(fs, phys as int, 1);
                    assert(phys * bs <= 0x4000_0000_0000_0000) by (nonlinear_arith)
                        requires
                            phys <= u32::MAX,
                            bs <= 0x10000,
                    ;
                }
                fs.read_disk_data(phys as u64 * bs, block_buf.as_mut_slice());
                proof {
                    assert(block_buf@ =~= s0.disk_bytes(phys * bs, bs as nat));
                }
                self.collect_block(fs, block_buf.as_slice(), &mut out, Ghost(s0), Ghost(all), Ghost(k));
            } else {
                proof {
                    if s0.coherent() {
                        assert(s0.dir_entries_from(self.inode, k) =~= s0.dir_entries_from(self.inode, k + 1));
                    }
                }
            }
            offset += bs;
            proof {
                k = k + 1;
            }
        }
        proof {
            if s0.coherent() {
                assert(s0.dir_entries_from(self.inode, k) == Seq::<(u32, Seq<u8>)>::empty());
            }
        }
        Ok(out)
    }
}

} // verus!
