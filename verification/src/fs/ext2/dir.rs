use vstd::prelude::*;
use crate::fs::bytes::{le16, le32, read_u16, read_u32, write_u16, write_u32};

verus! {

/// The inode number of the directory record at `pos`.
pub open spec fn rec_inode(b: Seq<u8>, pos: int) -> int {
    le32(b, pos)
}

/// The length of the directory record at `pos`.
pub open spec fn rec_len(b: Seq<u8>, pos: int) -> int {
    le16(b, pos + 4)
}

/// The name length of the directory record at `pos`.
pub open spec fn rec_name_len(b: Seq<u8>, pos: int) -> int {
    b[pos + 6] as int
}

/// The record at `pos` has a header that fits and a non-zero length, so a scan reads it.
pub open spec fn rec_readable(b: Seq<u8>, pos: int) -> bool {
    0 <= pos && pos + 8 <= b.len() && rec_len(b, pos) != 0
}

/// The record at `pos` names a live entry whose name lies inside the block.
pub open spec fn rec_live(b: Seq<u8>, pos: int) -> bool {
    rec_inode(b, pos) != 0 && pos + 8 + rec_name_len(b, pos) <= b.len()
}

/// The name of the record at `pos`.
pub open spec fn rec_name(b: Seq<u8>, pos: int) -> Seq<u8> {
    b.subrange(pos + 8, pos + 8 + rec_name_len(b, pos))
}

/// The inode of the first live entry named `name` in directory block `b`, scanning the
/// records from `pos`; the scan ends at a zero record length or a header past the end.
pub open spec fn scan_block(b: Seq<u8>, pos: int, name: Seq<u8>) -> Option<u32>
    decreases b.len() - pos,
{
    if !rec_readable(b, pos) {
        None
    } else if rec_live(b, pos) && rec_name(b, pos) == name {
        Some(rec_inode(b, pos) as u32)
    } else if pos + rec_len(b, pos) > b.len() {
        None
    } else {
        scan_block(b, pos + rec_len(b, pos), name)
    }
}

/// A scan only ever answers a live entry, whose inode number is not zero.
pub proof fn lemma_scan_nonzero(b: Seq<u8>, pos: int, name: Seq<u8>)
    ensures
        scan_block(b, pos, name) matches Some(i) ==> i != 0,
    decreases b.len() - pos,
{
    if rec_readable(b, pos) && !(rec_live(b, pos) && rec_name(b, pos) == name) && pos + rec_len(b, pos) <= b.len() {
        lemma_scan_nonzero(b, pos + rec_len(b, pos), name);
    }
    if rec_readable(b, pos) && rec_live(b, pos) {
        assert(rec_inode(b, pos) < 0x1_0000_0000);
    }
}

/// A lookup answers only with the inode of a record that carries exactly the name asked
/// for: the record's stored name length equals the name's length and the bytes after its
/// header are the name's bytes, so a record whose name is a proper prefix of the name (or
/// the name a prefix of it) never answers; the inode number is the record's and not zero.
pub proof fn lemma_scan_exact(b: Seq<u8>, pos: int, name: Seq<u8>)
    requires
        0 <= pos,
    ensures
        scan_block(b, pos, name) matches Some(i) ==> exists|p: int|
            #![trigger le32(b, p)]
            pos <= p && p + 8 + name.len() <= b.len() && b[p + 6] as int == name.len() && (forall|j: int|
                0 <= j < name.len() ==> b[p + 8 + j] == #[trigger] name[j]) && le32(b, p) == i && i != 0,
    decreases b.len() - pos,
{
    if rec_readable(b, pos) {
        if rec_live(b, pos) && rec_name(b, pos) == name {
            let p = pos;
            assert(rec_name(b, p).len() == rec_name_len(b, p));
            assert forall|j: int| 0 <= j < name.len() implies b[p + 8 + j] == #[trigger] name[j] by {
                assert(rec_name(b, p)[j] == b[p + 8 + j]);
            }
            assert(le32(b, p) < 0x1_0000_0000);
            assert(le32(b, p) as u32 == le32(b, p));
        } else if pos + rec_len(b, pos) <= b.len() {
            assert(rec_len(b, pos) >= 0);
            lemma_scan_exact(b, pos + rec_len(b, pos), name);
        }
    }
}

/// A record search lands only on a record whose stored name has exactly the length and the
/// bytes of the name asked for.
pub proof fn lemma_find_record_exact(b: Seq<u8>, pos: int, prev: int, name: Seq<u8>)
    requires
        0 <= pos,
    ensures
        find_record(b, pos, prev, name) matches Some((p, q)) ==> pos <= p && p + 8 + name.len() <= b.len() && b[p + 6] as int
            == name.len() && forall|j: int| 0 <= j < name.len() ==> b[p + 8 + j] == #[trigger] name[j],
    decreases b.len() - pos,
{
    if rec_readable(b, pos) {
        if pos + 8 + rec_name_len(b, pos) <= b.len() && rec_name(b, pos) == name {
            assert(rec_name(b, pos).len() == rec_name_len(b, pos));
            assert forall|j: int| 0 <= j < name.len() implies b[pos + 8 + j] == #[trigger] name[j] by {
                assert(rec_name(b, pos)[j] == b[pos + 8 + j]);
            }
        } else if pos + rec_len(b, pos) <= b.len() {
            assert(rec_len(b, pos) >= 0);
            lemma_find_record_exact(b, pos + rec_len(b, pos), pos, name);
        }
    }
}

/// Whether `a[from..from + n]` equals `name`.
fn name_matches(a: &[u8], from: usize, n: usize, name: &[u8]) -> (r: bool)
    requires
        from + n <= a@.len(),
    ensures
        r == (a@.subrange(from as int, from + n) == name@),
{
    let alen = a.len();
    if n != name.len() {
        assert(a@.subrange(from as int, from + n).len() != name@.len());
        return false;
    }
    let mut k: usize = 0;
    while k < n
        invariant
            alen == a@.len(),
            from + n <= alen,
            n == name@.len(),
            k <= n,
            forall|j: int| 0 <= j < k ==> a@[from + j] == name@[j],
        decreases n - k,
    {
        if a[from + k] != name[k] {
            assert(a@.subrange(from as int, from + n)[k as int] != name@[k as int]);
            return false;
        }
        k += 1;
    }
    assert(a@.subrange(from as int, from + n) =~= name@);
    true
}

/// Looks `name` up among the records of directory block `buf`.
pub fn find_in_block(buf: &[u8], name: &[u8]) -> (r: Option<u32>)
    ensures
        r == scan_block(buf@, 0, name@),
{
    let n = buf.len();
    let mut pos: usize = 0;
    while pos < n
        invariant
            n == buf@.len(),
            scan_block(buf@, pos as int, name@) == scan_block(buf@, 0, name@),
        decreases n - pos,
    {
        if n - pos < 8 {
            return None;
        }
        let inode = read_u32(buf, pos);
        let len = read_u16(buf, pos + 4);
        if len == 0 {
            return None;
        }
        let name_len = buf[pos + 6] as usize;
        if inode != 0 && name_len <= n - pos - 8 {
            if name_matches(buf, pos + 8, name_len, name) {
                return Some(inode);
            }
        }
        if len as usize > n - pos {
            return None;
        }
        pos = pos + len as usize;
    }
    None
}

/// The first record named `name` scanning from `pos` (live or not), with the position of
/// the record before it, or -1 for the first record of the block.
pub open spec fn find_record(b: Seq<u8>, pos: int, prev: int, name: Seq<u8>) -> Option<(int, int)>
    decreases b.len() - pos,
{
    if !rec_readable(b, pos) {
        None
    } else if pos + 8 + rec_name_len(b, pos) <= b.len() && rec_name(b, pos) == name {
        Some((pos, prev))
    } else if pos + rec_len(b, pos) > b.len() {
        None
    } else {
        find_record(b, pos + rec_len(b, pos), pos, name)
    }
}

/// A record `find_record` reports is readable, its predecessor comes before it.
pub proof fn lemma_find_record_bounds(b: Seq<u8>, pos: int, prev: int, name: Seq<u8>)
    requires
        prev < pos,
        prev == -1 || (0 <= prev && prev + 8 <= b.len()),
    ensures
        find_record(b, pos, prev, name) matches Some((p, q)) ==> rec_readable(b, p) && q < p && (q == -1 || (0 <= q && q + 8 <= b.len())),
    decreases b.len() - pos,
{
    if rec_readable(b, pos) && !(pos + 8 + rec_name_len(b, pos) <= b.len() && rec_name(b, pos) == name) && pos + rec_len(b, pos)
        <= b.len() {
        lemma_find_record_bounds(b, pos + rec_len(b, pos), pos, name);
    }
}

/// `after` is directory block `before` with record `p` taken out: record `q` before it
/// grows over it (16-bit lengths wrapping around), or, when `p` comes first (`q` is -1),
/// its inode number becomes zero; nothing else changes.
pub open spec fn entry_removed(before: Seq<u8>, after: Seq<u8>, p: int, q: int) -> bool {
    &&& after.len() == before.len()
    &&& if q >= 0 {
        &&& rec_len(after, q) == (rec_len(before, q) + rec_len(before, p)) % 0x10000
        &&& forall|i: int| 0 <= i < before.len() && !(q + 4 <= i < q + 6) ==> #[trigger] after[i] == before[i]
    } else {
        &&& rec_inode(after, p) == 0
        &&& forall|i: int| 0 <= i < before.len() && !(p <= i < p + 4) ==> #[trigger] after[i] == before[i]
    }
}

/// Takes the record named `name` out of directory block `buf`: the record before it grows
/// over it (its 16-bit length wrapping around should the sum not fit), or, for the first
/// record, its inode number becomes zero. Returns the inode number the record held; nothing
/// changes when no record has that name.
pub fn remove_from_block(buf: &mut Vec<u8>, name: &[u8]) -> (r: Option<u32>)
    ensures
        final(buf)@.len() == old(buf)@.len(),
        match find_record(old(buf)@, 0, -1, name@) {
            None => r is None && final(buf)@ == old(buf)@,
            Some((p, q)) => r == Some(rec_inode(old(buf)@, p) as u32) && entry_removed(old(buf)@, final(buf)@, p, q),
        },
{
    let n = buf.len();
    let mut pos: usize = 0;
    let mut prev_rec_len: u16 = 0;
    let mut prev_pos: usize = 0;
    proof {
        lemma_find_record_bounds(buf@, 0, -1, name@);
    }
    while pos < n
        invariant
            n == buf@.len(),
            buf@ == old(buf)@,
            prev_rec_len == 0 <==> pos == 0,
            prev_rec_len > 0 ==> prev_pos < pos && prev_pos + 8 <= n && rec_len(buf@, prev_pos as int) == prev_rec_len,
            find_record(buf@, 0, -1, name@) == find_record(buf@, pos as int, if pos == 0 { -1 } else { prev_pos as int }, name@),
        decreases n - pos,
    {
        if n - pos < 8 {
            return None;
        }
        let len = read_u16(buf.as_slice(), pos + 4);
        if len == 0 {
            return None;
        }
        let name_len = buf[pos + 6] as usize;
        if name_len <= n - pos - 8 {
            if name_matches(buf.as_slice(), pos + 8, name_len, name) {
                let inode_to_free = read_u32(buf.as_slice(), pos);
                if prev_rec_len > 0 {
                    write_u16(buf, prev_pos + 4, prev_rec_len.wrapping_add(len));
                } else {
                    write_u32(buf, pos, 0);
                }
                return Some(inode_to_free);
            }
        }
        if len as usize > n - pos {
            return None;
        }
        prev_pos = pos;
        prev_rec_len = len;
        pos = pos + len as usize;
    }
    None
}

/// The position of the first record named `name` in directory block `buf`, live or not.
pub fn locate_record(buf: &[u8], name: &[u8]) -> (r: Option<usize>)
    ensures
        match find_record(buf@, 0, -1, name@) {
            Some((p, q)) => r == Some(p as usize) && p + 8 <= buf@.len(),
            None => r is None,
        },
{
    let n = buf.len();
    let mut pos: usize = 0;
    let ghost mut prev: int = -1;
    proof {
        lemma_find_record_bounds(buf@, 0, -1, name@);
    }
    while pos < n
        invariant
            n == buf@.len(),
            prev < pos,
            prev == -1 || (0 <= prev && prev + 8 <= n),
            find_record(buf@, 0, -1, name@) == find_record(buf@, pos as int, prev, name@),
        decreases n - pos,
    {
        if n - pos < 8 {
            return None;
        }
        let len = read_u16(buf, pos + 4);
        if len == 0 {
            return None;
        }
        let name_len = buf[pos + 6] as usize;
        if name_len <= n - pos - 8 {
            if name_matches(buf, pos + 8, name_len, name) {
                return Some(pos);
            }
        }
        if len as usize > n - pos {
            return None;
        }
        proof {
            prev = pos as int;
        }
        pos = pos + len as usize;
    }
    None
}

/// `x` rounded up to a multiple of four.
pub open spec fn align4(x: int) -> int {
    (x + 3) / 4 * 4
}

/// The space the record at `pos` uses: its header and name, rounded up to four bytes.
pub open spec fn rec_used(b: Seq<u8>, pos: int) -> int {
    align4(8 + rec_name_len(b, pos))
}

/// The first record from `pos` with room for an entry whose name has `name_len` bytes:
/// spare bytes after what it uses, with the new entry's header and name inside the block.
/// A record shorter than what it uses, or whose spare room reaches past the block, ends the
/// scan.
pub open spec fn fit_record(b: Seq<u8>, pos: int, name_len: int) -> Option<int>
    decreases b.len() - pos,
{
    if !rec_readable(b, pos) {
        None
    } else if rec_len(b, pos) < rec_used(b, pos) {
        None
    } else if rec_len(b, pos) - rec_used(b, pos) >= align4(8 + name_len) {
        if pos + rec_used(b, pos) + 8 + name_len <= b.len() {
            Some(pos)
        } else {
            None
        }
    } else if pos + rec_len(b, pos) > b.len() {
        None
    } else {
        fit_record(b, pos + rec_len(b, pos), name_len)
    }
}

/// The record `fit_record` finds is readable and the new entry fits after it.
pub proof fn lemma_fit_bounds(b: Seq<u8>, pos: int, name_len: int)
    ensures
        fit_record(b, pos, name_len) matches Some(p) ==> rec_readable(b, p) && rec_len(b, p) - rec_used(b, p) >= align4(
            8 + name_len,
        ) && p + rec_used(b, p) + 8 + name_len <= b.len(),
    decreases b.len() - pos,
{
    if rec_readable(b, pos) && rec_len(b, pos) >= rec_used(b, pos) && !(rec_len(b, pos) - rec_used(b, pos) >= align4(8 + name_len))
        && pos + rec_len(b, pos) <= b.len() {
        lemma_fit_bounds(b, pos + rec_len(b, pos), name_len);
    }
}

/// `after` is directory block `before` with an entry for inode `inode_id` named `name` of
/// type `file_type` placed after record `p`: that record shrinks to what it uses and the new
/// record takes the rest of its length; nothing else changes.
pub open spec fn entry_inserted(before: Seq<u8>, after: Seq<u8>, p: int, inode_id: u32, name: Seq<u8>, file_type: u8) -> bool {
    let used = rec_used(before, p);
    let q = p + used;
    &&& after.len() == before.len()
    &&& rec_len(after, p) == used
    &&& rec_inode(after, q) == inode_id
    &&& rec_len(after, q) == rec_len(before, p) - used
    &&& rec_name_len(after, q) == name.len()
    &&& after[q + 7] == file_type
    &&& rec_name(after, q) == name
    &&& forall|i: int|
        0 <= i < before.len() && !(p + 4 <= i < p + 6) && !(q <= i < q + 8 + name.len()) ==> #[trigger] after[i] == before[i]
}

/// A record the room scan finds lies at or after where the scan starts.
proof fn lemma_fit_after(b: Seq<u8>, pos: int, name_len: int)
    ensures
        fit_record(b, pos, name_len) matches Some(p) ==> pos <= p,
    decreases b.len() - pos,
{
    if rec_readable(b, pos) && rec_len(b, pos) >= rec_used(b, pos) && !(rec_len(b, pos) - rec_used(b, pos) >= align4(8 + name_len))
        && pos + rec_len(b, pos) <= b.len() {
        lemma_fit_after(b, pos + rec_len(b, pos), name_len);
    }
}

proof fn lemma_insert_find_from(before: Seq<u8>, after: Seq<u8>, pos: int, p: int, inode_id: u32, name: Seq<u8>, file_type: u8)
    requires
        0 <= pos <= p,
        fit_record(before, pos, name.len() as int) == Some(p),
        entry_inserted(before, after, p, inode_id, name, file_type),
        scan_block(before, pos, name) is None,
        inode_id != 0,
    ensures
        scan_block(after, pos, name) == Some(inode_id),
    decreases p - pos,
{
    let nl = name.len() as int;
    lemma_fit_bounds(before, pos, nl);
    let used = rec_used(before, p);
    let q = p + used;
    assert(align4(8 + rec_name_len(before, p)) >= 8 + rec_name_len(before, p));
    assert(align4(8 + nl) >= 8 + nl);
    if pos == p {
        assert forall|i: int| p <= i < q && !(p + 4 <= i < p + 6) implies #[trigger] after[i] == before[i] by {}
        assert(rec_inode(after, p) == rec_inode(before, p));
        assert(after[p + 6] == before[p + 6]);
        assert(rec_name(after, p) =~= rec_name(before, p));
        assert(!(rec_live(before, p) && rec_name(before, p) == name));
        assert(rec_len(after, p) == used);
        assert(rec_readable(after, p));
        assert(rec_len(after, q) == rec_len(before, p) - used);
        assert(rec_readable(after, q));
        assert(rec_live(after, q));
        assert(rec_name(after, q) == name);
        assert(rec_inode(after, q) as u32 == inode_id);
        assert(scan_block(after, q, name) == Some(inode_id));
        assert(p + rec_len(after, p) <= after.len());
    } else {
        let nxt = pos + rec_len(before, pos);
        assert(rec_readable(before, pos));
        assert(rec_len(before, pos) >= rec_used(before, pos));
        assert(align4(8 + rec_name_len(before, pos)) >= 8 + rec_name_len(before, pos));
        assert(fit_record(before, nxt, nl) == Some(p));
        lemma_fit_after(before, nxt, nl);
        assert(nxt <= p);
        assert forall|i: int| pos <= i < pos + 8 + rec_name_len(before, pos) implies #[trigger] after[i] == before[i] by {}
        assert(rec_inode(after, pos) == rec_inode(before, pos));
        assert(rec_len(after, pos) == rec_len(before, pos));
        assert(after[pos + 6] == before[pos + 6]);
        assert(rec_name(after, pos) =~= rec_name(before, pos));
        assert(!(rec_live(before, pos) && rec_name(before, pos) == name));
        assert(scan_block(before, nxt, name) is None);
        lemma_insert_find_from(before, after, nxt, p, inode_id, name, file_type);
    }
}

/// Inserting an entry for a name the block does not hold yet makes a lookup of that name
/// answer the new entry's inode.
pub proof fn lemma_insert_then_find(before: Seq<u8>, after: Seq<u8>, inode_id: u32, name: Seq<u8>, file_type: u8)
    requires
        fit_record(before, 0, name.len() as int) matches Some(p) && entry_inserted(before, after, p, inode_id, name, file_type),
        scan_block(before, 0, name) is None,
        inode_id != 0,
    ensures
        scan_block(after, 0, name) == Some(inode_id),
{
    let p = fit_record(before, 0, name.len() as int)->0;
    lemma_fit_after(before, 0, name.len() as int);
    lemma_insert_find_from(before, after, 0, p, inode_id, name, file_type);
}

/// Adds an entry for inode `inode_id` named `name` to directory block `buf`, in the first
/// record with room after its own name: that record shrinks to what it uses and the new
/// record takes the rest. Returns whether there was room; nothing changes when not.
pub fn insert_into_block(buf: &mut Vec<u8>, inode_id: u32, name: &[u8], file_type: u8) -> (r: bool)
    requires
        name@.len() <= 255,
    ensures
        final(buf)@.len() == old(buf)@.len(),
        match fit_record(old(buf)@, 0, name@.len() as int) {
            None => !r && final(buf)@ == old(buf)@,
            Some(p) => r && entry_inserted(old(buf)@, final(buf)@, p, inode_id, name@, file_type),
        },
{
    let n = buf.len();
    let name_len = name.len();
    let needed = (8 + name_len + 3) / 4 * 4;
    let mut pos: usize = 0;
    while pos < n
        invariant
            n == buf@.len(),
            buf@ == old(buf)@,
            name_len == name@.len(),
            name_len <= 255,
            needed == align4(8 + name_len),
            fit_record(buf@, 0, name_len as int) == fit_record(buf@, pos as int, name_len as int),
        decreases n - pos,
    {
        if n - pos < 8 {
            return false;
        }
        let len = read_u16(buf.as_slice(), pos + 4) as usize;
        if len == 0 {
            return false;
        }
        let used_len = 8 + buf[pos + 6] as usize;
        let used_aligned = (used_len + 3) / 4 * 4;
        if len < used_aligned {
            return false;
        }
        let available = len - used_aligned;
        if available >= needed {
            if used_aligned + 8 + name_len > n - pos {
                return false;
            }
            let ghost b0 = buf@;
            write_u16(buf, pos + 4, used_aligned as u16);
            let next = pos + used_aligned;
            write_u32(buf, next, inode_id);
            write_u16(buf, next + 4, (len - used_aligned) as u16);
            buf.set(next + 6, name_len as u8);
            buf.set(next + 7, file_type);
            let ghost b1 = buf@;
            let mut k: usize = 0;
            while k < name_len
                invariant
                    n == buf@.len(),
                    n == b1.len(),
                    next + 8 + name_len <= n,
                    name_len == name@.len(),
                    k <= name_len,
                    forall|i: int| 0 <= i < n && !(next + 8 <= i < next + 8 + k) ==> #[trigger] buf@[i] == b1[i],
                    forall|j: int| 0 <= j < k ==> #[trigger] buf@[next + 8 + j] == name@[j],
                decreases name_len - k,
            {
                buf.set(next + 8 + k, name[k]);
                k += 1;
            }
            proof {
                assert(b1[next + 6] == name_len as u8);
                assert(buf@[next + 6] == b1[next + 6]);
                assert(rec_name_len(buf@, next as int) == name_len);
                assert forall|j: int| 0 <= j < name_len implies #[trigger] rec_name(buf@, next as int)[j] == name@[j] by {
                    assert(rec_name(buf@, next as int)[j] == buf@[next + 8 + j]);
                }
                assert(rec_name(buf@, next as int).len() == name_len);
                assert(rec_name(buf@, next as int) =~= name@);
                assert(crate::fs::bytes::le16(buf@, pos + 4) == crate::fs::bytes::le16(b1, pos + 4));
                assert(crate::fs::bytes::le32(buf@, next as int) == crate::fs::bytes::le32(b1, next as int));
                assert(crate::fs::bytes::le16(buf@, next + 4) == crate::fs::bytes::le16(b1, next + 4));
            }
            return true;
        }
        if len > n - pos {
            return false;
        }
        pos = pos + len;
    }
    false
}

} // verus!
