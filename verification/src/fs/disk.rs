use vstd::prelude::*;

verus! {

/// Bytes per disk sector.
pub const SECTOR_SIZE: u64 = 512;

/// Number of whole sectors a transfer of `len` bytes touches.
pub open spec fn sectors_for(len: int) -> int {
    (len + 511) / 512
}

/// The byte at `pos` after writing `data` at sector `lba`: the transfer covers whole sectors,
/// the part past the end of `data` is filled with zeros.
pub open spec fn after_write(old_byte: u8, lba: int, data: Seq<u8>, pos: int) -> u8 {
    let start = lba * 512;
    if start <= pos < start + sectors_for(data.len() as int) * 512 {
        if pos - start < data.len() {
            data[pos - start]
        } else {
            0
        }
    } else {
        old_byte
    }
}

/// A disk addressed by 512-byte sectors.
pub trait BlockDevice {
    /// Capacity in bytes.
    spec fn size(&self) -> nat;

    /// The byte stored at `pos`.
    spec fn byte(&self, pos: int) -> u8;

    /// Reads `buffer.len()` bytes starting at sector `lba`.
    fn read(&self, lba: u64, buffer: &mut [u8])
        ensures
            final(buffer)@.len() == old(buffer)@.len(),
            forall|i: int| 0 <= i < final(buffer)@.len() ==> #[trigger] final(buffer)@[i] == self.byte(lba * 512 + i),
    ;

    /// Writes `buffer` starting at sector `lba`, zero-filling the rest of the last sector;
    /// what falls past the end of the disk is dropped.
    fn write(&mut self, lba: u64, buffer: &[u8])
        ensures
            final(self).size() == old(self).size(),
            forall|pos: int| #[trigger] final(self).byte(pos) == if pos < old(self).size() {
                after_write(old(self).byte(pos), lba as int, buffer@, pos)
            } else {
                old(self).byte(pos)
            },
    ;
}

/// A disk held in memory; bytes past its end read as zero.
pub struct MemDisk {
    pub data: Vec<u8>,
}

impl BlockDevice for MemDisk {
    open spec fn size(&self) -> nat {
        self.data@.len()
    }

    open spec fn byte(&self, pos: int) -> u8 {
        if 0 <= pos < self.data@.len() {
            self.data@[pos]
        } else {
            0
        }
    }

    fn read(&self, lba: u64, buffer: &mut [u8]) {
        let n = self.data.len();
        let in_range = lba <= (n / 512) as u64;
        let start: usize = if in_range { lba as usize * 512 } else { n };
        let mut i: usize = 0;
        while i < buffer.len()
            invariant
                n == self.data@.len(),
                start <= n,
                in_range ==> start == lba * 512,
                !in_range ==> lba * 512 >= n,
                buffer@.len() == old(buffer)@.len(),
                i <= buffer@.len(),
                forall|k: int| 0 <= k < i ==> #[trigger] buffer@[k] == self.byte(lba * 512 + k),
            decreases buffer@.len() - i,
        {
            let v = if in_range && i < n - start { self.data[start + i] } else { 0 };
            buffer[i] = v;
            i += 1;
        }
    }

    fn write(&mut self, lba: u64, buffer: &[u8]) {
        let n = self.data.len();
        let ghost d0 = self.data@;
        if lba > (n / 512) as u64 {
            assert forall|pos: int| #[trigger] self.byte(pos) == if pos < d0.len() {
                after_write(if 0 <= pos < d0.len() { d0[pos] } else { 0 }, lba as int, buffer@, pos)
            } else {
                if 0 <= pos < d0.len() { d0[pos] } else { 0 }
            } by {
                assert(lba * 512 >= n);
            }
            return;
        }
        let start = lba as usize * 512;
        let room = n - start;
        let mut j: usize = 0;
        while j < room && j / 512 * 512 < buffer.len()
            invariant
                start == lba * 512,
                room == n - start,
                n == d0.len(),
                self.data@.len() == d0.len(),
                j <= room,
                j <= sectors_for(buffer@.len() as int) * 512,
                forall|k: int|
                    0 <= k < d0.len() ==> #[trigger] self.data@[k] == if start <= k < start + j {
                        if k - start < buffer@.len() {
                            buffer@[k - start]
                        } else {
                            0
                        }
                    } else {
                        d0[k]
                    },
            decreases room - j,
        {
            proof {
                assert(j + 1 <= sectors_for(buffer@.len() as int) * 512) by (nonlinear_arith)
                    requires
                        j / 512 * 512 < buffer@.len(),
                        j >= 0,
                ;
            }
            let v = if j < buffer.len() { buffer[j] } else { 0 };
            self.data.set(start + j, v);
            j += 1;
        }
        proof {
            assert(j == room || j == sectors_for(buffer@.len() as int) * 512) by (nonlinear_arith)
                requires
                    j >= room || j / 512 * 512 >= buffer@.len(),
                    j <= room,
                    j <= sectors_for(buffer@.len() as int) * 512,
                    j >= 0,
            ;
        }
    }
}

} // verus!
