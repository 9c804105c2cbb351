use vstd::prelude::*;
use crate::drivers::rtc::{get_time, rtc_time};
use crate::memory::pmm::{StructPmm, total_pages, pid_pages, PAGE_SIZE};

verus! {

/// The time of day packed as a call answers it: hours in bits 16 and up, minutes in bits 8
/// to 15, seconds in bits 0 to 7.
pub open spec fn packed_time(t: (u8, u8, u8)) -> int {
    t.0 * 65536 + t.1 * 256 + t.2
}

/// Answers the time call from the raw CMOS seconds, minutes, hours and status B registers.
pub fn handle_time(second: u8, minute: u8, hour: u8, register_b: u8) -> (r: u64)
    ensures
        r == packed_time(rtc_time(second, minute, hour, register_b)),
{
    let (h, m, s) = get_time(second, minute, hour, register_b);
    let r = ((h as u64) << 16) | ((m as u64) << 8) | (s as u64);
    proof {
        assert(((h as u64) << 16) | ((m as u64) << 8) | (s as u64) == (h as u64) * 65536 + (m as u64) * 256 + (s as u64)) by (bit_vector);
    }
    r
}

/// Unmapping is accepted and does nothing.
pub fn handle_munmap(_addr: u64, _len: u64) -> (r: u64)
    ensures
        r == 0,
{
    0
}

/// The bytes of physical memory process `pid` holds.
pub fn handle_get_process_mem(pmm: &StructPmm, pid: u64) -> (r: u64)
    requires
        pmm.wf(),
        total_pages(pmm@) * PAGE_SIZE <= usize::MAX,
    ensures
        r == pid_pages(pmm@, pid) * PAGE_SIZE,
{
    pmm.get_memory_usage_by_pid(pid) as u64
}

} // verus!
