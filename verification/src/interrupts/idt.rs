use vstd::prelude::*;
use crate::interrupts::exceptions::{KEYBOARD_INT, MOUSE_INT, TIMER_INT};

verus! {

/// Number of interrupt vectors.
pub const IDT_ENTRIES: usize = 256;

/// Kernel code segment selector used by every gate.
pub const KERNEL_CODE_SELECTOR: u16 = 0x28;

/// Present, ring-0, 64-bit interrupt gate.
pub const GATE_RING_0: u16 = 0x8E00;

/// Present, ring-3, 64-bit interrupt gate (callable from user mode).
pub const GATE_RING_3: u16 = 0xEE00;

/// One 16-byte interrupt gate; the handler address is split in three parts.
#[derive(Copy, Clone, Debug)]
pub struct Entry {
    pub pointer_low: u16,
    pub gdt_selector: u16,
    pub options: u16,
    pub pointer_middle: u16,
    pub pointer_high: u32,
    pub reserved: u32,
}

/// The handler address a gate points to.
pub open spec fn entry_target(e: Entry) -> int {
    e.pointer_low + e.pointer_middle * 0x10000 + e.pointer_high * 0x1_0000_0000
}

/// A gate to `offset` with the given options.
pub open spec fn gate(offset: u64, options: u16) -> Entry {
    Entry {
        pointer_low: (offset % 0x10000) as u16,
        gdt_selector: KERNEL_CODE_SELECTOR,
        options,
        pointer_middle: ((offset / 0x10000) % 0x10000) as u16,
        pointer_high: (offset / 0x1_0000_0000) as u32,
        reserved: 0,
    }
}

/// The three parts of a gate put back together give the handler address.
pub proof fn lemma_gate_target(offset: u64, options: u16)
    ensures
        entry_target(gate(offset, options)) == offset,
{
    let lo = offset % 0x10000;
    let mid = (offset / 0x10000) % 0x10000;
    let hi = offset / 0x1_0000_0000;
    assert(offset / 0x10000 == mid + (offset / 0x1_0000_0000) * 0x10000) by (nonlinear_arith)
        requires
            mid == (offset / 0x10000) % 0x10000,
    {
        vstd::arithmetic::div_mod::lemma_fundamental_div_mod((offset / 0x10000) as int, 0x10000);
        vstd::arithmetic::div_mod::lemma_div_denominator(offset as int, 0x10000, 0x10000);
    }
    assert(offset == lo + (offset / 0x10000) * 0x10000) by (nonlinear_arith)
        requires
            lo == offset % 0x10000,
    {
        vstd::arithmetic::div_mod::lemma_fundamental_div_mod(offset as int, 0x10000);
    }
    assert(entry_target(gate(offset, options)) == lo + mid * 0x10000 + hi * 0x1_0000_0000) by (nonlinear_arith)
        requires
            lo == offset % 0x10000,
            mid == (offset / 0x10000) % 0x10000,
            hi == offset / 0x1_0000_0000,
            hi < 0x1_0000_0000,
    ;
}

impl Entry {
    /// An empty gate.
    pub fn empty() -> (e: Entry)
        ensures
            e == (Entry {
                pointer_low: 0,
                gdt_selector: 0,
                options: 0,
                pointer_middle: 0,
                pointer_high: 0,
                reserved: 0,
            }),
    {
        Entry { pointer_low: 0, gdt_selector: 0, options: 0, pointer_middle: 0, pointer_high: 0, reserved: 0 }
    }

    /// Points the entry at `offset`, callable from the kernel only.
    pub fn set(&mut self, offset: u64)
        ensures
            *final(self) == gate(offset, GATE_RING_0),
    {
        self.gdt_selector = KERNEL_CODE_SELECTOR;
        assert((offset & 0xFFFFu64) as u16 == offset % 0x10000) by (bit_vector);
        assert(((offset >> 16u64) & 0xFFFFu64) as u16 == (offset / 0x10000) % 0x10000) by (bit_vector);
        assert((offset >> 32u64) as u32 == offset / 0x1_0000_0000) by (bit_vector);
        self.pointer_low = (offset & 0xFFFF) as u16;
        self.pointer_middle = ((offset >> 16) & 0xFFFF) as u16;
        self.pointer_high = (offset >> 32) as u32;
        self.options = GATE_RING_0;
        self.reserved = 0;
    }

    /// Points the entry at `offset`, callable from user mode too.
    pub fn set_ring_3(&mut self, offset: u64)
        ensures
            *final(self) == gate(offset, GATE_RING_3),
    {
        self.gdt_selector = KERNEL_CODE_SELECTOR;
        assert((offset & 0xFFFFu64) as u16 == offset % 0x10000) by (bit_vector);
        assert(((offset >> 16u64) & 0xFFFFu64) as u16 == (offset / 0x10000) % 0x10000) by (bit_vector);
        assert((offset >> 32u64) as u32 == offset / 0x1_0000_0000) by (bit_vector);
        self.pointer_low = (offset & 0xFFFF) as u16;
        self.pointer_middle = ((offset >> 16) & 0xFFFF) as u16;
        self.pointer_high = (offset >> 32) as u32;
        self.options = GATE_RING_3;
        self.reserved = 0;
    }
}

/// Handler addresses of the processor exceptions the kernel handles.
#[derive(Copy, Clone, Debug)]
pub struct ExceptionHandlers {
    pub div_error: u64,
    pub bounds: u64,
    pub invalid_opcode: u64,
    pub double_fault: u64,
    pub general_protection_fault: u64,
    pub page_fault: u64,
}

/// The interrupt descriptor table.
pub struct Idt {
    pub entries: [Entry; IDT_ENTRIES],
}

impl Idt {
    /// A table of empty gates.
    pub fn new() -> (idt: Idt)
        ensures
            forall|i: int| 0 <= i < IDT_ENTRIES ==> #[trigger] idt.entries@[i] == (Entry {
                pointer_low: 0,
                gdt_selector: 0,
                options: 0,
                pointer_middle: 0,
                pointer_high: 0,
                reserved: 0,
            }),
    {
        Idt { entries: [Entry::empty(); IDT_ENTRIES] }
    }

    /// Points every vector at `generic_handler`.
    pub fn init(&mut self, generic_handler: u64)
        ensures
            forall|i: int| 0 <= i < IDT_ENTRIES ==> #[trigger] final(self).entries@[i] == gate(
                generic_handler,
                GATE_RING_0,
            ),
    {
        let mut i: usize = 0;
        while i < IDT_ENTRIES
            invariant
                i <= IDT_ENTRIES,
                forall|j: int| 0 <= j < i ==> #[trigger] self.entries@[j] == gate(
                    generic_handler,
                    GATE_RING_0,
                ),
            decreases IDT_ENTRIES - i,
        {
            self.add(i, generic_handler);
            i += 1;
        }
    }

    /// Installs a kernel-only gate for vector `vector`.
    pub fn add(&mut self, vector: usize, handler: u64)
        requires
            vector < IDT_ENTRIES,
        ensures
            final(self).entries@ == old(self).entries@.update(vector as int, gate(handler, GATE_RING_0)),
    {
        let mut e = self.entries[vector];
        e.set(handler);
        self.entries[vector] = e;
    }

    /// Installs a gate for vector `vector` that user mode may invoke.
    pub fn add_ring_3(&mut self, vector: usize, handler: u64)
        requires
            vector < IDT_ENTRIES,
        ensures
            final(self).entries@ == old(self).entries@.update(vector as int, gate(handler, GATE_RING_3)),
    {
        let mut e = self.entries[vector];
        e.set_ring_3(handler);
        self.entries[vector] = e;
    }

    /// Installs the processor exception handlers: divide error (0), bound range (5), invalid
    /// opcode (6), double fault (8), general protection (13) and page fault (14).
    pub fn processor_exceptions(&mut self, h: ExceptionHandlers)
        ensures
            final(self).entries@ == old(self).entries@.update(0, gate(h.div_error, GATE_RING_0)).update(
                5,
                gate(h.bounds, GATE_RING_0),
            ).update(6, gate(h.invalid_opcode, GATE_RING_0)).update(
                8,
                gate(h.double_fault, GATE_RING_0),
            ).update(0xd, gate(h.general_protection_fault, GATE_RING_0)).update(
                0xe,
                gate(h.page_fault, GATE_RING_0),
            ),
    {
        self.add(0x0, h.div_error);
        self.add(0x5, h.bounds);
        self.add(0x6, h.invalid_opcode);
        self.add(0x8, h.double_fault);
        self.add(0xd, h.general_protection_fault);
        self.add(0xe, h.page_fault);
    }

    /// Installs the timer, keyboard and mouse interrupt handlers on their vectors.
    pub fn hardware_interrupts(&mut self, timer: u64, keyboard: u64, mouse: u64)
        ensures
            final(self).entries@ == old(self).entries@.update(TIMER_INT as int, gate(timer, GATE_RING_0)).update(
                KEYBOARD_INT as int,
                gate(keyboard, GATE_RING_0),
            ).update(MOUSE_INT as int, gate(mouse, GATE_RING_0)),
    {
        self.add(TIMER_INT as usize, timer);
        self.add(KEYBOARD_INT as usize, keyboard);
        self.add(MOUSE_INT as usize, mouse);
    }
}

} // verus!
