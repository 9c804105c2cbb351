use vstd::prelude::*;
use crate::window_manager::composer::MAX_WINDOWS;
use crate::window_manager::events::KeyboardEvent;
use crate::window_manager::input::{first_id_from, lemma_first_id_skip};
use crate::window_manager::window::Window;

verus! {

/// What the processor pushes when it enters an interrupt handler.
#[derive(Clone, Copy, Debug)]
pub struct StackFrame {
    pub instruction_pointer: u64,
    pub code_segment: u64,
    pub cpu_flags: u64,
    pub stack_pointer: u64,
    pub stack_segment: u64,
}

pub const NET_INT: u8 = 43;

pub const TIMER_INT: u8 = 32;

pub const KEYBOARD_INT: u8 = 33;

pub const MOUSE_INT: u8 = 44;

pub const YIELD_INT: u8 = 129;

/// The lowercase hexadecimal digit for a nibble.
pub open spec fn hex_digit(v: int) -> u8 {
    if v < 10 {
        (48 + v) as u8
    } else {
        (97 + v - 10) as u8
    }
}

/// The hexadecimal digits of `n`, most significant first, without leading zeros.
pub open spec fn hex_digits(n: nat) -> Seq<u8>
    decreases n,
{
    if n < 16 {
        seq![hex_digit(n as int)]
    } else {
        hex_digits(n / 16).push(hex_digit((n % 16) as int))
    }
}

/// The text printed for a number in exception reports: "0x" and its hexadecimal digits.
pub fn hex_text(n: u64) -> (t: Vec<u8>)
    ensures
        t@ == seq![48u8, 120u8] + hex_digits(n as nat),
{
    let mut t: Vec<u8> = Vec::new();
    t.push(48u8);
    t.push(120u8);
    if n == 0 {
        t.push(48u8);
        proof {
            assert(t@ =~= seq![48u8, 120u8] + hex_digits(0));
        }
        return t;
    }
    let mut m = n;
    let ghost mut tail: Seq<u8> = Seq::empty();
    while m > 0
        invariant
            t@ == seq![48u8, 120u8] + tail,
            m > 0 ==> hex_digits(n as nat) == hex_digits(m as nat) + tail,
            m == 0 ==> hex_digits(n as nat) == tail,
        decreases m,
    {
        let nibble = m % 16;
        let c = if nibble < 10 { 48u8 + nibble as u8 } else { 97u8 + (nibble as u8 - 10) };
        proof {
            assert(c == hex_digit(nibble as int));
            if m >= 16 {
                assert(hex_digits(m as nat) == hex_digits((m / 16) as nat).push(c));
                assert(hex_digits(m as nat) + tail =~= hex_digits((m / 16) as nat) + (seq![c] + tail));
            } else {
                assert(hex_digits(m as nat) =~= seq![c]);
            }
            tail = seq![c] + tail;
        }
        t.insert(2, c);
        m = m / 16;
        proof {
            assert(t@ =~= seq![48u8, 120u8] + tail);
        }
    }
    t
}

/// What a key from the keyboard leads to.
#[derive(Debug, Clone, Copy, PartialEq, Eq)]
pub enum KeyAction {
    /// Nothing to do.
    Nothing,
    /// Super+p: list the frame allocations.
    ShowAllocations,
    /// Super+t: start a terminal.
    SpawnTerminal,
    /// Super+x: end the process that owns the active window.
    KillProcess(u64),
    /// An ordinary key: whether it goes into the keyboard buffer (when pressed), and the
    /// event for the active window when it has an event handler.
    Deliver { buffer: bool, event: Option<KeyboardEvent> },
}

/// The action for `key` (pressed or released) with the Super key held or not, `active`
/// being the id of the window last clicked (0 for none): under Super, a press of p, t or x/X
/// is a shortcut (x only when a window holds that id) and everything else does nothing;
/// otherwise a press goes to the buffer, and the first window with the active id gets the
/// key as an event when it has an event handler.
pub open spec fn key_action_spec(key: u32, pressed: bool, super_active: bool, active: usize, ws: Seq<Window>) -> KeyAction {
    let k = first_id_from(ws, active, 0);
    if super_active {
        if !pressed {
            KeyAction::Nothing
        } else if key == 0x70 {
            KeyAction::ShowAllocations
        } else if key == 0x74 {
            KeyAction::SpawnTerminal
        } else if (key == 0x78 || key == 0x58) && active != 0 && k >= 0 {
            KeyAction::KillProcess(ws[k].pid)
        } else {
            KeyAction::Nothing
        }
    } else {
        KeyAction::Deliver {
            buffer: pressed,
            event: if active != 0 && k >= 0 && ws[k].event_handler != 0 {
                Some(KeyboardEvent { wid: active as u32, key, repeat: 1 })
            } else {
                None
            },
        }
    }
}

/// The first slot holding window `id`, or `None`.
fn slot_with_id(windows: &[Window; MAX_WINDOWS], id: usize) -> (r: Option<usize>)
    ensures
        first_id_from(windows@, id, 0) < 0 ==> r is None,
        first_id_from(windows@, id, 0) >= 0 ==> r == Some(first_id_from(windows@, id, 0) as usize),
        r matches Some(i) ==> i < MAX_WINDOWS && i as int == first_id_from(windows@, id, 0),
{
    let mut i: usize = 0;
    while i < MAX_WINDOWS
        invariant
            i <= MAX_WINDOWS,
            forall|k: int| 0 <= k < i ==> #[trigger] windows@[k].id != id,
        decreases MAX_WINDOWS - i,
    {
        if windows[i].id == id {
            proof {
                lemma_first_id_skip(windows@, id, 0, i as int);
            }
            return Some(i);
        }
        i += 1;
    }
    proof {
        lemma_first_id_skip(windows@, id, 0, MAX_WINDOWS as int);
    }
    None
}

/// Decides what the keyboard interrupt does with `key`, as `key_action_spec` says; listing
/// allocations, spawning, killing and queueing are the caller's part.
pub fn key_action(key: u32, pressed: bool, super_active: bool, active: usize, windows: &[Window; MAX_WINDOWS]) -> (a: KeyAction)
    ensures
        a == key_action_spec(key, pressed, super_active, active, windows@),
{
    let slot = slot_with_id(windows, active);
    let ghost k = first_id_from(windows@, active, 0);
    let (found, pid, handler) = match slot {
        Some(i) => (true, windows[i].pid, windows[i].event_handler),
        None => (false, 0, 0),
    };
    assert(found <==> k >= 0);
    assert(found ==> pid == windows@[k].pid && handler == windows@[k].event_handler);
    if super_active {
        if !pressed {
            KeyAction::Nothing
        } else if key == 0x70 {
            KeyAction::ShowAllocations
        } else if key == 0x74 {
            KeyAction::SpawnTerminal
        } else if (key == 0x78 || key == 0x58) && active != 0 && found {
            KeyAction::KillProcess(pid)
        } else {
            KeyAction::Nothing
        }
    } else {
        let event = if active != 0 && found && handler != 0 {
            Some(KeyboardEvent { wid: #[verifier::truncate] (active as u32), key, repeat: 1 })
        } else {
            None
        };
        KeyAction::Deliver { buffer: pressed, event }
    }
}

} // verus!
