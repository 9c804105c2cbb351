use lib::debug::SerialDebug;
use lib::drivers::keyboard::{KeyboardState, KEY_ENTER, KEY_LEFT};
use lib::drivers::rtc::get_time;
use lib::fs::pipe::{Pipe, PIPE_SIZE};
use lib::interrupts::exceptions::hex_text;
use lib::interrupts::syscalls::misc::handle_time;
use lib::memory::pmm::{init, MemoryMapEntry, MMAP_ENTRIES};
use lib::window_manager::display::Color;
use lib::window_manager::events::{Event, EventQueue, KeyboardEvent, ResizeEvent};

#[test]
fn pipe_is_first_in_first_out() {
    let mut p = Pipe::new();
    assert_eq!(p.write(b"hello "), 6);
    assert_eq!(p.write(b"world"), 5);
    assert_eq!(p.available(), 11);
    let mut buf = [0u8; 8];
    assert_eq!(p.read(&mut buf), 8);
    assert_eq!(&buf, b"hello wo");
    let mut rest = [0u8; 8];
    assert_eq!(p.read(&mut rest), 3);
    assert_eq!(&rest[..3], b"rld");
    assert_eq!(p.available(), 0);
}

#[test]
fn pipe_holds_at_most_its_capacity() {
    let mut p = Pipe::new();
    let big = vec![7u8; PIPE_SIZE + 10];
    assert_eq!(p.write(&big), PIPE_SIZE);
    assert_eq!(p.write(b"x"), 0);
    let mut buf = vec![0u8; 100];
    assert_eq!(p.read(&mut buf), 100);
    assert_eq!(p.write(b"abc"), 3);
    assert_eq!(p.available(), PIPE_SIZE - 100 + 3);
}

#[test]
fn closed_pipe_refuses_writes_but_drains() {
    let mut p = Pipe::new();
    assert_eq!(p.write(b"left"), 4);
    p.close();
    assert!(p.is_closed());
    assert_eq!(p.write(b"more"), 0);
    let mut buf = [0u8; 4];
    assert_eq!(p.read(&mut buf), 4);
    assert_eq!(&buf, b"left");
}

#[test]
fn scancodes_give_keys_with_modifiers() {
    let mut k = KeyboardState::new();
    assert_eq!(k.handle_scancode(0x1E), Some(0x61));
    assert_eq!(k.handle_scancode(0x2A), None);
    assert_eq!(k.handle_scancode(0x1E), Some(0x41));
    assert_eq!(k.handle_scancode(0x02), Some(0x21));
    assert_eq!(k.handle_scancode(0xAA), None);
    assert_eq!(k.handle_scancode(0x02), Some(0x31));
    assert_eq!(k.handle_scancode(0x1C), Some(KEY_ENTER));
    assert_eq!(k.handle_scancode(0x4B), None);
    assert_eq!(k.handle_scancode(0xE0), None);
    assert_eq!(k.handle_scancode(0x4B), Some(KEY_LEFT));
    assert!(!k.is_super_active());
    assert_eq!(k.handle_scancode(0xE0), None);
    assert_eq!(k.handle_scancode(0x5B), None);
    assert!(k.is_super_active());
    assert_eq!(k.handle_scancode(0xE0), None);
    assert_eq!(k.handle_scancode(0xDB), None);
    assert!(!k.is_super_active());
}

#[test]
fn rtc_registers_decode_bcd_and_12_hour_time() {
    assert_eq!(get_time(0x45, 0x30, 0x12, 0x02), (12, 30, 45));
    assert_eq!(get_time(45, 30, 12, 0x06), (12, 30, 45));
    assert_eq!(get_time(0x05, 0x00, 0x81, 0x00), (13, 0, 5));
    assert_eq!(get_time(0x45, 0x30, 0x81, 0x00), (13, 30, 45));
    assert_eq!(get_time(5, 0, 0x8B, 0x04), (23, 0, 5));
}

#[test]
fn serial_output_expands_newlines_and_masks_controls() {
    let mut s = SerialDebug::new();
    s.write_string("ok\n");
    s.write_byte(b'!');
    s.write_kb("\x01z");
    assert_eq!(s.out, vec![b'o', b'k', 13, 10, b'!', 0xFE, b'z']);
}

#[test]
fn hex_text_prints_sixteen_digits() {
    assert_eq!(hex_text(0xDEADBEEF), b"0xdeadbeef".to_vec());
    assert_eq!(hex_text(0), b"0x0".to_vec());
}

#[test]
fn colours_convert_between_pixel_formats() {
    let c = Color::rgb(255, 128, 8);
    assert_eq!(c.a, 255);
    assert_eq!(c.to_u16(), 0xFC01);
    assert_eq!(c.to_u32(), 0xFFFF8008);
    assert_eq!(c.to_u24(), [8, 128, 255]);
    let back = Color::from_u16(0xFC01);
    assert_eq!((back.r, back.g, back.b, back.a), (255, 130, 8, 255));
    let rgba = Color::from_u32(0x11223344);
    assert_eq!((rgba.r, rgba.g, rgba.b, rgba.a), (0x11, 0x22, 0x33, 0x44));
    let rgb = Color::from_u24(0xAABBCC);
    assert_eq!((rgb.r, rgb.g, rgb.b, rgb.a), (0xAA, 0xBB, 0xCC, 0xFF));
    assert_eq!(Color::new(), Color::rgba(0, 0, 0, 0));
}

fn key(wid: u32, k: u32) -> Event {
    Event::Keyboard(KeyboardEvent { wid, key: k, repeat: 0 })
}

#[test]
fn events_are_taken_per_window_in_order() {
    let mut q = EventQueue::new();
    q.add_event(key(1, 0x61));
    q.add_event(Event::Resize(ResizeEvent { wid: 2, width: 10, height: 20 }));
    q.add_event(key(1, 0x62));
    let mine = q.get_and_remove_events(1, 10);
    assert_eq!(mine, vec![
        Event::Keyboard(KeyboardEvent { wid: 1, key: 0x61, repeat: 1 }),
        Event::Keyboard(KeyboardEvent { wid: 1, key: 0x62, repeat: 1 })
    ]);
    let theirs = q.get_and_remove_events(2, 10);
    assert_eq!(theirs.len(), 1);
    assert_eq!(theirs[0].get_window_id(), 2);
    assert!(q.get_and_remove_events(2, 10).is_empty());
}

#[test]
fn repeated_keys_merge_into_one_event() {
    let mut q = EventQueue::new();
    q.add_event(key(3, 0x20));
    q.add_event(key(3, 0x20));
    q.add_event(key(3, 0x20));
    let got = q.get_and_remove_events(3, 5);
    assert_eq!(got, vec![Event::Keyboard(KeyboardEvent { wid: 3, key: 0x20, repeat: 3 })]);
}

#[test]
fn event_limit_per_call_is_respected() {
    let mut q = EventQueue::new();
    for i in 0..5u32 {
        q.add_event(key(4, 0x30 + i));
    }
    assert_eq!(q.get_and_remove_events(4, 2).len(), 2);
    assert_eq!(q.get_and_remove_events(4, 10).len(), 3);
    q.add_event(key(4, 1));
    q.reset_queue();
    assert!(q.get_and_remove_events(4, 10).is_empty());
}

#[test]
fn frames_are_allocated_first_fit_above_low_memory() {
    let mut mmap = [MemoryMapEntry { base: 0, length: 0, memory_type: 0 }; MMAP_ENTRIES];
    mmap[0] = MemoryMapEntry { base: 0, length: 0x2000000, memory_type: 1 };
    let mut pmm = init(mmap);
    assert_eq!(pmm.get_total_memory(), 0x2000000);
    let a = pmm.allocate_frame(7).unwrap();
    assert_eq!(a, 0xA00000);
    let b = pmm.allocate_frames(3, 8).unwrap();
    assert_eq!(b, 0xA01000);
    assert_eq!(pmm.get_memory_usage_by_pid(8), 3 * 4096);
    let freed = pmm.free_frame(a).unwrap();
    assert_eq!(freed.pid, 7);
    let c = pmm.allocate_frame(9).unwrap();
    assert_eq!(c, 0xA00000);
    let gone = pmm.free_frames_by_pid(8);
    assert_eq!(gone.len(), 1);
    assert_eq!(pmm.get_memory_usage_by_pid(8), 0);
    assert!(pmm.reserve_frame(0x1000000));
    assert!(!pmm.reserve_frame(0x1000000));
}

#[test]
fn time_call_packs_hours_minutes_seconds() {
    assert_eq!(handle_time(0x45, 0x30, 0x81, 0x00), (13u64 << 16) | (30 << 8) | 45);
    assert_eq!(handle_time(5, 0, 23, 0x06), (23u64 << 16) | 5);
}

#[test]
fn reset_queue_rewinds_both_ends() {
    let mut q = EventQueue::new();
    q.add_event(Event::Resize(ResizeEvent { wid: 3, width: 10, height: 20 }));
    assert_eq!(q.head, 1);
    assert_eq!(q.tail, 0);
    q.reset_queue();
    assert_eq!((q.head, q.tail, q.count), (0, 0, 0));
}

#[test]
fn closed_pipe_takes_nothing_but_still_gives_what_it_held() {
    let mut p = Pipe::new();
    assert_eq!(p.write(&[1, 2, 3]), 3);
    p.close();
    assert!(p.is_closed());
    assert_eq!(p.write(&[4]), 0);
    assert_eq!(p.available(), 3);
    let mut out = [0u8; 8];
    assert_eq!(p.read(&mut out), 3);
    assert_eq!(&out[..3], &[1, 2, 3]);
    assert!(p.available() <= PIPE_SIZE);
}

#[test]
fn available_is_what_writes_took_less_what_reads_gave() {
    let mut p = Pipe::new();
    let w1 = p.write(&[1, 2, 3]);
    let mut buf = [0u8; 2];
    let r1 = p.read(&mut buf);
    let w2 = p.write(&[4, 5, 6, 7, 8]);
    let mut big = [0u8; 4];
    let r2 = p.read(&mut big);
    assert_eq!((w1, r1, w2, r2), (3, 2, 5, 4));
    assert_eq!(p.available(), w1 + w2 - r1 - r2);
    assert_eq!(p.available(), 2);
}
