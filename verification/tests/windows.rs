use lib::interrupts::exceptions::{key_action, KeyAction};
use lib::window_manager::events::KeyboardEvent;
use lib::interrupts::idt::{Entry, Idt, GATE_RING_0, GATE_RING_3, KERNEL_CODE_SELECTOR};
use lib::window_manager::area::{DrawStep, BORDER_FOCUSED, BORDER_NORMAL};
use lib::window_manager::composer::Composer;
use lib::window_manager::window::{new_null_window, Items, Window};
use lib::zorder::sort_by_z;

fn window(w_type: Items, width: usize, height: usize, pid: u64) -> Window {
    let mut w = new_null_window();
    w.w_type = w_type;
    w.width = width;
    w.height = height;
    w.pid = pid;
    w
}

#[test]
fn gate_halves_put_the_handler_back_together() {
    let mut e = Entry::empty();
    e.set(0x1234_5678_9ABC_DEF0);
    assert_eq!(e.pointer_low, 0xDEF0);
    assert_eq!(e.pointer_middle, 0x9ABC);
    assert_eq!(e.pointer_high, 0x1234_5678);
    assert_eq!(e.options, GATE_RING_0);
    assert_eq!(e.gdt_selector, KERNEL_CODE_SELECTOR);
    let target = e.pointer_low as u64 | (e.pointer_middle as u64) << 16 | (e.pointer_high as u64) << 32;
    assert_eq!(target, 0x1234_5678_9ABC_DEF0);
    e.set_ring_3(0x40);
    assert_eq!(e.options, GATE_RING_3);
    assert_eq!(e.pointer_low, 0x40);
}

#[test]
fn idt_add_sets_one_vector() {
    let mut idt = Idt::new();
    idt.add(33, 0xFFFF_8000_0000_1000);
    assert_eq!(idt.entries[33].pointer_low, 0x1000);
    assert_eq!(idt.entries[33].pointer_high, 0xFFFF_8000);
    assert_eq!(idt.entries[32].pointer_low, 0);
}

#[test]
fn sorting_by_depth_is_stable() {
    let mut ws = [new_null_window(); 4];
    for (i, z) in [3usize, 1, 3, 0].iter().enumerate() {
        ws[i].z = *z;
        ws[i].id = i + 1;
    }
    sort_by_z(&mut ws);
    let order: Vec<(usize, usize)> = ws.iter().map(|w| (w.z, w.id)).collect();
    assert_eq!(order, vec![(0, 4), (1, 2), (3, 1), (3, 3)]);
}

#[test]
fn added_windows_get_ids_depths_and_cascade() {
    let mut c = Composer::new();
    let wall = c.add_window(window(Items::Wallpaper, 800, 600, 1));
    let a = c.add_window(window(Items::Window, 100, 100, 2));
    let b = c.add_window(window(Items::Window, 100, 100, 3));
    assert_eq!((wall, a, b), (1, 2, 3));
    let wa = *c.find_window_id(a).unwrap();
    let wb = *c.find_window_id(b).unwrap();
    assert_eq!((wa.x, wa.y), (50, 50));
    assert_eq!((wb.x, wb.y), (80, 80));
    assert!(wb.can_move && wb.can_resize);
    let ww = *c.find_window_id(wall).unwrap();
    assert_eq!(ww.z, 257);
    assert_eq!(wb.z, 1);
    assert_eq!(wa.z, 2);
    assert!(c.find_window_id(99).is_none());
}

#[test]
fn removing_windows_of_a_process() {
    let mut c = Composer::new();
    let a = c.add_window(window(Items::Window, 50, 50, 7));
    let b = c.add_window(window(Items::Window, 50, 50, 8));
    assert!(c.remove_windows_by_pid(7));
    assert!(c.find_window_id(a).is_none());
    assert!(c.find_window_id(b).is_some());
    assert!(!c.remove_windows_by_pid(7));
    c.remove_window(b);
    assert!(c.find_window_id(b).is_none());
}

fn stacked_desktop() -> (Composer, usize, usize, usize) {
    let mut c = Composer::new();
    let wall = c.add_window(window(Items::Wallpaper, 800, 600, 1));
    let a = c.add_window(window(Items::Window, 100, 100, 2));
    let b = c.add_window(window(Items::Window, 100, 100, 3));
    (c, wall, a, b)
}

fn slot_of(c: &Composer, id: usize) -> usize {
    (0..16).find(|&i| c.windows[i].id == id).unwrap()
}

#[test]
fn repainting_a_window_starts_at_the_first_opaque_cover() {
    let (c, _wall, a, b) = stacked_desktop();
    let (ia, ib) = (slot_of(&c, a), slot_of(&c, b));
    assert!(ib < ia);
    let p = c.update_window_area(a, b).unwrap();
    assert_eq!((p.x, p.y, p.w, p.h), (50, 50, 100, 100));
    assert_eq!(p.start_index, ia);
    assert!(!p.clear);
    assert_eq!(
        p.draws,
        vec![
            DrawStep { index: ia, border: Some(BORDER_NORMAL) },
            DrawStep { index: ib, border: Some(BORDER_FOCUSED) },
        ]
    );
}

#[test]
fn repainting_the_wallpaper_draws_everything_back_to_front() {
    let (c, wall, a, b) = stacked_desktop();
    let (iw, ia, ib) = (slot_of(&c, wall), slot_of(&c, a), slot_of(&c, b));
    assert!(ib < ia && ia < iw);
    let p = c.update_window_area(wall, 0).unwrap();
    assert_eq!((p.x, p.y, p.w, p.h), (0, 0, 800, 600));
    assert_eq!(p.start_index, iw);
    assert!(!p.clear);
    let order: Vec<(usize, Option<u32>)> = p.draws.iter().map(|d| (d.index, d.border)).collect();
    assert_eq!(order, vec![(iw, None), (ia, Some(BORDER_NORMAL)), (ib, Some(BORDER_NORMAL))]);
}

#[test]
fn repainting_an_unknown_window_plans_nothing() {
    let (c, _wall, _a, _b) = stacked_desktop();
    assert!(c.update_window_area(99, 0).is_none());
}

#[test]
fn an_uncovered_rectangle_is_cleared_first() {
    let (c, wall, a, b) = stacked_desktop();
    let p = c.update_window_area_rect(-10, -10, 5, 5, 0);
    assert_eq!(p.start_index, 15);
    assert!(p.clear);
    let order: Vec<usize> = p.draws.iter().map(|d| d.index).collect();
    assert_eq!(order, vec![slot_of(&c, wall), slot_of(&c, a), slot_of(&c, b)]);
}

#[test]
fn super_shortcuts_list_spawn_and_kill() {
    let (c, _wall, a, _b) = stacked_desktop();
    assert_eq!(key_action('p' as u32, true, true, a, &c.windows), KeyAction::ShowAllocations);
    assert_eq!(key_action('t' as u32, true, true, a, &c.windows), KeyAction::SpawnTerminal);
    assert_eq!(key_action('x' as u32, true, true, a, &c.windows), KeyAction::KillProcess(2));
    assert_eq!(key_action('X' as u32, true, true, a, &c.windows), KeyAction::KillProcess(2));
    assert_eq!(key_action('x' as u32, true, true, 0, &c.windows), KeyAction::Nothing);
    assert_eq!(key_action('x' as u32, true, true, 77, &c.windows), KeyAction::Nothing);
    assert_eq!(key_action('p' as u32, false, true, a, &c.windows), KeyAction::Nothing);
    assert_eq!(key_action('q' as u32, true, true, a, &c.windows), KeyAction::Nothing);
}

#[test]
fn ordinary_keys_go_to_the_buffer_and_the_active_window() {
    let (mut c, _wall, a, b) = stacked_desktop();
    let ia = (0..16).find(|&i| c.windows[i].id == a).unwrap();
    c.windows[ia].event_handler = 0x4000;
    let ev = Some(KeyboardEvent { wid: a as u32, key: 'k' as u32, repeat: 1 });
    assert_eq!(key_action('k' as u32, true, false, a, &c.windows), KeyAction::Deliver { buffer: true, event: ev });
    assert_eq!(key_action('k' as u32, false, false, a, &c.windows), KeyAction::Deliver { buffer: false, event: ev });
    assert_eq!(key_action('k' as u32, true, false, b, &c.windows), KeyAction::Deliver { buffer: true, event: None });
    assert_eq!(key_action('k' as u32, true, false, 0, &c.windows), KeyAction::Deliver { buffer: true, event: None });
}

#[test]
fn copying_a_window_draws_just_its_slot() {
    let (c, wall, a, b) = stacked_desktop();
    let ia = slot_of(&c, a);
    assert_eq!(c.copy_window(a, a), vec![DrawStep { index: ia, border: Some(BORDER_FOCUSED) }]);
    assert_eq!(c.copy_window(wall, a), vec![DrawStep { index: slot_of(&c, wall), border: None }]);
    assert_eq!(c.copy_window(b, 0).len(), 1);
    assert!(c.copy_window(99, 0).is_empty());
}

#[test]
fn recomposing_leaves_out_one_window() {
    let (c, wall, a, b) = stacked_desktop();
    let order: Vec<usize> = c.recompose_except(a, 0).iter().map(|d| d.index).collect();
    assert_eq!(order, vec![slot_of(&c, wall), slot_of(&c, b)]);
    let all: Vec<usize> = c.recompose_except(99, 0).iter().map(|d| d.index).collect();
    assert_eq!(all, vec![slot_of(&c, wall), slot_of(&c, a), slot_of(&c, b)]);
}

#[test]
fn a_new_window_id_is_held_by_exactly_one_slot() {
    let (mut c, _wall, a, b) = stacked_desktop();
    c.remove_window(a);
    c.focus_window(b);
    let d = c.add_window(window(Items::Window, 50, 50, 9));
    assert_eq!(d, 4);
    let holders = (0..16).filter(|&i| c.windows[i].id == d && c.windows[i].w_type != Items::Null).count();
    assert_eq!(holders, 1);
    for i in 0..16 {
        if c.windows[i].w_type != Items::Null {
            assert!(c.windows[i].id < c.next_id);
        }
    }
}
