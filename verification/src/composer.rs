use vstd::prelude::*;
use crate::zorder::{sort_by_z, stable_sorted_by_z, ZOrder};

verus! {

#[derive(Debug, Copy, Clone, PartialEq, Eq)]
pub struct MouseEvent {
    pub wid: u32,
    pub x: usize,
    pub y: usize,
    pub buttons: [bool; 3],
    pub scroll: i8,
}

#[derive(Debug, Copy, Clone, PartialEq, Eq)]
pub struct KeyboardEvent {
    pub wid: u32,
    pub char: char,
}

#[derive(Debug, Copy, Clone, PartialEq, Eq)]
pub struct ResizeEvent {
    pub wid: u32,
    pub width: usize,
    pub height: usize,
}

#[derive(Debug, Copy, Clone, PartialEq, Eq)]
pub struct RedrawEvent {
    pub wid: u32,
    pub to_fb: bool,
    pub to_db: bool,
}

#[derive(Debug, Copy, Clone, PartialEq, Eq)]
pub enum Event {
    Mouse(MouseEvent),
    Keyboard(KeyboardEvent),
    Resize(ResizeEvent),
    Redraw(RedrawEvent),
    /// An empty slot.
    NoEvent,
}

/// The window an event is addressed to; `Event::NoEvent` belongs to window 0.
pub open spec fn event_wid(e: Event) -> u32 {
    match e {
        Event::Mouse(m) => m.wid,
        Event::Keyboard(k) => k.wid,
        Event::Resize(r) => r.wid,
        Event::Redraw(r) => r.wid,
        Event::NoEvent => 0,
    }
}

impl Event {
    pub fn get_window_id(&self) -> (id: u32)
        ensures
            id == event_wid(*self),
    {
        match self {
            Event::Mouse(event) => event.wid,
            Event::Keyboard(event) => event.wid,
            Event::Resize(event) => event.wid,
            Event::Redraw(event) => event.wid,
            Event::NoEvent => 0,
        }
    }
}

/// The queue is emptied when it reaches this many events and another one arrives.
pub const QUEUE_LIMIT: usize = 1000;

/// Walks `s` from the front and takes each event addressed to `wid` while fewer than `max`
/// have been taken; returns the taken events and the kept ones, both in queue order.
pub open spec fn split_queue(s: Seq<Event>, wid: u32, max: nat) -> (Seq<Event>, Seq<Event>)
    decreases s.len(),
{
    if s.len() == 0 {
        (Seq::empty(), Seq::empty())
    } else {
        let (taken, kept) = split_queue(s.drop_last(), wid, max);
        let e = s.last();
        if event_wid(e) == wid && taken.len() < max {
            (taken.push(e), kept)
        } else {
            (taken, kept.push(e))
        }
    }
}

/// Taking events for a window: every taken event is addressed to it, at most `max` are taken,
/// nothing is lost, and none of the kept events is addressed to it unless `max` were taken.
pub proof fn lemma_split_queue(s: Seq<Event>, wid: u32, max: nat)
    ensures
        ({
            let (taken, kept) = split_queue(s, wid, max);
            &&& taken.len() <= max
            &&& taken.len() + kept.len() == s.len()
            &&& forall|i: int| 0 <= i < taken.len() ==> event_wid(#[trigger] taken[i]) == wid
            &&& taken.len() < max ==> forall|i: int|
                0 <= i < kept.len() ==> event_wid(#[trigger] kept[i]) != wid
        }),
    decreases s.len(),
{
    if s.len() > 0 {
        lemma_split_queue(s.drop_last(), wid, max);
    }
}

/// A growable queue of events, oldest first.
pub struct EventQueue {
    pub queue: Vec<Event>,
}

impl EventQueue {
    pub fn new() -> (q: EventQueue)
        ensures
            q.queue@ == Seq::<Event>::empty(),
    {
        EventQueue { queue: Vec::new() }
    }

    /// Removes and returns, oldest first, up to `max_events` events addressed to `window_id`;
    /// the others stay in order.
    pub fn get_and_remove_events(&mut self, window_id: u32, max_events: usize) -> (result: Vec<
        Event,
    >)
        ensures
            result@ == split_queue(old(self).queue@, window_id, max_events as nat).0,
            final(self).queue@ == split_queue(old(self).queue@, window_id, max_events as nat).1,
    {
        let ghost s = self.queue@;
        let cap = if max_events < self.queue.len() {
            max_events
        } else {
            self.queue.len()
        };
        let mut result: Vec<Event> = Vec::with_capacity(cap);
        let mut write_idx: usize = 0;
        let mut read_idx: usize = 0;
        let n = self.queue.len();
        while read_idx < n
            invariant
                n == s.len(),
                self.queue@.len() == n,
                write_idx <= read_idx <= n,
                result@ == split_queue(s.take(read_idx as int), window_id, max_events as nat).0,
                self.queue@.take(write_idx as int) == split_queue(
                    s.take(read_idx as int),
                    window_id,
                    max_events as nat,
                ).1,
                forall|j: int| read_idx <= j < n ==> #[trigger] self.queue@[j] == s[j],
            decreases n - read_idx,
        {
            let e = self.queue[read_idx];
            proof {
                assert(s.take(read_idx + 1).drop_last() =~= s.take(read_idx as int));
                assert(s.take(read_idx + 1).last() == s[read_idx as int]);
            }
            if e.get_window_id() == window_id && result.len() < max_events {
                result.push(e);
            } else {
                let ghost q0 = self.queue@;
                if write_idx != read_idx {
                    self.queue.set(write_idx, e);
                }
                proof {
                    assert(self.queue@.take(write_idx + 1) =~= q0.take(write_idx as int).push(e));
                }
                write_idx += 1;
            }
            read_idx += 1;
        }
        self.queue.truncate(write_idx);
        proof {
            assert(s.take(n as int) =~= s);
        }
        result
    }

    /// Appends an event; a queue that already holds `QUEUE_LIMIT` events is emptied first.
    pub fn add_event(&mut self, event: Event)
        ensures
            old(self).queue@.len() >= QUEUE_LIMIT ==> final(self).queue@ == seq![event],
            old(self).queue@.len() < QUEUE_LIMIT ==> final(self).queue@ == old(self).queue@.push(
                event,
            ),
    {
        if self.queue.len() >= QUEUE_LIMIT {
            self.reset_queue();
        }
        self.queue.push(event);
        proof {
            if old(self).queue@.len() >= QUEUE_LIMIT {
                assert(self.queue@ =~= seq![event]);
            }
        }
    }

    /// Empties the queue.
    pub fn reset_queue(&mut self)
        ensures
            final(self).queue@ == Seq::<Event>::empty(),
    {
        self.queue.clear();
    }
}

/// What the pointer looks like.
#[derive(Debug, Copy, Clone, PartialEq, Eq)]
pub enum State {
    Point,
    Write,
    Click,
}

/// The pointer: position and buttons.
pub struct Mouse {
    pub x: u16,
    pub y: u16,
    pub left: bool,
    pub center: bool,
    pub right: bool,
    pub state: State,
}

pub open spec fn min_u32(a: u32, b: u32) -> u32 {
    if a <= b {
        a
    } else {
        b
    }
}

pub open spec fn max_int(a: int, b: int) -> int {
    if a >= b {
        a
    } else {
        b
    }
}

impl Mouse {
    /// Magnitude of a signed delta.
    pub fn rem_sign(&self, n: i16) -> (r: u16)
        requires
            n != i16::MIN,
        ensures
            r == if n < 0 {
                -n
            } else {
                n as int
            },
    {
        if n < 0 {
            assert(n * -1 == -n) by (nonlinear_arith);
            (n * -1) as u16
        } else {
            n as u16
        }
    }

    /// The rectangle covering a `width` x `height` box at (x, y) and the same box at (x2, y2),
    /// as (x, y, width, height).
    pub fn union_rect(&self, x: u32, y: u32, width: u32, height: u32, x2: u32, y2: u32) -> (r: (
        u32,
        u32,
        u32,
        u32,
    ))
        requires
            x + width <= u32::MAX,
            x2 + width <= u32::MAX,
            y + height <= u32::MAX,
            y2 + height <= u32::MAX,
        ensures
            r.0 == min_u32(x, x2),
            r.1 == min_u32(y, y2),
            r.2 == max_int(x + width, x2 + width) - min_u32(x, x2),
            r.3 == max_int(y + height, y2 + height) - min_u32(y, y2),
    {
        let min_x = if x <= x2 { x } else { x2 };
        let max_x = if x + width >= x2 + width { x + width } else { x2 + width };
        let min_y = if y <= y2 { y } else { y2 };
        let max_y = if y + height >= y2 + height { y + height } else { y2 + height };
        let width = max_x - min_x;
        let height = max_y - min_y;
        (min_x, min_y, width, height)
    }

    /// Whether the pointer is on the 8-pixel resize handle at the bottom-right corner of a
    /// window (coordinates wrap at 16 bits).
    pub fn is_bottom_right(
        &self,
        w_x: u16,
        w_y: u16,
        w_width: u16,
        w_height: u16,
        mouse_x: u16,
        mouse_y: u16,
    ) -> (b: bool)
        ensures
            b == ({
                let x_min = vstd::wrapping::u16_specs::wrapping_add(
                    w_x,
                    vstd::wrapping::u16_specs::wrapping_sub(w_width, 8),
                );
                let x_max = vstd::wrapping::u16_specs::wrapping_add(w_x, w_width);
                let y_min = vstd::wrapping::u16_specs::wrapping_add(
                    w_y,
                    vstd::wrapping::u16_specs::wrapping_sub(w_height, 8),
                );
                let y_max = vstd::wrapping::u16_specs::wrapping_add(w_y, w_height);
                x_min <= mouse_x <= x_max && y_min <= mouse_y <= y_max
            }),
    {
        let x_min = w_x.wrapping_add(w_width.wrapping_sub(8));
        let x_max = w_x.wrapping_add(w_width.wrapping_sub(0));
        let y_min = w_y.wrapping_add(w_height.wrapping_sub(8));
        let y_max = w_y.wrapping_add(w_height.wrapping_sub(0));
        (mouse_x >= x_min && mouse_x <= x_max) && (mouse_y >= y_min && mouse_y <= y_max)
    }

    /// The new horizontal position after moving by `n`, kept within the screen width `sx`:
    /// two pixels short of the right edge at most, 0 at least.
    pub fn clamp_mx(&self, n: i16, screen_width: u16) -> (r: u16)
        requires
            i16::MIN <= n + (self.x as i16) <= i16::MAX,
            (screen_width as i16) - 2 >= i16::MIN,
        ensures
            r == if n + (self.x as i16) >= (screen_width as i16) - 2 {
                vstd::wrapping::u16_specs::wrapping_sub(screen_width, 2)
            } else if n + (self.x as i16) <= 0 {
                0
            } else {
                (n + (self.x as i16)) as u16
            },
    {
        let mx_0 = self.x as i16;
        let sx = screen_width;
        if n + mx_0 >= (sx as i16 - 2) {
            sx.wrapping_sub(2)
        } else if n + mx_0 <= 0 {
            0
        } else {
            (n + mx_0) as u16
        }
    }

    /// The new vertical position after moving by `n`, kept within the screen height `sy`.
    pub fn clamp_my(&self, n: i16, screen_height: u16) -> (r: u16)
        requires
            i16::MIN <= n + (self.y as i16) <= i16::MAX,
            (screen_height as i16) - 2 >= i16::MIN,
        ensures
            r == if n + (self.y as i16) >= (screen_height as i16) - 2 {
                vstd::wrapping::u16_specs::wrapping_sub(screen_height, 2)
            } else if n + (self.y as i16) <= 0 {
                0
            } else {
                (n + (self.y as i16)) as u16
            },
    {
        let my_0 = self.y as i16;
        let sy = screen_height;
        if n + my_0 >= (sy as i16 - 2) {
            sy.wrapping_sub(2)
        } else if n + my_0 <= 0 {
            return 0;
        } else {
            (n + my_0) as u16
        }
    }
}

/// The smaller of `n` and `value`.
pub fn cap(n: usize, value: usize) -> (r: usize)
    ensures
        r == if n > value {
            value
        } else {
            n
        },
{
    if n > value {
        value
    } else {
        n
    }
}

/// `n` moved by the signed delta `m` (both read as 16-bit signed), never below 0.
pub fn add_delta(n: u16, m: i16) -> (r: u16)
    requires
        i16::MIN <= (n as i16) + m <= i16::MAX,
    ensures
        r == if (n as i16) + m < 0 {
            0
        } else {
            ((n as i16) + m) as u16
        },
{
    if (n as i16 + m) < 0 {
        0
    } else {
        (n as i16 + m) as u16
    }
}

#[derive(Debug, Copy, Clone, PartialEq, Eq, Structural)]
pub enum Items {
    Wallpaper,
    Bar,
    Popup,
    Window,
    Null,
}

#[derive(Debug, Copy, Clone)]
pub struct Window {
    pub id: usize,
    pub buffer: usize,
    pub x: usize,
    pub y: usize,
    pub z: usize,
    pub width: usize,
    pub height: usize,
    pub can_move: bool,
    pub can_resize: bool,
    pub min_width: usize,
    pub min_height: usize,
    pub event_handler: usize,
    pub w_type: Items,
}

impl ZOrder for Window {
    open spec fn z_key(&self) -> usize {
        self.z
    }

    fn z(&self) -> (r: usize) {
        self.z
    }
}

/// An empty window slot.
pub open spec fn null_window() -> Window {
    Window {
        id: 0,
        buffer: 0,
        x: 0,
        y: 0,
        z: 0,
        width: 0,
        height: 0,
        can_move: false,
        can_resize: false,
        min_width: 0,
        min_height: 0,
        event_handler: 0,
        w_type: Items::Null,
    }
}

/// Number of window slots.
pub const MAX_WINDOWS: usize = 16;

/// Whether a point lies on a window (edges included) that is not an empty slot.
pub open spec fn window_at(w: Window, x: usize, y: usize) -> bool {
    &&& x >= w.x && x <= w.x + w.width
    &&& y >= w.y && y <= w.y + w.height
    &&& w.w_type != Items::Null
}

/// The first empty slot at or after `i`, or -1.
pub open spec fn first_null_from(ws: Seq<Window>, i: int) -> int
    decreases ws.len() - i,
{
    if i >= ws.len() || i < 0 {
        -1
    } else if ws[i].w_type == Items::Null {
        i
    } else {
        first_null_from(ws, i + 1)
    }
}

/// The slots after storing `w` in the first empty slot (unchanged when there is none).
pub open spec fn placed(ws: Seq<Window>, w: Window) -> Seq<Window> {
    let k = first_null_from(ws, 0);
    if k >= 0 {
        ws.update(k, w)
    } else {
        ws
    }
}

/// Every window other than `id` moved one step back (depth saturates at the maximum).
pub open spec fn pushed_back(ws: Seq<Window>, id: usize) -> Seq<Window> {
    Seq::new(
        ws.len(),
        |i: int|
            if ws[i].id != id {
                Window { z: if ws[i].z + 1 > usize::MAX { usize::MAX } else { (ws[i].z + 1) as usize }, ..ws[i] }
            } else {
                ws[i]
            },
    )
}

/// The slots after emptying every slot that holds window `wid` (its depth becomes 255).
pub open spec fn emptied(ws: Seq<Window>, wid: usize) -> Seq<Window> {
    Seq::new(
        ws.len(),
        |i: int|
            if ws[i].id == wid {
                Window { w_type: Items::Null, z: 255, ..ws[i] }
            } else {
                ws[i]
            },
    )
}

/// A new window's depth: wallpaper at the very back (255), bars and popups in front (0),
/// other kinds keep the depth they came with.
pub open spec fn initial_depth(w: Window) -> usize {
    if w.w_type == Items::Wallpaper {
        255
    } else if w.w_type == Items::Bar || w.w_type == Items::Popup {
        0
    } else {
        w.z
    }
}

proof fn lemma_first_null_from(ws: Seq<Window>, i: int)
    requires
        0 <= i <= ws.len(),
    ensures
        first_null_from(ws, i) == -1 ==> forall|j: int| i <= j < ws.len() ==> (#[trigger] ws[j]).w_type
            != Items::Null,
        first_null_from(ws, i) != -1 ==> i <= first_null_from(ws, i) < ws.len() && ws[first_null_from(
            ws,
            i,
        )].w_type == Items::Null && forall|j: int|
            i <= j < first_null_from(ws, i) ==> (#[trigger] ws[j]).w_type != Items::Null,
    decreases ws.len() - i,
{
    if i < ws.len() && ws[i].w_type != Items::Null {
        lemma_first_null_from(ws, i + 1);
    }
}

/// The windows, stacked front (smallest depth) to back, and the next id to hand out.
pub struct Composer {
    pub windows: [Window; MAX_WINDOWS],
    pub next_id: usize,
}

impl Composer {
    pub fn new() -> (c: Composer)
        ensures
            forall|i: int| 0 <= i < MAX_WINDOWS ==> #[trigger] c.windows@[i] == null_window(),
            c.next_id == 1,
    {
        let w = Window {
            id: 0,
            buffer: 0,
            x: 0,
            y: 0,
            z: 0,
            width: 0,
            height: 0,
            can_move: false,
            can_resize: false,
            min_width: 0,
            min_height: 0,
            event_handler: 0,
            w_type: Items::Null,
        };
        Composer { windows: [w; MAX_WINDOWS], next_id: 1 }
    }

    /// The first window in stacking order that contains the point (edges included).
    pub fn find_window(&mut self, x: usize, y: usize) -> (r: Option<&mut Window>)
        requires
            forall|i: int|
                0 <= i < MAX_WINDOWS ==> (#[trigger] old(self).windows@[i]).x + old(self).windows@[i].width
                    <= usize::MAX && old(self).windows@[i].y + old(self).windows@[i].height
                    <= usize::MAX,
        ensures
            r is None ==> forall|i: int|
                0 <= i < MAX_WINDOWS ==> !window_at(#[trigger] old(self).windows@[i], x, y),
            r is None ==> *final(self) == *old(self),
            r matches Some(w) ==> exists|i: int|
                0 <= i < MAX_WINDOWS && window_at(#[trigger] old(self).windows@[i], x, y) && (forall|j: int|
                    0 <= j < i ==> !window_at(#[trigger] old(self).windows@[j], x, y)) && *w
                    == old(self).windows@[i] && final(self).windows@ == old(self).windows@.update(
                    i,
                    *final(w),
                ) && final(self).next_id == old(self).next_id,
    {
        let mut i: usize = 0;
        while i < MAX_WINDOWS
            invariant
                i <= MAX_WINDOWS,
                *self == *old(self),
                forall|j: int| 0 <= j < i ==> !window_at(#[trigger] old(self).windows@[j], x, y),
                forall|i: int|
                    0 <= i < MAX_WINDOWS ==> (#[trigger] old(self).windows@[i]).x + old(self).windows@[i].width
                        <= usize::MAX && old(self).windows@[i].y + old(self).windows@[i].height
                        <= usize::MAX,
            decreases MAX_WINDOWS - i,
        {
            if x >= self.windows[i].x && x <= (self.windows[i].x + self.windows[i].width) && y
                >= self.windows[i].y && y <= (self.windows[i].y + self.windows[i].height) {
                match self.windows[i].w_type {
                    Items::Null => {},
                    _ => return Some(&mut self.windows[i]),
                }
            }
            i += 1;
        }
        None
    }

    /// The first live window with the given id.
    pub fn find_window_id(&mut self, id: usize) -> (r: Option<&mut Window>)
        ensures
            r is None ==> forall|i: int|
                0 <= i < MAX_WINDOWS ==> !((#[trigger] old(self).windows@[i]).id == id && old(self).windows@[i].w_type
                    != Items::Null),
            r is None ==> *final(self) == *old(self),
            r matches Some(w) ==> exists|i: int|
                0 <= i < MAX_WINDOWS && (#[trigger] old(self).windows@[i]).id == id && old(self).windows@[i].w_type
                    != Items::Null && (forall|j: int|
                    0 <= j < i ==> !((#[trigger] old(self).windows@[j]).id == id && old(self).windows@[j].w_type
                        != Items::Null)) && *w == old(self).windows@[i] && final(self).windows@
                    == old(self).windows@.update(i, *final(w)) && final(self).next_id == old(self).next_id,
    {
        let mut i: usize = 0;
        while i < MAX_WINDOWS
            invariant
                i <= MAX_WINDOWS,
                *self == *old(self),
                forall|j: int|
                    0 <= j < i ==> !((#[trigger] old(self).windows@[j]).id == id && old(self).windows@[j].w_type
                        != Items::Null),
            decreases MAX_WINDOWS - i,
        {
            if self.windows[i].id == id {
                let h = self.windows[i].w_type;
                if h != Items::Null {
                    return Some(&mut self.windows[i]);
                }
            }
            i += 1;
        }
        None
    }

    /// Hands out the next window id.
    pub fn check_id(&mut self, _rng_seed: u64) -> (id: usize)
        requires
            old(self).next_id < usize::MAX,
        ensures
            id == old(self).next_id,
            final(self).next_id == old(self).next_id + 1,
            final(self).windows == old(self).windows,
    {
        let id = self.next_id;
        self.next_id += 1;
        id
    }

    /// Gives `w` a fresh id and its initial depth, stores it in the first empty slot, moves
    /// every other window one step back, and restacks by depth (stably); returns the new id.
    pub fn add_window(&mut self, w: Window) -> (id: usize)
        requires
            old(self).next_id < usize::MAX,
        ensures
            id == old(self).next_id,
            final(self).next_id == old(self).next_id + 1,
            stable_sorted_by_z(
                pushed_back(
                    placed(old(self).windows@, Window { z: initial_depth(w), id: old(self).next_id, ..w }),
                    old(self).next_id,
                ),
                final(self).windows@,
            ),
    {
        let mut w = w;
        let wtype = w.w_type;
        if wtype == Items::Wallpaper {
            w.z = 255;
        } else if wtype == Items::Bar {
            w.z = 0;
        } else if wtype == Items::Popup {
            w.z = 0;
        }
        w.id = self.check_id(w.buffer as u64);
        let ghost ws0 = self.windows@;
        let mut i: usize = 0;
        while i < MAX_WINDOWS
            invariant_except_break
                self.windows@ == ws0,
            invariant
                i <= MAX_WINDOWS,
                self.next_id == old(self).next_id + 1,
                ws0.len() == MAX_WINDOWS,
                first_null_from(ws0, 0) == first_null_from(ws0, i as int),
            ensures
                self.windows@ == placed(ws0, w),
                self.next_id == old(self).next_id + 1,
            decreases MAX_WINDOWS - i,
        {
            match self.windows[i].w_type {
                Items::Null => {
                    self.windows[i] = w;
                    assert(first_null_from(ws0, i as int) == i);
                    break;
                },
                _ => {},
            }
            i += 1;
        }
        let ghost ws1 = self.windows@;
        let mut k: usize = 0;
        while k < MAX_WINDOWS
            invariant
                k <= MAX_WINDOWS,
                ws1.len() == MAX_WINDOWS,
                self.next_id == old(self).next_id + 1,
                self.windows@.len() == MAX_WINDOWS,
                forall|j: int| 0 <= j < k ==> #[trigger] self.windows@[j] == pushed_back(ws1, w.id)[j],
                forall|j: int| k <= j < MAX_WINDOWS ==> #[trigger] self.windows@[j] == ws1[j],
            decreases MAX_WINDOWS - k,
        {
            proof {
                assert(pushed_back(ws1, w.id)[k as int] == if ws1[k as int].id != w.id {
                    Window { z: if ws1[k as int].z + 1 > usize::MAX { usize::MAX } else { (ws1[k as int].z + 1) as usize }, ..ws1[k as int] }
                } else {
                    ws1[k as int]
                });
            }
            if self.windows[k].id != w.id {
                let mut x = self.windows[k];
                x.z = x.z.saturating_add(1);
                self.windows[k] = x;
            }
            k += 1;
        }
        proof {
            assert(self.windows@ =~= pushed_back(ws1, w.id));
        }
        sort_by_z(&mut self.windows);
        w.id
    }

    /// Gives every window with the id of `w` the size, buffer and movability of `w`.
    pub fn resize_window(&mut self, w: Window)
        ensures
            final(self).next_id == old(self).next_id,
            final(self).windows@ == Seq::new(
                MAX_WINDOWS as nat,
                |i: int|
                    if old(self).windows@[i].id == w.id {
                        Window {
                            width: w.width,
                            height: w.height,
                            buffer: w.buffer,
                            can_move: w.can_move,
                            ..old(self).windows@[i]
                        }
                    } else {
                        old(self).windows@[i]
                    },
            ),
    {
        let mut i: usize = 0;
        while i < MAX_WINDOWS
            invariant
                i <= MAX_WINDOWS,
                self.next_id == old(self).next_id,
                self.windows@.len() == MAX_WINDOWS,
                forall|j: int|
                    0 <= j < i ==> #[trigger] self.windows@[j] == if old(self).windows@[j].id == w.id {
                        Window {
                            width: w.width,
                            height: w.height,
                            buffer: w.buffer,
                            can_move: w.can_move,
                            ..old(self).windows@[j]
                        }
                    } else {
                        old(self).windows@[j]
                    },
                forall|j: int| i <= j < MAX_WINDOWS ==> #[trigger] self.windows@[j] == old(self).windows@[j],
            decreases MAX_WINDOWS - i,
        {
            if w.id == self.windows[i].id {
                let mut x = self.windows[i];
                x.width = w.width;
                x.height = w.height;
                x.buffer = w.buffer;
                x.can_move = w.can_move;
                self.windows[i] = x;
            }
            i += 1;
        }
        proof {
            assert(self.windows@ =~= Seq::new(
                MAX_WINDOWS as nat,
                |i: int|
                    if old(self).windows@[i].id == w.id {
                        Window {
                            width: w.width,
                            height: w.height,
                            buffer: w.buffer,
                            can_move: w.can_move,
                            ..old(self).windows@[i]
                        }
                    } else {
                        old(self).windows@[i]
                    },
            ));
        }
    }

    /// Empties every slot holding window `wid` (its depth becomes 255) and restacks by
    /// depth; redrawing the screen is the caller's part.
    pub fn remove_window(&mut self, wid: usize)
        ensures
            final(self).next_id == old(self).next_id,
            stable_sorted_by_z(
                emptied(old(self).windows@, wid),
                final(self).windows@,
            ),
    {
        let ghost ws0 = self.windows@;
        let ghost target = emptied(ws0, wid);
        let mut i: usize = 0;
        while i < MAX_WINDOWS
            invariant
                i <= MAX_WINDOWS,
                target.len() == MAX_WINDOWS,
                target == emptied(ws0, wid),
                self.next_id == old(self).next_id,
                self.windows@.len() == MAX_WINDOWS,
                forall|j: int| 0 <= j < i ==> #[trigger] self.windows@[j] == target[j],
                ws0.len() == MAX_WINDOWS,
                forall|j: int| i <= j < MAX_WINDOWS ==> #[trigger] self.windows@[j] == ws0[j],
            decreases MAX_WINDOWS - i,
        {
            proof {
                assert(target[i as int] == if ws0[i as int].id == wid {
                    Window { w_type: Items::Null, z: 255, ..ws0[i as int] }
                } else {
                    ws0[i as int]
                });
            }
            if self.windows[i].id == wid {
                let mut x = self.windows[i];
                x.w_type = Items::Null;
                x.z = 255;
                self.windows[i] = x;
            }
            i += 1;
        }
        proof {
            assert(self.windows@ =~= target);
        }
        sort_by_z(&mut self.windows);
    }
}

} // verus!
