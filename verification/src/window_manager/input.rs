use vstd::prelude::*;
use crate::window_manager::display::State;
use crate::window_manager::composer::{Composer, MAX_WINDOWS, window_fits, window_at, live_with_id};
use crate::window_manager::events::{Event, EventQueue, MouseEvent, ResizeEvent, queue_after_add};
use crate::window_manager::window::{Items, Window};

verus! {

/// Window coordinates and sizes stay far inside 32-bit arithmetic.
pub open spec fn window_sane(w: Window) -> bool {
    &&& -0x100_0000 <= w.x <= 0x100_0000
    &&& -0x100_0000 <= w.y <= 0x100_0000
    &&& w.width <= 0x100_0000
    &&& w.height <= 0x100_0000
}

/// Every window slot fits the coordinate range and is sane.
pub open spec fn windows_ok(c: Composer) -> bool {
    forall|i: int| 0 <= i < MAX_WINDOWS ==> window_fits(#[trigger] c.windows@[i]) && window_sane(c.windows@[i])
}

/// Some slot holds live window `id`.
pub open spec fn has_live(c: Composer, id: usize) -> bool {
    exists|i: int| 0 <= i < MAX_WINDOWS && live_with_id(#[trigger] c.windows@[i], id)
}

/// What the pointer keeps between packets: the last button byte, how many packets the left
/// button has been held for, the window being dragged or resized (0 for none), whether the
/// press that started a drag landed on a movable window with the super key down, the window
/// last clicked, and the outline size of a resize in progress.
#[derive(Debug, Copy, Clone)]
pub struct PointerState {
    pub last_input: u8,
    pub drags: u8,
    pub drag: bool,
    pub dragging_window: u16,
    pub resizing_window: u16,
    pub click_started_in_titlebar: bool,
    pub clicked_window_id: usize,
    pub w_width: usize,
    pub w_height: usize,
}

impl PointerState {
    /// Nothing held, dragged or resized.
    pub fn new() -> (p: PointerState)
        ensures
            p.last_input == 0 && p.drags == 0 && !p.drag && p.dragging_window == 0 && p.resizing_window == 0,
            !p.click_started_in_titlebar && p.clicked_window_id == 0 && p.w_width == 0 && p.w_height == 0,
    {
        PointerState {
            last_input: 0,
            drags: 0,
            drag: false,
            dragging_window: 0,
            resizing_window: 0,
            click_started_in_titlebar: false,
            clicked_window_id: 0,
            w_width: 0,
            w_height: 0,
        }
    }
}

/// A drawing step the display has to perform for a pointer packet, in order.
#[allow(inconsistent_fields)]
#[derive(Debug, Copy, Clone, PartialEq, Eq)]
pub enum MouseAction {
    /// Repaint window `id` into the back buffer.
    CopyWindow(usize),
    /// Copy a rectangle of the back buffer to the screen.
    CopyToFb { x: i32, y: i32, width: u32, height: u32 },
    /// Blend a window buffer onto the screen at a position.
    CopyToFbA { width: u32, height: u32, buffer: usize, x: i32, y: i32 },
    /// Draw the pointer.
    DrawMouse { x: u16, y: u16, dragging: bool },
    /// Recompose every window but `id`.
    RecomposeExcept(usize),
    /// Draw the resize outline, in light grey.
    DrawOutline { x: u16, y: u16, width: u16, height: u16 },
    /// Push a rectangle of the screen to the GPU.
    Flush { x: u32, y: u32, width: u32, height: u32 },
}

/// The movement a packet reports on one axis: the low byte, sign-extended when the
/// packet's sign bit for the axis is set.
pub open spec fn axis_delta(low: u8, negative: bool) -> int {
    if negative {
        low - 256
    } else {
        low as int
    }
}

/// Sign-extends the movement byte of one axis.
pub fn decode_axis(low: u8, negative: bool) -> (r: i16)
    ensures
        r == axis_delta(low, negative),
{
    let mut v = low as i16;
    if negative {
        proof {
            assert((low as i16) | (0xFF00u16 as i16) == (low as i16) - 256) by (bit_vector);
        }
        v = v | (0xFF00u16 as i16);
    }
    v
}

/// How far the pointer may go along an axis of `screen` pixels: 50 past the edge while a
/// window is dragged, otherwise 3 short of it.
pub open spec fn axis_limit(screen: u16, dragging: bool) -> int {
    if dragging {
        screen + 50
    } else if screen >= 3 {
        screen - 3
    } else {
        0
    }
}

/// `pos` moved by `n`, kept below `limit` and at least 0.
pub open spec fn clamp_axis(pos: int, n: int, limit: int) -> int {
    if n + pos >= limit {
        if limit >= 1 {
            limit - 1
        } else {
            0
        }
    } else if n + pos <= 0 {
        0
    } else {
        n + pos
    }
}

/// The smaller of `n` and `value`.
pub fn cap(n: usize, value: usize) -> (r: usize)
    ensures
        r == if n > value {
            value
        } else {
            n
        },
{
    if n > value {
        value
    } else {
        n
    }
}

/// The pointer: position, buttons and look.
#[derive(Debug, Copy, Clone)]
pub struct Mouse {
    pub x: u16,
    pub y: u16,
    pub left: bool,
    pub center: bool,
    pub right: bool,
    pub state: State,
}

impl Mouse {
    /// The pointer at the origin, no button held.
    pub fn new() -> (m: Mouse)
        ensures
            m.x == 0 && m.y == 0 && !m.left && !m.center && !m.right && m.state == State::Point,
    {
        Mouse { x: 0, y: 0, left: false, center: false, right: false, state: State::Point }
    }

    /// Magnitude of a signed value.
    pub fn rem_sign(&self, n: i16) -> (r: u16)
        requires
            n != i16::MIN,
        ensures
            r == if n < 0 {
                -n
            } else {
                n as int
            },
    {
        if n < 0 {
            assert(n * -1 == -n) by (nonlinear_arith);
            (n * -1) as u16
        } else {
            n as u16
        }
    }

    /// Whether the pointer is on the 8-pixel resize handle at the bottom-right corner of a
    /// window (coordinates wrap at 16 bits).
    pub fn is_bottom_right(
        &self,
        w_x: u16,
        w_y: u16,
        w_width: u16,
        w_height: u16,
        mouse_x: u16,
        mouse_y: u16,
    ) -> (b: bool)
        ensures
            b == ({
                let x_min = vstd::wrapping::u16_specs::wrapping_add(
                    w_x,
                    vstd::wrapping::u16_specs::wrapping_sub(w_width, 8),
                );
                let x_max = vstd::wrapping::u16_specs::wrapping_add(w_x, w_width);
                let y_min = vstd::wrapping::u16_specs::wrapping_add(
                    w_y,
                    vstd::wrapping::u16_specs::wrapping_sub(w_height, 8),
                );
                let y_max = vstd::wrapping::u16_specs::wrapping_add(w_y, w_height);
                x_min <= mouse_x <= x_max && y_min <= mouse_y <= y_max
            }),
    {
        let x_min = w_x.wrapping_add(w_width.wrapping_sub(8));
        let x_max = w_x.wrapping_add(w_width.wrapping_sub(0));
        let y_min = w_y.wrapping_add(w_height.wrapping_sub(8));
        let y_max = w_y.wrapping_add(w_height.wrapping_sub(0));
        (mouse_x >= x_min && mouse_x <= x_max) && (mouse_y >= y_min && mouse_y <= y_max)
    }

    /// The horizontal position after moving by `n` on a screen `screen_width` wide.
    pub fn clamp_mx(&self, n: i16, screen_width: u16, dragging: bool) -> (r: u16)
        requires
            screen_width <= 16000,
            self.x <= 16100,
            -256 <= n <= 256,
        ensures
            r == clamp_axis(self.x as int, n as int, axis_limit(screen_width, dragging)),
    {
        let mx_0 = self.x as i16;
        let sx = screen_width;
        let limit = if dragging { sx + 50 } else { sx.saturating_sub(3) };
        if n + mx_0 >= (limit as i16) {
            limit.saturating_sub(1)
        } else if n + mx_0 <= 0 {
            0
        } else {
            (n + mx_0) as u16
        }
    }

    /// The vertical position after moving by `n` on a screen `screen_height` high.
    pub fn clamp_my(&self, n: i16, screen_height: u16, dragging: bool) -> (r: u16)
        requires
            screen_height <= 16000,
            self.y <= 16100,
            -256 <= n <= 256,
        ensures
            r == clamp_axis(self.y as int, n as int, axis_limit(screen_height, dragging)),
    {
        let my_0 = self.y as i16;
        let sy = screen_height;
        let limit = if dragging { sy + 50 } else { sy.saturating_sub(3) };
        if n + my_0 >= (limit as i16) {
            limit.saturating_sub(1)
        } else if n + my_0 <= 0 {
            0
        } else {
            (n + my_0) as u16
        }
    }
}

/// The first window from slot `i` on that contains the point.
pub open spec fn window_under_from(ws: Seq<Window>, x: usize, y: usize, i: int) -> Option<Window>
    decreases ws.len() - i,
{
    if i < 0 || i >= ws.len() {
        None
    } else if window_at(ws[i], x, y) {
        Some(ws[i])
    } else {
        window_under_from(ws, x, y, i + 1)
    }
}

/// The first live window with id `id` from slot `i` on.
pub open spec fn live_window_from(ws: Seq<Window>, id: usize, i: int) -> Option<Window>
    decreases ws.len() - i,
{
    if i < 0 || i >= ws.len() {
        None
    } else if live_with_id(ws[i], id) {
        Some(ws[i])
    } else {
        live_window_from(ws, id, i + 1)
    }
}

proof fn lemma_window_under(ws: Seq<Window>, x: usize, y: usize, i: int, k: int)
    requires
        0 <= i <= k <= ws.len(),
        forall|j: int| i <= j < k ==> !window_at(#[trigger] ws[j], x, y),
    ensures
        k < ws.len() && window_at(ws[k], x, y) ==> window_under_from(ws, x, y, i) == Some(ws[k]),
        k == ws.len() ==> window_under_from(ws, x, y, i) is None,
    decreases k - i,
{
    if i < k {
        lemma_window_under(ws, x, y, i + 1, k);
    }
}

proof fn lemma_live_window(ws: Seq<Window>, id: usize, i: int, k: int)
    requires
        0 <= i <= k <= ws.len(),
        forall|j: int| i <= j < k ==> !live_with_id(#[trigger] ws[j], id),
    ensures
        k < ws.len() && live_with_id(ws[k], id) ==> live_window_from(ws, id, i) == Some(ws[k]),
        k == ws.len() ==> live_window_from(ws, id, i) is None,
    decreases k - i,
{
    if i < k {
        lemma_live_window(ws, id, i + 1, k);
    }
}

/// The window under the point, as `Composer::find_window` finds it.
pub fn window_under(composer: &mut Composer, x: usize, y: usize) -> (r: Option<Window>)
    requires
        forall|i: int| 0 <= i < MAX_WINDOWS ==> window_fits(#[trigger] old(composer).windows@[i]),
    ensures
        *final(composer) == *old(composer),
        r == window_under_from(old(composer).windows@, x, y, 0),
{
    let ghost c0 = *composer;
    match composer.find_window(x, y) {
        Some(w) => {
            let found = *w;
            proof {
                let i = choose|i: int|
                    0 <= i < MAX_WINDOWS && window_at(#[trigger] c0.windows@[i], x, y) && (forall|j: int|
                        0 <= j < i ==> !window_at(#[trigger] c0.windows@[j], x, y)) && found == c0.windows@[i];
                lemma_window_under(c0.windows@, x, y, 0, i);
            }
            proof {
                assert(composer.windows@ =~= c0.windows@);
                assert(composer.windows =~= c0.windows);
            }
            Some(found)
        },
        None => {
            proof {
                lemma_window_under(c0.windows@, x, y, 0, MAX_WINDOWS as int);
            }
            None
        },
    }
}

/// The live window with id `id`, as `Composer::find_window_id` finds it.
pub fn live_window(composer: &mut Composer, id: usize) -> (r: Option<Window>)
    ensures
        *final(composer) == *old(composer),
        r == live_window_from(old(composer).windows@, id, 0),
{
    let ghost c0 = *composer;
    match composer.find_window_id(id) {
        Some(w) => {
            let found = *w;
            proof {
                let i = choose|i: int|
                    0 <= i < MAX_WINDOWS && live_with_id(#[trigger] c0.windows@[i], id) && (forall|j: int|
                        0 <= j < i ==> !live_with_id(#[trigger] c0.windows@[j], id)) && found == c0.windows@[i];
                lemma_live_window(c0.windows@, id, 0, i);
            }
            proof {
                assert(composer.windows@ =~= c0.windows@);
                assert(composer.windows =~= c0.windows);
            }
            Some(found)
        },
        None => {
            proof {
                lemma_live_window(c0.windows@, id, 0, MAX_WINDOWS as int);
            }
            None
        },
    }
}

/// Some live window has id `id`, so looking it up finds one.
proof fn lemma_has_live_found(c: Composer, id: usize)
    requires
        has_live(c, id),
    ensures
        live_window_from(c.windows@, id, 0) is Some,
{
    let k = choose|i: int| 0 <= i < MAX_WINDOWS && live_with_id(#[trigger] c.windows@[i], id);
    lemma_live_window_some(c.windows@, id, 0, k);
}

proof fn lemma_live_window_some(ws: Seq<Window>, id: usize, i: int, k: int)
    requires
        0 <= i <= k < ws.len(),
        live_with_id(ws[k], id),
    ensures
        live_window_from(ws, id, i) is Some,
    decreases k - i,
{
    if i < k && !live_with_id(ws[i], id) {
        lemma_live_window_some(ws, id, i + 1, k);
    }
}

/// A live window found by id satisfies what holds of every slot.
proof fn lemma_live_window_in(ws: Seq<Window>, id: usize, i: int)
    requires
        0 <= i <= ws.len(),
    ensures
        live_window_from(ws, id, i) matches Some(w) ==> exists|j: int| i <= j < ws.len() && ws[j] == w && live_with_id(w, id),
    decreases ws.len() - i,
{
    if 0 <= i < ws.len() && !live_with_id(ws[i], id) {
        lemma_live_window_in(ws, id, i + 1);
    }
}

/// A window found under the point is one of the slots.
proof fn lemma_window_under_in(ws: Seq<Window>, x: usize, y: usize, i: int)
    requires
        0 <= i <= ws.len(),
    ensures
        window_under_from(ws, x, y, i) matches Some(w) ==> exists|j: int| i <= j < ws.len() && ws[j] == w,
    decreases ws.len() - i,
{
    if 0 <= i < ws.len() && !window_at(ws[i], x, y) {
        lemma_window_under_in(ws, x, y, i + 1);
    }
}

/// The larger of two signed values.
fn max_i32(a: i32, b: i32) -> (r: i32)
    ensures
        r == if a >= b { a } else { b },
{
    if a >= b {
        a
    } else {
        b
    }
}

/// The smaller of two signed values.
fn min_i32(a: i32, b: i32) -> (r: i32)
    ensures
        r == if a <= b { a } else { b },
{
    if a <= b {
        a
    } else {
        b
    }
}

/// The smaller of two unsigned values.
fn min_u32(a: u32, b: u32) -> (r: u32)
    ensures
        r == if a <= b { a } else { b },
{
    if a <= b {
        a
    } else {
        b
    }
}

/// The larger of two unsigned values.
fn max_u32(a: u32, b: u32) -> (r: u32)
    ensures
        r == if a >= b { a } else { b },
{
    if a >= b {
        a
    } else {
        b
    }
}

/// What a packet does to the drag bookkeeping before any window moves: the press edge
/// records whether the press landed on a movable window with the super key down, a held
/// button counts packets (a drag after more than two), a release clears both.
pub open spec fn press_state(
    old_ptr: PointerState,
    prev_left: bool,
    left: bool,
    under: Option<Window>,
    super_active: bool,
) -> (bool, usize, u8, bool) {
    let (titlebar, clicked) = if left && !prev_left {
        match under {
            Some(w) => if w.can_move && super_active {
                (true, w.id)
            } else {
                (false, old_ptr.clicked_window_id)
            },
            None => (false, old_ptr.clicked_window_id),
        }
    } else if !left {
        (false, old_ptr.clicked_window_id)
    } else {
        (old_ptr.click_started_in_titlebar, old_ptr.clicked_window_id)
    };
    let drags = if left {
        vstd::wrapping::u8_specs::wrapping_add(old_ptr.drags, 1)
    } else {
        0
    };
    let drag = if left {
        old_ptr.drag || drags > 2
    } else {
        false
    };
    (titlebar, clicked, drags, drag)
}

/// The pointer's horizontal position after a packet, before any drag adjusts it.
pub open spec fn packet_x(x: u16, data: [u8; 4], screen_w: u16, dragging: bool) -> int {
    clamp_axis(x as int, axis_delta(data@[1], data@[0] & 0x10 != 0), axis_limit(screen_w, dragging))
}

/// The pointer's vertical position after a packet (screen y grows downwards), before any
/// drag adjusts it.
pub open spec fn packet_y(y: u16, data: [u8; 4], screen_h: u16, dragging: bool) -> int {
    clamp_axis(y as int, -axis_delta(data@[2], data@[0] & 0x20 != 0), axis_limit(screen_h, dragging))
}

/// The mouse event the window `w` under the pointer gets: the pointer relative to the
/// window (never negative), the buttons and the scroll step.
pub open spec fn mouse_event_for(w: Window, x: u16, y: u16, left: bool, right: bool, center: bool, scroll: i8) -> Event {
    Event::Mouse(MouseEvent {
        wid: w.id as u32,
        x: if x - w.x > 0 { (x - w.x) as usize } else { 0 },
        y: if y - w.y > 0 { (y - w.y) as usize } else { 0 },
        buttons: [left, right, center],
        scroll,
    })
}

/// The press bookkeeping a packet leads to.
pub open spec fn cursor_press(
    m: Mouse,
    p: PointerState,
    c: Composer,
    data: [u8; 4],
    screen_w: u16,
    screen_h: u16,
    super_active: bool,
) -> (bool, usize, u8, bool) {
    let dragging = p.dragging_window != 0;
    let px = packet_x(m.x, data, screen_w, dragging);
    let py = packet_y(m.y, data, screen_h, dragging);
    press_state(p, m.left, data[0] & 1 != 0, window_under_from(c.windows@, px as usize, py as usize, 0), super_active)
}

/// The packet starts dragging the window clicked: the button has been held long enough and
/// the press landed on a movable window with the super key down.
pub open spec fn cursor_starts_drag(
    m: Mouse,
    p: PointerState,
    c: Composer,
    data: [u8; 4],
    screen_w: u16,
    screen_h: u16,
    super_active: bool,
) -> bool {
    let ps = cursor_press(m, p, c, data, screen_w, screen_h, super_active);
    ps.3 && ps.0
}

/// The queue after the pointer hovers at (x, y): the window under it, when it takes events,
/// gets a mouse event.
pub open spec fn hover_queue(q0: EventQueue, q1: EventQueue, c: Composer, x: u16, y: u16, data: [u8; 4]) -> bool {
    match window_under_from(c.windows@, x as usize, y as usize, 0) {
        Some(w) => if w.event_handler != 0 {
            q1@ == queue_after_add(
                q0@,
                mouse_event_for(w, x, y, data[0] & 1 != 0, data[0] & 2 != 0, data[0] & 4 != 0, data[3] as i8),
            )
        } else {
            q1 == q0
        },
        None => q1 == q0,
    }
}

/// How far a resize outline reaches along one axis: the old extent moved by `delta`, taken
/// without its sign, and kept within the screen from the window's edge (not below 0).
pub open spec fn resize_extent(size: int, delta: int, pos: int, screen: int) -> int {
    let v = size + delta;
    let a = if v < 0 { -v } else { v };
    let start = if pos > 0 { pos } else { 0 };
    let room = if screen > start { screen - start } else { 0 };
    if a > room { room } else { a }
}

/// `v` raised to at least `lo`, then lowered to at most `hi`.
pub open spec fn clamp_to(v: int, lo: int, hi: int) -> int {
    let m = if v >= lo { v } else { lo };
    if m <= hi { m } else { hi }
}

/// Where a dragged window's coordinate goes along one axis: the pointer moves by `rel` from
/// `pointer` within `screen + 50`, the window by as much, kept three pixels on screen.
pub open spec fn drag_window_to(pointer: int, rel: int, win: int, size: int, screen: int) -> int {
    clamp_to(win + (clamp_to(pointer + rel, 0, screen + 49) - pointer), 3 - size, screen - 3)
}

/// Where the pointer goes along one axis once the window moved from `win` to `new_win`.
pub open spec fn drag_pointer_to(pointer: int, win: int, new_win: int, screen: int) -> int {
    clamp_to(pointer + (new_win - win), 0, screen + 49)
}

/// The first slot from `i` on whose window has id `id`, or -1.
pub open spec fn first_id_from(ws: Seq<Window>, id: usize, i: int) -> int
    decreases ws.len() - i,
{
    if i < 0 || i >= ws.len() {
        -1
    } else if ws[i].id == id {
        i
    } else {
        first_id_from(ws, id, i + 1)
    }
}

pub(crate) proof fn lemma_first_id_skip(ws: Seq<Window>, id: usize, s: int, i: int)
    requires
        0 <= s <= i <= ws.len(),
        forall|k: int| s <= k < i ==> #[trigger] ws[k].id != id,
    ensures
        first_id_from(ws, id, s) == first_id_from(ws, id, i),
    decreases i - s,
{
    if s < i {
        lemma_first_id_skip(ws, id, s + 1, i);
    }
}

pub(crate) proof fn lemma_first_id_found(ws: Seq<Window>, id: usize, i: int, j: int)
    requires
        0 <= i <= j < ws.len(),
        ws[j].id == id,
    ensures
        i <= first_id_from(ws, id, i) <= j,
    decreases j - i,
{
    if ws[i].id != id {
        lemma_first_id_found(ws, id, i + 1, j);
    }
}

/// The left (or top) edge of what a drag step repaints along one axis: the old and new
/// window edges (not below 0) and the pointer.
pub open spec fn repaint_start(win: int, new_win: int, pointer: int) -> int {
    let a = if win >= 0 { win } else { 0 };
    let b = if new_win >= 0 { new_win } else { 0 };
    let m = if a <= b { a } else { b };
    if m <= pointer { m } else { pointer }
}

/// The right (or bottom) edge of what a drag step repaints along one axis: the old and new
/// window ends and the end of the 32-pixel pointer, each kept on screen.
pub open spec fn repaint_end(win: int, new_win: int, size: int, pointer: int, screen: int) -> int {
    let a = clamp_to(win + size, 0, screen);
    let b = clamp_to(new_win + size, 0, screen);
    let c = if pointer + 32 <= screen { pointer + 32 } else { screen };
    let m = if a >= b { a } else { b };
    if m >= c { m } else { c }
}

/// `end - start`, or 0 when that is not positive.
pub open spec fn gap(start: int, end: int) -> int {
    if end > start { end - start } else { 0 }
}

impl Mouse {
    /// Moves the pointer by a packet's movement and takes its buttons; returns the decoded
    /// movement.
    fn take_packet(&mut self, ptr: &mut PointerState, data: [u8; 4], screen_w: u16, screen_h: u16) -> (r: (i16, i16))
        requires
            screen_w <= 16000,
            screen_h <= 16000,
            old(self).x <= screen_w + 50,
            old(self).y <= screen_h + 50,
        ensures
            r.0 == axis_delta(data@[1], data@[0] & 0x10 != 0),
            r.1 == axis_delta(data@[2], data@[0] & 0x20 != 0),
            final(self).x == packet_x(old(self).x, data, screen_w, old(ptr).dragging_window != 0),
            final(self).y == packet_y(old(self).y, data, screen_h, old(ptr).dragging_window != 0),
            final(self).x <= screen_w + 50,
            final(self).y <= screen_h + 50,
            final(self).left == (data[0] & 1 != 0),
            final(self).right == (data[0] & 2 != 0),
            final(self).center == (data[0] & 4 != 0),
            final(self).state == old(self).state,
            *final(ptr) == (PointerState { last_input: data[0], ..*old(ptr) }),
    {
        let x_rel = decode_axis(data[1], (data[0] & 0x10) != 0);
        let y_rel = decode_axis(data[2], (data[0] & 0x20) != 0);
        let dragging_now = ptr.dragging_window != 0;
        self.x = self.clamp_mx(x_rel, screen_w, dragging_now);
        self.y = self.clamp_my(-y_rel, screen_h, dragging_now);
        self.left = (data[0] & 0b00000001) != 0;
        self.right = (data[0] & 0b00000010) != 0;
        self.center = (data[0] & 0b00000100) != 0;
        ptr.last_input = data[0];
        (x_rel, y_rel)
    }

    /// Records a press edge and counts held packets.
    fn track_press(&self, ptr: &mut PointerState, composer: &mut Composer, prev_left: bool, super_active: bool)
        requires
            windows_ok(*old(composer)),
        ensures
            *final(composer) == *old(composer),
            ({
                let ps = press_state(
                    *old(ptr),
                    prev_left,
                    self.left,
                    window_under_from(old(composer).windows@, self.x as usize, self.y as usize, 0),
                    super_active,
                );
                &&& final(ptr).click_started_in_titlebar == ps.0
                &&& final(ptr).clicked_window_id == ps.1
                &&& final(ptr).drags == ps.2
                &&& final(ptr).drag == ps.3
            }),
            final(ptr).last_input == old(ptr).last_input,
            final(ptr).dragging_window == old(ptr).dragging_window,
            final(ptr).resizing_window == old(ptr).resizing_window,
            final(ptr).w_width == old(ptr).w_width,
            final(ptr).w_height == old(ptr).w_height,
    {
        if self.left && !prev_left {
            match window_under(composer, self.x as usize, self.y as usize) {
                Some(ws) => {
                    if ws.can_move && super_active {
                        ptr.click_started_in_titlebar = true;
                        ptr.clicked_window_id = ws.id;
                    } else {
                        ptr.click_started_in_titlebar = false;
                    }
                },
                None => {
                    ptr.click_started_in_titlebar = false;
                },
            }
        } else if !self.left {
            ptr.click_started_in_titlebar = false;
        }
        if self.left {
            ptr.drags = ptr.drags.wrapping_add(1);
            if ptr.drags > 2 {
                ptr.drag = true;
            }
        } else {
            ptr.drags = 0;
            ptr.drag = false;
        }
    }

    /// On release, ends a resize (telling the window its new size) or a drag (repainting
    /// it where it landed). Returns the drawing when a drag ended, which ends the packet.
    fn end_gesture(
        &self,
        ptr: &mut PointerState,
        composer: &mut Composer,
        queue: &mut EventQueue,
        old_x: u16,
        old_y: u16,
    ) -> (r: Option<Vec<MouseAction>>)
        requires
            !self.left,
            old(queue).wf(),
            windows_ok(*old(composer)),
            old(ptr).resizing_window != 0 ==> has_live(*old(composer), old(ptr).resizing_window as usize),
            old(ptr).dragging_window != 0 ==> has_live(*old(composer), old(ptr).dragging_window as usize),
        ensures
            *final(composer) == *old(composer),
            final(queue).wf(),
            final(ptr).drags == old(ptr).drags && final(ptr).drag == old(ptr).drag,
            final(ptr).click_started_in_titlebar == old(ptr).click_started_in_titlebar,
            final(ptr).clicked_window_id == old(ptr).clicked_window_id,
            final(ptr).last_input == old(ptr).last_input,
            final(ptr).w_width <= old(ptr).w_width && final(ptr).w_height <= old(ptr).w_height,
            old(ptr).resizing_window != 0 ==> r is None && final(ptr).resizing_window == 0 && final(ptr).dragging_window == 0
                && final(ptr).w_width == 0 && final(ptr).w_height == 0,
            old(ptr).resizing_window == 0 && old(ptr).dragging_window != 0 ==> {
                &&& final(ptr).dragging_window == 0
                &&& *final(queue) == *old(queue)
                &&& r matches Some(a) && a@.len() == 4 && a@[0] == MouseAction::CopyWindow(old(ptr).dragging_window as usize)
                    && a@[3] == (MouseAction::DrawMouse { x: self.x, y: self.y, dragging: false })
            },
            old(ptr).resizing_window == 0 && old(ptr).dragging_window == 0 ==> r is None && *final(ptr) == *old(ptr)
                && *final(queue) == *old(queue),
    {
        if ptr.resizing_window != 0 {
            proof {
                lemma_has_live_found(*composer, ptr.resizing_window as usize);
            }
            if let Some(w) = live_window(composer, ptr.resizing_window as usize) {
                ptr.dragging_window = 0;
                ptr.resizing_window = 0;
                if w.event_handler != 0 {
                    queue.add_event(Event::Resize(ResizeEvent { wid: w.id as u32, width: ptr.w_width, height: ptr.w_height }));
                }
                ptr.w_width = 0;
                ptr.w_height = 0;
            }
            return None;
        } else if ptr.dragging_window != 0 {
            let wid = ptr.dragging_window as usize;
            proof {
                lemma_has_live_found(*composer, wid);
                lemma_live_window_in(composer.windows@, wid, 0);
            }
            if let Some(w) = live_window(composer, wid) {
                proof {
                    let j = choose|j: int| 0 <= j < composer.windows@.len() && composer.windows@[j] == w && live_with_id(w, wid);
                    assert(window_sane(composer.windows@[j]));
                }
                let mut actions: Vec<MouseAction> = Vec::new();
                actions.push(MouseAction::CopyWindow(wid));
                actions.push(MouseAction::CopyToFb { x: old_x as i32, y: old_y as i32, width: 32, height: 32 });
                actions.push(MouseAction::CopyToFb { x: w.x as i32, y: w.y as i32, width: w.width as u32, height: w.height as u32 });
                actions.push(MouseAction::DrawMouse { x: self.x, y: self.y, dragging: false });
                ptr.dragging_window = 0;
                ptr.resizing_window = 0;
                ptr.w_width = 0;
                ptr.w_height = 0;
                return Some(actions);
            }
        }
        None
    }

    /// Grows or shrinks the resize outline by the pointer's movement, kept on screen.
    fn resize_step(
        &self,
        ptr: &mut PointerState,
        composer: &mut Composer,
        x_rel: i16,
        y_rel: i16,
        screen_w: u16,
        screen_h: u16,
        virtio_active: bool,
        actions: &mut Vec<MouseAction>,
    )
        requires
            old(ptr).resizing_window != 0,
            has_live(*old(composer), old(ptr).resizing_window as usize),
            windows_ok(*old(composer)),
            -256 <= x_rel <= 256,
            -256 <= y_rel <= 256,
            old(ptr).w_width <= 16000,
            old(ptr).w_height <= 16000,
            screen_w <= 16000,
            screen_h <= 16000,
        ensures
            *final(composer) == *old(composer),
            final(ptr).w_width <= screen_w && final(ptr).w_height <= screen_h,
            *final(ptr) == (PointerState { w_width: final(ptr).w_width, w_height: final(ptr).w_height, ..*old(ptr) }),
            final(actions)@.len() >= old(actions)@.len(),
            final(actions)@.subrange(0, old(actions)@.len() as int) == old(actions)@,
            live_window_from(old(composer).windows@, old(ptr).resizing_window as usize, 0) matches Some(w) && {
                &&& final(ptr).w_width == resize_extent(old(ptr).w_width as int, x_rel as int, w.x as int, screen_w as int)
                &&& final(ptr).w_height == resize_extent(old(ptr).w_height as int, -(y_rel as int), w.y as int, screen_h as int)
                &&& final(actions)@.len() > old(actions)@.len()
                &&& final(actions)@[old(actions)@.len() as int] == MouseAction::DrawOutline {
                    x: w.y as u16,
                    y: w.x as u16,
                    width: final(ptr).w_height as u16,
                    height: final(ptr).w_width as u16,
                }
            },
    {
        let ghost a0 = actions@;
        let dx = x_rel;
        let dy = -y_rel;
        proof {
            lemma_has_live_found(*composer, ptr.resizing_window as usize);
            lemma_live_window_in(composer.windows@, ptr.resizing_window as usize, 0);
        }
        if let Some(w) = live_window(composer, ptr.resizing_window as usize) {
            proof {
                let j = choose|j: int|
                    0 <= j < composer.windows@.len() && composer.windows@[j] == w && live_with_id(w, ptr.resizing_window as usize);
                assert(window_sane(composer.windows@[j]));
            }
            let final_width = self.rem_sign(ptr.w_width as i16 + dx) as usize;
            let final_height = self.rem_sign(ptr.w_height as i16 + dy) as usize;
            let wx: usize = if w.x > 0 { w.x as usize } else { 0 };
            let wy: usize = if w.y > 0 { w.y as usize } else { 0 };
            ptr.w_width = cap(final_width, (screen_w as usize).saturating_sub(wx));
            ptr.w_height = cap(final_height, (screen_h as usize).saturating_sub(wy));
            actions.push(MouseAction::DrawOutline { x: w.y as u16, y: w.x as u16, width: ptr.w_height as u16, height: ptr.w_width as u16 });
            if virtio_active {
                actions.push(MouseAction::Flush { x: w.x as u32, y: w.y as u32, width: ptr.w_width as u32, height: ptr.w_height as u32 });
            }
            actions.push(MouseAction::DrawMouse { x: self.x, y: self.y, dragging: false });
            if virtio_active {
                let mx = self.x as u32;
                let my = self.y as u32;
                let sw = screen_w as u32;
                let sh = screen_h as u32;
                let fw = min_u32(32, sw.saturating_sub(mx));
                let fh = min_u32(32, sh.saturating_sub(my));
                if fw > 0 && fh > 0 {
                    actions.push(MouseAction::Flush { x: mx, y: my, width: fw, height: fh });
                }
            }
        }
        proof {
            assert(actions@.subrange(0, a0.len() as int) =~= a0);
        }
    }

    /// Moves the dragged window with the pointer, keeping three pixels of it on screen, and
    /// the pointer with it.
    #[verifier::rlimit(100)]
    #[verifier::spinoff_prover]
    fn drag_step(
        &mut self,
        ptr: &PointerState,
        composer: &mut Composer,
        old_x: u16,
        old_y: u16,
        x_rel: i16,
        y_rel: i16,
        screen_w: u16,
        screen_h: u16,
        virtio_active: bool,
        actions: &mut Vec<MouseAction>,
    )
        requires
            ptr.dragging_window != 0,
            windows_ok(*old(composer)),
            -256 <= x_rel <= 256,
            -256 <= y_rel <= 256,
            screen_w <= 16000,
            screen_h <= 16000,
            old_x <= screen_w + 50,
            old_y <= screen_h + 50,
            old(self).x <= screen_w + 50,
            old(self).y <= screen_h + 50,
        ensures
            windows_ok(*final(composer)),
            final(self).x <= screen_w + 50,
            final(self).y <= screen_h + 50,
            final(self).left == old(self).left && final(self).right == old(self).right,
            final(self).center == old(self).center && final(self).state == old(self).state,
            final(actions)@.len() >= old(actions)@.len(),
            final(actions)@.subrange(0, old(actions)@.len() as int) == old(actions)@,
            forall|i: int| 0 <= i < MAX_WINDOWS && final(composer).windows@[i] != old(composer).windows@[i] ==> {
                let w = old(composer).windows@[i];
                let n = final(composer).windows@[i];
                &&& n == (Window { x: n.x, y: n.y, ..w })
                &&& n.x <= screen_w - 3
                &&& n.y <= screen_h - 3
            },
            live_window_from(old(composer).windows@, ptr.dragging_window as usize, 0) is None ==> *final(self) == *old(self)
                && *final(composer) == *old(composer) && final(actions)@ == old(actions)@,
            live_window_from(old(composer).windows@, ptr.dragging_window as usize, 0) matches Some(w) ==> {
                let nx = drag_window_to(old_x as int, x_rel as int, w.x as int, w.width as int, screen_w as int);
                let ny = drag_window_to(old_y as int, -(y_rel as int), w.y as int, w.height as int, screen_h as int);
                let px = drag_pointer_to(old_x as int, w.x as int, nx, screen_w as int);
                let py = drag_pointer_to(old_y as int, w.y as int, ny, screen_h as int);
                let k = first_id_from(old(composer).windows@, w.id, 0);
                let a = old(actions)@.len() as int;
                let fx = repaint_start(w.x as int, nx, px);
                let fy = repaint_start(w.y as int, ny, py);
                let fw = gap(fx, repaint_end(w.x as int, nx, w.width as int, px, screen_w as int));
                let fh = gap(fy, repaint_end(w.y as int, ny, w.height as int, py, screen_h as int));
                &&& final(self).x == px && final(self).y == py
                &&& 0 <= k < MAX_WINDOWS
                &&& final(composer).windows@ == old(composer).windows@.update(
                    k,
                    Window { x: nx as isize, y: ny as isize, ..old(composer).windows@[k] },
                )
                &&& final(actions)@[a] == MouseAction::CopyToFb { x: w.x as i32, y: w.y as i32, width: w.width as u32, height: w.height as u32 }
                &&& final(actions)@[a + 1] == MouseAction::CopyToFbA {
                    width: w.width as u32,
                    height: w.height as u32,
                    buffer: w.buffer,
                    x: nx as i32,
                    y: ny as i32,
                }
                &&& final(actions)@[a + 2] == MouseAction::DrawMouse { x: px as u16, y: py as u16, dragging: true }
                &&& virtio_active && fw > 0 && fh > 0 ==> final(actions)@.len() == a + 4 && final(actions)@[a + 3] == MouseAction::Flush {
                    x: fx as u32,
                    y: fy as u32,
                    width: fw as u32,
                    height: fh as u32,
                }
                &&& !(virtio_active && fw > 0 && fh > 0) ==> final(actions)@.len() == a + 3
            },
    {
        let ghost a0 = actions@;
        let ghost c0 = *composer;
            let wid = ptr.dragging_window as usize;
            proof {
                lemma_live_window_in(composer.windows@, wid, 0);
            }
            let w = match live_window(composer, wid) {
                Some(w) => w,
                None => {
                    proof {
                        assert(actions@.subrange(0, a0.len() as int) =~= a0);
                    }
                    return;
                },
            };
            proof {
                let j = choose|j: int| 0 <= j < composer.windows@.len() && composer.windows@[j] == w && live_with_id(w, wid);
                assert(window_sane(composer.windows@[j]));
            }
            let old_win_x = w.x;
            let old_win_y = w.y;
            let width = w.width;
            let height = w.height;
            let id = w.id;
            let buffer = w.buffer;
            let target_mx = old_x as i32 + x_rel as i32;
            let target_my = old_y as i32 - y_rel as i32;
            let sw = screen_w as i32;
            let sh = screen_h as i32;
            let mouse_limit_w = sw + 50;
            let mouse_limit_h = sh + 50;
            let clamped_mx = min_i32(max_i32(target_mx, 0), mouse_limit_w - 1);
            let clamped_my = min_i32(max_i32(target_my, 0), mouse_limit_h - 1);
            let mouse_dx = clamped_mx - old_x as i32;
            let mouse_dy = clamped_my - old_y as i32;
            let target_win_x = old_win_x as i32 + mouse_dx;
            let target_win_y = old_win_y as i32 + mouse_dy;
            let margin: i32 = 3;
            let min_visible_x = -(width as i32) + margin;
            let max_visible_x = sw - margin;
            let min_visible_y = -(height as i32) + margin;
            let max_visible_y = sh - margin;
            let clamped_win_x = min_i32(max_i32(target_win_x, min_visible_x), max_visible_x);
            let clamped_win_y = min_i32(max_i32(target_win_y, min_visible_y), max_visible_y);
            let allowed_dx = clamped_win_x - old_win_x as i32;
            let allowed_dy = clamped_win_y - old_win_y as i32;
            self.x = min_i32(max_i32(old_x as i32 + allowed_dx, 0), mouse_limit_w - 1) as u16;
            self.y = min_i32(max_i32(old_y as i32 + allowed_dy, 0), mouse_limit_h - 1) as u16;
            let new_x = clamped_win_x as isize;
            let new_y = clamped_win_y as isize;
            proof {
                assert(clamped_win_x == drag_window_to(old_x as int, x_rel as int, w.x as int, w.width as int, screen_w as int));
                assert(clamped_win_y == drag_window_to(old_y as int, -(y_rel as int), w.y as int, w.height as int, screen_h as int));
                assert(self.x == drag_pointer_to(old_x as int, w.x as int, clamped_win_x as int, screen_w as int));
                assert(self.y == drag_pointer_to(old_y as int, w.y as int, clamped_win_y as int, screen_h as int));
            }
            let mut i: usize = 0;
            while i < MAX_WINDOWS && composer.windows[i].id != id
                invariant
                    *composer == c0,
                    i <= MAX_WINDOWS,
                    forall|k: int| 0 <= k < i ==> #[trigger] c0.windows@[k].id != id,
                decreases MAX_WINDOWS - i,
            {
                i += 1;
            }
            proof {
                let j = choose|j: int| 0 <= j < composer.windows@.len() && composer.windows@[j] == w && live_with_id(w, wid);
                lemma_first_id_found(c0.windows@, id, 0, j);
                lemma_first_id_skip(c0.windows@, id, 0, i as int);
                if i < MAX_WINDOWS {
                    assert(first_id_from(c0.windows@, id, i as int) == i);
                } else {
                    assert(c0.windows@[j].id == id);
                    assert(false);
                }
            }
            let mut moved = composer.windows[i];
            proof {
                assert(window_sane(composer.windows@[i as int]));
            }
            moved.x = new_x;
            moved.y = new_y;
            composer.windows[i] = moved;
            proof {
                assert(composer.windows@ =~= c0.windows@.update(i as int, Window { x: new_x, y: new_y, ..c0.windows@[i as int] }));
                assert forall|k: int| 0 <= k < MAX_WINDOWS implies window_fits(#[trigger] composer.windows@[k]) && window_sane(composer.windows@[k]) by {
                    if k != i {
                        assert(composer.windows@[k] == c0.windows@[k]);
                    }
                }
            }
            actions.push(MouseAction::CopyToFb { x: old_win_x as i32, y: old_win_y as i32, width: width as u32, height: height as u32 });
            actions.push(MouseAction::CopyToFbA { width: width as u32, height: height as u32, buffer, x: new_x as i32, y: new_y as i32 });
            let old_x_clamped = max_i32(old_win_x as i32, 0) as u32;
            let old_y_clamped = max_i32(old_win_y as i32, 0) as u32;
            let new_x_clamped = max_i32(new_x as i32, 0) as u32;
            let new_y_clamped = max_i32(new_y as i32, 0) as u32;
            let mouse_x = self.x as u32;
            let mouse_y = self.y as u32;
            let screen_w_u32 = sw as u32;
            let screen_h_u32 = sh as u32;
            let old_x_end = max_i32(min_i32(max_i32(old_win_x as i32 + width as i32, 0), sw), 0) as u32;
            let old_y_end = max_i32(min_i32(max_i32(old_win_y as i32 + height as i32, 0), sh), 0) as u32;
            let new_x_end = max_i32(min_i32(max_i32(new_x as i32 + width as i32, 0), sw), 0) as u32;
            let new_y_end = max_i32(min_i32(max_i32(new_y as i32 + height as i32, 0), sh), 0) as u32;
            let mouse_x_end = min_u32(mouse_x + 32, screen_w_u32);
            let mouse_y_end = min_u32(mouse_y + 32, screen_h_u32);
            let min_x = min_u32(min_u32(old_x_clamped, new_x_clamped), mouse_x);
            let min_y = min_u32(min_u32(old_y_clamped, new_y_clamped), mouse_y);
            let max_x = max_u32(max_u32(old_x_end, new_x_end), mouse_x_end);
            let max_y = max_u32(max_u32(old_y_end, new_y_end), mouse_y_end);
            let flush_w = max_x.saturating_sub(min_x);
            let flush_h = max_y.saturating_sub(min_y);
            proof {
                assert(min_x == repaint_start(w.x as int, new_x as int, self.x as int));
                assert(min_y == repaint_start(w.y as int, new_y as int, self.y as int));
                assert(max_x == repaint_end(w.x as int, new_x as int, w.width as int, self.x as int, screen_w as int));
                assert(max_y == repaint_end(w.y as int, new_y as int, w.height as int, self.y as int, screen_h as int));
                assert(flush_w == gap(min_x as int, max_x as int));
                assert(flush_h == gap(min_y as int, max_y as int));
            }
            actions.push(MouseAction::DrawMouse { x: self.x, y: self.y, dragging: true });
            if virtio_active && flush_w > 0 && flush_h > 0 {
                actions.push(MouseAction::Flush { x: min_x, y: min_y, width: flush_w, height: flush_h });
            }
        proof {
            assert(actions@.subrange(0, a0.len() as int) =~= a0);
        }
    }

    /// Redraws the pointer where it moved and sends the window under it a mouse event.
    fn hover_step(
        &self,
        ptr: &mut PointerState,
        composer: &mut Composer,
        queue: &mut EventQueue,
        old_x: u16,
        old_y: u16,
        scroll_val: i8,
        screen_w: u16,
        screen_h: u16,
        virtio_active: bool,
        actions: &mut Vec<MouseAction>,
    )
        requires
            old(queue).wf(),
            windows_ok(*old(composer)),
            screen_w <= 16000,
            screen_h <= 16000,
            old_x <= screen_w + 50,
            old_y <= screen_h + 50,
            self.x <= screen_w + 50,
            self.y <= screen_h + 50,
        ensures
            *final(composer) == *old(composer),
            final(queue).wf(),
            *final(ptr) == (PointerState { clicked_window_id: final(ptr).clicked_window_id, ..*old(ptr) }),
            final(actions)@.len() >= old(actions)@.len() + 2,
            final(actions)@.subrange(0, old(actions)@.len() as int) == old(actions)@,
            final(actions)@[old(actions)@.len() as int] == (MouseAction::CopyToFb { x: old_x as i32, y: old_y as i32, width: 32, height: 32 }),
            final(actions)@[old(actions)@.len() as int + 1] == (MouseAction::DrawMouse { x: self.x, y: self.y, dragging: false }),
            (match window_under_from(old(composer).windows@, self.x as usize, self.y as usize, 0) {
                Some(w) => if w.event_handler != 0 {
                    final(queue)@ == queue_after_add(
                        old(queue)@,
                        mouse_event_for(w, self.x, self.y, self.left, self.right, self.center, scroll_val),
                    )
                } else {
                    *final(queue) == *old(queue)
                },
                None => *final(queue) == *old(queue),
            }),
    {
        let ghost a0 = actions@;
        actions.push(MouseAction::CopyToFb { x: old_x as i32, y: old_y as i32, width: 32, height: 32 });
        actions.push(MouseAction::DrawMouse { x: self.x, y: self.y, dragging: false });
        if virtio_active {
            let u_old_x = old_x as u32;
            let u_old_y = old_y as u32;
            let u_new_x = self.x as u32;
            let u_new_y = self.y as u32;
            let min_x = min_u32(u_old_x, u_new_x);
            let min_y = min_u32(u_old_y, u_new_y);
            let max_x = max_u32(u_old_x + 32, u_new_x + 32);
            let max_y = max_u32(u_old_y + 32, u_new_y + 32);
            let sw = screen_w as u32;
            let sh = screen_h as u32;
            let flush_x = min_u32(min_x, sw);
            let flush_y = min_u32(min_y, sh);
            let flush_w = min_u32(max_x, sw).saturating_sub(flush_x);
            let flush_h = min_u32(max_y, sh).saturating_sub(flush_y);
            if flush_w > 0 && flush_h > 0 {
                actions.push(MouseAction::Flush { x: flush_x, y: flush_y, width: flush_w, height: flush_h });
            }
        }
        proof {
            lemma_window_under_in(composer.windows@, self.x as usize, self.y as usize, 0);
        }
        match window_under(composer, self.x as usize, self.y as usize) {
            Some(w) => {
                if w.event_handler != 0 {
                    proof {
                        let j = choose|j: int| 0 <= j < composer.windows@.len() && composer.windows@[j] == w;
                        assert(window_sane(composer.windows@[j]));
                    }
                    let dx = self.x as isize - w.x;
                    let dy = self.y as isize - w.y;
                    let local_x: usize = if dx > 0 { dx as usize } else { 0 };
                    let local_y: usize = if dy > 0 { dy as usize } else { 0 };
                    let event = Event::Mouse(MouseEvent {
                        wid: w.id as u32,
                        x: local_x,
                        y: local_y,
                        buttons: [self.left, self.right, self.center],
                        scroll: scroll_val,
                    });
                    queue.add_event(event);
                    if self.left {
                        ptr.clicked_window_id = w.id;
                    }
                }
            },
            None => {},
        }
        proof {
            assert(actions@.subrange(0, a0.len() as int) =~= a0);
        }
    }

    /// Handles one pointer packet: moves the pointer, tracks presses, drags a window held
    /// with the super key, keeps a resize outline going, ends a drag or resize on release,
    /// and otherwise sends the window under the pointer a mouse event. Returns the drawing
    /// to do, in order; flushes to the GPU only when `virtio_active`.
    pub fn cursor(
        &mut self,
        ptr: &mut PointerState,
        composer: &mut Composer,
        queue: &mut EventQueue,
        data: [u8; 4],
        screen_w: u16,
        screen_h: u16,
        super_active: bool,
        virtio_active: bool,
    ) -> (actions: Vec<MouseAction>)
        requires
            screen_w <= 16000,
            screen_h <= 16000,
            old(self).x <= screen_w + 50,
            old(self).y <= screen_h + 50,
            old(queue).wf(),
            windows_ok(*old(composer)),
            old(ptr).w_width <= 16000,
            old(ptr).w_height <= 16000,
            old(ptr).resizing_window != 0 ==> has_live(*old(composer), old(ptr).resizing_window as usize),
            old(ptr).dragging_window != 0 ==> has_live(*old(composer), old(ptr).dragging_window as usize),
        ensures
            final(self).left == (data[0] & 1 != 0),
            final(self).right == (data[0] & 2 != 0),
            final(self).center == (data[0] & 4 != 0),
            final(self).state == old(self).state,
            final(self).x <= screen_w + 50,
            final(self).y <= screen_h + 50,
            final(ptr).last_input == data[0],
            final(queue).wf(),
            windows_ok(*final(composer)),
            final(ptr).w_width <= 16000,
            final(ptr).w_height <= 16000,
            final(ptr).click_started_in_titlebar == cursor_press(*old(self), *old(ptr), *old(composer), data, screen_w, screen_h, super_active).0,
            final(ptr).drags == cursor_press(*old(self), *old(ptr), *old(composer), data, screen_w, screen_h, super_active).2,
            final(ptr).drag == cursor_press(*old(self), *old(ptr), *old(composer), data, screen_w, screen_h, super_active).3,
            data[0] & 1 == 0 && old(ptr).resizing_window != 0 ==> final(ptr).resizing_window == 0 && final(ptr).dragging_window
                == 0 && final(ptr).w_width == 0 && final(ptr).w_height == 0,
            data[0] & 1 == 0 && old(ptr).resizing_window == 0 && old(ptr).dragging_window != 0 ==> {
                &&& final(ptr).dragging_window == 0
                &&& final(self).x == packet_x(old(self).x, data, screen_w, true)
                &&& final(self).y == packet_y(old(self).y, data, screen_h, true)
                &&& *final(queue) == *old(queue)
                &&& *final(composer) == *old(composer)
                &&& actions@.len() == 4
                &&& actions@[0] == MouseAction::CopyWindow(old(ptr).dragging_window as usize)
            },
            old(ptr).resizing_window == 0 && old(ptr).dragging_window == 0 && cursor_starts_drag(*old(self), *old(ptr), *old(composer), data, screen_w, screen_h, super_active) ==> {
                &&& final(ptr).dragging_window == cursor_press(*old(self), *old(ptr), *old(composer), data, screen_w, screen_h, super_active).1 as u16
                &&& actions@.len() >= 1
                &&& actions@[0] == MouseAction::RecomposeExcept(cursor_press(*old(self), *old(ptr), *old(composer), data, screen_w, screen_h, super_active).1)
            },
            old(ptr).resizing_window == 0 && old(ptr).dragging_window == 0 && !cursor_starts_drag(*old(self), *old(ptr), *old(composer), data, screen_w, screen_h, super_active) ==> {
                &&& final(self).x == packet_x(old(self).x, data, screen_w, false)
                &&& final(self).y == packet_y(old(self).y, data, screen_h, false)
                &&& final(ptr).dragging_window == 0
                &&& *final(composer) == *old(composer)
                &&& actions@.len() >= 2
                &&& hover_queue(*old(queue), *final(queue), *old(composer), final(self).x, final(self).y, data)
            },
            data[0] & 1 != 0 && old(ptr).resizing_window != 0 ==> (live_window_from(
                old(composer).windows@,
                old(ptr).resizing_window as usize,
                0,
            ) matches Some(w) && {
                let outline = MouseAction::DrawOutline {
                    x: w.y as u16,
                    y: w.x as u16,
                    width: final(ptr).w_height as u16,
                    height: final(ptr).w_width as u16,
                };
                &&& *final(composer) == *old(composer)
                &&& *final(queue) == *old(queue)
                &&& final(ptr).resizing_window == old(ptr).resizing_window
                &&& final(ptr).w_width == resize_extent(old(ptr).w_width as int, axis_delta(data@[1], data@[0] & 0x10 != 0), w.x as int, screen_w as int)
                &&& final(ptr).w_height == resize_extent(old(ptr).w_height as int, -axis_delta(data@[2], data@[0] & 0x20 != 0), w.y as int, screen_h as int)
                &&& final(self).x == packet_x(old(self).x, data, screen_w, old(ptr).dragging_window != 0)
                &&& final(self).y == packet_y(old(self).y, data, screen_h, old(ptr).dragging_window != 0)
                &&& actions@.len() >= 1
                &&& actions@[0] == outline || (actions@.len() >= 2 && actions@[0] is RecomposeExcept && actions@[1] == outline)
            }),
            data[0] & 1 != 0 && old(ptr).resizing_window == 0 && old(ptr).dragging_window != 0 ==> (live_window_from(
                old(composer).windows@,
                old(ptr).dragging_window as usize,
                0,
            ) matches Some(w) && {
                let nx = drag_window_to(old(self).x as int, axis_delta(data@[1], data@[0] & 0x10 != 0), w.x as int, w.width as int, screen_w as int);
                let ny = drag_window_to(old(self).y as int, -axis_delta(data@[2], data@[0] & 0x20 != 0), w.y as int, w.height as int, screen_h as int);
                let px = drag_pointer_to(old(self).x as int, w.x as int, nx, screen_w as int);
                let py = drag_pointer_to(old(self).y as int, w.y as int, ny, screen_h as int);
                let k = first_id_from(old(composer).windows@, w.id, 0);
                &&& final(ptr).dragging_window == old(ptr).dragging_window
                &&& final(self).x == px && final(self).y == py
                &&& 0 <= k < MAX_WINDOWS
                &&& final(composer).windows@ == old(composer).windows@.update(
                    k,
                    Window { x: nx as isize, y: ny as isize, ..old(composer).windows@[k] },
                )
                &&& *final(queue) == *old(queue)
                &&& actions@.len() >= 3
                &&& actions@[0] == MouseAction::CopyToFb { x: w.x as i32, y: w.y as i32, width: w.width as u32, height: w.height as u32 }
                &&& actions@[1] == MouseAction::CopyToFbA { width: w.width as u32, height: w.height as u32, buffer: w.buffer, x: nx as i32, y: ny as i32 }
                &&& actions@[2] == MouseAction::DrawMouse { x: px as u16, y: py as u16, dragging: true }
            }),
    {
        let old_x = self.x;
        let old_y = self.y;
        let prev_left = self.left;
        let (x_rel, y_rel) = self.take_packet(ptr, data, screen_w, screen_h);
        let scroll_val = data[3] as i8;
        self.track_press(ptr, composer, prev_left, super_active);
        let mut actions: Vec<MouseAction> = Vec::new();
        if !self.left {
            if let Some(done) = self.end_gesture(ptr, composer, queue, old_x, old_y) {
                return done;
            }
        }
        if ptr.drag && ptr.click_started_in_titlebar {
            if ptr.dragging_window == 0 {
                let wid = ptr.clicked_window_id;
                ptr.dragging_window = wid as u16;
                actions.push(MouseAction::RecomposeExcept(wid));
            }
        }
        let ghost a1 = actions@;
        if ptr.resizing_window != 0 {
            proof {
                lemma_has_live_found(*composer, ptr.resizing_window as usize);
            }
            self.resize_step(ptr, composer, x_rel, y_rel, screen_w, screen_h, virtio_active, &mut actions);
            proof {
                if a1.len() == 1 {
                    assert(actions@.subrange(0, 1)[0] == actions@[0]);
                }
            }
            return actions;
        } else if ptr.dragging_window != 0 {
            proof {
                if old(ptr).dragging_window != 0 {
                    lemma_has_live_found(*old(composer), old(ptr).dragging_window as usize);
                }
            }
            self.drag_step(ptr, composer, old_x, old_y, x_rel, y_rel, screen_w, screen_h, virtio_active, &mut actions);
            proof {
                if a1.len() >= 1 {
                    assert(actions@.subrange(0, a1.len() as int)[0] == actions@[0]);
                }
            }
            return actions;
        }
        self.hover_step(ptr, composer, queue, old_x, old_y, scroll_val, screen_w, screen_h, virtio_active, &mut actions);
        proof {
            if a1.len() >= 1 {
                assert(actions@.subrange(0, a1.len() as int)[0] == actions@[0]);
            }
        }
        actions
    }
}

} // verus!
