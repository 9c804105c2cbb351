use vstd::prelude::*;
use crate::window_manager::window::{Items, Window, new_null_window, null_window};
use crate::zorder::{sort_by_z, stable_sorted_by_z, is_permutation, lemma_perm_onto};

verus! {

/// Number of window slots.
pub const MAX_WINDOWS: usize = 16;

/// Where the first tiled window goes, and how far each further one is offset.
pub const TILE_START: usize = 50;

pub const TILE_OFFSET: usize = 30;

/// Whether the edges of a window fit the signed coordinate range.
pub open spec fn window_fits(w: Window) -> bool {
    &&& isize::MIN <= w.x + (w.width as isize) <= isize::MAX
    &&& isize::MIN <= w.y + (w.height as isize) <= isize::MAX
}

/// Whether a point (read as signed) lies on a window, edges included, that is not an empty slot.
pub open spec fn window_at(w: Window, x: usize, y: usize) -> bool {
    &&& (x as isize) >= w.x && (x as isize) <= w.x + (w.width as isize)
    &&& (y as isize) >= w.y && (y as isize) <= w.y + (w.height as isize)
    &&& w.w_type != Items::Null
}

/// Whether a slot holds live window `id`.
pub open spec fn live_with_id(w: Window, id: usize) -> bool {
    w.id == id && w.w_type != Items::Null
}

/// The first empty slot at or after `i`, or -1.
pub open spec fn first_null_from(ws: Seq<Window>, i: int) -> int
    decreases ws.len() - i,
{
    if i >= ws.len() || i < 0 {
        -1
    } else if ws[i].w_type == Items::Null {
        i
    } else {
        first_null_from(ws, i + 1)
    }
}

/// The slots after storing `w` in the first empty slot (unchanged when there is none).
pub open spec fn placed(ws: Seq<Window>, w: Window) -> Seq<Window> {
    let k = first_null_from(ws, 0);
    if k >= 0 {
        ws.update(k, w)
    } else {
        ws
    }
}

/// Number of slots among the first `n` holding an ordinary window.
pub open spec fn count_windows(ws: Seq<Window>, n: int) -> int
    decreases n,
{
    if n <= 0 {
        0
    } else {
        count_windows(ws, n - 1) + if ws[n - 1].w_type == Items::Window {
            1int
        } else {
            0int
        }
    }
}

pub open spec fn sat_inc(z: usize) -> usize {
    if z + 1 > usize::MAX {
        usize::MAX
    } else {
        (z + 1) as usize
    }
}

/// A new window as stored: fresh id; wallpaper at depth 255 and never transparent; bars and
/// popups at depth 0; anything else at depth 1; an ordinary window is movable, resizable and
/// cascaded 30 pixels further than the `count` ordinary windows already present.
pub open spec fn new_window(w: Window, id: usize, count: int) -> Window {
    let w1 = if w.w_type == Items::Wallpaper {
        Window { z: 255, transparent: false, treat_as_transparent: false, ..w }
    } else if w.w_type == Items::Bar || w.w_type == Items::Popup {
        Window { z: 0, ..w }
    } else {
        Window { z: 1, ..w }
    };
    let w2 = Window { id, ..w1 };
    if w.w_type == Items::Window {
        Window {
            x: (TILE_START + count * TILE_OFFSET) as isize,
            y: (TILE_START + count * TILE_OFFSET) as isize,
            can_move: true,
            can_resize: true,
            ..w2
        }
    } else {
        w2
    }
}

/// Depths of the other windows after adding one of kind `kind`: bars and popups stay in
/// front (0); when a bar or popup is added, windows at depth 0 move to 1; otherwise every
/// other window moves one step back.
pub open spec fn restacked_for(ws: Seq<Window>, id: usize, kind: Items) -> Seq<Window> {
    Seq::new(
        ws.len(),
        |i: int|
            {
                let x = ws[i];
                if x.id == id || x.w_type == Items::Null {
                    x
                } else if x.w_type == Items::Bar || x.w_type == Items::Popup {
                    Window { z: 0, ..x }
                } else if kind == Items::Bar || kind == Items::Popup {
                    if x.z == 0 {
                        Window { z: 1, ..x }
                    } else {
                        x
                    }
                } else {
                    Window { z: sat_inc(x.z), ..x }
                }
            },
    )
}

/// Ordinary windows become movable and resizable.
pub open spec fn tiled(ws: Seq<Window>) -> Seq<Window> {
    Seq::new(
        ws.len(),
        |i: int|
            if ws[i].w_type == Items::Window {
                Window { can_move: true, can_resize: true, ..ws[i] }
            } else {
                ws[i]
            },
    )
}

/// The slots after emptying every slot that holds window `wid` (its depth becomes 255).
pub open spec fn emptied(ws: Seq<Window>, wid: usize) -> Seq<Window> {
    Seq::new(
        ws.len(),
        |i: int|
            if ws[i].id == wid {
                Window { w_type: Items::Null, z: 255, ..ws[i] }
            } else {
                ws[i]
            },
    )
}

/// The slots after emptying every live window of process `pid`.
pub open spec fn emptied_pid(ws: Seq<Window>, pid: u64) -> Seq<Window> {
    Seq::new(
        ws.len(),
        |i: int|
            if ws[i].pid == pid && ws[i].w_type != Items::Null {
                Window { w_type: Items::Null, z: 255, ..ws[i] }
            } else {
                ws[i]
            },
    )
}

/// Depths after focusing slot `idx`: it comes to depth 1 and every other ordinary window
/// moves one step back; bars, popups, wallpaper and empty slots keep their depth.
pub open spec fn focused(ws: Seq<Window>, idx: int) -> Seq<Window> {
    Seq::new(
        ws.len(),
        |i: int|
            if i == idx {
                Window { z: 1, ..ws[i] }
            } else if ws[i].w_type == Items::Bar || ws[i].w_type == Items::Popup || ws[i].w_type
                == Items::Null || ws[i].w_type == Items::Wallpaper {
                ws[i]
            } else {
                Window { z: sat_inc(ws[i].z), ..ws[i] }
            },
    )
}

/// A slot's contents after a resize request `w`: new buffer, size and transparency; a
/// window that is not an ordinary window also takes the position and movability of `w`.
pub open spec fn resized(x: Window, w: Window) -> Window {
    let y = Window {
        buffer: w.buffer,
        width: w.width,
        height: w.height,
        transparent: w.transparent,
        treat_as_transparent: w.treat_as_transparent,
        ..x
    };
    if x.w_type != Items::Window {
        Window { x: w.x, y: w.y, can_move: w.can_move, ..y }
    } else {
        y
    }
}

pub open spec fn min_i(a: int, b: int) -> int {
    if a <= b {
        a
    } else {
        b
    }
}

pub open spec fn max_i(a: int, b: int) -> int {
    if a >= b {
        a
    } else {
        b
    }
}

/// The area a resize touches, as (left, top, right, bottom): the old and the new extent.
pub open spec fn resize_extent(x: Window, w: Window) -> (int, int, int, int) {
    let n = resized(x, w);
    (
        min_i(x.x as int, n.x as int),
        min_i(x.y as int, n.y as int),
        max_i(x.x + (x.width as isize), n.x + (w.width as isize)),
        max_i(x.y + (x.height as isize), n.y + (w.height as isize)),
    )
}

/// The arithmetic of a resize stays in the signed range.
pub open spec fn resize_fits(x: Window, w: Window) -> bool {
    let n = resized(x, w);
    let (l, t, r, b) = resize_extent(x, w);
    &&& window_fits(x)
    &&& isize::MIN <= n.x + (w.width as isize) <= isize::MAX
    &&& isize::MIN <= n.y + (w.height as isize) <= isize::MAX
    &&& isize::MIN <= r - l <= isize::MAX
    &&& isize::MIN <= b - t <= isize::MAX
}

/// The rectangle to redraw after a resize, if it is not empty.
pub open spec fn resize_dirty(x: Window, w: Window) -> Option<(i32, i32, u32, u32)> {
    let (l, t, r, b) = resize_extent(x, w);
    let dw = (if r - l > 0 { r - l } else { 0 }) as isize as u32;
    let dh = (if b - t > 0 { b - t } else { 0 }) as isize as u32;
    if dw > 0 && dh > 0 {
        Some((l as isize as i32, t as isize as i32, dw, dh))
    } else {
        None
    }
}

proof fn lemma_first_null_step(ws: Seq<Window>, i: int)
    requires
        0 <= i < ws.len(),
        ws[i].w_type != Items::Null,
    ensures
        first_null_from(ws, i) == first_null_from(ws, i + 1),
{
}

/// Whether every live window in `ws` has an id below `next`.
pub open spec fn ids_below(ws: Seq<Window>, next: usize) -> bool {
    forall|i: int| 0 <= i < ws.len() && (#[trigger] ws[i]).w_type != Items::Null ==> ws[i].id < next
}

proof fn lemma_first_null_found(ws: Seq<Window>, i: int)
    requires
        0 <= i,
        first_null_from(ws, i) >= 0,
    ensures
        i <= first_null_from(ws, i) < ws.len(),
        ws[first_null_from(ws, i)].w_type == Items::Null,
    decreases ws.len() - i,
{
    if i < ws.len() && ws[i].w_type != Items::Null {
        lemma_first_null_found(ws, i + 1);
    }
}

/// Sorting by depth and re-tiling keep every live id below `next`.
pub proof fn lemma_sorted_ids_below(s: Seq<Window>, r: Seq<Window>, next: usize)
    requires
        ids_below(s, next),
        stable_sorted_by_z(s, r),
    ensures
        ids_below(r, next),
        ids_below(tiled(r), next),
{
    let perm = choose|perm: Seq<int>|
        #[trigger] is_permutation(perm, s.len() as int) && (forall|k: int|
            0 <= k < r.len() ==> r[k] == s[#[trigger] perm[k]]);
    let t = tiled(r);
    assert forall|k: int| 0 <= k < r.len() && (#[trigger] r[k]).w_type != Items::Null implies r[k].id < next by {
        assert(r[k] == s[perm[k]]);
        assert(0 <= perm[k] < s.len());
    }
    assert forall|k: int| 0 <= k < t.len() && (#[trigger] t[k]).w_type != Items::Null implies t[k].id < next by {
        assert(t[k].id == r[k].id && t[k].w_type == r[k].w_type);
    }
}

/// Emptying the slots of a window keeps every live id below `next`.
pub proof fn lemma_emptied_ids_below(ws: Seq<Window>, wid: usize, next: usize)
    requires
        ids_below(ws, next),
    ensures
        ids_below(emptied(ws, wid), next),
{
    let e = emptied(ws, wid);
    assert forall|i: int| 0 <= i < e.len() && (#[trigger] e[i]).w_type != Items::Null implies e[i].id < next by {
        assert(e[i].id == ws[i].id);
    }
}

/// Resizing a window (and re-tiling) keeps every live id below `next`.
pub proof fn lemma_resized_ids_below(ws: Seq<Window>, i: int, w: Window, next: usize)
    requires
        ids_below(ws, next),
        0 <= i < ws.len(),
    ensures
        ids_below(ws.update(i, resized(ws[i], w)), next),
        ids_below(tiled(ws.update(i, resized(ws[i], w))), next),
{
    let u = ws.update(i, resized(ws[i], w));
    assert forall|k: int| 0 <= k < u.len() && (#[trigger] u[k]).w_type != Items::Null implies u[k].id < next by {
        assert(u[k].id == ws[k].id && u[k].w_type == ws[k].w_type);
    }
    let t = tiled(u);
    assert forall|k: int| 0 <= k < t.len() && (#[trigger] t[k]).w_type != Items::Null implies t[k].id < next by {
        assert(t[k].id == u[k].id && t[k].w_type == u[k].w_type);
    }
}

/// Adding a window keeps every live id below the next id to hand out; and when the new
/// window is live and found a free slot, exactly one live slot holds its id afterwards.
pub proof fn lemma_added_id_unique(ws0: Seq<Window>, w: Window, id: usize, count: int, r: Seq<Window>)
    requires
        ids_below(ws0, id),
        id < usize::MAX,
        stable_sorted_by_z(restacked_for(placed(ws0, new_window(w, id, count)), id, w.w_type), r),
    ensures
        ids_below(tiled(r), (id + 1) as usize),
        w.w_type != Items::Null && first_null_from(ws0, 0) >= 0 ==> exists|j: int|
            0 <= j < r.len() && live_with_id(tiled(r)[j], id) && forall|k: int|
                0 <= k < r.len() && k != j ==> !live_with_id(#[trigger] tiled(r)[k], id),
{
    let nw = new_window(w, id, count);
    let p = placed(ws0, nw);
    let s = restacked_for(p, id, w.w_type);
    let t = tiled(r);
    let k0 = first_null_from(ws0, 0);
    if k0 >= 0 {
        lemma_first_null_found(ws0, 0);
    }
    let perm = choose|perm: Seq<int>|
        #[trigger] is_permutation(perm, s.len() as int) && (forall|k: int|
            0 <= k < r.len() ==> r[k] == s[#[trigger] perm[k]]);
    assert forall|k: int| 0 <= k < r.len() implies #[trigger] t[k].id == p[perm[k]].id && t[k].w_type == p[perm[k]].w_type by {
        assert(r[k] == s[perm[k]]);
        assert(0 <= perm[k] < s.len());
    }
    assert forall|k: int| 0 <= k < t.len() && (#[trigger] t[k]).w_type != Items::Null implies t[k].id < (id + 1) as usize by {
        assert(t[k].id == p[perm[k]].id);
        let q = perm[k];
        if k0 >= 0 && q == k0 {
        } else {
            assert(p[q] == ws0[q]);
        }
    }
    if w.w_type != Items::Null && k0 >= 0 {
        lemma_perm_onto(perm, s.len() as int, k0);
        let j = choose|j: int| 0 <= j < s.len() && #[trigger] perm[j] == k0;
        assert(t[j].id == p[k0].id);
        assert(p[k0] == nw);
        assert(live_with_id(t[j], id));
        assert forall|k: int| 0 <= k < r.len() && k != j implies !live_with_id(#[trigger] t[k], id) by {
            let q = perm[k];
            assert(t[k].id == p[q].id && t[k].w_type == p[q].w_type);
            if q == k0 {
                if k < j {
                    assert(perm[k] != perm[j]);
                } else {
                    assert(perm[j] != perm[k]);
                }
            } else {
                assert(p[q] == ws0[q]);
            }
        }
    }
}

/// The windows, stacked front (smallest depth) to back, and the next id to hand out.
pub struct Composer {
    pub windows: [Window; MAX_WINDOWS],
    pub next_id: usize,
}

impl Composer {
    pub fn new() -> (c: Composer)
        ensures
            forall|i: int| 0 <= i < MAX_WINDOWS ==> #[trigger] c.windows@[i] == null_window(),
            c.next_id == 1,
            ids_below(c.windows@, c.next_id),
    {
        Composer { windows: [new_null_window(); MAX_WINDOWS], next_id: 1 }
    }

    /// The first window in stacking order that contains the point (edges included).
    pub fn find_window(&mut self, x: usize, y: usize) -> (r: Option<&mut Window>)
        requires
            forall|i: int| 0 <= i < MAX_WINDOWS ==> window_fits(#[trigger] old(self).windows@[i]),
        ensures
            r is None ==> forall|i: int|
                0 <= i < MAX_WINDOWS ==> !window_at(#[trigger] old(self).windows@[i], x, y),
            r is None ==> *final(self) == *old(self),
            r matches Some(w) ==> exists|i: int|
                0 <= i < MAX_WINDOWS && window_at(#[trigger] old(self).windows@[i], x, y) && (forall|j: int|
                    0 <= j < i ==> !window_at(#[trigger] old(self).windows@[j], x, y)) && *w
                    == old(self).windows@[i] && final(self).windows@ == old(self).windows@.update(
                    i,
                    *final(w),
                ) && final(self).next_id == old(self).next_id,
    {
        let mx = x as isize;
        let my = y as isize;
        let mut i: usize = 0;
        while i < MAX_WINDOWS
            invariant
                i <= MAX_WINDOWS,
                *self == *old(self),
                mx == x as isize,
                my == y as isize,
                forall|j: int| 0 <= j < i ==> !window_at(#[trigger] old(self).windows@[j], x, y),
                forall|i: int| 0 <= i < MAX_WINDOWS ==> window_fits(#[trigger] old(self).windows@[i]),
            decreases MAX_WINDOWS - i,
        {
            proof {
                assert(window_fits(self.windows@[i as int]));
            }
            if mx >= self.windows[i].x && mx <= (self.windows[i].x + self.windows[i].width as isize)
                && my >= self.windows[i].y && my <= (self.windows[i].y
                + self.windows[i].height as isize) {
                match self.windows[i].w_type {
                    Items::Null => {},
                    _ => return Some(&mut self.windows[i]),
                }
            }
            i += 1;
        }
        None
    }

    /// The first live window with the given id.
    pub fn find_window_id(&mut self, id: usize) -> (r: Option<&mut Window>)
        ensures
            r is None ==> forall|i: int|
                0 <= i < MAX_WINDOWS ==> !live_with_id(#[trigger] old(self).windows@[i], id),
            r is None ==> *final(self) == *old(self),
            r matches Some(w) ==> exists|i: int|
                0 <= i < MAX_WINDOWS && live_with_id(#[trigger] old(self).windows@[i], id) && (forall|j: int|
                    0 <= j < i ==> !live_with_id(#[trigger] old(self).windows@[j], id)) && *w
                    == old(self).windows@[i] && final(self).windows@ == old(self).windows@.update(
                    i,
                    *final(w),
                ) && final(self).next_id == old(self).next_id,
    {
        let mut i: usize = 0;
        while i < MAX_WINDOWS
            invariant
                i <= MAX_WINDOWS,
                *self == *old(self),
                forall|j: int| 0 <= j < i ==> !live_with_id(#[trigger] old(self).windows@[j], id),
            decreases MAX_WINDOWS - i,
        {
            if self.windows[i].id == id {
                let h = self.windows[i].w_type;
                if h != Items::Null {
                    return Some(&mut self.windows[i]);
                }
            }
            i += 1;
        }
        None
    }

    /// Hands out the next window id.
    pub fn check_id(&mut self, _rng_seed: u64) -> (id: usize)
        requires
            old(self).next_id < usize::MAX,
        ensures
            id == old(self).next_id,
            final(self).next_id == old(self).next_id + 1,
            final(self).windows == old(self).windows,
    {
        let id = self.next_id;
        self.next_id += 1;
        id
    }

    /// Makes every ordinary window movable and resizable; redrawing the screen is the
    /// caller's part.
    pub fn update_tiling(&mut self)
        ensures
            ids_below(old(self).windows@, old(self).next_id) ==> ids_below(final(self).windows@, final(self).next_id),
            final(self).next_id == old(self).next_id,
            final(self).windows@ == tiled(old(self).windows@),
    {
        let ghost ws0 = self.windows@;
        let mut i: usize = 0;
        while i < MAX_WINDOWS
            invariant
                i <= MAX_WINDOWS,
                ws0.len() == MAX_WINDOWS,
                self.next_id == old(self).next_id,
                ws0 == old(self).windows@,
                self.windows@.len() == MAX_WINDOWS,
                forall|j: int| 0 <= j < i ==> #[trigger] self.windows@[j] == tiled(ws0)[j],
                forall|j: int| i <= j < MAX_WINDOWS ==> #[trigger] self.windows@[j] == ws0[j],
            decreases MAX_WINDOWS - i,
        {
            proof {
                assert(tiled(ws0)[i as int] == if ws0[i as int].w_type == Items::Window {
                    Window { can_move: true, can_resize: true, ..ws0[i as int] }
                } else {
                    ws0[i as int]
                });
            }
            if self.windows[i].w_type == Items::Window {
                let mut x = self.windows[i];
                x.can_move = true;
                x.can_resize = true;
                self.windows[i] = x;
            }
            i += 1;
        }
        proof {
            assert(self.windows@ =~= tiled(ws0));
        }
    }

    /// Stores `w` in the first empty slot (see `new_window`), restacks the other windows (see
    /// `restacked_for`), sorts by depth (stably) and makes ordinary windows movable and
    /// resizable; returns the new id. Redrawing the screen is the caller's part.
    pub fn add_window(&mut self, w: Window) -> (id: usize)
        requires
            old(self).next_id < usize::MAX,
        ensures
            id == old(self).next_id,
            final(self).next_id == old(self).next_id + 1,
            exists|r: Seq<Window>|
                #[trigger] stable_sorted_by_z(
                    restacked_for(
                        placed(
                            old(self).windows@,
                            new_window(w, id, count_windows(old(self).windows@, MAX_WINDOWS as int)),
                        ),
                        id,
                        w.w_type,
                    ),
                    r,
                ) && final(self).windows@ == tiled(r),
            ids_below(old(self).windows@, old(self).next_id) ==> ids_below(final(self).windows@, final(self).next_id),
            ids_below(old(self).windows@, old(self).next_id) && w.w_type != Items::Null && first_null_from(old(self).windows@, 0) >= 0
                ==> exists|j: int|
                0 <= j < MAX_WINDOWS && live_with_id(final(self).windows@[j], id) && forall|k: int|
                    0 <= k < MAX_WINDOWS && k != j ==> !live_with_id(#[trigger] final(self).windows@[k], id),
    {
        let ghost ws0 = self.windows@;
        let ghost w0 = w;
        let mut w = w;
        let wtype = w.w_type;
        if wtype == Items::Wallpaper {
            w.z = 255;
            w.transparent = false;
            w.treat_as_transparent = false;
        } else if wtype == Items::Bar || wtype == Items::Popup {
            w.z = 0;
        } else {
            w.z = 1;
        }
        w.id = self.check_id(w.buffer as u64);
        if wtype == Items::Window {
            let mut count: usize = 0;
            let mut i: usize = 0;
            while i < MAX_WINDOWS
                invariant
                    i <= MAX_WINDOWS,
                    self.windows@ == ws0,
                    count == count_windows(ws0, i as int),
                    count <= i,
                decreases MAX_WINDOWS - i,
            {
                if self.windows[i].w_type == Items::Window {
                    count += 1;
                }
                i += 1;
            }
            let offset: usize = 30;
            let start_x: usize = 50;
            let start_y: usize = 50;
            w.x = (start_x + (count * offset)) as isize;
            w.y = (start_y + (count * offset)) as isize;
            w.can_move = true;
            w.can_resize = true;
        }
        proof {
            assert(w == new_window(w0, old(self).next_id, count_windows(ws0, MAX_WINDOWS as int)));
        }
        let mut i: usize = 0;
        while i < MAX_WINDOWS
            invariant_except_break
                self.windows@ == ws0,
            invariant
                i <= MAX_WINDOWS,
                self.next_id == old(self).next_id + 1,
                ws0.len() == MAX_WINDOWS,
                first_null_from(ws0, 0) == first_null_from(ws0, i as int),
            ensures
                self.windows@ == placed(ws0, w),
                self.next_id == old(self).next_id + 1,
            decreases MAX_WINDOWS - i,
        {
            match self.windows[i].w_type {
                Items::Null => {
                    self.windows[i] = w;
                    assert(first_null_from(ws0, i as int) == i);
                    break;
                },
                _ => {},
            }
            i += 1;
        }
        let ghost ws1 = self.windows@;
        let mut k: usize = 0;
        while k < MAX_WINDOWS
            invariant
                k <= MAX_WINDOWS,
                ws1.len() == MAX_WINDOWS,
                self.next_id == old(self).next_id + 1,
                self.windows@.len() == MAX_WINDOWS,
                forall|j: int|
                    0 <= j < k ==> #[trigger] self.windows@[j] == restacked_for(ws1, w.id, wtype)[j],
                forall|j: int| k <= j < MAX_WINDOWS ==> #[trigger] self.windows@[j] == ws1[j],
            decreases MAX_WINDOWS - k,
        {
            let x = self.windows[k];
            proof {
                assert(restacked_for(ws1, w.id, wtype)[k as int] == {
                    if x.id == w.id || x.w_type == Items::Null {
                        x
                    } else if x.w_type == Items::Bar || x.w_type == Items::Popup {
                        Window { z: 0, ..x }
                    } else if wtype == Items::Bar || wtype == Items::Popup {
                        if x.z == 0 {
                            Window { z: 1, ..x }
                        } else {
                            x
                        }
                    } else {
                        Window { z: sat_inc(x.z), ..x }
                    }
                });
            }
            if x.id != w.id {
                match x.w_type {
                    Items::Bar | Items::Popup => {
                        let mut y = x;
                        y.z = 0;
                        self.windows[k] = y;
                    },
                    Items::Null => {},
                    _ => {
                        if wtype == Items::Bar || wtype == Items::Popup {
                            if x.z == 0 {
                                let mut y = x;
                                y.z = 1;
                                self.windows[k] = y;
                            }
                        } else {
                            let mut y = x;
                            y.z = x.z.saturating_add(1);
                            self.windows[k] = y;
                        }
                    },
                }
            }
            k += 1;
        }
        proof {
            assert(self.windows@ =~= restacked_for(ws1, w.id, wtype));
        }
        sort_by_z(&mut self.windows);
        let ghost r = self.windows@;
        self.update_tiling();
        proof {
            if ids_below(ws0, w.id) {
                lemma_added_id_unique(ws0, w0, w.id, count_windows(ws0, MAX_WINDOWS as int), r);
            }
        }
        w.id
    }

    /// Brings live window `id` to the front (depth 1) and moves the other ordinary windows one
    /// step back, then restacks; bars, popups and wallpaper are never focused. Returns whether
    /// anything changed, in which case the caller redraws the whole screen.
    pub fn focus_window(&mut self, id: usize) -> (changed: bool)
        ensures
            ids_below(old(self).windows@, old(self).next_id) ==> ids_below(final(self).windows@, final(self).next_id),
            final(self).next_id == old(self).next_id,
            !changed ==> *final(self) == *old(self),
            changed <==> exists|idx: int|
                0 <= idx < MAX_WINDOWS && live_with_id(#[trigger] old(self).windows@[idx], id) && (forall|j: int|
                    0 <= j < idx ==> !live_with_id(#[trigger] old(self).windows@[j], id)) && old(self).windows@[idx].w_type
                    == Items::Window,
            changed ==> exists|idx: int|
                0 <= idx < MAX_WINDOWS && live_with_id(#[trigger] old(self).windows@[idx], id) && (forall|j: int|
                    0 <= j < idx ==> !live_with_id(#[trigger] old(self).windows@[j], id)) && stable_sorted_by_z(
                    focused(old(self).windows@, idx),
                    final(self).windows@,
                ),
    {
        let ghost ws0 = self.windows@;
        let mut target: usize = MAX_WINDOWS;
        let mut i: usize = 0;
        while i < MAX_WINDOWS
            invariant_except_break
                target == MAX_WINDOWS,
            invariant
                i <= MAX_WINDOWS,
                self.windows@ == ws0,
                forall|j: int| 0 <= j < i ==> !live_with_id(#[trigger] ws0[j], id),
            ensures
                target <= MAX_WINDOWS,
                self.windows@ == ws0,
                target < MAX_WINDOWS ==> live_with_id(ws0[target as int], id) && forall|j: int|
                    0 <= j < target ==> !live_with_id(#[trigger] ws0[j], id),
                target == MAX_WINDOWS ==> forall|j: int|
                    0 <= j < MAX_WINDOWS ==> !live_with_id(#[trigger] ws0[j], id),
            decreases MAX_WINDOWS - i,
        {
            if self.windows[i].id == id && self.windows[i].w_type != Items::Null {
                target = i;
                break;
            }
            i += 1;
        }
        if target == MAX_WINDOWS {
            return false;
        }
        let idx = target;
        let wtype = self.windows[idx].w_type;
        if wtype == Items::Bar || wtype == Items::Popup || wtype == Items::Wallpaper {
            return false;
        }
        let mut k: usize = 0;
        while k < MAX_WINDOWS
            invariant
                k <= MAX_WINDOWS,
                idx < MAX_WINDOWS,
                ws0.len() == MAX_WINDOWS,
                self.next_id == old(self).next_id,
                self.windows@.len() == MAX_WINDOWS,
                forall|j: int| 0 <= j < k ==> #[trigger] self.windows@[j] == focused(ws0, idx as int)[j],
                forall|j: int| k <= j < MAX_WINDOWS ==> #[trigger] self.windows@[j] == ws0[j],
            decreases MAX_WINDOWS - k,
        {
            let x = self.windows[k];
            proof {
                assert(focused(ws0, idx as int)[k as int] == if k == idx {
                    Window { z: 1, ..x }
                } else if x.w_type == Items::Bar || x.w_type == Items::Popup || x.w_type
                    == Items::Null || x.w_type == Items::Wallpaper {
                    x
                } else {
                    Window { z: sat_inc(x.z), ..x }
                });
            }
            if k == idx {
                let mut y = x;
                y.z = 1;
                self.windows[k] = y;
            } else {
                match x.w_type {
                    Items::Bar | Items::Popup | Items::Null | Items::Wallpaper => {},
                    _ => {
                        let mut y = x;
                        y.z = x.z.saturating_add(1);
                        self.windows[k] = y;
                    },
                }
            }
            k += 1;
        }
        proof {
            assert(self.windows@ =~= focused(ws0, idx as int));
        }
        sort_by_z(&mut self.windows);
        proof {
            if ids_below(ws0, self.next_id) {
                let f = focused(ws0, idx as int);
                assert forall|k: int| 0 <= k < f.len() && (#[trigger] f[k]).w_type != Items::Null implies f[k].id < self.next_id by {
                    assert(f[k].id == ws0[k].id && f[k].w_type == ws0[k].w_type);
                }
                lemma_sorted_ids_below(f, self.windows@, self.next_id);
            }
        }
        true
    }

    /// Applies a resize request to the first slot holding window `w.id` (see `resized`);
    /// returns the area to redraw when it is not empty. Ordinary windows are then re-tiled.
    pub fn resize_window(&mut self, w: Window) -> (dirty: Option<(i32, i32, u32, u32)>)
        requires
            forall|i: int|
                0 <= i < MAX_WINDOWS && (#[trigger] old(self).windows@[i]).id == w.id ==> resize_fits(
                    old(self).windows@[i],
                    w,
                ),
        ensures
            final(self).next_id == old(self).next_id,
            (forall|i: int| 0 <= i < MAX_WINDOWS ==> (#[trigger] old(self).windows@[i]).id != w.id)
                ==> dirty is None && *final(self) == *old(self),
            forall|i: int|
                0 <= i < MAX_WINDOWS && (#[trigger] old(self).windows@[i]).id == w.id && (forall|j: int|
                    0 <= j < i ==> (#[trigger] old(self).windows@[j]).id != w.id) ==> {
                    let ws1 = old(self).windows@.update(i, resized(old(self).windows@[i], w));
                    &&& dirty == resize_dirty(old(self).windows@[i], w)
                    &&& final(self).windows@ == if old(self).windows@[i].w_type == Items::Window {
                        tiled(ws1)
                    } else {
                        ws1
                    }
                },
    {
        let mut i: usize = 0;
        while i < MAX_WINDOWS
            invariant
                i <= MAX_WINDOWS,
                *self == *old(self),
                forall|j: int| 0 <= j < i ==> (#[trigger] old(self).windows@[j]).id != w.id,
                forall|i: int|
                    0 <= i < MAX_WINDOWS && (#[trigger] old(self).windows@[i]).id == w.id ==> resize_fits(
                        old(self).windows@[i],
                        w,
                    ),
            decreases MAX_WINDOWS - i,
        {
            if w.id == self.windows[i].id {
                let ghost x0 = self.windows@[i as int];
                proof {
                    assert(resize_fits(x0, w));
                }
                let mut x = self.windows[i];
                x.buffer = w.buffer;
                let old_x = x.x;
                let old_y = x.y;
                let old_w = x.width;
                let old_h = x.height;
                x.width = w.width;
                x.height = w.height;
                if x.w_type != Items::Window {
                    x.x = w.x;
                    x.y = w.y;
                    x.can_move = w.can_move;
                }
                x.transparent = w.transparent;
                x.treat_as_transparent = w.treat_as_transparent;
                self.windows[i] = x;
                proof {
                    assert(x == resized(x0, w));
                }
                let current_x = x.x;
                let current_y = x.y;
                let min_x = if old_x <= current_x { old_x } else { current_x };
                let min_y = if old_y <= current_y { old_y } else { current_y };
                let a = old_x + old_w as isize;
                let b = current_x + w.width as isize;
                let max_x = if a >= b { a } else { b };
                let c = old_y + old_h as isize;
                let d = current_y + w.height as isize;
                let max_y = if c >= d { c } else { d };
                let dx = max_x - min_x;
                let dy = max_y - min_y;
                let dirty_w = (if dx >= 0 { dx } else { 0 }) as u32;
                let dirty_h = (if dy >= 0 { dy } else { 0 }) as u32;
                let result = if dirty_w > 0 && dirty_h > 0 {
                    Some((min_x as i32, min_y as i32, dirty_w, dirty_h))
                } else {
                    None
                };
                if x.w_type == Items::Window {
                    self.update_tiling();
                }
                return result;
            }
            i += 1;
        }
        None
    }

    /// Empties every slot holding window `wid` (depth 255), restacks by depth and re-tiles;
    /// redrawing the screen is the caller's part.
    pub fn remove_window(&mut self, wid: usize)
        ensures
            final(self).next_id == old(self).next_id,
            exists|r: Seq<Window>|
                #[trigger] stable_sorted_by_z(emptied(old(self).windows@, wid), r) && final(self).windows@
                    == tiled(r),
            ids_below(old(self).windows@, old(self).next_id) ==> ids_below(final(self).windows@, final(self).next_id),
    {
        let ghost ws0 = self.windows@;
        let ghost target = emptied(ws0, wid);
        let mut i: usize = 0;
        while i < MAX_WINDOWS
            invariant
                i <= MAX_WINDOWS,
                ws0.len() == MAX_WINDOWS,
                target == emptied(ws0, wid),
                self.next_id == old(self).next_id,
                self.windows@.len() == MAX_WINDOWS,
                forall|j: int| 0 <= j < i ==> #[trigger] self.windows@[j] == target[j],
                forall|j: int| i <= j < MAX_WINDOWS ==> #[trigger] self.windows@[j] == ws0[j],
            decreases MAX_WINDOWS - i,
        {
            proof {
                assert(target[i as int] == if ws0[i as int].id == wid {
                    Window { w_type: Items::Null, z: 255, ..ws0[i as int] }
                } else {
                    ws0[i as int]
                });
            }
            if self.windows[i].id == wid {
                let mut x = self.windows[i];
                x.w_type = Items::Null;
                x.z = 255;
                self.windows[i] = x;
            }
            i += 1;
        }
        proof {
            assert(self.windows@ =~= target);
        }
        sort_by_z(&mut self.windows);
        let ghost r = self.windows@;
        self.update_tiling();
        proof {
            if ids_below(ws0, self.next_id) {
                lemma_emptied_ids_below(ws0, wid, self.next_id);
                lemma_sorted_ids_below(target, r, self.next_id);
            }
        }
    }

    /// Empties every live window of process `pid`; when any was removed, restacks by depth
    /// and re-tiles, and returns true (the caller then redraws the screen).
    pub fn remove_windows_by_pid(&mut self, pid: u64) -> (removed: bool)
        ensures
            final(self).next_id == old(self).next_id,
            removed == exists|i: int|
                0 <= i < MAX_WINDOWS && (#[trigger] old(self).windows@[i]).pid == pid && old(self).windows@[i].w_type
                    != Items::Null,
            !removed ==> *final(self) == *old(self),
            removed ==> exists|r: Seq<Window>|
                #[trigger] stable_sorted_by_z(emptied_pid(old(self).windows@, pid), r) && final(self).windows@
                    == tiled(r),
            ids_below(old(self).windows@, old(self).next_id) ==> ids_below(final(self).windows@, final(self).next_id),
    {
        let ghost ws0 = self.windows@;
        let ghost target = emptied_pid(ws0, pid);
        let mut removed = false;
        let mut i: usize = 0;
        while i < MAX_WINDOWS
            invariant
                i <= MAX_WINDOWS,
                ws0.len() == MAX_WINDOWS,
                ws0 == old(self).windows@,
                target == emptied_pid(ws0, pid),
                self.next_id == old(self).next_id,
                self.windows@.len() == MAX_WINDOWS,
                forall|j: int| 0 <= j < i ==> #[trigger] self.windows@[j] == target[j],
                forall|j: int| i <= j < MAX_WINDOWS ==> #[trigger] self.windows@[j] == ws0[j],
                removed == exists|j: int|
                    0 <= j < i && (#[trigger] ws0[j]).pid == pid && ws0[j].w_type != Items::Null,
            decreases MAX_WINDOWS - i,
        {
            proof {
                assert(target[i as int] == if ws0[i as int].pid == pid && ws0[i as int].w_type != Items::Null {
                    Window { w_type: Items::Null, z: 255, ..ws0[i as int] }
                } else {
                    ws0[i as int]
                });
            }
            if self.windows[i].pid == pid && self.windows[i].w_type != Items::Null {
                let mut x = self.windows[i];
                x.w_type = Items::Null;
                x.z = 255;
                self.windows[i] = x;
                removed = true;
            }
            i += 1;
        }
        if removed {
            proof {
                assert(self.windows@ =~= target);
            }
            sort_by_z(&mut self.windows);
            let ghost r = self.windows@;
            self.update_tiling();
            proof {
                if ids_below(ws0, self.next_id) {
                    assert forall|k: int| 0 <= k < target.len() && (#[trigger] target[k]).w_type != Items::Null implies target[k].id
                        < self.next_id by {
                        assert(target[k].id == ws0[k].id);
                    }
                    lemma_sorted_ids_below(target, r, self.next_id);
                }
            }
        } else {
            proof {
                assert(self.windows@ =~= ws0);
                assert(self.windows == old(self).windows);
            }
        }
        removed
    }
}

} // verus!
