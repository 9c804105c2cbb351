use vstd::prelude::*;
use crate::window_manager::window::{Items, Window};
use crate::window_manager::composer::{Composer, MAX_WINDOWS};
use crate::window_manager::input::{first_id_from, lemma_first_id_found, lemma_first_id_skip};

verus! {

/// Border colour of the window the pointer last clicked.
pub const BORDER_FOCUSED: u32 = 0xFFFF_FFFF;

/// Border colour of every other ordinary window.
pub const BORDER_NORMAL: u32 = 0xFF90_70FF;

/// One window to copy into the back buffer, clipped to the dirty rectangle: its slot and the
/// border it gets (none for bars, popups and the wallpaper).
#[derive(Debug, Clone, Copy, PartialEq, Eq)]
pub struct DrawStep {
    pub index: usize,
    pub border: Option<u32>,
}

/// How a dirty rectangle is repainted: the rectangle, the slot the back-to-front pass starts
/// at, whether the rectangle is cleared first (no opaque window covers it), and the windows
/// to draw, back to front.
#[derive(Debug, PartialEq, Eq)]
pub struct AreaPlan {
    pub x: i32,
    pub y: i32,
    pub w: u32,
    pub h: u32,
    pub start_index: usize,
    pub clear: bool,
    pub draws: Vec<DrawStep>,
}

/// Whether window `w` is live, opaque and covers the rectangle, edges included.
pub open spec fn covers(w: Window, x: i32, y: i32, wd: u32, ht: u32) -> bool {
    &&& w.w_type != Items::Null
    &&& !w.treat_as_transparent
    &&& (w.x as i32) <= x
    &&& (w.y as i32) <= y
    &&& (w.x as i32) + (w.width as i32) >= x + (wd as i32)
    &&& (w.y as i32) + (w.height as i32) >= y + (ht as i32)
}

/// The first slot at or after `i` whose window covers the rectangle, or -1.
pub open spec fn first_cover_from(ws: Seq<Window>, x: i32, y: i32, wd: u32, ht: u32, i: int) -> int
    decreases ws.len() - i,
{
    if i < 0 || i >= ws.len() {
        -1
    } else if covers(ws[i], x, y, wd, ht) {
        i
    } else {
        first_cover_from(ws, x, y, wd, ht, i + 1)
    }
}

/// The border window `w` is drawn with.
pub open spec fn border_of(w: Window, clicked: usize) -> Option<u32> {
    if w.w_type == Items::Window {
        if w.id == clicked { Some(BORDER_FOCUSED) } else { Some(BORDER_NORMAL) }
    } else {
        None
    }
}

/// What slot `j` adds to the draw list: nothing when it is empty.
pub open spec fn step_of(ws: Seq<Window>, j: int, clicked: usize) -> Seq<DrawStep> {
    if ws[j].w_type == Items::Null {
        Seq::empty()
    } else {
        seq![DrawStep { index: j as usize, border: border_of(ws[j], clicked) }]
    }
}

/// The draw list of the slots from `hi - 1` down to `lo`.
pub open spec fn draws_between(ws: Seq<Window>, lo: int, hi: int, clicked: usize) -> Seq<DrawStep>
    decreases hi - lo,
{
    if lo >= hi {
        Seq::empty()
    } else {
        draws_between(ws, lo + 1, hi, clicked) + step_of(ws, lo, clicked)
    }
}

/// The plan for repainting the rectangle: the pass starts at the first covering window (the
/// last slot when none covers, and then the rectangle is cleared first) and draws every live
/// window from there to the front.
pub open spec fn rect_plan_ok(p: AreaPlan, ws: Seq<Window>, x: i32, y: i32, wd: u32, ht: u32, clicked: usize) -> bool {
    let k = first_cover_from(ws, x, y, wd, ht, 0);
    let start = if k >= 0 { k } else { ws.len() - 1 };
    &&& p.x == x && p.y == y && p.w == wd && p.h == ht
    &&& p.start_index == start
    &&& p.clear == (k < 0)
    &&& p.draws@ == draws_between(ws, 0, start + 1, clicked)
}

/// The copies of window `id` among the first `n` slots, front to back: one per live slot
/// holding that id.
pub open spec fn copies_of(ws: Seq<Window>, id: usize, n: int, clicked: usize) -> Seq<DrawStep>
    decreases n,
{
    if n <= 0 {
        Seq::empty()
    } else if ws[n - 1].id == id {
        copies_of(ws, id, n - 1, clicked) + step_of(ws, n - 1, clicked)
    } else {
        copies_of(ws, id, n - 1, clicked)
    }
}

/// The draw list of the slots from `hi - 1` down to `lo`, leaving out window `except`.
pub open spec fn draws_except(ws: Seq<Window>, lo: int, hi: int, except: usize, clicked: usize) -> Seq<DrawStep>
    decreases hi - lo,
{
    if lo >= hi {
        Seq::empty()
    } else if ws[lo].id == except {
        draws_except(ws, lo + 1, hi, except, clicked)
    } else {
        draws_except(ws, lo + 1, hi, except, clicked) + step_of(ws, lo, clicked)
    }
}

proof fn lemma_first_cover_skip(ws: Seq<Window>, x: i32, y: i32, wd: u32, ht: u32, s: int, i: int)
    requires
        0 <= s <= i <= ws.len(),
        forall|k: int| s <= k < i ==> !covers(#[trigger] ws[k], x, y, wd, ht),
    ensures
        first_cover_from(ws, x, y, wd, ht, s) == first_cover_from(ws, x, y, wd, ht, i),
    decreases i - s,
{
    if s < i {
        lemma_first_cover_skip(ws, x, y, wd, ht, s + 1, i);
    }
}

impl Composer {
    /// Plans the repaint of a dirty rectangle, as `rect_plan_ok` says; `clicked` is the id of
    /// the window the pointer last clicked. Copying the pixels is the display's part.
    pub fn update_window_area_rect(&self, x: i32, y: i32, wd: u32, ht: u32, clicked: usize) -> (p: AreaPlan)
        ensures
            rect_plan_ok(p, self.windows@, x, y, wd, ht, clicked),
    {
        let ghost ws = self.windows@;
        let x64 = x as i64;
        let y64 = y as i64;
        let right = x64 + (#[verifier::truncate] (wd as i32)) as i64;
        let bottom = y64 + (#[verifier::truncate] (ht as i32)) as i64;
        let mut start: usize = MAX_WINDOWS - 1;
        let mut occluded = false;
        let mut i: usize = 0;
        while i < MAX_WINDOWS
            invariant_except_break
                i <= MAX_WINDOWS,
                !occluded,
                start == MAX_WINDOWS - 1,
                forall|k: int| 0 <= k < i ==> !covers(#[trigger] ws[k], x, y, wd, ht),
                first_cover_from(ws, x, y, wd, ht, 0) == first_cover_from(ws, x, y, wd, ht, i as int),
            invariant
                ws == self.windows@,
                x64 == x,
                y64 == y,
                right == x + (wd as i32),
                bottom == y + (ht as i32),
            ensures
                occluded ==> start < MAX_WINDOWS && first_cover_from(ws, x, y, wd, ht, 0) == start,
                !occluded ==> first_cover_from(ws, x, y, wd, ht, 0) == -1 && start == MAX_WINDOWS - 1,
            decreases MAX_WINDOWS - i,
        {
            let w = self.windows[i];
            proof {
                assert(w == ws[i as int]);
            }
            if w.w_type != Items::Null && !w.treat_as_transparent {
                let wx = (w.x as i32) as i64;
                let wy = (w.y as i32) as i64;
                let wr = wx + (w.width as i32) as i64;
                let wb = wy + (w.height as i32) as i64;
                if wx <= x64 && wy <= y64 && wr >= right && wb >= bottom {
                    proof {
                        assert(covers(ws[i as int], x, y, wd, ht));
                        lemma_first_cover_skip(ws, x, y, wd, ht, 0, i as int);
                    }
                    start = i;
                    occluded = true;
                    break;
                }
            }
            proof {
                assert(!covers(ws[i as int], x, y, wd, ht));
            }
            proof {
                lemma_first_cover_skip(ws, x, y, wd, ht, 0, i as int + 1);
            }
            i += 1;
        }
        let mut draws: Vec<DrawStep> = Vec::new();
        let mut j: usize = start + 1;
        while j > 0
            invariant
                j <= start + 1,
                start < MAX_WINDOWS,
                ws == self.windows@,
                draws@ == draws_between(ws, j as int, start + 1, clicked),
            decreases j,
        {
            j -= 1;
            let w = self.windows[j];
            if w.w_type != Items::Null {
                let border = if w.w_type == Items::Window {
                    if w.id == clicked { Some(BORDER_FOCUSED) } else { Some(BORDER_NORMAL) }
                } else {
                    None
                };
                draws.push(DrawStep { index: j, border });
            }
            proof {
                assert(draws@ =~= draws_between(ws, j as int, start + 1, clicked));
            }
        }
        AreaPlan { x, y, w: wd, h: ht, start_index: start, clear: !occluded, draws }
    }

    /// Plans the repaint of window `id`'s rectangle (see `update_window_area_rect`); `None`
    /// when no slot holds that id.
    pub fn update_window_area(&self, id: usize, clicked: usize) -> (r: Option<AreaPlan>)
        ensures
            first_id_from(self.windows@, id, 0) < 0 ==> r is None,
            first_id_from(self.windows@, id, 0) >= 0 ==> (r matches Some(p) && {
                let w = self.windows@[first_id_from(self.windows@, id, 0)];
                rect_plan_ok(p, self.windows@, w.x as i32, w.y as i32, w.width as u32, w.height as u32, clicked)
            }),
    {
        let ghost ws = self.windows@;
        let mut i: usize = 0;
        while i < MAX_WINDOWS
            invariant
                i <= MAX_WINDOWS,
                ws == self.windows@,
                forall|k: int| 0 <= k < i ==> #[trigger] ws[k].id != id,
            decreases MAX_WINDOWS - i,
        {
            if self.windows[i].id == id {
                proof {
                    lemma_first_id_skip(ws, id, 0, i as int);
                }
                let w = self.windows[i];
                return Some(self.update_window_area_rect(w.x as i32, w.y as i32, w.width as u32, w.height as u32, clicked));
            }
            i += 1;
        }
        proof {
            lemma_first_id_skip(ws, id, 0, MAX_WINDOWS as int);
        }
        None
    }

    /// The windows to copy into the back buffer to redraw window `id` in place, as
    /// `copies_of` says.
    pub fn copy_window(&self, id: usize, clicked: usize) -> (r: Vec<DrawStep>)
        ensures
            r@ == copies_of(self.windows@, id, MAX_WINDOWS as int, clicked),
    {
        let mut out: Vec<DrawStep> = Vec::new();
        let mut i: usize = 0;
        while i < MAX_WINDOWS
            invariant
                i <= MAX_WINDOWS,
                out@ == copies_of(self.windows@, id, i as int, clicked),
            decreases MAX_WINDOWS - i,
        {
            let w = self.windows[i];
            if w.id == id && w.w_type != Items::Null {
                let border = if w.w_type == Items::Window {
                    if w.id == clicked { Some(BORDER_FOCUSED) } else { Some(BORDER_NORMAL) }
                } else {
                    None
                };
                out.push(DrawStep { index: i, border });
            }
            i += 1;
            proof {
                assert(out@ =~= copies_of(self.windows@, id, i as int, clicked));
            }
        }
        out
    }

    /// The windows to draw, back to front, after clearing the whole back buffer, to
    /// recompose the screen without window `except_id`, as `draws_except` says.
    pub fn recompose_except(&self, except_id: usize, clicked: usize) -> (r: Vec<DrawStep>)
        ensures
            r@ == draws_except(self.windows@, 0, MAX_WINDOWS as int, except_id, clicked),
    {
        let mut out: Vec<DrawStep> = Vec::new();
        let mut j: usize = MAX_WINDOWS;
        while j > 0
            invariant
                j <= MAX_WINDOWS,
                out@ == draws_except(self.windows@, j as int, MAX_WINDOWS as int, except_id, clicked),
            decreases j,
        {
            j -= 1;
            let w = self.windows[j];
            if w.id != except_id && w.w_type != Items::Null {
                let border = if w.w_type == Items::Window {
                    if w.id == clicked { Some(BORDER_FOCUSED) } else { Some(BORDER_NORMAL) }
                } else {
                    None
                };
                out.push(DrawStep { index: j, border });
            }
            proof {
                assert(out@ =~= draws_except(self.windows@, j as int, MAX_WINDOWS as int, except_id, clicked));
            }
        }
        out
    }
}

} // verus!
