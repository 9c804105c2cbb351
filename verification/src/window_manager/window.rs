use vstd::prelude::*;
use crate::zorder::ZOrder;

verus! {

/// What kind of surface a window slot holds.
#[derive(Debug, Copy, Clone, PartialEq, Eq, Structural)]
pub enum Items {
    Wallpaper,
    Bar,
    Popup,
    Window,
    Null,
}

/// A window: its pixel buffer, position, depth and behaviour.
#[derive(Debug, Copy, Clone)]
pub struct Window {
    pub id: usize,
    pub buffer: usize,
    pub x: isize,
    pub y: isize,
    pub z: usize,
    pub width: usize,
    pub height: usize,
    pub can_move: bool,
    pub can_resize: bool,
    pub min_width: usize,
    pub min_height: usize,
    pub event_handler: usize,
    pub transparent: bool,
    pub treat_as_transparent: bool,
    pub pid: u64,
    pub w_type: Items,
}

impl ZOrder for Window {
    open spec fn z_key(&self) -> usize {
        self.z
    }

    fn z(&self) -> (r: usize) {
        self.z
    }
}

/// An empty window slot.
pub open spec fn null_window() -> Window {
    Window {
        id: 0,
        buffer: 0,
        x: 0,
        y: 0,
        z: 0,
        width: 0,
        height: 0,
        can_move: false,
        can_resize: false,
        min_width: 0,
        min_height: 0,
        event_handler: 0,
        transparent: false,
        treat_as_transparent: false,
        pid: 0,
        w_type: Items::Null,
    }
}

/// An empty window slot.
pub fn new_null_window() -> (w: Window)
    ensures
        w == null_window(),
{
    Window {
        id: 0,
        buffer: 0,
        x: 0,
        y: 0,
        z: 0,
        width: 0,
        height: 0,
        can_move: false,
        can_resize: false,
        min_width: 0,
        min_height: 0,
        event_handler: 0,
        transparent: false,
        treat_as_transparent: false,
        pid: 0,
        w_type: Items::Null,
    }
}

} // verus!
