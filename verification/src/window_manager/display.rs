use vstd::prelude::*;

verus! {

/// An RGBA colour with 8 bits per channel.
#[derive(Clone, Copy, PartialEq, Eq, Debug)]
pub struct Color {
    pub r: u8,
    pub g: u8,
    pub b: u8,
    pub a: u8,
}

/// Expands a 5-bit channel to 8 bits by replicating its high bits.
pub open spec fn expand5(v: int) -> int {
    v * 8 + v / 4
}

/// Expands a 6-bit channel to 8 bits by replicating its high bits.
pub open spec fn expand6(v: int) -> int {
    v * 4 + v / 16
}

/// The RGB565 encoding of a colour.
pub open spec fn rgb565(c: Color) -> int {
    (c.r / 8) * 2048 + (c.g / 4) * 32 + c.b / 8
}

/// The ARGB8888 encoding of a colour.
pub open spec fn argb8888(c: Color) -> int {
    c.a * 0x1000000 + c.r * 0x10000 + c.g * 0x100 + c.b
}

/// The opaque colour that an RGB565 value decodes to.
pub open spec fn color_of_rgb565(v: int) -> Color {
    Color {
        r: expand5(v / 2048) as u8,
        g: expand6((v / 32) % 64) as u8,
        b: expand5(v % 32) as u8,
        a: 255,
    }
}

/// The opaque colour that the low three bytes of an RGB888 value decode to.
pub open spec fn color_of_rgb888(v: int) -> Color {
    Color { r: ((v / 0x10000) % 0x100) as u8, g: ((v / 0x100) % 0x100) as u8, b: (v % 0x100) as u8, a: 255 }
}

/// Decoding an RGB565 value and encoding the colour again gives the value back.
pub proof fn lemma_rgb565_round_trip(v: u16)
    ensures
        rgb565(color_of_rgb565(v as int)) == v,
{
    let r5 = v / 2048;
    let g6 = (v / 32) % 64;
    let b5 = v % 32;
    assert(expand5(r5 as int) / 8 == r5);
    assert(expand6(g6 as int) / 4 == g6);
    assert(expand5(b5 as int) / 8 == b5);
}

/// Packing a colour as ARGB8888 and decoding that word as RGB888 keeps red, green and blue.
pub proof fn lemma_argb_to_rgb888(c: Color)
    ensures
        color_of_rgb888(argb8888(c)) == (Color { r: c.r, g: c.g, b: c.b, a: 255 }),
{
    let v = argb8888(c);
    assert((v / 0x10000) % 0x100 == c.r) by (nonlinear_arith)
        requires v == c.a * 0x1000000 + c.r * 0x10000 + c.g * 0x100 + c.b, c.r < 256, c.g < 256, c.b < 256;
    assert((v / 0x100) % 0x100 == c.g) by (nonlinear_arith)
        requires v == c.a * 0x1000000 + c.r * 0x10000 + c.g * 0x100 + c.b, c.r < 256, c.g < 256, c.b < 256;
    assert(v % 0x100 == c.b) by (nonlinear_arith)
        requires v == c.a * 0x1000000 + c.r * 0x10000 + c.g * 0x100 + c.b, c.r < 256, c.g < 256, c.b < 256;
}

impl Color {
    /// The fully transparent black colour.
    pub fn new() -> (c: Color)
        ensures
            c == (Color { r: 0, g: 0, b: 0, a: 0 }),
    {
        Color { r: 0, g: 0, b: 0, a: 0 }
    }

    /// An opaque colour.
    pub fn rgb(r: u8, g: u8, b: u8) -> (c: Color)
        ensures
            c == (Color { r, g, b, a: 255 }),
    {
        Color { r, g, b, a: 255 }
    }

    pub fn rgba(r: u8, g: u8, b: u8, a: u8) -> (c: Color)
        ensures
            c == (Color { r, g, b, a }),
    {
        Color { r, g, b, a }
    }

    /// RGB565: red in bits 11..16, green in 5..11, blue in 0..5.
    pub fn to_u16(&self) -> (v: u16)
        ensures
            v == rgb565(*self),
    {
        let r = (self.r >> 3) as u16;
        let g = (self.g >> 2) as u16;
        let b = (self.b >> 3) as u16;
        let sr = self.r;
        let sg = self.g;
        let sb = self.b;
        assert(((sr >> 3u8) as u16) << 11u16 | ((sg >> 2u8) as u16) << 5u16 | ((sb >> 3u8) as u16)
            == (sr / 8) * 2048 + (sg / 4) * 32 + sb / 8) by (bit_vector);
        (r << 11) | (g << 5) | b
    }

    /// ARGB8888: alpha in the top byte, then red, green and blue.
    pub fn to_u32(&self) -> (v: u32)
        ensures
            v == argb8888(*self),
    {
        let sr = self.r;
        let sg = self.g;
        let sb = self.b;
        let sa = self.a;
        assert(((sa as u32) << 24u32) | ((sr as u32) << 16u32) | ((sg as u32) << 8u32) | (sb as u32)
            == sa * 0x1000000 + sr * 0x10000 + sg * 0x100 + sb) by (bit_vector);
        ((self.a as u32) << 24) | ((self.r as u32) << 16) | ((self.g as u32) << 8) | (self.b as u32)
    }

    /// The three bytes of a 24-bit pixel, blue first.
    pub fn to_u24(&self) -> (v: [u8; 3])
        ensures
            v@ == seq![self.b, self.g, self.r],
    {
        [self.b, self.g, self.r]
    }

    /// Reads an RGB565 value; each channel is widened by bit replication, alpha is opaque.
    pub fn from_u16(rgb: u16) -> (c: Color)
        ensures
            c == color_of_rgb565(rgb as int),
    {
        let r5 = ((rgb >> 11) & 0x1F) as u8;
        let g6 = ((rgb >> 5) & 0x3F) as u8;
        let b5 = (rgb & 0x1F) as u8;
        assert(((rgb >> 11u16) & 0x1Fu16) as u8 == rgb / 2048) by (bit_vector);
        assert(((rgb >> 5u16) & 0x3Fu16) as u8 == (rgb / 32) % 64) by (bit_vector);
        assert((rgb & 0x1Fu16) as u8 == rgb % 32) by (bit_vector);
        assert(r5 < 32 && b5 < 32 && g6 < 64);
        assert(r5 < 32 ==> (r5 << 3u8) | (r5 >> 2u8) == r5 * 8 + r5 / 4) by (bit_vector);
        assert(b5 < 32 ==> (b5 << 3u8) | (b5 >> 2u8) == b5 * 8 + b5 / 4) by (bit_vector);
        assert(g6 < 64 ==> (g6 << 2u8) | (g6 >> 4u8) == g6 * 4 + g6 / 16) by (bit_vector);
        let r = (r5 << 3) | (r5 >> 2);
        let g = (g6 << 2) | (g6 >> 4);
        let b = (b5 << 3) | (b5 >> 2);
        Color { r, g, b, a: 0xFF }
    }

    /// Reads an RGBA8888 value: red in the top byte, alpha in the lowest.
    pub fn from_u32(rgba: u32) -> (c: Color)
        ensures
            c.r == rgba / 0x1000000,
            c.g == (rgba / 0x10000) % 0x100,
            c.b == (rgba / 0x100) % 0x100,
            c.a == rgba % 0x100,
    {
        assert(((rgba >> 24u32) & 0xFFu32) as u8 == rgba / 0x1000000) by (bit_vector);
        assert(((rgba >> 16u32) & 0xFFu32) as u8 == (rgba / 0x10000) % 0x100) by (bit_vector);
        assert(((rgba >> 8u32) & 0xFFu32) as u8 == (rgba / 0x100) % 0x100) by (bit_vector);
        assert((rgba & 0xFFu32) as u8 == rgba % 0x100) by (bit_vector);
        let r = ((rgba >> 24) & 0xFF) as u8;
        let g = ((rgba >> 16) & 0xFF) as u8;
        let b = ((rgba >> 8) & 0xFF) as u8;
        let a = (rgba & 0xFF) as u8;
        Color { r, g, b, a }
    }

    /// Reads an RGB888 value from the low three bytes; alpha is opaque.
    pub fn from_u24(rgb24: u32) -> (c: Color)
        ensures
            c == color_of_rgb888(rgb24 as int),
    {
        assert(((rgb24 >> 16u32) & 0xFFu32) as u8 == (rgb24 / 0x10000) % 0x100) by (bit_vector);
        assert(((rgb24 >> 8u32) & 0xFFu32) as u8 == (rgb24 / 0x100) % 0x100) by (bit_vector);
        assert((rgb24 & 0xFFu32) as u8 == rgb24 % 0x100) by (bit_vector);
        let r = ((rgb24 >> 16) & 0xFF) as u8;
        let g = ((rgb24 >> 8) & 0xFF) as u8;
        let b = (rgb24 & 0xFF) as u8;
        Color { r, g, b, a: 0xFF }
    }
}

/// What the pointer looks like.
#[derive(Debug, Copy, Clone, PartialEq, Eq, Structural)]
pub enum State {
    Point,
    Write,
    Click,
}

/// What happened to a window.
#[derive(Debug, Copy, Clone)]
pub enum EventType {
    Close,
    Resize,
    Minimize,
    Refresh,
    Clicked { buttons: [bool; 3], x: u64, y: u64 },
}

/// A request record passed between a client and the display server.
#[derive(Debug, Copy, Clone)]
pub struct Event {
    pub id: usize,
    pub addr: usize,
    pub args: [usize; 4],
}

/// The pointer as the display server draws it.
#[derive(Debug, Copy, Clone)]
pub struct Mouse {
    pub x: u16,
    pub y: u16,
    pub left: bool,
    pub center: bool,
    pub right: bool,
    pub state: State,
}

} // verus!
