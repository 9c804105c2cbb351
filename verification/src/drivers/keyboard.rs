use vstd::prelude::*;
use crate::window_manager::composer::MAX_WINDOWS;
use crate::window_manager::events::{Event, KeyboardEvent};
use crate::window_manager::window::Window;

verus! {

/// Key code of the left arrow.
pub const KEY_LEFT: u32 = 0x110001;

/// Key code of the right arrow.
pub const KEY_RIGHT: u32 = 0x110002;

/// Key code of the up arrow.
pub const KEY_UP: u32 = 0x110003;

/// Key code of the down arrow.
pub const KEY_DOWN: u32 = 0x110004;

/// Key code of backspace.
pub const KEY_BACKSPACE: u32 = 0x08;

/// Key code of enter.
pub const KEY_ENTER: u32 = 0x0A;

/// Code point the unshifted layout gives scancode `sc`; zero for none.
pub open spec fn lowercase_code(sc: u8) -> u32 {
    match sc {
        1 => 0x1b,
        2 => 0x31,
        3 => 0x32,
        4 => 0x33,
        5 => 0x34,
        6 => 0x35,
        7 => 0x36,
        8 => 0x37,
        9 => 0x38,
        10 => 0x39,
        11 => 0x30,
        12 => 0x27,
        13 => 0xec,
        14 => 0x8,
        15 => 0x9,
        16 => 0x71,
        17 => 0x77,
        18 => 0x65,
        19 => 0x72,
        20 => 0x74,
        21 => 0x79,
        22 => 0x75,
        23 => 0x69,
        24 => 0x6f,
        25 => 0x70,
        26 => 0xe8,
        27 => 0x2b,
        28 => 0xa,
        30 => 0x61,
        31 => 0x73,
        32 => 0x64,
        33 => 0x66,
        34 => 0x67,
        35 => 0x68,
        36 => 0x6a,
        37 => 0x6b,
        38 => 0x6c,
        39 => 0xf2,
        40 => 0xe0,
        41 => 0x5c,
        43 => 0xf9,
        44 => 0x7a,
        45 => 0x78,
        46 => 0x63,
        47 => 0x76,
        48 => 0x62,
        49 => 0x6e,
        50 => 0x6d,
        51 => 0x2c,
        52 => 0x2e,
        53 => 0x2d,
        57 => 0x20,
        86 => 0x3c,
        _ => 0,
    }
}

/// Code point the unshifted layout gives scancode `sc`; zero for none.
pub fn lowercase_key(sc: u8) -> (c: u32)
    ensures
        c == lowercase_code(sc),
{
    match sc {
        1 => 0x1b,
        2 => 0x31,
        3 => 0x32,
        4 => 0x33,
        5 => 0x34,
        6 => 0x35,
        7 => 0x36,
        8 => 0x37,
        9 => 0x38,
        10 => 0x39,
        11 => 0x30,
        12 => 0x27,
        13 => 0xec,
        14 => 0x8,
        15 => 0x9,
        16 => 0x71,
        17 => 0x77,
        18 => 0x65,
        19 => 0x72,
        20 => 0x74,
        21 => 0x79,
        22 => 0x75,
        23 => 0x69,
        24 => 0x6f,
        25 => 0x70,
        26 => 0xe8,
        27 => 0x2b,
        28 => 0xa,
        30 => 0x61,
        31 => 0x73,
        32 => 0x64,
        33 => 0x66,
        34 => 0x67,
        35 => 0x68,
        36 => 0x6a,
        37 => 0x6b,
        38 => 0x6c,
        39 => 0xf2,
        40 => 0xe0,
        41 => 0x5c,
        43 => 0xf9,
        44 => 0x7a,
        45 => 0x78,
        46 => 0x63,
        47 => 0x76,
        48 => 0x62,
        49 => 0x6e,
        50 => 0x6d,
        51 => 0x2c,
        52 => 0x2e,
        53 => 0x2d,
        57 => 0x20,
        86 => 0x3c,
        _ => 0,
    }
}

/// Code point the shifted layout gives scancode `sc`; zero for none.
pub open spec fn uppercase_code(sc: u8) -> u32 {
    match sc {
        1 => 0x1b,
        2 => 0x21,
        3 => 0x22,
        4 => 0xa3,
        5 => 0x24,
        6 => 0x25,
        7 => 0x26,
        8 => 0x2f,
        9 => 0x28,
        10 => 0x29,
        11 => 0x3d,
        12 => 0x3f,
        13 => 0x5e,
        14 => 0x8,
        15 => 0x9,
        16 => 0x51,
        17 => 0x57,
        18 => 0x45,
        19 => 0x52,
        20 => 0x54,
        21 => 0x59,
        22 => 0x55,
        23 => 0x49,
        24 => 0x4f,
        25 => 0x50,
        26 => 0xe9,
        27 => 0x2a,
        28 => 0xa,
        30 => 0x41,
        31 => 0x53,
        32 => 0x44,
        33 => 0x46,
        34 => 0x47,
        35 => 0x48,
        36 => 0x4a,
        37 => 0x4b,
        38 => 0x4c,
        39 => 0xe7,
        40 => 0xb0,
        41 => 0x7c,
        43 => 0xa7,
        44 => 0x5a,
        45 => 0x58,
        46 => 0x43,
        47 => 0x56,
        48 => 0x42,
        49 => 0x4e,
        50 => 0x4d,
        51 => 0x3b,
        52 => 0x3a,
        53 => 0x5f,
        57 => 0x20,
        86 => 0x3e,
        _ => 0,
    }
}

/// Code point the shifted layout gives scancode `sc`; zero for none.
pub fn uppercase_key(sc: u8) -> (c: u32)
    ensures
        c == uppercase_code(sc),
{
    match sc {
        1 => 0x1b,
        2 => 0x21,
        3 => 0x22,
        4 => 0xa3,
        5 => 0x24,
        6 => 0x25,
        7 => 0x26,
        8 => 0x2f,
        9 => 0x28,
        10 => 0x29,
        11 => 0x3d,
        12 => 0x3f,
        13 => 0x5e,
        14 => 0x8,
        15 => 0x9,
        16 => 0x51,
        17 => 0x57,
        18 => 0x45,
        19 => 0x52,
        20 => 0x54,
        21 => 0x59,
        22 => 0x55,
        23 => 0x49,
        24 => 0x4f,
        25 => 0x50,
        26 => 0xe9,
        27 => 0x2a,
        28 => 0xa,
        30 => 0x41,
        31 => 0x53,
        32 => 0x44,
        33 => 0x46,
        34 => 0x47,
        35 => 0x48,
        36 => 0x4a,
        37 => 0x4b,
        38 => 0x4c,
        39 => 0xe7,
        40 => 0xb0,
        41 => 0x7c,
        43 => 0xa7,
        44 => 0x5a,
        45 => 0x58,
        46 => 0x43,
        47 => 0x56,
        48 => 0x42,
        49 => 0x4e,
        50 => 0x4d,
        51 => 0x3b,
        52 => 0x3a,
        53 => 0x5f,
        57 => 0x20,
        86 => 0x3e,
        _ => 0,
    }
}

/// Code point the Alt layer gives scancode `sc`; zero for none.
pub open spec fn alt_code(sc: u8) -> u32 {
    match sc {
        8 => 0x7b,
        9 => 0x5b,
        10 => 0x5d,
        11 => 0x7d,
        16 => 0x40,
        18 => 0x20ac,
        26 => 0x5b,
        27 => 0x5d,
        39 => 0x40,
        40 => 0x23,
        _ => 0,
    }
}

/// Code point the Alt layer gives scancode `sc`; zero for none.
pub fn alt_key(sc: u8) -> (c: u32)
    ensures
        c == alt_code(sc),
{
    match sc {
        8 => 0x7b,
        9 => 0x5b,
        10 => 0x5d,
        11 => 0x7d,
        16 => 0x40,
        18 => 0x20ac,
        26 => 0x5b,
        27 => 0x5d,
        39 => 0x40,
        40 => 0x23,
        _ => 0,
    }
}

/// Row `r` (scancodes `16 * r` to `16 * r + 15`) of the plain layer of the keyboard layout.
pub open spec fn plain_row(r: int) -> Seq<u32> {
    if r == 0 {
        seq![0x0u32, 0x1bu32, '1' as u32, '2' as u32, '3' as u32, '4' as u32, '5' as u32, '6' as u32, '7' as u32, '8' as u32, '9' as u32, '0' as u32, 0x27u32, 0xecu32, 0x8u32, 0x9u32]
    } else if r == 1 {
        seq!['q' as u32, 'w' as u32, 'e' as u32, 'r' as u32, 't' as u32, 'y' as u32, 'u' as u32, 'i' as u32, 'o' as u32, 'p' as u32, 0xe8u32, '+' as u32, 0xau32, 0x0u32, 'a' as u32, 's' as u32]
    } else if r == 2 {
        seq!['d' as u32, 'f' as u32, 'g' as u32, 'h' as u32, 'j' as u32, 'k' as u32, 'l' as u32, 0xf2u32, 0xe0u32, 0x5cu32, 0x0u32, 0xf9u32, 'z' as u32, 'x' as u32, 'c' as u32, 'v' as u32]
    } else if r == 3 {
        seq!['b' as u32, 'n' as u32, 'm' as u32, ',' as u32, '.' as u32, '-' as u32, 0x0u32, 0x0u32, 0x0u32, ' ' as u32, 0x0u32, 0x0u32, 0x0u32, 0x0u32, 0x0u32, 0x0u32]
    } else if r == 4 {
        seq![0x0u32, 0x0u32, 0x0u32, 0x0u32, 0x0u32, 0x0u32, 0x0u32, 0x0u32, 0x0u32, 0x0u32, 0x0u32, 0x0u32, 0x0u32, 0x0u32, 0x0u32, 0x0u32]
    } else if r == 5 {
        seq![0x0u32, 0x0u32, 0x0u32, 0x0u32, 0x0u32, 0x0u32, '<' as u32, 0x0u32, 0x0u32, 0x0u32, 0x0u32, 0x0u32, 0x0u32, 0x0u32, 0x0u32, 0x0u32]
    } else if r == 6 {
        seq![0x0u32, 0x0u32, 0x0u32, 0x0u32, 0x0u32, 0x0u32, 0x0u32, 0x0u32, 0x0u32, 0x0u32, 0x0u32, 0x0u32, 0x0u32, 0x0u32, 0x0u32, 0x0u32]
    } else {
        seq![0x0u32, 0x0u32, 0x0u32, 0x0u32, 0x0u32, 0x0u32, 0x0u32, 0x0u32, 0x0u32, 0x0u32, 0x0u32, 0x0u32, 0x0u32, 0x0u32, 0x0u32, 0x0u32]
    }
}

/// Row `r` (scancodes `16 * r` to `16 * r + 15`) of the shifted layer of the keyboard layout.
pub open spec fn shifted_row(r: int) -> Seq<u32> {
    if r == 0 {
        seq![0x0u32, 0x1bu32, '!' as u32, '"' as u32, 0xa3u32, '$' as u32, '%' as u32, '&' as u32, '/' as u32, '(' as u32, ')' as u32, '=' as u32, '?' as u32, '^' as u32, 0x8u32, 0x9u32]
    } else if r == 1 {
        seq!['Q' as u32, 'W' as u32, 'E' as u32, 'R' as u32, 'T' as u32, 'Y' as u32, 'U' as u32, 'I' as u32, 'O' as u32, 'P' as u32, 0xe9u32, '*' as u32, 0xau32, 0x0u32, 'A' as u32, 'S' as u32]
    } else if r == 2 {
        seq!['D' as u32, 'F' as u32, 'G' as u32, 'H' as u32, 'J' as u32, 'K' as u32, 'L' as u32, 0xe7u32, 0xb0u32, '|' as u32, 0x0u32, 0xa7u32, 'Z' as u32, 'X' as u32, 'C' as u32, 'V' as u32]
    } else if r == 3 {
        seq!['B' as u32, 'N' as u32, 'M' as u32, ';' as u32, ':' as u32, '_' as u32, 0x0u32, 0x0u32, 0x0u32, ' ' as u32, 0x0u32, 0x0u32, 0x0u32, 0x0u32, 0x0u32, 0x0u32]
    } else if r == 4 {
        seq![0x0u32, 0x0u32, 0x0u32, 0x0u32, 0x0u32, 0x0u32, 0x0u32, 0x0u32, 0x0u32, 0x0u32, 0x0u32, 0x0u32, 0x0u32, 0x0u32, 0x0u32, 0x0u32]
    } else if r == 5 {
        seq![0x0u32, 0x0u32, 0x0u32, 0x0u32, 0x0u32, 0x0u32, '>' as u32, 0x0u32, 0x0u32, 0x0u32, 0x0u32, 0x0u32, 0x0u32, 0x0u32, 0x0u32, 0x0u32]
    } else if r == 6 {
        seq![0x0u32, 0x0u32, 0x0u32, 0x0u32, 0x0u32, 0x0u32, 0x0u32, 0x0u32, 0x0u32, 0x0u32, 0x0u32, 0x0u32, 0x0u32, 0x0u32, 0x0u32, 0x0u32]
    } else {
        seq![0x0u32, 0x0u32, 0x0u32, 0x0u32, 0x0u32, 0x0u32, 0x0u32, 0x0u32, 0x0u32, 0x0u32, 0x0u32, 0x0u32, 0x0u32, 0x0u32, 0x0u32, 0x0u32]
    }
}

/// Row `r` (scancodes `16 * r` to `16 * r + 15`) of the alt layer of the keyboard layout.
pub open spec fn alt_row(r: int) -> Seq<u32> {
    if r == 0 {
        seq![0x0u32, 0x0u32, 0x0u32, 0x0u32, 0x0u32, 0x0u32, 0x0u32, 0x0u32, '{' as u32, '[' as u32, ']' as u32, '}' as u32, 0x0u32, 0x0u32, 0x0u32, 0x0u32]
    } else if r == 1 {
        seq!['@' as u32, 0x0u32, 0x20acu32, 0x0u32, 0x0u32, 0x0u32, 0x0u32, 0x0u32, 0x0u32, 0x0u32, '[' as u32, ']' as u32, 0x0u32, 0x0u32, 0x0u32, 0x0u32]
    } else if r == 2 {
        seq![0x0u32, 0x0u32, 0x0u32, 0x0u32, 0x0u32, 0x0u32, 0x0u32, '@' as u32, '#' as u32, 0x0u32, 0x0u32, 0x0u32, 0x0u32, 0x0u32, 0x0u32, 0x0u32]
    } else if r == 3 {
        seq![0x0u32, 0x0u32, 0x0u32, 0x0u32, 0x0u32, 0x0u32, 0x0u32, 0x0u32, 0x0u32, 0x0u32, 0x0u32, 0x0u32, 0x0u32, 0x0u32, 0x0u32, 0x0u32]
    } else if r == 4 {
        seq![0x0u32, 0x0u32, 0x0u32, 0x0u32, 0x0u32, 0x0u32, 0x0u32, 0x0u32, 0x0u32, 0x0u32, 0x0u32, 0x0u32, 0x0u32, 0x0u32, 0x0u32, 0x0u32]
    } else if r == 5 {
        seq![0x0u32, 0x0u32, 0x0u32, 0x0u32, 0x0u32, 0x0u32, 0x0u32, 0x0u32, 0x0u32, 0x0u32, 0x0u32, 0x0u32, 0x0u32, 0x0u32, 0x0u32, 0x0u32]
    } else if r == 6 {
        seq![0x0u32, 0x0u32, 0x0u32, 0x0u32, 0x0u32, 0x0u32, 0x0u32, 0x0u32, 0x0u32, 0x0u32, 0x0u32, 0x0u32, 0x0u32, 0x0u32, 0x0u32, 0x0u32]
    } else {
        seq![0x0u32, 0x0u32, 0x0u32, 0x0u32, 0x0u32, 0x0u32, 0x0u32, 0x0u32, 0x0u32, 0x0u32, 0x0u32, 0x0u32, 0x0u32, 0x0u32, 0x0u32, 0x0u32]
    }
}

/// The entry of layer `layer` (0 plain, 1 shifted, 2 Alt) for scancode `sc`; zero past the
/// table's 128 scancodes.
pub open spec fn layout_entry(layer: int, sc: u8) -> u32 {
    if sc >= 128 {
        0
    } else if layer == 0 {
        plain_row(sc as int / 16)[sc as int % 16]
    } else if layer == 1 {
        shifted_row(sc as int / 16)[sc as int % 16]
    } else {
        alt_row(sc as int / 16)[sc as int % 16]
    }
}

/// The plain code of every scancode is its entry in the layout table.
pub proof fn lemma_plain_layout(sc: u8)
    ensures
        lowercase_code(sc) == layout_entry(0, sc),
{
    if sc == 0 {
    } else if sc == 1 {
    } else if sc == 2 {
    } else if sc == 3 {
    } else if sc == 4 {
    } else if sc == 5 {
    } else if sc == 6 {
    } else if sc == 7 {
    } else if sc == 8 {
    } else if sc == 9 {
    } else if sc == 10 {
    } else if sc == 11 {
    } else if sc == 12 {
    } else if sc == 13 {
    } else if sc == 14 {
    } else if sc == 15 {
    } else if sc == 16 {
    } else if sc == 17 {
    } else if sc == 18 {
    } else if sc == 19 {
    } else if sc == 20 {
    } else if sc == 21 {
    } else if sc == 22 {
    } else if sc == 23 {
    } else if sc == 24 {
    } else if sc == 25 {
    } else if sc == 26 {
    } else if sc == 27 {
    } else if sc == 28 {
    } else if sc == 29 {
    } else if sc == 30 {
    } else if sc == 31 {
    } else if sc == 32 {
    } else if sc == 33 {
    } else if sc == 34 {
    } else if sc == 35 {
    } else if sc == 36 {
    } else if sc == 37 {
    } else if sc == 38 {
    } else if sc == 39 {
    } else if sc == 40 {
    } else if sc == 41 {
    } else if sc == 42 {
    } else if sc == 43 {
    } else if sc == 44 {
    } else if sc == 45 {
    } else if sc == 46 {
    } else if sc == 47 {
    } else if sc == 48 {
    } else if sc == 49 {
    } else if sc == 50 {
    } else if sc == 51 {
    } else if sc == 52 {
    } else if sc == 53 {
    } else if sc == 54 {
    } else if sc == 55 {
    } else if sc == 56 {
    } else if sc == 57 {
    } else if sc == 58 {
    } else if sc == 59 {
    } else if sc == 60 {
    } else if sc == 61 {
    } else if sc == 62 {
    } else if sc == 63 {
    } else if sc == 64 {
    } else if sc == 65 {
    } else if sc == 66 {
    } else if sc == 67 {
    } else if sc == 68 {
    } else if sc == 69 {
    } else if sc == 70 {
    } else if sc == 71 {
    } else if sc == 72 {
    } else if sc == 73 {
    } else if sc == 74 {
    } else if sc == 75 {
    } else if sc == 76 {
    } else if sc == 77 {
    } else if sc == 78 {
    } else if sc == 79 {
    } else if sc == 80 {
    } else if sc == 81 {
    } else if sc == 82 {
    } else if sc == 83 {
    } else if sc == 84 {
    } else if sc == 85 {
    } else if sc == 86 {
    } else if sc == 87 {
    } else if sc == 88 {
    } else if sc == 89 {
    } else if sc == 90 {
    } else if sc == 91 {
    } else if sc == 92 {
    } else if sc == 93 {
    } else if sc == 94 {
    } else if sc == 95 {
    } else if sc == 96 {
    } else if sc == 97 {
    } else if sc == 98 {
    } else if sc == 99 {
    } else if sc == 100 {
    } else if sc == 101 {
    } else if sc == 102 {
    } else if sc == 103 {
    } else if sc == 104 {
    } else if sc == 105 {
    } else if sc == 106 {
    } else if sc == 107 {
    } else if sc == 108 {
    } else if sc == 109 {
    } else if sc == 110 {
    } else if sc == 111 {
    } else if sc == 112 {
    } else if sc == 113 {
    } else if sc == 114 {
    } else if sc == 115 {
    } else if sc == 116 {
    } else if sc == 117 {
    } else if sc == 118 {
    } else if sc == 119 {
    } else if sc == 120 {
    } else if sc == 121 {
    } else if sc == 122 {
    } else if sc == 123 {
    } else if sc == 124 {
    } else if sc == 125 {
    } else if sc == 126 {
    } else if sc == 127 {
    } else {
    }
}

/// The shifted code of every scancode is its entry in the layout table.
pub proof fn lemma_shifted_layout(sc: u8)
    ensures
        uppercase_code(sc) == layout_entry(1, sc),
{
    if sc == 0 {
    } else if sc == 1 {
    } else if sc == 2 {
    } else if sc == 3 {
    } else if sc == 4 {
    } else if sc == 5 {
    } else if sc == 6 {
    } else if sc == 7 {
    } else if sc == 8 {
    } else if sc == 9 {
    } else if sc == 10 {
    } else if sc == 11 {
    } else if sc == 12 {
    } else if sc == 13 {
    } else if sc == 14 {
    } else if sc == 15 {
    } else if sc == 16 {
    } else if sc == 17 {
    } else if sc == 18 {
    } else if sc == 19 {
    } else if sc == 20 {
    } else if sc == 21 {
    } else if sc == 22 {
    } else if sc == 23 {
    } else if sc == 24 {
    } else if sc == 25 {
    } else if sc == 26 {
    } else if sc == 27 {
    } else if sc == 28 {
    } else if sc == 29 {
    } else if sc == 30 {
    } else if sc == 31 {
    } else if sc == 32 {
    } else if sc == 33 {
    } else if sc == 34 {
    } else if sc == 35 {
    } else if sc == 36 {
    } else if sc == 37 {
    } else if sc == 38 {
    } else if sc == 39 {
    } else if sc == 40 {
    } else if sc == 41 {
    } else if sc == 42 {
    } else if sc == 43 {
    } else if sc == 44 {
    } else if sc == 45 {
    } else if sc == 46 {
    } else if sc == 47 {
    } else if sc == 48 {
    } else if sc == 49 {
    } else if sc == 50 {
    } else if sc == 51 {
    } else if sc == 52 {
    } else if sc == 53 {
    } else if sc == 54 {
    } else if sc == 55 {
    } else if sc == 56 {
    } else if sc == 57 {
    } else if sc == 58 {
    } else if sc == 59 {
    } else if sc == 60 {
    } else if sc == 61 {
    } else if sc == 62 {
    } else if sc == 63 {
    } else if sc == 64 {
    } else if sc == 65 {
    } else if sc == 66 {
    } else if sc == 67 {
    } else if sc == 68 {
    } else if sc == 69 {
    } else if sc == 70 {
    } else if sc == 71 {
    } else if sc == 72 {
    } else if sc == 73 {
    } else if sc == 74 {
    } else if sc == 75 {
    } else if sc == 76 {
    } else if sc == 77 {
    } else if sc == 78 {
    } else if sc == 79 {
    } else if sc == 80 {
    } else if sc == 81 {
    } else if sc == 82 {
    } else if sc == 83 {
    } else if sc == 84 {
    } else if sc == 85 {
    } else if sc == 86 {
    } else if sc == 87 {
    } else if sc == 88 {
    } else if sc == 89 {
    } else if sc == 90 {
    } else if sc == 91 {
    } else if sc == 92 {
    } else if sc == 93 {
    } else if sc == 94 {
    } else if sc == 95 {
    } else if sc == 96 {
    } else if sc == 97 {
    } else if sc == 98 {
    } else if sc == 99 {
    } else if sc == 100 {
    } else if sc == 101 {
    } else if sc == 102 {
    } else if sc == 103 {
    } else if sc == 104 {
    } else if sc == 105 {
    } else if sc == 106 {
    } else if sc == 107 {
    } else if sc == 108 {
    } else if sc == 109 {
    } else if sc == 110 {
    } else if sc == 111 {
    } else if sc == 112 {
    } else if sc == 113 {
    } else if sc == 114 {
    } else if sc == 115 {
    } else if sc == 116 {
    } else if sc == 117 {
    } else if sc == 118 {
    } else if sc == 119 {
    } else if sc == 120 {
    } else if sc == 121 {
    } else if sc == 122 {
    } else if sc == 123 {
    } else if sc == 124 {
    } else if sc == 125 {
    } else if sc == 126 {
    } else if sc == 127 {
    } else {
    }
}

/// The alt code of every scancode is its entry in the layout table.
pub proof fn lemma_alt_layout(sc: u8)
    ensures
        alt_code(sc) == layout_entry(2, sc),
{
    if sc == 0 {
    } else if sc == 1 {
    } else if sc == 2 {
    } else if sc == 3 {
    } else if sc == 4 {
    } else if sc == 5 {
    } else if sc == 6 {
    } else if sc == 7 {
    } else if sc == 8 {
    } else if sc == 9 {
    } else if sc == 10 {
    } else if sc == 11 {
    } else if sc == 12 {
    } else if sc == 13 {
    } else if sc == 14 {
    } else if sc == 15 {
    } else if sc == 16 {
    } else if sc == 17 {
    } else if sc == 18 {
    } else if sc == 19 {
    } else if sc == 20 {
    } else if sc == 21 {
    } else if sc == 22 {
    } else if sc == 23 {
    } else if sc == 24 {
    } else if sc == 25 {
    } else if sc == 26 {
    } else if sc == 27 {
    } else if sc == 28 {
    } else if sc == 29 {
    } else if sc == 30 {
    } else if sc == 31 {
    } else if sc == 32 {
    } else if sc == 33 {
    } else if sc == 34 {
    } else if sc == 35 {
    } else if sc == 36 {
    } else if sc == 37 {
    } else if sc == 38 {
    } else if sc == 39 {
    } else if sc == 40 {
    } else if sc == 41 {
    } else if sc == 42 {
    } else if sc == 43 {
    } else if sc == 44 {
    } else if sc == 45 {
    } else if sc == 46 {
    } else if sc == 47 {
    } else if sc == 48 {
    } else if sc == 49 {
    } else if sc == 50 {
    } else if sc == 51 {
    } else if sc == 52 {
    } else if sc == 53 {
    } else if sc == 54 {
    } else if sc == 55 {
    } else if sc == 56 {
    } else if sc == 57 {
    } else if sc == 58 {
    } else if sc == 59 {
    } else if sc == 60 {
    } else if sc == 61 {
    } else if sc == 62 {
    } else if sc == 63 {
    } else if sc == 64 {
    } else if sc == 65 {
    } else if sc == 66 {
    } else if sc == 67 {
    } else if sc == 68 {
    } else if sc == 69 {
    } else if sc == 70 {
    } else if sc == 71 {
    } else if sc == 72 {
    } else if sc == 73 {
    } else if sc == 74 {
    } else if sc == 75 {
    } else if sc == 76 {
    } else if sc == 77 {
    } else if sc == 78 {
    } else if sc == 79 {
    } else if sc == 80 {
    } else if sc == 81 {
    } else if sc == 82 {
    } else if sc == 83 {
    } else if sc == 84 {
    } else if sc == 85 {
    } else if sc == 86 {
    } else if sc == 87 {
    } else if sc == 88 {
    } else if sc == 89 {
    } else if sc == 90 {
    } else if sc == 91 {
    } else if sc == 92 {
    } else if sc == 93 {
    } else if sc == 94 {
    } else if sc == 95 {
    } else if sc == 96 {
    } else if sc == 97 {
    } else if sc == 98 {
    } else if sc == 99 {
    } else if sc == 100 {
    } else if sc == 101 {
    } else if sc == 102 {
    } else if sc == 103 {
    } else if sc == 104 {
    } else if sc == 105 {
    } else if sc == 106 {
    } else if sc == 107 {
    } else if sc == 108 {
    } else if sc == 109 {
    } else if sc == 110 {
    } else if sc == 111 {
    } else if sc == 112 {
    } else if sc == 113 {
    } else if sc == 114 {
    } else if sc == 115 {
    } else if sc == 116 {
    } else if sc == 117 {
    } else if sc == 118 {
    } else if sc == 119 {
    } else if sc == 120 {
    } else if sc == 121 {
    } else if sc == 122 {
    } else if sc == 123 {
    } else if sc == 124 {
    } else if sc == 125 {
    } else if sc == 126 {
    } else if sc == 127 {
    } else {
    }
}

/// Whether scancode `sc` is one of the 26 letter keys (the Q, A and Z rows).
pub open spec fn letter_scancode(sc: u8) -> bool {
    (0x10 <= sc <= 0x19) || (0x1E <= sc <= 0x26) || (0x2C <= sc <= 0x32)
}

/// Letter keys give lowercase ASCII letters unshifted and the same letters capitalised with
/// shift, and no two letter keys give the same letter.
pub proof fn lemma_letter_keys(sc: u8, other: u8)
    requires
        letter_scancode(sc),
        letter_scancode(other),
    ensures
        0x61 <= lowercase_code(sc) <= 0x7A,
        uppercase_code(sc) == lowercase_code(sc) - 0x20,
        sc != other ==> lowercase_code(sc) != lowercase_code(other),
{
}

/// A printable key gives the entry of the layer the modifiers select (Alt over shift over
/// plain), none for an empty entry, and clears a pending extended prefix; nothing else of
/// the state changes.
pub proof fn lemma_layout_key_step(s: KeyboardState, sc: u8)
    requires
        is_layout_key(sc),
    ensures
        scancode_step(s, sc).0 == (KeyboardState { e0_active: false, ..s }),
        ({
            let c = if s.alt_active {
                layout_entry(2, sc)
            } else if s.shift_active {
                layout_entry(1, sc)
            } else {
                layout_entry(0, sc)
            };
            scancode_step(s, sc).1 == (if c != 0 { Some(c) } else { None::<u32> })
        }),
{
    lemma_plain_layout(sc);
    lemma_shifted_layout(sc);
    lemma_alt_layout(sc);
}

/// From any state: backspace, enter, space, escape and tab give their codes; the arrow
/// keys give the arrow codes after the extended prefix; the ISO key gives `<`, or `>` with
/// shift; shift, Alt and (after the extended prefix) the super key set their modifier on
/// their make code and clear it on their break code; 0xE0 arms the prefix and gives nothing.
pub proof fn lemma_special_keys(s: KeyboardState)
    ensures
        scancode_step(s, 0x0E).1 == Some(0x08u32),
        scancode_step(s, 0x1C).1 == Some(0x0Au32),
        scancode_step(s, 0x39).1 == Some(0x20u32),
        scancode_step(s, 0x01).1 == Some(0x1Bu32),
        scancode_step(s, 0x0F).1 == Some(0x09u32),
        s.e0_active ==> scancode_step(s, 0x4B).1 == Some(0x110001u32) && scancode_step(s, 0x4D).1 == Some(0x110002u32)
            && scancode_step(s, 0x48).1 == Some(0x110003u32) && scancode_step(s, 0x50).1 == Some(0x110004u32),
        scancode_step(s, 0x56).1 == Some(if s.shift_active { 0x3Eu32 } else { 0x3Cu32 }),
        scancode_step(s, 0x2A).0.shift_active && scancode_step(s, 0x36).0.shift_active,
        !scancode_step(s, 0xAA).0.shift_active && !scancode_step(s, 0xB6).0.shift_active,
        scancode_step(s, 0x38).0.alt_active && !scancode_step(s, 0xB8).0.alt_active,
        s.e0_active ==> scancode_step(s, 0x5B).0.super_active && scancode_step(s, 0x5C).0.super_active
            && !scancode_step(s, 0xDB).0.super_active && !scancode_step(s, 0xDC).0.super_active,
        scancode_step(s, 0xE0).0.e0_active && scancode_step(s, 0xE0).1 is None,
        scancode_step(s, 0x2A).1 is None && scancode_step(s, 0x38).1 is None,
{
}

/// The modifier state scancodes build up: shift, the extended-key prefix, the super
/// (Windows) key and Alt.
#[derive(Debug, Copy, Clone, PartialEq, Eq, Structural)]
pub struct KeyboardState {
    pub shift_active: bool,
    pub e0_active: bool,
    pub super_active: bool,
    pub alt_active: bool,
}

/// Scancode `sc` is a printable key looked up in the layout tables.
pub open spec fn is_layout_key(sc: u8) -> bool {
    (0x02 <= sc <= 0x0D) || (0x10 <= sc <= 0x1B) || (0x1E <= sc <= 0x28) || (0x2B <= sc <= 0x35) || sc == 0x3A
}

/// The key a layout table gives, none for a zero entry.
pub open spec fn some_key(c: u32) -> Option<u32> {
    if c != 0 {
        Some(c)
    } else {
        None
    }
}

/// What scancode `sc` does from state `s` (set 1 codes): 0xE0 arms the extended prefix,
/// which any other code consumes; the super, Alt and shift make and break codes set and
/// clear their modifier; backspace, enter, space, escape and tab give their codes; the
/// extended arrows give the arrow codes; the ISO key gives `<` or `>`; printable keys go
/// through the Alt, shifted or plain table in that order of preference.
pub open spec fn scancode_step(s: KeyboardState, sc: u8) -> (KeyboardState, Option<u32>) {
    if sc == 0xE0 {
        (KeyboardState { e0_active: true, ..s }, None)
    } else {
        let e0 = s.e0_active;
        let t = KeyboardState { e0_active: false, ..s };
        if (sc == 0x5B || sc == 0x5C) && e0 {
            (KeyboardState { super_active: true, ..t }, None)
        } else if (sc == 0xDB || sc == 0xDC) && e0 {
            (KeyboardState { super_active: false, ..t }, None)
        } else if sc == 0x38 {
            (KeyboardState { alt_active: true, ..t }, None)
        } else if sc == 0xB8 {
            (KeyboardState { alt_active: false, ..t }, None)
        } else if sc == 0x2A || sc == 0x36 {
            (KeyboardState { shift_active: true, ..t }, None)
        } else if sc == 0xAA || sc == 0xB6 {
            (KeyboardState { shift_active: false, ..t }, None)
        } else if sc == 0x0E {
            (t, Some(KEY_BACKSPACE))
        } else if sc == 0x1C {
            (t, Some(KEY_ENTER))
        } else if sc == 0x39 {
            (t, Some(0x20))
        } else if sc == 0x01 {
            (t, Some(0x1B))
        } else if sc == 0x0F {
            (t, Some(0x09))
        } else if sc == 0x4B && e0 {
            (t, Some(KEY_LEFT))
        } else if sc == 0x4D && e0 {
            (t, Some(KEY_RIGHT))
        } else if sc == 0x48 && e0 {
            (t, Some(KEY_UP))
        } else if sc == 0x50 && e0 {
            (t, Some(KEY_DOWN))
        } else if sc == 0x56 {
            (t, Some(if s.shift_active { 0x3E } else { 0x3C }))
        } else if is_layout_key(sc) {
            (t, some_key(if s.alt_active { alt_code(sc) } else if s.shift_active { uppercase_code(sc) } else { lowercase_code(sc) }))
        } else {
            (t, None)
        }
    }
}

impl KeyboardState {
    /// No modifier held, no prefix pending.
    pub fn new() -> (s: KeyboardState)
        ensures
            !s.shift_active && !s.e0_active && !s.super_active && !s.alt_active,
    {
        KeyboardState { shift_active: false, e0_active: false, super_active: false, alt_active: false }
    }

    /// Whether the super key is held.
    pub fn is_super_active(&self) -> (r: bool)
        ensures
            r == self.super_active,
    {
        self.super_active
    }

    /// Feeds one scancode: updates the modifiers and returns the key it gives, if any.
    pub fn handle_scancode(&mut self, scancode: u8) -> (r: Option<u32>)
        ensures
            (*final(self), r) == scancode_step(*old(self), scancode),
    {
        if scancode == 0xE0 {
            self.e0_active = true;
            return None;
        }
        let is_e0 = self.e0_active;
        self.e0_active = false;
        if (scancode == 0x5B || scancode == 0x5C) && is_e0 {
            self.super_active = true;
            None
        } else if (scancode == 0xDB || scancode == 0xDC) && is_e0 {
            self.super_active = false;
            None
        } else if scancode == 0x38 {
            self.alt_active = true;
            None
        } else if scancode == 0xB8 {
            self.alt_active = false;
            None
        } else if scancode == 0x2A || scancode == 0x36 {
            self.shift_active = true;
            None
        } else if scancode == 0xAA || scancode == 0xB6 {
            self.shift_active = false;
            None
        } else if scancode == 0x0E {
            Some(KEY_BACKSPACE)
        } else if scancode == 0x1C {
            Some(KEY_ENTER)
        } else if scancode == 0x39 {
            Some(0x20)
        } else if scancode == 0x01 {
            Some(0x1B)
        } else if scancode == 0x0F {
            Some(0x09)
        } else if scancode == 0x4B && is_e0 {
            Some(KEY_LEFT)
        } else if scancode == 0x4D && is_e0 {
            Some(KEY_RIGHT)
        } else if scancode == 0x48 && is_e0 {
            Some(KEY_UP)
        } else if scancode == 0x50 && is_e0 {
            Some(KEY_DOWN)
        } else if scancode == 0x56 {
            if self.shift_active {
                Some(0x3E)
            } else {
                Some(0x3C)
            }
        } else if (0x02 <= scancode && scancode <= 0x0D) || (0x10 <= scancode && scancode <= 0x1B) || (0x1E <= scancode
            && scancode <= 0x28) || (0x2B <= scancode && scancode <= 0x35) || scancode == 0x3A {
            let c = if self.alt_active {
                alt_key(scancode)
            } else if self.shift_active {
                uppercase_key(scancode)
            } else {
                lowercase_key(scancode)
            };
            if c != 0 {
                Some(c)
            } else {
                None
            }
        } else {
            None
        }
    }
}

/// What the keyboard interrupt does with a key.
#[derive(Debug, Copy, Clone, PartialEq, Eq)]
pub enum KeyAction {
    /// Log the frame allocator's allocations (super + p).
    PrintAllocations,
    /// Start a terminal (super + t).
    SpawnTerminal,
    /// End the process owning the focused window (super + x).
    KillProcess(u64),
    /// Append the key to the keyboard buffer.
    BufferKey(u32),
    /// Queue the event for the focused window.
    Deliver(Event),
}

/// The first slot from `i` on holding window `id`, live or not.
pub open spec fn slot_with_id(ws: Seq<Window>, id: usize, i: int) -> Option<Window>
    decreases ws.len() - i,
{
    if i < 0 || i >= ws.len() {
        None
    } else if ws[i].id == id {
        Some(ws[i])
    } else {
        slot_with_id(ws, id, i + 1)
    }
}

/// The first slot holding window `id`.
pub fn find_slot(windows: &[Window; MAX_WINDOWS], id: usize) -> (r: Option<Window>)
    ensures
        r == slot_with_id(windows@, id, 0),
{
    let mut i: usize = 0;
    while i < MAX_WINDOWS
        invariant
            i <= MAX_WINDOWS,
            slot_with_id(windows@, id, 0) == slot_with_id(windows@, id, i as int),
        decreases MAX_WINDOWS - i,
    {
        if windows[i].id == id {
            return Some(windows[i]);
        }
        i += 1;
    }
    None
}

/// What a key does: with super held, a press of `p`, `t` or `x`/`X` triggers its shortcut
/// (`x` ends the process of the focused window, when some slot holds it); without super, a
/// press goes to the keyboard buffer, and the focused window, when its first slot takes
/// events, gets the key.
pub open spec fn key_actions_spec(key: u32, pressed: bool, super_active: bool, active: usize, ws: Seq<Window>) -> Seq<KeyAction> {
    if super_active {
        if !pressed {
            seq![]
        } else if key == 0x70 {
            seq![KeyAction::PrintAllocations]
        } else if key == 0x74 {
            seq![KeyAction::SpawnTerminal]
        } else if (key == 0x78 || key == 0x58) && active != 0 && slot_with_id(ws, active, 0) is Some {
            seq![KeyAction::KillProcess(slot_with_id(ws, active, 0)->0.pid)]
        } else {
            seq![]
        }
    } else {
        let buffered = if pressed { seq![KeyAction::BufferKey(key)] } else { seq![] };
        if active != 0 && (slot_with_id(ws, active, 0) matches Some(w) && w.event_handler != 0) {
            buffered.push(KeyAction::Deliver(Event::Keyboard(KeyboardEvent { wid: active as u32, key, repeat: 1 })))
        } else {
            buffered
        }
    }
}

/// Decides what the keyboard interrupt does with key `key` (pressed or released), given
/// whether super is held, the focused window and the window slots.
pub fn key_actions(key: u32, pressed: bool, super_active: bool, active_window_id: usize, windows: &[Window; MAX_WINDOWS]) -> (r: Vec<KeyAction>)
    ensures
        r@ == key_actions_spec(key, pressed, super_active, active_window_id, windows@),
{
    let mut actions: Vec<KeyAction> = Vec::new();
    if super_active {
        if pressed {
            if key == 0x70 {
                actions.push(KeyAction::PrintAllocations);
            }
            if key == 0x74 {
                actions.push(KeyAction::SpawnTerminal);
            }
            if key == 0x78 || key == 0x58 {
                if active_window_id != 0 {
                    if let Some(w) = find_slot(windows, active_window_id) {
                        actions.push(KeyAction::KillProcess(w.pid));
                    }
                }
            }
        }
    } else {
        if pressed {
            actions.push(KeyAction::BufferKey(key));
        }
        if active_window_id != 0 {
            if let Some(w) = find_slot(windows, active_window_id) {
                if w.event_handler != 0 {
                    actions.push(KeyAction::Deliver(Event::Keyboard(KeyboardEvent { wid: active_window_id as u32, key, repeat: 1 })));
                }
            }
        }
    }
    proof {
        assert(actions@ =~= key_actions_spec(key, pressed, super_active, active_window_id, windows@));
    }
    actions
}

} // verus!
