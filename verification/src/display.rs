//! The picture that a host shows: for each cell of the pixel buffer four
//! bytes, red, green, blue and alpha.

use crate::cpu::PIXELS;
use vstd::prelude::*;
use vstd::string::StringSliceAdditionalSpecFns;
use vstd::utf8::is_ascii_chars_encode_utf8;

verus! {

/// Length of the picture in bytes.
pub const DISPLAY_LEN: usize = PIXELS * 4;

/// The colors of the picture, each written `#rrggbb`: the background, the
/// painted cells, the cursor, and a spare.
pub const THEME: [&'static str; 4] = ["#22ccbb", "#000000", "#ffeebb", "#ffffff"];

/// The ASCII codes of `0`, `9`, `a`, `f`, `A`, `F` and `+`.
pub const DIGIT_0: u8 = 0x30;

pub const DIGIT_9: u8 = 0x39;

pub const LOWER_A: u8 = 0x61;

pub const LOWER_F: u8 = 0x66;

pub const UPPER_A: u8 = 0x41;

pub const UPPER_F: u8 = 0x46;

pub const PLUS: u8 = 0x2b;

/// The value of a hexadecimal digit, written in either case.
pub open spec fn hex_digit(byte: u8) -> Option<u8> {
    if DIGIT_0 <= byte <= DIGIT_9 {
        Some((byte - DIGIT_0) as u8)
    } else if LOWER_A <= byte <= LOWER_F {
        Some((byte - LOWER_A + 10) as u8)
    } else if UPPER_A <= byte <= UPPER_F {
        Some((byte - UPPER_A + 10) as u8)
    } else {
        None
    }
}

/// The value of one color channel, written in two bytes: two hexadecimal
/// digits, or a plus sign and one digit.
pub open spec fn channel(high: u8, low: u8) -> Option<u8> {
    match hex_digit(low) {
        Some(l) => match hex_digit(high) {
            Some(h) => Some((16 * h + l) as u8),
            None => if high == PLUS {
                Some(l)
            } else {
                None
            },
        },
        None => None,
    }
}

/// The text holds three channels after its first byte. The first byte is
/// not looked at, nor is anything after the seventh.
pub open spec fn is_color(text: Seq<u8>) -> bool {
    &&& text.len() >= 7
    &&& channel(text[1], text[2]) is Some
    &&& channel(text[3], text[4]) is Some
    &&& channel(text[5], text[6]) is Some
}

/// Red, green and blue of a color text.
pub open spec fn color_of(text: Seq<u8>) -> (u8, u8, u8)
    recommends
        is_color(text),
{
    (
        channel(text[1], text[2]).unwrap(),
        channel(text[3], text[4]).unwrap(),
        channel(text[5], text[6]).unwrap(),
    )
}

/// The picture of a pixel buffer: cell `i` takes bytes `4 * i` to
/// `4 * i + 3`, the three channels of `set` where the cell is painted and
/// of `clear` where it is not, then an alpha of 255.
pub open spec fn picture(pixels: Seq<bool>, set: (u8, u8, u8), clear: (u8, u8, u8)) -> Seq<u8> {
    Seq::new(
        pixels.len() * 4,
        |j: int|
            {
                let color = if pixels[j / 4] {
                    set
                } else {
                    clear
                };
                if j % 4 == 0 {
                    color.0
                } else if j % 4 == 1 {
                    color.1
                } else if j % 4 == 2 {
                    color.2
                } else {
                    0xFFu8
                }
            },
    )
}

fn hex_digit_value(byte: u8) -> (value: Option<u8>)
    ensures
        value == hex_digit(byte),
{
    if DIGIT_0 <= byte && byte <= DIGIT_9 {
        Some(byte - DIGIT_0)
    } else if LOWER_A <= byte && byte <= LOWER_F {
        Some(byte - LOWER_A + 10)
    } else if UPPER_A <= byte && byte <= UPPER_F {
        Some(byte - UPPER_A + 10)
    } else {
        None
    }
}

fn channel_value(high: u8, low: u8) -> (value: Option<u8>)
    ensures
        value == channel(high, low),
{
    match hex_digit_value(low) {
        Some(l) => match hex_digit_value(high) {
            Some(h) => Some(16 * h + l),
            None => if high == PLUS {
                Some(l)
            } else {
                None
            },
        },
        None => None,
    }
}

/// Reads red, green and blue from a color written `#rrggbb`.
pub fn rgb(color: &str) -> (channels: (u8, u8, u8))
    requires
        is_color(color.spec_bytes()),
    ensures
        channels == color_of(color.spec_bytes()),
{
    let text = color.as_bytes();
    let r: u8 = channel_value(text[1], text[2]).unwrap();
    let g: u8 = channel_value(text[3], text[4]).unwrap();
    let b: u8 = channel_value(text[5], text[6]).unwrap();

    (r, g, b)
}

/// Renders the pixel buffer into the picture: painted cells in the second
/// color of the theme, black, and the others in the first, a turquoise.
pub fn update_display_buffer(v_buffer: &[bool; PIXELS], display_buffer: &mut [u8; DISPLAY_LEN])
    ensures
        final(display_buffer)@ == picture(v_buffer@, (0x00, 0x00, 0x00), (0x22, 0xcc, 0xbb)),
{
    proof {
        reveal_strlit("#22ccbb");
        reveal_strlit("#000000");
        is_ascii_chars_encode_utf8(THEME[0]@);
        is_ascii_chars_encode_utf8(THEME[1]@);
    }
    let color_a = rgb(THEME[1]);
    let color_b = rgb(THEME[0]);

    for i in 0..PIXELS
        invariant
            color_a == (0x00u8, 0x00u8, 0x00u8),
            color_b == (0x22u8, 0xccu8, 0xbbu8),
            forall|j: int|
                0 <= j < 4 * i ==> display_buffer@[j] == picture(v_buffer@, color_a, color_b)[j],
    {
        let color = if v_buffer[i] {
            color_a
        } else {
            color_b
        };
        let j: usize = i * 4;
        display_buffer[j] = color.0;
        display_buffer[j + 1] = color.1;
        display_buffer[j + 2] = color.2;
        display_buffer[j + 3] = 0xFF;
    }
    assert(display_buffer@ =~= picture(v_buffer@, color_a, color_b));
}

} // verus!
