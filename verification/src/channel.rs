use vstd::prelude::*;

use crate::text::push_char;

verus! {

/// Input coupling of a channel, as on the knob panel of a bench scope.
#[derive(Debug, Clone, Copy, PartialEq, Eq, Structural)]
pub enum Coupling {
    DC,
    AC,
    GND,
}

/// Samples a channel buffer holds.
pub const DEFAULT_BUFFER_CAPACITY: usize = 1_000_000;

impl Coupling {
    /// The sample a channel stores for the raw input `raw`: the input itself
    /// for DC (and for AC, whose high-pass filter is not modelled), the
    /// ground level `ground` for GND.
    pub fn apply<T: Copy>(self, raw: T, ground: T) -> (v: T)
        ensures
            v == (if self == Coupling::GND {
                ground
            } else {
                raw
            }),
    {
        match self {
            Coupling::DC => raw,
            Coupling::AC => raw,
            Coupling::GND => ground,
        }
    }
}

/// Display colour of a channel trace.
#[derive(Debug, Clone, Copy)]
pub struct ChannelColor {
    pub r: u8,
    pub g: u8,
    pub b: u8,
}

impl ChannelColor {
    pub fn new(r: u8, g: u8, b: u8) -> (c: Self)
        ensures
            c.r == r,
            c.g == g,
            c.b == b,
    {
        ChannelColor { r, g, b }
    }

    /// The colour as RGBA bytes, fully opaque.
    pub fn to_rgba(&self) -> (rgba: [u8; 4])
        ensures
            rgba@ == seq![self.r, self.g, self.b, 255u8],
    {
        [self.r, self.g, self.b, 255]
    }
}

/// Trace colours, one per channel in turn: phosphor green, yellow, cyan, magenta.
pub open spec fn channel_color_spec(index: int) -> (u8, u8, u8) {
    if index % 4 == 0 {
        (64, 255, 64)
    } else if index % 4 == 1 {
        (255, 255, 64)
    } else if index % 4 == 2 {
        (64, 200, 255)
    } else {
        (255, 64, 255)
    }
}

/// The trace colour of channel `index`.
pub fn channel_color(index: usize) -> (c: ChannelColor)
    ensures
        (c.r, c.g, c.b) == channel_color_spec(index as int),
{
    let colors: [ChannelColor; 4] = [
        ChannelColor::new(64, 255, 64),
        ChannelColor::new(255, 255, 64),
        ChannelColor::new(64, 200, 255),
        ChannelColor::new(255, 64, 255),
    ];
    colors[index % 4]
}

/// The character of decimal digit `d`.
pub open spec fn digit_char(d: int) -> char {
    if d == 0 {
        '0'
    } else if d == 1 {
        '1'
    } else if d == 2 {
        '2'
    } else if d == 3 {
        '3'
    } else if d == 4 {
        '4'
    } else if d == 5 {
        '5'
    } else if d == 6 {
        '6'
    } else if d == 7 {
        '7'
    } else if d == 8 {
        '8'
    } else {
        '9'
    }
}

/// The decimal representation of `n`, without leading zeros.
pub open spec fn decimal(n: nat) -> Seq<char>
    decreases n,
{
    if n < 10 {
        seq![digit_char(n as int)]
    } else {
        decimal(n / 10).push(digit_char((n % 10) as int))
    }
}

fn digit(d: usize) -> (c: char)
    requires
        d < 10,
    ensures
        c == digit_char(d as int),
{
    match d {
        0 => '0',
        1 => '1',
        2 => '2',
        3 => '3',
        4 => '4',
        5 => '5',
        6 => '6',
        7 => '7',
        8 => '8',
        _ => '9',
    }
}

/// Appends the decimal representation of `n` to `out`.
pub fn push_decimal(out: &mut String, n: usize)
    ensures
        final(out)@ == old(out)@ + decimal(n as nat),
    decreases n,
{
    if n >= 10 {
        push_decimal(out, n / 10);
    }
    push_char(out, digit(n % 10));
}

/// The label of channel `index`: `CH` and the channel's number, counted from 1.
pub fn channel_label(index: usize) -> (label: String)
    requires
        index < usize::MAX,
    ensures
        label@ == seq!['C', 'H'] + decimal((index + 1) as nat),
{
    let mut label = String::new();
    push_char(&mut label, 'C');
    push_char(&mut label, 'H');
    push_decimal(&mut label, index + 1);
    assert(label@ =~= seq!['C', 'H'] + decimal((index + 1) as nat));
    label
}

} // verus!
