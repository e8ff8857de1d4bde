//! The shimmering text component: its animation speed, its phase, and
//! where the highlight band lies over the characters.
use vstd::prelude::*;
use crate::style::Color;
use crate::unicode::chars_of;

verus! {

/// Animation speed of a shimmer: the delay between frames and how many
/// characters the highlight advances per frame.
#[derive(Debug, Clone, Copy, PartialEq, Eq, Structural)]
pub struct ShimmerSpeed {
    /// Delay between frames, in milliseconds
    pub frame_delay_ms: u64,
    /// Characters the highlight advances per frame
    pub phase_step: usize,
}

impl ShimmerSpeed {
    /// A speed with the given frame delay and step; a step of 0 becomes 1.
    pub fn new(frame_delay_ms: u64, phase_step: usize) -> (s: ShimmerSpeed)
        ensures
            s == (ShimmerSpeed { frame_delay_ms, phase_step: if phase_step == 0 { 1 } else { phase_step } }),
    {
        ShimmerSpeed { frame_delay_ms, phase_step: if phase_step == 0 { 1 } else { phase_step } }
    }

    /// About 12 frames per second, one character per frame.
    pub fn slow() -> (s: ShimmerSpeed)
        ensures
            s == (ShimmerSpeed { frame_delay_ms: 80, phase_step: 1 }),
    {
        Self::new(80, 1)
    }

    /// About 20 frames per second, one character per frame.
    pub fn medium() -> (s: ShimmerSpeed)
        ensures
            s == (ShimmerSpeed { frame_delay_ms: 50, phase_step: 1 }),
    {
        Self::new(50, 1)
    }

    /// About 30 frames per second, two characters per frame.
    pub fn fast() -> (s: ShimmerSpeed)
        ensures
            s == (ShimmerSpeed { frame_delay_ms: 33, phase_step: 2 }),
    {
        Self::new(33, 2)
    }

    /// The delay between frames in milliseconds, at least 1.
    pub fn frame_delay(&self) -> (ms: u64)
        ensures
            ms == (if self.frame_delay_ms >= 1 { self.frame_delay_ms } else { 1 }),
    {
        if self.frame_delay_ms >= 1 { self.frame_delay_ms } else { 1 }
    }

    /// The characters advanced per frame, at least 1.
    pub fn phase_step(&self) -> (n: usize)
        ensures
            n == (if self.phase_step >= 1 { self.phase_step } else { 1 }),
            n >= 1,
    {
        if self.phase_step >= 1 { self.phase_step } else { 1 }
    }
}

impl Default for ShimmerSpeed {
    fn default() -> (s: Self)
        ensures
            s == (ShimmerSpeed { frame_delay_ms: 50, phase_step: 1 }),
    {
        Self::medium()
    }
}

/// A text whose characters are lit by a highlight band that sweeps across
/// it, wrapping around at the end.
#[derive(Debug)]
pub struct ShimmerText {
    /// The text
    pub content: String,
    /// Animation speed
    pub speed: ShimmerSpeed,
    /// Width of the highlight band, in characters
    pub highlight_band: usize,
    /// Color of unlit characters
    pub base_color: (u8, u8, u8),
    /// Color at the center of the band
    pub highlight_color: (u8, u8, u8),
}

impl Clone for ShimmerText {
    fn clone(&self) -> (t: Self)
        ensures
            t.content@ == self.content@,
            t.speed == self.speed,
            t.highlight_band == self.highlight_band,
            t.base_color == self.base_color,
            t.highlight_color == self.highlight_color,
    {
        ShimmerText {
            content: self.content.clone(),
            speed: self.speed,
            highlight_band: self.highlight_band,
            base_color: self.base_color,
            highlight_color: self.highlight_color,
        }
    }
}

/// The RGB value a color is drawn with when blending.
pub open spec fn rgb_of(color: Color) -> (u8, u8, u8) {
    match color {
        Color::Black => (0, 0, 0),
        Color::Red => (205, 49, 49),
        Color::Green => (13, 188, 121),
        Color::Yellow => (229, 229, 16),
        Color::Blue => (36, 114, 200),
        Color::Magenta => (188, 63, 188),
        Color::Cyan => (17, 168, 205),
        Color::White => (229, 229, 229),
        Color::BrightBlack => (102, 102, 102),
        Color::BrightRed => (241, 76, 76),
        Color::BrightGreen => (35, 209, 139),
        Color::BrightYellow => (245, 245, 67),
        Color::BrightBlue => (59, 142, 234),
        Color::BrightMagenta => (214, 112, 214),
        Color::BrightCyan => (41, 184, 219),
        Color::BrightWhite => (255, 255, 255),
        Color::Rgb(r, g, b) => (r, g, b),
    }
}

/// The RGB value a color is drawn with when blending.
pub fn color_to_rgb(color: Color) -> (c: (u8, u8, u8))
    ensures
        c == rgb_of(color),
{
    match color {
        Color::Black => (0, 0, 0),
        Color::Red => (205, 49, 49),
        Color::Green => (13, 188, 121),
        Color::Yellow => (229, 229, 16),
        Color::Blue => (36, 114, 200),
        Color::Magenta => (188, 63, 188),
        Color::Cyan => (17, 168, 205),
        Color::White => (229, 229, 229),
        Color::BrightBlack => (102, 102, 102),
        Color::BrightRed => (241, 76, 76),
        Color::BrightGreen => (35, 209, 139),
        Color::BrightYellow => (245, 245, 67),
        Color::BrightBlue => (59, 142, 234),
        Color::BrightMagenta => (214, 112, 214),
        Color::BrightCyan => (41, 184, 219),
        Color::BrightWhite => (255, 255, 255),
        Color::Rgb(r, g, b) => (r, g, b),
    }
}

/// The distance between positions `a` and `b` on a ring of `total`.
pub open spec fn ring_distance(a: int, b: int, total: int) -> int {
    let diff = if a >= b { a - b } else { b - a };
    if diff <= total - diff { diff } else { total - diff }
}

/// The smallest ring distance from `index` to the first `k` positions of
/// the band that starts at `phase`, or `None` when `k` is 0.
pub open spec fn band_distance(index: int, phase: int, total: int, k: int) -> Option<int>
    decreases k,
{
    if k <= 0 {
        None
    } else {
        let d = ring_distance(index, (phase + (k - 1)) % total, total);
        match band_distance(index, phase, total, k - 1) {
            Some(m) => Some(if d < m { d } else { m }),
            None => Some(d),
        }
    }
}

impl ShimmerText {
    /// A shimmer over `content` at medium speed, with a band of 6
    /// characters sweeping from a slate blue to a pale blue.
    pub fn new(content: String) -> (t: ShimmerText)
        ensures
            t.content@ == content@,
            t.speed == (ShimmerSpeed { frame_delay_ms: 50, phase_step: 1 }),
            t.highlight_band == 6,
            t.base_color == (70u8, 90u8, 130u8),
            t.highlight_color == (210u8, 225u8, 255u8),
    {
        ShimmerText {
            content,
            speed: ShimmerSpeed::default(),
            highlight_band: 6,
            base_color: (70, 90, 130),
            highlight_color: (210, 225, 255),
        }
    }

    /// Sets the animation speed.
    pub fn speed(self, speed: ShimmerSpeed) -> (t: Self)
        ensures
            t.content@ == self.content@,
            t.speed == speed,
            t.highlight_band == self.highlight_band,
            t.base_color == self.base_color,
            t.highlight_color == self.highlight_color,
    {
        let mut t = self;
        t.speed = speed;
        t
    }

    /// Sets the width of the highlight band, at least 1.
    pub fn highlight_band(self, band: usize) -> (t: Self)
        ensures
            t.content@ == self.content@,
            t.speed == self.speed,
            t.highlight_band == (if band >= 1 { band } else { 1 }),
            t.base_color == self.base_color,
            t.highlight_color == self.highlight_color,
    {
        let mut t = self;
        t.highlight_band = if band >= 1 { band } else { 1 };
        t
    }

    /// Sets the color of unlit characters.
    pub fn base_color(self, color: Color) -> (t: Self)
        ensures
            t.content@ == self.content@,
            t.speed == self.speed,
            t.highlight_band == self.highlight_band,
            t.base_color == rgb_of(color),
            t.highlight_color == self.highlight_color,
    {
        let mut t = self;
        t.base_color = color_to_rgb(color);
        t
    }

    /// Sets the color at the center of the band.
    pub fn highlight_color(self, color: Color) -> (t: Self)
        ensures
            t.content@ == self.content@,
            t.speed == self.speed,
            t.highlight_band == self.highlight_band,
            t.base_color == self.base_color,
            t.highlight_color == rgb_of(color),
    {
        let mut t = self;
        t.highlight_color = color_to_rgb(color);
        t
    }

    /// Sets both colors.
    pub fn gradient(self, base: Color, highlight: Color) -> (t: Self)
        ensures
            t.content@ == self.content@,
            t.speed == self.speed,
            t.highlight_band == self.highlight_band,
            t.base_color == rgb_of(base),
            t.highlight_color == rgb_of(highlight),
    {
        let mut t = self;
        t.base_color = color_to_rgb(base);
        t.highlight_color = color_to_rgb(highlight);
        t
    }

    /// The number of characters in the text.
    pub fn char_count(&self) -> (n: usize)
        ensures
            n == self.content@.len(),
    {
        chars_of(self.content.as_str()).len()
    }

    /// The phase after one frame: advanced by the speed's step, around the
    /// text's length; `None` (nothing to animate) for an empty text.
    pub fn update(&self, phase: usize) -> (next: Option<usize>)
        requires
            phase + (if self.speed.phase_step >= 1 { self.speed.phase_step } else { 1 }) <= usize::MAX,
        ensures
            self.content@.len() == 0 ==> next is None,
            self.content@.len() > 0 ==> next == Some(((phase + (if self.speed.phase_step >= 1 {
                self.speed.phase_step
            } else {
                1
            })) % (self.content@.len() as int)) as usize),
    {
        let total = self.char_count();
        if total == 0 {
            return None;
        }
        Some((phase + self.speed.phase_step()) % total)
    }

    /// The distance between positions `a` and `b` on a ring of `total`.
    pub fn circular_distance(&self, a: usize, b: usize, total: usize) -> (d: usize)
        requires
            (if a >= b { a - b } else { b - a }) <= total,
        ensures
            d == ring_distance(a as int, b as int, total as int),
    {
        let diff = if a >= b { a - b } else { b - a };
        if diff <= total - diff { diff } else { total - diff }
    }

    /// How far character `index` is from the nearest character of the
    /// highlight band that starts at `phase`, on a ring of `total`
    /// characters; `None` when the band is empty.
    pub fn band_distance(&self, index: usize, phase: usize, total: usize) -> (d: Option<usize>)
        requires
            index < total,
            phase + self.highlight_band <= usize::MAX,
        ensures
            d matches Some(v) ==> band_distance(index as int, phase as int, total as int, self.highlight_band as int)
                == Some(v as int),
            d is None ==> band_distance(index as int, phase as int, total as int, self.highlight_band as int) is None,
    {
        let mut best: Option<usize> = None;
        let mut offset: usize = 0;
        while offset < self.highlight_band
            invariant
                index < total,
                phase + self.highlight_band <= usize::MAX,
                offset <= self.highlight_band,
                best matches Some(v) ==> band_distance(index as int, phase as int, total as int, offset as int)
                    == Some(v as int),
                best is None ==> band_distance(index as int, phase as int, total as int, offset as int) is None,
            decreases self.highlight_band - offset,
        {
            let pos = (phase + offset) % total;
            let d = self.circular_distance(index, pos, total);
            best = match best {
                Some(m) => Some(if d < m { d } else { m }),
                None => Some(d),
            };
            offset = offset + 1;
        }
        best
    }
}

/// A highlight band of at least one character lies within half the text
/// of every character: the distance is never more than `total / 2`.
pub proof fn lemma_band_distance_bounded(index: int, phase: int, total: int, k: int)
    requires
        0 <= index < total,
        0 <= phase,
        k >= 1,
    ensures
        band_distance(index, phase, total, k) matches Some(d) && 0 <= d <= total / 2,
    decreases k,
{
    let pos = (phase + (k - 1)) % total;
    assert(0 <= pos < total);
    if k > 1 {
        lemma_band_distance_bounded(index, phase, total, k - 1);
    }
}

} // verus!
