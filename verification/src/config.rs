//! How an application draws: its terminal mode, the inline area's height
//! rules, and which rendering optimizations are on.
use vstd::prelude::*;

verus! {

/// Signal that the application should exit.
#[derive(Debug, Clone, Copy, PartialEq, Eq, Structural)]
pub struct ExitSignal;

/// How the inline area's height is chosen.
#[derive(Debug, Clone, Copy, PartialEq, Eq, Structural)]
pub enum InlineHeight {
    /// A fixed number of lines
    Fixed(u16),
    /// As tall as the content, up to an optional maximum
    Content { max: Option<u16> },
    /// As tall as the content, at least `min` lines
    Fill { min: u16 },
}

/// Options of inline rendering.
#[derive(Debug, Clone, Copy, PartialEq, Eq, Structural)]
pub struct InlineConfig {
    /// How the height is chosen
    pub height: InlineHeight,
    /// Whether the cursor stays visible
    pub cursor_visible: bool,
    /// Whether the output stays after exit
    pub preserve_on_exit: bool,
    /// Whether mouse events are captured (this stops terminal scrolling)
    pub mouse_capture: bool,
}

/// Where the application draws.
#[derive(Debug, Clone, Copy, PartialEq, Eq, Structural)]
pub enum TerminalMode {
    /// The full-screen alternate buffer; the content goes on exit
    AlternateScreen,
    /// Inline, in the main buffer; the content stays in the history
    Inline(InlineConfig),
}

/// Which rendering optimizations are on, and how often events are polled.
#[derive(Debug, Clone, Copy, PartialEq, Eq, Structural)]
pub struct RenderConfig {
    /// Draw into a back buffer and send only what changed
    pub double_buffering: bool,
    /// Batch updates into terminal commands
    pub terminal_optimizations: bool,
    /// Compare cells between frames
    pub cell_diffing: bool,
    /// Event polling interval in milliseconds (100 by default)
    pub poll_duration_ms: u64,
}

impl Default for InlineHeight {
    fn default() -> (h: Self)
        ensures
            h == (InlineHeight::Content { max: None }),
    {
        InlineHeight::Content { max: None }
    }
}

impl Default for InlineConfig {
    fn default() -> (c: Self)
        ensures
            c == (InlineConfig {
                height: InlineHeight::Content { max: None },
                cursor_visible: false,
                preserve_on_exit: true,
                mouse_capture: false,
            }),
    {
        InlineConfig {
            height: InlineHeight::Content { max: None },
            cursor_visible: false,
            preserve_on_exit: true,
            mouse_capture: false,
        }
    }
}

impl Default for TerminalMode {
    fn default() -> (m: Self)
        ensures
            m == TerminalMode::AlternateScreen,
    {
        TerminalMode::AlternateScreen
    }
}

impl Default for RenderConfig {
    fn default() -> (c: Self)
        ensures
            c == (RenderConfig {
                double_buffering: true,
                terminal_optimizations: true,
                cell_diffing: true,
                poll_duration_ms: 100,
            }),
    {
        RenderConfig { double_buffering: true, terminal_optimizations: true, cell_diffing: true, poll_duration_ms: 100 }
    }
}

impl RenderConfig {
    /// Every optimization off, for debugging.
    pub fn debug() -> (c: Self)
        ensures
            c == (RenderConfig {
                double_buffering: false,
                terminal_optimizations: false,
                cell_diffing: false,
                poll_duration_ms: 50,
            }),
    {
        RenderConfig { double_buffering: false, terminal_optimizations: false, cell_diffing: false, poll_duration_ms: 50 }
    }
}

impl InlineHeight {
    /// The height the tree is laid out in: the fixed height, or the whole
    /// terminal when the height follows the content.
    pub fn layout_height(&self, term_height: u16) -> (h: u16)
        ensures
            h == (match *self {
                InlineHeight::Fixed(f) => f,
                _ => term_height,
            }),
    {
        match *self {
            InlineHeight::Fixed(f) => f,
            _ => term_height,
        }
    }

    /// Whether the root may grow past the terminal when laid out.
    pub fn is_unclamped(&self) -> (b: bool)
        ensures
            b == (*self is Content),
    {
        match *self {
            InlineHeight::Content { .. } => true,
            _ => false,
        }
    }

    /// The height of the drawn area for content of the given height: the
    /// fixed height, the content capped by the maximum, or the content
    /// raised to the minimum; at least one line in every case.
    pub fn render_height(&self, content_height: u16) -> (h: u16)
        ensures
            h == spec_max(
                match *self {
                    InlineHeight::Fixed(f) => f as int,
                    InlineHeight::Content { max: Some(m) } => spec_min(content_height as int, m as int),
                    InlineHeight::Content { max: None } => content_height as int,
                    InlineHeight::Fill { min } => spec_max(content_height as int, min as int),
                },
                1,
            ),
    {
        let h = match *self {
            InlineHeight::Fixed(f) => f,
            InlineHeight::Content { max } => match max {
                Some(m) => if content_height < m { content_height } else { m },
                None => content_height,
            },
            InlineHeight::Fill { min } => if content_height > min { content_height } else { min },
        };
        if h >= 1 { h } else { 1 }
    }
}

/// The smaller of two integers.
pub open spec fn spec_min(a: int, b: int) -> int {
    if a < b { a } else { b }
}

/// The larger of two integers.
pub open spec fn spec_max(a: int, b: int) -> int {
    if a > b { a } else { b }
}

/// How a frame is drawn.
#[derive(Debug, Clone, Copy, PartialEq, Eq, Structural)]
pub enum DrawStrategy {
    /// Clear the screen and draw every cell of a fresh buffer
    Direct,
    /// Draw the whole back buffer, without comparing frames
    FullBuffer,
    /// Send the changed cells, each on its own
    DiffDirect,
    /// Send the changed cells, batched into commands
    DiffOptimized,
    /// Draw into the inline area
    Inline(InlineConfig),
}

/// How a frame is drawn for a terminal mode and a configuration.
pub fn draw_strategy(mode: TerminalMode, config: RenderConfig) -> (s: DrawStrategy)
    ensures
        s == (match mode {
            TerminalMode::Inline(c) => DrawStrategy::Inline(c),
            TerminalMode::AlternateScreen => if !config.double_buffering {
                DrawStrategy::Direct
            } else if !config.cell_diffing {
                DrawStrategy::FullBuffer
            } else if config.terminal_optimizations {
                DrawStrategy::DiffOptimized
            } else {
                DrawStrategy::DiffDirect
            },
        }),
{
    match mode {
        TerminalMode::Inline(c) => DrawStrategy::Inline(c),
        TerminalMode::AlternateScreen => {
            if !config.double_buffering {
                DrawStrategy::Direct
            } else if !config.cell_diffing {
                DrawStrategy::FullBuffer
            } else if config.terminal_optimizations {
                DrawStrategy::DiffOptimized
            } else {
                DrawStrategy::DiffDirect
            }
        },
    }
}

} // verus!
