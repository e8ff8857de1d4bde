//! RxTUI core: styling, cell buffers, terminal command batching, inline
//! rendering, render node state and the state machines behind the built-in
//! components, with their contracts.
pub mod style;
pub mod buffer;
pub mod unicode;
pub mod terminal;
pub mod div;
pub mod text_input;
pub mod shimmer;
pub mod config;
pub mod inline;
pub mod effect;
pub mod layout;
pub mod flow;
pub mod intrinsic;
pub mod render;
pub mod text_wrap;
pub mod tree;
pub mod draw;
pub mod debug_text;
pub mod fits;
pub mod frame;
pub mod wrap;

pub use style::{
    BorderEdges, BorderStyle, Color, Dimension, Direction, Overflow, Position, Spacing, Style, TextStyle, TextWrap,
    WrapMode,
};
pub use config::{InlineConfig, InlineHeight, TerminalMode};
pub use shimmer::{ShimmerSpeed, ShimmerText};
pub use text_input::TextInput;
pub use layout::TextSpan;
