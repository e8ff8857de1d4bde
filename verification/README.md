# rxtui (verified core)

The core of a reactive terminal UI framework, written in Verus with its
behaviour stated as contracts and proved.

Layout of `src/`:

- `style.rs` — colors (hex parsing), dimensions, spacing, borders and
  border edge sets, element and text styles, and style merging (with its
  identity, idempotence, associativity and overlay laws).
- `buffer.rs` — screen cells, the screen buffer (writing text with wide
  and control characters, filling, resizing) and the double buffer whose
  diff turns the shown frame into the next one.
- `terminal.rs` — batching cell updates into terminal commands (stable
  sort by position, maximal runs) and the renderer that tracks what the
  terminal has set and emits only the operations that change it.
- `text_input.rs` — the text input's editing state machine, its key
  bindings, its styles and what it displays; every message keeps a
  well-formed state well-formed, and a change is reported exactly when
  the content changes.
- `shimmer.rs` — the shimmer animation's speed, phase and band distance.
- `flow.rs` — wrapped flow layout: grouping children into lines and
  positioning them by justification and alignment.
- `layout.rs` — render node state (style by focus and hover, scrolling,
  sizes resolved against the parent or the viewport), justification
  offsets, and focus cycling.
- `intrinsic.rs` — intrinsic sizes: containers that stack or wrap their
  children, and text already laid out.
- `render.rs` — drawing nodes into a screen buffer: rectangles and
  clipping, borders and backgrounds, text and spans aligned and clipped,
  scrollbars, the order children are drawn in, and merging regions to
  redraw.
- `wrap.rs` — breaking text into lines of a width, by character, by
  word, or by word with long words broken (lines then never exceed the
  width).
- `text_wrap.rs` — turning a text node into its wrapped lines, cutting
  styled spans along them.
- `tree.rs` — the render tree (nodes in one vector, children after their
  parents): focus and hover, tab order, hit testing for clicks, and the
  regions to redraw.
- `draw.rs` — drawing a subtree: each node, then its children in layer
  order, then its scrollbar.
- `debug_text.rs` — a readable dump of the render tree, one line per
  node.
- `fits.rs` — checks that drawing a line, a node or a whole subtree stays
  within the integer types, so a caller can test before it draws.
- `frame.rs` — where drawing can change the screen: only within the clip,
  and the one column right of it when text holds characters two columns
  wide.
- `div.rs`, `config.rs`, `inline.rs`, `effect.rs`, `unicode.rs` — the
  container builder, rendering configuration, the inline drawing area,
  effects, and character classes and widths.

`app/` runs the planned operations against a real terminal with
crossterm, holds component and node callbacks (running them when focus
moves or a click lands), drives the shimmer with tokio, and computes the
floating-point sizes (percentages, scrollbar thumbs).

The library holds the layout steps (measuring text and children,
placing children in a line or in wrapped lines, positioning absolute
children, resolving sizes against a parent whose percentages are given
as integers) and `RenderTree::layout_node`, which stacks children through
a whole tree. Each step that needs its lengths to fit in `u16` has a
check beside it (`line_layout_fits`, `wrap_layout_fits`,
`flow_positions_fit`, `wrapped_size_fits`, `element_size_fits`,
`RenderTree::layout_node_checked`). It holds no driver that sizes every node of a tree from
its parent and its intrinsic size and then places its children.
