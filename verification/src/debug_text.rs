//! A readable dump of the render tree: one line per node, indented by depth,
//! with its kind, position, size, content, style summary and dirty flag.
use vstd::prelude::*;
use crate::layout::{RenderNode, RenderNodeType, TextSpan};
use crate::style::{Color, Direction, Overflow, Spacing, Style};
use crate::tree::{RenderTree, is_node, kids};
use crate::unicode::{chars_of, string_from_chars};

verus! {

/// The character of a decimal digit.
pub open spec fn digit_char(d: nat) -> char {
    if d == 0 {
        '0'
    } else if d == 1 {
        '1'
    } else if d == 2 {
        '2'
    } else if d == 3 {
        '3'
    } else if d == 4 {
        '4'
    } else if d == 5 {
        '5'
    } else if d == 6 {
        '6'
    } else if d == 7 {
        '7'
    } else if d == 8 {
        '8'
    } else {
        '9'
    }
}

/// `n` written in decimal, without leading zeros.
pub open spec fn decimal(n: nat) -> Seq<char>
    decreases n,
{
    if n < 10 {
        seq![digit_char(n)]
    } else {
        decimal(n / 10).push(digit_char(n % 10))
    }
}

/// `cs` with each line break written as a backslash and `n`.
pub open spec fn escaped(cs: Seq<char>) -> Seq<char>
    decreases cs.len(),
{
    if cs.len() == 0 {
        Seq::empty()
    } else {
        escaped(cs.drop_last()) + if cs.last() == '\n' { seq!['\\', 'n'] } else { seq![cs.last()] }
    }
}

/// Two spaces per level of depth.
pub open spec fn indent(depth: nat) -> Seq<char> {
    Seq::new(2 * depth, |i: int| ' ')
}

/// The name a color is printed with.
pub open spec fn color_name(c: Color) -> Seq<char> {
    match c {
        Color::Black => "Black"@,
        Color::Red => "Red"@,
        Color::Green => "Green"@,
        Color::Yellow => "Yellow"@,
        Color::Blue => "Blue"@,
        Color::Magenta => "Magenta"@,
        Color::Cyan => "Cyan"@,
        Color::White => "White"@,
        Color::BrightBlack => "BrightBlack"@,
        Color::BrightRed => "BrightRed"@,
        Color::BrightGreen => "BrightGreen"@,
        Color::BrightYellow => "BrightYellow"@,
        Color::BrightBlue => "BrightBlue"@,
        Color::BrightMagenta => "BrightMagenta"@,
        Color::BrightCyan => "BrightCyan"@,
        Color::BrightWhite => "BrightWhite"@,
        Color::Rgb(r, g, b) => "Rgb("@ + decimal(r as nat) + ", "@ + decimal(g as nat) + ", "@ + decimal(b as nat) + ")"@,
    }
}

/// The name a direction is printed with.
pub open spec fn direction_name(d: Direction) -> Seq<char> {
    match d {
        Direction::Vertical => "Vertical"@,
        Direction::Horizontal => "Horizontal"@,
    }
}

/// The name an overflow mode is printed with; content that may draw
/// outside its container is printed as `None`.
pub open spec fn overflow_name(o: Overflow) -> Seq<char> {
    match o {
        Overflow::Visible => "None"@,
        Overflow::Hidden => "Hidden"@,
        Overflow::Scroll => "Scroll"@,
        Overflow::Auto => "Auto"@,
    }
}

/// ` @ (x, y) [wxh]` for a node.
pub open spec fn geometry_text(n: RenderNode) -> Seq<char> {
    " @ ("@ + decimal(n.x as nat) + ", "@ + decimal(n.y as nat) + ") ["@ + decimal(n.width as nat) + "x"@
        + decimal(n.height as nat) + "]"@
}

/// A line break, `prefix`, and `s` escaped in double quotes.
pub open spec fn quoted(prefix: Seq<char>, s: Seq<char>) -> Seq<char> {
    "\n"@ + prefix + "\""@ + escaped(s) + "\""@
}

/// Each of `lines` quoted on a line of its own after `prefix`.
pub open spec fn string_lines(lines: Seq<String>, prefix: Seq<char>) -> Seq<char>
    decreases lines.len(),
{
    if lines.len() == 0 {
        Seq::empty()
    } else {
        string_lines(lines.drop_last(), prefix) + quoted(prefix, lines.last()@)
    }
}

/// The content of each of `spans` quoted on a line of its own after `prefix`.
pub open spec fn span_lines(spans: Seq<TextSpan>, prefix: Seq<char>) -> Seq<char>
    decreases spans.len(),
{
    if spans.len() == 0 {
        Seq::empty()
    } else {
        span_lines(spans.drop_last(), prefix) + quoted(prefix, spans.last().content@)
    }
}

/// For each wrapped line: `Line i: k spans`, numbered from 1, then its
/// spans one level deeper.
pub open spec fn rich_lines(lines: Seq<Vec<TextSpan>>, ind: Seq<char>) -> Seq<char>
    decreases lines.len(),
{
    if lines.len() == 0 {
        Seq::empty()
    } else {
        rich_lines(lines.drop_last(), ind) + "\n"@ + ind + "  Line "@ + decimal(lines.len()) + ": "@
            + decimal(lines.last()@.len()) + " spans"@ + span_lines(lines.last()@, ind + "    "@)
    }
}

/// The kind of a node, where it stands, and what text it holds.
pub open spec fn kind_text(n: RenderNode, ind: Seq<char>) -> Seq<char> {
    match n.node_type {
        RenderNodeType::Element => ind + "Div"@ + geometry_text(n),
        RenderNodeType::Text(c) => ind + "Text"@ + geometry_text(n) + ": \""@ + escaped(c@) + "\""@,
        RenderNodeType::TextWrapped(ls) => ind + "TextWrapped"@ + geometry_text(n) + ": "@ + decimal(ls@.len())
            + " lines"@ + string_lines(ls@, ind + "  "@),
        RenderNodeType::RichText(sp) => ind + "RichText"@ + geometry_text(n) + ": "@ + decimal(sp@.len())
            + " spans"@ + span_lines(sp@, ind + "  "@),
        RenderNodeType::RichTextWrapped(ls) => ind + "RichTextWrapped"@ + geometry_text(n) + ": "@
            + decimal(ls@.len()) + " lines"@ + rich_lines(ls@, ind),
    }
}

/// ` bg:` and the background color, when set.
pub open spec fn background_text(c: Option<Color>) -> Seq<char> {
    match c {
        Some(c) => " bg:"@ + color_name(c),
        None => Seq::empty(),
    }
}

/// ` dir:` and the direction, when set.
pub open spec fn direction_text(d: Option<Direction>) -> Seq<char> {
    match d {
        Some(d) => " dir:"@ + direction_name(d),
        None => Seq::empty(),
    }
}

/// ` pad:(top,right,bottom,left)`, when set.
pub open spec fn padding_text(p: Option<Spacing>) -> Seq<char> {
    match p {
        Some(p) => " pad:("@ + decimal(p.top as nat) + ","@ + decimal(p.right as nat) + ","@
            + decimal(p.bottom as nat) + ","@ + decimal(p.left as nat) + ")"@,
        None => Seq::empty(),
    }
}

/// ` overflow:` and the overflow mode, when set.
pub open spec fn overflow_text(o: Option<Overflow>) -> Seq<char> {
    match o {
        Some(o) => " overflow:"@ + overflow_name(o),
        None => Seq::empty(),
    }
}

/// The background, direction, padding and overflow a style sets.
pub open spec fn style_text(style: Option<Style>) -> Seq<char> {
    match style {
        Some(s) => background_text(s.background) + direction_text(s.direction) + padding_text(s.padding)
            + overflow_text(s.overflow),
        None => Seq::empty(),
    }
}

/// The text color of a plain or wrapped text node.
pub open spec fn text_color_text(n: RenderNode) -> Seq<char> {
    if n.node_type is Text || n.node_type is TextWrapped {
        match n.text_color {
            Some(c) => " color:"@ + color_name(c),
            None => Seq::empty(),
        }
    } else {
        Seq::empty()
    }
}

/// The line of a node at the given depth, ending in a line break.
pub open spec fn node_text(n: RenderNode, depth: nat) -> Seq<char> {
    kind_text(n, indent(depth)) + style_text(n.style) + text_color_text(n)
        + (if n.dirty { " [DIRTY]"@ } else { Seq::empty() }) + "\n"@
}

/// The lines of the subtree at `i`, each node before its children, the
/// children one level deeper.
pub open spec fn subtree_text(t: RenderTree, i: int, depth: nat) -> Seq<char>
    decreases t.nodes@.len() - i, 1int, 0int,
{
    if is_node(t, i) && i < t.children@.len() {
        node_text(t.nodes@[i], depth) + children_text(t, i, 0, depth + 1)
    } else {
        Seq::empty()
    }
}

/// The lines of the subtrees of node `i`'s children from child `k` on.
pub open spec fn children_text(t: RenderTree, i: int, k: int, depth: nat) -> Seq<char>
    decreases t.nodes@.len() - i, 0int, t.children@[i]@.len() - k,
{
    if is_node(t, i) && i < t.children@.len() && 0 <= k < t.children@[i]@.len() {
        let c = t.children@[i]@[k] as int;
        let rest = children_text(t, i, k + 1, depth);
        if i < c && c < t.nodes@.len() { subtree_text(t, c, depth) + rest } else { rest }
    } else {
        Seq::empty()
    }
}

/// The dump of a tree: a header, the lines of the tree from its root (or
/// `(empty)`), and a footer.
pub open spec fn tree_debug_text(t: RenderTree) -> Seq<char> {
    match t.root {
        Some(r) => "=== Render Tree ===\n"@ + subtree_text(t, r as int, 0) + "==================\n"@,
        None => "=== Render Tree ===\n(empty)\n==================\n"@,
    }
}

fn digit_for(d: u64) -> (c: char)
    requires
        d < 10,
    ensures
        c == digit_char(d as nat),
{
    if d == 0 {
        '0'
    } else if d == 1 {
        '1'
    } else if d == 2 {
        '2'
    } else if d == 3 {
        '3'
    } else if d == 4 {
        '4'
    } else if d == 5 {
        '5'
    } else if d == 6 {
        '6'
    } else if d == 7 {
        '7'
    } else if d == 8 {
        '8'
    } else {
        '9'
    }
}

/// Appends `n` in decimal.
fn push_decimal(out: &mut Vec<char>, n: u64)
    ensures
        final(out)@ == old(out)@ + decimal(n as nat),
    decreases n,
{
    let ghost start = out@;
    if n >= 10 {
        push_decimal(out, n / 10);
    }
    out.push(digit_for(n % 10));
    proof {
        if n >= 10 {
            assert(out@ =~= start + decimal((n / 10) as nat).push(digit_char((n % 10) as nat)));
        } else {
            assert(out@ =~= start + decimal(n as nat));
        }
    }
}

/// Appends the characters of `s`.
fn push_text(out: &mut Vec<char>, s: &str)
    ensures
        final(out)@ == old(out)@ + s@,
{
    let cs = chars_of(s);
    let ghost start = out@;
    let mut i: usize = 0;
    while i < cs.len()
        invariant
            i <= cs@.len(),
            out@ == start + cs@.take(i as int),
        decreases cs@.len() - i,
    {
        out.push(cs[i]);
        assert(cs@.take(i + 1) =~= cs@.take(i as int).push(cs@[i as int]));
        i = i + 1;
    }
    assert(cs@.take(i as int) =~= s@);
}

/// Appends `s` with its line breaks escaped.
fn push_escaped(out: &mut Vec<char>, s: &str)
    ensures
        final(out)@ == old(out)@ + escaped(s@),
{
    let cs = chars_of(s);
    let ghost start = out@;
    let mut i: usize = 0;
    assert(cs@.take(0) =~= Seq::<char>::empty());
    while i < cs.len()
        invariant
            i <= cs@.len(),
            out@ == start + escaped(cs@.take(i as int)),
        decreases cs@.len() - i,
    {
        let c = cs[i];
        let ghost before = out@;
        if c == '\n' {
            out.push('\\');
            out.push('n');
        } else {
            out.push(c);
        }
        let ghost next = cs@.take(i + 1);
        assert(next.drop_last() =~= cs@.take(i as int));
        assert(next.last() == c);
        assert(out@ =~= start + escaped(next));
        i = i + 1;
    }
    assert(cs@.take(i as int) =~= s@);
}

/// Appends two spaces per level of depth.
fn push_indent(out: &mut Vec<char>, depth: usize)
    ensures
        final(out)@ == old(out)@ + indent(depth as nat),
{
    let ghost start = out@;
    let mut j: usize = 0;
    while j < depth
        invariant
            j <= depth,
            out@ == start + indent(j as nat),
        decreases depth - j,
    {
        out.push(' ');
        out.push(' ');
        assert(out@ =~= start + indent((j + 1) as nat));
        j = j + 1;
    }
}

/// Appends the name of a color.
fn push_color(out: &mut Vec<char>, c: Color)
    ensures
        final(out)@ == old(out)@ + color_name(c),
{
    match c {
        Color::Black => push_text(out, "Black"),
        Color::Red => push_text(out, "Red"),
        Color::Green => push_text(out, "Green"),
        Color::Yellow => push_text(out, "Yellow"),
        Color::Blue => push_text(out, "Blue"),
        Color::Magenta => push_text(out, "Magenta"),
        Color::Cyan => push_text(out, "Cyan"),
        Color::White => push_text(out, "White"),
        Color::BrightBlack => push_text(out, "BrightBlack"),
        Color::BrightRed => push_text(out, "BrightRed"),
        Color::BrightGreen => push_text(out, "BrightGreen"),
        Color::BrightYellow => push_text(out, "BrightYellow"),
        Color::BrightBlue => push_text(out, "BrightBlue"),
        Color::BrightMagenta => push_text(out, "BrightMagenta"),
        Color::BrightCyan => push_text(out, "BrightCyan"),
        Color::BrightWhite => push_text(out, "BrightWhite"),
        Color::Rgb(r, g, b) => {
            let ghost start = out@;
            push_text(out, "Rgb(");
            push_decimal(out, r as u64);
            push_text(out, ", ");
            push_decimal(out, g as u64);
            push_text(out, ", ");
            push_decimal(out, b as u64);
            push_text(out, ")");
            assert(out@ =~= start + color_name(c));
        },
    }
}

/// Appends ` @ (x, y) [wxh]` for a node.
fn push_geometry(out: &mut Vec<char>, n: &RenderNode)
    ensures
        final(out)@ == old(out)@ + geometry_text(*n),
{
    let ghost start = out@;
    push_text(out, " @ (");
    push_decimal(out, n.x as u64);
    push_text(out, ", ");
    push_decimal(out, n.y as u64);
    push_text(out, ") [");
    push_decimal(out, n.width as u64);
    push_text(out, "x");
    push_decimal(out, n.height as u64);
    push_text(out, "]");
    assert(out@ =~= start + geometry_text(*n));
}

/// Appends a line break, the indent of `depth` and `extra`, and `s`
/// escaped in double quotes.
fn push_quoted(out: &mut Vec<char>, depth: usize, extra: &str, s: &str)
    ensures
        final(out)@ == old(out)@ + quoted(indent(depth as nat) + extra@, s@),
{
    let ghost start = out@;
    push_text(out, "\n");
    push_indent(out, depth);
    push_text(out, extra);
    push_text(out, "\"");
    push_escaped(out, s);
    push_text(out, "\"");
    assert(out@ =~= start + quoted(indent(depth as nat) + extra@, s@));
}

/// Appends each of `lines` quoted on a line of its own.
fn push_string_lines(out: &mut Vec<char>, lines: &Vec<String>, depth: usize, extra: &str)
    ensures
        final(out)@ == old(out)@ + string_lines(lines@, indent(depth as nat) + extra@),
{
    let ghost start = out@;
    let ghost prefix = indent(depth as nat) + extra@;
    let mut k: usize = 0;
    assert(lines@.take(0) =~= Seq::<String>::empty());
    while k < lines.len()
        invariant
            k <= lines@.len(),
            prefix == indent(depth as nat) + extra@,
            out@ == start + string_lines(lines@.take(k as int), prefix),
        decreases lines@.len() - k,
    {
        push_quoted(out, depth, extra, lines[k].as_str());
        let ghost next = lines@.take(k + 1);
        assert(next.drop_last() =~= lines@.take(k as int));
        assert(next.last() == lines@[k as int]);
        assert(out@ =~= start + string_lines(next, prefix));
        k = k + 1;
    }
    assert(lines@.take(k as int) =~= lines@);
}

/// Appends the content of each of `spans` quoted on a line of its own.
fn push_span_lines(out: &mut Vec<char>, spans: &Vec<TextSpan>, depth: usize, extra: &str)
    ensures
        final(out)@ == old(out)@ + span_lines(spans@, indent(depth as nat) + extra@),
{
    let ghost start = out@;
    let ghost prefix = indent(depth as nat) + extra@;
    let mut k: usize = 0;
    assert(spans@.take(0) =~= Seq::<TextSpan>::empty());
    while k < spans.len()
        invariant
            k <= spans@.len(),
            prefix == indent(depth as nat) + extra@,
            out@ == start + span_lines(spans@.take(k as int), prefix),
        decreases spans@.len() - k,
    {
        push_quoted(out, depth, extra, spans[k].content.as_str());
        let ghost next = spans@.take(k + 1);
        assert(next.drop_last() =~= spans@.take(k as int));
        assert(next.last() == spans@[k as int]);
        assert(out@ =~= start + span_lines(next, prefix));
        k = k + 1;
    }
    assert(spans@.take(k as int) =~= spans@);
}

/// Appends the numbered lines of wrapped rich text with their spans.
fn push_rich_lines(out: &mut Vec<char>, lines: &Vec<Vec<TextSpan>>, depth: usize)
    ensures
        final(out)@ == old(out)@ + rich_lines(lines@, indent(depth as nat)),
{
    let ghost start = out@;
    let ghost ind = indent(depth as nat);
    let mut k: usize = 0;
    assert(lines@.take(0) =~= Seq::<Vec<TextSpan>>::empty());
    while k < lines.len()
        invariant
            k <= lines@.len(),
            ind == indent(depth as nat),
            out@ == start + rich_lines(lines@.take(k as int), ind),
        decreases lines@.len() - k,
    {
        let ghost before = out@;
        push_text(out, "\n");
        push_indent(out, depth);
        push_text(out, "  Line ");
        push_decimal(out, k as u64 + 1);
        push_text(out, ": ");
        push_decimal(out, lines[k].len() as u64);
        push_text(out, " spans");
        push_span_lines(out, &lines[k], depth, "    ");
        let ghost next = lines@.take(k + 1);
        assert(next.drop_last() =~= lines@.take(k as int));
        assert(next.last() == lines@[k as int]);
        assert(next.len() == k + 1);
        assert(out@ =~= start + rich_lines(next, ind));
        k = k + 1;
    }
    assert(lines@.take(k as int) =~= lines@);
}

/// Appends the kind of a node, where it stands, and what text it holds.
fn push_kind(out: &mut Vec<char>, n: &RenderNode, depth: usize)
    ensures
        final(out)@ == old(out)@ + kind_text(*n, indent(depth as nat)),
{
    let ghost start = out@;
    let ghost ind = indent(depth as nat);
    push_indent(out, depth);
    match &n.node_type {
        RenderNodeType::Element => {
            push_text(out, "Div");
            push_geometry(out, n);
        },
        RenderNodeType::Text(c) => {
            push_text(out, "Text");
            push_geometry(out, n);
            push_text(out, ": \"");
            push_escaped(out, c.as_str());
            push_text(out, "\"");
        },
        RenderNodeType::TextWrapped(ls) => {
            push_text(out, "TextWrapped");
            push_geometry(out, n);
            push_text(out, ": ");
            push_decimal(out, ls.len() as u64);
            push_text(out, " lines");
            push_string_lines(out, ls, depth, "  ");
        },
        RenderNodeType::RichText(sp) => {
            push_text(out, "RichText");
            push_geometry(out, n);
            push_text(out, ": ");
            push_decimal(out, sp.len() as u64);
            push_text(out, " spans");
            push_span_lines(out, sp, depth, "  ");
        },
        RenderNodeType::RichTextWrapped(ls) => {
            push_text(out, "RichTextWrapped");
            push_geometry(out, n);
            push_text(out, ": ");
            push_decimal(out, ls.len() as u64);
            push_text(out, " lines");
            push_rich_lines(out, ls, depth);
        },
    }
    assert(out@ =~= start + kind_text(*n, ind));
}

fn push_background(out: &mut Vec<char>, c: Option<Color>)
    ensures
        final(out)@ == old(out)@ + background_text(c),
{
    let ghost start = out@;
    match c {
        Some(c) => {
            push_text(out, " bg:");
            push_color(out, c);
        },
        None => {},
    }
    assert(out@ =~= start + background_text(c));
}

fn push_direction(out: &mut Vec<char>, d: Option<Direction>)
    ensures
        final(out)@ == old(out)@ + direction_text(d),
{
    let ghost start = out@;
    match d {
        Some(d) => {
            push_text(out, " dir:");
            match d {
                Direction::Vertical => push_text(out, "Vertical"),
                Direction::Horizontal => push_text(out, "Horizontal"),
            }
        },
        None => {},
    }
    assert(out@ =~= start + direction_text(d));
}

fn push_padding(out: &mut Vec<char>, p: Option<Spacing>)
    ensures
        final(out)@ == old(out)@ + padding_text(p),
{
    let ghost start = out@;
    match p {
        Some(p) => {
            push_text(out, " pad:(");
            push_decimal(out, p.top as u64);
            push_text(out, ",");
            push_decimal(out, p.right as u64);
            push_text(out, ",");
            push_decimal(out, p.bottom as u64);
            push_text(out, ",");
            push_decimal(out, p.left as u64);
            push_text(out, ")");
        },
        None => {},
    }
    assert(out@ =~= start + padding_text(p));
}

fn push_overflow(out: &mut Vec<char>, o: Option<Overflow>)
    ensures
        final(out)@ == old(out)@ + overflow_text(o),
{
    let ghost start = out@;
    match o {
        Some(o) => {
            push_text(out, " overflow:");
            match o {
                Overflow::Visible => push_text(out, "None"),
                Overflow::Hidden => push_text(out, "Hidden"),
                Overflow::Scroll => push_text(out, "Scroll"),
                Overflow::Auto => push_text(out, "Auto"),
            }
        },
        None => {},
    }
    assert(out@ =~= start + overflow_text(o));
}

/// Appends the background, direction, padding and overflow a style sets.
fn push_style(out: &mut Vec<char>, style: &Option<Style>)
    ensures
        final(out)@ == old(out)@ + style_text(*style),
{
    let ghost start = out@;
    match style {
        Some(s) => {
            push_background(out, s.background);
            push_direction(out, s.direction);
            push_padding(out, s.padding);
            push_overflow(out, s.overflow);
        },
        None => {},
    }
    assert(out@ =~= start + style_text(*style));
}

/// Appends the line of a node at the given depth.
fn push_node(out: &mut Vec<char>, n: &RenderNode, depth: usize)
    ensures
        final(out)@ == old(out)@ + node_text(*n, depth as nat),
{
    let ghost start = out@;
    push_kind(out, n, depth);
    push_style(out, &n.style);
    let ghost mid = out@;
    let is_text = match &n.node_type {
        RenderNodeType::Text(_) | RenderNodeType::TextWrapped(_) => true,
        _ => false,
    };
    if is_text {
        match n.text_color {
            Some(c) => {
                push_text(out, " color:");
                push_color(out, c);
            },
            None => {},
        }
    }
    assert(out@ =~= mid + text_color_text(*n));
    if n.dirty {
        push_text(out, " [DIRTY]");
    }
    push_text(out, "\n");
    assert(out@ =~= start + node_text(*n, depth as nat));
}

impl RenderTree {
    /// Appends the lines of the subtree at `i`, starting at `depth`.
    fn debug_node(&self, i: usize, depth: usize, out: &mut Vec<char>)
        requires
            self.wf(),
            i < self.nodes@.len(),
            depth <= i,
        ensures
            final(out)@ == old(out)@ + subtree_text(*self, i as int, depth as nat),
        decreases self.nodes@.len() - i, 1int,
    {
        let ghost start = out@;
        push_node(out, &self.nodes[i], depth);
        let ghost mid = out@;
        let n = self.children[i].len();
        let mut k: usize = 0;
        while k < n
            invariant
                self.wf(),
                i < self.nodes@.len(),
                depth <= i,
                n == kids(*self, i as int).len(),
                k <= n,
                mid + children_text(*self, i as int, 0, (depth + 1) as nat)
                    == out@ + children_text(*self, i as int, k as int, (depth + 1) as nat),
            decreases n - k,
        {
            let c = self.children[i][k];
            assert(c == kids(*self, i as int)[k as int]);
            let ghost before = out@;
            self.debug_node(c, depth + 1, out);
            assert(before + (subtree_text(*self, c as int, (depth + 1) as nat) + children_text(*self, i as int, k + 1, (depth + 1) as nat))
                =~= (before + subtree_text(*self, c as int, (depth + 1) as nat)) + children_text(*self, i as int, k + 1, (depth + 1) as nat));
            k = k + 1;
        }
        assert(children_text(*self, i as int, n as int, (depth + 1) as nat) =~= Seq::<char>::empty());
        assert(out@ =~= start + subtree_text(*self, i as int, depth as nat));
    }

    /// A dump of the tree for debugging: each node on a line of its own,
    /// indented two spaces per level, with its kind, position, size, text,
    /// the background, direction, padding and overflow of its style, the
    /// color of plain text, and whether it is marked for drawing.
    pub fn debug_string(&self) -> (s: String)
        requires
            self.wf(),
        ensures
            s@ == tree_debug_text(*self),
    {
        let mut out: Vec<char> = Vec::new();
        match self.root {
            Some(r) => {
                push_text(&mut out, "=== Render Tree ===\n");
                self.debug_node(r, 0, &mut out);
                push_text(&mut out, "==================\n");
                assert(out@ =~= tree_debug_text(*self));
            },
            None => {
                push_text(&mut out, "=== Render Tree ===\n(empty)\n==================\n");
                assert(out@ =~= tree_debug_text(*self));
            },
        }
        string_from_chars(&out)
    }
}

} // verus!
