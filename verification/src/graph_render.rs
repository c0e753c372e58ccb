//! Character canvas and box-node / edge rendering for the dependency graph.
//!
//! Nodes and edges are composited on a [`Canvas`] of styled characters
//! before the canvas is painted to the terminal.

use vstd::prelude::*;

use crate::graph::{strs, DagLayout, Edge};
use crate::models::ItemStatus;
use crate::text::{push_char, take_chars};
use crate::theme::{
    bold_fg, fg, progress_bar, progress_bar_spec, status_style, status_style_spec, status_symbol_ch,
    status_symbol_char, Style, BORDER_DIM, DARK_ORANGE, NEON_CYAN, NEON_GREEN, NEON_MAGENTA,
    NEON_ORANGE, NEON_PINK, TEXT_BRIGHT, TEXT_DIM,
};

verus! {

/// Total width of a rendered node box (including border characters).
pub const NODE_WIDTH: usize = 22;

/// Height of a task node (top border + title + bottom border).
pub const NODE_HEIGHT_TASK: usize = 3;

/// Height of an epic node (top border + title + progress + bottom border).
pub const NODE_HEIGHT_EPIC: usize = 4;

/// Interior width available for content.
pub const INNER_WIDTH: usize = 20;

/// A single character cell on the canvas.
#[derive(Debug, Clone, Copy, PartialEq, Eq, Structural)]
pub struct Cell {
    pub ch: char,
    pub style: Style,
}

pub open spec fn blank() -> Cell {
    Cell { ch: ' ', style: Style { fg: None, bold: false } }
}

impl Cell {
    /// A space with no style.
    pub fn blank() -> (r: Cell)
        ensures
            r == blank(),
    {
        Cell { ch: ' ', style: Style::plain() }
    }
}

/// A 2D grid of cells, stored row by row.
#[derive(Debug)]
pub struct Canvas {
    pub width: usize,
    pub height: usize,
    pub cells: Vec<Cell>,
}

impl View for Canvas {
    type V = Seq<Cell>;

    open spec fn view(&self) -> Seq<Cell> {
        self.cells@
    }
}

proof fn lemma_grid_index(x: int, y: int, w: int, h: int)
    requires
        0 <= x < w,
        0 <= y < h,
    ensures
        0 <= y * w + x < w * h,
{
    assert(y * w + x < w * h) by (nonlinear_arith)
        requires
            0 <= x < w,
            0 <= y < h,
    ;
    assert(0 <= y * w) by (nonlinear_arith)
        requires
            0 <= y,
            0 <= w,
    ;
}

proof fn lemma_grid_index_unique(x1: int, y1: int, x2: int, y2: int, w: int)
    requires
        0 <= x1 < w,
        0 <= x2 < w,
        0 <= y1,
        0 <= y2,
        y1 * w + x1 == y2 * w + x2,
    ensures
        x1 == x2 && y1 == y2,
{
    if y1 < y2 {
        assert(y1 * w + w <= y2 * w) by (nonlinear_arith)
            requires
                y1 < y2,
                w > 0,
        ;
    } else if y2 < y1 {
        assert(y2 * w + w <= y1 * w) by (nonlinear_arith)
            requires
                y2 < y1,
                w > 0,
        ;
    }
}

impl Canvas {
    /// The grid holds `width * height` cells.
    pub open spec fn wf(&self) -> bool {
        self.cells@.len() == self.width * self.height
    }

    /// The cell at column `x`, row `y`.
    pub open spec fn at(&self, x: int, y: int) -> Cell {
        self@[y * self.width + x]
    }

    /// Create a blank canvas filled with space characters.
    pub fn new(width: usize, height: usize) -> (r: Canvas)
        requires
            width * height <= usize::MAX,
        ensures
            r.wf(),
            r.width == width,
            r.height == height,
            forall|x: int, y: int| 0 <= x < width && 0 <= y < height ==> r.at(x, y) == blank(),
    {
        let n = width * height;
        let mut cells: Vec<Cell> = Vec::new();
        let mut i: usize = 0;
        while i < n
            invariant
                i <= n,
                cells.len() == i,
                forall|j: int| 0 <= j < i ==> cells@[j] == blank(),
            decreases n - i,
        {
            cells.push(Cell::blank());
            i = i + 1;
        }
        let r = Canvas { width, height, cells };
        proof {
            assert forall|x: int, y: int| 0 <= x < width && 0 <= y < height implies r.at(x, y) == blank() by {
                lemma_grid_index(x, y, width as int, height as int);
            }
        }
        r
    }

    /// Place a single character at `(x, y)`; out-of-bounds writes are
    /// ignored.
    pub fn put_char(&mut self, x: usize, y: usize, ch: char, style: Style)
        requires
            old(self).wf(),
        ensures
            final(self).wf(),
            final(self).width == old(self).width,
            final(self).height == old(self).height,
            forall|px: int, py: int|
                0 <= px < old(self).width && 0 <= py < old(self).height ==> final(self).at(px, py) == if px == x && py == y {
                    Cell { ch, style }
                } else {
                    old(self).at(px, py)
                },
            final(self)@ == if x < old(self).width && y < old(self).height {
                old(self)@.update(y * old(self).width + x, Cell { ch, style })
            } else {
                old(self)@
            },
    {
        if x < self.width && y < self.height {
            let n = self.cells.len();
            proof {
                lemma_grid_index(x as int, y as int, self.width as int, self.height as int);
                assert(y * self.width + x < n);
            }
            let idx = y * self.width + x;
            let ghost w = self.width as int;
            let ghost h = self.height as int;
            let ghost before = self@;
            self.cells.set(idx, Cell { ch, style });
            proof {
                assert forall|px: int, py: int| 0 <= px < w && 0 <= py < h implies self.at(px, py) == if px == x && py == y {
                    Cell { ch, style }
                } else {
                    before[py * w + px]
                } by {
                    lemma_grid_index(px, py, w, h);
                    if py * w + px == idx as int {
                        lemma_grid_index_unique(px, py, x as int, y as int, w);
                    }
                }
            }
        }
    }

    /// Write a string horizontally starting at `(x, y)`; characters that fall
    /// outside the canvas are clipped.
    pub fn put_str(&mut self, x: usize, y: usize, s: &str, style: Style)
        requires
            old(self).wf(),
            x + s@.len() <= usize::MAX,
        ensures
            final(self).wf(),
            final(self).width == old(self).width,
            final(self).height == old(self).height,
            forall|px: int, py: int|
                0 <= px < old(self).width && 0 <= py < old(self).height ==> final(self).at(px, py) == if py == y && x <= px < x + s@.len() {
                    Cell { ch: s@[px - x], style }
                } else {
                    old(self).at(px, py)
                },
    {
        let ghost old_self = *self;
        let n = s.unicode_len();
        let mut i: usize = 0;
        while i < n
            invariant
                n == s@.len(),
                x + n <= usize::MAX,
                i <= n,
                self.wf(),
                self.width == old_self.width,
                self.height == old_self.height,
                forall|px: int, py: int|
                    0 <= px < old_self.width && 0 <= py < old_self.height ==> self.at(px, py) == if py == y && x <= px < x + i {
                        Cell { ch: s@[px - x], style }
                    } else {
                        old_self.at(px, py)
                    },
            decreases n - i,
        {
            let c = s.get_char(i);
            self.put_char(x + i, y, c, style);
            i = i + 1;
        }
    }

    /// Read the cell at `(x, y)`.
    pub fn get(&self, x: usize, y: usize) -> (r: &Cell)
        requires
            self.wf(),
            x < self.width && y < self.height,
        ensures
            *r == self.at(x as int, y as int),
    {
        let n = self.cells.len();
        proof {
            lemma_grid_index(x as int, y as int, self.width as int, self.height as int);
            assert(y * self.width + x < n);
        }
        &self.cells[y * self.width + x]
    }
}


/// A cell as `paint` leaves it: the painted cell where the picture `g`
/// (relative to a `w` by `h` rectangle) has one, else the cell as it was.
pub open spec fn painted(c: Cell, g: spec_fn(int, int) -> Option<Cell>, dx: int, dy: int, w: int, h: int) -> Cell {
    if 0 <= dx < w && 0 <= dy < h && g(dx, dy) is Some {
        g(dx, dy)->0
    } else {
        c
    }
}

/// Paints the `w` by `h` rectangle at `(x, y)` with the cells that `f`
/// gives for each offset; offsets for which `f` gives `None` are left alone.
fn paint_rect<F: Fn(usize, usize) -> Option<Cell>>(
    canvas: &mut Canvas,
    x: usize,
    y: usize,
    w: usize,
    h: usize,
    f: F,
    Ghost(g): Ghost<spec_fn(int, int) -> Option<Cell>>,
)
    requires
        old(canvas).wf(),
        x + w <= usize::MAX,
        y + h <= usize::MAX,
        forall|dx: usize, dy: usize| dx < w && dy < h ==> #[trigger] f.requires((dx, dy)),
        forall|dx: usize, dy: usize, r: Option<Cell>|
            dx < w && dy < h && #[trigger] f.ensures((dx, dy), r) ==> r == g(dx as int, dy as int),
    ensures
        final(canvas).wf(),
        final(canvas).width == old(canvas).width,
        final(canvas).height == old(canvas).height,
        forall|px: int, py: int|
            0 <= px < old(canvas).width && 0 <= py < old(canvas).height ==> #[trigger] final(canvas).at(px, py)
                == painted(old(canvas).at(px, py), g, px - x, py - y, w as int, h as int),
{
    let ghost c0 = *canvas;
    let mut dy: usize = 0;
    while dy < h
        invariant
            dy <= h,
            x + w <= usize::MAX,
            y + h <= usize::MAX,
            forall|dx: usize, dy: usize| dx < w && dy < h ==> #[trigger] f.requires((dx, dy)),
            forall|dx: usize, dy: usize, r: Option<Cell>|
                dx < w && dy < h && #[trigger] f.ensures((dx, dy), r) ==> r == g(dx as int, dy as int),
            canvas.wf(),
            canvas.width == c0.width,
            canvas.height == c0.height,
            forall|px: int, py: int|
                0 <= px < c0.width && 0 <= py < c0.height ==> #[trigger] canvas.at(px, py)
                    == painted(c0.at(px, py), g, px - x, py - y, w as int, dy as int),
        decreases h - dy,
    {
        let mut dx: usize = 0;
        while dx < w
            invariant
                dx <= w,
                dy < h,
                x + w <= usize::MAX,
                y + h <= usize::MAX,
                forall|dx: usize, dy: usize| dx < w && dy < h ==> #[trigger] f.requires((dx, dy)),
                forall|dx: usize, dy: usize, r: Option<Cell>|
                    dx < w && dy < h && #[trigger] f.ensures((dx, dy), r) ==> r == g(dx as int, dy as int),
                canvas.wf(),
                canvas.width == c0.width,
                canvas.height == c0.height,
                forall|px: int, py: int|
                    0 <= px < c0.width && 0 <= py < c0.height ==> #[trigger] canvas.at(px, py) == if py - y == dy
                        && 0 <= px - x < dx && g(px - x, py - y) is Some {
                        g(px - x, py - y)->0
                    } else {
                        painted(c0.at(px, py), g, px - x, py - y, w as int, dy as int)
                    },
            decreases w - dx,
        {
            let r = f(dx, dy);
            match r {
                Some(c) => {
                    canvas.put_char(x + dx, y + dy, c.ch, c.style);
                },
                None => {},
            }
            dx = dx + 1;
        }
        dy = dy + 1;
    }
}

/// Border style of a node: pulsing orange when blocked (bright for twelve
/// frames, dim for the next twelve), else by status.
pub open spec fn border_style_spec(status: ItemStatus, frame: u8, blocked: bool) -> Style {
    if blocked {
        if (frame / 12) % 2 == 0 {
            fg(NEON_ORANGE)
        } else {
            fg(DARK_ORANGE)
        }
    } else {
        match status {
            ItemStatus::Done => fg(NEON_GREEN),
            ItemStatus::Todo => fg(TEXT_DIM),
            ItemStatus::InProgress => fg(NEON_CYAN),
        }
    }
}

/// The style of a node's border based on its status; blocked nodes pulse
/// between bright and dim orange with the animation frame.
pub fn border_style(status: &ItemStatus, animation_frame: u8, blocked: bool) -> (r: Style)
    ensures
        r == border_style_spec(*status, animation_frame, blocked),
{
    if blocked {
        let bright = (animation_frame / 12) % 2 == 0;
        let color = if bright {
            NEON_ORANGE
        } else {
            DARK_ORANGE
        };
        return Style::fg(color);
    }
    match status {
        ItemStatus::Done => Style::fg(NEON_GREEN),
        ItemStatus::Todo => Style::fg(TEXT_DIM),
        ItemStatus::InProgress => Style::fg(NEON_CYAN),
    }
}

/// Border character set of a node box.
#[derive(Debug, Clone, Copy, PartialEq, Eq, Structural)]
pub struct BorderChars {
    pub tl: char,
    pub tr: char,
    pub bl: char,
    pub br: char,
    pub h: char,
    pub v: char,
}

/// Double-line border set used for TODO, DONE, and blocked nodes.
pub open spec fn double_line_borders() -> BorderChars {
    BorderChars { tl: '\u{2554}', tr: '\u{2557}', bl: '\u{255A}', br: '\u{255D}', h: '\u{2550}', v: '\u{2551}' }
}

pub open spec fn border_chars_spec(status: ItemStatus, frame: u8, blocked: bool) -> BorderChars {
    if !blocked && status == ItemStatus::InProgress {
        let f = frame % 4;
        BorderChars {
            tl: '\u{256D}',
            tr: '\u{256E}',
            bl: '\u{2570}',
            br: '\u{256F}',
            h: if f == 0 || f == 2 { '\u{254C}' } else { '\u{2504}' },
            v: if f == 0 || f == 2 { '\u{254E}' } else { '\u{2506}' },
        }
    } else {
        double_line_borders()
    }
}

/// Border characters for a status: rounded corners with dashed lines
/// (alternating with the frame) for a running node that is not blocked,
/// double lines otherwise.
pub fn border_chars(status: &ItemStatus, animation_frame: u8, blocked: bool) -> (r: BorderChars)
    ensures
        r == border_chars_spec(*status, animation_frame, blocked),
{
    let double = BorderChars {
        tl: '\u{2554}',
        tr: '\u{2557}',
        bl: '\u{255A}',
        br: '\u{255D}',
        h: '\u{2550}',
        v: '\u{2551}',
    };
    if blocked {
        return double;
    }
    match status {
        ItemStatus::InProgress => {
            let f = animation_frame % 4;
            let (h, v) = if f == 0 || f == 2 {
                ('\u{254C}', '\u{254E}')
            } else {
                ('\u{2504}', '\u{2506}')
            };
            BorderChars { tl: '\u{256D}', tr: '\u{256E}', bl: '\u{2570}', br: '\u{256F}', h, v }
        },
        _ => double,
    }
}

/// A marching-border cell: the pattern has period six, three bright cells
/// (solid line, cyan) then three dim ones (dashed line).
pub open spec fn marching_spec(p: int, frame: u8, is_horizontal: bool) -> (char, Style) {
    if (p + frame) % 6 < 3 {
        (if is_horizontal { '\u{2500}' } else { '\u{2502}' }, fg(NEON_CYAN))
    } else {
        (if is_horizontal { '\u{254C}' } else { '\u{254E}' }, fg(BORDER_DIM))
    }
}

/// The marching pattern repeats every six perimeter cells, and one frame
/// later each cell shows what the next cell of the perimeter walk showed:
/// the dashes move one cell per frame.
pub proof fn lemma_marching_pattern(p: int, frame: u8, is_horizontal: bool)
    requires
        p >= 0,
        frame < 255,
    ensures
        marching_spec(p + 6, frame, is_horizontal) == marching_spec(p, frame, is_horizontal),
        marching_spec(p, (frame + 1) as u8, is_horizontal) == marching_spec(p + 1, frame, is_horizontal),
{
}

/// The 48-frame animation counter wraps without a jump: frame `f + 48`
/// draws both the marching border and the blocked pulse as frame `f` does.
pub proof fn lemma_animation_wraps(p: int, frame: u8, is_horizontal: bool, status: ItemStatus, blocked: bool)
    requires
        p >= 0,
        frame <= 207,
    ensures
        marching_spec(p, (frame + 48) as u8, is_horizontal) == marching_spec(p, frame, is_horizontal),
        border_style_spec(status, (frame + 48) as u8, blocked) == border_style_spec(status, frame, blocked),
{
    assert(((frame + 48) as u8) / 12 == frame / 12 + 4);
}

/// Character and style of the marching-border cell at `perimeter_index`.
pub fn marching_cell(perimeter_index: usize, animation_frame: u8, is_horizontal: bool) -> (r: (char, Style))
    requires
        perimeter_index + animation_frame <= usize::MAX,
    ensures
        r == marching_spec(perimeter_index as int, animation_frame, is_horizontal),
{
    let phase = (perimeter_index + animation_frame as usize) % 6;
    if phase < 3 {
        let ch = if is_horizontal { '\u{2500}' } else { '\u{2502}' };
        (ch, Style::fg(NEON_CYAN))
    } else {
        let ch = if is_horizontal { '\u{254C}' } else { '\u{254E}' };
        (ch, Style::fg(BORDER_DIM))
    }
}

/// `s` cut to at most `max` characters, the last one of a cut string an
/// ellipsis.
pub open spec fn truncate_spec(s: Seq<char>, max: nat) -> Seq<char> {
    if s.len() <= max {
        s
    } else if max == 0 {
        Seq::empty()
    } else {
        s.take(max - 1).push('\u{2026}')
    }
}

/// Truncate `s` to at most `max_chars` characters, appending an ellipsis if
/// needed.
pub fn truncate_with_ellipsis(s: &str, max_chars: usize) -> (r: String)
    ensures
        r@ == truncate_spec(s@, max_chars as nat),
        r@.len() <= max_chars,
{
    let char_count = s.unicode_len();
    if char_count <= max_chars {
        String::from_str(s)
    } else if max_chars == 0 {
        String::new()
    } else {
        let mut result = take_chars(s, max_chars - 1);
        push_char(&mut result, '\u{2026}');
        result
    }
}


/// Rendering descriptor for a single graph node.
#[derive(Debug, Clone)]
pub struct NodeBox {
    /// Display title (truncated if too long).
    pub title: String,
    /// Current status: determines border style, colour and symbol.
    pub status: ItemStatus,
    /// For epic nodes, `(done_count, total_count)` for a progress bar;
    /// `None` for plain task nodes.
    pub progress: Option<(usize, usize)>,
    /// Top-left column on the canvas.
    pub x: usize,
    /// Top-left row on the canvas.
    pub y: usize,
    /// Whether this node is blocked by unfinished dependencies.
    pub blocked: bool,
}

/// Rows of a node box: four with a progress line, three without.
pub open spec fn box_height(progress: Option<(usize, usize)>) -> int {
    if progress is Some {
        NODE_HEIGHT_EPIC as int
    } else {
        NODE_HEIGHT_TASK as int
    }
}

/// Position of a border cell in a clockwise walk of the perimeter that
/// starts at the top-left corner: top edge left to right, right edge down,
/// bottom edge right to left, left edge up.
pub open spec fn perimeter_index(dx: int, dy: int, h: int) -> int {
    if dy == 0 {
        dx
    } else if dx == 21 && dy < h - 1 {
        21 + dy
    } else if dy == h - 1 {
        20 + h + (21 - dx)
    } else {
        41 + h + (h - 1 - dy)
    }
}

/// Border cell of a marching (animated) node box of height `h` at offset
/// `(dx, dy)`; `None` off the border.
pub open spec fn marching_border_cell(dx: int, dy: int, h: int, frame: u8) -> Option<Cell> {
    if !(0 <= dx < 22 && 0 <= dy < h) || (0 < dy < h - 1 && 0 < dx < 21) {
        None
    } else {
        let m = marching_spec(perimeter_index(dx, dy, h), frame, !(0 < dy < h - 1));
        let ch = if dy == 0 && dx == 0 {
            '\u{256D}'
        } else if dy == 0 && dx == 21 {
            '\u{256E}'
        } else if dy == h - 1 && dx == 21 {
            '\u{256F}'
        } else if dy == h - 1 && dx == 0 {
            '\u{2570}'
        } else {
            m.0
        };
        Some(Cell { ch, style: m.1 })
    }
}

/// Border cell of a plain node box of height `h`; `None` off the border.
pub open spec fn uniform_border_cell(bc: BorderChars, st: Style, dx: int, dy: int, h: int) -> Option<Cell> {
    if !(0 <= dx < 22 && 0 <= dy < h) {
        None
    } else if dy == 0 {
        Some(Cell { ch: if dx == 0 { bc.tl } else if dx == 21 { bc.tr } else { bc.h }, style: st })
    } else if dy == h - 1 {
        Some(Cell { ch: if dx == 0 { bc.bl } else if dx == 21 { bc.br } else { bc.h }, style: st })
    } else if dx == 0 || dx == 21 {
        Some(Cell { ch: bc.v, style: st })
    } else {
        None
    }
}

/// Inner cell of a node box: the title line (space, symbol, space, title,
/// padding) and, with a bar, the progress line (space, `[`, bar, `]`).
pub open spec fn content_cell(
    sym: char,
    sym_style: Style,
    title: Seq<char>,
    bar: Option<Seq<char>>,
    cst: Style,
    dx: int,
    dy: int,
) -> Option<Cell> {
    if dy == 1 && 1 <= dx <= 20 {
        if dx == 1 || dx == 3 {
            Some(Cell { ch: ' ', style: cst })
        } else if dx == 2 {
            Some(Cell { ch: sym, style: sym_style })
        } else if dx - 4 < title.len() {
            Some(Cell { ch: title[dx - 4], style: fg(TEXT_BRIGHT) })
        } else {
            Some(Cell { ch: ' ', style: cst })
        }
    } else if dy == 2 && 1 <= dx <= 19 && bar is Some {
        if dx == 1 {
            Some(Cell { ch: ' ', style: cst })
        } else if dx == 2 {
            Some(Cell { ch: '[', style: cst })
        } else if dx == 19 {
            Some(Cell { ch: ']', style: cst })
        } else {
            Some(Cell { ch: bar->0[dx - 3], style: fg(NEON_GREEN) })
        }
    } else {
        None
    }
}

/// The characters of an optional string.
pub open spec fn opt_view(o: Option<String>) -> Option<Seq<char>> {
    match o {
        Some(b) => Some(b@),
        None => None,
    }
}

/// Whether the node box has the animated marching border.
pub open spec fn is_marching(nb: NodeBox) -> bool {
    nb.status == ItemStatus::InProgress && !nb.blocked
}

/// The cell that `render_node` paints at offset `(dx, dy)` from the box's
/// top-left corner; `None` where it leaves the canvas as it was.
pub open spec fn node_cell(nb: NodeBox, frame: u8, dx: int, dy: int) -> Option<Cell> {
    let h = box_height(nb.progress);
    let cst = if is_marching(nb) {
        fg(NEON_CYAN)
    } else {
        border_style_spec(nb.status, frame, nb.blocked)
    };
    let bar = match nb.progress {
        Some((d, t)) => Some(progress_bar_spec(d as nat, t as nat, 16)),
        None => None,
    };
    match content_cell(
        status_symbol_char(nb.status),
        status_style_spec(nb.status),
        truncate_spec(nb.title@, 17),
        bar,
        cst,
        dx,
        dy,
    ) {
        Some(c) => Some(c),
        None => if is_marching(nb) {
            marching_border_cell(dx, dy, h, frame)
        } else {
            uniform_border_cell(
                border_chars_spec(nb.status, frame, nb.blocked),
                border_style_spec(nb.status, frame, nb.blocked),
                dx,
                dy,
                h,
            )
        },
    }
}

fn marching_border_at(dx: usize, dy: usize, h: usize, frame: u8) -> (r: Option<Cell>)
    requires
        2 <= h <= NODE_HEIGHT_EPIC,
    ensures
        r == marching_border_cell(dx as int, dy as int, h as int, frame),
{
    if !(dx < 22 && dy < h) || (0 < dy && dy < h - 1 && 0 < dx && dx < 21) {
        return None;
    }
    let p: usize = if dy == 0 {
        dx
    } else if dx == 21 && dy < h - 1 {
        21 + dy
    } else if dy == h - 1 {
        20 + h + (21 - dx)
    } else {
        41 + h + (h - 1 - dy)
    };
    let side = 0 < dy && dy < h - 1;
    let (m_ch, m_st) = marching_cell(p, frame, !side);
    let ch = if dy == 0 && dx == 0 {
        '\u{256D}'
    } else if dy == 0 && dx == 21 {
        '\u{256E}'
    } else if dy == h - 1 && dx == 21 {
        '\u{256F}'
    } else if dy == h - 1 && dx == 0 {
        '\u{2570}'
    } else {
        m_ch
    };
    Some(Cell { ch, style: m_st })
}

/// Render the marching-ants border of a running, unblocked node: each
/// perimeter cell, numbered clockwise from the top-left corner, is bright
/// or dim by its number and the animation frame.
pub fn render_marching_border(canvas: &mut Canvas, x: usize, y: usize, node_height: usize, animation_frame: u8)
    requires
        old(canvas).wf(),
        2 <= node_height <= NODE_HEIGHT_EPIC,
        x + NODE_WIDTH <= usize::MAX,
        y + node_height <= usize::MAX,
    ensures
        final(canvas).wf(),
        final(canvas).width == old(canvas).width,
        final(canvas).height == old(canvas).height,
        forall|px: int, py: int|
            0 <= px < old(canvas).width && 0 <= py < old(canvas).height ==> #[trigger] final(canvas).at(px, py)
                == match marching_border_cell(px - x, py - y, node_height as int, animation_frame) {
                Some(c) => c,
                None => old(canvas).at(px, py),
            },
{
    let h = node_height;
    let f = |dx: usize, dy: usize| -> (r: Option<Cell>)
        ensures
            r == marching_border_cell(dx as int, dy as int, h as int, animation_frame),
        { marching_border_at(dx, dy, h, animation_frame) };
    paint_rect(
        canvas,
        x,
        y,
        NODE_WIDTH,
        h,
        f,
        Ghost(|dx: int, dy: int| marching_border_cell(dx, dy, h as int, animation_frame)),
    );
}

fn uniform_border_at(bc: BorderChars, st: Style, dx: usize, dy: usize, h: usize) -> (r: Option<Cell>)
    requires
        2 <= h,
    ensures
        r == uniform_border_cell(bc, st, dx as int, dy as int, h as int),
{
    if !(dx < 22 && dy < h) {
        None
    } else if dy == 0 {
        Some(Cell { ch: if dx == 0 { bc.tl } else if dx == 21 { bc.tr } else { bc.h }, style: st })
    } else if dy == h - 1 {
        Some(Cell { ch: if dx == 0 { bc.bl } else if dx == 21 { bc.br } else { bc.h }, style: st })
    } else if dx == 0 || dx == 21 {
        Some(Cell { ch: bc.v, style: st })
    } else {
        None
    }
}

fn content_at(
    sym: char,
    sym_style: Style,
    title: &String,
    bar: &Option<String>,
    cst: Style,
    dx: usize,
    dy: usize,
) -> (r: Option<Cell>)
    requires
        title@.len() <= 17,
        match bar {
            Some(b) => b@.len() == 16,
            None => true,
        },
    ensures
        r == content_cell(
            sym,
            sym_style,
            title@,
            opt_view(*bar),
            cst,
            dx as int,
            dy as int,
        ),
{
    if dy == 1 && 1 <= dx && dx <= 20 {
        if dx == 1 || dx == 3 {
            Some(Cell { ch: ' ', style: cst })
        } else if dx == 2 {
            Some(Cell { ch: sym, style: sym_style })
        } else if dx - 4 < title.as_str().unicode_len() {
            Some(Cell { ch: title.as_str().get_char(dx - 4), style: Style::fg(TEXT_BRIGHT) })
        } else {
            Some(Cell { ch: ' ', style: cst })
        }
    } else if dy == 2 && 1 <= dx && dx <= 19 {
        match bar {
            Some(b) => {
                if dx == 1 {
                    Some(Cell { ch: ' ', style: cst })
                } else if dx == 2 {
                    Some(Cell { ch: '[', style: cst })
                } else if dx == 19 {
                    Some(Cell { ch: ']', style: cst })
                } else {
                    Some(Cell { ch: b.as_str().get_char(dx - 3), style: Style::fg(NEON_GREEN) })
                }
            },
            None => None,
        }
    } else {
        None
    }
}

/// Render a node box onto the canvas at the position given in `node_box`.
///
/// `animation_frame` drives the marching border of running nodes and the
/// pulsing colour of blocked ones.
pub fn render_node(canvas: &mut Canvas, node_box: &NodeBox, animation_frame: u8)
    requires
        old(canvas).wf(),
        node_box.x + NODE_WIDTH <= usize::MAX,
        node_box.y + box_height(node_box.progress) <= usize::MAX,
        match node_box.progress {
            Some((d, t)) => d * 16 <= usize::MAX,
            None => true,
        },
    ensures
        final(canvas).wf(),
        final(canvas).width == old(canvas).width,
        final(canvas).height == old(canvas).height,
        forall|px: int, py: int|
            0 <= px < old(canvas).width && 0 <= py < old(canvas).height ==> #[trigger] final(canvas).at(px, py)
                == match node_cell(*node_box, animation_frame, px - node_box.x, py - node_box.y) {
                Some(c) => c,
                None => old(canvas).at(px, py),
            },
{
    let ghost c0 = *canvas;
    let x = node_box.x;
    let y = node_box.y;
    let marching = node_box.status == ItemStatus::InProgress && !node_box.blocked;
    let node_height: usize = if node_box.progress.is_some() {
        NODE_HEIGHT_EPIC
    } else {
        NODE_HEIGHT_TASK
    };
    if marching {
        render_marching_border(canvas, x, y, node_height, animation_frame);
    } else {
        let bstyle = border_style(&node_box.status, animation_frame, node_box.blocked);
        let bc = border_chars(&node_box.status, animation_frame, node_box.blocked);
        let h = node_height;
        let fb = |dx: usize, dy: usize| -> (r: Option<Cell>)
            ensures
                r == uniform_border_cell(bc, bstyle, dx as int, dy as int, h as int),
            { uniform_border_at(bc, bstyle, dx, dy, h) };
        paint_rect(
            canvas,
            x,
            y,
            NODE_WIDTH,
            h,
            fb,
            Ghost(|dx: int, dy: int| uniform_border_cell(bc, bstyle, dx, dy, h as int)),
        );
    }
    let ghost c1 = *canvas;
    let content_style = if marching {
        Style::fg(NEON_CYAN)
    } else {
        border_style(&node_box.status, animation_frame, node_box.blocked)
    };
    let sym = status_symbol_ch(&node_box.status);
    let sym_style = status_style(&node_box.status);
    let symbol_display_width: usize = 1;
    let title_budget = INNER_WIDTH - 1 - symbol_display_width - 1;
    let title = truncate_with_ellipsis(node_box.title.as_str(), title_budget);
    let bar_width = INNER_WIDTH - 4;
    let bar: Option<String> = match node_box.progress {
        Some((done, total)) => Some(progress_bar(done, total, bar_width)),
        None => None,
    };
    let tr = &title;
    let br = &bar;
    let fc = |dx: usize, dy: usize| -> (r: Option<Cell>)
        ensures
            r == content_cell(sym, sym_style, tr@, opt_view(*br), content_style, dx as int, dy as int),
        { content_at(sym, sym_style, tr, br, content_style, dx, dy) };
    paint_rect(
        canvas,
        x,
        y,
        NODE_WIDTH,
        node_height,
        fc,
        Ghost(|dx: int, dy: int| content_cell(sym, sym_style, title@, opt_view(bar), content_style, dx, dy)),
    );
    proof {
        assert forall|px: int, py: int|
            0 <= px < c0.width && 0 <= py < c0.height implies #[trigger] canvas.at(px, py)
                == match node_cell(*node_box, animation_frame, px - x, py - y) {
                Some(c) => c,
                None => c0.at(px, py),
            } by {
            assert(c1.at(px, py) == c1.at(px, py));
        }
    }
}


/// Cell of the focus highlight: a bold magenta rounded box one cell outside
/// a node box of height `h`, at offset `(dx, dy)` from the cell above and
/// left of the node's corner.
pub open spec fn focus_cell(dx: int, dy: int, h: int) -> Option<Cell> {
    let st = bold_fg(NEON_MAGENTA);
    if !(0 <= dx < 24 && 0 <= dy < h + 2) {
        None
    } else if dy == 0 {
        Some(Cell { ch: if dx == 0 { '\u{256D}' } else if dx == 23 { '\u{256E}' } else { '\u{2500}' }, style: st })
    } else if dy == h + 1 {
        Some(Cell { ch: if dx == 0 { '\u{2570}' } else if dx == 23 { '\u{256F}' } else { '\u{2500}' }, style: st })
    } else if dx == 0 || dx == 23 {
        Some(Cell { ch: '\u{2502}', style: st })
    } else {
        None
    }
}

fn focus_at(dx: usize, dy: usize, h: usize) -> (r: Option<Cell>)
    requires
        h + 1 <= usize::MAX,
    ensures
        r == focus_cell(dx as int, dy as int, h as int),
{
    let st = Style::bold_fg(NEON_MAGENTA);
    if !(dx < 24 && dy <= h + 1) {
        None
    } else if dy == 0 {
        Some(Cell { ch: if dx == 0 { '\u{256D}' } else if dx == 23 { '\u{256E}' } else { '\u{2500}' }, style: st })
    } else if dy == h + 1 {
        Some(Cell { ch: if dx == 0 { '\u{2570}' } else if dx == 23 { '\u{256F}' } else { '\u{2500}' }, style: st })
    } else if dx == 0 || dx == 23 {
        Some(Cell { ch: '\u{2502}', style: st })
    } else {
        None
    }
}

/// Render a focus highlight as a one-cell outer glow around the node box
/// at `(x, y)`, leaving the node's own border as it is.  With the node on
/// the top row or in the first column, the part of the glow that would lie
/// above or left of the canvas is clipped.
pub fn render_focus_highlight(canvas: &mut Canvas, x: usize, y: usize, node_height: usize)
    requires
        old(canvas).wf(),
        x + NODE_WIDTH + 1 <= usize::MAX,
        y + node_height + 1 <= usize::MAX,
    ensures
        final(canvas).wf(),
        final(canvas).width == old(canvas).width,
        final(canvas).height == old(canvas).height,
        forall|px: int, py: int|
            0 <= px < old(canvas).width && 0 <= py < old(canvas).height ==> #[trigger] final(canvas).at(px, py)
                == match focus_cell(px - (x - 1), py - (y - 1), node_height as int) {
                Some(c) => c,
                None => old(canvas).at(px, py),
            },
{
    let h = node_height;
    // Offsets of the first glow cell that lies on the canvas.
    let sx: usize = if x >= 1 {
        0
    } else {
        1
    };
    let sy: usize = if y >= 1 {
        0
    } else {
        1
    };
    let f = |dx: usize, dy: usize| -> (r: Option<Cell>)
        requires
            dx < NODE_WIDTH + 2,
            dy + sy < h + 2,
            h + 1 <= usize::MAX,
        ensures
            r == focus_cell(dx + sx, dy + sy, h as int),
        { focus_at(dx + sx, dy + sy, h) };
    let rows: usize = if sy == 1 {
        h + 1
    } else {
        h + 2
    };
    paint_rect(
        canvas,
        x + sx - 1,
        y + sy - 1,
        NODE_WIDTH + 2 - sx,
        rows,
        f,
        Ghost(|dx: int, dy: int| focus_cell(dx + sx, dy + sy, h as int)),
    );
}

/// The canvas cells after an edge character is offered at `(x, y)`: it is
/// placed only inside the canvas and on a blank cell.
pub open spec fn put_edge_spec(c: Seq<Cell>, w: int, h: int, x: int, y: int, ch: char, st: Style) -> Seq<Cell> {
    if 0 <= x < w && 0 <= y < h && 0 <= y * w + x < c.len() && c[y * w + x].ch == ' ' {
        c.update(y * w + x, Cell { ch, style: st })
    } else {
        c
    }
}

/// The canvas cells after the edge characters `ws` are offered in order.
pub open spec fn apply_writes(c: Seq<Cell>, w: int, h: int, ws: Seq<(int, int, char)>, st: Style) -> Seq<Cell>
    decreases ws.len(),
{
    if ws.len() == 0 {
        c
    } else {
        let p = ws.last();
        put_edge_spec(apply_writes(c, w, h, ws.drop_last(), st), w, h, p.0, p.1, p.2, st)
    }
}

/// Vertical line cells in column `x` from row `y0` up to, not including,
/// row `y1`.
pub open spec fn vline(x: int, y0: int, y1: int) -> Seq<(int, int, char)> {
    Seq::new(if y1 > y0 { (y1 - y0) as nat } else { 0 }, |i: int| (x, y0 + i, '\u{2502}'))
}

/// Horizontal line cells in row `y` from column `x0` up to, not including,
/// column `x1`.
pub open spec fn hline(x0: int, x1: int, y: int) -> Seq<(int, int, char)> {
    Seq::new(if x1 > x0 { (x1 - x0) as nat } else { 0 }, |i: int| (x0 + i, y, '\u{2500}'))
}

/// The cells of an edge from `(sx, sy)` to the arrow head at `(tx, ty)`:
/// a straight line when the columns agree, else one cell down, a corner,
/// a horizontal run one row lower, a corner, a vertical run and the arrow.
pub open spec fn edge_path(sx: int, sy: int, tx: int, ty: int) -> Seq<(int, int, char)> {
    if sx == tx {
        vline(sx, sy, ty).push((tx, ty, '\u{25BC}'))
    } else {
        let my = sy + 1;
        seq![(sx, sy, '\u{2502}'), (sx, my, if tx > sx { '\u{2570}' } else { '\u{256F}' })] + (if tx > sx {
            hline(sx + 1, tx, my)
        } else {
            hline(tx + 1, sx, my)
        }) + seq![(tx, my, if tx > sx { '\u{256E}' } else { '\u{256D}' })] + vline(tx, my + 1, ty) + seq![
            (tx, ty, '\u{25BC}'),
        ]
    }
}

/// The position recorded for identifier `id`: the first entry with it.
pub open spec fn lookup_pos(ps: Seq<(String, (usize, usize))>, id: Seq<char>) -> Option<(usize, usize)>
    decreases ps.len(),
{
    if ps.len() == 0 {
        None
    } else if ps[0].0@ == id {
        Some(ps[0].1)
    } else {
        lookup_pos(ps.drop_first(), id)
    }
}

/// Colour of an edge: pink into a blocked node, cyan otherwise.
pub open spec fn edge_style(blocked: Seq<String>, to: Seq<char>) -> Style {
    if strs(blocked).contains(to) {
        fg(NEON_PINK)
    } else {
        fg(NEON_CYAN)
    }
}

/// The canvas cells after edge `e` is drawn: from one row below the
/// bottom centre of its source box to one row above the top centre of its
/// target box; nothing when an endpoint has no position or the target row
/// lies above the source row.
pub open spec fn edge_effect(
    c: Seq<Cell>,
    w: int,
    h: int,
    e: Edge,
    ps: Seq<(String, (usize, usize))>,
    blocked: Seq<String>,
    nh: int,
) -> Seq<Cell> {
    match (lookup_pos(ps, e.from@), lookup_pos(ps, e.to@)) {
        (Some(f), Some(t)) => {
            let sx = f.0 + 11;
            let sy = f.1 + nh;
            let tx = t.0 + 11;
            let ty = if t.1 >= 1 { t.1 - 1 } else { 0 };
            if sy > ty {
                c
            } else {
                apply_writes(c, w, h, edge_path(sx, sy, tx, ty), edge_style(blocked, e.to@))
            }
        },
        _ => c,
    }
}

/// The canvas cells after the edges `es` are drawn in order.
pub open spec fn edges_spec(
    c: Seq<Cell>,
    w: int,
    h: int,
    es: Seq<Edge>,
    ps: Seq<(String, (usize, usize))>,
    blocked: Seq<String>,
    nh: int,
) -> Seq<Cell>
    decreases es.len(),
{
    if es.len() == 0 {
        c
    } else {
        edge_effect(edges_spec(c, w, h, es.drop_last(), ps, blocked, nh), w, h, es.last(), ps, blocked, nh)
    }
}

proof fn lemma_apply_push(c: Seq<Cell>, w: int, h: int, ws: Seq<(int, int, char)>, p: (int, int, char), st: Style)
    ensures
        apply_writes(c, w, h, ws.push(p), st) == put_edge_spec(apply_writes(c, w, h, ws, st), w, h, p.0, p.1, p.2, st),
{
    assert(ws.push(p).drop_last() =~= ws);
}

/// Place an edge character on the canvas, but only on a blank cell.
fn put_edge_char(canvas: &mut Canvas, x: usize, y: usize, ch: char, style: Style)
    requires
        old(canvas).wf(),
    ensures
        final(canvas).wf(),
        final(canvas).width == old(canvas).width,
        final(canvas).height == old(canvas).height,
        final(canvas)@ == put_edge_spec(
            old(canvas)@,
            old(canvas).width as int,
            old(canvas).height as int,
            x as int,
            y as int,
            ch,
            style,
        ),
{
    if x >= canvas.width || y >= canvas.height {
        return;
    }
    proof {
        lemma_grid_index(x as int, y as int, canvas.width as int, canvas.height as int);
    }
    if canvas.get(x, y).ch != ' ' {
        return;
    }
    canvas.put_char(x, y, ch, style);
}


/// Draw one edge path with `style`, cell by cell, never over a non-blank
/// cell.
fn draw_edge(canvas: &mut Canvas, src_x: usize, src_y: usize, dst_x: usize, dst_y: usize, style: Style)
    requires
        old(canvas).wf(),
        src_y <= dst_y,
        src_x + 1 <= usize::MAX,
        dst_x + 1 <= usize::MAX,
        src_y + 2 <= usize::MAX,
    ensures
        final(canvas).wf(),
        final(canvas).width == old(canvas).width,
        final(canvas).height == old(canvas).height,
        final(canvas)@ == apply_writes(
            old(canvas)@,
            old(canvas).width as int,
            old(canvas).height as int,
            edge_path(src_x as int, src_y as int, dst_x as int, dst_y as int),
            style,
        ),
{
    let ghost c0 = canvas@;
    let ghost w = canvas.width as int;
    let ghost h = canvas.height as int;
    let ghost mut ws: Seq<(int, int, char)> = Seq::empty();
    if src_x == dst_x {
        let mut y = src_y;
        while y < dst_y
            invariant
                src_y <= y <= dst_y,
                canvas.wf(),
                canvas.width == w,
                canvas.height == h,
                ws == vline(src_x as int, src_y as int, y as int),
                canvas@ == apply_writes(c0, w, h, ws, style),
            decreases dst_y - y,
        {
            put_edge_char(canvas, src_x, y, '\u{2502}', style);
            proof {
                lemma_apply_push(c0, w, h, ws, (src_x as int, y as int, '\u{2502}'), style);
                ws = ws.push((src_x as int, y as int, '\u{2502}'));
                assert(ws =~= vline(src_x as int, src_y as int, y + 1));
            }
            y = y + 1;
        }
        put_edge_char(canvas, dst_x, dst_y, '\u{25BC}', style);
        proof {
            lemma_apply_push(c0, w, h, ws, (dst_x as int, dst_y as int, '\u{25BC}'), style);
            ws = ws.push((dst_x as int, dst_y as int, '\u{25BC}'));
        }
    } else {
        put_edge_char(canvas, src_x, src_y, '\u{2502}', style);
        proof {
            lemma_apply_push(c0, w, h, ws, (src_x as int, src_y as int, '\u{2502}'), style);
            ws = ws.push((src_x as int, src_y as int, '\u{2502}'));
        }
        let mid_y = src_y + 1;
        let c1 = if dst_x > src_x { '\u{2570}' } else { '\u{256F}' };
        put_edge_char(canvas, src_x, mid_y, c1, style);
        proof {
            lemma_apply_push(c0, w, h, ws, (src_x as int, mid_y as int, c1), style);
            ws = ws.push((src_x as int, mid_y as int, c1));
        }
        let ghost head = ws;
        let (hx_start, hx_end) = if dst_x > src_x {
            (src_x + 1, dst_x)
        } else {
            (dst_x + 1, src_x)
        };
        let mut hx = hx_start;
        while hx < hx_end
            invariant
                hx_start <= hx,
                hx_start <= hx_end ==> hx <= hx_end,
                canvas.wf(),
                canvas.width == w,
                canvas.height == h,
                ws == head + hline(hx_start as int, hx as int, mid_y as int),
                canvas@ == apply_writes(c0, w, h, ws, style),
            decreases hx_end - hx,
        {
            put_edge_char(canvas, hx, mid_y, '\u{2500}', style);
            proof {
                lemma_apply_push(c0, w, h, ws, (hx as int, mid_y as int, '\u{2500}'), style);
                ws = ws.push((hx as int, mid_y as int, '\u{2500}'));
                assert(ws =~= head + hline(hx_start as int, hx + 1, mid_y as int));
            }
            hx = hx + 1;
        }
        proof {
            assert(hline(hx_start as int, hx as int, mid_y as int) =~= hline(
                hx_start as int,
                hx_end as int,
                mid_y as int,
            ));
        }
        let c2 = if dst_x > src_x { '\u{256E}' } else { '\u{256D}' };
        put_edge_char(canvas, dst_x, mid_y, c2, style);
        proof {
            lemma_apply_push(c0, w, h, ws, (dst_x as int, mid_y as int, c2), style);
            ws = ws.push((dst_x as int, mid_y as int, c2));
        }
        let ghost head2 = ws;
        let mut y = mid_y + 1;
        while y < dst_y
            invariant
                mid_y + 1 <= y,
                mid_y + 1 <= dst_y ==> y <= dst_y,
                mid_y + 1 > dst_y ==> y == mid_y + 1,
                canvas.wf(),
                canvas.width == w,
                canvas.height == h,
                ws == head2 + vline(dst_x as int, mid_y + 1, y as int),
                canvas@ == apply_writes(c0, w, h, ws, style),
            decreases dst_y - y,
        {
            put_edge_char(canvas, dst_x, y, '\u{2502}', style);
            proof {
                lemma_apply_push(c0, w, h, ws, (dst_x as int, y as int, '\u{2502}'), style);
                ws = ws.push((dst_x as int, y as int, '\u{2502}'));
                assert(ws =~= head2 + vline(dst_x as int, mid_y + 1, y + 1));
            }
            y = y + 1;
        }
        proof {
            assert(vline(dst_x as int, mid_y + 1, y as int) =~= vline(dst_x as int, mid_y + 1, dst_y as int));
        }
        put_edge_char(canvas, dst_x, dst_y, '\u{25BC}', style);
        proof {
            lemma_apply_push(c0, w, h, ws, (dst_x as int, dst_y as int, '\u{25BC}'), style);
            ws = ws.push((dst_x as int, dst_y as int, '\u{25BC}'));
        }
    }
    proof {
        assert(ws =~= edge_path(src_x as int, src_y as int, dst_x as int, dst_y as int));
    }
}

/// The position recorded for `id`, if any.
pub(crate) fn lookup_position(ps: &Vec<(String, (usize, usize))>, id: &str) -> (r: Option<(usize, usize)>)
    ensures
        r == lookup_pos(ps@, id@),
{
    let mut i: usize = 0;
    assert(ps@.skip(0) =~= ps@);
    while i < ps.len()
        invariant
            i <= ps.len(),
            lookup_pos(ps@, id@) == lookup_pos(ps@.skip(i as int), id@),
        decreases ps.len() - i,
    {
        assert(ps@.skip(i as int).drop_first() =~= ps@.skip(i + 1));
        if crate::text::str_eq(ps[i].0.as_str(), id) {
            return Some(ps[i].1);
        }
        i = i + 1;
    }
    None
}

/// Whether `id` is among `ids`.
pub(crate) fn contains_id(ids: &Vec<String>, id: &str) -> (r: bool)
    ensures
        r == strs(ids@).contains(id@),
{
    let mut i: usize = 0;
    while i < ids.len()
        invariant
            i <= ids.len(),
            forall|j: int| 0 <= j < i ==> ids@[j]@ != id@,
        decreases ids.len() - i,
    {
        if crate::text::str_eq(ids[i].as_str(), id) {
            assert(strs(ids@)[i as int] == id@);
            return true;
        }
        i = i + 1;
    }
    proof {
        if strs(ids@).contains(id@) {
            let j = choose|j: int| 0 <= j < strs(ids@).len() && strs(ids@)[j] == id@;
            assert(ids@[j]@ == id@);
        }
    }
    false
}

/// Draw the layout's edges between positioned nodes.
///
/// An edge runs from one row below the bottom centre of its source box to
/// an arrow one row above the top centre of its target box: a straight
/// line when the columns agree, an L/Z-shaped route otherwise.  Edges into
/// blocked nodes are pink, others cyan.  Existing non-blank cells (node
/// content) are never overwritten.
pub fn render_edges(
    canvas: &mut Canvas,
    layout: &DagLayout,
    node_positions: &Vec<(String, (usize, usize))>,
    blocked_ids: &Vec<String>,
    node_height: usize,
)
    requires
        old(canvas).wf(),
        forall|i: int|
            0 <= i < node_positions@.len() ==> {
                &&& (#[trigger] node_positions@[i]).1.0 + NODE_WIDTH <= usize::MAX
                &&& node_positions@[i].1.1 + node_height + 2 <= usize::MAX
            },
    ensures
        final(canvas).wf(),
        final(canvas).width == old(canvas).width,
        final(canvas).height == old(canvas).height,
        final(canvas)@ == edges_spec(
            old(canvas)@,
            old(canvas).width as int,
            old(canvas).height as int,
            layout.edges@,
            node_positions@,
            blocked_ids@,
            node_height as int,
        ),
{
    let ghost c0 = canvas@;
    let ghost w = canvas.width as int;
    let ghost h = canvas.height as int;
    let mut k: usize = 0;
    while k < layout.edges.len()
        invariant
            k <= layout.edges@.len(),
            canvas.wf(),
            canvas.width == w,
            canvas.height == h,
            forall|i: int|
                0 <= i < node_positions@.len() ==> {
                    &&& (#[trigger] node_positions@[i]).1.0 + NODE_WIDTH <= usize::MAX
                    &&& node_positions@[i].1.1 + node_height + 2 <= usize::MAX
                },
            canvas@ == edges_spec(
                c0,
                w,
                h,
                layout.edges@.take(k as int),
                node_positions@,
                blocked_ids@,
                node_height as int,
            ),
        decreases layout.edges@.len() - k,
    {
        let edge = &layout.edges[k];
        let from = lookup_position(node_positions, edge.from.as_str());
        let to = lookup_position(node_positions, edge.to.as_str());
        proof {
            lemma_lookup_in(node_positions@, edge.from@);
            lemma_lookup_in(node_positions@, edge.to@);
        }
        match (from, to) {
            (Some((from_x, from_y)), Some((to_x, to_y))) => {
                let style = if contains_id(blocked_ids, edge.to.as_str()) {
                    Style::fg(NEON_PINK)
                } else {
                    Style::fg(NEON_CYAN)
                };
                let src_x = from_x + NODE_WIDTH / 2;
                let src_y = from_y + node_height;
                let dst_x = to_x + NODE_WIDTH / 2;
                let dst_y = if to_y >= 1 {
                    to_y - 1
                } else {
                    0
                };
                if src_y <= dst_y {
                    draw_edge(canvas, src_x, src_y, dst_x, dst_y, style);
                }
            },
            _ => {},
        }
        proof {
            assert(layout.edges@.take(k + 1).drop_last() =~= layout.edges@.take(k as int));
        }
        k = k + 1;
    }
    proof {
        assert(layout.edges@.take(k as int) =~= layout.edges@);
    }
}

pub(crate) proof fn lemma_lookup_in(ps: Seq<(String, (usize, usize))>, id: Seq<char>)
    ensures
        lookup_pos(ps, id) matches Some(p) ==> exists|i: int| 0 <= i < ps.len() && #[trigger] ps[i].1 == p,
    decreases ps.len(),
{
    if ps.len() > 0 && ps[0].0@ != id {
        lemma_lookup_in(ps.drop_first(), id);
        if lookup_pos(ps, id) is Some {
            let i = choose|i: int| 0 <= i < ps.drop_first().len() && #[trigger] ps.drop_first()[i].1 == lookup_pos(ps, id)->0;
            assert(ps[i + 1].1 == lookup_pos(ps, id)->0);
        }
    } else if ps.len() > 0 {
        assert(ps[0].1 == lookup_pos(ps, id)->0);
    }
}


proof fn lemma_put_edge_keeps(prev: Seq<Cell>, w: int, h: int, x: int, y: int, ch: char, st: Style, i: int)
    requires
        0 <= i < prev.len(),
    ensures
        put_edge_spec(prev, w, h, x, y, ch, st).len() == prev.len(),
        prev[i].ch != ' ' ==> put_edge_spec(prev, w, h, x, y, ch, st)[i] == prev[i],
{
}

proof fn lemma_writes_keep_content(c: Seq<Cell>, w: int, h: int, ws: Seq<(int, int, char)>, st: Style, i: int)
    requires
        0 <= i < c.len(),
        c[i].ch != ' ',
    ensures
        apply_writes(c, w, h, ws, st).len() == c.len(),
        apply_writes(c, w, h, ws, st)[i] == c[i],
    decreases ws.len(),
{
    if ws.len() > 0 {
        lemma_writes_keep_content(c, w, h, ws.drop_last(), st, i);
        let prev = apply_writes(c, w, h, ws.drop_last(), st);
        let p = ws.last();
        lemma_put_edge_keeps(prev, w, h, p.0, p.1, p.2, st, i);
    }
}

/// Drawing edges never changes a cell that already holds a character:
/// node content stays as it is, and the canvas keeps its size.
pub proof fn lemma_edges_keep_content(
    c: Seq<Cell>,
    w: int,
    h: int,
    es: Seq<Edge>,
    ps: Seq<(String, (usize, usize))>,
    blocked: Seq<String>,
    nh: int,
    i: int,
)
    requires
        0 <= i < c.len(),
        c[i].ch != ' ',
    ensures
        edges_spec(c, w, h, es, ps, blocked, nh).len() == c.len(),
        edges_spec(c, w, h, es, ps, blocked, nh)[i] == c[i],
    decreases es.len(),
{
    if es.len() > 0 {
        lemma_edges_keep_content(c, w, h, es.drop_last(), ps, blocked, nh, i);
        let prev = edges_spec(c, w, h, es.drop_last(), ps, blocked, nh);
        let e = es.last();
        match (lookup_pos(ps, e.from@), lookup_pos(ps, e.to@)) {
            (Some(f), Some(t)) => {
                let sx = f.0 + 11;
                let sy = f.1 + nh;
                let tx = t.0 + 11;
                let ty = if t.1 >= 1 { t.1 - 1 } else { 0 };
                lemma_writes_keep_content(prev, w, h, edge_path(sx, sy, tx, ty), edge_style(blocked, e.to@), i);
            },
            _ => {},
        }
    }
}

/// The focus highlight lies outside the node box it surrounds: every cell
/// of a box `h` rows high is left as it was.
pub proof fn lemma_focus_outside_box(dx: int, dy: int, h: int)
    requires
        0 <= dx < NODE_WIDTH,
        0 <= dy < h,
    ensures
        focus_cell(dx + 1, dy + 1, h) is None,
{
}

/// A node box paints only inside its rectangle, `NODE_WIDTH` wide and
/// four rows high with a progress line, three without.
pub proof fn lemma_node_cell_inside(nb: NodeBox, frame: u8, dx: int, dy: int)
    requires
        node_cell(nb, frame, dx, dy) is Some,
    ensures
        0 <= dx < NODE_WIDTH,
        0 <= dy < box_height(nb.progress),
{
}


} // verus!
