//! Colour palette, text styles and small visual helpers of the dashboard.

use vstd::prelude::*;

use crate::models::{ItemStatus, ProjectStatus};
use crate::text::{repeat, repeat_char};

verus! {

/// A 24-bit colour written `0xRRGGBB`.
pub type Color = u32;

pub const BG: Color = 0x0a0a0f;
pub const NEON_CYAN: Color = 0x00fff5;
pub const NEON_MAGENTA: Color = 0xff00ff;
pub const NEON_PINK: Color = 0xff2d6f;
pub const NEON_GREEN: Color = 0x39ff14;
pub const NEON_ORANGE: Color = 0xff6e27;
pub const ELECTRIC_BLUE: Color = 0x00d4ff;
pub const TEXT_DIM: Color = 0xb0b0b0;
pub const TEXT_BRIGHT: Color = 0xffffff;
pub const BORDER_DIM: Color = 0x005f5f;
pub const BORDER_BRIGHT: Color = 0x00fff5;
pub const DARK_RED: Color = 0x661122;
pub const DARK_ORANGE: Color = 0x663311;

/// Foreground colour and boldness of a piece of text.
#[derive(Debug, Clone, Copy, PartialEq, Eq, Structural)]
pub struct Style {
    pub fg: Option<Color>,
    pub bold: bool,
}

impl Style {
    /// No colour, not bold.
    pub fn plain() -> (r: Style)
        ensures
            r == (Style { fg: None, bold: false }),
    {
        Style { fg: None, bold: false }
    }

    /// Plain style in colour `c`.
    pub fn fg(c: Color) -> (r: Style)
        ensures
            r == (Style { fg: Some(c), bold: false }),
    {
        Style { fg: Some(c), bold: false }
    }

    /// Bold style in colour `c`.
    pub fn bold_fg(c: Color) -> (r: Style)
        ensures
            r == (Style { fg: Some(c), bold: true }),
    {
        Style { fg: Some(c), bold: true }
    }
}

pub open spec fn fg(c: Color) -> Style {
    Style { fg: Some(c), bold: false }
}

pub open spec fn bold_fg(c: Color) -> Style {
    Style { fg: Some(c), bold: true }
}

/// Border of a panel: bright and bold when focused, dim otherwise.
pub fn panel_border(focused: bool) -> (r: Style)
    ensures
        r == if focused { bold_fg(BORDER_BRIGHT) } else { fg(BORDER_DIM) },
{
    if focused {
        Style::bold_fg(BORDER_BRIGHT)
    } else {
        Style::fg(BORDER_DIM)
    }
}

pub open spec fn status_style_spec(s: ItemStatus) -> Style {
    match s {
        ItemStatus::Todo => fg(TEXT_DIM),
        ItemStatus::InProgress => bold_fg(NEON_CYAN),
        ItemStatus::Done => fg(NEON_GREEN),
    }
}

/// Text style of an item status.
pub fn status_style(status: &ItemStatus) -> (r: Style)
    ensures
        r == status_style_spec(*status),
{
    match status {
        ItemStatus::Todo => Style::fg(TEXT_DIM),
        ItemStatus::InProgress => Style::bold_fg(NEON_CYAN),
        ItemStatus::Done => Style::fg(NEON_GREEN),
    }
}

pub open spec fn status_symbol_char(s: ItemStatus) -> char {
    match s {
        ItemStatus::Todo => '\u{25A0}',
        ItemStatus::InProgress => '\u{25B6}',
        ItemStatus::Done => '\u{25C9}',
    }
}

/// The one-character symbol of an item status.
pub fn status_symbol(status: &ItemStatus) -> (r: &'static str)
    ensures
        r@ == seq![status_symbol_char(*status)],
{
    match status {
        ItemStatus::Todo => {
            proof {
                reveal_strlit("\u{25A0}");
            }
            "\u{25A0}"
        },
        ItemStatus::InProgress => {
            proof {
                reveal_strlit("\u{25B6}");
            }
            "\u{25B6}"
        },
        ItemStatus::Done => {
            proof {
                reveal_strlit("\u{25C9}");
            }
            "\u{25C9}"
        },
    }
}

/// The symbol as a character.
pub fn status_symbol_ch(status: &ItemStatus) -> (r: char)
    ensures
        r == status_symbol_char(*status),
{
    match status {
        ItemStatus::Todo => '\u{25A0}',
        ItemStatus::InProgress => '\u{25B6}',
        ItemStatus::Done => '\u{25C9}',
    }
}

/// Text style of a project status.
pub fn project_status_style(status: &ProjectStatus) -> (r: Style)
    ensures
        r == match *status {
            ProjectStatus::Active => fg(NEON_GREEN),
            ProjectStatus::Archived => fg(TEXT_DIM),
        },
{
    match status {
        ProjectStatus::Active => Style::fg(NEON_GREEN),
        ProjectStatus::Archived => Style::fg(TEXT_DIM),
    }
}

pub const BLOCKED_SYMBOL: &'static str = "\u{26A0}";

/// Style of the blocked marker.
pub fn blocked_style() -> (r: Style)
    ensures
        r == fg(NEON_ORANGE),
{
    Style::fg(NEON_ORANGE)
}

/// Number of filled cells of a progress bar: `done / total` of `width`,
/// rounded down and at most `width`; none when `total` is 0.
pub open spec fn filled_cells(done: nat, total: nat, width: nat) -> nat {
    if total == 0 {
        0
    } else if (done * width) / total > width {
        width
    } else {
        (done * width) / total
    }
}

/// Filled blocks followed by empty blocks, `width` characters in all.
pub open spec fn progress_bar_spec(done: nat, total: nat, width: nat) -> Seq<char> {
    let f = filled_cells(done, total, width);
    repeat_char('\u{2588}', f) + repeat_char('\u{2591}', (width - f) as nat)
}

/// A progress bar of `width` block characters.
pub fn progress_bar(done: usize, total: usize, width: usize) -> (r: String)
    requires
        done * width <= usize::MAX,
    ensures
        r@ == progress_bar_spec(done as nat, total as nat, width as nat),
{
    let filled: usize = if total == 0 {
        0
    } else {
        let q = (done * width) / total;
        if q > width {
            width
        } else {
            q
        }
    };
    let empty = width - filled;
    let mut r = repeat('\u{2588}', filled);
    let tail = repeat('\u{2591}', empty);
    let ghost r0 = r@;
    r.append(tail.as_str());
    r
}

pub const HEADER_ART: &'static str = "\u{2590}\u{2588}\u{2588}\u{258C} BLUEPRINT \u{2590}\u{2588}\u{2588}\u{258C}";

} // verus!
