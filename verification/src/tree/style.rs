//! The glyph themes of the box diagram.

use vstd::prelude::*;

verus! {

/// The selectable themes.
#[derive(Debug, Clone, Copy, PartialEq, Eq)]
pub enum Style {
    Thin,
    Thick,
    Double,
    Rounded,
    Ascii,
}

/// The glyphs that one theme draws with.
#[derive(Debug, Clone, Copy, PartialEq, Eq)]
pub struct BoxDrawings {
    pub top_left: char,
    pub top_right: char,
    pub bottom_left: char,
    pub bottom_right: char,
    pub horizontal: char,
    pub vertical: char,
    /// Sits on the connector line above the centre of a child.
    pub down: char,
    /// Sits on the connector line below the centre of the parent.
    pub tee: char,
}

/// The glyph record of each theme.
pub open spec fn glyphs_of(style: Style) -> BoxDrawings {
    match style {
        Style::Thin => BoxDrawings {
            top_left: '┌',
            top_right: '┐',
            bottom_left: '└',
            bottom_right: '┘',
            horizontal: '─',
            vertical: '│',
            down: '┬',
            tee: '┴',
        },
        Style::Thick => BoxDrawings {
            top_left: '┏',
            top_right: '┓',
            bottom_left: '┗',
            bottom_right: '┛',
            horizontal: '━',
            vertical: '┃',
            down: '┳',
            tee: '┻',
        },
        Style::Double => BoxDrawings {
            top_left: '╔',
            top_right: '╗',
            bottom_left: '╚',
            bottom_right: '╝',
            horizontal: '═',
            vertical: '║',
            down: '╦',
            tee: '╩',
        },
        Style::Rounded => BoxDrawings {
            top_left: '╭',
            top_right: '╮',
            bottom_left: '╰',
            bottom_right: '╯',
            horizontal: '─',
            vertical: '│',
            down: '┬',
            tee: '┴',
        },
        Style::Ascii => BoxDrawings {
            top_left: '+',
            top_right: '+',
            bottom_left: '+',
            bottom_right: '+',
            horizontal: '-',
            vertical: '|',
            down: '+',
            tee: '+',
        },
    }
}

impl BoxDrawings {
    /// Looks up the glyphs of `style`. Total: every theme has an entry.
    pub fn new(style: Style) -> (glyphs: BoxDrawings)
        ensures
            glyphs == glyphs_of(style),
    {
        match style {
            Style::Thin => BoxDrawings {
                top_left: '┌',
                top_right: '┐',
                bottom_left: '└',
                bottom_right: '┘',
                horizontal: '─',
                vertical: '│',
                down: '┬',
                tee: '┴',
            },
            Style::Thick => BoxDrawings {
                top_left: '┏',
                top_right: '┓',
                bottom_left: '┗',
                bottom_right: '┛',
                horizontal: '━',
                vertical: '┃',
                down: '┳',
                tee: '┻',
            },
            Style::Double => BoxDrawings {
                top_left: '╔',
                top_right: '╗',
                bottom_left: '╚',
                bottom_right: '╝',
                horizontal: '═',
                vertical: '║',
                down: '╦',
                tee: '╩',
            },
            Style::Rounded => BoxDrawings {
                top_left: '╭',
                top_right: '╮',
                bottom_left: '╰',
                bottom_right: '╯',
                horizontal: '─',
                vertical: '│',
                down: '┬',
                tee: '┴',
            },
            Style::Ascii => BoxDrawings {
                top_left: '+',
                top_right: '+',
                bottom_left: '+',
                bottom_right: '+',
                horizontal: '-',
                vertical: '|',
                down: '+',
                tee: '+',
            },
        }
    }
}

} // verus!
