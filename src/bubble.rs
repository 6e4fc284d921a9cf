//! Bubble colours and the record kept for each placed bubble.

use vstd::prelude::*;

use crate::chance::{random_below, random_ratio};
use crate::hex::HexCoord;

verus! {

/// The six bubble colours.
#[derive(Debug, Clone, Copy, PartialEq, Eq, Hash, Structural)]
pub enum BubbleColor {
    Red,
    Blue,
    Green,
    Yellow,
    Purple,
    Orange,
}

/// The colour numbered `i` in the order Red, Blue, Green, Yellow, Purple,
/// Orange; any larger number gives Orange.
pub open spec fn color_of_index(i: int) -> BubbleColor {
    if i == 0 {
        BubbleColor::Red
    } else if i == 1 {
        BubbleColor::Blue
    } else if i == 2 {
        BubbleColor::Green
    } else if i == 3 {
        BubbleColor::Yellow
    } else if i == 4 {
        BubbleColor::Purple
    } else {
        BubbleColor::Orange
    }
}

/// Chance, in tenths, that a weighted draw reuses a colour already on the grid.
pub const GRID_COLOR_TENTHS: u32 = 7;

impl BubbleColor {
    /// The colour numbered `i` (see `color_of_index`).
    pub fn from_index(i: usize) -> (c: BubbleColor)
        ensures
            c == color_of_index(i as int),
    {
        match i {
            0 => BubbleColor::Red,
            1 => BubbleColor::Blue,
            2 => BubbleColor::Green,
            3 => BubbleColor::Yellow,
            4 => BubbleColor::Purple,
            _ => BubbleColor::Orange,
        }
    }

    /// A colour drawn uniformly from the six.
    pub fn random() -> (c: BubbleColor) {
        BubbleColor::from_index(random_below(6))
    }

    /// The outcome of a weighted draw: the colour at `pick` in `grid_colors`
    /// when the draw favoured the grid and there is one, else `fallback`.
    pub fn weighted_choice(
        grid_colors: &Vec<BubbleColor>,
        favour_grid: bool,
        pick: usize,
        fallback: BubbleColor,
    ) -> (c: BubbleColor)
        requires
            grid_colors@.len() > 0 ==> pick < grid_colors@.len(),
        ensures
            c == (if favour_grid && grid_colors@.len() > 0 {
                grid_colors@[pick as int]
            } else {
                fallback
            }),
    {
        if favour_grid && grid_colors.len() > 0 {
            grid_colors[pick]
        } else {
            fallback
        }
    }

    /// A colour that, seven times in ten, is one of `grid_colors` picked
    /// uniformly; otherwise (and always when `grid_colors` is empty) a uniform
    /// draw from the six.
    pub fn random_weighted(grid_colors: &Vec<BubbleColor>) -> (c: BubbleColor)
        ensures
            grid_colors@.len() == 0 ==> exists|i: int| 0 <= i < 6 && c == color_of_index(i),
    {
        if grid_colors.len() == 0 {
            let i = random_below(6);
            return BubbleColor::from_index(i);
        }
        let favour = random_ratio(GRID_COLOR_TENTHS, 10);
        if favour {
            let pick = random_below(grid_colors.len());
            BubbleColor::weighted_choice(grid_colors, true, pick, BubbleColor::Red)
        } else {
            BubbleColor::random()
        }
    }
}

/// A placed bubble: its colour and the cell it was placed in.
#[derive(Debug, Clone, Copy, PartialEq, Eq, Structural)]
pub struct Bubble {
    pub color: BubbleColor,
    pub coord: HexCoord,
}

} // verus!
