use vstd::prelude::*;
use crate::design_world::DesignWorld;

verus! {

/// What the editor draws at one tile: the cursor, a marked tile, the border
/// frame, or a blank.
#[derive(Clone, Copy, PartialEq, Eq, Structural, Debug)]
pub enum DesignGlyph {
    Cursor,
    Marked,
    Border,
    Blank,
}

/// Renders nothing itself: classifies, tile by tile, what the editor shows,
/// for a display layer to draw.
pub struct DesignWorldDisplay {}

impl DesignWorldDisplay {
    /// The glyph class at `(x, y)`: the cursor wins, then a mark, then the
    /// border frame; everything else is blank.  An unmarked or out-of-range
    /// tile counts as "not set", the editor's missing-tile convention.
    pub open spec fn glyph_at(world: DesignWorld, x: int, y: int) -> DesignGlyph {
        if x == world.current_position.0 as int && y == world.current_position.1 as int {
            DesignGlyph::Cursor
        } else if world.marked(x, y) {
            DesignGlyph::Marked
        } else if x == 0 || y == 0 || x == world.max_x - 1 || y == world.max_y - 1 {
            DesignGlyph::Border
        } else {
            DesignGlyph::Blank
        }
    }

    /// The glyph class the editor shows at `(x, y)`.
    pub fn cell_glyph(world: &DesignWorld, x: u16, y: u16) -> (g: DesignGlyph)
        requires
            world.wf(),
            x < world.max_x,
            y < world.max_y,
        ensures
            g == Self::glyph_at(*world, x as int, y as int),
    {
        if x == world.current_position.0 && y == world.current_position.1 {
            DesignGlyph::Cursor
        } else if world.is_marked(x, y) {
            DesignGlyph::Marked
        } else if x == 0 || y == 0 || x == world.max_x - 1 || y == world.max_y - 1 {
            DesignGlyph::Border
        } else {
            DesignGlyph::Blank
        }
    }
}

} // verus!
