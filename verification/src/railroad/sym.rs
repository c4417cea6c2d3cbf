//! The box-drawing characters the diagrams are made of.

use vstd::prelude::*;

verus! {

/// Start-of-diagram cap.
pub const START: char = '╟';

/// End-of-diagram cap.
pub const END: char = '╢';

/// Four-way junction.
pub const CROSS: char = '┼';

/// Junction open to the left.
pub const J_LEFT: char = '┤';

/// Junction open to the right.
pub const J_RIGHT: char = '├';

/// Junction open upward.
pub const J_UP: char = '┴';

/// Junction open downward.
pub const J_DOWN: char = '┬';

/// Bold junction open to the left.
pub const J_LEFT_B: char = '┨';

/// Bold junction open to the right.
pub const J_RIGHT_B: char = '┠';

/// Horizontal line.
pub const L_HORZ: char = '─';

/// Dashed horizontal line.
pub const L_HORZ_D: char = '╌';

/// Vertical line.
pub const L_VERT: char = '│';

/// Dashed vertical line.
pub const L_VERT_D: char = '┆';

/// Bold horizontal line.
pub const L_HORZ_B: char = '━';

/// Bold vertical line.
pub const L_VERT_B: char = '┃';

/// Square top-left corner.
pub const C_TL_SQR: char = '┌';

/// Square top-right corner.
pub const C_TR_SQR: char = '┐';

/// Square bottom-left corner.
pub const C_BL_SQR: char = '└';

/// Square bottom-right corner.
pub const C_BR_SQR: char = '┘';

/// Bold square top-left corner.
pub const C_TL_SQR_B: char = '┏';

/// Bold square top-right corner.
pub const C_TR_SQR_B: char = '┓';

/// Bold square bottom-left corner.
pub const C_BL_SQR_B: char = '┗';

/// Bold square bottom-right corner.
pub const C_BR_SQR_B: char = '┛';

/// Round top-left corner.
pub const C_TL_RND: char = '╭';

/// Round top-right corner.
pub const C_TR_RND: char = '╮';

/// Round bottom-left corner.
pub const C_BL_RND: char = '╰';

/// Round bottom-right corner.
pub const C_BR_RND: char = '╯';

} // verus!
