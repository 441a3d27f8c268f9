//! What the interactive side needs from the library besides the rules:
//! who plays each colour, and which square a point of the window falls on.
use vstd::prelude::*;

verus! {

/// Who chooses the moves of a colour.
#[derive(Debug, PartialEq, Eq, Clone, Copy, Structural)]
pub enum Thinker {
    Player,
    AI,
}

/// The square under point (x, y) of a square window `window_size` pixels
/// wide, as (column, row); none outside the window.
pub fn get_board_coordinates(coords: (u32, u32), window_size: u32) -> (r: Option<(usize, usize)>)
    ensures
        r == if coords.0 < window_size && coords.1 < window_size {
            Some(
                (
                    (coords.0 as int * 8 / window_size as int) as usize,
                    (coords.1 as int * 8 / window_size as int) as usize,
                ),
            )
        } else {
            None::<(usize, usize)>
        },
        r is Some ==> (r->0).0 < 8 && (r->0).1 < 8,
{
    let (x, y) = coords;
    if x >= window_size || y >= window_size {
        return None;
    }
    let bx = (x as u64) * 8 / (window_size as u64);
    let by = (y as u64) * 8 / (window_size as u64);
    assert(bx < 8) by (nonlinear_arith)
        requires
            bx as int == (x as int) * 8 / (window_size as int),
            x < window_size,
    ;
    assert(by < 8) by (nonlinear_arith)
        requires
            by as int == (y as int) * 8 / (window_size as int),
            y < window_size,
    ;
    Some((bx as usize, by as usize))
}

} // verus!
