use vstd::prelude::*;

verus! {

/// The terrain kind of one grid cell.
#[derive(Debug, Copy, Clone, PartialEq, Eq, Structural)]
pub enum ImmovableType {
    Background,
    Wall,
    Emerald,
    Bag,
}

/// One tile of the grid: its kind and the position of its top-left corner
/// (`x` along rows, `y` along columns, in position units).
#[derive(Debug, Copy, Clone, PartialEq, Eq, Structural)]
pub struct Immovable {
    pub type_object: ImmovableType,
    pub x: i64,
    pub y: i64,
}

/// The kind of the tile at row `r`, column `c`, if the grid has one there.
pub open spec fn kind_at(g: Seq<Vec<Immovable>>, r: int, c: int) -> Option<ImmovableType> {
    if 0 <= r < g.len() && 0 <= c < g[r]@.len() {
        Some(g[r]@[c].type_object)
    } else {
        None
    }
}

/// Reads the kind of the tile at row `r`, column `c`, if there is one.
pub fn tile_kind(g: &Vec<Vec<Immovable>>, r: usize, c: usize) -> (k: Option<ImmovableType>)
    ensures
        k == kind_at(g@, r as int, c as int),
{
    if r < g.len() && c < g[r].len() {
        Some(g[r][c].type_object)
    } else {
        None
    }
}

} // verus!
