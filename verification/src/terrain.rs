use vstd::prelude::*;

verus! {

/// What fills a map tile besides the entities on it.
#[derive(Copy, Clone, PartialEq, Eq, Debug, Structural)]
pub enum Terrain {
    Nothing,
    Wall,
}

impl Default for Terrain {
    fn default() -> (r: Terrain)
        ensures
            r == Terrain::Nothing,
    {
        Terrain::Nothing
    }
}

/// A map tile: the entities on it, by index, and its terrain.
#[derive(Clone, PartialEq, Eq, Debug)]
pub struct Tile {
    pub entities: Vec<u64>,
    pub terrain: Terrain,
}

impl Default for Tile {
    fn default() -> (r: Tile)
        ensures
            r.entities@.len() == 0,
            r.terrain == Terrain::Nothing,
    {
        Tile { entities: Vec::new(), terrain: Terrain::Nothing }
    }
}

} // verus!
