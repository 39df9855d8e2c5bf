use vstd::prelude::*;
use crate::deck_geometry::Facing;

verus! {

/// What a side of a conveyor does.
#[derive(Copy, Clone, PartialEq, Eq, Debug, Structural)]
pub enum ConveyorSide {
    Input,
    Output,
    Disconnected,
}

/// A conveyor: what each of its four sides does (indexed by facing), and the facing it last
/// sent material towards.
#[derive(Copy, Clone, PartialEq, Debug)]
pub struct Conveyor {
    pub sides: [ConveyorSide; 4],
    pub last_sent: Facing,
}

impl Conveyor {
    /// Material may be taken from a conveyor on any side that is not an input.
    pub fn can_be_material_source(&self, facing: Facing) -> (r: bool)
        requires
            facing@ < 4,
        ensures
            r <==> self.sides@[facing@] != ConveyorSide::Input,
    {
        self.sides[facing.as_index()] != ConveyorSide::Input
    }
}

/// The deck: the mechanism where the player reshuffles cards.
#[derive(Copy, Clone, PartialEq, Eq, Debug, Structural)]
pub struct Deck {}

impl Deck {
    /// Material may be taken from the deck on every side.
    pub fn can_be_material_source(&self, _facing: Facing) -> (r: bool)
        ensures
            r,
    {
        true
    }
}

/// Which of the player's two interactions: playing a card, or activating a mechanism.
#[derive(Copy, Clone, PartialEq, Eq, PartialOrd, Ord, Hash, Debug, Structural)]
pub enum WhichInteraction {
    PlayCard,
    ActivateMechanism,
}

} // verus!
