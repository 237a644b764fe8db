//! The events that systems leave in the queue for one another.

use vstd::prelude::*;
use crate::components::{CollisionKind, EntityId, GridVec};

verus! {

/// Something that happened during a tick, queued for the systems that run
/// later in the same tick.
#[derive(Clone, Copy, Debug, PartialEq, Eq, Structural)]
pub enum Event {
    /// The cell the head is about to enter holds `target`.
    Collision { source: EntityId, target: EntityId, pos: GridVec, kind: CollisionKind },
    /// The head reached the food `entity`, which stood at `pos`.
    SnakeEatFood { entity: EntityId, pos: GridVec },
    /// A new segment is to follow `ahead`, starting at `pos`.
    SpawnSnakeTail { ahead: EntityId, pos: GridVec, segment: u32 },
    /// The head ran into the snake.
    GameOver,
}

} // verus!
