use vstd::prelude::*;

use crate::movable_objects::Direction;

verus! {

/// A point on the screen, in pixels.
#[derive(Debug, Clone, Copy, PartialEq, Eq, Structural)]
pub struct Position {
    pub x: i32,
    pub y: i32,
}

/// The point two pixels away from `p` in direction `d` (`p` itself for `None`).
pub open spec fn stepped(p: Position, d: Direction) -> Position {
    match d {
        Direction::Up => Position { y: (p.y - 2) as i32, ..p },
        Direction::Down => Position { y: (p.y + 2) as i32, ..p },
        Direction::Left => Position { x: (p.x - 2) as i32, ..p },
        Direction::Right => Position { x: (p.x + 2) as i32, ..p },
        Direction::Idle => p,
    }
}

impl Position {
    /// Moves the point two pixels in `direction`.
    pub fn move_to_direction(&mut self, direction: Direction)
        requires
            direction == Direction::Up ==> old(self).y >= i32::MIN + 2,
            direction == Direction::Down ==> old(self).y <= i32::MAX - 2,
            direction == Direction::Left ==> old(self).x >= i32::MIN + 2,
            direction == Direction::Right ==> old(self).x <= i32::MAX - 2,
        ensures
            *final(self) == stepped(*old(self), direction),
    {
        match direction {
            Direction::Up => self.y = self.y - 2,
            Direction::Down => self.y = self.y + 2,
            Direction::Left => self.x = self.x - 2,
            Direction::Right => self.x = self.x + 2,
            Direction::Idle => {},
        }
    }
}

} // verus!
