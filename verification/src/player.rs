//! The avatar: a position with a fixed speed and size.

use vstd::prelude::*;

verus! {

/// How far the player moves along an axis in one step, in world units.
pub const PLAYER_SPEED: i64 = 5;

/// The side length of the player's box, in world units.
pub const PLAYER_SIZE: i64 = 20;

/// A point of the world.
#[derive(Clone, Copy, PartialEq, Eq, Structural, Debug)]
pub struct Position {
    pub x: i64,
    pub y: i64,
}

/// The avatar. Its position is the upper left corner of its box; a larger
/// `y` is further down.
#[derive(Clone, Copy, Debug)]
pub struct Player {
    position: Position,
    speed: i64,
    size: i64,
}

impl Player {
    #[verifier::type_invariant]
    spec fn inv(self) -> bool {
        self.speed == PLAYER_SPEED && self.size == PLAYER_SIZE
    }

    /// Where the player is.
    pub closed spec fn position(&self) -> Position {
        self.position
    }

    /// A player at `(x, y)`.
    pub fn new(x: i64, y: i64) -> (player: Player)
        ensures
            player.position() == (Position { x, y }),
    {
        Player { position: Position { x, y }, speed: PLAYER_SPEED, size: PLAYER_SIZE }
    }

    pub fn x(&self) -> (x: i64)
        ensures
            x == self.position().x,
    {
        self.position.x
    }

    pub fn y(&self) -> (y: i64)
        ensures
            y == self.position().y,
    {
        self.position.y
    }

    pub fn size(&self) -> (size: i64)
        ensures
            size == PLAYER_SIZE,
    {
        proof {
            use_type_invariant(self);
        }
        self.size
    }

    /// One step up.
    pub fn move_up(&mut self)
        requires
            old(self).position().y - PLAYER_SPEED >= i64::MIN,
        ensures
            final(self).position() == (Position {
                x: old(self).position().x,
                y: (old(self).position().y - PLAYER_SPEED) as i64,
            }),
    {
        proof {
            use_type_invariant(&*self);
        }
        self.position.y = self.position.y - self.speed;
    }

    /// One step down, unless the lower edge of the box would then lie below
    /// `max_height`: in that case the player stays.
    pub fn move_down(&mut self, max_height: i64)
        ensures
            final(self).position() == if old(self).position().y + PLAYER_SPEED + PLAYER_SIZE
                <= max_height {
                Position {
                    x: old(self).position().x,
                    y: (old(self).position().y + PLAYER_SPEED) as i64,
                }
            } else {
                old(self).position()
            },
    {
        proof {
            use_type_invariant(&*self);
        }
        let new_y: i128 = (self.position.y as i128) + (self.speed as i128);
        if new_y + (self.size as i128) <= max_height as i128 {
            self.position.y = new_y as i64;
        }
    }

    /// One step to the left.
    pub fn move_left(&mut self)
        requires
            old(self).position().x - PLAYER_SPEED >= i64::MIN,
        ensures
            final(self).position() == (Position {
                x: (old(self).position().x - PLAYER_SPEED) as i64,
                y: old(self).position().y,
            }),
    {
        proof {
            use_type_invariant(&*self);
        }
        self.position.x = self.position.x - self.speed;
    }

    /// One step to the right, unless the right edge of the box would then lie
    /// beyond `max_width`: in that case the player stays.
    pub fn move_right(&mut self, max_width: i64)
        ensures
            final(self).position() == if old(self).position().x + PLAYER_SPEED + PLAYER_SIZE
                <= max_width {
                Position {
                    x: (old(self).position().x + PLAYER_SPEED) as i64,
                    y: old(self).position().y,
                }
            } else {
                old(self).position()
            },
    {
        proof {
            use_type_invariant(&*self);
        }
        let new_x: i128 = (self.position.x as i128) + (self.speed as i128);
        if new_x + (self.size as i128) <= max_width as i128 {
            self.position.x = new_x as i64;
        }
    }

    /// The player has nothing of its own to advance between frames.
    pub fn update(&mut self)
        ensures
            final(self).position() == old(self).position(),
    {
    }
}

} // verus!
