use vstd::prelude::*;

use crate::behavior::BehaviorView;
use crate::collider::Collision;

verus! {

/// The way a character faces.
#[derive(Debug, Copy, Clone, PartialEq, Eq, Structural)]
pub enum Direction {
    North,
    South,
    East,
    West,
}

/// What a character is doing with its legs.
#[derive(Debug, Copy, Clone, PartialEq, Eq, Structural)]
pub enum CharacterState {
    Idle,
    Walking,
    Running,
}

impl CharacterState {
    pub open spec fn stepping(self) -> bool {
        self is Walking || self is Running
    }

    /// Whether the state shows the character taking steps.
    pub fn is_stepping(&self) -> (r: bool)
        ensures
            r == self.stepping(),
    {
        match self {
            CharacterState::Walking | CharacterState::Running => true,
            CharacterState::Idle => false,
        }
    }
}

/// A moving actor: where it faces, what it does, its velocity as a
/// direction scaled to a fixed unit, its speed, and the tags it overlapped
/// in the last frame.
#[derive(Debug)]
pub struct Character {
    pub direction: Direction,
    pub state: CharacterState,
    pub previous_state: CharacterState,
    pub velocity_x: i32,
    pub velocity_y: i32,
    pub movement_speed: i32,
    pub collision: Collision,
}

impl Character {
    pub fn state(&self) -> (r: CharacterState)
        ensures
            r == self.state,
    {
        self.state
    }

    /// Records a new state; the one it replaces becomes the previous state.
    pub fn set_state(&mut self, state: CharacterState)
        ensures
            final(self).state == state,
            final(self).previous_state == old(self).state,
            final(self).direction == old(self).direction,
            final(self).velocity_x == old(self).velocity_x,
            final(self).velocity_y == old(self).velocity_y,
            final(self).movement_speed == old(self).movement_speed,
            final(self).collision == old(self).collision,
    {
        self.previous_state = self.state;
        self.state = state;
    }

    pub fn previous_state(&self) -> (r: CharacterState)
        ensures
            r == self.previous_state,
    {
        self.previous_state
    }

    /// Whether the last change of state made the character idle.
    pub fn did_just_become_idle(&self) -> (r: bool)
        ensures
            r == (self.previous_state != self.state && self.state
                == CharacterState::Idle),
    {
        self.previous_state != self.state && self.state == CharacterState::Idle
    }

    pub fn is_stepping(&self) -> (r: bool)
        ensures
            r == self.state.stepping(),
    {
        self.state.is_stepping()
    }
}

impl Default for Character {
    fn default() -> (r: Character)
        ensures
            r.direction == Direction::South,
            r.state == CharacterState::Idle,
            r.previous_state == CharacterState::Idle,
            r.velocity_x == 0,
            r.velocity_y == 0,
            r.movement_speed == 0,
            r.collision.wf(),
            r.collision.tags() == Set::<BehaviorView>::empty(),
    {
        Character {
            direction: Direction::South,
            state: CharacterState::Idle,
            previous_state: CharacterState::Idle,
            velocity_x: 0,
            velocity_y: 0,
            movement_speed: 0,
            collision: Collision::empty(),
        }
    }
}

} // verus!
