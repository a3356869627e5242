use vstd::prelude::*;

use crate::behavior::BehaviorView;
use crate::character::{Character, CharacterState, Direction};

verus! {

/// The frame state of an animated sprite: the frame within the current
/// animation, and a repeating timer of `frame_millis` per frame.
#[derive(Debug, Clone, Copy)]
pub struct AnimatedSprite {
    pub animation_index: u32,
    pub frame_millis: u32,
    pub elapsed_millis: u32,
}

impl AnimatedSprite {
    pub open spec fn wf(&self) -> bool {
        &&& self.frame_millis > 0
        &&& self.elapsed_millis < self.frame_millis
    }

    /// A sprite at its first frame whose frames last `millis`.
    pub fn with_frame_millis(millis: u32) -> (r: AnimatedSprite)
        requires
            millis > 0,
        ensures
            r.wf(),
            r.animation_index == 0,
            r.frame_millis == millis,
            r.elapsed_millis == 0,
    {
        AnimatedSprite { animation_index: 0, frame_millis: millis, elapsed_millis: 0 }
    }

    /// Back to the first frame of the animation.
    pub fn reset(&mut self)
        ensures
            final(self).animation_index == 0,
            final(self).frame_millis == old(self).frame_millis,
            final(self).elapsed_millis == old(self).elapsed_millis,
    {
        self.animation_index = 0;
    }

    /// Lets `delta` milliseconds pass; tells whether a frame's time ran out,
    /// and keeps what is left over.
    pub fn tick(&mut self, delta: u32) -> (finished: bool)
        requires
            old(self).wf(),
        ensures
            final(self).wf(),
            final(self).animation_index == old(self).animation_index,
            final(self).frame_millis == old(self).frame_millis,
            finished == (old(self).elapsed_millis + delta >= old(self).frame_millis),
            final(self).elapsed_millis == (old(self).elapsed_millis + delta) % (old(self).frame_millis as int),
    {
        let total: u64 = self.elapsed_millis as u64 + delta as u64;
        let frame: u64 = self.frame_millis as u64;
        self.elapsed_millis = (total % frame) as u32;
        total >= frame
    }
}

/// Whether the character shows its stepping frame at once: it is stepping,
/// and it has just changed state or is pressed against an obstruction.
pub open spec fn step_now(c: Character) -> bool {
    c.state.stepping() && (c.collision.tags().contains(BehaviorView::Obstruct) || c.state != c.previous_state)
}

pub fn wants_step_frame(character: &Character) -> (r: bool)
    ensures
        r == step_now(*character),
{
    let state = character.state();
    character.is_stepping() && (character.collision.is_obstruction() || state != character.previous_state())
}

/// The row of a character's sheet for each direction.
pub open spec fn direction_row(d: Direction) -> int {
    match d {
        Direction::North => 2,
        Direction::South => 0,
        Direction::East => 6,
        Direction::West => 4,
    }
}

/// The length and first cell of a character's animation: one idle cell
/// after the first of the row, four walking cells from the row's start,
/// four running cells on the next row; four cells to a row.
pub open spec fn animation_cells(d: Direction, s: CharacterState) -> (int, int) {
    let row = direction_row(d);
    match s {
        CharacterState::Idle => (1, row * 4 + 1),
        CharacterState::Walking => (4, row * 4),
        CharacterState::Running => (4, (row + 1) * 4),
    }
}

/// The next frame of a sprite with `total_cells` cells: of a character's
/// animation if it is one, else of all the cells in turn. A stepping
/// character jumps to the stepping frame, the third of its animation.
/// Gives the index within the animation and the cell of the sheet.
pub fn next_frame(character: Option<&Character>, animation_index: u32, stepping: bool, total_cells: u32) -> (r: (u32, u32))
    requires
        total_cells > 0,
    ensures
        ({
            let (n, start) = match character {
                None => (total_cells as int, 0int),
                Some(c) => animation_cells(c.direction, c.state),
            };
            let next = if stepping {
                2int
            } else {
                animation_index + 1
            };
            &&& r.0 == next % n
            &&& r.1 == (start + next % n) % (total_cells as int)
        }),
{
    let (n, start): (u64, u64) = match character {
        None => (total_cells as u64, 0),
        Some(c) => {
            let row: u64 = match c.direction {
                Direction::North => 2,
                Direction::South => 0,
                Direction::East => 6,
                Direction::West => 4,
            };
            match c.state() {
                CharacterState::Idle => (1, row * 4 + 1),
                CharacterState::Walking => (4, row * 4),
                CharacterState::Running => (4, (row + 1) * 4),
            }
        },
    };
    let next: u64 = if stepping {
        2
    } else {
        animation_index as u64 + 1
    };
    let index = next % n;
    assert(index < n);
    let cell = (start + index) % (total_cells as u64);
    assert(cell < total_cells);
    (index as u32, cell as u32)
}

} // verus!
