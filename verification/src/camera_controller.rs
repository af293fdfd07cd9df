use vstd::prelude::*;
use crate::box_collider::Scalar;

verus! {

/// Rank of 45, an eighth of a turn in degrees.
pub const RANK_45: i32 = 0x4234_0000;

/// Rank of 135, three eighths of a turn in degrees.
pub const RANK_135: i32 = 0x4307_0000;

/// One of the four directions that an observer can face.
#[derive(Clone, Copy, Debug, PartialEq, Eq, Structural)]
pub enum Direction {
    North,
    South,
    East,
    West,
}

impl Direction {
    /// The name of the direction, as a sequence of characters.
    pub open spec fn name(&self) -> Seq<char> {
        match self {
            Direction::North => "North"@,
            Direction::South => "South"@,
            Direction::East => "East"@,
            Direction::West => "West"@,
        }
    }

    pub fn as_string(&self) -> (name: String)
        ensures
            name@ == self.name(),
    {
        match &self {
            Direction::North => "North".to_owned(),
            Direction::South => "South".to_owned(),
            Direction::East => "East".to_owned(),
            Direction::West => "West".to_owned(),
        }
    }
}

/// The direction that an observer faces whose yaw is `degrees`: east within
/// an eighth of a turn of 0, north within an eighth of a turn of -90, south
/// for what is left between -135 and 135, and west for the rest and for
/// not-a-number.
pub open spec fn facing(degrees: Scalar) -> Direction {
    let far = Scalar::number(RANK_135 as int);
    let near = Scalar::number(RANK_45 as int);
    let far_back = Scalar::number(-RANK_135);
    let near_back = Scalar::number(-RANK_45);
    if degrees.gt(near_back) && degrees.lt(near) {
        Direction::East
    } else if degrees.gt(far_back) && degrees.lt(near_back) {
        Direction::North
    } else if degrees.gt(far_back) && degrees.lt(far) {
        Direction::South
    } else {
        Direction::West
    }
}

/// The direction that an observer faces whose yaw is `degrees`.
pub fn get_facing_dir(degrees: Scalar) -> (direction: Direction)
    ensures
        direction == facing(degrees),
{
    let far = Scalar::from_rank(RANK_135);
    let near = Scalar::from_rank(RANK_45);
    let far_back = Scalar::from_rank(-RANK_135);
    let near_back = Scalar::from_rank(-RANK_45);
    if degrees.is_greater(near_back) && degrees.is_less(near) {
        Direction::East
    } else if degrees.is_greater(far_back) && degrees.is_less(near_back) {
        Direction::North
    } else if degrees.is_greater(far_back) && degrees.is_less(far) {
        Direction::South
    } else {
        Direction::West
    }
}

} // verus!
