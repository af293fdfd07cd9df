use vstd::prelude::*;

verus! {

/// User-tunable options of the client.
pub struct Settings {
    draw_distance: usize,
}

impl Settings {
    /// The draw distance, in chunks, that the settings hold.
    pub closed spec fn draw_distance(&self) -> usize {
        self.draw_distance
    }

    pub fn new(draw_distance: usize) -> (settings: Self)
        ensures
            settings.draw_distance() == draw_distance,
    {
        Self { draw_distance }
    }

    pub fn get_draw_distance(&self) -> (distance: usize)
        ensures
            distance == self.draw_distance(),
    {
        self.draw_distance
    }
}

} // verus!
