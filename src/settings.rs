use vstd::prelude::*;

verus! {

/// Default window width, in pixels.
pub const WIDTH: u32 = 1200;

/// Default window height, in pixels.
pub const HEIGHT: u32 = 800;

/// Window dimensions.
pub struct Settings {
    pub width: u32,
    pub height: u32,
}

impl Settings {
    /// The default window size.
    pub fn new() -> (s: Self)
        ensures
            s.width == WIDTH,
            s.height == HEIGHT,
    {
        Settings { width: WIDTH, height: HEIGHT }
    }
}

} // verus!
